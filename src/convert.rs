//! Conversions that borrow their source instead of consuming it.

use crate::command::Command;
use crate::request::{encodable, encode_request, EncodeError, Request};
use vstd::prelude::*;

verus! {

/// Like `TryInto`, but takes the source by mutable reference.
pub trait Extract<T> {
    type Error;

    fn extract(&mut self) -> Result<T, Self::Error>;
}

/// Like `TryFrom`, but takes the source by mutable reference. Every type
/// that a source can be extracted into has it.
pub trait OutOf<T>: Sized {
    type Error;

    fn outof(source: &mut T) -> Result<Self, Self::Error>;
}

impl<T: Extract<R>, R> OutOf<T> for R {
    type Error = <T as Extract<R>>::Error;

    fn outof(source: &mut T) -> Result<R, Self::Error> {
        source.extract()
    }
}

impl Extract<Request> for Command {
    type Error = EncodeError;

    /// The request that carries the command; see `Command::to_request`.
    fn extract(&mut self) -> (r: Result<Request, EncodeError>)
        ensures
            *final(self) == *old(self),
            match r {
                Ok(req) => encodable(old(self)@) && req.bytes() == encode_request(old(self)@)
                    && req.cursor() == 4,
                Err(_) => !encodable(old(self)@),
            },
    {
        self.to_request()
    }
}

} // verus!
