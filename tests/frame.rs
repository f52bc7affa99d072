use skaja::{Command, FrameReader, Layout, Request};

fn frame_of(command: Command) -> Vec<u8> {
    command.to_request().unwrap().into_payload()
}

fn decode(frame: Vec<u8>) -> Command {
    Command::try_from(Request::new_with_payload(frame)).unwrap()
}

#[test]
fn a_frame_in_one_chunk() {
    let bytes = frame_of(Command::Put("key".to_string(), "value".to_string()));
    let mut reader = FrameReader::new(Layout::Request);
    assert_eq!(reader.feed(&bytes), bytes.len());
    assert!(reader.is_complete());
    assert_eq!(reader.wanted(), 0);
    assert_eq!(decode(reader.take_frame()), Command::Put("key".to_string(), "value".to_string()));
    assert!(!reader.is_complete());
    assert_eq!(reader.wanted(), 4);
}

#[test]
fn every_split_into_two_chunks_reads_the_same_frame() {
    let command = || Command::Put("clé".to_string(), "v".to_string());
    let bytes = frame_of(command());
    for cut in 0..=bytes.len() {
        let mut reader = FrameReader::new(Layout::Request);
        let a = reader.feed(&bytes[..cut]);
        assert_eq!(a, cut);
        let b = reader.feed(&bytes[cut..]);
        assert_eq!(a + b, bytes.len());
        assert!(reader.is_complete());
        assert_eq!(decode(reader.take_frame()), command());
    }
}

#[test]
fn one_byte_at_a_time_reads_the_same_frame() {
    let bytes = frame_of(Command::Delete("testing".to_string()));
    let mut reader = FrameReader::new(Layout::Request);
    for (i, b) in bytes.iter().enumerate() {
        assert!(!reader.is_complete());
        assert!(reader.wanted() >= 1);
        assert_eq!(reader.feed(&[*b]), 1, "byte {}", i);
    }
    assert!(reader.is_complete());
    assert_eq!(decode(reader.take_frame()), Command::Delete("testing".to_string()));
}

#[test]
fn no_byte_past_the_frame_is_taken() {
    let first = frame_of(Command::Get("a".to_string()));
    let second = frame_of(Command::Get("b".to_string()));
    let mut stream = first.clone();
    stream.extend_from_slice(&second);
    let mut reader = FrameReader::new(Layout::Request);
    let taken = reader.feed(&stream);
    assert_eq!(taken, first.len());
    assert_eq!(reader.take_frame(), first);
    assert_eq!(reader.feed(&stream[taken..]), second.len());
    assert_eq!(reader.take_frame(), second);
}

#[test]
fn wanted_counts_the_missing_bytes_of_the_current_piece() {
    let bytes = frame_of(Command::Get("abc".to_string()));
    let mut reader = FrameReader::new(Layout::Request);
    assert_eq!(reader.wanted(), 4);
    reader.feed(&bytes[..2]);
    assert_eq!(reader.wanted(), 2);
    reader.feed(&bytes[2..4]);
    assert_eq!(reader.wanted(), 4);
    reader.feed(&bytes[4..8]);
    assert_eq!(reader.wanted(), 3);
}

#[test]
fn zero_fields_and_empty_fields() {
    let mut reader = FrameReader::new(Layout::Request);
    reader.feed(&[0, 0, 0, 0]);
    assert!(reader.is_complete());
    let mut reader = FrameReader::new(Layout::Request);
    reader.feed(&[2, 0, 0, 0, 0, 0, 0, 0]);
    assert!(!reader.is_complete());
    assert_eq!(reader.wanted(), 4);
    reader.feed(&[0, 0, 0, 0]);
    assert!(reader.is_complete());
}

#[test]
fn response_frames_have_one_field() {
    let mut reader = FrameReader::new(Layout::Response);
    reader.feed(&[0, 0, 0, 0, 2, 0]);
    assert_eq!(reader.wanted(), 2);
    reader.feed(&[0, 0, 79]);
    assert_eq!(reader.wanted(), 1);
    assert_eq!(reader.feed(&[75, 1, 2]), 1);
    assert!(reader.is_complete());
    assert_eq!(reader.as_bytes(), &[0, 0, 0, 0, 2, 0, 0, 0, 79, 75]);
}
