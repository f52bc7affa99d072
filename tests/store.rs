use skaja::{Command, StatusCodes, Store};

fn run(store: &mut Store, c: Command) -> (StatusCodes, Option<String>) {
    store.execute(c).into_parts()
}

#[test]
fn get_set_delete_on_the_store() {
    let mut store = Store::new();
    assert_eq!(
        run(&mut store, Command::Get("k".into())),
        (StatusCodes::ClientErr, Some(r#"Key "k" not found."#.to_string()))
    );
    assert_eq!(
        run(&mut store, Command::Put("k".into(), "v1".into())),
        (StatusCodes::Success, Some(r#"Key "k" set to "v1"."#.to_string()))
    );
    assert_eq!(run(&mut store, Command::Put("k".into(), "v2".into())).0, StatusCodes::Success);
    assert_eq!(run(&mut store, Command::Put("j".into(), "w".into())).0, StatusCodes::Success);
    assert_eq!(run(&mut store, Command::Get("k".into())), (StatusCodes::Success, Some("v2".to_string())));
    assert_eq!(run(&mut store, Command::Get("k".into())), (StatusCodes::Success, Some("v2".to_string())));
    assert_eq!(
        run(&mut store, Command::Delete("k".into())),
        (StatusCodes::Success, Some(r#"Key "k" deleted."#.to_string()))
    );
    assert_eq!(
        run(&mut store, Command::Get("k".into())),
        (StatusCodes::ClientErr, Some(r#"Key "k" not found."#.to_string()))
    );
    assert_eq!(
        run(&mut store, Command::Delete("k".into())),
        (StatusCodes::ClientErr, Some(r#"Key "k" not found."#.to_string()))
    );
    assert_eq!(run(&mut store, Command::Get("j".into())), (StatusCodes::Success, Some("w".to_string())));
}
