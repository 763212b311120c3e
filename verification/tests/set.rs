use redis_lite::set::{parse_set_arguments, KeyExistence, KeyExpiry, SetArgs};
use redis_lite::storage_result::StorageError;

#[test]
fn test_parse_nx() {
    let commands: Vec<String> = vec![String::from("nx")];
    let args = parse_set_arguments(&commands).unwrap();
    assert_eq!(args.existence, Some(KeyExistence::NX));
}

#[test]
fn test_parse_nx_lowercase() {
    let commands: Vec<String> = vec![String::from("NX")];
    let args = parse_set_arguments(&commands).unwrap();
    assert_eq!(args.existence, Some(KeyExistence::NX));
}

fn words(w: &[&str]) -> Vec<String> {
    w.iter().map(|s| s.to_string()).collect()
}

fn syntax_error_text(r: Result<SetArgs, StorageError>) -> String {
    match r {
        Err(StorageError::CommandSyntaxError(s)) => s,
        other => panic!("expected a syntax error, got {:?}", other),
    }
}

#[test]
fn parses_all_options() {
    let args = parse_set_arguments(&words(&["Ex", "10", "xx", "GET"])).unwrap();
    assert_eq!(
        args,
        SetArgs { expiry: Some(KeyExpiry::EX(10)), existence: Some(KeyExistence::XX), get: true }
    );
    let args = parse_set_arguments(&words(&["px", "+250"])).unwrap();
    assert_eq!(args.expiry, Some(KeyExpiry::PX(250)));
    assert_eq!(parse_set_arguments(&words(&[])).unwrap(), SetArgs::new());
}

#[test]
fn nx_and_xx_exclude_each_other() {
    let text = syntax_error_text(parse_set_arguments(&words(&["nx", "XX"])));
    assert_eq!(text, "nx XX");
    let text = syntax_error_text(parse_set_arguments(&words(&["xx", "nx"])));
    assert_eq!(text, "xx nx");
}

#[test]
fn ex_and_px_exclude_each_other() {
    let text = syntax_error_text(parse_set_arguments(&words(&["ex", "1", "px", "2"])));
    assert_eq!(text, "ex 1 px 2");
    // the same option twice is accepted, the later value wins
    let args = parse_set_arguments(&words(&["ex", "1", "ex", "2"])).unwrap();
    assert_eq!(args.expiry, Some(KeyExpiry::EX(2)));
}

#[test]
fn expiry_needs_a_number() {
    assert_eq!(syntax_error_text(parse_set_arguments(&words(&["ex"]))), "ex");
    assert_eq!(syntax_error_text(parse_set_arguments(&words(&["px", "-1"]))), "px -1");
    assert_eq!(
        syntax_error_text(parse_set_arguments(&words(&["ex", "18446744073709551616"]))),
        "ex 18446744073709551616"
    );
    let args = parse_set_arguments(&words(&["ex", "18446744073709551615"])).unwrap();
    assert_eq!(args.expiry, Some(KeyExpiry::EX(u64::MAX)));
}

#[test]
fn unknown_option_is_refused() {
    assert_eq!(syntax_error_text(parse_set_arguments(&words(&["keepttl"]))), "keepttl");
}
