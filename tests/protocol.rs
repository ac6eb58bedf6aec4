use portman::ports::UsedPort;
use portman::protocol::{
    allocation_reply, decimal_text, decode_request, failure_reply, invalid_reply, listing_reply,
    not_local_reply, split_words, ClientRequest,
};

fn gimme(line: &str) -> Option<(String, String)> {
    match decode_request(line) {
        ClientRequest::Gimme { service_name, user_name } => Some((service_name, user_name)),
        _ => None,
    }
}

#[test]
fn decimal_text_values() {
    assert_eq!(decimal_text(0), "0");
    assert_eq!(decimal_text(7), "7");
    assert_eq!(decimal_text(10), "10");
    assert_eq!(decimal_text(30000), "30000");
    assert_eq!(decimal_text(65535), "65535");
    assert_eq!(decimal_text(u64::MAX), u64::MAX.to_string());
}

#[test]
fn split_words_on_ascii_whitespace() {
    assert_eq!(split_words("  GIMME\tsvc \r\n user  "), vec!["GIMME", "svc", "user"]);
    assert_eq!(split_words(""), Vec::<String>::new());
    assert_eq!(split_words(" \t "), Vec::<String>::new());
    assert_eq!(split_words("a\x0Cb"), vec!["a", "b"]);
    assert_eq!(split_words("é ü"), vec!["é", "ü"]);
}

#[test]
fn decode_gimme() {
    assert_eq!(gimme("GIMME svc user"), Some((String::from("svc"), String::from("user"))));
    assert_eq!(gimme("  GIMME   svc\tuser "), Some((String::from("svc"), String::from("user"))));
}

#[test]
fn decode_gimme_with_wrong_word_count_is_invalid() {
    assert!(matches!(decode_request("GIMME svc"), ClientRequest::Invalid));
    assert!(matches!(decode_request("GIMME"), ClientRequest::Invalid));
    assert!(matches!(decode_request("GIMME a b c"), ClientRequest::Invalid));
}

#[test]
fn decode_list_and_terminate() {
    assert!(matches!(decode_request("LIST"), ClientRequest::List));
    assert!(matches!(decode_request(" LIST "), ClientRequest::List));
    assert!(matches!(decode_request("TERMINATE"), ClientRequest::Terminate));
}

#[test]
fn decode_list_with_trailing_words_is_invalid() {
    assert!(matches!(decode_request("LIST extra"), ClientRequest::Invalid));
    assert!(matches!(decode_request("TERMINATE now"), ClientRequest::Invalid));
}

#[test]
fn decode_other_lines_are_invalid() {
    assert!(matches!(decode_request(""), ClientRequest::Invalid));
    assert!(matches!(decode_request("   "), ClientRequest::Invalid));
    assert!(matches!(decode_request("list"), ClientRequest::Invalid));
    assert!(matches!(decode_request("gimme a b"), ClientRequest::Invalid));
    assert!(matches!(decode_request("HELLO"), ClientRequest::Invalid));
}

#[test]
fn failure_replies() {
    assert_eq!(failure_reply("why"), "FAIL why\n");
    assert_eq!(invalid_reply(), "FAIL - invalid request\n");
    assert_eq!(not_local_reply(), "FAIL can only allocate to local senders\n");
}

#[test]
fn allocation_replies() {
    assert_eq!(allocation_reply(&Ok(30000)), "OK 30000\n");
    assert_eq!(
        allocation_reply(&Err(String::from("No free ports available"))),
        "FAIL No free ports available\n"
    );
}

#[test]
fn listing_replies() {
    assert_eq!(listing_reply(&vec![]), "OK 0\n");
    let rows = vec![UsedPort::new(31000, "a", "x"), UsedPort::new(31002, "b", "y")];
    assert_eq!(listing_reply(&rows), "OK 2\n31000 a x\n31002 b y\n");
}
