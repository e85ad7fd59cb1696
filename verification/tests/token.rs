use edgefirst_client::client::{
    group_id_named, server_from_token, token_expiration, token_server_url, token_username,
};
use edgefirst_client::dataset::Group;
use edgefirst_client::error::Error;

const GOOD: &str = "hdr.eyJzZXJ2ZXIiOiJ0ZXN0IiwidXNlcm5hbWUiOiJib2IifQ.sig";

#[test]
fn token_server_and_username() {
    assert_eq!(server_from_token(GOOD).unwrap(), "test");
    assert_eq!(token_username(GOOD).unwrap(), "bob");
    assert_eq!(token_server_url(GOOD).unwrap(), Some("https://test.edgefirst.studio".to_string()));
}

#[test]
fn empty_token_keeps_client_and_has_no_user() {
    assert_eq!(token_server_url("").unwrap(), None);
    assert!(matches!(token_username(""), Err(Error::EmptyToken)));
}

#[test]
fn token_needs_three_parts() {
    assert!(matches!(server_from_token("a.b"), Err(Error::InvalidToken)));
    assert!(matches!(server_from_token("a.b.c.d"), Err(Error::InvalidToken)));
}

#[test]
fn token_payload_must_be_base64() {
    assert!(matches!(server_from_token("a.!!!.c"), Err(Error::InvalidToken)));
}

#[test]
fn token_payload_must_be_json() {
    assert!(matches!(server_from_token("a.bm90IGpzb24.c"), Err(Error::JsonError(_))));
}

#[test]
fn token_server_must_be_text() {
    assert!(matches!(server_from_token("a.eyJzZXJ2ZXIiOjV9.c"), Err(Error::InvalidToken)));
    assert!(matches!(server_from_token("a.eyJ1c2VyIjoieCJ9.c"), Err(Error::InvalidToken)));
    assert_eq!(server_from_token("a.eyJzZXJ2ZXIiOiIifQ.c").unwrap(), "");
}

#[test]
fn token_expiration_reads_exp_seconds() {
    assert_eq!(token_expiration("h.eyJleHAiOjE0MzE2NDgwMDB9.s").unwrap(), 1431648000);
    assert_eq!(token_expiration("h.eyJleHAiOi0xfQ.s").unwrap(), -1);
}

#[test]
fn token_expiration_faults() {
    assert!(matches!(token_expiration(""), Err(Error::EmptyToken)));
    assert!(matches!(token_expiration("a.b"), Err(Error::InvalidToken)));
    assert!(matches!(token_expiration("h.eyJleHAiOiJzb29uIn0.s"), Err(Error::InvalidToken)));
    assert!(matches!(token_expiration("h.eyJleHAiOjEuNX0.s"), Err(Error::InvalidToken)));
    assert!(matches!(token_expiration("h.eyJ1c2VyIjoieCJ9.s"), Err(Error::InvalidToken)));
    assert!(matches!(token_expiration("a.bm90IGpzb24.c"), Err(Error::JsonError(_))));
}

#[test]
fn token_expiration_beyond_calendar_is_invalid() {
    assert!(matches!(
        token_expiration("h.eyJleHAiOjkyMjMzNzIwMzY4NTQ3NzU4MDd9.s"),
        Err(Error::InvalidToken)
    ));
}

#[test]
fn group_lookup_takes_first_match() {
    let groups = vec![
        Group { id: 3, name: "val".to_string() },
        Group { id: 7, name: "train".to_string() },
        Group { id: 9, name: "train".to_string() },
    ];
    assert_eq!(group_id_named(&groups, "train"), Some(7));
    assert_eq!(group_id_named(&groups, "val"), Some(3));
    assert_eq!(group_id_named(&groups, "Train"), None);
    assert_eq!(group_id_named(&Vec::new(), "train"), None);
}

#[test]
fn token_expiration_calendar_bounds() {
    // The last second of the year 262142 and the first of the year -262143
    // are the ends of the UTC calendar; one second past either is refused.
    assert_eq!(token_expiration("h.eyJleHAiOjgyMTAyNjY4NzY3OTl9.s").unwrap(), 8210266876799);
    assert!(matches!(token_expiration("h.eyJleHAiOjgyMTAyNjY4NzY4MDB9.s"), Err(Error::InvalidToken)));
    assert_eq!(token_expiration("h.eyJleHAiOi04MzM0NjAxMjI4ODAwfQ.s").unwrap(), -8334601228800);
    assert!(matches!(token_expiration("h.eyJleHAiOi04MzM0NjAxMjI4ODAxfQ.s"), Err(Error::InvalidToken)));
}
