use http::{HeaderMap, HeaderValue};
use ides::auth::{parse_from_headers, Role, Token};
use ides::error::ErrT;

fn case(cookie: &str, expect: Result<Token, ()>) {
    let mut h = HeaderMap::new();
    h.insert("Cookie", HeaderValue::from_str(cookie).unwrap());
    let result = Token::parse_from_headers(&h).map_err(|_| ());
    assert!(result == expect);
}

#[test]
fn auth_test_parse_from_empty_headers() {
    let h = HeaderMap::new();
    let result = Token::parse_from_headers(&h);
    if let Err(e) = result {
        assert_eq!(e.jenga()[0], ErrT::AuthNotAuthenticated);
    } else {
        panic!("expected result to be an error");
    }
}

#[test]
fn auth_test_parse_from_empty_cookie() {
    let mut h = HeaderMap::new();
    h.insert("Cookie", HeaderValue::from_str("").unwrap());
    let result = Token::parse_from_headers(&h);
    if let Err(e) = result {
        assert_eq!(e.peek(), ErrT::AuthNotAuthenticated);
    } else {
        panic!("expected result to be an error");
    }
}

#[test]
fn auth_test_parse_from_two_jar_cookie_first_spot() {
    case("token=foo ; bar=baz", Ok(Token::new("foo".into())));
}

#[test]
fn auth_test_parse_from_two_jar_cookie_second_spot() {
    case("bar=baz; token= foo;", Ok(Token::new("foo".into())));
}

#[test]
fn auth_test_parse_with_weird_whitespace() {
    case(
        "bar = baz ; token=boo bar ; other=value",
        Ok(Token::new("boo bar".into())),
    );
}

#[test]
fn auth_test_case_insensitive() {
    let mut h = HeaderMap::new();
    h.insert("cookie", HeaderValue::from_str("token=foo").unwrap());
    let result = Token::parse_from_headers(&h).map_err(|_| ());
    assert!(result == Ok(Token::new("foo".into())));
}

// The same behavior through the free function.

fn core_case(cookie: &str, expect: Result<Token, ()>) {
    let mut h = HeaderMap::new();
    h.insert("Cookie", HeaderValue::from_str(cookie).unwrap());
    let result = parse_from_headers(&h).map_err(|_| ());
    assert!(result == expect);
}

#[test]
fn core_test_parse_from_empty_headers() {
    let h = HeaderMap::new();
    let result = parse_from_headers(&h);
    if let Err(e) = result {
        assert_eq!(e.jenga()[0], ErrT::AuthNotAuthenticated);
    } else {
        panic!("expected result to be an error");
    }
}

#[test]
fn core_test_parse_from_empty_cookie() {
    let mut h = HeaderMap::new();
    h.insert("Cookie", HeaderValue::from_str("").unwrap());
    let result = parse_from_headers(&h);
    if let Err(e) = result {
        assert_eq!(e.jenga()[0], ErrT::AuthNotAuthenticated);
    } else {
        panic!("expected result to be an error");
    }
}

#[test]
fn core_test_parse_from_two_jar_cookie_first_spot() {
    core_case("token=foo ; bar=baz", Ok(Token::new("foo".into())));
}

#[test]
fn core_test_parse_from_two_jar_cookie_second_spot() {
    core_case("bar=baz; token= foo;", Ok(Token::new("foo".into())));
}

#[test]
fn core_test_parse_with_weird_whitespace() {
    core_case(
        "bar = baz ; token=boo bar ; other=value",
        Ok(Token::new("boo bar".into())),
    );
}

#[test]
fn core_test_case_insensitive() {
    let mut h = HeaderMap::new();
    h.insert("cookie", HeaderValue::from_str("token=foo").unwrap());
    let result = parse_from_headers(&h).map_err(|_| ());
    assert!(result == Ok(Token::new("foo".into())));
}

#[test]
fn test_token_from_cookie_directly() {
    let t = ides::auth::token_from_cookie("a=b; token=xyz; c=d").unwrap();
    assert_eq!(t.display_secret_value(), "xyz");
    assert!(ides::auth::token_from_cookie("a=b; c=d").is_none());
    assert!(ides::auth::token_from_cookie("").is_none());
}

#[test]
fn test_token_is_empty() {
    assert!(Token::new(String::new()).is_empty());
    assert!(!Token::new("x".into()).is_empty());
}

#[test]
fn test_sha256_hex_known_values() {
    // SHA-256 of the empty string and of "abc" are published test vectors.
    let empty = Token::new(String::new());
    assert_eq!(
        empty.sha256_hex(),
        "e3b0c44298fc1c149afbf4c8996fb92427ae41e4649b934ca495991b7852b855"
    );
    let abc = Token::new("abc".into());
    assert_eq!(
        abc.sha256_hex(),
        "ba7816bf8f01cfea414140de5dae2223b00361a396177a9cb410ff61f20015ad"
    );
}

#[test]
fn test_token_create_length() {
    // 66 random bytes encode to 88 base64 characters.
    let t = Token::create().unwrap();
    assert_eq!(t.display_secret_value().len(), 88);
}

#[test]
fn test_role_codes_and_names() {
    assert_eq!(Role::code(Role::Reader), 1);
    assert_eq!(Role::code(Role::Admin), 2);
    assert_eq!(Role::from_name("reader").unwrap(), Role::Reader);
    assert_eq!(Role::from_name("admin").unwrap(), Role::Admin);
    let err = Role::from_name("sovereign").unwrap_err();
    assert_eq!(err.peek(), ErrT::DbReturnedErronoeousRole);
}
