//! Reader identity: bearer tokens, roles, and the cookie parsing that
//! recovers a token from request headers.
//!
//! A token's secret value never leaves the process except through
//! [`Token::display_secret_value`]; storage only ever sees its hex-encoded
//! SHA-256 digest.

use vstd::prelude::*;

use crate::bytes::{hex_of, to_base64, to_hex};
use crate::error::{ErrStack, ErrT};
use crate::text::{
    chars_eq, chars_of, chars_to_string, copy_range, find_char, first_at, lemma_first_at_bounds,
    trim, trim_skip_exec,
};

verus! {

/// An authenticated caller: who they are, what they may do, and the id of
/// the token they presented.
pub struct Auth {
    pub name: String,
    pub role: Role,
    pub token_id: i32,
}

/// The three outcomes of an authentication attempt.
pub enum AuthResult {
    Authenticated(Auth),
    NotAuthenticated,
    Error(ErrStack),
}

/// What an authenticated caller is allowed to do.
#[derive(Clone, Copy, Debug, Eq, PartialEq, Structural)]
pub enum Role {
    Reader,
    Admin,
}

impl Role {
    /// The small-integer code this role is stored under.
    pub open spec fn spec_code(self) -> int {
        match self {
            Role::Reader => 1,
            Role::Admin => 2,
        }
    }

    pub fn code(self) -> (r: i32)
        ensures
            r == self.spec_code(),
    {
        match self {
            Role::Reader => 1,
            Role::Admin => 2,
        }
    }

    /// Decode a stored role name; anything but the two known names is a
    /// data-integrity error.
    pub fn from_name(name: &str) -> (r: Result<Role, ErrStack>)
        ensures
            match r {
                Ok(role) => (name@ == "reader"@ && role == Role::Reader) || (name@ == "admin"@
                    && role == Role::Admin),
                Err(e) => {
                    &&& name@ != "reader"@ && name@ != "admin"@
                    &&& e.wf()
                    &&& e@.last().variant == ErrT::DbReturnedErronoeousRole
                },
            },
    {
        let chars = chars_of(name);
        if chars_eq(&chars, &chars_of("reader")) {
            Ok(Role::Reader)
        } else if chars_eq(&chars, &chars_of("admin")) {
            Ok(Role::Admin)
        } else {
            Err(
                ErrStack::new(ErrT::DbReturnedErronoeousRole).ctx(
                    String::from_str("role does not match an expected type"),
                ),
            )
        }
    }
}

/// A reader's bearer token: a secret string.
#[derive(Eq, PartialEq)]
pub struct Token(String);

impl View for Token {
    type V = Seq<char>;

    closed spec fn view(&self) -> Seq<char> {
        self.0@
    }
}

/// What SHA-256 digests a character string to (through its UTF-8 bytes);
/// the digest depends on the input alone.
pub uninterp spec fn sha256_of(s: Seq<char>) -> Seq<u8>;

/// Relies on aws-lc-rs's `digest` with `SHA256`: a 32-byte digest computed
/// from the input bytes alone.
#[verifier::external_body]
fn sha256_digest(s: &str) -> (r: Vec<u8>)
    ensures
        r@ == sha256_of(s@),
        r@.len() == 32,
{
    aws_lc_rs::digest::digest(&aws_lc_rs::digest::SHA256, s.as_bytes()).as_ref().to_vec()
}

/// Relies on aws-lc-rs's `rand::fill`: fills the buffer with random bytes,
/// or reports an unspecified error.  Nothing can be promised of the values.
#[verifier::external_body]
fn fill_random(buf: &mut Vec<u8>) -> (r: Result<(), ()>)
    ensures
        final(buf)@.len() == old(buf)@.len(),
{
    aws_lc_rs::rand::fill(buf.as_mut_slice()).map_err(|_| ())
}

#[verifier::external_type_specification]
#[verifier::external_body]
#[verifier::reject_recursive_types(T)]
pub struct ExHeaderMap<T>(http::HeaderMap<T>);

#[verifier::external_type_specification]
#[verifier::external_body]
pub struct ExHeaderValue(http::HeaderValue);

/// Relies on http's `HeaderMap::get`: looks a header up by name,
/// case-insensitively.  The map is opaque, so nothing is promised of the
/// result.
#[verifier::external_body]
fn get_header<'a>(headers: &'a http::HeaderMap, name: &str) -> Option<&'a http::HeaderValue> {
    headers.get(name)
}

/// Relies on http's `HeaderValue::to_str`: yields the value as a string
/// exactly when it is visible ASCII.
#[verifier::external_body]
fn header_value_str(v: &http::HeaderValue) -> Result<String, ()> {
    match v.to_str() {
        Ok(s) => Ok(s.to_owned()),
        Err(_) => Err(()),
    }
}

/// What one `key=value` cookie item yields: the trimmed value, when the
/// trimmed key is exactly `token`.
pub open spec fn item_token(item: Seq<char>) -> Option<Seq<char>> {
    let t = trim(item);
    let e = first_at(t, '=');
    if e == t.len() {
        None
    } else {
        let key = trim(t.take(e));
        let rest = t.skip(e + 1);
        let val = rest.take(first_at(rest, '='));
        if key == "token"@ {
            Some(trim(val))
        } else {
            None
        }
    }
}

/// What a whole `Cookie` header yields: the first `token` item wins.
pub open spec fn cookie_token(s: Seq<char>) -> Option<Seq<char>>
    decreases s.len(),
    via cookie_token_decreases
{
    let j = first_at(s, ';');
    match item_token(s.take(j)) {
        Some(t) => Some(t),
        None => {
            if j >= s.len() {
                None
            } else {
                cookie_token(s.skip(j + 1))
            }
        },
    }
}

#[via_fn]
proof fn cookie_token_decreases(s: Seq<char>) {
    lemma_first_at_bounds(s, ';');
}

fn item_token_exec(item: &Vec<char>) -> (r: Option<Vec<char>>)
    ensures
        match item_token(item@) {
            Some(t) => r is Some && r->0@ == t,
            None => r is None,
        },
{
    proof {
        assert(item@.skip(0) =~= item@);
    }
    let t = trim_skip_exec(item, 0);
    let e = find_char(&t, '=', 0);
    proof {
        assert(t@.skip(0) =~= t@);
    }
    if e == t.len() {
        return None;
    }
    let key_raw = copy_range(&t, 0, e);
    proof {
        assert(t@.subrange(0, e as int) =~= t@.take(e as int));
        assert(key_raw@.skip(0) =~= key_raw@);
    }
    let key = trim_skip_exec(&key_raw, 0);
    if !chars_eq(&key, &chars_of("token")) {
        return None;
    }
    let e2 = find_char(&t, '=', e + 1);
    let val_raw = copy_range(&t, e + 1, e2);
    proof {
        let rest = t@.skip(e as int + 1);
        assert(t@.subrange(e as int + 1, e2 as int) =~= rest.take(e2 - (e + 1)));
        assert(val_raw@.skip(0) =~= val_raw@);
    }
    let val = trim_skip_exec(&val_raw, 0);
    Some(val)
}

/// Recover the bearer token from a `Cookie` header string: items are
/// separated by `;`, keys and values by `=`, and whitespace around either
/// is ignored; the first `token` item wins.
pub fn token_from_cookie(cookie: &str) -> (r: Option<Token>)
    ensures
        match cookie_token(cookie@) {
            Some(t) => r is Some && r->0@ == t,
            None => r is None,
        },
{
    let v = chars_of(cookie);
    let n = v.len();
    let mut i: usize = 0;
    proof {
        assert(v@.skip(0) =~= v@);
    }
    loop
        invariant
            i <= n,
            n == v@.len(),
            v@ == cookie@,
            cookie_token(v@) == cookie_token(v@.skip(i as int)),
        decreases n - i,
    {
        let j = find_char(&v, ';', i);
        let item = copy_range(&v, i, j);
        proof {
            let s = v@.skip(i as int);
            assert(first_at(s, ';') == j - i);
            assert(s.take(j - i) =~= v@.subrange(i as int, j as int));
            assert(s.take(first_at(s, ';')) == item@);
        }
        match item_token_exec(&item) {
            Some(tok) => {
                proof {
                    let s = v@.skip(i as int);
                    assert(cookie_token(s) == item_token(item@));
                }
                return Some(Token(chars_to_string(&tok)));
            },
            None => {},
        }
        if j == n {
            return None;
        }
        proof {
            let s = v@.skip(i as int);
            assert(item_token(item@) is None);
            assert(cookie_token(s) == cookie_token(s.skip(j - i + 1)));
            assert(s.skip(j - i + 1) =~= v@.skip(j as int + 1));
        }
        i = j + 1;
    }
}

impl Token {
    pub fn new(token: String) -> (r: Self)
        ensures
            r@ == token@,
    {
        Self(token)
    }

    /// Mint a fresh token: 66 random bytes, base64-encoded to an 88
    /// character secret.  Fails only when the system's random source does.
    pub fn create() -> (r: Result<Self, ErrStack>)
        ensures
            match r {
                Ok(t) => t@.len() == 88,
                Err(e) => {
                    &&& e.wf()
                    &&& e@.last().variant == ErrT::Invariant
                },
            },
    {
        let mut buffer: Vec<u8> = Vec::new();
        let mut i: usize = 0;
        while i < 66
            invariant
                buffer@.len() == i,
                i <= 66,
            decreases 66 - i,
        {
            buffer.push(0u8);
            i += 1;
        }
        match fill_random(&mut buffer) {
            Ok(()) => Ok(Self(to_base64(buffer.as_slice()))),
            Err(()) => Err(
                ErrStack::new(ErrT::Invariant).ctx(
                    String::from_str("random source gave no bytes"),
                ),
            ),
        }
    }

    /// The hex-encoded SHA-256 digest of the secret value, as stored.
    pub fn sha256_hex(&self) -> (r: String)
        ensures
            r@ == hex_of(sha256_of(self@)),
            r@.len() == 64,
    {
        let digest = sha256_digest(self.0.as_str());
        to_hex(digest.as_slice())
    }

    /// Recover the token a caller presented in its request headers.
    /// Fails with `AuthNonUtf8Cookie` when the `Cookie` header is not
    /// visible ASCII, and with `AuthNotAuthenticated` when there is no
    /// `Cookie` header or no `token` item in it.
    pub fn parse_from_headers(headers: &http::HeaderMap) -> (r: Result<Self, ErrStack>)
        ensures
            match r {
                Ok(t) => exists|c: Seq<char>| cookie_token(c) == Some(t@),
                Err(e) => {
                    &&& e.wf()
                    &&& (e@.last().variant == ErrT::AuthNotAuthenticated || e@.last().variant
                        == ErrT::AuthNonUtf8Cookie)
                },
            },
    {
        match get_header(headers, "Cookie") {
            Some(value) => {
                match header_value_str(value) {
                    Ok(cookie) => {
                        match token_from_cookie(cookie.as_str()) {
                            Some(token) => {
                                proof {
                                    assert(cookie_token(cookie@) == Some(token@));
                                }
                                Ok(token)
                            },
                            None => Err(
                                ErrStack::new(ErrT::AuthNotAuthenticated).ctx(
                                    String::from_str(
                                        "parse_from_headers could not find a token",
                                    ),
                                ),
                            ),
                        }
                    },
                    Err(()) => Err(
                        ErrStack::new(ErrT::AuthNonUtf8Cookie).ctx(
                            String::from_str("cannot stringify cookie"),
                        ),
                    ),
                }
            },
            None => Err(
                ErrStack::new(ErrT::AuthNotAuthenticated).ctx(
                    String::from_str("parse_from_headers could not find a token"),
                ),
            ),
        }
    }

    /// The secret value itself; callers display it exactly once, when a
    /// token is created.
    pub fn display_secret_value(&self) -> (r: &str)
        ensures
            r@ == self@,
    {
        self.0.as_str()
    }

    pub fn is_empty(&self) -> (r: bool)
        ensures
            r == (self@.len() == 0),
    {
        self.0.as_str().is_empty()
    }
}

/// Recover the bearer token from request headers; see
/// [`Token::parse_from_headers`].
pub fn parse_from_headers(headers: &http::HeaderMap) -> (r: Result<Token, ErrStack>)
    ensures
        match r {
            Ok(t) => exists|c: Seq<char>| cookie_token(c) == Some(t@),
            Err(e) => {
                &&& e.wf()
                &&& (e@.last().variant == ErrT::AuthNotAuthenticated || e@.last().variant
                    == ErrT::AuthNonUtf8Cookie)
            },
        },
{
    Token::parse_from_headers(headers)
}

} // verus!
