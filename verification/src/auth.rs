//! Authentication: password hashing and verification, and where a request
//! carries its bearer token.

use vstd::prelude::*;
use vstd::string::StringSliceAdditionalSpecFns;

use argon2::password_hash::{PasswordHash, PasswordHasher, PasswordVerifier, SaltString};
use argon2::Argon2;

use crate::text::{chars_starts_with, find_char, first_index_of, slice_chars, str_chars, string_from_chars};

verus! {

/// Whether the Argon2 PHC string `phc` parses and `plain` verifies against it
/// (with the default Argon2 parameters).
pub uninterp spec fn password_matches(plain: Seq<char>, phc: Seq<char>) -> bool;

/// `Argon2::default().hash_password` with a fresh random salt from the OS
/// generator, as a PHC string. The salt is random, so only this is stated:
/// the password verifies against the hash it produced.
#[verifier::external_body]
fn argon2_hash(plain: &str) -> (res: String)
    requires
        plain.spec_bytes().len() <= 0xFFFF_FFFF,
    ensures
        password_matches(plain@, res@),
{
    let salt = SaltString::generate(&mut rand_core::OsRng);
    Argon2::default().hash_password(plain.as_bytes(), &salt).expect("hashing password should not fail").to_string()
}

/// `PasswordHash::new` followed by `Argon2::default().verify_password`:
/// false when the PHC string does not parse or the password does not match.
#[verifier::external_body]
fn argon2_verify(plain: &str, phc: &str) -> (res: bool)
    ensures
        res == password_matches(plain@, phc@),
{
    match PasswordHash::new(phc) {
        Ok(parsed) => Argon2::default().verify_password(plain.as_bytes(), &parsed).is_ok(),
        Err(_) => false,
    }
}

/// Hashes a plaintext password with Argon2id and a random salt, returning the
/// PHC string. Used to seed the dev password and to rotate credentials.
pub fn hash_password(plain: &str) -> (res: String)
    requires
        plain.spec_bytes().len() <= 0xFFFF_FFFF,
    ensures
        password_matches(plain@, res@),
{
    argon2_hash(plain)
}

/// Verifies a plaintext password against a stored Argon2 PHC hash.
pub fn verify_password(plain: &str, phc_hash: &str) -> (res: bool)
    ensures
        res == password_matches(plain@, phc_hash@),
{
    argon2_verify(plain, phc_hash)
}

/// The value of a `token=<value>` pair, if `pair` is one (the first `=`
/// separates name from value).
pub open spec fn pair_token(pair: Seq<char>) -> Option<Seq<char>> {
    match first_index_of(pair, '=') {
        Some(j) => if pair.take(j) == "token"@ {
            Some(pair.skip(j + 1))
        } else {
            None
        },
        None => None,
    }
}

/// The value of the first `token=<value>` pair of an `&`-separated query.
pub open spec fn query_token(q: Seq<char>) -> Option<Seq<char>>
    decreases q.len(),
{
    match first_index_of(q, '&') {
        None => pair_token(q),
        Some(i) => match pair_token(q.take(i)) {
            Some(v) => Some(v),
            None => if 0 <= i < q.len() {
                query_token(q.skip(i + 1))
            } else {
                None
            },
        },
    }
}

fn pair_token_exec(pair: &Vec<char>) -> (res: Option<Vec<char>>)
    ensures
        match res {
            Some(v) => pair_token(pair@) == Some(v@),
            None => pair_token(pair@) is None,
        },
{
    let n = pair.len();
    match find_char(pair, '=') {
        Some(j) => {
            let name = slice_chars(pair, 0, j);
            assert(name@ =~= pair@.take(j as int));
            if crate::text::chars_eq(&name, &str_chars("token")) {
                let v = slice_chars(pair, j + 1, pair.len());
                assert(v@ =~= pair@.skip(j + 1));
                Some(v)
            } else {
                None
            }
        },
        None => None,
    }
}

/// Extracts a `token` value from a URL query string, if present: the value of
/// the first `&`-separated pair named `token`.
pub fn token_from_query(query: Option<&str>) -> (res: Option<String>)
    ensures
        match query {
            None => res is None,
            Some(q) => match res {
                Some(t) => query_token(q@) == Some(t@),
                None => query_token(q@) is None,
            },
        },
{
    let q = match query {
        Some(q) => str_chars(q),
        None => return None,
    };
    let ghost whole = q@;
    let mut rest = q;
    loop
        invariant
            query is Some,
            whole == query.unwrap()@,
            query_token(whole) == query_token(rest@),
        decreases rest@.len(),
    {
        let (found, next) = first_pair(&rest);
        match found {
            Some(v) => return Some(string_from_chars(&v)),
            None => {},
        }
        match next {
            Some(n) => {
                rest = n;
            },
            None => return None,
        }
    }
}

/// One step of the query scan: the token in the first pair, and the rest of
/// the query after it (if there is an `&`).
fn first_pair(q: &Vec<char>) -> (res: (Option<Vec<char>>, Option<Vec<char>>))
    ensures
        match res.0 {
            Some(v) => query_token(q@) == Some(v@),
            None => match res.1 {
                Some(r) => query_token(q@) == query_token(r@) && r@.len() < q@.len(),
                None => query_token(q@) is None,
            },
        },
{
    let n = q.len();
    match find_char(q, '&') {
        None => (pair_token_exec(q), None),
        Some(i) => {
            let pair = slice_chars(q, 0, i);
            assert(pair@ =~= q@.take(i as int));
            match pair_token_exec(&pair) {
                Some(v) => (Some(v), None),
                None => {
                    let next = slice_chars(q, i + 1, n);
                    assert(next@ =~= q@.skip(i + 1));
                    (None, Some(next))
                },
            }
        },
    }
}

/// The token an `Authorization: Bearer <jwt>` header value carries.
pub open spec fn bearer_value(v: Seq<char>) -> Option<Seq<char>> {
    if v.len() >= 7 && v.take(7) == "Bearer "@ {
        Some(v.skip(7))
    } else {
        None
    }
}

/// The token a protected request carries: from an `Authorization: Bearer`
/// header (the iOS app and JSON APIs) or, failing that, a `?token=` query
/// parameter (browser `<img>`/`<video>` tags, which cannot set headers).
/// @param authorization - the `Authorization` header value, if present and readable
/// @param query - the request's query string, if any
pub fn request_token(authorization: Option<&str>, query: Option<&str>) -> (res: Option<String>)
    ensures
        ({
            let from_header = match authorization {
                Some(a) => bearer_value(a@),
                None => None,
            };
            match from_header {
                Some(t) => res is Some && res.unwrap()@ == t,
                None => match query {
                    None => res is None,
                    Some(q) => match res {
                        Some(t) => query_token(q@) == Some(t@),
                        None => query_token(q@) is None,
                    },
                },
            }
        }),
{
    match authorization {
        Some(a) => {
            let v = str_chars(a);
            let prefix = str_chars("Bearer ");
            proof {
                reveal_strlit("Bearer ");
            }
            if chars_starts_with(&v, &prefix) {
                let t = slice_chars(&v, 7, v.len());
                assert(t@ =~= a@.skip(7));
                return Some(string_from_chars(&t));
            }
        },
        None => {},
    }
    token_from_query(query)
}

} // verus!
