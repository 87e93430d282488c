//! Claims of the caller's bearer token. The token is decoded, not verified.

use vstd::prelude::*;
use vstd::string::*;

use crate::json;
use crate::json::{Json, Tree};
use crate::text;
use crate::text::{chars_of, is_blank, split, starts_with, string_of, to_ascii_lowercase, trim};
use crate::wire;
use crate::wire::parse_bytes;

verus! {

// ---------------------------------------------------------------------------------------------
// Base64
// ---------------------------------------------------------------------------------------------
/// The value of a character of the URL-safe base64 alphabet.
pub open spec fn sextet(c: char) -> Option<nat> {
    if 'A' <= c <= 'Z' {
        Some((c as nat - 'A' as nat) as nat)
    } else if 'a' <= c <= 'z' {
        Some((c as nat - 'a' as nat + 26) as nat)
    } else if '0' <= c <= '9' {
        Some((c as nat - '0' as nat + 52) as nat)
    } else if c == '-' {
        Some(62)
    } else if c == '_' {
        Some(63)
    } else {
        None
    }
}

/// Whether a text is unpadded URL-safe base64: characters of the alphabet, no lone one at the
/// end, and no bit set beyond the last whole byte.
pub open spec fn is_base64(s: Seq<char>) -> bool {
    &&& forall|i: int| 0 <= i < s.len() ==> sextet(#[trigger] s[i]) is Some
    &&& s.len() % 4 != 1
    &&& s.len() % 4 == 2 ==> sextet(s.last())->0 % 16 == 0
    &&& s.len() % 4 == 3 ==> sextet(s.last())->0 % 4 == 0
}

/// The byte at a place of what unpadded base64 encodes: eight bits out of two of the four
/// characters that carry its group of three.
pub open spec fn base64_byte(s: Seq<char>, j: int) -> nat {
    let k = j / 3 * 4;
    if j % 3 == 0 {
        sextet(s[k])->0 * 4 + sextet(s[k + 1])->0 / 16
    } else if j % 3 == 1 {
        sextet(s[k + 1])->0 % 16 * 16 + sextet(s[k + 2])->0 / 4
    } else {
        sextet(s[k + 2])->0 % 4 * 64 + sextet(s[k + 3])->0
    }
}

/// The bytes that unpadded URL-safe base64 encodes.
pub open spec fn base64_bytes(s: Seq<char>) -> Option<Seq<u8>> {
    if is_base64(s) {
        Some(Seq::new((s.len() * 6 / 8) as nat, |j: int| base64_byte(s, j) as u8))
    } else {
        None
    }
}

fn sextet_of(c: char) -> (r: Option<u8>)
    ensures
        match r {
            Some(v) => sextet(c) == Some(v as nat) && v < 64,
            None => sextet(c) is None,
        },
{
    if 'A' <= c && c <= 'Z' {
        Some(c as u8 - 'A' as u8)
    } else if 'a' <= c && c <= 'z' {
        Some(c as u8 - 'a' as u8 + 26)
    } else if '0' <= c && c <= '9' {
        Some(c as u8 - '0' as u8 + 52)
    } else if c == '-' {
        Some(62)
    } else if c == '_' {
        Some(63)
    } else {
        None
    }
}

/// The bytes that unpadded URL-safe base64 encodes, if the text is that.
pub fn decode_base64(s: &str) -> (r: Option<Vec<u8>>)
    ensures
        match r {
            Some(bytes) => base64_bytes(s@) == Some(bytes@),
            None => base64_bytes(s@) is None,
        },
{
    let chars = chars_of(s);
    let n = chars.len();
    let mut values: Vec<u8> = Vec::new();
    let mut i: usize = 0;
    while i < n
        invariant
            n == chars@.len(),
            chars@ == s@,
            0 <= i <= n,
            values@.len() == i,
            forall|k: int|
                0 <= k < i ==> #[trigger] values@[k] < 64 && sextet(s@[k]) == Some(values@[k] as nat),
        decreases n - i,
    {
        match sextet_of(chars[i]) {
            Some(v) => values.push(v),
            None => return None,
        }
        i += 1;
    }
    assert forall|k: int| 0 <= k < n implies sextet(#[trigger] s@[k]) is Some by {
        assert(values@[k] < 64);
    }
    if n % 4 == 1 || (n % 4 == 2 && values[n - 1] % 16 != 0) || (n % 4 == 3 && values[n - 1] % 4
        != 0) {
        return None;
    }
    let total: usize = n / 4 * 3 + (if n % 4 == 0 {
        0
    } else {
        n % 4 - 1
    });
    assert(total == n as int * 6 / 8);
    let mut out: Vec<u8> = Vec::new();
    let mut j: usize = 0;
    while j < total
        invariant
            n == s@.len(),
            n == values@.len(),
            n % 4 != 1,
            total == n as int * 6 / 8,
            0 <= j <= total,
            forall|m: int|
                0 <= m < n ==> #[trigger] values@[m] < 64 && sextet(s@[m]) == Some(
                    values@[m] as nat,
                ),
            out@.len() == j,
            forall|m: int| 0 <= m < j ==> #[trigger] out@[m] == base64_byte(s@, m) as u8,
        decreases total - j,
    {
        let k: usize = j / 3 * 4;
        assert(k + j % 3 + 1 < n);
        let byte: u8 = if j % 3 == 0 {
            values[k] * 4 + values[k + 1] / 16
        } else if j % 3 == 1 {
            values[k + 1] % 16 * 16 + values[k + 2] / 4
        } else {
            values[k + 2] % 4 * 64 + values[k + 3]
        };
        assert(byte == base64_byte(s@, j as int));
        out.push(byte);
        j += 1;
    }
    assert(out@ =~= base64_bytes(s@)->0);
    Some(out)
}

// ---------------------------------------------------------------------------------------------
// Tokens
// ---------------------------------------------------------------------------------------------
/// The token that an authorization header carries under the bearer scheme, whatever the case of
/// the scheme.
pub open spec fn bearer_token(authorization: Seq<char>) -> Option<Seq<char>> {
    let value = text::trimmed(authorization);
    if "bearer "@.is_prefix_of(text::ascii_lowercase(value)) {
        Some(text::trimmed(value.skip(7)))
    } else {
        None
    }
}

/// The bytes of the middle one of a token's three parts.
pub open spec fn token_payload(token: Seq<char>) -> Option<Seq<u8>> {
    let parts = text::pieces(token, '.');
    if parts.len() == 3 {
        base64_bytes(parts[1])
    } else {
        None
    }
}

/// The claims of the token that an authorization header carries.
pub open spec fn token_claims(authorization: Option<Seq<char>>) -> Option<Tree> {
    match authorization {
        Some(value) => match bearer_token(value) {
            Some(token) => match token_payload(token) {
                Some(bytes) => wire::json_of_bytes(bytes),
                None => None,
            },
            None => None,
        },
        None => None,
    }
}

/// The token that an authorization header carries under the bearer scheme.
pub fn bearer(authorization: &str) -> (r: Option<String>)
    ensures
        text::opt_text(r) == bearer_token(authorization@),
{
    let value = trim(authorization);
    if !starts_with(to_ascii_lowercase(value.as_str()).as_str(), "bearer ") {
        return None;
    }
    proof {
        reveal_strlit("bearer ");
    }
    let chars = chars_of(value.as_str());
    assert(chars@.subrange(7, chars@.len() as int) =~= value@.skip(7));
    Some(trim(string_of(&chars, 7, chars.len()).as_str()))
}

/// The bytes of the middle one of a token's three parts.
pub fn decode_payload(token: &str) -> (r: Option<Vec<u8>>)
    ensures
        match r {
            Some(bytes) => token_payload(token@) == Some(bytes@),
            None => token_payload(token@) is None,
        },
{
    let parts = split(token, '.');
    if parts.len() != 3 {
        return None;
    }
    assert(text::texts(parts@)[1] == parts@[1]@);
    decode_base64(parts[1].as_str())
}

/// The claims of the token that an authorization header carries.
pub fn decode_claims(authorization: &Option<String>) -> (r: Option<Json>)
    ensures
        wire::opt_tree(r) == token_claims(text::opt_text(*authorization)),
{
    match authorization {
        Some(value) => match bearer(value.as_str()) {
            Some(token) => match decode_payload(token.as_str()) {
                Some(bytes) => parse_bytes(&bytes),
                None => None,
            },
            None => None,
        },
        None => None,
    }
}

/// A text that is there and not blank.
pub open spec fn present(v: Option<Seq<char>>) -> Option<Seq<char>> {
    match v {
        Some(s) => if text::blank(s) {
            None
        } else {
            Some(s)
        },
        None => None,
    }
}

/// The value of a claim, where a claim is configured and the token has a string under its name
/// that is not blank.
pub open spec fn claim_value(
    claims: Option<Tree>,
    name: Option<Seq<char>>,
) -> Option<Seq<char>> {
    match (claims, name) {
        (Some(claims), Some(name)) => present(json::string_of(claims, name)),
        _ => None,
    }
}

/// The text if it is there and not blank.
pub fn if_present(v: Option<String>) -> (r: Option<String>)
    ensures
        text::opt_text(r) == present(text::opt_text(v)),
{
    match v {
        Some(s) => if is_blank(s.as_str()) {
            None
        } else {
            Some(s)
        },
        None => None,
    }
}

/// The value of a configured claim.
pub fn claim(claims: &Option<Json>, name: &Option<String>) -> (r: Option<String>)
    ensures
        text::opt_text(r) == claim_value(wire::opt_tree(*claims), text::opt_text(*name)),
{
    match (claims, name) {
        (Some(claims), Some(name)) => match claims.string(name.as_str()) {
            Some(s) => if_present(Some(s.clone())),
            None => None,
        },
        _ => None,
    }
}

} // verus!
