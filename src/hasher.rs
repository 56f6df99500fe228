//! The preference key: an anonymized, fixed-width digest of a user and a host.
use vstd::prelude::*;
use blake2::digest::{Update, VariableOutput};
use crate::text::{push_char, signed_decimal, signed_decimal_string};

verus! {

/// Number of digest bytes in a preference key.
pub const KEY_BYTES: usize = 10;

/// The BLAKE2s digest, of `KEY_BYTES` bytes of output, of the UTF-8 bytes of a
/// string.
pub uninterp spec fn blake2s_digest(s: Seq<char>) -> Seq<u8>;

/// Relies on blake2's `VarBlake2s`: `new` fails only for an output size of
/// zero or above 32 bytes, so for `KEY_BYTES` it succeeds; fed the string and
/// finalized, it yields `KEY_BYTES` bytes that depend on the string alone.
#[verifier::external_body]
fn digest_of(s: &str) -> (r: Option<Vec<u8>>)
    ensures
        r is Some,
        r matches Some(d) ==> d@ == blake2s_digest(s@) && d@.len() == KEY_BYTES,
{
    let mut hasher = blake2::VarBlake2s::new(KEY_BYTES).ok()?;
    hasher.update(s);
    Some(hasher.finalize_boxed().to_vec())
}

/// Upper-case hexadecimal digit for `d` (below sixteen).
pub open spec fn hex_digit(d: nat) -> char {
    if d < 10 {
        ((d + 48) as u8) as char
    } else {
        ((d + 55) as u8) as char
    }
}

/// Two upper-case hexadecimal digits per byte, in order.
pub open spec fn hex_upper(b: Seq<u8>) -> Seq<char>
    decreases b.len(),
{
    if b.len() == 0 {
        Seq::empty()
    } else {
        hex_upper(b.drop_last()).push(hex_digit(b.last() as nat / 16)).push(hex_digit(b.last() as nat % 16))
    }
}

pub proof fn lemma_hex_upper_len(b: Seq<u8>)
    ensures
        hex_upper(b).len() == 2 * b.len(),
    decreases b.len(),
{
    if b.len() > 0 {
        lemma_hex_upper_len(b.drop_last());
    }
}

/// What the digest of a preference key is taken over: the user's number in
/// decimal, then the host.
pub open spec fn key_input(user_id: int, host: Seq<char>) -> Seq<char> {
    signed_decimal(user_id) + host
}

/// The preference key of a user for a host.
pub open spec fn preference_key(user_id: int, host: Seq<char>) -> Seq<char> {
    hex_upper(blake2s_digest(key_input(user_id, host)))
}

/// Writes bytes as upper-case hexadecimal, two digits each.
pub fn hex_string(b: &Vec<u8>) -> (r: String)
    ensures
        r@ == hex_upper(b@),
        r@.len() == 2 * b@.len(),
{
    let mut s = String::new();
    let mut i: usize = 0;
    while i < b.len()
        invariant
            0 <= i <= b@.len(),
            s@ == hex_upper(b@.subrange(0, i as int)),
        decreases b@.len() - i,
    {
        let x: u8 = b[i];
        let hi: u8 = x / 16;
        let lo: u8 = x % 16;
        let ch: char = if hi < 10 { (hi + 48) as char } else { (hi + 55) as char };
        let cl: char = if lo < 10 { (lo + 48) as char } else { (lo + 55) as char };
        push_char(&mut s, ch);
        push_char(&mut s, cl);
        assert(b@.subrange(0, i + 1).drop_last() =~= b@.subrange(0, i as int));
        i = i + 1;
    }
    assert(b@.subrange(0, b@.len() as int) =~= b@);
    proof {
        lemma_hex_upper_len(b@);
    }
    s
}

/// The text that the digest of a preference key is taken over.
pub fn key_input_string(user_id: i64, host: &str) -> (r: String)
    ensures
        r@ == key_input(user_id as int, host@),
{
    let mut s = signed_decimal_string(user_id);
    s.append(host);
    s
}

/// Derives the preference key of a user for a host: twenty upper-case
/// hexadecimal digits. There is none without a user.
pub fn derive_key(user: Option<i64>, host: &str) -> (r: Option<String>)
    ensures
        user is None ==> r is None,
        user matches Some(id) ==> r matches Some(k) && k@ == preference_key(id as int, host@)
            && k@.len() == 2 * KEY_BYTES,
{
    let id = match user {
        Some(id) => id,
        None => return None,
    };
    let input = key_input_string(id, host);
    match digest_of(input.as_str()) {
        Some(d) => Some(hex_string(&d)),
        None => None,
    }
}

} // verus!
