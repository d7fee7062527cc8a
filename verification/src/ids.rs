//! Identifiers that cannot be guessed.
//!
//! A share id is the only thing a client on the network ever gives to look up a
//! file. It is made of bytes from the random number generator of the operating
//! system, written in an alphabet that is safe in a URL and leaves out the
//! characters that are easily mistaken for each other.

use crate::text::is_alphanumeric;
use rand::rngs::OsRng;
use rand::RngCore;
use vstd::prelude::*;

verus! {

/// The characters that identifiers are made of.
pub const ALPHABET: &'static str = "ABCDEFGHJKLMNPQRSTUVWXYZabcdefghijkmnopqrstuvwxyz23456789";

/// The number of characters of a share id.
pub const SHARE_ID_LEN: usize = 22;

/// The number of characters of a session token.
pub const SESSION_TOKEN_LEN: usize = 32;

/// `OsRng::fill_bytes` overwrites every byte of the buffer with one from the
/// operating system. Of the bytes nothing is promised but how many they are. It
/// panics where the operating system has no random bytes to give.
#[verifier::external_body]
pub(crate) fn random_bytes(len: usize) -> (r: Vec<u8>)
    ensures
        r@.len() == len,
{
    let mut bytes = vec![0u8; len];
    OsRng.fill_bytes(&mut bytes);
    bytes
}

/// The character that a byte stands for in an identifier.
pub open spec fn token_char(b: u8) -> char {
    ALPHABET@[b as int % ALPHABET@.len() as int]
}

/// The identifier that the bytes stand for.
pub open spec fn token_text(bytes: Seq<u8>) -> Seq<char> {
    bytes.map_values(|b: u8| token_char(b))
}

/// A text of that many characters of the alphabet.
pub open spec fn is_token(s: Seq<char>, len: int) -> bool {
    s.len() == len && forall|i: int| 0 <= i < s.len() ==> ALPHABET@.contains(#[trigger] s[i])
}

proof fn lemma_alphabet()
    ensures
        ALPHABET@.len() == 57,
        forall|i: int| 0 <= i < 57 ==> is_alphanumeric(#[trigger] ALPHABET@[i]),
{
    reveal_strlit("ABCDEFGHJKLMNPQRSTUVWXYZabcdefghijkmnopqrstuvwxyz23456789");
}

/// Whatever bytes an identifier is made from, it is one.
pub proof fn law_token_text_is_token(bytes: Seq<u8>)
    ensures
        is_token(token_text(bytes), bytes.len() as int),
{
    lemma_alphabet();
    let s = token_text(bytes);
    assert forall|i: int| 0 <= i < s.len() implies ALPHABET@.contains(#[trigger] s[i]) by {
        let k = bytes[i] as int % 57;
        assert(0 <= k < 57);
        assert(s[i] == ALPHABET@[k]);
    }
}

/// An identifier holds ASCII letters and digits alone: nothing that separates
/// the parts of a path, of a URL, of a cookie or of a header.
pub proof fn law_tokens_are_plain(s: Seq<char>, len: int)
    requires
        is_token(s, len),
    ensures
        forall|i: int| 0 <= i < s.len() ==> is_alphanumeric(#[trigger] s[i]),
{
    lemma_alphabet();
    assert forall|i: int| 0 <= i < s.len() implies is_alphanumeric(#[trigger] s[i]) by {
        assert(ALPHABET@.contains(s[i]));
        let k = choose|k: int| 0 <= k < ALPHABET@.len() && ALPHABET@[k] == s[i];
        assert(is_alphanumeric(ALPHABET@[k]));
    }
}

/// Writes bytes as an identifier.
pub fn token_from_bytes(bytes: &[u8]) -> (r: String)
    ensures
        r@ == token_text(bytes@),
        is_token(r@, bytes@.len() as int),
{
    proof {
        lemma_alphabet();
        law_token_text_is_token(bytes@);
    }
    let n: usize = bytes.len();
    let mut out = String::new();
    for i in 0..n
        invariant
            n == bytes@.len(),
            ALPHABET@.len() == 57,
            out@ == token_text(bytes@).take(i as int),
    {
        let at: u8 = bytes[i] % 57;
        out.push(ALPHABET.get_char(at as usize));
        assert(token_text(bytes@).take(i + 1) =~= token_text(bytes@).take(i as int).push(
            token_char(bytes@[i as int]),
        ));
    }
    assert(token_text(bytes@).take(n as int) =~= token_text(bytes@));
    out
}

/// A fresh share id, with about 128 bits of chance in it.
pub fn generate_share_id() -> (r: String)
    ensures
        is_token(r@, SHARE_ID_LEN as int),
{
    generate_random_token(SHARE_ID_LEN)
}

/// A fresh session token, as the cookies carry it.
pub fn generate_session_token() -> (r: String)
    ensures
        is_token(r@, SESSION_TOKEN_LEN as int),
{
    generate_random_token(SESSION_TOKEN_LEN)
}

fn generate_random_token(len: usize) -> (r: String)
    ensures
        is_token(r@, len as int),
{
    let bytes = random_bytes(len);
    token_from_bytes(bytes.as_slice())
}

} // verus!
