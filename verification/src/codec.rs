use base64::engine::general_purpose::STANDARD_NO_PAD;
use base64::{DecodeError, Engine};
use vstd::prelude::*;
use vstd::string::StringSliceAdditionalSpecFns;
use xxhash_rust::xxh3::xxh3_128;

verus! {

/// What standard-alphabet base64 without padding encodes the bytes to.
pub uninterp spec fn spec_base64_encoded(bytes: Seq<u8>) -> Seq<char>;

/// What standard-alphabet base64 without padding decodes the text to, or
/// `None` where the text is not valid unpadded base64.
pub uninterp spec fn spec_base64_decoded(text: Seq<char>) -> Option<Seq<u8>>;

/// The 128-bit XXH3 hash of the bytes (default secret, no seed).
pub uninterp spec fn spec_xxh3_128(bytes: Seq<u8>) -> u128;

/// The length of the unpadded base64 text for `n` bytes: four characters
/// for every full group of three bytes, and two or three for a last,
/// partial group.
pub open spec fn base64_len(n: nat) -> nat {
    (n / 3) * 4 + if n % 3 == 0 {
        0
    } else {
        (n % 3 + 1) as nat
    }
}

#[verifier::external_type_specification]
#[verifier::external_body]
pub struct ExDecodeError(DecodeError);

/// Encodes the bytes with `base64`'s `STANDARD_NO_PAD` engine
/// (`Engine::encode`).
///
/// Claimed: the text is the encoding of the bytes, and its length is what
/// the crate's `encoded_len` gives without padding. The crate computes that
/// length with checked arithmetic and allocates a buffer of it, panicking
/// when it does not fit, so the length must stay within `isize::MAX`.
#[verifier::external_body]
fn base64_encode(bytes: &[u8]) -> (r: String)
    requires
        base64_len(bytes@.len() as nat) <= isize::MAX,
    ensures
        r@ == spec_base64_encoded(bytes@),
        r@.len() == base64_len(bytes@.len() as nat),
{
    STANDARD_NO_PAD.encode(bytes)
}

/// Decodes the text with `base64`'s `STANDARD_NO_PAD` engine
/// (`Engine::decode`).
///
/// Claimed: it succeeds exactly on valid text, with the decoded bytes, and
/// text that the same engine encoded decodes back to the bytes it encoded
/// (the crate's round-trip property). Which `DecodeError` comes back on
/// invalid text is not stated.
#[verifier::external_body]
fn base64_decode(text: &str) -> (r: Result<Vec<u8>, DecodeError>)
    ensures
        r is Ok <==> spec_base64_decoded(text@) is Some,
        r matches Ok(v) ==> spec_base64_decoded(text@) == Some(v@),
        r matches Ok(v) ==> forall|b: Seq<u8>| #[trigger] spec_base64_encoded(b) == text@ ==> v@ == b,
        r is Err ==> forall|b: Seq<u8>| #[trigger] spec_base64_encoded(b) != text@,
{
    STANDARD_NO_PAD.decode(text)
}

/// Hashes the bytes with `xxhash_rust::xxh3::xxh3_128`.
///
/// Claimed: the result is the XXH3 128-bit hash of the bytes, which depends
/// on the bytes alone.
#[verifier::external_body]
fn xxh3_hash(bytes: &[u8]) -> (r: u128)
    ensures
        r == spec_xxh3_128(bytes@),
{
    xxh3_128(bytes)
}

/// Why world data embedded in a query could not be read back.
#[derive(Clone, Copy, Debug, PartialEq, Eq, Structural)]
pub enum WorldDataError {
    /// The embedded text is not valid unpadded base64.
    MalformedText,
}

/// The text form of serialized world data, as generated queries embed it:
/// the bytes in unpadded standard base64.
pub fn world_data_to_text(bytes: &[u8]) -> (r: String)
    requires
        base64_len(bytes@.len() as nat) <= isize::MAX,
    ensures
        r@ == spec_base64_encoded(bytes@),
        r@.len() == base64_len(bytes@.len() as nat),
{
    base64_encode(bytes)
}

/// Reads serialized world data back from its embedded text form. Text that
/// `world_data_to_text` produced gives back exactly the bytes it was made
/// from.
pub fn world_data_from_text(text: &str) -> (r: Result<Vec<u8>, WorldDataError>)
    ensures
        r is Ok <==> spec_base64_decoded(text@) is Some,
        r matches Ok(v) ==> spec_base64_decoded(text@) == Some(v@),
        r matches Err(e) ==> e == WorldDataError::MalformedText,
        forall|b: Seq<u8>| #[trigger] spec_base64_encoded(b) == text@ ==> (r matches Ok(v) && v@ == b),
{
    match base64_decode(text) {
        Ok(bytes) => Ok(bytes),
        Err(_) => Err(WorldDataError::MalformedText),
    }
}

/// The character of a decimal digit.
pub open spec fn digit_char(d: nat) -> char {
    (d + 48) as char
}

/// The decimal digits of `n`, most significant first, without leading zeros.
pub open spec fn decimal(n: nat) -> Seq<char>
    decreases n,
{
    if n < 10 {
        seq![digit_char(n)]
    } else {
        decimal(n / 10).push(digit_char(n % 10))
    }
}

fn digit_text(d: u128) -> (r: &'static str)
    requires
        d < 10,
    ensures
        r@ == seq![digit_char(d as nat)],
{
    proof {
        reveal_strlit("0");
        reveal_strlit("1");
        reveal_strlit("2");
        reveal_strlit("3");
        reveal_strlit("4");
        reveal_strlit("5");
        reveal_strlit("6");
        reveal_strlit("7");
        reveal_strlit("8");
        reveal_strlit("9");
    }
    if d == 0 {
        "0"
    } else if d == 1 {
        "1"
    } else if d == 2 {
        "2"
    } else if d == 3 {
        "3"
    } else if d == 4 {
        "4"
    } else if d == 5 {
        "5"
    } else if d == 6 {
        "6"
    } else if d == 7 {
        "7"
    } else if d == 8 {
        "8"
    } else {
        "9"
    }
}

/// Appends the decimal digits of `n` to the text.
fn push_decimal(text: String, n: u128) -> (r: String)
    ensures
        r@ == text@ + decimal(n as nat),
    decreases n,
{
    if n < 10 {
        text.concat(digit_text(n))
    } else {
        let head = push_decimal(text, n / 10);
        let r = head.concat(digit_text(n % 10));
        proof {
            assert(decimal(n as nat) == decimal((n / 10) as nat).push(digit_char((n % 10) as nat)));
            assert(r@ =~= text@ + decimal(n as nat));
        }
        r
    }
}

/// The name of a generated macro that belongs to one `ecs_world!`: the
/// prefix followed by the decimal XXH3-128 hash of the world's raw input,
/// which keeps the macros of different worlds apart.
pub fn hashed_macro_name(prefix: &str, raw_input: &str) -> (r: String)
    ensures
        r@ == prefix@ + decimal(spec_xxh3_128(raw_input.spec_bytes()) as nat),
{
    let hash = xxh3_hash(raw_input.as_bytes());
    push_decimal(String::from_str(prefix), hash)
}

} // verus!
