//! Hashes and their text form.
use sha2::Digest;
use vstd::prelude::*;

verus! {

/// The SHA-256 hash of a message.
pub uninterp spec fn sha256_of(message: Seq<u8>) -> Seq<u8>;

/// The SHA-384 hash of a message.
pub uninterp spec fn sha384_of(message: Seq<u8>) -> Seq<u8>;

/// Calls `sha2::Sha256`: `Digest::new`, `chain_update` with the whole message, `finalize`. The
/// result depends on the message alone and has the length of the array.
#[verifier::external_body]
pub(crate) fn sha256(message: &[u8]) -> (hash: [u8; 32])
    ensures
        hash@ == sha256_of(message@),
{
    let hash = sha2::Sha256::new().chain_update(message).finalize();
    hash.as_slice().try_into().unwrap()
}

/// Calls `sha2::Sha384`: `Digest::new`, `chain_update` with the whole message, `finalize`. The
/// result depends on the message alone and has the length of the array.
#[verifier::external_body]
pub(crate) fn sha384(message: &[u8]) -> (hash: [u8; 48])
    ensures
        hash@ == sha384_of(message@),
{
    let hash = sha2::Sha384::new().chain_update(message).finalize();
    hash.as_slice().try_into().unwrap()
}

/// The character of the URL-safe base64 alphabet for a six-bit value.
pub open spec fn base64url_char(v: int) -> char {
    if v < 26 {
        ('A' as int + v) as char
    } else if v < 52 {
        ('a' as int + v - 26) as char
    } else if v < 62 {
        ('0' as int + v - 52) as char
    } else if v == 62 {
        '-'
    } else {
        '_'
    }
}

/// The byte at `i`, and zero behind the end.
pub open spec fn byte_or_zero(data: Seq<u8>, i: int) -> int {
    if i < data.len() {
        data[i] as int
    } else {
        0
    }
}

/// The `i`-th group of six bits, where each three bytes give four groups.
pub open spec fn sextet(data: Seq<u8>, i: int) -> int {
    let at = 3 * (i / 4);
    let (a, b, c) = (
        byte_or_zero(data, at),
        byte_or_zero(data, at + 1),
        byte_or_zero(data, at + 2),
    );
    if i % 4 == 0 {
        a / 4
    } else if i % 4 == 1 {
        (a % 4) * 16 + b / 16
    } else if i % 4 == 2 {
        (b % 16) * 4 + c / 64
    } else {
        c % 64
    }
}

/// Number of characters that encode `len` bytes without padding.
pub open spec fn base64url_len(len: nat) -> nat {
    (4 * len + 2) as nat / 3
}

/// URL-safe base64 without padding.
pub open spec fn base64url_of(data: Seq<u8>) -> Seq<char> {
    Seq::new(base64url_len(data.len()), |i: int| base64url_char(sextet(data, i)))
}

/// Calls `base64::engine::general_purpose::URL_SAFE_NO_PAD.encode`: six bits per character, in the
/// order of the bytes, the last group filled up with zero bits, no padding characters. The call
/// panics where the text would not fit into memory.
#[verifier::external_body]
pub(crate) fn base64url(data: &[u8]) -> (text: String)
    requires
        base64url_len(data@.len()) <= isize::MAX,
    ensures
        text@ == base64url_of(data@),
{
    base64::Engine::encode(&base64::engine::general_purpose::URL_SAFE_NO_PAD, data)
}

proof fn lemma_base64url_char_injective(v: int, w: int)
    requires
        0 <= v < 64,
        0 <= w < 64,
        base64url_char(v) == base64url_char(w),
    ensures
        v == w,
{
}

/// A group of six bits is a number below 64.
pub proof fn lemma_sextet_range(data: Seq<u8>, i: int)
    requires
        0 <= i,
    ensures
        0 <= sextet(data, i) < 64,
{
}

/// Different bytes have different base64 texts.
pub proof fn lemma_base64url_injective(x: Seq<u8>, y: Seq<u8>)
    requires
        base64url_of(x) == base64url_of(y),
    ensures
        x == y,
{
    assert(base64url_of(x).len() == base64url_len(x.len()));
    assert(base64url_of(y).len() == base64url_len(y.len()));
    assert(x.len() == y.len());
    assert forall|i: int| 0 <= i < base64url_len(x.len()) implies #[trigger] sextet(x, i)
        == sextet(y, i) by {
        lemma_sextet_range(x, i);
        lemma_sextet_range(y, i);
        assert(base64url_of(x)[i] == base64url_char(sextet(x, i)));
        assert(base64url_of(y)[i] == base64url_char(sextet(y, i)));
        lemma_base64url_char_injective(sextet(x, i), sextet(y, i));
    }
    assert forall|k: int| 0 <= k < x.len() implies x[k] == y[k] by {
        let g = 4 * (k / 3) + k % 3;
        assert(g < base64url_len(x.len()) && g + 1 < base64url_len(x.len()));
        assert(sextet(x, g) == sextet(y, g));
        assert(sextet(x, g + 1) == sextet(y, g + 1));
        assert(g / 4 == k / 3 && (g + 1) / 4 == k / 3);
        assert(g % 4 == k % 3 && (g + 1) % 4 == k % 3 + 1);
    }
    assert(x =~= y);
}

} // verus!
