//! Byte encodings: UTF-8, Base64 and SHA-256.

use vstd::prelude::*;
use vstd::utf8::*;

verus! {

// ---- UTF-8 ----

/// The message that `String::from_utf8` gives for bytes that are not UTF-8.
pub uninterp spec fn utf8_error(bytes: Seq<u8>) -> Seq<char>;

/// `String::from_utf8`: the text that the bytes encode, and an error, here its
/// message, exactly for bytes that are not UTF-8.
#[verifier::external_body]
fn string_from_utf8(bytes: Vec<u8>) -> (r: Result<String, String>)
    ensures
        r is Ok <==> valid_utf8(bytes@),
        r matches Ok(s) ==> s@ == decode_utf8(bytes@),
        r matches Err(e) ==> e@ == utf8_error(bytes@),
{
    String::from_utf8(bytes).map_err(|e| e.to_string())
}

/// What `String::from_utf8_lossy` makes of bytes that need not be UTF-8.
pub uninterp spec fn utf8_lossy(bytes: Seq<u8>) -> Seq<char>;

/// `String::from_utf8_lossy`: the text that the bytes encode, where they are
/// UTF-8. What stands for sequences that are not is left to the name.
#[verifier::external_body]
fn string_from_utf8_lossy(bytes: &[u8]) -> (s: String)
    ensures
        s@ == utf8_lossy(bytes@),
        valid_utf8(bytes@) ==> s@ == decode_utf8(bytes@),
{
    String::from_utf8_lossy(bytes).to_string()
}

/// The text that `bytes` encode in UTF-8, or the reason why they encode none.
pub fn decode_text(bytes: Vec<u8>) -> (r: Result<String, String>)
    ensures
        r is Ok <==> valid_utf8(bytes@),
        r matches Ok(s) ==> s@ == decode_utf8(bytes@),
        r matches Err(e) ==> e@ == utf8_error(bytes@),
{
    string_from_utf8(bytes)
}

/// The text that `bytes` encode in UTF-8, with replacement characters for what
/// is not UTF-8.
pub fn decode_text_lossy(bytes: &[u8]) -> (s: String)
    ensures
        s@ == utf8_lossy(bytes@),
        valid_utf8(bytes@) ==> s@ == decode_utf8(bytes@),
{
    string_from_utf8_lossy(bytes)
}

/// The UTF-8 encoding of a text.
pub fn encode_text(s: &str) -> (bytes: Vec<u8>)
    ensures
        bytes@ == encode_utf8(s@),
{
    s.as_bytes_vec()
}

// ---- Base64 ----

/// The character for a number below 64 in the standard Base64 alphabet.
pub open spec fn base64_char(n: int) -> char {
    if n < 26 {
        ('A' as int + n) as char
    } else if n < 52 {
        ('a' as int + n - 26) as char
    } else if n < 62 {
        ('0' as int + n - 52) as char
    } else if n == 62 {
        '+'
    } else {
        '/'
    }
}

/// The four characters for 24 bits.
pub open spec fn base64_group(n: int) -> Seq<char> {
    seq![
        base64_char(n / 262144),
        base64_char(n / 4096 % 64),
        base64_char(n / 64 % 64),
        base64_char(n % 64),
    ]
}

/// The encoding of bytes in the standard Base64 alphabet: four characters for
/// every three bytes, with `=` in place of those that hold nothing at the end.
pub open spec fn base64_encoded(bytes: Seq<u8>) -> Seq<char>
    decreases bytes.len(),
{
    if bytes.len() == 0 {
        Seq::empty()
    } else if bytes.len() == 1 {
        base64_group(bytes[0] * 65536).take(2) + seq!['=', '=']
    } else if bytes.len() == 2 {
        base64_group(bytes[0] * 65536 + bytes[1] * 256).take(3) + seq!['=']
    } else {
        base64_group(bytes[0] * 65536 + bytes[1] * 256 + bytes[2]) + base64_encoded(bytes.skip(3))
    }
}

/// Whether a text is the encoding of some bytes.
pub open spec fn is_base64(text: Seq<char>) -> bool {
    exists|bytes: Seq<u8>| text == #[trigger] base64_encoded(bytes)
}

/// The message that the `base64` crate gives for a text that encodes nothing.
pub uninterp spec fn base64_error(text: Seq<char>) -> Seq<char>;

/// `STANDARD.decode` of the `base64` crate: the bytes of which the text is the
/// encoding, and an error, here its message, exactly where it is none. Padding
/// that is missing and bits that hold nothing are errors too.
#[verifier::external_body]
fn base64_standard_decode(text: &str) -> (r: Result<Vec<u8>, String>)
    ensures
        r is Ok <==> is_base64(text@),
        r matches Ok(bytes) ==> base64_encoded(bytes@) == text@,
        r matches Err(e) ==> e@ == base64_error(text@),
{
    base64::Engine::decode(&base64::engine::general_purpose::STANDARD, text).map_err(
        |e| e.to_string(),
    )
}

/// How many characters the padded Base64 encoding of `n` bytes has.
pub open spec fn base64_len(n: nat) -> nat {
    4 * ((n + 2) / 3)
}

/// `STANDARD.encode` of the `base64` crate: the encoding of the bytes. It has to
/// fit in memory.
#[verifier::external_body]
fn base64_standard_encode(bytes: &[u8]) -> (s: String)
    requires
        base64_len(bytes@.len()) <= isize::MAX,
    ensures
        s@ == base64_encoded(bytes@),
{
    base64::Engine::encode(&base64::engine::general_purpose::STANDARD, bytes)
}

/// The length of an encoding.
pub proof fn lemma_base64_len(bytes: Seq<u8>)
    ensures
        base64_encoded(bytes).len() == base64_len(bytes.len()),
    decreases bytes.len(),
{
    if bytes.len() >= 3 {
        lemma_base64_len(bytes.skip(3));
    }
}

/// Different bytes have different encodings.
pub proof fn law_base64_is_unambiguous(a: Seq<u8>, b: Seq<u8>)
    requires
        base64_encoded(a) == base64_encoded(b),
    ensures
        a == b,
    decreases a.len(),
{
    lemma_base64_len(a);
    lemma_base64_len(b);
    let (x, y) = (base64_encoded(a), base64_encoded(b));
    if a.len() >= 3 && b.len() >= 3 {
        let m = a[0] * 65536 + a[1] * 256 + a[2];
        let n = b[0] * 65536 + b[1] * 256 + b[2];
        assert(x.take(4) =~= base64_group(m));
        assert(y.take(4) =~= base64_group(n));
        assert(x.skip(4) =~= base64_encoded(a.skip(3)));
        assert(y.skip(4) =~= base64_encoded(b.skip(3)));
        assert(base64_group(m).take(4) =~= base64_group(m));
        assert(base64_group(n).take(4) =~= base64_group(n));
        lemma_base64_group(m, n, 4);
        law_base64_is_unambiguous(a.skip(3), b.skip(3));
        assert(a =~= seq![a[0], a[1], a[2]] + a.skip(3));
        assert(b =~= seq![b[0], b[1], b[2]] + b.skip(3));
    } else if a.len() >= 1 && b.len() >= 1 {
        lemma_base64_padding(a);
        lemma_base64_padding(b);
        assert(a.len() == b.len());
        if a.len() == 1 {
            let (m, n) = (a[0] * 65536, b[0] * 65536);
            assert(x.take(2) =~= base64_group(m).take(2));
            assert(y.take(2) =~= base64_group(n).take(2));
            lemma_base64_group(m, n, 2);
        } else {
            let (m, n) = (a[0] * 65536 + a[1] * 256, b[0] * 65536 + b[1] * 256);
            assert(x.take(3) =~= base64_group(m).take(3));
            assert(y.take(3) =~= base64_group(n).take(3));
            lemma_base64_group(m, n, 3);
        }
        assert(a =~= b);
    } else {
        assert(a =~= b);
    }
}

proof fn lemma_base64_char(m: int, n: int)
    requires
        0 <= m < 64,
        0 <= n < 64,
    ensures
        base64_char(m) == base64_char(n) ==> m == n,
        base64_char(m) != '=',
{
}

/// The first `k` characters of a group determine its first `6 * k` bits.
proof fn lemma_base64_group(m: int, n: int, k: int)
    requires
        0 <= m < 0x1_000000,
        0 <= n < 0x1_000000,
        2 <= k <= 4,
        base64_group(m).take(k) == base64_group(n).take(k),
    ensures
        m / 4096 == n / 4096,
        k >= 3 ==> m / 64 == n / 64,
        k >= 4 ==> m == n,
{
    let (g, h) = (base64_group(m), base64_group(n));
    assert(forall|i: int| 0 <= i < k ==> g.take(k)[i] == #[trigger] g[i]);
    assert(forall|i: int| 0 <= i < k ==> h.take(k)[i] == #[trigger] h[i]);
    assert(g[0] == h[0] && g[1] == h[1]);
    lemma_base64_char(m / 262144, n / 262144);
    lemma_base64_char(m / 4096 % 64, n / 4096 % 64);
    lemma_base64_char(m / 64 % 64, n / 64 % 64);
    lemma_base64_char(m % 64, n % 64);
    if k >= 3 {
        assert(g[2] == h[2]);
    }
    if k >= 4 {
        assert(g[3] == h[3]);
    }
}

/// How much is missing in a group shows in the padding.
proof fn lemma_base64_padding(bytes: Seq<u8>)
    requires
        1 <= bytes.len() <= 3,
    ensures
        base64_encoded(bytes).len() == 4,
        base64_encoded(bytes)[3] == '=' <==> bytes.len() < 3,
        base64_encoded(bytes)[2] == '=' <==> bytes.len() < 2,
{
    lemma_base64_len(bytes);
    let n = bytes[0] * 65536 + if bytes.len() > 1 {
        bytes[1] * 256
    } else {
        0
    } + if bytes.len() > 2 {
        bytes[2] as int
    } else {
        0
    };
    lemma_base64_char(n / 64 % 64, 0);
    lemma_base64_char(n % 64, 0);
}

/// Decodes Base64: gives back the bytes that were encoded.
pub fn decode_base64(text: &str) -> (r: Result<Vec<u8>, String>)
    ensures
        r is Ok <==> is_base64(text@),
        r matches Ok(bytes) ==> base64_encoded(bytes@) == text@,
        forall|b: Seq<u8>|
            text@ == #[trigger] base64_encoded(b) ==> r is Ok && r->Ok_0@ == b,
        r matches Err(e) ==> e@ == base64_error(text@),
{
    let r = base64_standard_decode(text);
    proof {
        assert forall|b: Seq<u8>| text@ == #[trigger] base64_encoded(b) implies r is Ok
            && r->Ok_0@ == b by {
            law_base64_is_unambiguous(b, r->Ok_0@);
        }
    }
    r
}

// ---- SHA-256 ----

/// The SHA-256 digest of bytes.
pub uninterp spec fn sha256(bytes: Seq<u8>) -> Seq<u8>;

/// `Sha256::digest` of the `sha2` crate, which is 32 bytes long.
#[verifier::external_body]
fn sha256_digest(bytes: &[u8]) -> (d: Vec<u8>)
    ensures
        d@ == sha256(bytes@),
        d@.len() == 32,
{
    <sha2::Sha256 as sha2::Digest>::digest(bytes).to_vec()
}

/// The SHA-256 digest of bytes in Base64: 44 characters.
pub fn fingerprint(bytes: &[u8]) -> (s: String)
    ensures
        s@ == base64_encoded(sha256(bytes@)),
        s@.len() == 44,
{
    let d = sha256_digest(bytes);
    proof {
        lemma_base64_len(d@);
    }
    base64_standard_encode(d.as_slice())
}

/// Text survives the way to bytes and back, and bytes that are UTF-8 survive
/// the way to text and back.
pub proof fn law_utf8_round_trip(text: Seq<char>, bytes: Seq<u8>)
    ensures
        valid_utf8(encode_utf8(text)),
        decode_utf8(encode_utf8(text)) == text,
        valid_utf8(bytes) ==> encode_utf8(decode_utf8(bytes)) == bytes,
{
    broadcast use {
        vstd::utf8::encode_utf8_valid_utf8,
        vstd::utf8::encode_utf8_decode_utf8,
        vstd::utf8::decode_utf8_encode_utf8,
    };

}

} // verus!
