//! SHA-256 digests of file contents, written in lowercase hexadecimal.
use vstd::prelude::*;
use crate::manifest::opt_view;

verus! {

/// The SHA-256 digest of `data`, as `sha2::Sha256` computes it.
pub uninterp spec fn sha256_of(data: Seq<u8>) -> Seq<u8>;

/// Calls `sha2::Sha256::digest` on `data`. The result is `sha256_of(data)`, 32 bytes long
/// (the output size of `Sha256`); that it is the SHA-256 digest is not proved here.
#[verifier::external_body]
fn sha256_digest(data: &[u8]) -> (res: Vec<u8>)
    ensures
        res@ == sha256_of(data@),
        res@.len() == 32,
{
    <sha2::Sha256 as sha2::Digest>::digest(data).to_vec()
}

/// The lowercase hexadecimal digit for `n < 16`.
pub open spec fn hex_digit(n: u8) -> char {
    if n < 10 {
        ((n as int) + 48) as char
    } else {
        ((n as int) + 87) as char
    }
}

/// `bytes` in lowercase hexadecimal, two digits a byte, as `{:x}` writes a digest.
pub open spec fn hex_lower(bytes: Seq<u8>) -> Seq<char>
    decreases bytes.len(),
{
    if bytes.len() == 0 {
        seq![]
    } else {
        hex_lower(bytes.drop_last()) + seq![hex_digit(bytes.last() / 16), hex_digit(bytes.last() % 16)]
    }
}

fn hex_char(n: u8) -> (c: char)
    requires
        n < 16,
    ensures
        c == hex_digit(n),
{
    if n < 10 {
        (n + 48) as char
    } else {
        (n + 87) as char
    }
}

/// Two hexadecimal digits a byte.
pub proof fn lemma_hex_length(bytes: Seq<u8>)
    ensures
        hex_lower(bytes).len() == 2 * bytes.len(),
    decreases bytes.len(),
{
    if bytes.len() > 0 {
        lemma_hex_length(bytes.drop_last());
    }
}

/// `bytes` in lowercase hexadecimal.
pub fn to_hex(bytes: &[u8]) -> (res: String)
    ensures
        res@ == hex_lower(bytes@),
{
    let mut out = String::new();
    let mut i: usize = 0;
    while i < bytes.len()
        invariant
            i <= bytes.len(),
            out@ == hex_lower(bytes@.take(i as int)),
        decreases bytes.len() - i,
    {
        let b = bytes[i];
        crate::text::push_char(&mut out, hex_char(b / 16));
        crate::text::push_char(&mut out, hex_char(b % 16));
        assert(bytes@.take(i + 1).drop_last() =~= bytes@.take(i as int));
        i += 1;
        assert(out@ =~= hex_lower(bytes@.take(i as int)));
    }
    assert(bytes@.take(bytes.len() as int) =~= bytes@);
    out
}

/// The SHA-256 digest of `data` in lowercase hexadecimal: 64 characters.
pub fn sha256_hex(data: &[u8]) -> (res: String)
    ensures
        res@ == hex_lower(sha256_of(data@)),
        res@.len() == 64,
{
    let digest = sha256_digest(data);
    proof {
        lemma_hex_length(digest@);
    }
    to_hex(&digest)
}

/// The lowercase hexadecimal SHA-256 digest of `contents`, where there are any.
pub open spec fn digest_text(contents: Option<Vec<u8>>) -> Option<Seq<char>> {
    match contents {
        Some(b) => Some(hex_lower(sha256_of(b@))),
        None => None,
    }
}

/// The digest of `contents`, where there are any.
pub fn digest_of(contents: &Option<Vec<u8>>) -> (res: Option<String>)
    ensures
        opt_view(res) == digest_text(*contents),
{
    match contents {
        Some(b) => Some(sha256_hex(b)),
        None => None,
    }
}

} // verus!
