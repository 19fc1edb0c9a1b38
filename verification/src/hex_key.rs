//! Hex-encoded keys: file keys received over HTTP and forest directory
//! names found on disk.

use vstd::prelude::*;
use crate::bytes::H256;
use vstd::string::StringSliceAdditionalSpecFns;

verus! {

/// Whether `c` is an ASCII hex digit (either case).
pub open spec fn is_hex_digit(c: u8) -> bool {
    (48 <= c <= 57) || (65 <= c <= 70) || (97 <= c <= 102)
}

/// The value of an ASCII hex digit.
pub open spec fn hex_val(c: u8) -> int {
    if 48 <= c <= 57 { c - 48 } else if 65 <= c <= 70 { c - 55 } else { c - 87 }
}

/// The bytes that the hex string `s` encodes, two digits per byte, high
/// digit first; `None` when its length is odd or a character is not a hex digit.
pub open spec fn spec_hex_decode(s: Seq<u8>) -> Option<Seq<u8>> {
    if s.len() % 2 != 0 || exists|i: int| 0 <= i < s.len() && !is_hex_digit(#[trigger] s[i]) {
        None
    } else {
        Some(Seq::new((s.len() / 2) as nat, |i: int| (16 * hex_val(s[2 * i]) + hex_val(s[2 * i + 1])) as u8))
    }
}

/// `hex::decode`: the bytes that `s` encodes, `None` when `s` is not a
/// valid hex string (odd length or a non-hex character).
#[verifier::external_body]
fn hex_decode(s: &[u8]) -> (r: Option<Vec<u8>>)
    ensures
        r is None <==> spec_hex_decode(s@) is None,
        r matches Some(v) ==> spec_hex_decode(s@) == Some(v@),
{
    hex::decode(s).ok()
}

/// `s` without all its leading `"0x"`.
pub open spec fn strip_all_0x(s: Seq<u8>) -> Seq<u8>
    decreases s.len(),
{
    if s.len() >= 2 && s[0] == 48 && s[1] == 120 { strip_all_0x(s.skip(2)) } else { s }
}

/// `s` without one leading `"0x"`, when it has one.
pub open spec fn strip_one_0x(s: Seq<u8>) -> Seq<u8> {
    if s.len() >= 2 && s[0] == 48 && s[1] == 120 { s.skip(2) } else { s }
}

/// The bytes of `s` after all its leading `"0x"`.
fn trim_0x_prefixes(s: &[u8]) -> (r: &[u8])
    ensures
        r@ == strip_all_0x(s@),
{
    let mut start: usize = 0;
    assert(s@.skip(0) =~= s@);
    while s.len() - start >= 2 && s[start] == 48 && s[start + 1] == 120
        invariant
            start <= s@.len(),
            strip_all_0x(s@) == strip_all_0x(s@.skip(start as int)),
        decreases s@.len() - start,
    {
        proof {
            let t = s@.skip(start as int);
            assert(t.skip(2) =~= s@.skip(start + 2));
        }
        start = start + 2;
    }
    proof {
        assert(s@.skip(0) =~= s@);
        let t = s@.skip(start as int);
        assert(!(t.len() >= 2 && t[0] == 48 && t[1] == 120));
    }
    let r = vstd::slice::slice_subrange(s, start, s.len());
    assert(r@ =~= s@.skip(start as int));
    r
}

/// Why a file key given as text is refused.
pub enum FileKeyError {
    /// The text is not a hex string
    InvalidHex,
    /// The key does not have 32 bytes; it has this many
    InvalidLength(usize),
}

/// Parses a file key given as hex text, with any number of leading `"0x"`.
pub fn parse_file_key(file_key: &str) -> (r: Result<H256, FileKeyError>)
    ensures
        spec_hex_decode(strip_all_0x(file_key.spec_bytes())) is None ==> r matches Err(FileKeyError::InvalidHex),
        spec_hex_decode(strip_all_0x(file_key.spec_bytes())) matches Some(b) ==> {
            &&& b.len() != 32 ==> (r matches Err(FileKeyError::InvalidLength(n)) && n == b.len())
            &&& b.len() == 32 ==> (r matches Ok(k) && k@ == b)
        },
{
    let bytes = file_key.as_bytes();
    let trimmed = trim_0x_prefixes(bytes);
    let decoded = match hex_decode(trimmed) {
        None => { return Err(FileKeyError::InvalidHex); },
        Some(d) => d,
    };
    if decoded.len() != 32 {
        return Err(FileKeyError::InvalidLength(decoded.len()));
    }
    Ok(bytes_to_h256(&decoded))
}

/// The HTTP status an upload of a file's chunks is answered with: 400 for
/// a file key that does not parse, 200 when the stream was stored and the
/// file completed, 500 when storing it failed.
pub fn upload_status(key: &Result<H256, FileKeyError>, stored: bool) -> (r: u16)
    ensures
        key is Err ==> r == 400,
        key is Ok && stored ==> r == 200,
        key is Ok && !stored ==> r == 500,
{
    match key {
        Err(_) => 400,
        Ok(_) => if stored { 200 } else { 500 },
    }
}

/// The 32 bytes of `b` as a hash.
pub fn bytes_to_h256(b: &Vec<u8>) -> (r: H256)
    requires
        b@.len() == 32,
    ensures
        r@ == b@,
{
    let mut a: H256 = [0u8; 32];
    let mut i: usize = 0;
    while i < 32
        invariant
            b@.len() == 32,
            i <= 32,
            forall|j: int| 0 <= j < i ==> a@[j] == b@[j],
        decreases 32 - i,
    {
        a[i] = b[i];
        i = i + 1;
    }
    assert(a@ =~= b@);
    a
}

/// The key that a forest directory name encodes: the hex after one
/// optional leading `"0x"`; `None` when it is not a hex string.
pub fn forest_dir_key(name: &[u8]) -> (r: Option<Vec<u8>>)
    ensures
        r is None <==> spec_hex_decode(strip_one_0x(name@)) is None,
        r matches Some(v) ==> spec_hex_decode(strip_one_0x(name@)) == Some(v@),
{
    let bytes = name;
    let s = if bytes.len() >= 2 && bytes[0] == 48 && bytes[1] == 120 {
        vstd::slice::slice_subrange(bytes, 2, bytes.len())
    } else {
        bytes
    };
    proof {
        if bytes@.len() >= 2 && bytes@[0] == 48 && bytes@[1] == 120 {
            assert(s@ =~= bytes@.skip(2));
        }
    }
    hex_decode(s)
}

} // verus!
