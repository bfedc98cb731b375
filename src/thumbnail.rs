//! The cache file name of a file's thumbnail: the MD5 digest of its path in
//! lower-case hexadecimal, with a `.png` extension.
use vstd::prelude::*;

verus! {

/// The MD5 digest of the UTF-8 bytes of a string.
pub uninterp spec fn md5_of(s: Seq<char>) -> Seq<u8>;

/// Relies on `md5::compute`: the digest of the string's bytes, 16 bytes
/// long.
#[verifier::external_body]
fn md5_digest(s: &str) -> (r: Vec<u8>)
    ensures
        r@ == md5_of(s@),
        r@.len() == 16,
{
    md5::compute(s.as_bytes()).0.to_vec()
}

pub open spec fn hex_digits() -> Seq<char> {
    "0123456789abcdef"@
}

/// Two lower-case hexadecimal digits per byte, high digit first.
pub open spec fn hex_of(b: Seq<u8>) -> Seq<char>
    decreases b.len(),
{
    if b.len() == 0 {
        seq![]
    } else {
        hex_of(b.drop_last()) + seq![
            hex_digits()[(b.last() / 16) as int],
            hex_digits()[(b.last() % 16) as int],
        ]
    }
}

/// The bytes in lower-case hexadecimal, two digits each.
pub fn hex_string(b: &Vec<u8>) -> (r: String)
    ensures
        r@ == hex_of(b@),
{
    let digits = "0123456789abcdef";
    proof {
        reveal_strlit("0123456789abcdef");
    }
    assert(digits@.len() == 16);
    let mut out = String::new();
    let mut i: usize = 0;
    while i < b.len()
        invariant
            i <= b@.len(),
            digits@ == hex_digits(),
            digits@.len() == 16,
            out@ == hex_of(b@.take(i as int)),
        decreases b@.len() - i,
    {
        let x = b[i];
        assert(b@.take(i + 1 as int).drop_last() =~= b@.take(i as int));
        out.push(digits.get_char((x / 16) as usize));
        out.push(digits.get_char((x % 16) as usize));
        assert(out@ =~= hex_of(b@.take(i + 1 as int)));
        i = i + 1;
    }
    assert(b@.take(b@.len() as int) =~= b@);
    out
}

/// The thumbnail cache file name for a file path.
pub fn thumbnail_file_name(path: &str) -> (r: String)
    ensures
        r@ == hex_of(md5_of(path@)) + ".png"@,
{
    let mut name = hex_string(&md5_digest(path));
    name.append(".png");
    name
}

} // verus!
