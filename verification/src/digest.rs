use vstd::prelude::*;

use crate::strutil::push_char;

verus! {

/// MD5 digest of a byte sequence, as the outside MD5 crate computes it:
/// sixteen bytes, a function of the input alone.
pub uninterp spec fn md5_of(bytes: Seq<u8>) -> Seq<u8>;

/// SHA-256 digest of a byte sequence, as the outside SHA-2 crate computes
/// it: thirty-two bytes, a function of the input alone.
pub uninterp spec fn sha256_of(bytes: Seq<u8>) -> Seq<u8>;

/// Relies on md5::Md5::digest (RustCrypto): returns the 16-byte MD5 digest
/// of the input, depending on the input bytes alone.
#[verifier::external_body]
fn md5_digest(bytes: &[u8]) -> (r: Vec<u8>)
    ensures
        r@ == md5_of(bytes@),
        r@.len() == 16,
{
    <md5::Md5 as md5::Digest>::digest(bytes).to_vec()
}

/// Relies on sha2::Sha256::digest (RustCrypto): returns the 32-byte SHA-256
/// digest of the input, depending on the input bytes alone.
#[verifier::external_body]
fn sha256_digest(bytes: &[u8]) -> (r: Vec<u8>)
    ensures
        r@ == sha256_of(bytes@),
        r@.len() == 32,
{
    <sha2::Sha256 as sha2::Digest>::digest(bytes).to_vec()
}

/// Lower-case hexadecimal digit for a value below sixteen.
pub open spec fn hex_digit(n: u8) -> char {
    if n < 10 {
        ((('0' as u8) + n) as char)
    } else {
        ((('a' as u8) + (n - 10)) as char)
    }
}

/// Lower-case hexadecimal encoding of a byte sequence, two digits per byte.
pub open spec fn hex_of(bytes: Seq<u8>) -> Seq<char>
    decreases bytes.len(),
{
    if bytes.len() == 0 {
        Seq::empty()
    } else {
        seq![hex_digit(bytes[0] / 16), hex_digit(bytes[0] % 16)] + hex_of(bytes.drop_first())
    }
}

/// Lower-case hex MD5 of a byte sequence, the form stored and compared.
pub open spec fn md5_hex_of(bytes: Seq<u8>) -> Seq<char> {
    hex_of(md5_of(bytes))
}

/// Lower-case hex SHA-256 of a byte sequence, the running-digest form.
pub open spec fn sha256_hex_of(bytes: Seq<u8>) -> Seq<char> {
    hex_of(sha256_of(bytes))
}

fn hex_digit_exec(n: u8) -> (r: char)
    requires
        n < 16,
    ensures
        r == hex_digit(n),
{
    if n < 10 {
        (('0' as u8) + n) as char
    } else {
        (('a' as u8) + (n - 10)) as char
    }
}

/// Lower-case hexadecimal encoding of a byte slice.
pub fn to_hex(bytes: &[u8]) -> (r: String)
    ensures
        r@ == hex_of(bytes@),
        r@.len() == 2 * bytes@.len(),
{
    let mut r = String::new();
    let n = bytes.len();
    proof {
        assert(bytes@.skip(0) == bytes@);
    }
    let mut i: usize = 0;
    while i < n
        invariant
            n == bytes@.len(),
            0 <= i <= n,
            r@.len() == 2 * i,
            hex_of(bytes@) == r@ + hex_of(bytes@.skip(i as int)),
        decreases n - i,
    {
        let b = bytes[i];
        proof {
            assert(bytes@.skip(i as int)[0] == bytes@[i as int]);
            assert(bytes@.skip(i as int).drop_first() =~= bytes@.skip(i as int + 1));
            assert(hex_of(bytes@.skip(i as int)) == seq![
                hex_digit(b / 16),
                hex_digit(b % 16),
            ] + hex_of(bytes@.skip(i as int + 1)));
        }
        let ghost r0 = r@;
        push_char(&mut r, hex_digit_exec(b / 16));
        push_char(&mut r, hex_digit_exec(b % 16));
        proof {
            assert(r@ =~= r0 + seq![hex_digit(b / 16), hex_digit(b % 16)]);
            assert(r@ + hex_of(bytes@.skip(i as int + 1)) =~= r0 + hex_of(
                bytes@.skip(i as int),
            ));
        }
        i = i + 1;
    }
    proof {
        assert(bytes@.skip(n as int) =~= Seq::<u8>::empty());
        assert(r@ + hex_of(bytes@.skip(n as int)) =~= r@);
    }
    r
}

/// Lower-case hex MD5 digest of a byte slice.
pub fn md5_hex(bytes: &[u8]) -> (r: String)
    ensures
        r@ == md5_hex_of(bytes@),
        r@.len() == 32,
{
    let d = md5_digest(bytes);
    to_hex(d.as_slice())
}

/// Lower-case hex SHA-256 digest of a byte slice.
pub fn sha256_hex(bytes: &[u8]) -> (r: String)
    ensures
        r@ == sha256_hex_of(bytes@),
        r@.len() == 64,
{
    let d = sha256_digest(bytes);
    to_hex(d.as_slice())
}

} // verus!
