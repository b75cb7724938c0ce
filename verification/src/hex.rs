//! Lowercase hexadecimal encoding of byte sequences, as used in RSP reply
//! payloads and frame checksum trailers.

use vstd::prelude::*;

verus! {

/// The lowercase ASCII hex digit for a value below 16.
pub open spec fn hex_digit(n: u8) -> u8
    recommends
        n < 16,
{
    if n < 10 {
        (0x30 + n) as u8
    } else {
        (0x57 + n) as u8
    }
}

/// The two lowercase hex digits of one byte, high nibble first.
pub open spec fn hex_pair(b: u8) -> Seq<u8> {
    seq![hex_digit(b / 16), hex_digit(b % 16)]
}

/// The lowercase hex encoding of a byte sequence: two digits per byte.
pub open spec fn hex_of_bytes(s: Seq<u8>) -> Seq<u8>
    decreases s.len(),
{
    if s.len() == 0 {
        Seq::empty()
    } else {
        hex_pair(s[0]) + hex_of_bytes(s.skip(1))
    }
}

pub proof fn lemma_hex_of_bytes_push(s: Seq<u8>, b: u8)
    ensures
        hex_of_bytes(s.push(b)) == hex_of_bytes(s) + hex_pair(b),
    decreases s.len(),
{
    if s.len() == 0 {
        assert(hex_of_bytes(Seq::<u8>::empty()) == Seq::<u8>::empty());
        assert(s.push(b).skip(1) =~= Seq::<u8>::empty());
        assert(hex_of_bytes(s.push(b)) =~= hex_of_bytes(s) + hex_pair(b));
    } else {
        assert(s.push(b).skip(1) =~= s.skip(1).push(b));
        lemma_hex_of_bytes_push(s.skip(1), b);
        assert(hex_of_bytes(s.push(b)) =~= hex_of_bytes(s) + hex_pair(b));
    }
}

pub proof fn lemma_hex_of_bytes_len(s: Seq<u8>)
    ensures
        hex_of_bytes(s).len() == 2 * s.len(),
    decreases s.len(),
{
    if s.len() > 0 {
        lemma_hex_of_bytes_len(s.skip(1));
    }
}

/// The lowercase hex digit of a value below 16, as a byte.
pub fn hex_digit_byte(n: u8) -> (r: u8)
    requires
        n < 16,
    ensures
        r == hex_digit(n),
{
    if n < 10 {
        0x30 + n
    } else {
        0x57 + n
    }
}

/// Appends the two lowercase hex digits of `b` to `out`.
pub fn push_hex_pair(out: &mut Vec<u8>, b: u8)
    ensures
        final(out)@ == old(out)@ + hex_pair(b),
{
    let hi = hex_digit_byte(b / 16);
    let lo = hex_digit_byte(b % 16);
    out.push(hi);
    out.push(lo);
    assert(out@ =~= old(out)@ + hex_pair(b));
}

/// The lowercase hex encoding of `data`, two digits per byte.
pub fn hex_encode(data: &[u8]) -> (r: Vec<u8>)
    ensures
        r@ == hex_of_bytes(data@),
{
    let mut out: Vec<u8> = Vec::new();
    let mut i: usize = 0;
    while i < data.len()
        invariant
            i <= data.len(),
            out@ == hex_of_bytes(data@.take(i as int)),
        decreases data.len() - i,
    {
        proof {
            lemma_hex_of_bytes_push(data@.take(i as int), data@[i as int]);
            assert(data@.take(i as int).push(data@[i as int]) =~= data@.take(i + 1));
        }
        push_hex_pair(&mut out, data[i]);
        i += 1;
    }
    proof {
        assert(data@.take(data@.len() as int) =~= data@);
    }
    out
}

/// Relies on String::from_utf8: bytes below 0x80 are valid UTF-8, and the
/// resulting string's characters are exactly those bytes.
#[verifier::external_body]
fn string_from_ascii(v: Vec<u8>) -> (r: String)
    requires
        forall|i: int| 0 <= i < v@.len() ==> v@[i] < 0x80,
    ensures
        r@.len() == v@.len(),
        forall|i: int| 0 <= i < v@.len() ==> r@[i] as u8 == v@[i],
{
    String::from_utf8(v).expect("ascii bytes are valid utf-8")
}

/// Hex rendering of a byte sequence.
pub trait ToHex {
    /// The lowercase hex encoding, two digits per byte.
    fn to_hex(&self) -> (r: String)
        ensures
            r@.len() == 2 * self.hex_source().len(),
            forall|i: int| 0 <= i < r@.len() ==> r@[i] as u8 == hex_of_bytes(self.hex_source())[i],
    ;

    /// The bytes being rendered.
    spec fn hex_source(&self) -> Seq<u8>;
}

pub proof fn lemma_hex_of_bytes_ascii(s: Seq<u8>)
    ensures
        forall|i: int| 0 <= i < hex_of_bytes(s).len() ==> hex_of_bytes(s)[i] < 0x80,
    decreases s.len(),
{
    if s.len() > 0 {
        lemma_hex_of_bytes_ascii(s.skip(1));
        assert forall|i: int| 0 <= i < hex_of_bytes(s).len() implies hex_of_bytes(s)[i]
            < 0x80 by {
            if i < 2 {
                assert(hex_of_bytes(s)[i] == hex_pair(s[0])[i]);
            } else {
                assert(hex_of_bytes(s)[i] == hex_of_bytes(s.skip(1))[i - 2]);
            }
        }
    }
}

impl ToHex for [u8] {
    open spec fn hex_source(&self) -> Seq<u8> {
        self@
    }

    fn to_hex(&self) -> (r: String) {
        let bytes = hex_encode(self);
        proof {
            lemma_hex_of_bytes_ascii(self@);
            lemma_hex_of_bytes_len(self@);
        }
        string_from_ascii(bytes)
    }
}

} // verus!
