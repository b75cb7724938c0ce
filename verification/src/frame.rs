//! RSP frame codec: a payload travels as `$` + escaped payload + `#` + two
//! lowercase hex digits of the mod-256 checksum of the escaped (wire) bytes.
//! Bytes `$ # * }` are escaped on the wire as `}` followed by the byte
//! XOR 0x20.

use vstd::prelude::*;
use crate::hex::{hex_digit, hex_pair, hex_digit_byte};

verus! {

pub const DOLLAR: u8 = 0x24;

pub const HASH: u8 = 0x23;

pub const STAR: u8 = 0x2a;

pub const ESC: u8 = 0x7d;

/// A byte that may not travel bare on the wire.
pub open spec fn is_reserved(b: u8) -> bool {
    b == DOLLAR || b == HASH || b == STAR || b == ESC
}

/// The wire form of one payload byte.
pub open spec fn escape_byte(b: u8) -> Seq<u8> {
    if is_reserved(b) {
        seq![ESC, b ^ 0x20]
    } else {
        seq![b]
    }
}

/// The wire form of a whole payload.
pub open spec fn escape(p: Seq<u8>) -> Seq<u8>
    decreases p.len(),
{
    if p.len() == 0 {
        Seq::empty()
    } else {
        escape_byte(p[0]) + escape(p.skip(1))
    }
}

/// The inverse of escaping: `}` consumes the next byte and XORs it with
/// 0x20; every other byte, and a trailing lone `}`, stands for itself.
pub open spec fn unescape(w: Seq<u8>) -> Seq<u8>
    decreases w.len(),
{
    if w.len() == 0 {
        Seq::empty()
    } else if w[0] == ESC && w.len() >= 2 {
        seq![w[1] ^ 0x20] + unescape(w.skip(2))
    } else {
        seq![w[0]] + unescape(w.skip(1))
    }
}

/// The mod-256 sum of a byte sequence.
pub open spec fn sum8(w: Seq<u8>) -> u8
    decreases w.len(),
{
    if w.len() == 0 {
        0
    } else {
        ((sum8(w.drop_last()) + w.last()) % 256) as u8
    }
}

/// The full wire frame that carries payload `p`.
pub open spec fn frame_spec(p: Seq<u8>) -> Seq<u8> {
    seq![DOLLAR] + escape(p) + seq![HASH] + hex_pair(sum8(escape(p)))
}

/// The wire bytes between the frame markers of `w`.
pub open spec fn frame_body(w: Seq<u8>) -> Seq<u8> {
    w.subrange(1, w.len() - 3)
}

/// A lowercase hex digit byte.
pub open spec fn is_hex_lower(b: u8) -> bool {
    (0x30 <= b && b <= 0x39) || (0x61 <= b && b <= 0x66)
}

/// The value of a lowercase hex digit byte.
pub open spec fn hex_val(b: u8) -> u8
    recommends
        is_hex_lower(b),
{
    if 0x30 <= b && b <= 0x39 {
        (b - 0x30) as u8
    } else {
        (b - 0x57) as u8
    }
}

/// A well-formed frame: `$`, a body free of `#`, then `#` and a checksum
/// trailer of two lowercase hex digits matching the mod-256 sum of the body.
pub open spec fn valid_frame(w: Seq<u8>) -> bool {
    &&& w.len() >= 4
    &&& w[0] == DOLLAR
    &&& w[w.len() - 3] == HASH
    &&& (forall|j: int| 1 <= j < w.len() - 3 ==> w[j] != HASH)
    &&& is_hex_lower(w[w.len() - 2])
    &&& is_hex_lower(w[w.len() - 1])
    &&& 16 * hex_val(w[w.len() - 2]) + hex_val(w[w.len() - 1]) == sum8(frame_body(w))
}

pub proof fn lemma_unescape_step_escaped(body: Seq<u8>, k: int)
    requires
        0 <= k,
        k + 1 < body.len(),
        body[k] == ESC,
    ensures
        unescape(body.skip(k)) == seq![body[k + 1] ^ 0x20] + unescape(body.skip(k + 2)),
{
    let rest = body.skip(k);
    assert(rest[0] == body[k] && rest[1] == body[k + 1]);
    assert(rest.skip(2) =~= body.skip(k + 2));
}

pub proof fn lemma_unescape_step_plain(body: Seq<u8>, k: int)
    requires
        0 <= k < body.len(),
        body[k] != ESC || k + 1 == body.len(),
    ensures
        unescape(body.skip(k)) == seq![body[k]] + unescape(body.skip(k + 1)),
{
    let rest = body.skip(k);
    assert(rest[0] == body[k]);
    assert(rest.skip(1) =~= body.skip(k + 1));
}

pub proof fn lemma_sum8_take_step(body: Seq<u8>, k: int)
    requires
        0 <= k < body.len(),
    ensures
        sum8(body.take(k + 1)) == ((sum8(body.take(k)) + body[k]) % 256) as u8,
{
    assert(body.take(k + 1).drop_last() =~= body.take(k));
    assert(body.take(k + 1).last() == body[k]);
}

pub proof fn lemma_sum8_push(s: Seq<u8>, b: u8)
    ensures
        sum8(s.push(b)) == ((sum8(s) + b) % 256) as u8,
{
    assert(s.push(b).drop_last() =~= s);
    assert(s.push(b).last() == b);
}

pub proof fn lemma_escape_push(p: Seq<u8>, b: u8)
    ensures
        escape(p.push(b)) == escape(p) + escape_byte(b),
    decreases p.len(),
{
    if p.len() == 0 {
        assert(escape(Seq::<u8>::empty()) == Seq::<u8>::empty());
        assert(p.push(b).skip(1) =~= Seq::<u8>::empty());
        assert(escape(p.push(b)) =~= escape(p) + escape_byte(b));
    } else {
        assert(p.push(b).skip(1) =~= p.skip(1).push(b));
        lemma_escape_push(p.skip(1), b);
        assert(escape(p.push(b)) =~= escape(p) + escape_byte(b));
    }
}

/// Escaping and unescaping are inverses: the wire form of any payload
/// decodes back to exactly that payload.
pub proof fn lemma_unescape_escape(p: Seq<u8>)
    ensures
        unescape(escape(p)) == p,
    decreases p.len(),
{
    if p.len() == 0 {
        assert(escape(p) == Seq::<u8>::empty());
    } else {
        lemma_unescape_escape(p.skip(1));
        let w = escape(p);
        if is_reserved(p[0]) {
            assert(w == seq![ESC, p[0] ^ 0x20] + escape(p.skip(1)));
            assert(w[0] == ESC && w.len() >= 2);
            assert(w[1] == p[0] ^ 0x20);
            assert(w.skip(2) =~= escape(p.skip(1)));
            let b = p[0];
            assert((b ^ 0x20) ^ 0x20 == b) by (bit_vector);
            assert(unescape(w) =~= p);
        } else {
            assert(w == seq![p[0]] + escape(p.skip(1)));
            assert(w[0] == p[0]);
            assert(p[0] != ESC);
            assert(w.skip(1) =~= escape(p.skip(1)));
            assert(unescape(w) =~= p);
        }
    }
}

/// No byte of a wire-escaped payload is the frame terminator `#`.
pub proof fn lemma_escape_no_hash(p: Seq<u8>)
    ensures
        forall|j: int| 0 <= j < escape(p).len() ==> escape(p)[j] != HASH,
    decreases p.len(),
{
    if p.len() > 0 {
        lemma_escape_no_hash(p.skip(1));
        let b = p[0];
        assert(0x24u8 ^ 0x20 == 0x04 && 0x23u8 ^ 0x20 == 0x03 && 0x2au8 ^ 0x20 == 0x0a
            && 0x7du8 ^ 0x20 == 0x5d) by (bit_vector);
        assert forall|j: int| 0 <= j < escape(p).len() implies escape(p)[j] != HASH by {
            let k = escape_byte(b).len();
            if j < k {
                assert(escape(p)[j] == escape_byte(b)[j]);
            } else {
                assert(escape(p)[j] == escape(p.skip(1))[j - k]);
            }
        }
    }
}

pub proof fn lemma_hex_val_of_digit(n: u8)
    requires
        n < 16,
    ensures
        is_hex_lower(hex_digit(n)),
        hex_val(hex_digit(n)) == n,
{
}

/// Every payload frames to a well-formed wire frame whose body decodes
/// back to exactly the original payload.
pub proof fn lemma_frame_round_trip(p: Seq<u8>)
    ensures
        valid_frame(frame_spec(p)),
        unescape(frame_body(frame_spec(p))) == p,
{
    let w = frame_spec(p);
    let e = escape(p);
    let c = sum8(e);
    assert(w.len() == e.len() + 4);
    assert(frame_body(w) =~= e);
    assert(w[0] == DOLLAR);
    assert(w[w.len() - 3] == HASH);
    lemma_escape_no_hash(p);
    assert forall|j: int| 1 <= j < w.len() - 3 implies w[j] != HASH by {
        assert(w[j] == e[j - 1]);
    }
    assert(w[w.len() - 2] == hex_digit(c / 16));
    assert(w[w.len() - 1] == hex_digit(c % 16));
    lemma_hex_val_of_digit(c / 16);
    lemma_hex_val_of_digit(c % 16);
    assert(16 * (c / 16) + c % 16 == c);
    lemma_unescape_escape(p);
}

pub proof fn lemma_escape_append(a: Seq<u8>, b: Seq<u8>)
    ensures
        escape(a + b) == escape(a) + escape(b),
    decreases a.len(),
{
    if a.len() == 0 {
        assert(a + b =~= b);
        assert(escape(a) == Seq::<u8>::empty());
        assert(escape(a + b) =~= escape(a) + escape(b));
    } else {
        assert((a + b).skip(1) =~= a.skip(1) + b);
        lemma_escape_append(a.skip(1), b);
        assert((a + b)[0] == a[0]);
        assert(escape(a + b) =~= escape(a) + escape(b));
    }
}

/// Each reserved payload byte appears on the wire in its two-byte escaped
/// form, `}` followed by the byte XOR 0x20, at the wire position that
/// escaping the preceding payload bytes reaches.
pub proof fn lemma_escape_reserved_at(p: Seq<u8>, i: int)
    requires
        0 <= i < p.len(),
        is_reserved(p[i]),
    ensures
        escape(p.take(i)).len() + 2 <= escape(p).len(),
        escape(p).subrange(
            escape(p.take(i)).len() as int,
            escape(p.take(i)).len() as int + 2,
        ) == seq![ESC, p[i] ^ 0x20],
{
    assert(p =~= p.take(i) + p.skip(i));
    lemma_escape_append(p.take(i), p.skip(i));
    assert(p.skip(i)[0] == p[i]);
    assert(escape(p.skip(i)) == seq![ESC, p[i] ^ 0x20] + escape(p.skip(i).skip(1)));
    let pos = escape(p.take(i)).len() as int;
    assert(escape(p).subrange(pos, pos + 2) =~= seq![ESC, p[i] ^ 0x20]);
}

/// Builds the wire frame for `payload`: `$`, the escaped payload, `#`, and
/// the two lowercase hex digits of the checksum of the escaped bytes.
pub fn encode_packet(payload: &[u8]) -> (r: Vec<u8>)
    ensures
        r@ == frame_spec(payload@),
{
    let mut out: Vec<u8> = Vec::new();
    let mut csum: u8 = 0;
    out.push(DOLLAR);
    let mut i: usize = 0;
    while i < payload.len()
        invariant
            i <= payload.len(),
            out@ == seq![DOLLAR] + escape(payload@.take(i as int)),
            csum == sum8(escape(payload@.take(i as int))),
        decreases payload.len() - i,
    {
        let b = payload[i];
        proof {
            lemma_escape_push(payload@.take(i as int), b);
            assert(payload@.take(i as int).push(b) =~= payload@.take(i + 1));
        }
        if b == DOLLAR || b == HASH || b == STAR || b == ESC {
            let e = b ^ 0x20;
            proof {
                let pre = escape(payload@.take(i as int));
                assert(escape(payload@.take(i + 1)) =~= pre.push(ESC).push(e));
                lemma_sum8_push(pre, ESC);
                lemma_sum8_push(pre.push(ESC), e);
            }
            out.push(ESC);
            out.push(e);
            csum = csum.wrapping_add(ESC);
            csum = csum.wrapping_add(e);
        } else {
            proof {
                let pre = escape(payload@.take(i as int));
                assert(escape(payload@.take(i + 1)) =~= pre.push(b));
                lemma_sum8_push(pre, b);
            }
            out.push(b);
            csum = csum.wrapping_add(b);
        }
        proof {
            assert(out@ =~= seq![DOLLAR] + escape(payload@.take(i + 1)));
        }
        i += 1;
    }
    proof {
        assert(payload@.take(payload@.len() as int) =~= payload@);
    }
    out.push(HASH);
    let hi = hex_digit_byte(csum / 16);
    let lo = hex_digit_byte(csum % 16);
    out.push(hi);
    out.push(lo);
    proof {
        assert(out@ =~= frame_spec(payload@));
    }
    out
}

/// The exec mirror of `hex_val`: the value of a lowercase hex digit byte,
/// or `None` for any other byte.
pub fn hex_val_byte(b: u8) -> (r: Option<u8>)
    ensures
        r is Some <==> is_hex_lower(b),
        r matches Some(v) ==> v == hex_val(b) && v < 16,
{
    if 0x30 <= b && b <= 0x39 {
        Some(b - 0x30)
    } else if 0x61 <= b && b <= 0x66 {
        Some(b - 0x57)
    } else {
        None
    }
}

/// Unescapes a frame body and sums its wire bytes mod 256.
#[verifier::rlimit(100)]
fn unescape_and_sum(body: &[u8]) -> (r: (Vec<u8>, u8))
    ensures
        r.0@ == unescape(body@),
        r.1 == sum8(body@),
{
    let mut out: Vec<u8> = Vec::new();
    let mut csum: u8 = 0;
    let mut k: usize = 0;
    let blen = body.len();
    proof {
        assert(body@.skip(0) =~= body@);
        assert(out@ + unescape(body@) =~= unescape(body@));
        assert(body@.take(0) =~= Seq::<u8>::empty());
    }
    while k < blen
        invariant
            0 <= k <= blen,
            blen == body@.len(),
            unescape(body@) == out@ + unescape(body@.skip(k as int)),
            csum == sum8(body@.take(k as int)),
        decreases blen - k,
    {
        let b = body[k];
        if b == ESC && k + 1 < blen {
            let b2 = body[k + 1];
            let e = b2 ^ 0x20;
            proof {
                lemma_unescape_step_escaped(body@, k as int);
                lemma_sum8_take_step(body@, k as int);
                lemma_sum8_take_step(body@, k + 1);
                assert(out@.push(e) + unescape(body@.skip(k + 2)) =~= out@ + unescape(
                    body@.skip(k as int),
                ));
            }
            out.push(e);
            csum = csum.wrapping_add(b);
            csum = csum.wrapping_add(b2);
            k += 2;
        } else {
            proof {
                lemma_unescape_step_plain(body@, k as int);
                lemma_sum8_take_step(body@, k as int);
                assert(out@.push(b) + unescape(body@.skip(k + 1)) =~= out@ + unescape(
                    body@.skip(k as int),
                ));
            }
            out.push(b);
            csum = csum.wrapping_add(b);
            k += 1;
        }
    }
    proof {
        assert(body@.take(blen as int) =~= body@);
        assert(body@.skip(blen as int) =~= Seq::<u8>::empty());
        assert(unescape(Seq::<u8>::empty()) == Seq::<u8>::empty());
        assert(out@ =~= unescape(body@));
    }
    (out, csum)
}

/// Strips the framing of `frame`, unescapes its body, and checks its
/// checksum trailer; yields the payload exactly when the frame is
/// well formed.
pub fn decode_packet(frame: &[u8]) -> (r: Option<Vec<u8>>)
    ensures
        r is Some <==> valid_frame(frame@),
        r matches Some(v) ==> v@ == unescape(frame_body(frame@)),
{
    let n = frame.len();
    if n < 4 {
        return None;
    }
    if frame[0] != DOLLAR {
        return None;
    }
    let mut h: usize = 1;
    while h < n && frame[h] != HASH
        invariant
            1 <= h <= n,
            n == frame@.len(),
            forall|j: int| 1 <= j < h ==> frame@[j] != HASH,
        decreases n - h,
    {
        h += 1;
    }
    if h != n - 3 {
        return None;
    }
    let hi = match hex_val_byte(frame[n - 2]) {
        Some(v) => v,
        None => {
            return None;
        },
    };
    let lo = match hex_val_byte(frame[n - 1]) {
        Some(v) => v,
        None => {
            return None;
        },
    };
    let body = vstd::slice::slice_subrange(frame, 1, h);
    proof {
        assert(body@ =~= frame_body(frame@));
    }
    let (out, csum) = unescape_and_sum(body);
    if 16 * hi + lo == csum {
        Some(out)
    } else {
        None
    }
}

} // verus!
