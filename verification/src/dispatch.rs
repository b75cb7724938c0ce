//! Command dispatch: the leading byte of a command payload selects a
//! handler. Execution-control and thread commands draw fixed replies; `g`
//! asks for the register image, `m` parses `addr,length` and asks for a
//! memory read, `D` ends the session, `q` delegates to the query
//! dispatcher, and anything unrecognized draws an empty reply.

use vstd::prelude::*;
use crate::hex::{hex_of_bytes, hex_encode, lemma_hex_of_bytes_len};
use crate::query::{query_reply, handle_query};

verus! {

/// The registers of the 32-bit x86 target, in wire order: EAX, ECX, EDX,
/// EBX, ESP, EBP, ESI, EDI, EIP, EFLAGS, CS, SS, DS, ES, FS, GS.
pub const REGISTER_COUNT: usize = 16;

pub const COMMA: u8 = 0x2c;

/// The fixed stop-reply `S05`: stopped with signal 5.
pub open spec fn lit_s05() -> Seq<u8> {
    seq![0x53, 0x30, 0x35]
}

/// The reply `OK`.
pub open spec fn lit_ok() -> Seq<u8> {
    seq![0x4f, 0x4b]
}

/// The error reply `E01`.
pub open spec fn lit_e01() -> Seq<u8> {
    seq![0x45, 0x30, 0x31]
}

/// The value of an ASCII hex digit, upper or lower case.
pub open spec fn hex_digit_value(b: u8) -> Option<u8> {
    if 0x30 <= b && b <= 0x39 {
        Some((b - 0x30) as u8)
    } else if 0x61 <= b && b <= 0x66 {
        Some((b - 0x57) as u8)
    } else if 0x41 <= b && b <= 0x46 {
        Some((b - 0x37) as u8)
    } else {
        None
    }
}

/// Whether `s` is one or more ASCII hex digits.
pub open spec fn all_hex_digits(s: Seq<u8>) -> bool {
    s.len() > 0 && forall|i: int| 0 <= i < s.len() ==> hex_digit_value(s[i]) is Some
}

/// The unbounded value of a hex digit string.
pub open spec fn hex_num_value(s: Seq<u8>) -> int
    recommends
        all_hex_digits(s),
    decreases s.len(),
{
    if s.len() == 0 {
        0
    } else {
        hex_num_value(s.drop_last()) * 16 + hex_digit_value(s.last()).unwrap_or(0)
    }
}

/// A hex digit string parsed as a 64-bit number; `None` on a malformed or
/// empty string and on overflow.
pub open spec fn parse_hex_u64(s: Seq<u8>) -> Option<u64> {
    if all_hex_digits(s) && hex_num_value(s) <= u64::MAX {
        Some(hex_num_value(s) as u64)
    } else {
        None
    }
}

pub proof fn lemma_hex_num_value_nonneg(s: Seq<u8>)
    ensures
        hex_num_value(s) >= 0,
    decreases s.len(),
{
    if s.len() > 0 {
        lemma_hex_num_value_nonneg(s.drop_last());
    }
}

pub proof fn lemma_hex_num_value_monotone(s: Seq<u8>, k: int)
    requires
        0 <= k <= s.len(),
    ensures
        hex_num_value(s.take(k)) <= hex_num_value(s),
    decreases s.len() - k,
{
    if k == s.len() {
        assert(s.take(k) =~= s);
    } else {
        lemma_hex_num_value_monotone(s, k + 1);
        let t = s.take(k + 1);
        assert(t.drop_last() =~= s.take(k));
        assert(t.last() == s[k]);
        lemma_hex_num_value_nonneg(s.take(k));
        match hex_digit_value(s[k]) {
            Some(d) => {
                assert(hex_num_value(t) == hex_num_value(s.take(k)) * 16 + d);
            },
            None => {
                assert(hex_num_value(t) == hex_num_value(s.take(k)) * 16);
            },
        }
    }
}

/// The exec mirror of `hex_digit_value`.
pub fn hex_digit_value_byte(b: u8) -> (r: Option<u8>)
    ensures
        r == hex_digit_value(b),
{
    if 0x30 <= b && b <= 0x39 {
        Some(b - 0x30)
    } else if 0x61 <= b && b <= 0x66 {
        Some(b - 0x57)
    } else if 0x41 <= b && b <= 0x46 {
        Some(b - 0x37)
    } else {
        None
    }
}

/// Parses a hex digit string as a 64-bit number, rejecting malformed input
/// and overflow.
pub fn parse_hex_num(s: &[u8]) -> (r: Option<u64>)
    ensures
        r == parse_hex_u64(s@),
{
    if s.len() == 0 {
        return None;
    }
    let mut acc: u64 = 0;
    let mut i: usize = 0;
    while i < s.len()
        invariant
            0 <= i <= s@.len(),
            s@.len() > 0,
            forall|j: int| 0 <= j < i ==> hex_digit_value(s@[j]) is Some,
            acc == hex_num_value(s@.take(i as int)),
        decreases s@.len() - i,
    {
        let d = match hex_digit_value_byte(s[i]) {
            Some(d) => d,
            None => {
                return None;
            },
        };
        proof {
            let t = s@.take(i + 1);
            assert(t.drop_last() =~= s@.take(i as int));
            assert(t.last() == s@[i as int]);
        }
        if acc > (u64::MAX - d as u64) / 16 {
            proof {
                lemma_hex_num_value_monotone(s@, i + 1);
                lemma_hex_num_value_nonneg(s@.take(i + 1));
            }
            return None;
        }
        acc = acc * 16 + d as u64;
        i += 1;
    }
    proof {
        assert(s@.take(s@.len() as int) =~= s@);
    }
    Some(acc)
}

/// The index of the first comma in `s`, if any.
pub open spec fn find_comma(s: Seq<u8>) -> Option<int>
    decreases s.len(),
{
    if s.len() == 0 {
        None
    } else if s[0] == COMMA {
        Some(0int)
    } else {
        match find_comma(s.skip(1)) {
            Some(i) => Some(i + 1),
            None => None,
        }
    }
}

pub proof fn lemma_find_comma_at(s: Seq<u8>, i: int)
    requires
        0 <= i < s.len(),
        s[i] == COMMA,
        forall|j: int| 0 <= j < i ==> s[j] != COMMA,
    ensures
        find_comma(s) == Some(i),
    decreases i,
{
    if i > 0 {
        assert(s.skip(1)[i - 1] == COMMA);
        assert forall|j: int| 0 <= j < i - 1 implies s.skip(1)[j] != COMMA by {
            assert(s.skip(1)[j] == s[j + 1]);
        }
        lemma_find_comma_at(s.skip(1), i - 1);
    }
}

pub proof fn lemma_find_comma_absent(s: Seq<u8>)
    requires
        forall|j: int| 0 <= j < s.len() ==> s[j] != COMMA,
    ensures
        find_comma(s) is None,
    decreases s.len(),
{
    if s.len() > 0 {
        assert forall|j: int| 0 <= j < s.skip(1).len() implies s.skip(1)[j] != COMMA by {
            assert(s.skip(1)[j] == s[j + 1]);
        }
        lemma_find_comma_absent(s.skip(1));
    }
}

/// The exec mirror of `find_comma`.
pub fn find_comma_index(s: &[u8]) -> (r: Option<usize>)
    ensures
        r matches Some(i) ==> i < s@.len() && find_comma(s@) == Some(i as int),
        r is None ==> find_comma(s@) is None,
{
    let mut i: usize = 0;
    while i < s.len()
        invariant
            0 <= i <= s@.len(),
            forall|j: int| 0 <= j < i ==> s@[j] != COMMA,
        decreases s@.len() - i,
    {
        if s[i] == COMMA {
            proof {
                lemma_find_comma_at(s@, i as int);
            }
            return Some(i);
        }
        i += 1;
    }
    proof {
        lemma_find_comma_absent(s@);
    }
    None
}

/// The `addr,length` arguments of a memory read: the hex number before the
/// first comma and the hex number between the first comma and the second
/// comma or the end (further comma-separated fields are ignored). `None` on
/// a missing comma, a malformed number, or overflow of the machine's sizes.
pub open spec fn parse_mem_args(s: Seq<u8>) -> Option<(u64, usize)> {
    match find_comma(s) {
        None => None,
        Some(i) => {
            let addr_part = s.take(i);
            let rest = s.skip(i + 1);
            let len_part = match find_comma(rest) {
                Some(j) => rest.take(j),
                None => rest,
            };
            match (parse_hex_u64(addr_part), parse_hex_u64(len_part)) {
                (Some(a), Some(l)) => if l <= usize::MAX {
                    Some((a, l as usize))
                } else {
                    None
                },
                _ => None,
            }
        },
    }
}

/// Parses the `addr,length` arguments of a memory read.
pub fn parse_mem_args_bytes(s: &[u8]) -> (r: Option<(u64, usize)>)
    ensures
        r == parse_mem_args(s@),
{
    let n = s.len();
    let i = match find_comma_index(s) {
        Some(i) => i,
        None => {
            return None;
        },
    };
    assert(i < n);
    let addr_part = vstd::slice::slice_subrange(s, 0, i);
    proof {
        assert(addr_part@ =~= s@.take(i as int));
    }
    let rest = vstd::slice::slice_subrange(s, i + 1, n);
    proof {
        assert(rest@ =~= s@.skip(i + 1));
    }
    let len_part = match find_comma_index(rest) {
        Some(j) => {
            let p = vstd::slice::slice_subrange(rest, 0, j);
            proof {
                assert(p@ =~= rest@.take(j as int));
            }
            p
        },
        None => rest,
    };
    let a = match parse_hex_num(addr_part) {
        Some(a) => a,
        None => {
            return None;
        },
    };
    let l = match parse_hex_num(len_part) {
        Some(l) => l,
        None => {
            return None;
        },
    };
    if l <= usize::MAX as u64 {
        Some((a, l as usize))
    } else {
        None
    }
}

/// The four bytes of a 32-bit register value in target (little-endian)
/// byte order.
pub open spec fn le_bytes_u32(v: u32) -> Seq<u8> {
    seq![
        (v & 0xff) as u8,
        ((v >> 8) & 0xff) as u8,
        ((v >> 16) & 0xff) as u8,
        ((v >> 24) & 0xff) as u8,
    ]
}

/// The register image: the little-endian bytes of each value, in wire
/// order.
pub open spec fn regs_bytes(vals: Seq<u32>) -> Seq<u8>
    decreases vals.len(),
{
    if vals.len() == 0 {
        Seq::empty()
    } else {
        le_bytes_u32(vals[0]) + regs_bytes(vals.skip(1))
    }
}

pub proof fn lemma_regs_bytes_push(vals: Seq<u32>, v: u32)
    ensures
        regs_bytes(vals.push(v)) == regs_bytes(vals) + le_bytes_u32(v),
    decreases vals.len(),
{
    if vals.len() == 0 {
        assert(regs_bytes(Seq::<u32>::empty()) == Seq::<u8>::empty());
        assert(vals.push(v).skip(1) =~= Seq::<u32>::empty());
        assert(regs_bytes(vals.push(v)) =~= regs_bytes(vals) + le_bytes_u32(v));
    } else {
        assert(vals.push(v).skip(1) =~= vals.skip(1).push(v));
        lemma_regs_bytes_push(vals.skip(1), v);
        assert(regs_bytes(vals.push(v)) =~= regs_bytes(vals) + le_bytes_u32(v));
    }
}

pub proof fn lemma_regs_bytes_len(vals: Seq<u32>)
    ensures
        regs_bytes(vals).len() == 4 * vals.len(),
    decreases vals.len(),
{
    if vals.len() > 0 {
        lemma_regs_bytes_len(vals.skip(1));
    }
}

/// The `g` reply: the hex image of all register values, in wire order,
/// eight hex characters per register, each value rendered byte-wise in
/// target (little-endian) order.
pub fn registers_reply(vals: &[u32]) -> (r: Vec<u8>)
    ensures
        r@ == hex_of_bytes(regs_bytes(vals@)),
        r@.len() == 8 * vals@.len(),
{
    let mut bytes: Vec<u8> = Vec::new();
    let mut i: usize = 0;
    while i < vals.len()
        invariant
            0 <= i <= vals@.len(),
            bytes@ == regs_bytes(vals@.take(i as int)),
        decreases vals@.len() - i,
    {
        let v = vals[i];
        proof {
            lemma_regs_bytes_push(vals@.take(i as int), v);
            assert(vals@.take(i as int).push(v) =~= vals@.take(i + 1));
        }
        bytes.push((v & 0xff) as u8);
        bytes.push(((v >> 8) & 0xff) as u8);
        bytes.push(((v >> 16) & 0xff) as u8);
        bytes.push(((v >> 24) & 0xff) as u8);
        proof {
            assert(bytes@ =~= regs_bytes(vals@.take(i + 1)));
        }
        i += 1;
    }
    proof {
        assert(vals@.take(vals@.len() as int) =~= vals@);
        lemma_regs_bytes_len(vals@);
        lemma_hex_of_bytes_len(regs_bytes(vals@));
    }
    hex_encode(bytes.as_slice())
}

/// The `m` reply for a finished read: the hex image of the bytes the
/// target handed back, or `E01` where the target reported a failure.
pub fn memory_reply(data: Option<&Vec<u8>>) -> (r: Vec<u8>)
    ensures
        data matches Some(d) ==> r@ == hex_of_bytes(d@),
        data is None ==> r@ == lit_e01(),
{
    match data {
        Some(d) => hex_encode(d.as_slice()),
        None => {
            let r: Vec<u8> = vec![0x45, 0x30, 0x31];
            proof {
                assert(r@ =~= lit_e01());
            }
            r
        },
    }
}

/// What the session must do for one command payload.
pub enum Action {
    /// Send this reply.
    Reply(Vec<u8>),
    /// Read all registers and reply with their hex image.
    ReadRegisters,
    /// Read this many bytes at this address and reply with their hex image,
    /// or `E01` on a target failure.
    ReadMemory(u64, usize),
    /// Acknowledge, send no further reply, and end the session.
    Detach,
}

/// Maps a command payload to the action it demands. The leading byte is
/// the command identifier: `?`, `c` and `s` draw the fixed stop reply,
/// `H` draws `OK`, `D` detaches, `g` and `m` consult the target, `q` is
/// answered by the query dispatcher, and an unrecognized command draws an
/// empty reply. Malformed `m` arguments draw `E01`.
pub fn dispatch_command(payload: &[u8]) -> (r: Action)
    requires
        payload@.len() > 0,
    ensures
        payload@[0] == 0x3f || payload@[0] == 0x63 || payload@[0] == 0x73 ==> (r matches
        Action::Reply(v) && v@ == lit_s05()),
        payload@[0] == 0x44 ==> r is Detach,
        payload@[0] == 0x48 ==> (r matches Action::Reply(v) && v@ == lit_ok()),
        payload@[0] == 0x67 ==> r is ReadRegisters,
        payload@[0] == 0x6d ==> match parse_mem_args(payload@.skip(1)) {
            Some((a, l)) => r matches Action::ReadMemory(ra, rl) && ra == a && rl == l,
            None => r matches Action::Reply(v) && v@ == lit_e01(),
        },
        payload@[0] == 0x71 ==> (r matches Action::Reply(v) && v@ == query_reply(payload@)),
        payload@[0] != 0x3f && payload@[0] != 0x63 && payload@[0] != 0x73 && payload@[0] != 0x44
            && payload@[0] != 0x48 && payload@[0] != 0x67 && payload@[0] != 0x6d && payload@[0]
            != 0x71 ==> (r matches Action::Reply(v) && v@ == Seq::<u8>::empty()),
{
    let code = payload[0];
    if code == 0x3f || code == 0x63 || code == 0x73 {
        let v: Vec<u8> = vec![0x53, 0x30, 0x35];
        proof {
            assert(v@ =~= lit_s05());
        }
        Action::Reply(v)
    } else if code == 0x44 {
        Action::Detach
    } else if code == 0x48 {
        let v: Vec<u8> = vec![0x4f, 0x4b];
        proof {
            assert(v@ =~= lit_ok());
        }
        Action::Reply(v)
    } else if code == 0x67 {
        Action::ReadRegisters
    } else if code == 0x6d {
        let args = vstd::slice::slice_subrange(payload, 1, payload.len());
        proof {
            assert(args@ =~= payload@.skip(1));
        }
        match parse_mem_args_bytes(args) {
            Some((a, l)) => Action::ReadMemory(a, l),
            None => {
                let v: Vec<u8> = vec![0x45, 0x30, 0x31];
                proof {
                    assert(v@ =~= lit_e01());
                }
                Action::Reply(v)
            },
        }
    } else if code == 0x71 {
        Action::Reply(handle_query(payload))
    } else {
        Action::Reply(Vec::new())
    }
}

} // verus!
