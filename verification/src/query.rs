//! The `q` query family: a nested dispatcher matched by exact string or
//! literal prefix, first match wins, in a fixed priority order. It is a pure
//! function of the query bytes; an empty reply is the protocol's canonical
//! "unsupported" signal and is preserved verbatim.

use vstd::prelude::*;

verus! {

pub open spec fn lit_qsupported_prefix() -> Seq<u8> {
    seq![0x71, 0x53, 0x75, 0x70, 0x70, 0x6f, 0x72, 0x74, 0x65, 0x64, 0x3a]
}

pub open spec fn lit_qattached() -> Seq<u8> {
    seq![0x71, 0x41, 0x74, 0x74, 0x61, 0x63, 0x68, 0x65, 0x64]
}

pub open spec fn lit_qc() -> Seq<u8> {
    seq![0x71, 0x43]
}

pub open spec fn lit_ql_prefix() -> Seq<u8> {
    seq![0x71, 0x4c, 0x3a]
}

pub open spec fn lit_qfthreadinfo() -> Seq<u8> {
    seq![0x71, 0x66, 0x54, 0x68, 0x72, 0x65, 0x61, 0x64, 0x49, 0x6e, 0x66, 0x6f]
}

pub open spec fn lit_qsthreadinfo() -> Seq<u8> {
    seq![0x71, 0x73, 0x54, 0x68, 0x72, 0x65, 0x61, 0x64, 0x49, 0x6e, 0x66, 0x6f]
}

pub open spec fn lit_qtstatus() -> Seq<u8> {
    seq![0x71, 0x54, 0x53, 0x74, 0x61, 0x74, 0x75, 0x73]
}

pub open spec fn lit_packetsize() -> Seq<u8> {
    seq![0x50, 0x61, 0x63, 0x6b, 0x65, 0x74, 0x53, 0x69, 0x7a, 0x65, 0x3d, 0x66, 0x30]
}

pub open spec fn lit_qm001() -> Seq<u8> {
    seq![0x71, 0x4d, 0x30, 0x30, 0x31]
}

pub open spec fn lit_m1() -> Seq<u8> {
    seq![0x6d, 0x31]
}

pub open spec fn lit_l() -> Seq<u8> {
    seq![0x6c]
}

/// The reply owed to a query payload, in the dispatcher's priority order.
pub open spec fn query_reply(q: Seq<u8>) -> Seq<u8> {
    if lit_qsupported_prefix().is_prefix_of(q) {
        lit_packetsize()
    } else if q == lit_qattached() {
        Seq::empty()
    } else if q == lit_qc() {
        Seq::empty()
    } else if lit_ql_prefix().is_prefix_of(q) {
        lit_qm001()
    } else if q == lit_qfthreadinfo() {
        lit_m1()
    } else if q == lit_qsthreadinfo() {
        lit_l()
    } else if q == lit_qtstatus() {
        Seq::empty()
    } else {
        Seq::empty()
    }
}

/// Whether two byte slices hold the same bytes.
pub fn bytes_eq(a: &[u8], b: &[u8]) -> (r: bool)
    ensures
        r == (a@ == b@),
{
    if a.len() != b.len() {
        return false;
    }
    let mut i: usize = 0;
    while i < a.len()
        invariant
            0 <= i <= a@.len(),
            a@.len() == b@.len(),
            forall|j: int| 0 <= j < i ==> a@[j] == b@[j],
        decreases a@.len() - i,
    {
        if a[i] != b[i] {
            return false;
        }
        i += 1;
    }
    proof {
        assert(a@ =~= b@);
    }
    true
}

/// Whether `a` begins with the bytes of `p`.
pub fn bytes_starts_with(a: &[u8], p: &[u8]) -> (r: bool)
    ensures
        r == p@.is_prefix_of(a@),
{
    if a.len() < p.len() {
        return false;
    }
    let mut i: usize = 0;
    while i < p.len()
        invariant
            0 <= i <= p@.len(),
            p@.len() <= a@.len(),
            forall|j: int| 0 <= j < i ==> a@[j] == p@[j],
        decreases p@.len() - i,
    {
        if a[i] != p[i] {
            return false;
        }
        i += 1;
    }
    proof {
        assert(p@ =~= a@.take(p@.len() as int));
    }
    true
}

/// Maps a query payload to its reply, by exact match or literal prefix,
/// first match wins: `qSupported:...` advertises the packet size, the
/// thread-info pair names the single thread and ends the list, `qL:` yields
/// its fixed reply, and everything else is unsupported (empty).
pub fn handle_query(packet: &[u8]) -> (r: Vec<u8>)
    ensures
        r@ == query_reply(packet@),
{
    let qsupported: Vec<u8> = vec![0x71, 0x53, 0x75, 0x70, 0x70, 0x6f, 0x72, 0x74, 0x65, 0x64, 0x3a];
    proof {
        assert(qsupported@ =~= lit_qsupported_prefix());
    }
    if bytes_starts_with(packet, qsupported.as_slice()) {
        let r: Vec<u8> = vec![0x50, 0x61, 0x63, 0x6b, 0x65, 0x74, 0x53, 0x69, 0x7a, 0x65, 0x3d, 0x66, 0x30];
        proof {
            assert(r@ =~= lit_packetsize());
        }
        return r;
    }
    let qattached: Vec<u8> = vec![0x71, 0x41, 0x74, 0x74, 0x61, 0x63, 0x68, 0x65, 0x64];
    proof {
        assert(qattached@ =~= lit_qattached());
    }
    if bytes_eq(packet, qattached.as_slice()) {
        return Vec::new();
    }
    let qc: Vec<u8> = vec![0x71, 0x43];
    proof {
        assert(qc@ =~= lit_qc());
    }
    if bytes_eq(packet, qc.as_slice()) {
        return Vec::new();
    }
    let ql: Vec<u8> = vec![0x71, 0x4c, 0x3a];
    proof {
        assert(ql@ =~= lit_ql_prefix());
    }
    if bytes_starts_with(packet, ql.as_slice()) {
        let r: Vec<u8> = vec![0x71, 0x4d, 0x30, 0x30, 0x31];
        proof {
            assert(r@ =~= lit_qm001());
        }
        return r;
    }
    let qf: Vec<u8> = vec![0x71, 0x66, 0x54, 0x68, 0x72, 0x65, 0x61, 0x64, 0x49, 0x6e, 0x66, 0x6f];
    proof {
        assert(qf@ =~= lit_qfthreadinfo());
    }
    if bytes_eq(packet, qf.as_slice()) {
        let r: Vec<u8> = vec![0x6d, 0x31];
        proof {
            assert(r@ =~= lit_m1());
        }
        return r;
    }
    let qs: Vec<u8> = vec![0x71, 0x73, 0x54, 0x68, 0x72, 0x65, 0x61, 0x64, 0x49, 0x6e, 0x66, 0x6f];
    proof {
        assert(qs@ =~= lit_qsthreadinfo());
    }
    if bytes_eq(packet, qs.as_slice()) {
        let r: Vec<u8> = vec![0x6c];
        proof {
            assert(r@ =~= lit_l());
        }
        return r;
    }
    let qt: Vec<u8> = vec![0x71, 0x54, 0x53, 0x74, 0x61, 0x74, 0x75, 0x73];
    proof {
        assert(qt@ =~= lit_qtstatus());
    }
    if bytes_eq(packet, qt.as_slice()) {
        return Vec::new();
    }
    Vec::new()
}

} // verus!
