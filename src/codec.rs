use vstd::prelude::*;
use crate::types::{ContentHash, Proposal, ProposalStatus, Vote, VoteDecision};

verus! {

/// Little-endian bytes of a `u32`.
pub open spec fn u32_le(x: u32) -> Seq<u8> {
    seq![x as u8, (x >> 8u32) as u8, (x >> 16u32) as u8, (x >> 24u32) as u8]
}

/// Little-endian bytes of a `u64`.
pub open spec fn u64_le(x: u64) -> Seq<u8> {
    seq![
        x as u8,
        (x >> 8u64) as u8,
        (x >> 16u64) as u8,
        (x >> 24u64) as u8,
        (x >> 32u64) as u8,
        (x >> 40u64) as u8,
        (x >> 48u64) as u8,
        (x >> 56u64) as u8,
    ]
}

pub open spec fn bool_byte(b: bool) -> u8 {
    if b {
        1
    } else {
        0
    }
}

pub open spec fn status_byte(s: ProposalStatus) -> u8 {
    match s {
        ProposalStatus::InProgress => 0,
        ProposalStatus::Canceled => 1,
        ProposalStatus::Passed => 2,
        ProposalStatus::Rejected => 3,
        ProposalStatus::Tied => 4,
    }
}

/// A vote decision: a variant byte (0 for `Aye`, 1 for `Nay`), then the magnitude.
pub open spec fn decision_bytes(d: VoteDecision) -> Seq<u8> {
    match d {
        VoteDecision::Aye(v) => seq![0u8] + u32_le(v),
        VoteDecision::Nay(v) => seq![1u8] + u32_le(v),
    }
}

/// The stored form of a vote: its decision, then the lock flag as one byte.
pub open spec fn vote_bytes(v: Vote) -> Seq<u8> {
    decision_bytes(v.vote_decision) + seq![bool_byte(v.locked)]
}

/// The stored form of a proposal: its fields in declaration order, integers
/// little-endian, the status as its variant byte.
pub open spec fn proposal_bytes(p: Proposal) -> Seq<u8> {
    u32_le(p.id) + u64_le(p.proposer) + p.text@ + u64_le(p.time_period) + seq![
        status_byte(p.status),
    ] + u32_le(p.ayes) + u32_le(p.nays)
}

/// Length of the stored form of a vote.
pub const VOTE_LEN: usize = 6;

/// Length of the stored form of a proposal.
pub const PROPOSAL_LEN: usize = 61;

proof fn lemma_u32_le_injective(x: u32, y: u32)
    requires
        u32_le(x) == u32_le(y),
    ensures
        x == y,
{
    assert(u32_le(x)[0] == u32_le(y)[0] && u32_le(x)[1] == u32_le(y)[1] && u32_le(x)[2] == u32_le(
        y,
    )[2] && u32_le(x)[3] == u32_le(y)[3]);
    assert(x == y) by (bit_vector)
        requires
            x as u8 == y as u8,
            (x >> 8u32) as u8 == (y >> 8u32) as u8,
            (x >> 16u32) as u8 == (y >> 16u32) as u8,
            (x >> 24u32) as u8 == (y >> 24u32) as u8,
    ;
}

proof fn lemma_u64_le_injective(x: u64, y: u64)
    requires
        u64_le(x) == u64_le(y),
    ensures
        x == y,
{
    assert(u64_le(x)[0] == u64_le(y)[0] && u64_le(x)[1] == u64_le(y)[1] && u64_le(x)[2] == u64_le(
        y,
    )[2] && u64_le(x)[3] == u64_le(y)[3]);
    assert(u64_le(x)[4] == u64_le(y)[4] && u64_le(x)[5] == u64_le(y)[5] && u64_le(x)[6] == u64_le(
        y,
    )[6] && u64_le(x)[7] == u64_le(y)[7]);
    assert(x == y) by (bit_vector)
        requires
            x as u8 == y as u8,
            (x >> 8u64) as u8 == (y >> 8u64) as u8,
            (x >> 16u64) as u8 == (y >> 16u64) as u8,
            (x >> 24u64) as u8 == (y >> 24u64) as u8,
            (x >> 32u64) as u8 == (y >> 32u64) as u8,
            (x >> 40u64) as u8 == (y >> 40u64) as u8,
            (x >> 48u64) as u8 == (y >> 48u64) as u8,
            (x >> 56u64) as u8 == (y >> 56u64) as u8,
    ;
}

fn push_u32(out: &mut Vec<u8>, x: u32)
    ensures
        final(out)@ == old(out)@ + u32_le(x),
{
    out.push(x as u8);
    out.push((x >> 8u32) as u8);
    out.push((x >> 16u32) as u8);
    out.push((x >> 24u32) as u8);
    assert(out@ =~= old(out)@ + u32_le(x));
}

fn push_u64(out: &mut Vec<u8>, x: u64)
    ensures
        final(out)@ == old(out)@ + u64_le(x),
{
    out.push(x as u8);
    out.push((x >> 8u64) as u8);
    out.push((x >> 16u64) as u8);
    out.push((x >> 24u64) as u8);
    out.push((x >> 32u64) as u8);
    out.push((x >> 40u64) as u8);
    out.push((x >> 48u64) as u8);
    out.push((x >> 56u64) as u8);
    assert(out@ =~= old(out)@ + u64_le(x));
}

fn read_u32(b: &[u8], at: usize) -> (r: u32)
    requires
        at + 4 <= b@.len(),
    ensures
        u32_le(r) == b@.subrange(at as int, at + 4),
{
    let b0 = b[at];
    let b1 = b[at + 1];
    let b2 = b[at + 2];
    let b3 = b[at + 3];
    let r = (b0 as u32) | ((b1 as u32) << 8u32) | ((b2 as u32) << 16u32) | ((b3 as u32) << 24u32);
    assert(r as u8 == b0 && (r >> 8u32) as u8 == b1 && (r >> 16u32) as u8 == b2 && (r >> 24u32) as u8
        == b3) by (bit_vector)
        requires
            r == (b0 as u32) | ((b1 as u32) << 8u32) | ((b2 as u32) << 16u32) | ((b3 as u32)
                << 24u32),
    ;
    assert(u32_le(r) =~= b@.subrange(at as int, at + 4));
    r
}

fn read_u64(b: &[u8], at: usize) -> (r: u64)
    requires
        at + 8 <= b@.len(),
    ensures
        u64_le(r) == b@.subrange(at as int, at + 8),
{
    let len = b.len();
    assert(at + 8 <= len);
    let lo = read_u32(b, at);
    let hi = read_u32(b, at + 4);
    let r = (lo as u64) | ((hi as u64) << 32u64);
    assert(r as u8 == lo as u8 && (r >> 8u64) as u8 == (lo >> 8u32) as u8 && (r >> 16u64) as u8 == (
    lo >> 16u32) as u8 && (r >> 24u64) as u8 == (lo >> 24u32) as u8) by (bit_vector)
        requires
            r == (lo as u64) | ((hi as u64) << 32u64),
    ;
    assert((r >> 32u64) as u8 == hi as u8 && (r >> 40u64) as u8 == (hi >> 8u32) as u8 && (r
        >> 48u64) as u8 == (hi >> 16u32) as u8 && (r >> 56u64) as u8 == (hi >> 24u32) as u8)
        by (bit_vector)
        requires
            r == (lo as u64) | ((hi as u64) << 32u64),
    ;
    assert(u32_le(lo) == b@.subrange(at as int, at + 4));
    assert(u32_le(hi) == b@.subrange(at + 4, at + 8));
    assert forall|i: int| 0 <= i < 8 implies u64_le(r)[i] == b@.subrange(at as int, at + 8)[i] by {
        if i < 4 {
            assert(u64_le(r)[i] == u32_le(lo)[i]);
            assert(b@.subrange(at as int, at + 8)[i] == b@.subrange(at as int, at + 4)[i]);
        } else {
            assert(u64_le(r)[i] == u32_le(hi)[i - 4]);
            assert(b@.subrange(at as int, at + 8)[i] == b@.subrange(at + 4, at + 8)[i - 4]);
        }
    }
    assert(u64_le(r) =~= b@.subrange(at as int, at + 8));
    r
}

proof fn lemma_vote_pieces(v: Vote)
    ensures
        vote_bytes(v).len() == VOTE_LEN,
        vote_bytes(v)[0] == (if v.vote_decision is Aye {
            0u8
        } else {
            1u8
        }),
        vote_bytes(v).subrange(1, 5) == u32_le(v.vote_decision.amount_spec()),
        vote_bytes(v)[5] == bool_byte(v.locked),
{
    assert(vote_bytes(v).subrange(1, 5) =~= u32_le(v.vote_decision.amount_spec()));
}

/// Two votes with the same stored form are the same vote.
pub proof fn lemma_vote_bytes_injective(v: Vote, w: Vote)
    requires
        vote_bytes(v) == vote_bytes(w),
    ensures
        v == w,
{
    lemma_vote_pieces(v);
    lemma_vote_pieces(w);
    lemma_u32_le_injective(v.vote_decision.amount_spec(), w.vote_decision.amount_spec());
}

proof fn lemma_proposal_pieces(p: Proposal)
    ensures
        proposal_bytes(p).len() == PROPOSAL_LEN,
        proposal_bytes(p).subrange(0, 4) == u32_le(p.id),
        proposal_bytes(p).subrange(4, 12) == u64_le(p.proposer),
        proposal_bytes(p).subrange(12, 44) == p.text@,
        proposal_bytes(p).subrange(44, 52) == u64_le(p.time_period),
        proposal_bytes(p)[52] == status_byte(p.status),
        proposal_bytes(p).subrange(53, 57) == u32_le(p.ayes),
        proposal_bytes(p).subrange(57, 61) == u32_le(p.nays),
{
    let s = proposal_bytes(p);
    assert(s.subrange(0, 4) =~= u32_le(p.id));
    assert(s.subrange(4, 12) =~= u64_le(p.proposer));
    assert(s.subrange(12, 44) =~= p.text@);
    assert(s.subrange(44, 52) =~= u64_le(p.time_period));
    assert(s.subrange(53, 57) =~= u32_le(p.ayes));
    assert(s.subrange(57, 61) =~= u32_le(p.nays));
}

/// Two proposals with the same stored form are the same proposal.
pub proof fn lemma_proposal_bytes_injective(p: Proposal, q: Proposal)
    requires
        proposal_bytes(p) == proposal_bytes(q),
    ensures
        p == q,
{
    lemma_proposal_pieces(p);
    lemma_proposal_pieces(q);
    lemma_u32_le_injective(p.id, q.id);
    lemma_u64_le_injective(p.proposer, q.proposer);
    lemma_u64_le_injective(p.time_period, q.time_period);
    lemma_u32_le_injective(p.ayes, q.ayes);
    lemma_u32_le_injective(p.nays, q.nays);
    assert(p.text =~= q.text);
}

fn status_from_byte(b: u8) -> (r: Option<ProposalStatus>)
    ensures
        r is Some <==> b <= 4,
        r is Some ==> status_byte(r->Some_0) == b,
{
    match b {
        0 => Some(ProposalStatus::InProgress),
        1 => Some(ProposalStatus::Canceled),
        2 => Some(ProposalStatus::Passed),
        3 => Some(ProposalStatus::Rejected),
        4 => Some(ProposalStatus::Tied),
        _ => None,
    }
}

impl Vote {
    /// The stored form of the vote.
    pub fn encode(&self) -> (r: Vec<u8>)
        ensures
            r@ == vote_bytes(*self),
    {
        let mut out: Vec<u8> = Vec::new();
        match self.vote_decision {
            VoteDecision::Aye(v) => {
                out.push(0u8);
                push_u32(&mut out, v);
            },
            VoteDecision::Nay(v) => {
                out.push(1u8);
                push_u32(&mut out, v);
            },
        }
        out.push(if self.locked { 1u8 } else { 0u8 });
        assert(out@ =~= vote_bytes(*self));
        out
    }

    /// The vote whose stored form is `bytes`, if there is one.
    pub fn decode(bytes: &[u8]) -> (r: Option<Vote>)
        ensures
            r matches Some(v) ==> vote_bytes(v) == bytes@,
            forall|v: Vote| vote_bytes(v) == bytes@ ==> r == Some(v),
    {
        if bytes.len() != VOTE_LEN || bytes[0] > 1 || bytes[5] > 1 {
            proof {
                assert forall|v: Vote| vote_bytes(v) != bytes@ by {
                    lemma_vote_pieces(v);
                }
            }
            return None;
        }
        let amount = read_u32(bytes, 1);
        let vote_decision = if bytes[0] == 0 {
            VoteDecision::Aye(amount)
        } else {
            VoteDecision::Nay(amount)
        };
        let v = Vote { vote_decision, locked: bytes[5] == 1 };
        proof {
            lemma_vote_pieces(v);
            assert(vote_bytes(v) =~= bytes@) by {
                assert forall|i: int| 1 <= i < 5 implies vote_bytes(v)[i] == bytes@[i] by {
                    assert(vote_bytes(v)[i] == vote_bytes(v).subrange(1, 5)[i - 1]);
                    assert(bytes@[i] == bytes@.subrange(1, 5)[i - 1]);
                }
            }
            assert forall|w: Vote| vote_bytes(w) == bytes@ implies Some(v) == Some(w) by {
                lemma_vote_bytes_injective(v, w);
            }
        }
        Some(v)
    }
}

impl Proposal {
    /// The stored form of the proposal.
    pub fn encode(&self) -> (r: Vec<u8>)
        ensures
            r@ == proposal_bytes(*self),
    {
        let mut out: Vec<u8> = Vec::new();
        push_u32(&mut out, self.id);
        push_u64(&mut out, self.proposer);
        let mut i: usize = 0;
        while i < 32
            invariant
                0 <= i <= 32,
                out@ == u32_le(self.id) + u64_le(self.proposer) + self.text@.subrange(0, i as int),
            decreases 32 - i,
        {
            out.push(self.text[i]);
            i = i + 1;
            assert(out@ =~= u32_le(self.id) + u64_le(self.proposer) + self.text@.subrange(0, i as int));
        }
        assert(self.text@.subrange(0, 32) =~= self.text@);
        push_u64(&mut out, self.time_period);
        let status: u8 = match self.status {
            ProposalStatus::InProgress => 0,
            ProposalStatus::Canceled => 1,
            ProposalStatus::Passed => 2,
            ProposalStatus::Rejected => 3,
            ProposalStatus::Tied => 4,
        };
        out.push(status);
        push_u32(&mut out, self.ayes);
        push_u32(&mut out, self.nays);
        assert(out@ =~= proposal_bytes(*self));
        out
    }

    /// The proposal whose stored form is `bytes`, if there is one.
    pub fn decode(bytes: &[u8]) -> (r: Option<Proposal>)
        ensures
            r matches Some(p) ==> proposal_bytes(p) == bytes@,
            forall|p: Proposal| proposal_bytes(p) == bytes@ ==> r == Some(p),
    {
        if bytes.len() != PROPOSAL_LEN || bytes[52] > 4 {
            proof {
                assert forall|p: Proposal| proposal_bytes(p) != bytes@ by {
                    lemma_proposal_pieces(p);
                }
            }
            return None;
        }
        let status = match status_from_byte(bytes[52]) {
            Some(s) => s,
            None => {
                return None;
            },
        };
        let id = read_u32(bytes, 0);
        let proposer = read_u64(bytes, 4);
        let mut text: ContentHash = [0u8; 32];
        let mut i: usize = 0;
        while i < 32
            invariant
                0 <= i <= 32,
                bytes@.len() == PROPOSAL_LEN,
                forall|j: int| 0 <= j < i ==> text@[j] == bytes@[12 + j],
            decreases 32 - i,
        {
            text[i] = bytes[12 + i];
            i = i + 1;
        }
        assert(text@ =~= bytes@.subrange(12, 44));
        let time_period = read_u64(bytes, 44);
        let ayes = read_u32(bytes, 53);
        let nays = read_u32(bytes, 57);
        let p = Proposal { id, proposer, text, time_period, status, ayes, nays };
        proof {
            lemma_proposal_pieces(p);
            let s = proposal_bytes(p);
            assert forall|i: int| 0 <= i < 61 implies s[i] == bytes@[i] by {
                if i < 4 {
                    assert(s[i] == s.subrange(0, 4)[i]);
                    assert(bytes@[i] == bytes@.subrange(0, 4)[i]);
                } else if i < 12 {
                    assert(s[i] == s.subrange(4, 12)[i - 4]);
                    assert(bytes@[i] == bytes@.subrange(4, 12)[i - 4]);
                } else if i < 44 {
                    assert(s[i] == s.subrange(12, 44)[i - 12]);
                    assert(bytes@[i] == bytes@.subrange(12, 44)[i - 12]);
                } else if i < 52 {
                    assert(s[i] == s.subrange(44, 52)[i - 44]);
                    assert(bytes@[i] == bytes@.subrange(44, 52)[i - 44]);
                } else if i == 52 {
                } else if i < 57 {
                    assert(s[i] == s.subrange(53, 57)[i - 53]);
                    assert(bytes@[i] == bytes@.subrange(53, 57)[i - 53]);
                } else {
                    assert(s[i] == s.subrange(57, 61)[i - 57]);
                    assert(bytes@[i] == bytes@.subrange(57, 61)[i - 57]);
                }
            }
            assert(s =~= bytes@);
            assert forall|q: Proposal| proposal_bytes(q) == bytes@ implies Some(p) == Some(q) by {
                lemma_proposal_bytes_injective(p, q);
            }
        }
        Some(p)
    }
}

} // verus!
