//! The canonical byte encoding of witnesses and public outputs.
//!
//! The layout is the fixed-width ABI style used by the on-chain verifier:
//! every field occupies one 32-byte word. A witness is dynamic, so its
//! encoding starts with the offset of the value (32) and, inside the value,
//! the offset of the vote array (64), then the vote count, then one 96-byte
//! block per vote. A public output is four words. The decoder accepts
//! exactly the canonical images: decode and encode round-trip bit for bit.

use vstd::prelude::*;

use crate::types::{OutputView, Vote, VotePublicOutput, VoteView, VoteWitness, WitnessView};
use crate::words::{
    lemma_be_bytes_u32_of, lemma_be_bytes_u64_of, push_bytes, push_word_addr, push_word_bool,
    push_word_u32, push_word_u64, word_of_addr, word_of_bool, word_of_len, word_of_u32,
    word_of_u64,
};

verus! {

/// One vote as three 32-byte words: proposal identifier, voter identity and
/// choice, in declaration order.
pub open spec fn vote_bytes(v: VoteView) -> Seq<u8> {
    word_of_u32(v.proposal_id) + word_of_addr(v.voter) + word_of_bool(v.choice)
}

/// A vote sequence as consecutive 96-byte blocks, in sequence order.
pub open spec fn votes_bytes(votes: Seq<VoteView>) -> Seq<u8>
    decreases votes.len(),
{
    if votes.len() == 0 {
        Seq::empty()
    } else {
        votes_bytes(votes.drop_last()) + vote_bytes(votes.last())
    }
}

/// The 128-byte head of a witness encoding: the offset of the value (32),
/// the proposal identifier, the offset of the vote array (64), and the vote
/// count.
pub open spec fn witness_header(proposal_id: u32, n: nat) -> Seq<u8> {
    word_of_u64(32) + word_of_u32(proposal_id) + word_of_u64(64) + word_of_len(n)
}

/// The canonical encoding of a witness.
pub open spec fn witness_bytes(w: WitnessView) -> Seq<u8> {
    witness_header(w.proposal_id, w.votes.len()) + votes_bytes(w.votes)
}

/// The canonical encoding of a public output: proposal identifier, digest,
/// yes count and no count, one word each.
pub open spec fn output_bytes(o: OutputView) -> Seq<u8> {
    word_of_u32(o.proposal_id) + o.commitments_digest + word_of_u32(o.yes) + word_of_u32(o.no)
}

/// A well-formed vote encodes to exactly 96 bytes.
pub proof fn lemma_vote_bytes_len(v: VoteView)
    requires
        v.wf(),
    ensures
        vote_bytes(v).len() == 96,
{
}

/// A well-formed vote sequence encodes to 96 bytes per vote.
pub proof fn lemma_votes_bytes_len(votes: Seq<VoteView>)
    requires
        forall|i: int| 0 <= i < votes.len() ==> (#[trigger] votes[i]).wf(),
    ensures
        votes_bytes(votes).len() == 96 * votes.len(),
    decreases votes.len(),
{
    if votes.len() > 0 {
        lemma_votes_bytes_len(votes.drop_last());
        lemma_vote_bytes_len(votes.last());
    }
}

/// The 96-byte block at index `i` of an encoded vote sequence is the
/// encoding of its `i`-th vote.
pub proof fn lemma_votes_bytes_index(votes: Seq<VoteView>, i: int)
    requires
        forall|j: int| 0 <= j < votes.len() ==> (#[trigger] votes[j]).wf(),
        0 <= i < votes.len(),
    ensures
        votes_bytes(votes).subrange(96 * i, 96 * i + 96) == vote_bytes(votes[i]),
    decreases votes.len(),
{
    lemma_votes_bytes_len(votes);
    lemma_votes_bytes_len(votes.drop_last());
    lemma_vote_bytes_len(votes.last());
    if i == votes.len() - 1 {
        assert(votes_bytes(votes).subrange(96 * i, 96 * i + 96) =~= vote_bytes(votes.last()));
    } else {
        lemma_votes_bytes_index(votes.drop_last(), i);
        assert(votes_bytes(votes).subrange(96 * i, 96 * i + 96) =~= votes_bytes(
            votes.drop_last(),
        ).subrange(96 * i, 96 * i + 96));
    }
}

/// Encodes a witness in the canonical byte layout.
pub fn encode_witness(w: &VoteWitness) -> (r: Vec<u8>)
    requires
        w@.wf(),
    ensures
        r@ == witness_bytes(w@),
{
    let ghost views = w@.votes;
    let mut out: Vec<u8> = Vec::new();
    push_word_u64(&mut out, 32);
    push_word_u32(&mut out, w.proposal_id);
    push_word_u64(&mut out, 64);
    let n: usize = w.votes.len();
    push_word_u64(&mut out, n as u64);
    proof {
        assert(n == views.len());
        assert(word_of_len(views.len()) == word_of_u64(n as u64));
        assert(out@ =~= witness_header(w@.proposal_id, views.len()));
        assert(views.take(0) =~= Seq::<VoteView>::empty());
        assert(out@ + votes_bytes(views.take(0)) =~= out@);
    }
    let mut i: usize = 0;
    while i < n
        invariant
            i <= n,
            n == views.len(),
            views == w@.votes,
            w@.wf(),
            out@ == witness_header(w@.proposal_id, views.len()) + votes_bytes(
                views.take(i as int),
            ),
        decreases n - i,
    {
        let v = &w.votes[i];
        proof {
            assert(v@ == views[i as int]);
            assert(views[i as int].wf());
        }
        push_word_u32(&mut out, v.proposal_id);
        push_word_addr(&mut out, &v.voter);
        push_word_bool(&mut out, v.choice);
        i = i + 1;
        proof {
            assert(views.take(i as int).drop_last() =~= views.take(i - 1));
            assert(views.take(i as int).last() == views[i - 1]);
            assert(out@ =~= witness_header(w@.proposal_id, views.len()) + votes_bytes(
                views.take(i as int),
            ));
        }
    }
    proof {
        assert(views.take(n as int) =~= views);
    }
    out
}

/// Encodes a public output in the canonical byte layout.
pub fn encode_output(o: &VotePublicOutput) -> (r: Vec<u8>)
    requires
        o@.wf(),
    ensures
        r@ == output_bytes(o@),
{
    let mut out: Vec<u8> = Vec::new();
    push_word_u32(&mut out, o.proposal_id);
    push_bytes(&mut out, &o.commitments_digest);
    push_word_u32(&mut out, o.yes);
    push_word_u32(&mut out, o.no);
    proof {
        assert(out@ =~= output_bytes(o@));
    }
    out
}

/// A subrange splits at any interior point.
pub proof fn lemma_subrange_split(b: Seq<u8>, x: int, y: int, z: int)
    requires
        0 <= x <= y <= z <= b.len(),
    ensures
        b.subrange(x, z) == b.subrange(x, y) + b.subrange(y, z),
{
    assert(b.subrange(x, z) =~= b.subrange(x, y) + b.subrange(y, z));
}

/// A subrange of a subrange is a subrange of the original.
pub proof fn lemma_subrange_nested(b: Seq<u8>, x: int, y: int, i: int, j: int)
    requires
        0 <= x <= y <= b.len(),
        0 <= i <= j <= y - x,
    ensures
        b.subrange(x, y).subrange(i, j) == b.subrange(x + i, x + j),
{
    assert(b.subrange(x, y).subrange(i, j) =~= b.subrange(x + i, x + j));
}

/// A 128-byte-headed byte string is the concatenation of its four header
/// words and its tail.
proof fn lemma_concat5(b: Seq<u8>, s0: Seq<u8>, s1: Seq<u8>, s2: Seq<u8>, s3: Seq<u8>, s4: Seq<u8>)
    requires
        s0.len() == 32,
        s1.len() == 32,
        s2.len() == 32,
        s3.len() == 32,
        b.len() == 128 + s4.len(),
        b.subrange(0, 32) == s0,
        b.subrange(32, 64) == s1,
        b.subrange(64, 96) == s2,
        b.subrange(96, 128) == s3,
        b.subrange(128, b.len() as int) == s4,
    ensures
        b == s0 + s1 + s2 + s3 + s4,
{
    assert forall|i: int| 0 <= i < b.len() implies b[i] == (s0 + s1 + s2 + s3 + s4)[i] by {
        if i < 32 {
            assert(b[i] == b.subrange(0, 32)[i]);
        } else if i < 64 {
            assert(b[i] == b.subrange(32, 64)[i - 32]);
        } else if i < 96 {
            assert(b[i] == b.subrange(64, 96)[i - 64]);
        } else if i < 128 {
            assert(b[i] == b.subrange(96, 128)[i - 96]);
        } else {
            assert(b[i] == b.subrange(128, b.len() as int)[i - 128]);
        }
    }
    assert(b =~= s0 + s1 + s2 + s3 + s4);
}

/// A 96-byte byte string is the concatenation of its three words.
proof fn lemma_concat3(b: Seq<u8>, s0: Seq<u8>, s1: Seq<u8>, s2: Seq<u8>)
    requires
        s0.len() == 32,
        s1.len() == 32,
        s2.len() == 32,
        b.len() == 96,
        b.subrange(0, 32) == s0,
        b.subrange(32, 64) == s1,
        b.subrange(64, 96) == s2,
    ensures
        b == s0 + s1 + s2,
{
    assert forall|i: int| 0 <= i < 96 implies b[i] == (s0 + s1 + s2)[i] by {
        if i < 32 {
            assert(b[i] == b.subrange(0, 32)[i]);
        } else if i < 64 {
            assert(b[i] == b.subrange(32, 64)[i - 32]);
        } else {
            assert(b[i] == b.subrange(64, 96)[i - 64]);
        }
    }
    assert(b =~= s0 + s1 + s2);
}

/// Where each word of an encoded vote stands inside its 96-byte block.
pub proof fn lemma_vote_bytes_shape(v: VoteView)
    requires
        v.wf(),
    ensures
        vote_bytes(v).len() == 96,
        vote_bytes(v).subrange(0, 32) == word_of_u32(v.proposal_id),
        vote_bytes(v).subrange(32, 64) == word_of_addr(v.voter),
        vote_bytes(v).subrange(64, 96) == word_of_bool(v.choice),
{
    assert(vote_bytes(v).subrange(0, 32) =~= word_of_u32(v.proposal_id));
    assert(vote_bytes(v).subrange(32, 64) =~= word_of_addr(v.voter));
    assert(vote_bytes(v).subrange(64, 96) =~= word_of_bool(v.choice));
}

/// Where each field of an encoded witness stands: the four header words and
/// one 96-byte block per vote.
pub proof fn lemma_witness_bytes_shape(w: WitnessView)
    requires
        w.wf(),
    ensures
        witness_bytes(w).len() == 128 + 96 * w.votes.len(),
        witness_bytes(w).subrange(0, 32) == word_of_u64(32),
        witness_bytes(w).subrange(32, 64) == word_of_u32(w.proposal_id),
        witness_bytes(w).subrange(64, 96) == word_of_u64(64),
        witness_bytes(w).subrange(96, 128) == word_of_len(w.votes.len()),
        forall|i: int|
            0 <= i < w.votes.len() ==> witness_bytes(w).subrange(128 + 96 * i, 128 + 96 * i + 96)
                == vote_bytes(w.votes[i]),
{
    lemma_votes_bytes_len(w.votes);
    let b = witness_bytes(w);
    assert(b.subrange(0, 32) =~= word_of_u64(32));
    assert(b.subrange(32, 64) =~= word_of_u32(w.proposal_id));
    assert(b.subrange(64, 96) =~= word_of_u64(64));
    assert(b.subrange(96, 128) =~= word_of_len(w.votes.len()));
    assert(b.subrange(128, b.len() as int) =~= votes_bytes(w.votes));
    assert forall|i: int|
        0 <= i < w.votes.len() implies b.subrange(128 + 96 * i, 128 + 96 * i + 96) == vote_bytes(
        w.votes[i],
    ) by {
        lemma_votes_bytes_index(w.votes, i);
        assert(b.subrange(128 + 96 * i, 128 + 96 * i + 96) =~= votes_bytes(w.votes).subrange(
            96 * i,
            96 * i + 96,
        ));
    }
}

/// Where each word of an encoded output stands.
pub proof fn lemma_output_bytes_shape(o: OutputView)
    requires
        o.wf(),
    ensures
        output_bytes(o).len() == 128,
        output_bytes(o).subrange(0, 32) == word_of_u32(o.proposal_id),
        output_bytes(o).subrange(32, 64) == o.commitments_digest,
        output_bytes(o).subrange(64, 96) == word_of_u32(o.yes),
        output_bytes(o).subrange(96, 128) == word_of_u32(o.no),
{
    assert(output_bytes(o).subrange(0, 32) =~= word_of_u32(o.proposal_id));
    assert(output_bytes(o).subrange(32, 64) =~= o.commitments_digest);
    assert(output_bytes(o).subrange(64, 96) =~= word_of_u32(o.yes));
    assert(output_bytes(o).subrange(96, 128) =~= word_of_u32(o.no));
}

/// Reads one word as a 32-bit integer; fails on any non-canonical padding.
fn read_word_u32(bytes: &Vec<u8>, off: usize) -> (r: Option<u32>)
    requires
        off + 32 <= bytes@.len(),
        bytes@.len() <= usize::MAX,
    ensures
        r is Some ==> bytes@.subrange(off as int, off as int + 32) == word_of_u32(r->Some_0),
        r is None ==> forall|x: u32|
            bytes@.subrange(off as int, off as int + 32) != word_of_u32(x),
{
    let ghost sub = bytes@.subrange(off as int, off as int + 32);
    let mut i: usize = 0;
    while i < 28
        invariant
            i <= 28,
            off + 32 <= bytes@.len(),
            bytes@.len() <= usize::MAX,
            sub == bytes@.subrange(off as int, off as int + 32),
            forall|j: int| 0 <= j < i ==> sub[j] == 0,
        decreases 28 - i,
    {
        if bytes[off + i] != 0 {
            proof {
                assert(sub[i as int] == bytes@[off + i]);
                assert forall|x: u32| sub != word_of_u32(x) by {
                    assert(word_of_u32(x)[i as int] == 0);
                }
            }
            return None;
        }
        proof {
            assert(sub[i as int] == bytes@[off + i]);
        }
        i = i + 1;
    }
    let b0 = bytes[off + 28];
    let b1 = bytes[off + 29];
    let b2 = bytes[off + 30];
    let b3 = bytes[off + 31];
    let x: u32 = ((b0 as u32) << 24) | ((b1 as u32) << 16) | ((b2 as u32) << 8) | (b3 as u32);
    proof {
        lemma_be_bytes_u32_of(b0, b1, b2, b3);
        assert(sub[28] == bytes@[off + 28] && sub[29] == bytes@[off + 29] && sub[30] == bytes@[off
            + 30] && sub[31] == bytes@[off + 31]);
        assert(word_of_u32(x)[28] == b0 && word_of_u32(x)[29] == b1 && word_of_u32(x)[30] == b2
            && word_of_u32(x)[31] == b3);
        assert(forall|j: int| 0 <= j < 28 ==> word_of_u32(x)[j] == 0);
        assert(sub =~= word_of_u32(x));
    }
    Some(x)
}

/// Reads one word as a 64-bit integer; fails on any non-canonical padding.
fn read_word_u64(bytes: &Vec<u8>, off: usize) -> (r: Option<u64>)
    requires
        off + 32 <= bytes@.len(),
        bytes@.len() <= usize::MAX,
    ensures
        r is Some ==> bytes@.subrange(off as int, off as int + 32) == word_of_u64(r->Some_0),
        r is None ==> forall|x: u64|
            bytes@.subrange(off as int, off as int + 32) != word_of_u64(x),
{
    let ghost sub = bytes@.subrange(off as int, off as int + 32);
    let mut i: usize = 0;
    while i < 24
        invariant
            i <= 24,
            off + 32 <= bytes@.len(),
            bytes@.len() <= usize::MAX,
            sub == bytes@.subrange(off as int, off as int + 32),
            forall|j: int| 0 <= j < i ==> sub[j] == 0,
        decreases 24 - i,
    {
        if bytes[off + i] != 0 {
            proof {
                assert(sub[i as int] == bytes@[off + i]);
                assert forall|x: u64| sub != word_of_u64(x) by {
                    assert(word_of_u64(x)[i as int] == 0);
                }
            }
            return None;
        }
        proof {
            assert(sub[i as int] == bytes@[off + i]);
        }
        i = i + 1;
    }
    let b0 = bytes[off + 24];
    let b1 = bytes[off + 25];
    let b2 = bytes[off + 26];
    let b3 = bytes[off + 27];
    let b4 = bytes[off + 28];
    let b5 = bytes[off + 29];
    let b6 = bytes[off + 30];
    let b7 = bytes[off + 31];
    let x: u64 = ((b0 as u64) << 56) | ((b1 as u64) << 48) | ((b2 as u64) << 40) | ((b3 as u64)
        << 32) | ((b4 as u64) << 24) | ((b5 as u64) << 16) | ((b6 as u64) << 8) | (b7 as u64);
    proof {
        lemma_be_bytes_u64_of(b0, b1, b2, b3, b4, b5, b6, b7);
        assert(sub[24] == bytes@[off + 24] && sub[25] == bytes@[off + 25] && sub[26] == bytes@[off
            + 26] && sub[27] == bytes@[off + 27] && sub[28] == bytes@[off + 28] && sub[29]
            == bytes@[off + 29] && sub[30] == bytes@[off + 30] && sub[31] == bytes@[off + 31]);
        assert(word_of_u64(x)[24] == b0 && word_of_u64(x)[25] == b1 && word_of_u64(x)[26] == b2
            && word_of_u64(x)[27] == b3 && word_of_u64(x)[28] == b4 && word_of_u64(x)[29] == b5
            && word_of_u64(x)[30] == b6 && word_of_u64(x)[31] == b7);
        assert(forall|j: int| 0 <= j < 24 ==> word_of_u64(x)[j] == 0);
        assert(sub =~= word_of_u64(x));
    }
    Some(x)
}

/// Reads one word as a boolean; only 0 and 1 are canonical.
fn read_word_bool(bytes: &Vec<u8>, off: usize) -> (r: Option<bool>)
    requires
        off + 32 <= bytes@.len(),
        bytes@.len() <= usize::MAX,
    ensures
        r is Some ==> bytes@.subrange(off as int, off as int + 32) == word_of_bool(r->Some_0),
        r is None ==> forall|c: bool|
            bytes@.subrange(off as int, off as int + 32) != word_of_bool(c),
{
    let ghost sub = bytes@.subrange(off as int, off as int + 32);
    let mut i: usize = 0;
    while i < 31
        invariant
            i <= 31,
            off + 32 <= bytes@.len(),
            bytes@.len() <= usize::MAX,
            sub == bytes@.subrange(off as int, off as int + 32),
            forall|j: int| 0 <= j < i ==> sub[j] == 0,
        decreases 31 - i,
    {
        if bytes[off + i] != 0 {
            proof {
                assert(sub[i as int] == bytes@[off + i]);
                assert forall|c: bool| sub != word_of_bool(c) by {
                    assert(word_of_bool(c)[i as int] == 0);
                }
            }
            return None;
        }
        proof {
            assert(sub[i as int] == bytes@[off + i]);
        }
        i = i + 1;
    }
    let last = bytes[off + 31];
    proof {
        assert(sub[31] == bytes@[off + 31]);
        assert(word_of_bool(true)[31] == 1u8);
        assert(word_of_bool(false)[31] == 0u8);
    }
    if last == 1 {
        proof {
            assert(sub =~= word_of_bool(true));
        }
        Some(true)
    } else if last == 0 {
        proof {
            assert(sub =~= word_of_bool(false));
        }
        Some(false)
    } else {
        proof {
            assert forall|c: bool| sub != word_of_bool(c) by {
                assert(word_of_bool(c)[31] == (if c {
                    1u8
                } else {
                    0u8
                }));
            }
        }
        None
    }
}

/// Reads one word as a 20-byte voter identity; the 12 padding bytes must be
/// zero.
fn read_word_addr(bytes: &Vec<u8>, off: usize) -> (r: Option<Vec<u8>>)
    requires
        off + 32 <= bytes@.len(),
        bytes@.len() <= usize::MAX,
    ensures
        r is Some ==> r->Some_0@.len() == 20 && bytes@.subrange(off as int, off as int + 32)
            == word_of_addr(r->Some_0@),
        r is None ==> forall|a: Seq<u8>|
            a.len() == 20 ==> bytes@.subrange(off as int, off as int + 32) != word_of_addr(a),
{
    let ghost sub = bytes@.subrange(off as int, off as int + 32);
    let mut i: usize = 0;
    while i < 12
        invariant
            i <= 12,
            off + 32 <= bytes@.len(),
            bytes@.len() <= usize::MAX,
            sub == bytes@.subrange(off as int, off as int + 32),
            forall|j: int| 0 <= j < i ==> sub[j] == 0,
        decreases 12 - i,
    {
        if bytes[off + i] != 0 {
            proof {
                assert(sub[i as int] == bytes@[off + i]);
                assert forall|a: Seq<u8>| a.len() == 20 implies sub != word_of_addr(a) by {
                    assert(word_of_addr(a)[i as int] == 0);
                }
            }
            return None;
        }
        proof {
            assert(sub[i as int] == bytes@[off + i]);
        }
        i = i + 1;
    }
    let mut out: Vec<u8> = Vec::new();
    let mut j: usize = 0;
    while j < 20
        invariant
            j <= 20,
            off + 32 <= bytes@.len(),
            bytes@.len() <= usize::MAX,
            sub == bytes@.subrange(off as int, off as int + 32),
            forall|k: int| 0 <= k < 12 ==> sub[k] == 0,
            out@.len() == j,
            forall|k: int| 0 <= k < j ==> out@[k] == sub[12 + k],
        decreases 20 - j,
    {
        out.push(bytes[off + 12 + j]);
        j = j + 1;
        proof {
            assert(sub[12 + (j - 1)] == bytes@[off + 12 + (j - 1)]);
        }
    }
    proof {
        assert(sub =~= word_of_addr(out@));
    }
    Some(out)
}

/// Decodes a public output from its canonical byte encoding; accepts exactly
/// the canonical images of well-formed outputs.
pub fn decode_output(bytes: &Vec<u8>) -> (r: Option<VotePublicOutput>)
    ensures
        r is Some ==> r->Some_0@.wf() && bytes@ == output_bytes(r->Some_0@),
        r is None ==> forall|o: OutputView| o.wf() ==> bytes@ != output_bytes(o),
{
    let total: usize = bytes.len();
    if total != 128 {
        proof {
            assert forall|o: OutputView| o.wf() implies bytes@ != output_bytes(o) by {
                lemma_output_bytes_shape(o);
            }
        }
        return None;
    }
    let opt_p = read_word_u32(bytes, 0);
    if opt_p.is_none() {
        proof {
            assert forall|o: OutputView| o.wf() implies bytes@ != output_bytes(o) by {
                if bytes@ == output_bytes(o) {
                    lemma_output_bytes_shape(o);
                }
            }
        }
        return None;
    }
    let p = opt_p.unwrap();
    let mut digest: Vec<u8> = Vec::new();
    let mut j: usize = 0;
    while j < 32
        invariant
            j <= 32,
            bytes@.len() == 128,
            digest@.len() == j,
            forall|k: int| 0 <= k < j ==> digest@[k] == bytes@[32 + k],
        decreases 32 - j,
    {
        digest.push(bytes[32 + j]);
        j = j + 1;
    }
    proof {
        assert(digest@ =~= bytes@.subrange(32, 64));
    }
    let opt_yes = read_word_u32(bytes, 64);
    if opt_yes.is_none() {
        proof {
            assert forall|o: OutputView| o.wf() implies bytes@ != output_bytes(o) by {
                if bytes@ == output_bytes(o) {
                    lemma_output_bytes_shape(o);
                }
            }
        }
        return None;
    }
    let yes = opt_yes.unwrap();
    let opt_no = read_word_u32(bytes, 96);
    if opt_no.is_none() {
        proof {
            assert forall|o: OutputView| o.wf() implies bytes@ != output_bytes(o) by {
                if bytes@ == output_bytes(o) {
                    lemma_output_bytes_shape(o);
                }
            }
        }
        return None;
    }
    let no = opt_no.unwrap();
    let output = VotePublicOutput { proposal_id: p, commitments_digest: digest, yes, no };
    proof {
        assert(bytes@.subrange(128, bytes@.len() as int) =~= Seq::<u8>::empty());
        lemma_concat5(
            bytes@,
            word_of_u32(p),
            output@.commitments_digest,
            word_of_u32(yes),
            word_of_u32(no),
            Seq::<u8>::empty(),
        );
        assert(word_of_u32(p) + output@.commitments_digest + word_of_u32(yes) + word_of_u32(no)
            + Seq::<u8>::empty() =~= output_bytes(output@));
    }
    Some(output)
}

/// For canonical bytes, the count word and the total length determine the
/// number of votes in the encoded witness.
proof fn lemma_canonical_count(w: WitnessView, b: Seq<u8>, n64: u64)
    requires
        w.wf(),
        b == witness_bytes(w),
        b.len() <= usize::MAX,
        b.subrange(96, 128) == word_of_u64(n64),
    ensures
        w.votes.len() == n64,
        b.len() == 128 + 96 * n64,
{
    lemma_witness_bytes_shape(w);
    assert(usize::MAX <= u64::MAX);
    assert(w.votes.len() <= 96 * w.votes.len());
    assert(w.votes.len() < 0x1_0000_0000_0000_0000);
    assert(w.votes.len() % 0x1_0000_0000_0000_0000 == w.votes.len());
    assert(word_of_len(w.votes.len()) == word_of_u64(w.votes.len() as u64));
    crate::words::lemma_word_of_u64_injective(n64, w.votes.len() as u64);
}

/// Decodes a witness from its canonical byte encoding; accepts exactly the
/// canonical images of well-formed witnesses, so decoding inverts encoding
/// bit for bit.
pub fn decode_witness(bytes: &Vec<u8>) -> (r: Option<VoteWitness>)
    ensures
        r is Some ==> r->Some_0@.wf() && bytes@ == witness_bytes(r->Some_0@),
        r is None ==> forall|w: WitnessView| w.wf() ==> bytes@ != witness_bytes(w),
{
    let total: usize = bytes.len();
    if total < 128 {
        proof {
            assert forall|w: WitnessView| w.wf() implies bytes@ != witness_bytes(w) by {
                lemma_witness_bytes_shape(w);
            }
        }
        return None;
    }
    let opt_outer = read_word_u64(bytes, 0);
    if opt_outer.is_none() {
        proof {
            assert forall|w: WitnessView| w.wf() implies bytes@ != witness_bytes(w) by {
                if bytes@ == witness_bytes(w) {
                    lemma_witness_bytes_shape(w);
                }
            }
        }
        return None;
    }
    let outer = opt_outer.unwrap();
    if outer != 32 {
        proof {
            assert forall|w: WitnessView| w.wf() implies bytes@ != witness_bytes(w) by {
                if bytes@ == witness_bytes(w) {
                    lemma_witness_bytes_shape(w);
                    crate::words::lemma_word_of_u64_injective(outer, 32);
                }
            }
        }
        return None;
    }
    let opt_p = read_word_u32(bytes, 32);
    if opt_p.is_none() {
        proof {
            assert forall|w: WitnessView| w.wf() implies bytes@ != witness_bytes(w) by {
                if bytes@ == witness_bytes(w) {
                    lemma_witness_bytes_shape(w);
                }
            }
        }
        return None;
    }
    let p = opt_p.unwrap();
    let opt_inner = read_word_u64(bytes, 64);
    if opt_inner.is_none() {
        proof {
            assert forall|w: WitnessView| w.wf() implies bytes@ != witness_bytes(w) by {
                if bytes@ == witness_bytes(w) {
                    lemma_witness_bytes_shape(w);
                }
            }
        }
        return None;
    }
    let inner = opt_inner.unwrap();
    if inner != 64 {
        proof {
            assert forall|w: WitnessView| w.wf() implies bytes@ != witness_bytes(w) by {
                if bytes@ == witness_bytes(w) {
                    lemma_witness_bytes_shape(w);
                    crate::words::lemma_word_of_u64_injective(inner, 64);
                }
            }
        }
        return None;
    }
    let opt_count = read_word_u64(bytes, 96);
    if opt_count.is_none() {
        proof {
            assert forall|w: WitnessView| w.wf() implies bytes@ != witness_bytes(w) by {
                if bytes@ == witness_bytes(w) {
                    lemma_witness_bytes_shape(w);
                }
            }
        }
        return None;
    }
    let n64 = opt_count.unwrap();
    if (n64 as u128) * 96 + 128 != (total as u128) {
        proof {
            assert forall|w: WitnessView| w.wf() implies bytes@ != witness_bytes(w) by {
                if bytes@ == witness_bytes(w) {
                    lemma_canonical_count(w, bytes@, n64);
                }
            }
        }
        return None;
    }
    let n: usize = n64 as usize;
    let mut votes: Vec<Vote> = Vec::new();
    let mut base: usize = 128;
    let mut i: usize = 0;
    proof {
        assert(votes@.map_values(|v: Vote| v@) =~= Seq::<VoteView>::empty());
        assert(bytes@.subrange(128, 128) =~= Seq::<u8>::empty());
    }
    while i < n
        invariant
            i <= n,
            n == n64,
            total == bytes@.len(),
            bytes@.len() <= usize::MAX,
            base == 128 + 96 * i,
            total == 128 + 96 * n,
            votes@.len() == i,
            forall|j: int| 0 <= j < i ==> (#[trigger] votes@[j]@).wf(),
            votes_bytes(votes@.map_values(|v: Vote| v@)) == bytes@.subrange(128, base as int),
            bytes@.subrange(0, 32) == word_of_u64(32),
            bytes@.subrange(32, 64) == word_of_u32(p),
            bytes@.subrange(64, 96) == word_of_u64(64),
            bytes@.subrange(96, 128) == word_of_u64(n64),
        decreases n - i,
    {
        let opt_vp = read_word_u32(bytes, base);
        if opt_vp.is_none() {
            proof {
                assert forall|w: WitnessView| w.wf() implies bytes@ != witness_bytes(w) by {
                    if bytes@ == witness_bytes(w) {
                        lemma_witness_bytes_shape(w);
                        lemma_canonical_count(w, bytes@, n64);
                        lemma_vote_bytes_shape(w.votes[i as int]);
                        lemma_subrange_nested(bytes@, base as int, base + 96, 0, 32);
                        assert(bytes@.subrange(base as int, base as int + 32) == word_of_u32(
                            w.votes[i as int].proposal_id,
                        ));
                    }
                }
            }
            return None;
        }
        let vp = opt_vp.unwrap();
        let opt_va = read_word_addr(bytes, base + 32);
        if opt_va.is_none() {
            proof {
                assert forall|w: WitnessView| w.wf() implies bytes@ != witness_bytes(w) by {
                    if bytes@ == witness_bytes(w) {
                        lemma_witness_bytes_shape(w);
                        lemma_canonical_count(w, bytes@, n64);
                        lemma_vote_bytes_shape(w.votes[i as int]);
                        lemma_subrange_nested(bytes@, base as int, base + 96, 32, 64);
                        assert(bytes@.subrange(base + 32, base + 64) == word_of_addr(
                            w.votes[i as int].voter,
                        ));
                    }
                }
            }
            return None;
        }
        let va = opt_va.unwrap();
        let opt_vc = read_word_bool(bytes, base + 64);
        if opt_vc.is_none() {
            proof {
                assert forall|w: WitnessView| w.wf() implies bytes@ != witness_bytes(w) by {
                    if bytes@ == witness_bytes(w) {
                        lemma_witness_bytes_shape(w);
                        lemma_canonical_count(w, bytes@, n64);
                        lemma_vote_bytes_shape(w.votes[i as int]);
                        lemma_subrange_nested(bytes@, base as int, base + 96, 64, 96);
                        assert(bytes@.subrange(base + 64, base + 96) == word_of_bool(
                            w.votes[i as int].choice,
                        ));
                    }
                }
            }
            return None;
        }
        let vc = opt_vc.unwrap();
        let vote = Vote { proposal_id: vp, voter: va, choice: vc };
        proof {
            let block = bytes@.subrange(base as int, base + 96);
            lemma_subrange_nested(bytes@, base as int, base + 96, 0, 32);
            lemma_subrange_nested(bytes@, base as int, base + 96, 32, 64);
            lemma_subrange_nested(bytes@, base as int, base + 96, 64, 96);
            lemma_concat3(
                block,
                word_of_u32(vp),
                word_of_addr(vote@.voter),
                word_of_bool(vc),
            );
            assert(block == vote_bytes(vote@));
            let pviews = votes@.map_values(|v: Vote| v@);
            let qviews = votes@.push(vote).map_values(|v: Vote| v@);
            assert(qviews.drop_last() =~= pviews);
            assert(qviews.last() == vote@);
            assert(votes_bytes(qviews) == votes_bytes(pviews) + vote_bytes(vote@));
            lemma_subrange_split(bytes@, 128, base as int, base + 96);
            assert(votes_bytes(qviews) == bytes@.subrange(128, base + 96));
        }
        votes.push(vote);
        base = base + 96;
        i = i + 1;
    }
    let witness = VoteWitness { proposal_id: p, votes };
    proof {
        let pviews = witness@.votes;
        assert(pviews.len() == n);
        assert(pviews.len() % 0x1_0000_0000_0000_0000 == n64);
        assert(word_of_len(pviews.len()) == word_of_u64(n64));
        assert(bytes@.subrange(128, bytes@.len() as int) == votes_bytes(pviews));
        lemma_concat5(
            bytes@,
            word_of_u64(32),
            word_of_u32(p),
            word_of_u64(64),
            word_of_len(pviews.len()),
            votes_bytes(pviews),
        );
        assert(witness@.wf());
    }
    Some(witness)
}

/// The canonical encoding is injective: no two well-formed witnesses share
/// an encoding, so published bytes pin down the proposal, the votes and
/// their order exactly.
pub proof fn lemma_witness_bytes_injective(w1: WitnessView, w2: WitnessView)
    requires
        w1.wf(),
        w2.wf(),
        witness_bytes(w1) == witness_bytes(w2),
    ensures
        w1 == w2,
{
    lemma_witness_bytes_shape(w1);
    lemma_witness_bytes_shape(w2);
    crate::words::lemma_word_of_u32_injective(w1.proposal_id, w2.proposal_id);
    assert(w1.votes.len() == w2.votes.len());
    assert forall|i: int| 0 <= i < w1.votes.len() implies w1.votes[i] == w2.votes[i] by {
        assert(vote_bytes(w1.votes[i]) == vote_bytes(w2.votes[i]));
        lemma_vote_bytes_shape(w1.votes[i]);
        lemma_vote_bytes_shape(w2.votes[i]);
        crate::words::lemma_word_of_u32_injective(
            w1.votes[i].proposal_id,
            w2.votes[i].proposal_id,
        );
        crate::words::lemma_word_of_addr_injective(w1.votes[i].voter, w2.votes[i].voter);
        crate::words::lemma_word_of_bool_injective(w1.votes[i].choice, w2.votes[i].choice);
        assert(w1.votes[i] =~= w2.votes[i]);
    }
    assert(w1.votes =~= w2.votes);
    assert(w1 =~= w2);
}

} // verus!
