//! The transaction kernel: the consensus-relevant content of a
//! transaction, its canonical field-element encoding and its MAST hash.

use crate::amount::Amount;
use crate::encoding::enc_len;
use crate::encoding::enc_u128;
use crate::encoding::enc_u64;
use crate::encoding::felts_ok;
use crate::encoding::push_digest;
use crate::encoding::push_len;
use crate::encoding::push_u128;
use crate::encoding::push_u64;
use crate::encoding::push_felts;
use crate::mast::mast_root;
use crate::mast::mast_root_of;
use crate::mast::felt_seqs_view;
use crate::mutator_set::AdditionRecord;
use crate::mutator_set::ChunkWitness;
use crate::mutator_set::RemovalRecord;
use crate::swbf::chunk_enc;
use crate::swbf::CHUNK_SIZE;
use crate::timestamp::Timestamp;
use crate::Digest;
use crate::FIELD_PRIME;
use vstd::prelude::*;

verus! {

/// An opaque message a transaction carries on chain.
#[derive(Clone, Debug, PartialEq, Eq)]
pub struct PublicAnnouncement {
    pub message: Vec<u64>,
}

impl PublicAnnouncement {
    /// The message holds field elements and fits a count prefix.
    pub open spec fn wf(self) -> bool {
        felts_ok(self.message@) && self.message@.len() < 0x1_0000_0000
    }
}

/// The length-prefixed encoding of one announcement.
pub open spec fn pa_enc(msg: Seq<u64>) -> Seq<u64> {
    enc_len(msg.len() as int) + msg
}

/// The concatenated encodings of a list of announcements.
pub open spec fn pas_body_enc(pas: Seq<PublicAnnouncement>) -> Seq<u64>
    decreases pas.len(),
{
    if pas.len() == 0 {
        Seq::empty()
    } else {
        pas_body_enc(pas.drop_last()) + pa_enc(pas.last().message@)
    }
}

/// The encoding of a list of announcements: a count, then each
/// announcement behind its own length prefix.
pub open spec fn pas_enc(pas: Seq<PublicAnnouncement>) -> Seq<u64> {
    enc_len(pas.len() as int) + pas_body_enc(pas)
}

/// The concatenated four-limb encodings of a list of 128-bit indices.
pub open spec fn u128s_enc(s: Seq<u128>) -> Seq<u64>
    decreases s.len(),
{
    if s.len() == 0 {
        Seq::empty()
    } else {
        u128s_enc(s.drop_last()) + enc_u128(s.last())
    }
}

/// The concatenated limbs of a list of digests.
pub open spec fn digests_enc(ds: Seq<Digest>) -> Seq<u64>
    decreases ds.len(),
{
    if ds.len() == 0 {
        Seq::empty()
    } else {
        digests_enc(ds.drop_last()) + ds.last()@
    }
}

/// The encoding of one chunk witness.
pub open spec fn cw_enc(w: ChunkWitness) -> Seq<u64> {
    enc_u64(w.chunk_index) + chunk_enc(w.chunk.bits@) + enc_len(w.path@.len() as int)
        + digests_enc(w.path@)
}

/// The concatenated encodings of a list of chunk witnesses.
pub open spec fn cws_enc(ws: Seq<ChunkWitness>) -> Seq<u64>
    decreases ws.len(),
{
    if ws.len() == 0 {
        Seq::empty()
    } else {
        cws_enc(ws.drop_last()) + cw_enc(ws.last())
    }
}

/// The encoding of one removal record.
pub open spec fn rr_enc(rr: RemovalRecord) -> Seq<u64> {
    enc_len(rr.absolute_indices@.len() as int) + u128s_enc(rr.absolute_indices@) + enc_len(
        rr.target_chunks@.len() as int,
    ) + cws_enc(rr.target_chunks@)
}

/// The concatenated encodings of a list of removal records.
pub open spec fn rrs_body_enc(rrs: Seq<RemovalRecord>) -> Seq<u64>
    decreases rrs.len(),
{
    if rrs.len() == 0 {
        Seq::empty()
    } else {
        rrs_body_enc(rrs.drop_last()) + rr_enc(rrs.last())
    }
}

/// The encoding of a transaction's inputs.
pub open spec fn rrs_enc(rrs: Seq<RemovalRecord>) -> Seq<u64> {
    enc_len(rrs.len() as int) + rrs_body_enc(rrs)
}

/// The concatenated commitments of a list of addition records.
pub open spec fn ars_body_enc(ars: Seq<AdditionRecord>) -> Seq<u64>
    decreases ars.len(),
{
    if ars.len() == 0 {
        Seq::empty()
    } else {
        ars_body_enc(ars.drop_last()) + ars.last().canonical_commitment@
    }
}

/// The encoding of a transaction's outputs.
pub open spec fn ars_enc(ars: Seq<AdditionRecord>) -> Seq<u64> {
    enc_len(ars.len() as int) + ars_body_enc(ars)
}

/// The encoding of an optional amount: a presence tag, then the limbs.
pub open spec fn opt_amount_enc(a: Option<Amount>) -> Seq<u64> {
    match a {
        Some(v) => seq![1u64] + enc_u128(v.0),
        None => seq![0u64],
    }
}

/// The well-formedness every encodable removal record obeys.
pub open spec fn rr_wf(rr: RemovalRecord) -> bool {
    &&& rr.absolute_indices@.len() < 0x1_0000_0000
    &&& rr.target_chunks@.len() < 0x1_0000_0000
    &&& forall|i: int|
        0 <= i < rr.target_chunks@.len() ==> cw_wf(#[trigger] rr.target_chunks@[i])
}

/// The well-formedness every encodable chunk witness obeys.
pub open spec fn cw_wf(w: ChunkWitness) -> bool {
    &&& w.chunk.bounds_ok()
    &&& w.path@.len() < 0x1_0000_0000
    &&& crate::mmr::digests_wf(w.path@)
}

/// The ordered MAST fields of a transaction kernel.
#[derive(Clone, Copy, Debug, PartialEq, Eq, Structural)]
pub enum TransactionKernelField {
    Inputs,
    Outputs,
    PublicAnnouncements,
    Fee,
    Coinbase,
    Timestamp,
    MutatorSetHash,
}

impl TransactionKernelField {
    /// The stable position of the field among the MAST leafs. Reordering
    /// fields is a hard fork.
    pub fn discriminant(&self) -> (r: usize)
        ensures
            r == self.discriminant_spec(),
    {
        match self {
            TransactionKernelField::Inputs => 0,
            TransactionKernelField::Outputs => 1,
            TransactionKernelField::PublicAnnouncements => 2,
            TransactionKernelField::Fee => 3,
            TransactionKernelField::Coinbase => 4,
            TransactionKernelField::Timestamp => 5,
            TransactionKernelField::MutatorSetHash => 6,
        }
    }

    pub open spec fn discriminant_spec(self) -> int {
        match self {
            TransactionKernelField::Inputs => 0,
            TransactionKernelField::Outputs => 1,
            TransactionKernelField::PublicAnnouncements => 2,
            TransactionKernelField::Fee => 3,
            TransactionKernelField::Coinbase => 4,
            TransactionKernelField::Timestamp => 5,
            TransactionKernelField::MutatorSetHash => 6,
        }
    }
}

/// The consensus content of a transaction. The mutator-set hash is the
/// set commitment *before* this transaction is applied.
#[derive(Clone, Debug, PartialEq, Eq)]
pub struct TransactionKernel {
    pub inputs: Vec<RemovalRecord>,
    pub outputs: Vec<AdditionRecord>,
    pub public_announcements: Vec<PublicAnnouncement>,
    pub fee: Amount,
    pub coinbase: Option<Amount>,
    pub timestamp: Timestamp,
    pub mutator_set_hash: Digest,
}

impl TransactionKernel {
    /// Every field is encodable.
    pub open spec fn wf(self) -> bool {
        &&& self.inputs@.len() < 0x1_0000_0000
        &&& forall|i: int| 0 <= i < self.inputs@.len() ==> rr_wf(#[trigger] self.inputs@[i])
        &&& self.outputs@.len() < 0x1_0000_0000
        &&& forall|i: int|
            0 <= i < self.outputs@.len() ==> (#[trigger] self.outputs@[i]).canonical_commitment.wf()
        &&& self.public_announcements@.len() < 0x1_0000_0000
        &&& forall|i: int|
            0 <= i < self.public_announcements@.len() ==> (
            #[trigger] self.public_announcements@[i]).wf()
        &&& self.timestamp.wf()
        &&& self.mutator_set_hash.wf()
    }

    /// The ordered field encodings: the leaf preimages of the kernel MAST.
    pub open spec fn sequences_spec(self) -> Seq<Seq<u64>> {
        seq![
            rrs_enc(self.inputs@),
            ars_enc(self.outputs@),
            pas_enc(self.public_announcements@),
            enc_u128(self.fee.0),
            opt_amount_enc(self.coinbase),
            seq![self.timestamp.millis],
            self.mutator_set_hash@,
        ]
    }

    /// The kernel's MAST hash.
    pub open spec fn mast_hash_spec(self) -> Seq<u64> {
        mast_root_of(self.sequences_spec())
    }

    /// The ordered field encodings, as executable vectors.
    pub fn mast_sequences(&self) -> (r: Vec<Vec<u64>>)
        requires
            self.wf(),
        ensures
            felt_seqs_view(r@) == self.sequences_spec(),
            crate::mast::felt_seqs_ok(r@),
            r@.len() == 7,
    {
        let inputs_seq = encode_removal_records(&self.inputs);
        let outputs_seq = encode_addition_records(&self.outputs);
        let pas_seq = encode_public_announcements(&self.public_announcements);
        let mut fee_seq: Vec<u64> = Vec::new();
        push_u128(&mut fee_seq, self.fee.0);
        let mut coinbase_seq: Vec<u64> = Vec::new();
        match &self.coinbase {
            Some(v) => {
                coinbase_seq.push(1);
                push_u128(&mut coinbase_seq, v.0);
            },
            None => {
                coinbase_seq.push(0);
            },
        }
        let mut ts_seq: Vec<u64> = Vec::new();
        ts_seq.push(self.timestamp.millis);
        let mut msh_seq: Vec<u64> = Vec::new();
        push_digest(&mut msh_seq, &self.mutator_set_hash);
        let mut out: Vec<Vec<u64>> = Vec::new();
        out.push(inputs_seq);
        out.push(outputs_seq);
        out.push(pas_seq);
        out.push(fee_seq);
        out.push(coinbase_seq);
        out.push(ts_seq);
        out.push(msh_seq);
        proof {
            crate::encoding::lemma_enc_u128_ok(self.fee.0);
            if self.coinbase is Some {
                let ghost cb = self.coinbase->Some_0;
                crate::encoding::lemma_enc_u128_ok(cb.0);
                assert(coinbase_seq@ =~= opt_amount_enc(self.coinbase));
            } else {
                assert(coinbase_seq@ =~= opt_amount_enc(self.coinbase));
            }
            assert(ts_seq@ =~= seq![self.timestamp.millis]);
            assert(msh_seq@ =~= self.mutator_set_hash@);
            assert(felt_seqs_view(out@) =~= self.sequences_spec());
            assert forall|i: int| 0 <= i < out@.len() implies felts_ok((#[trigger] out@[i])@) by {
                if i == 3 {
                    assert(out@[i]@ == enc_u128(self.fee.0));
                } else if i == 4 {
                    assert(out@[i]@ == opt_amount_enc(self.coinbase));
                    if self.coinbase is Some {
                        let v = self.coinbase->Some_0;
                        assert forall|j: int| 0 <= j < out@[i]@.len() implies #[trigger] out@[i]@[j]
                            < FIELD_PRIME by {
                            if j > 0 {
                                assert(out@[i]@[j] == enc_u128(v.0)[j - 1]);
                            }
                        }
                    }
                } else if i == 5 {
                    assert(out@[i]@ == seq![self.timestamp.millis]);
                } else if i == 6 {
                    assert(out@[i]@ == self.mutator_set_hash@);
                }
            }
        }
        out
    }

    /// The kernel's MAST hash: the Merkle root of the hashed field
    /// encodings, padded with the zero digest to eight leafs.
    pub fn mast_hash(&self) -> (r: Digest)
        requires
            self.wf(),
        ensures
            r@ == self.mast_hash_spec(),
            r.wf(),
    {
        let sequences = self.mast_sequences();
        mast_root(&sequences)
    }
}

/// Parse `n` length-prefixed segments, requiring exact consumption.
pub open spec fn dec_segments(s: Seq<u64>, n: int) -> Option<Seq<Seq<u64>>>
    decreases n,
{
    if n <= 0 {
        if s.len() == 0 {
            Some(Seq::empty())
        } else {
            None
        }
    } else if s.len() < 1 {
        None
    } else if s.len() < 1 + s[0] {
        None
    } else {
        match dec_segments(s.subrange(1 + s[0] as int, s.len() as int), n - 1) {
            Some(rest) => Some(seq![s.subrange(1, 1 + s[0] as int)] + rest),
            None => None,
        }
    }
}

/// The length-prefixed concatenation of a list of segments.
pub open spec fn seg_concat(ss: Seq<Seq<u64>>) -> Seq<u64>
    decreases ss.len(),
{
    if ss.len() == 0 {
        Seq::empty()
    } else {
        pa_enc(ss[0]) + seg_concat(ss.subrange(1, ss.len() as int))
    }
}

/// Length-prefixed segments parse back to themselves.
pub proof fn lemma_segments_round_trip(ss: Seq<Seq<u64>>)
    requires
        forall|i: int| 0 <= i < ss.len() ==> (#[trigger] ss[i]).len() < 0x1_0000_0000,
    ensures
        dec_segments(seg_concat(ss), ss.len() as int) == Some(ss),
    decreases ss.len(),
{
    if ss.len() == 0 {
        assert(seg_concat(ss).len() == 0);
    } else {
        let tail = ss.subrange(1, ss.len() as int);
        lemma_segments_round_trip(tail);
        let s = seg_concat(ss);
        let h = ss[0];
        assert(s == pa_enc(h) + seg_concat(tail));
        assert(s.len() >= 1 + h.len());
        assert(s[0] == h.len() as u64);
        assert(s.subrange(1, 1 + h.len() as int) =~= h);
        assert(s.subrange(1 + h.len() as int, s.len() as int) =~= seg_concat(tail));
        assert(seq![h] + tail =~= ss);
    }
}

/// The message views of a list of announcements.
pub open spec fn pa_msgs(pas: Seq<PublicAnnouncement>) -> Seq<Seq<u64>> {
    pas.map_values(|p: PublicAnnouncement| p.message@)
}

/// The body of an announcement-list encoding is the segment concatenation
/// of the messages.
pub proof fn lemma_pas_body_is_segments(pas: Seq<PublicAnnouncement>)
    ensures
        pas_body_enc(pas) == seg_concat(pa_msgs(pas)),
    decreases pas.len(),
{
    if pas.len() > 0 {
        lemma_pas_body_is_segments(pas.drop_last());
        assert(pa_msgs(pas.drop_last()) =~= pa_msgs(pas).drop_last());
        lemma_seg_concat_push(pa_msgs(pas).drop_last(), pa_msgs(pas).last());
        assert(pa_msgs(pas).drop_last().push(pa_msgs(pas).last()) =~= pa_msgs(pas));
        assert(pa_msgs(pas).last() == pas.last().message@);
    }
}

/// Appending one segment extends the concatenation at the end.
proof fn lemma_seg_concat_push(ss: Seq<Seq<u64>>, x: Seq<u64>)
    ensures
        seg_concat(ss.push(x)) == seg_concat(ss) + pa_enc(x),
    decreases ss.len(),
{
    if ss.len() == 0 {
        let v = ss.push(x);
        assert(v[0] == x);
        assert(v.len() == 1);
        let e = Seq::<Seq<u64>>::empty();
        assert(v.subrange(1, v.len() as int) =~= e);
        assert(seg_concat(e) == Seq::<u64>::empty());
        assert(seg_concat(v) == pa_enc(v[0]) + seg_concat(v.subrange(1, v.len() as int)));
        assert(seg_concat(v) =~= pa_enc(x));
        assert(seg_concat(ss) == Seq::<u64>::empty());
        assert(seg_concat(ss) + pa_enc(x) =~= pa_enc(x));
    } else {
        lemma_seg_concat_push(ss.subrange(1, ss.len() as int), x);
        assert(ss.push(x).subrange(1, ss.push(x).len() as int) =~= ss.subrange(
            1,
            ss.len() as int,
        ).push(x));
        assert(ss.push(x)[0] == ss[0]);
        assert(seg_concat(ss.push(x)) =~= seg_concat(ss) + pa_enc(x));
    }
}

/// What decoding an announcement list answers: the count prefix, then that
/// many length-prefixed messages, consumed exactly.
pub open spec fn spec_decode_announcements(s: Seq<u64>) -> Option<Seq<Seq<u64>>> {
    if s.len() < 1 {
        None
    } else {
        dec_segments(s.subrange(1, s.len() as int), s[0] as int)
    }
}

/// Decode an announcement list from its canonical encoding. Succeeds
/// exactly when the input parses as a count followed by that many
/// length-prefixed messages, with nothing left over.
pub fn decode_public_announcements(s: &Vec<u64>) -> (r: Option<Vec<PublicAnnouncement>>)
    ensures
        match r {
            Some(v) => spec_decode_announcements(s@) == Some(pa_msgs(v@)),
            None => spec_decode_announcements(s@) is None,
        },
{
    if s.len() < 1 {
        return None;
    }
    let count = s[0];
    let ghost whole = s@.subrange(1, s@.len() as int);
    let mut out: Vec<PublicAnnouncement> = Vec::new();
    let mut pos: usize = 1;
    let mut i: u64 = 0;
    while i < count
        invariant
            0 <= i <= count,
            1 <= pos <= s@.len(),
            count == s@[0],
            out@.len() == i,
            whole == s@.subrange(1, s@.len() as int),
            ({
                let tail = s@.subrange(pos as int, s@.len() as int);
                match dec_segments(tail, count - i) {
                    Some(rest) => dec_segments(whole, count as int) == Some(pa_msgs(out@) + rest),
                    None => dec_segments(whole, count as int) is None,
                }
            }),
        decreases count - i,
    {
        let ghost tail = s@.subrange(pos as int, s@.len() as int);
        if pos >= s.len() {
            proof {
                assert(tail.len() == 0);
                assert(dec_segments(tail, count - i) is None);
            }
            return None;
        }
        let l = s[pos];
        let room: u64 = (s.len() - pos - 1) as u64;
        if room < l {
            proof {
                assert(tail[0] == l);
                assert(tail.len() < 1 + l);
                assert(dec_segments(tail, count - i) is None);
            }
            return None;
        }
        let l_us = l as usize;
        let end: usize = pos + 1 + l_us;
        let mut msg: Vec<u64> = Vec::new();
        let mut p: usize = pos + 1;
        while p < end
            invariant
                pos + 1 <= p <= end,
                end == pos + 1 + l_us,
                end <= s@.len(),
                msg@ == s@.subrange(pos + 1, p as int),
            decreases end - p,
        {
            msg.push(s[p]);
            proof {
                assert(s@.subrange(pos + 1, p as int).push(s@[p as int]) =~= s@.subrange(
                    pos + 1,
                    p + 1,
                ));
            }
            p = p + 1;
        }
        out.push(PublicAnnouncement { message: msg });
        proof {
            assert(tail[0] == l);
            assert(tail.len() >= 1 + l);
            assert(tail.subrange(1, 1 + l as int) =~= s@.subrange(pos + 1, pos + 1 + l as int));
            assert(tail.subrange(1 + l as int, tail.len() as int) =~= s@.subrange(
                pos + 1 + l as int,
                s@.len() as int,
            ));
            let rest_tail = s@.subrange(pos + 1 + l as int, s@.len() as int);
            match dec_segments(rest_tail, count - i - 1) {
                Some(rest2) => {
                    assert(dec_segments(tail, count - i) == Some(
                        seq![tail.subrange(1, 1 + l as int)] + rest2,
                    ));
                    assert(pa_msgs(out@) =~= pa_msgs(out@.drop_last()) + seq![
                        s@.subrange(pos + 1, pos + 1 + l as int)
                    ]);
                    assert(pa_msgs(out@) + rest2 =~= pa_msgs(out@.drop_last()) + (seq![
                        tail.subrange(1, 1 + l as int)
                    ] + rest2));
                },
                None => {
                    assert(dec_segments(tail, count - i) is None);
                },
            }
        }
        pos = pos + 1 + l_us;
        i = i + 1;
    }
    proof {
        let tail = s@.subrange(pos as int, s@.len() as int);
        if pos < s@.len() {
            assert(tail.len() > 0);
            assert(dec_segments(tail, 0) is None);
        }
    }
    if pos != s.len() {
        return None;
    }
    proof {
        let tail = s@.subrange(pos as int, s@.len() as int);
        assert(tail.len() == 0);
        assert(dec_segments(tail, 0) == Some(Seq::<Seq<u64>>::empty()));
        assert(pa_msgs(out@) + Seq::<Seq<u64>>::empty() =~= pa_msgs(out@));
    }
    Some(out)
}

/// Decode a single announcement from its length-prefixed encoding: one
/// length, then exactly that many message elements.
pub fn decode_public_announcement(s: &Vec<u64>) -> (r: Option<PublicAnnouncement>)
    ensures
        match r {
            Some(v) => s@.len() >= 1 && s@[0] + 1 == s@.len() && v.message@ == s@.subrange(
                1,
                s@.len() as int,
            ),
            None => s@.len() < 1 || s@[0] + 1 != s@.len(),
        },
{
    if s.len() < 1 {
        return None;
    }
    let l = s[0];
    if l != (s.len() - 1) as u64 {
        return None;
    }
    let mut msg: Vec<u64> = Vec::new();
    let mut p: usize = 1;
    while p < s.len()
        invariant
            1 <= p <= s@.len(),
            msg@ == s@.subrange(1, p as int),
        decreases s@.len() - p,
    {
        msg.push(s[p]);
        proof {
            assert(s@.subrange(1, p as int).push(s@[p as int]) =~= s@.subrange(1, p + 1));
        }
        p = p + 1;
    }
    Some(PublicAnnouncement { message: msg })
}

/// Computes the MAST hash of a transaction kernel from the size-prefixed
/// image of its field encodings, as the kernel sits in a prover's memory.
#[derive(Clone, Copy, Debug)]
pub struct TransactionKernelMastHash;

impl TransactionKernelMastHash {
    /// Parse seven size-prefixed field encodings and return the kernel
    /// MAST hash they induce. Fails exactly when the stream does not parse
    /// as seven exact segments of field elements.
    pub fn mast_hash_from_memory(stream: &Vec<u64>) -> (r: Option<Digest>)
        ensures
            match r {
                Some(d) => dec_segments(stream@, 7) matches Some(ss) && d@ == mast_root_of(ss)
                    && felts_ok(stream@),
                None => dec_segments(stream@, 7) is None || !felts_ok(stream@),
            },
    {
        let mut i: usize = 0;
        while i < stream.len()
            invariant
                0 <= i <= stream@.len(),
                forall|j: int| 0 <= j < i ==> #[trigger] stream@[j] < FIELD_PRIME,
            decreases stream@.len() - i,
        {
            if stream[i] >= FIELD_PRIME {
                return None;
            }
            i = i + 1;
        }
        let mut count_prefixed: Vec<u64> = Vec::new();
        count_prefixed.push(7);
        let mut all: Vec<u64> = Vec::new();
        let mut k: usize = 0;
        while k < stream.len()
            invariant
                0 <= k <= stream@.len(),
                all@ == stream@.subrange(0, k as int),
            decreases stream@.len() - k,
        {
            all.push(stream[k]);
            proof {
                assert(stream@.subrange(0, k as int).push(stream@[k as int]) =~= stream@.subrange(
                    0,
                    k + 1,
                ));
            }
            k = k + 1;
        }
        proof {
            assert(stream@.subrange(0, stream@.len() as int) =~= stream@);
        }
        let mut framed: Vec<u64> = count_prefixed;
        push_felts(&mut framed, &all);
        proof {
            assert(framed@ =~= seq![7u64] + stream@);
            assert(framed@.subrange(1, framed@.len() as int) =~= stream@);
            assert(framed@[0] == 7);
        }
        match decode_public_announcements(&framed) {
            Some(segments) => {
                let mut sequences: Vec<Vec<u64>> = Vec::new();
                let mut t: usize = 0;
                while t < segments.len()
                    invariant
                        0 <= t <= segments@.len(),
                        sequences@.len() == t,
                        felts_ok(stream@),
                        spec_decode_announcements(framed@) == Some(pa_msgs(segments@)),
                        framed@.subrange(1, framed@.len() as int) == stream@,
                        framed@[0] == 7,
                        framed@.len() >= 1,
                        forall|j: int|
                            0 <= j < t ==> (#[trigger] sequences@[j])@ == segments@[j].message@,
                        forall|j: int| 0 <= j < t ==> felts_ok((#[trigger] sequences@[j])@),
                    decreases segments@.len() - t,
                {
                    let ghost msgs = pa_msgs(segments@);
                    let seq_t = crate::encoding::copy_u64s(&segments[t].message);
                    proof {
                        lemma_dec_segments_felts(stream@, 7);
                        assert(dec_segments(stream@, 7) == Some(msgs));
                        assert(dec_segments(stream@, 7)->Some_0 == msgs);
                        assert(felts_ok(dec_segments(stream@, 7)->Some_0[t as int]));
                        assert(msgs[t as int] == segments@[t as int].message@);
                        assert(felts_ok(msgs[t as int]));
                    }
                    sequences.push(seq_t);
                    t = t + 1;
                }
                if sequences.len() != 7 {
                    proof {
                        lemma_dec_segments_count(stream@, 7);
                    }
                    return None;
                }
                proof {
                    assert(crate::mast::felt_seqs_view(sequences@) =~= pa_msgs(segments@));
                }
                Some(mast_root(&sequences))
            },
            None => None,
        }
    }
}

/// A successful parse yields exactly as many segments as asked for.
proof fn lemma_dec_segments_count(s: Seq<u64>, n: int)
    requires
        n >= 0,
    ensures
        dec_segments(s, n) matches Some(ss) ==> ss.len() == n,
    decreases n,
{
    if n > 0 && s.len() >= 1 && s.len() >= 1 + s[0] {
        lemma_dec_segments_count(s.subrange(1 + s[0] as int, s.len() as int), n - 1);
    }
}

/// Segments parsed from a field-element stream hold field elements.
proof fn lemma_dec_segments_felts(s: Seq<u64>, n: int)
    requires
        felts_ok(s),
    ensures
        dec_segments(s, n) matches Some(ss) ==> forall|i: int|
            0 <= i < ss.len() ==> felts_ok(#[trigger] ss[i]),
    decreases n,
{
    if n > 0 && s.len() >= 1 && s.len() >= 1 + s[0] {
        let tail = s.subrange(1 + s[0] as int, s.len() as int);
        assert(felts_ok(tail)) by {
            assert forall|i: int| 0 <= i < tail.len() implies #[trigger] tail[i] < FIELD_PRIME by {
                assert(tail[i] == s[1 + s[0] + i]);
            }
        }
        lemma_dec_segments_felts(tail, n - 1);
        if dec_segments(s, n) is Some {
            let ss = dec_segments(s, n)->Some_0;
            let rest = dec_segments(tail, n - 1)->Some_0;
            assert(ss == seq![s.subrange(1, 1 + s[0] as int)] + rest);
            assert forall|i: int| 0 <= i < ss.len() implies felts_ok(#[trigger] ss[i]) by {
                if i == 0 {
                    assert(ss[0] == s.subrange(1, 1 + s[0] as int));
                    assert forall|j: int| 0 <= j < ss[0].len() implies #[trigger] ss[0][j]
                        < FIELD_PRIME by {
                        assert(ss[0][j] == s[1 + j]);
                    }
                } else {
                    assert(ss[i] == rest[i - 1]);
                }
            }
        }
    }
}

/// The size-prefixed memory image of the kernel's field encodings.
pub fn kernel_memory_stream(kernel: &TransactionKernel) -> (r: Vec<u64>)
    requires
        kernel.wf(),
        forall|i: int|
            0 <= i < kernel.sequences_spec().len() ==> (#[trigger] kernel.sequences_spec()[
            i]).len() < 0x1_0000_0000,
    ensures
        r@ == seg_concat(kernel.sequences_spec()),
        felts_ok(r@),
{
    let sequences = kernel.mast_sequences();
    let mut out: Vec<u64> = Vec::new();
    let mut i: usize = 0;
    while i < sequences.len()
        invariant
            0 <= i <= sequences@.len(),
            crate::mast::felt_seqs_view(sequences@) == kernel.sequences_spec(),
            crate::mast::felt_seqs_ok(sequences@),
            forall|j: int|
                0 <= j < kernel.sequences_spec().len() ==> (#[trigger] kernel.sequences_spec()[
                j]).len() < 0x1_0000_0000,
            out@ == seg_concat(kernel.sequences_spec().subrange(0, i as int)),
            felts_ok(out@),
        decreases sequences@.len() - i,
    {
        let ghost pre = kernel.sequences_spec().subrange(0, i as int);
        let ghost before = out@;
        push_len(&mut out, sequences[i].len());
        push_felts(&mut out, &sequences[i]);
        proof {
            assert(kernel.sequences_spec().subrange(0, i + 1) =~= pre.push(
                kernel.sequences_spec()[i as int],
            ));
            lemma_seg_concat_push(pre, kernel.sequences_spec()[i as int]);
            assert(out@ =~= before + pa_enc(kernel.sequences_spec()[i as int]));
            crate::encoding::lemma_felts_ok_concat(
                before,
                enc_len(kernel.sequences_spec()[i as int].len() as int),
            );
            crate::encoding::lemma_felts_ok_concat(
                before + enc_len(kernel.sequences_spec()[i as int].len() as int),
                kernel.sequences_spec()[i as int],
            );
        }
        i = i + 1;
    }
    proof {
        assert(kernel.sequences_spec().subrange(0, kernel.sequences_spec().len() as int)
            =~= kernel.sequences_spec());
    }
    out
}

/// Encode a list of removal records behind a count prefix.
pub fn encode_removal_records(rrs: &Vec<RemovalRecord>) -> (r: Vec<u64>)
    requires
        rrs@.len() < 0x1_0000_0000,
        forall|i: int| 0 <= i < rrs@.len() ==> rr_wf(#[trigger] rrs@[i]),
    ensures
        r@ == rrs_enc(rrs@),
        felts_ok(r@),
{
    let mut out: Vec<u64> = Vec::new();
    push_len(&mut out, rrs.len());
    let mut i: usize = 0;
    while i < rrs.len()
        invariant
            0 <= i <= rrs@.len(),
            rrs@.len() < 0x1_0000_0000,
            forall|j: int| 0 <= j < rrs@.len() ==> rr_wf(#[trigger] rrs@[j]),
            out@ == enc_len(rrs@.len() as int) + rrs_body_enc(rrs@.subrange(0, i as int)),
            felts_ok(out@),
        decreases rrs@.len() - i,
    {
        let ghost pre = rrs@.subrange(0, i as int);
        encode_removal_record_into(&mut out, &rrs[i]);
        proof {
            assert(rrs@.subrange(0, i + 1).drop_last() =~= pre);
            assert(rrs@.subrange(0, i + 1).last() == rrs@[i as int]);
        }
        i = i + 1;
    }
    proof {
        assert(rrs@.subrange(0, rrs@.len() as int) =~= rrs@);
    }
    out
}

/// Append the encoding of one removal record.
fn encode_removal_record_into(out: &mut Vec<u64>, rr: &RemovalRecord)
    requires
        rr_wf(*rr),
        felts_ok(old(out)@),
    ensures
        final (out)@ == old(out)@ + rr_enc(*rr),
        felts_ok(final (out)@),
{
    push_len(out, rr.absolute_indices.len());
    let mut i: usize = 0;
    while i < rr.absolute_indices.len()
        invariant
            0 <= i <= rr.absolute_indices@.len(),
            out@ == old(out)@ + enc_len(rr.absolute_indices@.len() as int) + u128s_enc(
                rr.absolute_indices@.subrange(0, i as int),
            ),
        decreases rr.absolute_indices@.len() - i,
    {
        let ghost pre = rr.absolute_indices@.subrange(0, i as int);
        push_u128(out, rr.absolute_indices[i]);
        proof {
            assert(rr.absolute_indices@.subrange(0, i + 1).drop_last() =~= pre);
        }
        i = i + 1;
    }
    proof {
        assert(rr.absolute_indices@.subrange(0, rr.absolute_indices@.len() as int)
            =~= rr.absolute_indices@);
    }
    push_len(out, rr.target_chunks.len());
    let mut k: usize = 0;
    while k < rr.target_chunks.len()
        invariant
            0 <= k <= rr.target_chunks@.len(),
            rr_wf(*rr),
            out@ == old(out)@ + enc_len(rr.absolute_indices@.len() as int) + u128s_enc(
                rr.absolute_indices@,
            ) + enc_len(rr.target_chunks@.len() as int) + cws_enc(
                rr.target_chunks@.subrange(0, k as int),
            ),
        decreases rr.target_chunks@.len() - k,
    {
        let ghost pre = rr.target_chunks@.subrange(0, k as int);
        let w = &rr.target_chunks[k];
        push_u64(out, w.chunk_index);
        push_len(out, w.chunk.bits.len());
        push_felts(out, &w.chunk.bits);
        push_len(out, w.path.len());
        let mut p: usize = 0;
        while p < w.path.len()
            invariant
                0 <= p <= w.path@.len(),
                out@ == old(out)@ + enc_len(rr.absolute_indices@.len() as int) + u128s_enc(
                    rr.absolute_indices@,
                ) + enc_len(rr.target_chunks@.len() as int) + cws_enc(pre) + enc_u64(
                    w.chunk_index,
                ) + chunk_enc(w.chunk.bits@) + enc_len(w.path@.len() as int) + digests_enc(
                    w.path@.subrange(0, p as int),
                ),
            decreases w.path@.len() - p,
        {
            let ghost ppre = w.path@.subrange(0, p as int);
            push_digest(out, &w.path[p]);
            proof {
                assert(w.path@.subrange(0, p + 1).drop_last() =~= ppre);
            }
            p = p + 1;
        }
        proof {
            assert(w.path@.subrange(0, w.path@.len() as int) =~= w.path@);
            assert(rr.target_chunks@.subrange(0, k + 1).drop_last() =~= pre);
            assert(cws_enc(rr.target_chunks@.subrange(0, k + 1)) == cws_enc(pre) + cw_enc(
                rr.target_chunks@[k as int],
            ));
        }
        k = k + 1;
    }
    proof {
        assert(rr.target_chunks@.subrange(0, rr.target_chunks@.len() as int)
            =~= rr.target_chunks@);
        lemma_rr_enc_felts(*rr);
        crate::encoding::lemma_felts_ok_concat(old(out)@, rr_enc(*rr));
    }
}

/// A removal record's encoding holds field elements only.
proof fn lemma_rr_enc_felts(rr: RemovalRecord)
    requires
        rr_wf(rr),
    ensures
        felts_ok(rr_enc(rr)),
{
    lemma_u128s_enc_felts(rr.absolute_indices@);
    lemma_cws_enc_felts(rr.target_chunks@);
    crate::encoding::lemma_felts_ok_concat(
        enc_len(rr.absolute_indices@.len() as int),
        u128s_enc(rr.absolute_indices@),
    );
    crate::encoding::lemma_felts_ok_concat(
        enc_len(rr.absolute_indices@.len() as int) + u128s_enc(rr.absolute_indices@),
        enc_len(rr.target_chunks@.len() as int),
    );
    crate::encoding::lemma_felts_ok_concat(
        enc_len(rr.absolute_indices@.len() as int) + u128s_enc(rr.absolute_indices@) + enc_len(
            rr.target_chunks@.len() as int,
        ),
        cws_enc(rr.target_chunks@),
    );
}

proof fn lemma_u128s_enc_felts(s: Seq<u128>)
    ensures
        felts_ok(u128s_enc(s)),
    decreases s.len(),
{
    if s.len() > 0 {
        lemma_u128s_enc_felts(s.drop_last());
        crate::encoding::lemma_enc_u128_ok(s.last());
        crate::encoding::lemma_felts_ok_concat(u128s_enc(s.drop_last()), enc_u128(s.last()));
    }
}

proof fn lemma_digests_enc_felts(ds: Seq<Digest>)
    requires
        crate::mmr::digests_wf(ds),
    ensures
        felts_ok(digests_enc(ds)),
    decreases ds.len(),
{
    if ds.len() > 0 {
        assert(crate::mmr::digests_wf(ds.drop_last())) by {
            assert forall|i: int| 0 <= i < ds.len() - 1 implies (
            #[trigger] ds.drop_last()[i]).wf() by {
                assert(ds[i].wf());
            }
        }
        lemma_digests_enc_felts(ds.drop_last());
        assert(ds[ds.len() - 1].wf());
        assert(felts_ok(ds.last()@));
        crate::encoding::lemma_felts_ok_concat(digests_enc(ds.drop_last()), ds.last()@);
    }
}

proof fn lemma_cw_enc_felts(w: ChunkWitness)
    requires
        cw_wf(w),
    ensures
        felts_ok(cw_enc(w)),
{
    crate::encoding::lemma_enc_u64_ok(w.chunk_index);
    lemma_digests_enc_felts(w.path@);
    assert(felts_ok(chunk_enc(w.chunk.bits@))) by {
        assert forall|i: int| 0 <= i < chunk_enc(w.chunk.bits@).len() implies #[trigger] chunk_enc(
            w.chunk.bits@,
        )[i] < FIELD_PRIME by {
            if i == 0 {
                assert(chunk_enc(w.chunk.bits@)[0] == w.chunk.bits@.len() as u64);
            } else {
                assert(chunk_enc(w.chunk.bits@)[i] == w.chunk.bits@[i - 1]);
                assert(w.chunk.bits@[i - 1] < CHUNK_SIZE);
            }
        }
    }
    crate::encoding::lemma_felts_ok_concat(enc_u64(w.chunk_index), chunk_enc(w.chunk.bits@));
    crate::encoding::lemma_felts_ok_concat(
        enc_u64(w.chunk_index) + chunk_enc(w.chunk.bits@),
        enc_len(w.path@.len() as int),
    );
    crate::encoding::lemma_felts_ok_concat(
        enc_u64(w.chunk_index) + chunk_enc(w.chunk.bits@) + enc_len(w.path@.len() as int),
        digests_enc(w.path@),
    );
}

proof fn lemma_cws_enc_felts(ws: Seq<ChunkWitness>)
    requires
        forall|i: int| 0 <= i < ws.len() ==> cw_wf(#[trigger] ws[i]),
    ensures
        felts_ok(cws_enc(ws)),
    decreases ws.len(),
{
    if ws.len() > 0 {
        lemma_cws_enc_felts(ws.drop_last());
        assert(cw_wf(ws[ws.len() - 1]));
        lemma_cw_enc_felts(ws.last());
        crate::encoding::lemma_felts_ok_concat(cws_enc(ws.drop_last()), cw_enc(ws.last()));
    }
}

/// Encode a list of addition records behind a count prefix.
pub fn encode_addition_records(ars: &Vec<AdditionRecord>) -> (r: Vec<u64>)
    requires
        ars@.len() < 0x1_0000_0000,
        forall|i: int| 0 <= i < ars@.len() ==> (#[trigger] ars@[i]).canonical_commitment.wf(),
    ensures
        r@ == ars_enc(ars@),
        felts_ok(r@),
{
    let mut out: Vec<u64> = Vec::new();
    push_len(&mut out, ars.len());
    let mut i: usize = 0;
    while i < ars.len()
        invariant
            0 <= i <= ars@.len(),
            ars@.len() < 0x1_0000_0000,
            forall|j: int| 0 <= j < ars@.len() ==> (#[trigger] ars@[j]).canonical_commitment.wf(),
            out@ == enc_len(ars@.len() as int) + ars_body_enc(ars@.subrange(0, i as int)),
            felts_ok(out@),
        decreases ars@.len() - i,
    {
        let ghost pre = ars@.subrange(0, i as int);
        let ghost before = out@;
        push_digest(&mut out, &ars[i].canonical_commitment);
        proof {
            assert(ars@.subrange(0, i + 1).drop_last() =~= pre);
            crate::encoding::lemma_felts_ok_concat(before, ars@[i as int].canonical_commitment@);
        }
        i = i + 1;
    }
    proof {
        assert(ars@.subrange(0, ars@.len() as int) =~= ars@);
    }
    out
}

/// Encode a list of announcements behind a count prefix.
pub fn encode_public_announcements(pas: &Vec<PublicAnnouncement>) -> (r: Vec<u64>)
    requires
        pas@.len() < 0x1_0000_0000,
        forall|i: int| 0 <= i < pas@.len() ==> (#[trigger] pas@[i]).wf(),
    ensures
        r@ == pas_enc(pas@),
        felts_ok(r@),
{
    let mut out: Vec<u64> = Vec::new();
    push_len(&mut out, pas.len());
    let mut i: usize = 0;
    while i < pas.len()
        invariant
            0 <= i <= pas@.len(),
            pas@.len() < 0x1_0000_0000,
            forall|j: int| 0 <= j < pas@.len() ==> (#[trigger] pas@[j]).wf(),
            out@ == enc_len(pas@.len() as int) + pas_body_enc(pas@.subrange(0, i as int)),
            felts_ok(out@),
        decreases pas@.len() - i,
    {
        let ghost pre = pas@.subrange(0, i as int);
        let ghost before = out@;
        push_len(&mut out, pas[i].message.len());
        push_felts(&mut out, &pas[i].message);
        proof {
            assert(pas@.subrange(0, i + 1).drop_last() =~= pre);
            crate::encoding::lemma_felts_ok_concat(before, enc_len(pas@[i as int].message@.len() as int));
            crate::encoding::lemma_felts_ok_concat(before + enc_len(pas@[i as int].message@.len() as int), pas@[i as int].message@);
        }
        i = i + 1;
    }
    proof {
        assert(pas@.subrange(0, pas@.len() as int) =~= pas@);
    }
    out
}

} // verus!
