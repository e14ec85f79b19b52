use vstd::prelude::*;

verus! {

/// Width of an acknowledgment record.
pub const ACK_LEN: usize = 4;

/// One acknowledgment record from the peer.
#[derive(Debug, Clone, Copy, PartialEq, Eq, Structural)]
pub struct AckRecord {
    /// Sequence number of the frame that the record speaks of.
    pub seq: u8,
    /// Zero when the peer reports success.
    pub status: u8,
    /// Bytes of the frame that this record acknowledges.
    pub acked: u16,
}

/// Reads a record from its four wire bytes: sequence, status, then the
/// acknowledged byte count little-endian.
pub fn parse_ack(bytes: &[u8; 4]) -> (r: AckRecord)
    ensures
        r.seq == bytes@[0],
        r.status == bytes@[1],
        r.acked == bytes@[2] as nat + 256 * bytes@[3] as nat,
{
    let lo = bytes[2] as u16;
    let hi = bytes[3] as u16;
    AckRecord { seq: bytes[0], status: bytes[1], acked: lo + 256 * hi }
}

/// Bytes acknowledged for frame `seq` by `records`: the records with another
/// sequence number count for nothing.
pub open spec fn acked_sum(records: Seq<AckRecord>, seq: u8) -> nat
    decreases records.len(),
{
    if records.len() == 0 {
        0
    } else {
        acked_sum(records.drop_last(), seq) + if records.last().seq == seq {
            records.last().acked as nat
        } else {
            0
        }
    }
}

/// Whether one of the records for frame `seq` reports an error.
pub open spec fn peer_reported_error(records: Seq<AckRecord>, seq: u8) -> bool {
    exists|i: int| 0 <= i < records.len() && #[trigger] records[i].seq == seq && records[i].status != 0
}

/// What a record did to the handshake.
#[derive(Debug, Clone, Copy, PartialEq, Eq, Structural)]
pub enum AckOutcome {
    /// The record was for another frame and was dropped.
    Stale,
    /// The record counted, but the frame is not yet fully acknowledged.
    Pending,
    /// The frame is now fully acknowledged.
    Complete,
}

/// The wait for the acknowledgment of one frame.
pub struct Handshake {
    seq: u8,
    frame_len: usize,
    acked: usize,
    peer_error: bool,
    records: Ghost<Seq<AckRecord>>,
}

impl Handshake {
    /// Sequence number of the frame awaited.
    pub closed spec fn seq(&self) -> u8 {
        self.seq
    }

    /// Wire length of the frame awaited.
    pub closed spec fn frame_len(&self) -> nat {
        self.frame_len as nat
    }

    /// Every record received so far, in order.
    pub closed spec fn records(&self) -> Seq<AckRecord> {
        self.records@
    }

    pub open spec fn is_complete(&self) -> bool {
        acked_sum(self.records(), self.seq()) == self.frame_len()
    }

    pub closed spec fn wf(&self) -> bool {
        &&& self.frame_len < usize::MAX - 65536
        &&& self.acked == if acked_sum(self.records@, self.seq) <= self.frame_len {
            acked_sum(self.records@, self.seq) as int
        } else {
            self.frame_len + 1
        }
        &&& self.peer_error == peer_reported_error(self.records@, self.seq)
    }

    /// Starts waiting for the acknowledgment of the frame `seq`, `frame_len`
    /// bytes long.
    pub fn new(seq: u8, frame_len: usize) -> (r: Self)
        requires
            0 < frame_len < usize::MAX - 65536,
        ensures
            r.wf(),
            r.seq() == seq,
            r.frame_len() == frame_len,
            r.records() == Seq::<AckRecord>::empty(),
            !r.is_complete(),
    {
        Handshake { seq, frame_len, acked: 0, peer_error: false, records: Ghost(Seq::empty()) }
    }

    /// Wire length of the frame awaited.
    pub fn frame_length(&self) -> (r: usize)
        ensures
            r == self.frame_len(),
    {
        self.frame_len
    }

    /// Whether the frame is fully acknowledged.
    pub fn complete(&self) -> (r: bool)
        requires
            self.wf(),
        ensures
            r == self.is_complete(),
    {
        self.acked == self.frame_len
    }

    /// Whether a record for this frame carried a nonzero status.
    pub fn peer_error(&self) -> (r: bool)
        requires
            self.wf(),
        ensures
            r == peer_reported_error(self.records(), self.seq()),
    {
        self.peer_error
    }

    /// Takes one record. A record for another frame is dropped; one for this
    /// frame adds its count, and the frame is complete once the counts add
    /// up to its length.
    pub fn on_record(&mut self, rec: AckRecord) -> (r: AckOutcome)
        requires
            old(self).wf(),
            !old(self).is_complete(),
        ensures
            final(self).wf(),
            final(self).seq() == old(self).seq(),
            final(self).frame_len() == old(self).frame_len(),
            final(self).records() == old(self).records().push(rec),
            rec.seq != old(self).seq() ==> r == AckOutcome::Stale && acked_sum(final(self).records(), final(self).seq())
                == acked_sum(old(self).records(), old(self).seq()),
            rec.seq == old(self).seq() ==> acked_sum(final(self).records(), final(self).seq())
                == acked_sum(old(self).records(), old(self).seq()) + rec.acked,
            r == AckOutcome::Complete <==> final(self).is_complete(),
            r == AckOutcome::Pending <==> rec.seq == old(self).seq() && !final(self).is_complete(),
    {
        let ghost prev = self.records@;
        let ghost next = prev.push(rec);
        assert(next.drop_last() =~= prev);
        self.records = Ghost(next);
        proof {
            assert(next[next.len() - 1] == rec);
            if peer_reported_error(prev, self.seq) {
                let i = choose|i: int| 0 <= i < prev.len() && #[trigger] prev[i].seq == self.seq && prev[i].status != 0;
                assert(next[i] == prev[i]);
            }
            if peer_reported_error(next, self.seq) {
                let i = choose|i: int| 0 <= i < next.len() && #[trigger] next[i].seq == self.seq && next[i].status != 0;
                if i < prev.len() {
                    assert(prev[i] == next[i]);
                }
            }
        }
        if rec.seq != self.seq {
            return AckOutcome::Stale;
        }
        if rec.status != 0 {
            self.peer_error = true;
        }
        let sum = self.acked + rec.acked as usize;
        self.acked = if sum <= self.frame_len {
            sum
        } else {
            self.frame_len + 1
        };
        if self.acked == self.frame_len {
            AckOutcome::Complete
        } else {
            AckOutcome::Pending
        }
    }
}

/// Records for another frame never move the handshake: appending any number
/// of them leaves the acknowledged sum as it was.
pub proof fn lemma_stale_records_ignored(records: Seq<AckRecord>, extra: Seq<AckRecord>, seq: u8)
    requires
        forall|i: int| 0 <= i < extra.len() ==> #[trigger] extra[i].seq != seq,
    ensures
        acked_sum(records + extra, seq) == acked_sum(records, seq),
    decreases extra.len(),
{
    if extra.len() > 0 {
        let shorter = extra.drop_last();
        assert((records + extra).drop_last() =~= records + shorter);
        assert(forall|i: int| 0 <= i < shorter.len() ==> #[trigger] shorter[i] == extra[i]);
        lemma_stale_records_ignored(records, shorter, seq);
    } else {
        assert(records + extra =~= records);
    }
}

} // verus!
