use vstd::prelude::*;

use crate::frame::{header_len, lemma_declared_len, LONG_HEADER_LEN, MAX_PAYLOAD, SHORT_HEADER_LEN};
use crate::handshake::{AckOutcome, AckRecord, Handshake};
use crate::name::NAME_FIELD_MAX;
use crate::producer::{chunk_at, chunk_count, frame_at, lemma_chunk_exists, FrameProducer};
use crate::compress::payload_for;

verus! {

/// Progress of a transfer, reported each time a frame is fully acknowledged.
#[derive(Debug, Clone, Copy, PartialEq, Eq, Structural)]
pub struct UploadProgress {
    /// How many frames are done, this one included.
    pub current_block: usize,
    /// How many frames the transfer has.
    pub blocks_num: usize,
    /// Length of the source buffer.
    pub total_bytes: usize,
    /// Bytes put on the wire so far, headers included.
    pub compressed_bytes: usize,
}

/// What the caller does with a frame it has just handed in.
#[derive(Debug, Clone, Copy, PartialEq, Eq, Structural)]
pub enum FrameStep {
    /// Write the frame to the connection, then read acknowledgment records.
    Send,
    /// Nothing to write: the frame counts as acknowledged at once.
    Acknowledged(UploadProgress),
}

/// What the caller does after handing in an acknowledgment record.
#[derive(Debug, Clone, Copy, PartialEq, Eq, Structural)]
pub enum AckStep {
    /// Read another record.
    Wait,
    /// The frame is fully acknowledged: go on with the next one.
    Done(UploadProgress),
}

/// Sum of a sequence of lengths.
pub open spec fn sum_lens(lens: Seq<nat>) -> nat
    decreases lens.len(),
{
    if lens.len() == 0 {
        0
    } else {
        sum_lens(lens.drop_last()) + lens.last()
    }
}

/// The consumer side of a transfer: it takes frames in order, waits for each
/// to be acknowledged (or, with no network, counts it acknowledged at once),
/// and reports progress after each.
pub struct Transfer {
    dummy: bool,
    blocks_num: usize,
    total_bytes: usize,
    done: usize,
    sent: usize,
    lens: Ghost<Seq<nat>>,
    awaiting: Option<Handshake>,
}

impl Transfer {
    pub closed spec fn dummy(&self) -> bool {
        self.dummy
    }

    pub closed spec fn blocks_num(&self) -> nat {
        self.blocks_num as nat
    }

    pub closed spec fn total_bytes(&self) -> nat {
        self.total_bytes as nat
    }

    /// Lengths of the frames acknowledged so far, in order.
    pub closed spec fn done_lens(&self) -> Seq<nat> {
        self.lens@
    }

    /// The handshake of the frame in flight, if one is.
    pub closed spec fn awaiting(&self) -> Option<Handshake> {
        self.awaiting
    }

    pub closed spec fn wf(&self) -> bool {
        &&& self.done == self.lens@.len()
        &&& self.sent == sum_lens(self.lens@)
        &&& self.awaiting matches Some(h) ==> h.wf() && !h.is_complete() && self.sent + h.frame_len()
            <= usize::MAX && self.done < usize::MAX && !self.dummy
    }

    /// The progress report after the frames done so far.
    pub open spec fn progress(&self) -> UploadProgress {
        UploadProgress {
            current_block: self.done_lens().len() as usize,
            blocks_num: self.blocks_num() as usize,
            total_bytes: self.total_bytes() as usize,
            compressed_bytes: sum_lens(self.done_lens()) as usize,
        }
    }

    /// A transfer of `blocks_num` frames from a buffer of `total_bytes`
    /// bytes; `dummy` means that no network is used.
    pub fn new(blocks_num: usize, total_bytes: usize, dummy: bool) -> (r: Self)
        ensures
            r.wf(),
            r.dummy() == dummy,
            r.blocks_num() == blocks_num,
            r.total_bytes() == total_bytes,
            r.done_lens() == Seq::<nat>::empty(),
            r.awaiting() is None,
    {
        Transfer {
            dummy,
            blocks_num,
            total_bytes,
            done: 0,
            sent: 0,
            lens: Ghost(Seq::empty()),
            awaiting: None,
        }
    }

    /// Whether the transfer needs a connection at all.
    pub fn connects(&self) -> (r: bool)
        ensures
            r == !self.dummy(),
    {
        !self.dummy
    }

    /// Bytes put on the wire by the frames done so far.
    pub fn compressed_bytes(&self) -> (r: usize)
        requires
            self.wf(),
        ensures
            r == sum_lens(self.done_lens()),
    {
        self.sent
    }

    /// Hands in the next frame. With a network the caller is told to send it
    /// and a handshake for it begins; without one it is done at once.
    pub fn begin_frame(&mut self, frame: &[u8]) -> (r: FrameStep)
        requires
            old(self).wf(),
            old(self).awaiting() is None,
            SHORT_HEADER_LEN <= frame@.len() <= LONG_HEADER_LEN + MAX_PAYLOAD,
            sum_lens(old(self).done_lens()) + frame@.len() <= usize::MAX,
            old(self).done_lens().len() < usize::MAX,
        ensures
            final(self).wf(),
            final(self).dummy() == old(self).dummy(),
            final(self).blocks_num() == old(self).blocks_num(),
            final(self).total_bytes() == old(self).total_bytes(),
            old(self).dummy() ==> {
                &&& final(self).done_lens() == old(self).done_lens().push(frame@.len())
                &&& final(self).awaiting() is None
                &&& r == FrameStep::Acknowledged(final(self).progress())
            },
            !old(self).dummy() ==> {
                &&& final(self).done_lens() == old(self).done_lens()
                &&& r == FrameStep::Send
                &&& final(self).awaiting() matches Some(h) && h.seq() == frame@[0] && h.frame_len()
                    == frame@.len() && h.records() == Seq::<AckRecord>::empty()
            },
    {
        let len = frame.len();
        if self.dummy {
            self.finish_frame(len);
            FrameStep::Acknowledged(self.report())
        } else {
            self.awaiting = Some(Handshake::new(frame[0], len));
            FrameStep::Send
        }
    }

    fn finish_frame(&mut self, len: usize)
        requires
            old(self).done == old(self).lens@.len(),
            old(self).sent == sum_lens(old(self).lens@),
            old(self).sent + len <= usize::MAX,
            old(self).done < usize::MAX,
        ensures
            final(self).wf(),
            final(self).dummy == old(self).dummy,
            final(self).blocks_num == old(self).blocks_num,
            final(self).total_bytes == old(self).total_bytes,
            final(self).lens@ == old(self).lens@.push(len as nat),
            final(self).awaiting is None,
    {
        let ghost next = self.lens@.push(len as nat);
        assert(next.drop_last() =~= self.lens@);
        self.lens = Ghost(next);
        self.done = self.done + 1;
        self.sent = self.sent + len;
        self.awaiting = None;
    }

    fn report(&self) -> (r: UploadProgress)
        requires
            self.wf(),
        ensures
            r == self.progress(),
    {
        UploadProgress {
            current_block: self.done,
            blocks_num: self.blocks_num,
            total_bytes: self.total_bytes,
            compressed_bytes: self.sent,
        }
    }

    /// Hands in an acknowledgment record for the frame in flight. Once the
    /// records for its sequence number add up to its length the frame is
    /// done and progress is reported; other records are dropped.
    pub fn on_ack(&mut self, rec: AckRecord) -> (r: AckStep)
        requires
            old(self).wf(),
            old(self).awaiting() is Some,
        ensures
            final(self).wf(),
            final(self).dummy() == old(self).dummy(),
            final(self).blocks_num() == old(self).blocks_num(),
            final(self).total_bytes() == old(self).total_bytes(),
            ({
                let h = old(self).awaiting()->0;
                let records = h.records().push(rec);
                let complete = crate::handshake::acked_sum(records, h.seq()) == h.frame_len();
                &&& complete ==> {
                    &&& final(self).done_lens() == old(self).done_lens().push(h.frame_len())
                    &&& final(self).awaiting() is None
                    &&& r == AckStep::Done(final(self).progress())
                }
                &&& !complete ==> {
                    &&& final(self).done_lens() == old(self).done_lens()
                    &&& r == AckStep::Wait
                    &&& final(self).awaiting() matches Some(g) && g.seq() == h.seq() && g.frame_len()
                        == h.frame_len() && g.records() == records
                }
            }),
    {
        let mut h = self.awaiting.take().unwrap();
        let outcome = h.on_record(rec);
        if outcome == AckOutcome::Complete {
            let len = h.frame_length();
            self.finish_frame(len);
            AckStep::Done(self.report())
        } else {
            self.awaiting = Some(h);
            AckStep::Wait
        }
    }
}

/// Total wire length of the first `n` frames of a transfer.
pub open spec fn frames_len(buf: Seq<u8>, name: Seq<u8>, c: nat, use_compression: bool, n: nat) -> nat
    decreases n,
{
    if n == 0 {
        0
    } else {
        frames_len(buf, name, c, use_compression, (n - 1) as nat) + frame_at(
            buf,
            name,
            c,
            use_compression,
            (n - 1) as nat,
        ).len()
    }
}

/// The progress reported after frame `i` of a transfer is done.
pub open spec fn progress_at(buf: Seq<u8>, name: Seq<u8>, c: nat, use_compression: bool, i: nat) -> UploadProgress {
    UploadProgress {
        current_block: (i + 1) as usize,
        blocks_num: chunk_count(buf.len(), c) as usize,
        total_bytes: buf.len() as usize,
        compressed_bytes: frames_len(buf, name, c, use_compression, i + 1) as usize,
    }
}

/// Frame `i` is its header, then at most the bytes of chunk `i`.
proof fn lemma_frame_len_bound(buf: Seq<u8>, name: Seq<u8>, c: nat, use_compression: bool, i: nat)
    requires
        0 < c <= MAX_PAYLOAD,
        name.len() <= NAME_FIELD_MAX,
        i < chunk_count(buf.len(), c),
    ensures
        frame_at(buf, name, c, use_compression, i).len() <= header_len(i == 0) + chunk_at(buf, c, i).len(),
        frame_at(buf, name, c, use_compression, i).len() >= SHORT_HEADER_LEN,
        frame_at(buf, name, c, use_compression, i).len() <= LONG_HEADER_LEN + MAX_PAYLOAD,
        chunk_at(buf, c, i).len() == (if i * c + c <= buf.len() {
            i * c + c
        } else {
            buf.len() as nat
        }) - i * c,
{
    lemma_chunk_exists(buf.len(), c, i);
    let chunk = chunk_at(buf, c, i);
    let (payload, compressed) = payload_for(chunk, c, use_compression);
    let nm = if i == 0 {
        Some(name)
    } else {
        None
    };
    lemma_declared_len(crate::producer::seq_at(i), payload, compressed, nm);
}

/// Cuts `buffer` into chunks of `chunk_size` bytes and returns the frames of
/// the transfer, in order.
pub fn build_frames(buffer: Vec<u8>, name: Vec<u8>, chunk_size: usize, use_compression: bool) -> (r: Vec<Vec<u8>>)
    requires
        0 < chunk_size <= MAX_PAYLOAD,
        name@.len() <= NAME_FIELD_MAX,
    ensures
        r@.len() == chunk_count(buffer@.len(), chunk_size as nat),
        forall|i: int|
            0 <= i < r@.len() ==> #[trigger] r@[i]@ == frame_at(buffer@, name@, chunk_size as nat, use_compression, i as nat),
{
    let ghost buf = buffer@;
    let ghost nm = name@;
    let mut producer = FrameProducer::new(buffer, name, chunk_size, use_compression);
    let mut frames: Vec<Vec<u8>> = Vec::new();
    loop
        invariant
            producer.wf(),
            producer.buffer() == buf,
            producer.name() == nm,
            producer.chunk_size() == chunk_size,
            producer.use_compression() == use_compression,
            producer.next_index() == frames@.len(),
            producer.next_index() <= producer.frame_count(),
            forall|i: int|
                0 <= i < frames@.len() ==> #[trigger] frames@[i]@ == frame_at(buf, nm, chunk_size as nat, use_compression, i as nat),
        ensures
            frames@.len() == chunk_count(buf.len(), chunk_size as nat),
            forall|i: int|
                0 <= i < frames@.len() ==> #[trigger] frames@[i]@ == frame_at(buf, nm, chunk_size as nat, use_compression, i as nat),
        decreases producer.frame_count() - producer.next_index(),
    {
        match producer.next_frame() {
            Some(f) => {
                frames.push(f);
            },
            None => {
                break;
            },
        }
    }
    frames
}

/// Runs a whole transfer with no network: every frame counts as
/// acknowledged as soon as it is produced. Returns the progress reports, one
/// per frame; the last one counts the wire length of every frame. The
/// `requires` bounds the largest wire length that the frames can have, which
/// must fit the byte count.
pub fn dummy_transfer(buffer: Vec<u8>, name: Vec<u8>, chunk_size: usize, use_compression: bool) -> (r: Vec<UploadProgress>)
    requires
        0 < chunk_size <= MAX_PAYLOAD,
        name@.len() <= NAME_FIELD_MAX,
        buffer@.len() + LONG_HEADER_LEN + 4 * chunk_count(buffer@.len(), chunk_size as nat) <= usize::MAX,
    ensures
        r@.len() == chunk_count(buffer@.len(), chunk_size as nat),
        forall|i: int|
            0 <= i < r@.len() ==> #[trigger] r@[i] == progress_at(buffer@, name@, chunk_size as nat, use_compression, i as nat),
{
    let ghost buf = buffer@;
    let ghost nm = name@;
    let ghost c = chunk_size as nat;
    let total = buffer.len();
    let mut producer = FrameProducer::new(buffer, name, chunk_size, use_compression);
    let blocks = producer.blocks_num();
    let mut transfer = Transfer::new(blocks, total, true);
    let mut events: Vec<UploadProgress> = Vec::new();
    loop
        invariant
            producer.wf(),
            producer.buffer() == buf,
            producer.name() == nm,
            producer.chunk_size() == c,
            producer.use_compression() == use_compression,
            producer.next_index() == events@.len(),
            producer.next_index() <= producer.frame_count(),
            blocks == chunk_count(buf.len(), c),
            total == buf.len(),
            0 < c <= MAX_PAYLOAD,
            nm.len() <= NAME_FIELD_MAX,
            buf.len() + LONG_HEADER_LEN + 4 * chunk_count(buf.len(), c) <= usize::MAX,
            transfer.wf(),
            transfer.dummy(),
            transfer.awaiting() is None,
            transfer.blocks_num() == blocks,
            transfer.total_bytes() == total,
            transfer.done_lens().len() == events@.len(),
            sum_lens(transfer.done_lens()) == frames_len(buf, nm, c, use_compression, events@.len() as nat),
            events@.len() == 0 ==> sum_lens(transfer.done_lens()) == 0,
            sum_lens(transfer.done_lens()) <= 13 + 4 * events@.len() + (if events@.len() * c <= buf.len() {
                events@.len() * c
            } else {
                buf.len() as nat
            }),
            forall|i: int|
                0 <= i < events@.len() ==> #[trigger] events@[i] == progress_at(buf, nm, c, use_compression, i as nat),
        ensures
            events@.len() == chunk_count(buf.len(), c),
            forall|i: int|
                0 <= i < events@.len() ==> #[trigger] events@[i] == progress_at(buf, nm, c, use_compression, i as nat),
        decreases producer.frame_count() - producer.next_index(),
    {
        let ghost i = events@.len() as nat;
        let ghost before = transfer.done_lens();
        match producer.next_frame() {
            Some(f) => {
                proof {
                    lemma_frame_len_bound(buf, nm, c, use_compression, i);
                    lemma_chunk_exists(buf.len(), c, i);
                    assert(i <= i * c) by (nonlinear_arith)
                        requires
                            c > 0,
                    ;
                    assert((i + 1) * c == i * c + c) by (nonlinear_arith);
                }
                match transfer.begin_frame(f.as_slice()) {
                    FrameStep::Acknowledged(p) => {
                        proof {
                            assert(transfer.done_lens().drop_last() =~= before);
                        }
                        events.push(p);
                    },
                    FrameStep::Send => {},
                }
            },
            None => {
                break;
            },
        }
    }
    events
}

} // verus!
