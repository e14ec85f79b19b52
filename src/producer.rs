use vstd::prelude::*;
use vstd::arithmetic::div_mod::{
    lemma_fundamental_div_mod, lemma_fundamental_div_mod_converse, lemma_mod_pos_bound,
};

use crate::compress::{compress_chunk, payload_for};
use crate::frame::{
    declared_len, encode_frame, flags_of, frame_bytes, header_len, lemma_declared_len, name_field,
    LONG_HEADER_LEN, MAX_PAYLOAD, SHORT_HEADER_LEN,
};
use crate::name::NAME_FIELD_MAX;

verus! {

/// Nominal chunk size of the protocol.
pub const CHUNK_SIZE: usize = 1024;

/// How many chunks a buffer of `len` bytes is cut into: `len / c` rounded up.
pub open spec fn chunk_count(len: nat, c: nat) -> nat {
    if c == 0 {
        0
    } else {
        ((len + c - 1) as int / c as int) as nat
    }
}

/// Chunk `i` of `buf`: the `c` bytes from offset `i * c`, or what is left of
/// the buffer when fewer remain.
pub open spec fn chunk_at(buf: Seq<u8>, c: nat, i: nat) -> Seq<u8> {
    let start = i * c;
    let end = if start + c <= buf.len() {
        start + c
    } else {
        buf.len() as nat
    };
    buf.subrange(start as int, end as int)
}

/// The sequence number of frame `i`: its index modulo 256.
pub open spec fn seq_at(i: nat) -> u8 {
    (i % 256) as u8
}

/// Frame `i` of a transfer: chunk `i` after the compression decision, framed
/// with its sequence number, and with the name field on the first frame only.
pub open spec fn frame_at(buf: Seq<u8>, name: Seq<u8>, c: nat, use_compression: bool, i: nat) -> Seq<u8> {
    let (payload, compressed) = payload_for(chunk_at(buf, c, i), c, use_compression);
    frame_bytes(seq_at(i), payload, compressed, if i == 0 {
        Some(name)
    } else {
        None
    })
}

/// Chunk `n` exists exactly when it starts inside the buffer.
pub proof fn lemma_chunk_exists(len: nat, c: nat, n: nat)
    requires
        c > 0,
    ensures
        n < chunk_count(len, c) <==> n * c < len,
{
    let x = (len + c - 1) as int;
    let q = x / (c as int);
    let r = x % (c as int);
    lemma_fundamental_div_mod(x, c as int);
    lemma_mod_pos_bound(x, c as int);
    if n < q {
        assert(n * c <= (q - 1) * c) by (nonlinear_arith)
            requires
                n <= q - 1,
                c > 0,
        ;
        assert((q - 1) * c == c * q - c) by (nonlinear_arith);
    } else {
        assert(n * c >= q * c) by (nonlinear_arith)
            requires
                n >= q,
                c > 0,
        ;
        assert(q * c == c * q) by (nonlinear_arith);
    }
}

proof fn lemma_chunk_count_div(len: nat, c: nat)
    requires
        c > 0,
    ensures
        chunk_count(len, c) == len / c + (if len % c == 0 {
            0int
        } else {
            1int
        }),
        len % c != 0 ==> len / c < len,
{
    let q = (len / c) as int;
    let r = (len % c) as int;
    lemma_fundamental_div_mod(len as int, c as int);
    lemma_mod_pos_bound(len as int, c as int);
    let x = (len + c - 1) as int;
    if r == 0 {
        assert(x == q * c + (c - 1)) by (nonlinear_arith)
            requires
                len == c * q + r,
                r == 0,
                x == len + c - 1,
        ;
        lemma_fundamental_div_mod_converse(x, c as int, q, c - 1);
    } else {
        assert(x == (q + 1) * c + (r - 1)) by (nonlinear_arith)
            requires
                len == c * q + r,
                x == len + c - 1,
        ;
        lemma_fundamental_div_mod_converse(x, c as int, q + 1, r - 1);
        assert(q < len) by (nonlinear_arith)
            requires
                len == c * q + r,
                r > 0,
                c > 0,
                q >= 0,
        ;
    }
}

/// Cutting a buffer into chunks of size `c` gives `len / c` rounded up chunks,
/// in order and without gaps: chunk `i` starts at `i * c`, every chunk but the
/// last has `c` bytes, the last has between 1 and `c`, and it ends where the
/// buffer ends.
pub proof fn lemma_chunking(buf: Seq<u8>, c: nat)
    requires
        c > 0,
    ensures
        chunk_count(buf.len(), c) * c < buf.len() + c,
        buf.len() <= chunk_count(buf.len(), c) * c,
        forall|i: nat|
            i < chunk_count(buf.len(), c) ==> {
                &&& 0 < #[trigger] chunk_at(buf, c, i).len() <= c
                &&& i * c + chunk_at(buf, c, i).len() <= buf.len()
                &&& chunk_at(buf, c, i) == buf.subrange(
                    (i * c) as int,
                    (i * c + chunk_at(buf, c, i).len()) as int,
                )
            },
        forall|i: nat| i + 1 < chunk_count(buf.len(), c) ==> #[trigger] chunk_at(buf, c, i).len() == c,
        chunk_count(buf.len(), c) > 0 ==> ((chunk_count(buf.len(), c) - 1) * c + chunk_at(
            buf,
            c,
            (chunk_count(buf.len(), c) - 1) as nat,
        ).len() == buf.len()),
{
    let n = chunk_count(buf.len(), c);
    lemma_chunk_exists(buf.len(), c, n);
    if n > 0 {
        lemma_chunk_exists(buf.len(), c, (n - 1) as nat);
        assert(((n - 1) as nat) * c + c == n * c) by (nonlinear_arith)
            requires
                n > 0,
        ;
    } else {
        assert(n * c == 0) by (nonlinear_arith)
            requires
                n == 0,
        ;
    }
    assert forall|i: nat| i < n implies {
        &&& 0 < #[trigger] chunk_at(buf, c, i).len() <= c
        &&& i * c + chunk_at(buf, c, i).len() <= buf.len()
        &&& chunk_at(buf, c, i) == buf.subrange(
            (i * c) as int,
            (i * c + chunk_at(buf, c, i).len()) as int,
        )
    } by {
        lemma_chunk_exists(buf.len(), c, i);
    }
    assert forall|i: nat| i + 1 < n implies #[trigger] chunk_at(buf, c, i).len() == c by {
        lemma_chunk_exists(buf.len(), c, i + 1);
        assert((i + 1) * c == i * c + c) by (nonlinear_arith);
    }
}

/// Frame `i` carries sequence number `i` modulo 256, so numbering starts at
/// 0 and goes up by one, wrapping, from each frame to the next; only the
/// first frame has the name flag; its flags give the compression decision
/// for its chunk; and its header declares exactly the length of the payload
/// that follows it, which is the compressed form when that was adopted.
pub proof fn lemma_frame_layout(buf: Seq<u8>, name: Seq<u8>, c: nat, use_compression: bool, i: nat)
    requires
        0 < c <= MAX_PAYLOAD,
        name.len() <= NAME_FIELD_MAX,
        i < chunk_count(buf.len(), c),
    ensures
        ({
            let f = frame_at(buf, name, c, use_compression, i);
            let (payload, compressed) = payload_for(chunk_at(buf, c, i), c, use_compression);
            let h = header_len(i == 0);
            &&& f[0] == i % 256
            &&& seq_at(0) == 0
            &&& seq_at(i + 1) == (seq_at(i) + 1) % 256
            &&& f[3] == flags_of(compressed, i == 0)
            &&& declared_len(f) == payload.len()
            &&& f.len() == h + payload.len()
            &&& f.subrange(h as int, f.len() as int) == payload
            &&& (i == 0 ==> f.subrange(SHORT_HEADER_LEN as int, h as int) == name_field(name))
        }),
{
    let chunk = chunk_at(buf, c, i);
    let (payload, compressed) = payload_for(chunk, c, use_compression);
    lemma_chunk_len_le(buf, c, i);
    let nm = if i == 0 {
        Some(name)
    } else {
        None
    };
    lemma_declared_len(seq_at(i), payload, compressed, nm);
    let f = frame_at(buf, name, c, use_compression, i);
    if i == 0 {
        assert(f.subrange(SHORT_HEADER_LEN as int, LONG_HEADER_LEN as int) =~= name_field(name));
    }
}

proof fn lemma_chunk_len_le(buf: Seq<u8>, c: nat, i: nat)
    requires
        c > 0,
        i < chunk_count(buf.len(), c),
    ensures
        chunk_at(buf, c, i).len() <= c,
{
    lemma_chunk_exists(buf.len(), c, i);
}

/// Cuts a buffer into chunks and turns each into its frame, in order. It is
/// the producer side of a transfer; frames are handed out one at a time.
pub struct FrameProducer {
    buffer: Vec<u8>,
    name: Vec<u8>,
    chunk_size: usize,
    use_compression: bool,
    next: usize,
    pos: usize,
    seq: u8,
}

impl FrameProducer {
    pub closed spec fn buffer(&self) -> Seq<u8> {
        self.buffer@
    }

    pub closed spec fn name(&self) -> Seq<u8> {
        self.name@
    }

    pub closed spec fn chunk_size(&self) -> nat {
        self.chunk_size as nat
    }

    pub closed spec fn use_compression(&self) -> bool {
        self.use_compression
    }

    /// Index of the next frame to hand out.
    pub closed spec fn next_index(&self) -> nat {
        self.next as nat
    }

    /// Number of frames that the whole transfer has.
    pub open spec fn frame_count(&self) -> nat {
        chunk_count(self.buffer().len(), self.chunk_size())
    }

    pub closed spec fn wf(&self) -> bool {
        &&& 0 < self.chunk_size <= MAX_PAYLOAD
        &&& self.name@.len() <= NAME_FIELD_MAX
        &&& self.next <= self.frame_count()
        &&& self.pos == if self.next * self.chunk_size <= self.buffer@.len() {
            self.next * self.chunk_size
        } else {
            self.buffer@.len() as int
        }
        &&& self.seq == seq_at(self.next as nat)
    }

    /// A producer for the frames of `buffer`, sent under the name field
    /// `name`, in chunks of `chunk_size` bytes.
    pub fn new(buffer: Vec<u8>, name: Vec<u8>, chunk_size: usize, use_compression: bool) -> (r: Self)
        requires
            0 < chunk_size <= MAX_PAYLOAD,
            name@.len() <= NAME_FIELD_MAX,
        ensures
            r.wf(),
            r.buffer() == buffer@,
            r.name() == name@,
            r.chunk_size() == chunk_size,
            r.use_compression() == use_compression,
            r.next_index() == 0,
    {
        FrameProducer { buffer, name, chunk_size, use_compression, next: 0, pos: 0, seq: 0 }
    }

    /// Number of frames that the whole transfer has.
    pub fn blocks_num(&self) -> (r: usize)
        requires
            self.wf(),
        ensures
            r == self.frame_count(),
    {
        proof {
            lemma_chunk_count_div(self.buffer@.len(), self.chunk_size as nat);
        }
        let len = self.buffer.len();
        let c = self.chunk_size;
        len / c + if len % c == 0 {
            0
        } else {
            1
        }
    }

    /// Hands out the next frame, or `None` once every chunk has been framed.
    pub fn next_frame(&mut self) -> (r: Option<Vec<u8>>)
        requires
            old(self).wf(),
        ensures
            final(self).wf(),
            final(self).buffer() == old(self).buffer(),
            final(self).name() == old(self).name(),
            final(self).chunk_size() == old(self).chunk_size(),
            final(self).use_compression() == old(self).use_compression(),
            old(self).next_index() < old(self).frame_count() ==> {
                &&& r matches Some(f) && f@ == frame_at(
                    old(self).buffer(),
                    old(self).name(),
                    old(self).chunk_size(),
                    old(self).use_compression(),
                    old(self).next_index(),
                )
                &&& final(self).next_index() == old(self).next_index() + 1
            },
            old(self).next_index() >= old(self).frame_count() ==> r is None && final(self).next_index()
                == old(self).next_index(),
    {
        let len = self.buffer.len();
        let c = self.chunk_size;
        proof {
            lemma_chunk_exists(len as nat, c as nat, self.next as nat);
        }
        if self.pos >= len {
            return None;
        }
        let start = self.pos;
        let end = if len - start > c {
            start + c
        } else {
            len
        };
        let chunk = &self.buffer.as_slice()[start..end];
        assert(chunk@ == chunk_at(self.buffer@, c as nat, self.next as nat));
        let (payload, compressed) = compress_chunk(chunk, c, self.use_compression);
        let frame = if self.next == 0 {
            encode_frame(self.seq, payload.as_slice(), compressed, Some(self.name.as_slice()))
        } else {
            encode_frame(self.seq, payload.as_slice(), compressed, None)
        };
        proof {
            assert(self.next <= self.next * c) by (nonlinear_arith)
                requires
                    c > 0,
            ;
            assert((self.next + 1) * c == self.next * c + c) by (nonlinear_arith);
            lemma_chunk_exists(len as nat, c as nat, (self.next + 1) as nat);
        }
        self.next = self.next + 1;
        self.pos = end;
        self.seq = if self.seq == 255 {
            0
        } else {
            self.seq + 1
        };
        Some(frame)
    }
}

} // verus!
