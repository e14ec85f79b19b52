use vstd::prelude::*;

use crate::bytes::append_bytes;
use crate::error::UploadError;
use crate::name::NAME_FIELD_MAX;

verus! {

/// Width of the header that every frame starts with.
pub const SHORT_HEADER_LEN: usize = 4;

/// Width of the first frame's header: the short header and the padded name.
pub const LONG_HEADER_LEN: usize = 17;

/// Flag bit: the payload is compressed.
pub const FLAGS_COMPRESSED: u8 = 1;

/// Flag bit: the frame carries the name field.
pub const FLAGS_LONG_HEADER: u8 = 2;

/// The largest payload that the two-byte length field can declare.
pub const MAX_PAYLOAD: usize = 65535;

pub open spec fn flags_of(compressed: bool, with_name: bool) -> u8 {
    ((if compressed {
        FLAGS_COMPRESSED
    } else {
        0u8
    }) + (if with_name {
        FLAGS_LONG_HEADER
    } else {
        0u8
    })) as u8
}

/// The short header: sequence, payload length little-endian, flags.
pub open spec fn header_bytes(seq: u8, len: nat, flags: u8) -> Seq<u8> {
    seq![seq, (len % 256) as u8, (len / 256) as u8, flags]
}

/// The name, zero-padded to fill the long header.
pub open spec fn name_field(name: Seq<u8>) -> Seq<u8> {
    name + Seq::new((LONG_HEADER_LEN - SHORT_HEADER_LEN - name.len()) as nat, |i: int| 0u8)
}

/// The bytes of a frame: header, then the name field when one is given, then
/// the payload.
pub open spec fn frame_bytes(seq: u8, payload: Seq<u8>, compressed: bool, name: Option<Seq<u8>>) -> Seq<u8> {
    header_bytes(seq, payload.len(), flags_of(compressed, name is Some)) + match name {
        Some(n) => name_field(n),
        None => Seq::empty(),
    } + payload
}

/// Width of everything before the payload.
pub open spec fn header_len(with_name: bool) -> nat {
    if with_name {
        LONG_HEADER_LEN as nat
    } else {
        SHORT_HEADER_LEN as nat
    }
}

/// The payload length that a frame's header declares.
pub open spec fn declared_len(frame: Seq<u8>) -> nat {
    frame[1] as nat + 256 * frame[2] as nat
}

pub open spec fn opt_view(name: Option<&[u8]>) -> Option<Seq<u8>> {
    match name {
        Some(n) => Some(n@),
        None => None,
    }
}

/// Encodes one frame. The name field is given for the first frame of a
/// transfer only.
pub fn encode_frame(seq: u8, payload: &[u8], compressed: bool, name: Option<&[u8]>) -> (r: Vec<u8>)
    requires
        payload@.len() <= MAX_PAYLOAD,
        name matches Some(n) ==> n@.len() <= NAME_FIELD_MAX,
    ensures
        r@ == frame_bytes(seq, payload@, compressed, opt_view(name)),
        r@.len() == header_len(name is Some) + payload@.len(),
        declared_len(r@) == payload@.len(),
{
    let len = payload.len();
    let mut flags: u8 = 0;
    if compressed {
        flags = flags + FLAGS_COMPRESSED;
    }
    if name.is_some() {
        flags = flags + FLAGS_LONG_HEADER;
    }
    let mut r: Vec<u8> = Vec::new();
    r.push(seq);
    r.push((len % 256) as u8);
    r.push((len / 256) as u8);
    r.push(flags);
    assert(r@ =~= header_bytes(seq, len as nat, flags_of(compressed, name is Some)));
    let ghost head = r@;
    match name {
        Some(n) => {
            append_bytes(&mut r, n);
            while r.len() < LONG_HEADER_LEN
                invariant
                    SHORT_HEADER_LEN + n@.len() <= r@.len() <= LONG_HEADER_LEN,
                    r@ == head + n@ + Seq::new((r@.len() - SHORT_HEADER_LEN - n@.len()) as nat, |i: int| 0u8),
                decreases LONG_HEADER_LEN - r@.len(),
            {
                r.push(0u8);
                assert(r@ =~= head + n@ + Seq::new((r@.len() - SHORT_HEADER_LEN - n@.len()) as nat, |i: int| 0u8));
            }
            assert(r@ =~= head + name_field(n@));
        },
        None => {
            assert(r@ =~= head + Seq::<u8>::empty());
        },
    }
    append_bytes(&mut r, payload);
    r
}

/// Width of the name buffer that starts a whole-file transfer.
pub const LEGACY_NAME_LEN: usize = 32;

/// A whole-file transfer for the simpler receiver: the name zero-padded to
/// `LEGACY_NAME_LEN` bytes, then the whole file, unframed.
pub open spec fn legacy_bytes(name: Seq<u8>, buffer: Seq<u8>) -> Seq<u8> {
    name + Seq::new((LEGACY_NAME_LEN - name.len()) as nat, |i: int| 0u8) + buffer
}

/// Encodes a whole-file transfer; refused when the name is wider than the
/// name buffer.
pub fn encode_legacy(name: &[u8], buffer: &[u8]) -> (r: Result<Vec<u8>, UploadError>)
    ensures
        name@.len() <= LEGACY_NAME_LEN <==> r is Ok,
        r matches Ok(b) ==> b@ == legacy_bytes(name@, buffer@),
        r matches Err(e) ==> e == UploadError::NameTooLong,
{
    if name.len() > LEGACY_NAME_LEN {
        return Err(UploadError::NameTooLong);
    }
    let mut r: Vec<u8> = Vec::new();
    append_bytes(&mut r, name);
    while r.len() < LEGACY_NAME_LEN
        invariant
            name@.len() <= r@.len() <= LEGACY_NAME_LEN,
            r@ == name@ + Seq::new((r@.len() - name@.len()) as nat, |i: int| 0u8),
        decreases LEGACY_NAME_LEN - r@.len(),
    {
        r.push(0u8);
        assert(r@ =~= name@ + Seq::new((r@.len() - name@.len()) as nat, |i: int| 0u8));
    }
    append_bytes(&mut r, buffer);
    Ok(r)
}

/// A frame built by `encode_frame` declares in its header exactly the length
/// of the payload it carries, and its length is the header's width plus that
/// payload's length.
pub proof fn lemma_declared_len(seq: u8, payload: Seq<u8>, compressed: bool, name: Option<Seq<u8>>)
    requires
        payload.len() <= MAX_PAYLOAD,
        name matches Some(n) ==> n.len() <= NAME_FIELD_MAX,
    ensures
        declared_len(frame_bytes(seq, payload, compressed, name)) == payload.len(),
        frame_bytes(seq, payload, compressed, name).len() == header_len(name is Some) + payload.len(),
        frame_bytes(seq, payload, compressed, name).subrange(
            header_len(name is Some) as int,
            frame_bytes(seq, payload, compressed, name).len() as int,
        ) == payload,
{
    let f = frame_bytes(seq, payload, compressed, name);
    let h = header_len(name is Some) as int;
    assert(f.subrange(h, f.len() as int) =~= payload);
}

} // verus!
