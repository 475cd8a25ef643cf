//! Splitting a reassembled stream frame into notify messages.
//!
//! A frame is `[u32 size][u16 type][payload]`, big-endian, the size counting
//! the whole frame. The top bit of the type marks a zstd-compressed body.
//! Type 2 (notify) carries `[u64 service][u32 stub][u32 method][message]`;
//! type 6 (frame-down) carries `[u32 server sequence][nested frames]`.

use vstd::prelude::*;
use crate::wire::{be_u16, be_u32, be_u64, read_be_u16, read_be_u32, read_be_u64};

verus! {

/// Largest frame accepted inside a frame buffer.
pub const MAX_FRAME: usize = 10485760;
/// Deepest nesting of frame-down containers that is unpacked: 2^64 - 1,
/// which no buffer reaches. While a container at some depth is unpacked,
/// the unpacked bytes of every container around it are held at once, and
/// each of them holds at least the ten bytes of the next container's header
/// and server sequence, so that depth would take more than 2^64 bytes.
pub const MAX_FRAME_NESTING: u64 = 18446744073709551615;

/// The bytes `zstd::decode_all` makes of `data`, or `None` where it fails.
pub uninterp spec fn zstd_decoded(data: Seq<u8>) -> Option<Seq<u8>>;

/// Calls `zstd::decode_all` on the bytes. Decompression is a function of the
/// input alone; the result is named, not described.
#[verifier::external_body]
fn zstd_decode(data: &[u8]) -> (r: Option<Vec<u8>>)
    ensures
        match zstd_decoded(data@) {
            Some(d) => r matches Some(v) && v@ == d,
            None => r is None,
        },
{
    zstd::decode_all(data).ok()
}

/// One notify message: the service it belongs to, the method and the
/// (decompressed) message bytes.
pub struct Notify {
    pub service_uuid: u64,
    pub method_id: u32,
    pub payload: Vec<u8>,
}

impl Notify {
    pub open spec fn view(&self) -> (u64, u32, Seq<u8>) {
        (self.service_uuid, self.method_id, self.payload@)
    }
}

/// The body of a frame, decompressed when the compression bit is set.
pub open spec fn frame_body(compressed: bool, body: Seq<u8>) -> Option<Seq<u8>> {
    if compressed { zstd_decoded(body) } else { Some(body) }
}

/// The notify messages found in `data` from `pos` on, in order. Reading stops
/// at a truncated frame or a size outside 6..=`MAX_FRAME`; frames of other
/// types, short notify or frame-down payloads and bodies that fail to
/// decompress are skipped; frame-down containers deeper than `depth` levels
/// are not unpacked.
pub open spec fn notifies_from(data: Seq<u8>, pos: int, depth: nat) -> Seq<(u64, u32, Seq<u8>)>
    decreases depth, data.len() - pos,
{
    if pos < 0 || pos + 6 > data.len() {
        Seq::empty()
    } else {
        let size = be_u32(data, pos) as int;
        if size < 6 || size > MAX_FRAME || pos + size > data.len() {
            Seq::empty()
        } else {
            let ptype = be_u16(data, pos + 4);
            let compressed = ptype & 0x8000 != 0;
            let kind = ptype & 0x7fff;
            let payload = data.subrange(pos + 6, pos + size);
            let rest = notifies_from(data, pos + size, depth);
            if kind == 2 {
                if payload.len() < 16 {
                    rest
                } else {
                    match frame_body(compressed, payload.subrange(16, payload.len() as int)) {
                        Some(body) => seq![(be_u64(payload, 0), be_u32(payload, 12), body)] + rest,
                        None => rest,
                    }
                }
            } else if kind == 6 {
                if payload.len() < 4 {
                    rest
                } else {
                    match frame_body(compressed, payload.subrange(4, payload.len() as int)) {
                        Some(inner) => if depth == 0 {
                            rest
                        } else {
                            notifies_from(inner, 0, (depth - 1) as nat) + rest
                        },
                        None => rest,
                    }
                }
            } else {
                rest
            }
        }
    }
}

/// Wrapping frames in one more uncompressed frame-down container takes one
/// level of nesting and changes nothing else: the container's notify
/// messages are those of the frames inside it.
pub proof fn lemma_frame_down_unwraps(data: Seq<u8>, inner: Seq<u8>, depth: nat)
    requires
        data.len() == inner.len() + 10,
        data.len() <= MAX_FRAME,
        be_u32(data, 0) == data.len(),
        be_u16(data, 4) == 6,
        data.subrange(10, data.len() as int) == inner,
    ensures
        notifies_from(data, 0, depth + 1) == notifies_from(inner, 0, depth),
{
    let ptype = be_u16(data, 4);
    assert(ptype & 0x8000 == 0 && ptype & 0x7fff == 6) by (bit_vector)
        requires ptype == 6u16;
    assert(data.subrange(6, data.len() as int).subrange(4, data.len() - 6) =~= inner);
    assert(notifies_from(data, data.len() as int, depth + 1) == Seq::<(u64, u32, Seq<u8>)>::empty());
    assert(notifies_from(inner, 0, depth) + Seq::<(u64, u32, Seq<u8>)>::empty() =~= notifies_from(inner, 0, depth));
}

/// The notify messages of `data` no longer change past `depth` levels of
/// unpacking: every frame-down container in it nests less deep.
pub open spec fn settled(data: Seq<u8>, depth: nat) -> bool {
    forall|e: nat| e >= depth ==> #[trigger] notifies_from(data, 0, e) == notifies_from(data, 0, depth)
}

/// Wrapping frames in one uncompressed frame-down container changes nothing
/// that `process_frame_buffer` reports, for any frames whose containers
/// nest less than `MAX_FRAME_NESTING - 1` deep.
pub proof fn lemma_frame_down_transparent(data: Seq<u8>, inner: Seq<u8>, depth: nat)
    requires
        data.len() == inner.len() + 10,
        data.len() <= MAX_FRAME,
        be_u32(data, 0) == data.len(),
        be_u16(data, 4) == 6,
        data.subrange(10, data.len() as int) == inner,
        settled(inner, depth),
        depth < MAX_FRAME_NESTING,
    ensures
        notifies_from(data, 0, MAX_FRAME_NESTING as nat) == notifies_from(inner, 0, MAX_FRAME_NESTING as nat),
{
    let top = (MAX_FRAME_NESTING - 1) as nat;
    lemma_frame_down_unwraps(data, inner, top);
    assert(notifies_from(inner, 0, top) == notifies_from(inner, 0, depth));
    assert(notifies_from(inner, 0, MAX_FRAME_NESTING as nat) == notifies_from(inner, 0, depth));
}

/// The contents of a list of notify messages.
pub open spec fn notifies_view(v: Seq<Notify>) -> Seq<(u64, u32, Seq<u8>)> {
    v.map_values(|n: Notify| n.view())
}

/// Decompresses `body` when the frame says it is compressed.
fn take_body(compressed: bool, body: &[u8]) -> (r: Option<Vec<u8>>)
    ensures
        match frame_body(compressed, body@) {
            Some(d) => r matches Some(v) && v@ == d,
            None => r is None,
        },
{
    if compressed {
        zstd_decode(body)
    } else {
        Some(vstd::slice::slice_to_vec(body))
    }
}

/// Appends the notify messages of `data` to `out`, unpacking frame-down
/// containers up to `depth` levels deep.
fn collect_notifies(data: &[u8], depth: u64, out: &mut Vec<Notify>)
    ensures
        notifies_view(final(out)@) == notifies_view(old(out)@) + notifies_from(data@, 0, depth as nat),
    decreases depth,
{
    let len = data.len();
    let mut pos: usize = 0;
    let ghost total = notifies_view(out@) + notifies_from(data@, 0, depth as nat);
    loop
        invariant
            pos <= len,
            len == data@.len(),
            total == notifies_view(old(out)@) + notifies_from(data@, 0, depth as nat),
            notifies_view(out@) + notifies_from(data@, pos as int, depth as nat) == total,
        decreases len - pos,
    {
        if len - pos < 6 {
            assert(notifies_view(out@) + Seq::<(u64, u32, Seq<u8>)>::empty() =~= notifies_view(out@));
            return;
        }
        let size = read_be_u32(data, pos) as usize;
        if size < 6 || size > MAX_FRAME || len - pos < size {
            assert(notifies_view(out@) + Seq::<(u64, u32, Seq<u8>)>::empty() =~= notifies_view(out@));
            return;
        }
        let ptype = read_be_u16(data, pos + 4);
        let compressed = ptype & 0x8000 != 0;
        let kind = ptype & 0x7fff;
        let payload = vstd::slice::slice_subrange(data, pos + 6, pos + size);
        let ghost rest = notifies_from(data@, (pos + size) as int, depth as nat);
        let ghost before = notifies_view(out@);
        assert(payload@ =~= data@.subrange(pos + 6, pos + size));
        if kind == 2 {
            if payload.len() >= 16 {
                let body = vstd::slice::slice_subrange(payload, 16, payload.len());
                if let Some(message) = take_body(compressed, body) {
                    let service_uuid = read_be_u64(payload, 0);
                    let method_id = read_be_u32(payload, 12);
                    let n = Notify { service_uuid, method_id, payload: message };
                    out.push(n);
                    assert(notifies_view(out@) =~= before.push(n.view()));
                    assert(before.push(n.view()) + rest =~= before + (seq![n.view()] + rest));
                }
            }
        } else if kind == 6 {
            if payload.len() >= 4 {
                let nested = vstd::slice::slice_subrange(payload, 4, payload.len());
                if let Some(inner) = take_body(compressed, nested) {
                    if depth > 0 {
                        collect_notifies(inner.as_slice(), depth - 1, out);
                        assert((before + notifies_from(inner@, 0, (depth - 1) as nat)) + rest
                            =~= before + (notifies_from(inner@, 0, (depth - 1) as nat) + rest));
                    }
                }
            }
        }
        pos = pos + size;
    }
}

/// The notify messages carried by a buffer of frames, in order, with
/// frame-down containers unpacked, however deep they nest (see
/// `MAX_FRAME_NESTING`).
pub fn process_frame_buffer(data: &[u8]) -> (r: Vec<Notify>)
    ensures
        notifies_view(r@) == notifies_from(data@, 0, MAX_FRAME_NESTING as nat),
{
    let mut out: Vec<Notify> = Vec::new();
    collect_notifies(data, MAX_FRAME_NESTING, &mut out);
    assert(notifies_view(Seq::<Notify>::empty()) =~= Seq::<(u64, u32, Seq<u8>)>::empty());
    assert(Seq::<(u64, u32, Seq<u8>)>::empty() + notifies_from(data@, 0, MAX_FRAME_NESTING as nat)
        =~= notifies_from(data@, 0, MAX_FRAME_NESTING as nat));
    out
}

} // verus!
