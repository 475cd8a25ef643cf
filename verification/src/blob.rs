//! The diff-encoded "blob" container format carried by dungeon dirty-data
//! notifications.
//!
//! A container is `i32 tag (-2)`, `i32 size` (-3 = empty), then repeated
//! `i32 field_index` + field payload until a non-positive index. An
//! unrecognised field index has unknown length, so reading jumps to the end
//! of the container (`start + size`) and stops there. In stream-safe mode
//! every read value is followed by four padding bytes.

use vstd::prelude::*;
use crate::wire::{le_u32, read_le_u32};

verus! {

// ── Reading model ────────────────────────────────────────────────────────────

/// Positions never exceed `usize::MAX`: a jump past it stays at the end.
pub open spec fn sat(p: int) -> int {
    if p > usize::MAX as int { usize::MAX as int } else { p }
}

/// Distance moved after consuming `n` payload bytes.
pub open spec fn advance_by(safe: bool, n: int) -> int {
    if safe { n + 4 } else { n }
}

/// Reads one little-endian `i32` at `pos`: the value and the next position.
pub open spec fn blob_i32(buf: Seq<u8>, safe: bool, pos: int) -> Option<(i32, int)> {
    if 0 <= pos && pos + 4 <= buf.len() && buf.len() <= usize::MAX {
        Some((le_u32(buf, pos) as i32, sat(pos + advance_by(safe, 4))))
    } else {
        None
    }
}

/// Remaining room before `pos` runs off the buffer; used as a termination measure.
pub open spec fn room(buf: Seq<u8>, pos: int) -> nat {
    if 0 <= pos <= buf.len() { (buf.len() + 8 - pos) as nat } else { 0 }
}

/// Container header at `pos`: `Some((start, size))` when the tag is -2 and the
/// size is a usable non-negative value; otherwise the position reading stopped at.
pub open spec fn blob_header(buf: Seq<u8>, safe: bool, pos: int) -> (Option<(int, int)>, int) {
    match blob_i32(buf, safe, pos) {
        None => (None, pos),
        Some((tag, p1)) => if tag != -2 {
            (None, p1)
        } else {
            match blob_i32(buf, safe, p1) {
                None => (None, p1),
                Some((size, p2)) => if size == -3 || size < 0 {
                    (None, p2)
                } else {
                    (Some((p2, size as int)), p2)
                },
            }
        },
    }
}

/// Text payload: `i32` byte length then the bytes, decoded lossily.
pub open spec fn blob_string(buf: Seq<u8>, safe: bool, pos: int) -> (Option<Seq<char>>, int) {
    match blob_i32(buf, safe, pos) {
        None => (None, pos),
        Some((n, p)) => if n >= 0 && p + n <= buf.len() {
            (Some(crate::wire::utf8_lossy(buf.subrange(p, p + n))), sat(p + advance_by(safe, n as int)))
        } else {
            (None, p)
        },
    }
}

/// One objective's progress inside a dungeon target map.
#[derive(Clone, Copy, PartialEq, Eq, Debug)]
pub struct DungeonTargetData {
    pub target_id: i32,
    pub nums: i32,
    pub complete: i32,
}

impl DungeonTargetData {
    pub open spec fn zero() -> DungeonTargetData {
        DungeonTargetData { target_id: 0, nums: 0, complete: 0 }
    }

    pub open spec fn with_field(self, index: i32, v: i32) -> DungeonTargetData {
        if index == 1 {
            DungeonTargetData { target_id: v, ..self }
        } else if index == 2 {
            DungeonTargetData { nums: v, ..self }
        } else {
            DungeonTargetData { complete: v, ..self }
        }
    }
}

/// Fields 1..3 of a target-data container (`target_id`, `nums`, `complete`);
/// a field whose value cannot be read counts as 0.
pub open spec fn target_fields(
    buf: Seq<u8>,
    safe: bool,
    end: int,
    pos: int,
    acc: DungeonTargetData,
) -> (DungeonTargetData, int)
    decreases room(buf, pos),
{
    match blob_i32(buf, safe, pos) {
        None => (acc, pos),
        Some((index, p1)) => if index <= 0 {
            (acc, p1)
        } else if index <= 3 {
            let (v, p2) = match blob_i32(buf, safe, p1) {
                Some((v, p2)) => (v, p2),
                None => (0i32, p1),
            };
            target_fields(buf, safe, end, p2, acc.with_field(index, v))
        } else {
            (acc, end)
        },
    }
}

/// A whole target-data container.
pub open spec fn target_read(buf: Seq<u8>, safe: bool, pos: int) -> (DungeonTargetData, int) {
    match blob_header(buf, safe, pos) {
        (Some((start, size)), _) => target_fields(buf, safe, sat(start + size), start, DungeonTargetData::zero()),
        (None, p) => (DungeonTargetData::zero(), p),
    }
}

/// `count` keyed entries `(i32 key, target container)`; the flag is false when
/// a key could not be read.
pub open spec fn target_entries(
    buf: Seq<u8>,
    safe: bool,
    pos: int,
    count: int,
    acc: Seq<(i32, DungeonTargetData)>,
) -> (Seq<(i32, DungeonTargetData)>, int, bool)
    decreases count,
{
    if count <= 0 {
        (acc, pos, true)
    } else {
        match blob_i32(buf, safe, pos) {
            None => (acc, pos, false),
            Some((key, p1)) => {
                let (v, p2) = target_read(buf, safe, p1);
                target_entries(buf, safe, p2, count - 1, acc.push((key, v)))
            },
        }
    }
}

/// `count` removed keys, which carry no value.
pub open spec fn skip_keys(buf: Seq<u8>, safe: bool, pos: int, count: int) -> (int, bool)
    decreases count,
{
    if count <= 0 {
        (pos, true)
    } else {
        match blob_i32(buf, safe, pos) {
            None => (pos, false),
            Some((_, p1)) => skip_keys(buf, safe, p1, count - 1),
        }
    }
}

/// A diff-encoded map of target data: `add` (or -1 then the real `add`, or -4
/// for empty), `remove`, `update` counts, then the added entries, the removed
/// keys and the updated entries. Added and updated entries are returned in order.
pub open spec fn target_map(buf: Seq<u8>, safe: bool, pos: int) -> (Seq<(i32, DungeonTargetData)>, int) {
    match blob_i32(buf, safe, pos) {
        None => (Seq::empty(), pos),
        Some((add, p1)) => if add == -4 {
            (Seq::empty(), p1)
        } else if add == -1 {
            match blob_i32(buf, safe, p1) {
                None => (Seq::empty(), p1),
                Some((real_add, p2)) => {
                    let (s1, q1, _) = target_entries(buf, safe, p2, real_add as int, Seq::empty());
                    (s1, q1)
                },
            }
        } else {
            match blob_i32(buf, safe, p1) {
                None => (Seq::empty(), p1),
                Some((remove, p2)) => match blob_i32(buf, safe, p2) {
                    None => (Seq::empty(), p2),
                    Some((update, p3)) => {
                        let (s1, q1, ok1) = target_entries(buf, safe, p3, add as int, Seq::empty());
                        if !ok1 {
                            (s1, q1)
                        } else {
                            let (q2, ok2) = skip_keys(buf, safe, q1, remove as int);
                            if !ok2 {
                                (s1, q2)
                            } else {
                                let (s3, q3, _) = target_entries(buf, safe, q2, update as int, s1);
                                (s3, q3)
                            }
                        }
                    },
                },
            }
        },
    }
}


/// Field 1 of a flow-info container is the dungeon state; a failed read of it
/// leaves no state.
pub open spec fn flow_fields(buf: Seq<u8>, safe: bool, end: int, pos: int, state: Option<i32>) -> (Option<i32>, int)
    decreases room(buf, pos),
{
    match blob_i32(buf, safe, pos) {
        None => (state, pos),
        Some((index, p1)) => if index <= 0 {
            (state, p1)
        } else if index == 1 {
            match blob_i32(buf, safe, p1) {
                Some((v, p2)) => flow_fields(buf, safe, end, p2, Some(v)),
                None => flow_fields(buf, safe, end, p1, None),
            }
        } else {
            (state, end)
        },
    }
}

/// A whole flow-info container; `None` unless its state field was read.
pub open spec fn flow_read(buf: Seq<u8>, safe: bool, pos: int) -> (Option<i32>, int) {
    match blob_header(buf, safe, pos) {
        (Some((start, size)), _) => flow_fields(buf, safe, sat(start + size), start, None),
        (None, p) => (None, p),
    }
}

/// A container none of whose fields is wanted: the first field jumps to its end.
pub open spec fn skip_read(buf: Seq<u8>, safe: bool, pos: int) -> int {
    match blob_header(buf, safe, pos) {
        (Some((start, size)), _) => match blob_i32(buf, safe, start) {
            None => start,
            Some((index, p1)) => if index <= 0 { p1 } else { sat(start + size) },
        },
        (None, p) => p,
    }
}

/// Field 1 of a target container is the target-data map.
pub open spec fn target_container_fields(
    buf: Seq<u8>,
    safe: bool,
    end: int,
    pos: int,
    targets: Seq<(i32, DungeonTargetData)>,
) -> (Seq<(i32, DungeonTargetData)>, int)
    decreases room(buf, pos),
{
    match blob_i32(buf, safe, pos) {
        None => (targets, pos),
        Some((index, p1)) => if index <= 0 {
            (targets, p1)
        } else if index == 1 {
            let (t, p2) = target_map(buf, safe, p1);
            proof { lemma_target_map_mono(buf, safe, p1); }
            target_container_fields(buf, safe, end, p2, t)
        } else {
            (targets, end)
        },
    }
}

/// A whole target container; empty unless its map field was read.
pub open spec fn target_container_read(buf: Seq<u8>, safe: bool, pos: int) -> (Seq<(i32, DungeonTargetData)>, int) {
    match blob_header(buf, safe, pos) {
        (Some((start, size)), _) => target_container_fields(buf, safe, sat(start + size), start, Seq::empty()),
        (None, p) => (Seq::empty(), p),
    }
}


/// Fields of the top-level dungeon dirty-data container: 1 scene uuid (an
/// `i32` that must be readable), 2 flow info, 3 title (skipped whole),
/// 4 target. Returns the last flow state and target list seen.
pub open spec fn dirty_fields(
    buf: Seq<u8>,
    safe: bool,
    end: int,
    pos: int,
    state: Option<i32>,
    targets: Seq<(i32, DungeonTargetData)>,
) -> (Option<i32>, Seq<(i32, DungeonTargetData)>, int)
    decreases room(buf, pos),
{
    match blob_i32(buf, safe, pos) {
        None => (state, targets, pos),
        Some((index, p1)) => if index <= 0 {
            (state, targets, p1)
        } else if index == 1 {
            match blob_i32(buf, safe, p1) {
                Some((_, p2)) => dirty_fields(buf, safe, end, p2, state, targets),
                None => (state, targets, end),
            }
        } else if index == 2 {
            let (st, p2) = flow_read(buf, safe, p1);
            proof { lemma_containers_mono(buf, safe, p1); }
            dirty_fields(buf, safe, end, p2, st, targets)
        } else if index == 3 {
            let p2 = skip_read(buf, safe, p1);
            proof { lemma_containers_mono(buf, safe, p1); }
            dirty_fields(buf, safe, end, p2, state, targets)
        } else if index == 4 {
            let (t, p2) = target_container_read(buf, safe, p1);
            proof { lemma_containers_mono(buf, safe, p1); }
            dirty_fields(buf, safe, end, p2, state, t)
        } else {
            (state, targets, end)
        },
    }
}

/// What parsing a whole dungeon dirty-data buffer yields: the dungeon state
/// and the target progress entries.
pub open spec fn dirty_parse(buf: Seq<u8>, safe: bool) -> (Option<i32>, Seq<(i32, DungeonTargetData)>) {
    match blob_header(buf, safe, 0) {
        (Some((start, size)), _) => {
            let (st, t, _) = dirty_fields(buf, safe, sat(start + size), start, None, Seq::empty());
            (st, t)
        },
        (None, _) => (None, Seq::empty()),
    }
}

// ── Monotonicity: reading never moves backwards ─────────────────────────────

pub proof fn lemma_i32_advances(buf: Seq<u8>, safe: bool, pos: int)
    ensures
        blob_i32(buf, safe, pos) matches Some((_, p)) ==> pos + 4 <= p <= usize::MAX && room(buf, p) < room(buf, pos),
{
}

pub proof fn lemma_header_advances(buf: Seq<u8>, safe: bool, pos: int)
    ensures
        blob_header(buf, safe, pos).1 >= pos,
        blob_header(buf, safe, pos).0 matches Some((start, size)) ==> start == blob_header(buf, safe, pos).1 && size >= 0 && start <= usize::MAX,
{
}

pub proof fn lemma_target_fields_mono(buf: Seq<u8>, safe: bool, end: int, pos: int, acc: DungeonTargetData)
    ensures
        target_fields(buf, safe, end, pos, acc).1 >= if pos < end { pos } else { end },
    decreases room(buf, pos),
{
    match blob_i32(buf, safe, pos) {
        None => {},
        Some((index, p1)) => if index > 0 && index <= 3 {
            let (v, p2) = match blob_i32(buf, safe, p1) {
                Some((v, p2)) => (v, p2),
                None => (0i32, p1),
            };
            lemma_target_fields_mono(buf, safe, end, p2, acc.with_field(index, v));
        },
    }
}

pub proof fn lemma_target_read_mono(buf: Seq<u8>, safe: bool, pos: int)
    ensures
        target_read(buf, safe, pos).1 >= pos,
{
    match blob_header(buf, safe, pos) {
        (Some((start, size)), _) => {
            lemma_header_advances(buf, safe, pos);
            lemma_target_fields_mono(buf, safe, sat(start + size), start, DungeonTargetData::zero());
        },
        (None, p) => {
            lemma_header_advances(buf, safe, pos);
        },
    }
}

pub proof fn lemma_target_entries_mono(buf: Seq<u8>, safe: bool, pos: int, count: int, acc: Seq<(i32, DungeonTargetData)>)
    ensures
        target_entries(buf, safe, pos, count, acc).1 >= pos,
    decreases count,
{
    if count > 0 {
        match blob_i32(buf, safe, pos) {
            None => {},
            Some((key, p1)) => {
                lemma_target_read_mono(buf, safe, p1);
                let (v, p2) = target_read(buf, safe, p1);
                lemma_target_entries_mono(buf, safe, p2, count - 1, acc.push((key, v)));
            },
        }
    }
}

pub proof fn lemma_skip_keys_mono(buf: Seq<u8>, safe: bool, pos: int, count: int)
    ensures
        skip_keys(buf, safe, pos, count).0 >= pos,
    decreases count,
{
    if count > 0 {
        match blob_i32(buf, safe, pos) {
            None => {},
            Some((_, p1)) => lemma_skip_keys_mono(buf, safe, p1, count - 1),
        }
    }
}

pub proof fn lemma_target_map_mono(buf: Seq<u8>, safe: bool, pos: int)
    ensures
        target_map(buf, safe, pos).1 >= pos,
{
    match blob_i32(buf, safe, pos) {
        None => {},
        Some((add, p1)) => if add == -4 {
        } else if add == -1 {
            match blob_i32(buf, safe, p1) {
                None => {},
                Some((real_add, p2)) => lemma_target_entries_mono(buf, safe, p2, real_add as int, Seq::empty()),
            }
        } else {
            match blob_i32(buf, safe, p1) {
                None => {},
                Some((remove, p2)) => match blob_i32(buf, safe, p2) {
                    None => {},
                    Some((update, p3)) => {
                        lemma_target_entries_mono(buf, safe, p3, add as int, Seq::empty());
                        let (s1, q1, ok1) = target_entries(buf, safe, p3, add as int, Seq::empty());
                        lemma_skip_keys_mono(buf, safe, q1, remove as int);
                        let (q2, ok2) = skip_keys(buf, safe, q1, remove as int);
                        lemma_target_entries_mono(buf, safe, q2, update as int, s1);
                    },
                },
            }
        },
    }
}

pub proof fn lemma_flow_fields_mono(buf: Seq<u8>, safe: bool, end: int, pos: int, state: Option<i32>)
    ensures
        flow_fields(buf, safe, end, pos, state).1 >= if pos < end { pos } else { end },
    decreases room(buf, pos),
{
    match blob_i32(buf, safe, pos) {
        None => {},
        Some((index, p1)) => if index == 1 {
            match blob_i32(buf, safe, p1) {
                Some((v, p2)) => lemma_flow_fields_mono(buf, safe, end, p2, Some(v)),
                None => lemma_flow_fields_mono(buf, safe, end, p1, None),
            }
        },
    }
}

pub proof fn lemma_target_container_fields_mono(
    buf: Seq<u8>,
    safe: bool,
    end: int,
    pos: int,
    targets: Seq<(i32, DungeonTargetData)>,
)
    ensures
        target_container_fields(buf, safe, end, pos, targets).1 >= if pos < end { pos } else { end },
    decreases room(buf, pos),
{
    match blob_i32(buf, safe, pos) {
        None => {},
        Some((index, p1)) => if index == 1 {
            lemma_target_map_mono(buf, safe, p1);
            let (t, p2) = target_map(buf, safe, p1);
            lemma_target_container_fields_mono(buf, safe, end, p2, t);
        },
    }
}

pub proof fn lemma_containers_mono(buf: Seq<u8>, safe: bool, pos: int)
    ensures
        flow_read(buf, safe, pos).1 >= pos,
        skip_read(buf, safe, pos) >= pos,
        target_container_read(buf, safe, pos).1 >= pos,
{
    lemma_header_advances(buf, safe, pos);
    match blob_header(buf, safe, pos) {
        (Some((start, size)), _) => {
            lemma_flow_fields_mono(buf, safe, sat(start + size), start, None);
            lemma_target_container_fields_mono(buf, safe, sat(start + size), start, Seq::empty());
        },
        (None, _) => {},
    }
}


// ── Reader ──────────────────────────────────────────────────────────────────

/// Cursor over a blob buffer.
pub struct BlobReader<'a> {
    buf: &'a [u8],
    pos: usize,
    stream_safe: bool,
}

impl<'a> BlobReader<'a> {
    /// The bytes being read.
    pub closed spec fn bytes(&self) -> Seq<u8> {
        self.buf@
    }

    /// The current read position.
    pub closed spec fn position(&self) -> int {
        self.pos as int
    }

    /// Whether every value is followed by four padding bytes.
    pub closed spec fn is_stream_safe(&self) -> bool {
        self.stream_safe
    }

    pub fn new(buf: &'a [u8], stream_safe: bool) -> (r: Self)
        ensures
            r.bytes() == buf@,
            r.position() == 0,
            r.is_stream_safe() == stream_safe,
    {
        BlobReader { buf, pos: 0, stream_safe }
    }

    /// Moves past `n` payload bytes (and the padding, in stream-safe mode).
    fn advance(&mut self, n: usize)
        ensures
            final(self).position() == sat(old(self).position() + advance_by(old(self).is_stream_safe(), n as int)),
            final(self).bytes() == old(self).bytes(),
            final(self).is_stream_safe() == old(self).is_stream_safe(),
    {
        let step = if self.stream_safe { n.saturating_add(4) } else { n };
        self.pos = self.pos.saturating_add(step);
    }

    /// Reads a little-endian `i32`; on a short buffer nothing moves.
    pub fn read_i32(&mut self) -> (r: Option<i32>)
        ensures
            final(self).bytes() == old(self).bytes(),
            final(self).is_stream_safe() == old(self).is_stream_safe(),
            match blob_i32(old(self).bytes(), old(self).is_stream_safe(), old(self).position()) {
                Some((v, p)) => r == Some(v) && final(self).position() == p,
                None => r is None && final(self).position() == old(self).position(),
            },
    {
        let len = self.buf.len();
        if self.pos > len || len - self.pos < 4 {
            return None;
        }
        let v = read_le_u32(self.buf, self.pos) as i32;
        self.advance(4);
        Some(v)
    }

    /// Reads an `i32` byte length and that many bytes as (lossily decoded) text.
    pub fn read_string(&mut self) -> (r: Option<String>)
        ensures
            final(self).bytes() == old(self).bytes(),
            final(self).is_stream_safe() == old(self).is_stream_safe(),
            ({
                let (text, p) = blob_string(old(self).bytes(), old(self).is_stream_safe(), old(self).position());
                &&& final(self).position() == p
                &&& match text {
                    Some(t) => r matches Some(s) && s@ == t,
                    None => r is None,
                }
            }),
    {
        let n = match self.read_i32() {
            Some(n) => n,
            None => return None,
        };
        let len = self.buf.len();
        if n < 0 || self.pos > len || ((len - self.pos) as u64) < (n as u64) {
            return None;
        }
        let count = n as usize;
        let bytes = vstd::slice::slice_subrange(self.buf, self.pos, self.pos + count);
        let text = crate::wire::lossy_string(bytes);
        self.advance(count);
        Some(text)
    }

    /// Jumps to the end of the current container.
    fn jump_to(&mut self, end: usize)
        ensures
            final(self).position() == end,
            final(self).bytes() == old(self).bytes(),
            final(self).is_stream_safe() == old(self).is_stream_safe(),
    {
        self.pos = end;
    }

    /// Reads `count` keyed target-data entries onto `out`; false when a key
    /// could not be read.
    fn read_entries(&mut self, count: i32, out: &mut Vec<(i32, DungeonTargetData)>) -> (ok: bool)
        ensures
            final(self).bytes() == old(self).bytes(),
            final(self).is_stream_safe() == old(self).is_stream_safe(),
            (final(out)@, final(self).position(), ok)
                == target_entries(old(self).bytes(), old(self).is_stream_safe(), old(self).position(), count as int, old(out)@),
    {
        let ghost buf = self.bytes();
        let ghost safe = self.is_stream_safe();
        let ghost total = target_entries(buf, safe, self.position(), count as int, out@);
        let mut i: i32 = 0;
        while i < count
            invariant
                0 <= i,
                count <= 0 ==> i == 0,
                count > 0 ==> i <= count,
                self.bytes() == buf,
                self.is_stream_safe() == safe,
                buf == old(self).bytes(),
                safe == old(self).is_stream_safe(),
                total == target_entries(buf, safe, old(self).position(), count as int, old(out)@),
                target_entries(buf, safe, self.position(), count - i, out@) == total,
            decreases count - i,
        {
            let key = match self.read_i32() {
                Some(k) => k,
                None => return false,
            };
            let v = DungeonTargetData::read(self);
            out.push((key, v));
            i = i + 1;
        }
        true
    }

    /// Skips `count` removed keys; false when one could not be read.
    fn skip_keys(&mut self, count: i32) -> (ok: bool)
        ensures
            final(self).bytes() == old(self).bytes(),
            final(self).is_stream_safe() == old(self).is_stream_safe(),
            (final(self).position(), ok) == skip_keys(old(self).bytes(), old(self).is_stream_safe(), old(self).position(), count as int),
    {
        let ghost buf = self.bytes();
        let ghost safe = self.is_stream_safe();
        let ghost total = skip_keys(buf, safe, self.position(), count as int);
        let mut i: i32 = 0;
        while i < count
            invariant
                0 <= i,
                count <= 0 ==> i == 0,
                count > 0 ==> i <= count,
                self.bytes() == buf,
                self.is_stream_safe() == safe,
                buf == old(self).bytes(),
                safe == old(self).is_stream_safe(),
                total == skip_keys(buf, safe, old(self).position(), count as int),
                skip_keys(buf, safe, self.position(), count - i) == total,
            decreases count - i,
        {
            if self.read_i32().is_none() {
                return false;
            }
            i = i + 1;
        }
        true
    }

    /// Reads a diff-encoded target-data map: the added and updated entries.
    pub fn read_target_data_map(&mut self) -> (r: Vec<(i32, DungeonTargetData)>)
        ensures
            final(self).bytes() == old(self).bytes(),
            final(self).is_stream_safe() == old(self).is_stream_safe(),
            (r@, final(self).position()) == target_map(old(self).bytes(), old(self).is_stream_safe(), old(self).position()),
    {
        let mut out: Vec<(i32, DungeonTargetData)> = Vec::new();
        let add = match self.read_i32() {
            Some(a) => a,
            None => return out,
        };
        if add == -4 {
            return out;
        }
        if add == -1 {
            let real_add = match self.read_i32() {
                Some(a) => a,
                None => return out,
            };
            self.read_entries(real_add, &mut out);
            return out;
        }
        let remove = match self.read_i32() {
            Some(r) => r,
            None => return out,
        };
        let update = match self.read_i32() {
            Some(u) => u,
            None => return out,
        };
        if !self.read_entries(add, &mut out) {
            return out;
        }
        if !self.skip_keys(remove) {
            return out;
        }
        self.read_entries(update, &mut out);
        out
    }

    /// Reads a flow-info container: its state field, if read.
    fn read_flow_state(&mut self) -> (r: Option<i32>)
        ensures
            final(self).bytes() == old(self).bytes(),
            final(self).is_stream_safe() == old(self).is_stream_safe(),
            (r, final(self).position()) == flow_read(old(self).bytes(), old(self).is_stream_safe(), old(self).position()),
    {
        let ghost buf = self.bytes();
        let ghost safe = self.is_stream_safe();
        let (start, size) = match self.container_header() {
            Some(h) => h,
            None => return None,
        };
        let end = start.saturating_add(size);
        let mut state: Option<i32> = None;
        let ghost total = flow_fields(buf, safe, end as int, start as int, None);
        loop
            invariant
                self.bytes() == buf,
                self.is_stream_safe() == safe,
                buf == old(self).bytes(),
                safe == old(self).is_stream_safe(),
                buf.len() <= usize::MAX,
                total == flow_read(buf, safe, old(self).position()),
                flow_fields(buf, safe, end as int, self.position(), state) == total,
            decreases room(buf, self.position()),
        {
            proof { lemma_i32_advances(buf, safe, self.position()); }
            let index = match self.read_i32() {
                Some(i) => i,
                None => return state,
            };
            if index <= 0 {
                return state;
            }
            if index == 1 {
                proof { lemma_i32_advances(buf, safe, self.position()); }
                state = self.read_i32();
            } else {
                self.jump_to(end);
                return state;
            }
        }
    }

    /// Skips a container whose fields are not wanted.
    fn skip_container(&mut self)
        ensures
            final(self).bytes() == old(self).bytes(),
            final(self).is_stream_safe() == old(self).is_stream_safe(),
            final(self).position() == skip_read(old(self).bytes(), old(self).is_stream_safe(), old(self).position()),
    {
        let (start, size) = match self.container_header() {
            Some(h) => h,
            None => return,
        };
        let end = start.saturating_add(size);
        let index = match self.read_i32() {
            Some(i) => i,
            None => return,
        };
        if index > 0 {
            self.jump_to(end);
        }
    }

    /// Reads a target container: its target-data map, if read.
    fn read_target_container(&mut self) -> (r: Vec<(i32, DungeonTargetData)>)
        ensures
            final(self).bytes() == old(self).bytes(),
            final(self).is_stream_safe() == old(self).is_stream_safe(),
            (r@, final(self).position()) == target_container_read(old(self).bytes(), old(self).is_stream_safe(), old(self).position()),
    {
        let ghost buf = self.bytes();
        let ghost safe = self.is_stream_safe();
        let mut targets: Vec<(i32, DungeonTargetData)> = Vec::new();
        let (start, size) = match self.container_header() {
            Some(h) => h,
            None => return targets,
        };
        let end = start.saturating_add(size);
        let ghost total = target_container_fields(buf, safe, end as int, start as int, Seq::empty());
        loop
            invariant
                self.bytes() == buf,
                self.is_stream_safe() == safe,
                buf == old(self).bytes(),
                safe == old(self).is_stream_safe(),
                buf.len() <= usize::MAX,
                total == target_container_read(buf, safe, old(self).position()),
                target_container_fields(buf, safe, end as int, self.position(), targets@) == total,
            decreases room(buf, self.position()),
        {
            proof { lemma_i32_advances(buf, safe, self.position()); }
            let index = match self.read_i32() {
                Some(i) => i,
                None => return targets,
            };
            if index <= 0 {
                return targets;
            }
            if index == 1 {
                proof { lemma_target_map_mono(buf, safe, self.position()); }
                targets = self.read_target_data_map();
            } else {
                self.jump_to(end);
                return targets;
            }
        }
    }

    /// Reads the top-level dungeon dirty-data container.
    fn read_dirty(&mut self) -> (r: DungeonDirtyData)
        ensures
            final(self).bytes() == old(self).bytes(),
            final(self).is_stream_safe() == old(self).is_stream_safe(),
            ({
                let (h, p) = blob_header(old(self).bytes(), old(self).is_stream_safe(), old(self).position());
                match h {
                    Some((start, size)) => {
                        let (st, t, q) = dirty_fields(old(self).bytes(), old(self).is_stream_safe(), sat(start + size), start, None, Seq::empty());
                        r.state == st && r.targets@ == t && final(self).position() == q
                    },
                    None => r.state is None && r.targets@.len() == 0 && final(self).position() == p,
                }
            }),
    {
        let ghost buf = self.bytes();
        let ghost safe = self.is_stream_safe();
        let mut out = DungeonDirtyData { state: None, targets: Vec::new() };
        let (start, size) = match self.container_header() {
            Some(h) => h,
            None => return out,
        };
        let end = start.saturating_add(size);
        let ghost total = dirty_fields(buf, safe, end as int, start as int, None, Seq::empty());
        loop
            invariant
                self.bytes() == buf,
                self.is_stream_safe() == safe,
                buf == old(self).bytes(),
                safe == old(self).is_stream_safe(),
                buf.len() <= usize::MAX,
                blob_header(buf, safe, old(self).position()).0 == Some((start as int, size as int)),
                end as int == sat(start + size),
                total == dirty_fields(buf, safe, end as int, start as int, None, Seq::empty()),
                dirty_fields(buf, safe, end as int, self.position(), out.state, out.targets@) == total,
            decreases room(buf, self.position()),
        {
            proof {
                lemma_i32_advances(buf, safe, self.position());
            }
            let index = match self.read_i32() {
                Some(i) => i,
                None => return out,
            };
            if index <= 0 {
                return out;
            }
            proof {
                lemma_i32_advances(buf, safe, self.position());
                lemma_containers_mono(buf, safe, self.position());
            }
            if index == 1 {
                if self.read_i32().is_none() {
                    self.jump_to(end);
                    return out;
                }
            } else if index == 2 {
                out.state = self.read_flow_state();
            } else if index == 3 {
                self.skip_container();
            } else if index == 4 {
                out.targets = self.read_target_container();
            } else {
                self.jump_to(end);
                return out;
            }
        }
    }

    /// Reads a container header: the start of its fields and its size.
    fn container_header(&mut self) -> (r: Option<(usize, usize)>)
        ensures
            final(self).bytes() == old(self).bytes(),
            final(self).is_stream_safe() == old(self).is_stream_safe(),
            ({
                let (h, p) = blob_header(old(self).bytes(), old(self).is_stream_safe(), old(self).position());
                &&& final(self).position() == p
                &&& match h {
                    Some((start, size)) => r matches Some((s, z)) && s == start && z == size,
                    None => r is None,
                }
            }),
    {
        let tag = match self.read_i32() {
            Some(t) => t,
            None => return None,
        };
        if tag != -2 {
            return None;
        }
        let size = match self.read_i32() {
            Some(z) => z,
            None => return None,
        };
        if size == -3 || size < 0 {
            return None;
        }
        Some((self.pos, size as usize))
    }
}


impl DungeonTargetData {
    fn set_field(&mut self, index: i32, v: i32)
        requires
            1 <= index <= 3,
        ensures
            *final(self) == old(self).with_field(index, v),
    {
        if index == 1 {
            self.target_id = v;
        } else if index == 2 {
            self.nums = v;
        } else {
            self.complete = v;
        }
    }

    /// Reads one target-data container from `blob`.
    pub fn read(blob: &mut BlobReader) -> (r: DungeonTargetData)
        ensures
            final(blob).bytes() == old(blob).bytes(),
            final(blob).is_stream_safe() == old(blob).is_stream_safe(),
            (r, final(blob).position()) == target_read(old(blob).bytes(), old(blob).is_stream_safe(), old(blob).position()),
    {
        let mut out = DungeonTargetData { target_id: 0, nums: 0, complete: 0 };
        let (start, size) = match blob.container_header() {
            Some(h) => h,
            None => return out,
        };
        let end = start.saturating_add(size);
        let ghost buf = blob.bytes();
        let ghost safe = blob.is_stream_safe();
        let ghost total = target_fields(buf, safe, end as int, start as int, out);
        loop
            invariant
                blob.bytes() == buf,
                blob.is_stream_safe() == safe,
                buf == old(blob).bytes(),
                safe == old(blob).is_stream_safe(),
                buf.len() <= usize::MAX,
                target_fields(buf, safe, end as int, blob.position(), out) == total,
                total == target_read(buf, safe, old(blob).position()),
            decreases room(buf, blob.position()),
        {
            proof { lemma_i32_advances(buf, safe, blob.position()); }
            let index = match blob.read_i32() {
                Some(i) => i,
                None => return out,
            };
            if index <= 0 {
                return out;
            }
            if index <= 3 {
                proof { lemma_i32_advances(buf, safe, blob.position()); }
                let v = match blob.read_i32() {
                    Some(v) => v,
                    None => 0,
                };
                out.set_field(index, v);
            } else {
                blob.jump_to(end);
                return out;
            }
        }
    }
}


/// The parts of a dungeon dirty-data update that are tracked: the flow state
/// and the target progress entries, in the order they were sent.
pub struct DungeonDirtyData {
    pub state: Option<i32>,
    pub targets: Vec<(i32, DungeonTargetData)>,
}

impl DungeonDirtyData {
    /// Parses a whole dirty-data buffer.
    pub fn parse(buf: &[u8], stream_safe: bool) -> (r: DungeonDirtyData)
        ensures
            (r.state, r.targets@) == dirty_parse(buf@, stream_safe),
    {
        let mut blob = BlobReader::new(buf, stream_safe);
        blob.read_dirty()
    }
}

/// The container shapes this crate knows how to read.
#[derive(Clone, Copy, PartialEq, Eq, Debug)]
pub enum ContainerKind {
    /// Target id, count and completion of one objective.
    TargetData,
    /// A dungeon flow-info container; only its state is read.
    FlowInfo,
    /// A dungeon target container; only its target-data map is read.
    Target,
    /// A container none of whose fields is wanted.
    Ignored,
    /// The top-level dungeon dirty-data container.
    DungeonDirty,
}

/// What reading a container of each kind yields.
pub enum ContainerValue {
    TargetData(DungeonTargetData),
    State(Option<i32>),
    Targets(Vec<(i32, DungeonTargetData)>),
    Ignored,
    DungeonDirty(DungeonDirtyData),
}

impl<'a> BlobReader<'a> {
    /// Reads one container of the given kind at the current position.
    pub fn read_container(&mut self, kind: ContainerKind) -> (r: ContainerValue)
        ensures
            final(self).bytes() == old(self).bytes(),
            final(self).is_stream_safe() == old(self).is_stream_safe(),
            ({
                let buf = old(self).bytes();
                let safe = old(self).is_stream_safe();
                let pos = old(self).position();
                match kind {
                    ContainerKind::TargetData => r matches ContainerValue::TargetData(d)
                        && (d, final(self).position()) == target_read(buf, safe, pos),
                    ContainerKind::FlowInfo => r matches ContainerValue::State(st)
                        && (st, final(self).position()) == flow_read(buf, safe, pos),
                    ContainerKind::Target => r matches ContainerValue::Targets(t)
                        && (t@, final(self).position()) == target_container_read(buf, safe, pos),
                    ContainerKind::Ignored => r is Ignored
                        && final(self).position() == skip_read(buf, safe, pos),
                    ContainerKind::DungeonDirty => r matches ContainerValue::DungeonDirty(d)
                        && match blob_header(buf, safe, pos) {
                            (Some((start, size)), _) => {
                                let (st, t, q) = dirty_fields(buf, safe, sat(start + size), start, None, Seq::empty());
                                d.state == st && d.targets@ == t && final(self).position() == q
                            },
                            (None, p) => d.state is None && d.targets@.len() == 0 && final(self).position() == p,
                        },
                }
            }),
    {
        match kind {
            ContainerKind::TargetData => ContainerValue::TargetData(DungeonTargetData::read(self)),
            ContainerKind::FlowInfo => ContainerValue::State(self.read_flow_state()),
            ContainerKind::Target => ContainerValue::Targets(self.read_target_container()),
            ContainerKind::Ignored => {
                self.skip_container();
                ContainerValue::Ignored
            },
            ContainerKind::DungeonDirty => ContainerValue::DungeonDirty(self.read_dirty()),
        }
    }
}

} // verus!
