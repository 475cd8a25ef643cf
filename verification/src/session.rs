//! TCP stream reassembly and game-server detection.
//!
//! Each (source address, source port, destination port) flow gets its own
//! stream. Segments are cached by sequence number and appended to the stream
//! buffer once contiguous; the buffer is then cut into frames, each of which
//! starts with its own big-endian `u32` length (header included).

use vstd::prelude::*;
use crate::wire::{be_u16, be_u32, be_u64, read_be_u16, read_be_u32, read_be_u64};

verus! {

/// Largest frame a stream accepts; a larger length header resets the buffer.
pub const MAX_BUFFER: usize = 4194304;
/// Most out-of-order segments a stream keeps waiting.
pub const MAX_CACHE_SEGS: usize = 512;
/// Service UUID of the game world notifications.
pub const UUID_GAME: u64 = 0x63335342;
/// Service UUID of the social notifications.
pub const UUID_SOCIAL: u64 = 0x254C89A3;

/// Cuts a stream buffer into frames. A frame is announced by a big-endian
/// `u32` length that counts the whole frame; a length below 6 or above
/// `MAX_BUFFER` means the stream is out of step, and the buffer is dropped.
/// Returns the complete frames and what is left waiting for more bytes.
pub open spec fn frame_split(buf: Seq<u8>) -> (Seq<Seq<u8>>, Seq<u8>)
    decreases buf.len(),
{
    if buf.len() < 4 {
        (Seq::empty(), buf)
    } else {
        let size = be_u32(buf, 0) as int;
        if size < 6 || size > MAX_BUFFER {
            (Seq::empty(), Seq::empty())
        } else if buf.len() < size {
            (Seq::empty(), buf)
        } else {
            let (fs, rest) = frame_split(buf.subrange(size, buf.len() as int));
            (seq![buf.subrange(0, size)] + fs, rest)
        }
    }
}

/// All the bytes of `frames`, in order.
pub open spec fn flatten(frames: Seq<Seq<u8>>) -> Seq<u8>
    decreases frames.len(),
{
    if frames.len() == 0 {
        Seq::empty()
    } else {
        frames[0] + flatten(frames.drop_first())
    }
}

/// A frame is well formed: its length header counts exactly its bytes and
/// lies within the accepted range.
pub open spec fn well_formed_frame(f: Seq<u8>) -> bool {
    &&& 6 <= f.len() <= MAX_BUFFER
    &&& be_u32(f, 0) as int == f.len()
}

/// Frames of the notify kind (type 2, compression bit ignored) whose service
/// is the game world or the social service.
pub open spec fn game_notify(frame: Seq<u8>) -> bool {
    &&& frame.len() >= 14
    &&& be_u16(frame, 4) & 0x7fff == 2
    &&& (be_u64(frame, 6) == UUID_GAME || be_u64(frame, 6) == UUID_SOCIAL)
}

/// Cutting a buffer into frames yields well-formed frames, and loses or
/// reorders no byte: the frames followed by the remainder give back the
/// buffer, unless a bad length header dropped the rest, in which case the
/// frames are a prefix of the buffer and nothing remains.
pub proof fn lemma_frame_split_sound(buf: Seq<u8>)
    ensures
        ({
            let (fs, rest) = frame_split(buf);
            &&& forall|i: int| 0 <= i < fs.len() ==> well_formed_frame(#[trigger] fs[i])
            &&& flatten(fs).len() <= buf.len()
            &&& (flatten(fs) + rest == buf
                || (rest.len() == 0 && flatten(fs) == buf.subrange(0, flatten(fs).len() as int)))
        }),
    decreases buf.len(),
{
    if buf.len() >= 4 {
        let size = be_u32(buf, 0) as int;
        if 6 <= size <= MAX_BUFFER && buf.len() >= size {
            let tail = buf.subrange(size, buf.len() as int);
            lemma_frame_split_sound(tail);
            let (fs0, rest0) = frame_split(tail);
            let (fs, rest) = frame_split(buf);
            let head = buf.subrange(0, size);
            assert(fs == seq![head] + fs0);
            assert(fs.drop_first() =~= fs0);
            assert(flatten(fs) == head + flatten(fs0));
            assert(flatten(fs).len() <= buf.len());
            assert forall|i: int| 0 <= i < fs.len() implies well_formed_frame(#[trigger] fs[i]) by {
                if i == 0 {
                    assert(fs[0] == head);
                    assert(head.subrange(0, 4) =~= buf.subrange(0, 4));
                    assert(head[0] == buf[0] && head[1] == buf[1] && head[2] == buf[2] && head[3] == buf[3]);
                } else {
                    assert(fs[i] == fs0[i - 1]);
                }
            }
            assert(buf =~= head + tail);
            if flatten(fs0) + rest0 == tail {
                assert((head + flatten(fs0)) + rest0 =~= head + (flatten(fs0) + rest0));
                assert(flatten(fs) + rest =~= buf);
            } else {
                let n = flatten(fs0).len() as int;
                assert(flatten(fs).len() == size + n);
                assert forall|k: int| 0 <= k < size + n implies #[trigger] flatten(fs)[k] == buf[k] by {
                    if k < size {
                        assert(flatten(fs)[k] == head[k]);
                    } else {
                        assert(flatten(fs)[k] == flatten(fs0)[k - size]);
                        assert(tail[k - size] == buf[k]);
                    }
                }
                assert(flatten(fs) =~= buf.subrange(0, size + n));
            }
        } else if size < 6 || size > MAX_BUFFER {
            assert(flatten(Seq::<Seq<u8>>::empty()) =~= buf.subrange(0, 0));
        }
    }
}


/// The byte contents of a list of frames.
pub open spec fn frames_view(frames: Seq<Vec<u8>>) -> Seq<Seq<u8>> {
    frames.map_values(|f: Vec<u8>| f@)
}

/// Appends the complete frames of `buf` to `frames` and returns the bytes
/// left waiting (empty when a bad length header dropped the buffer).
fn split_buffer(buf: &Vec<u8>, frames: &mut Vec<Vec<u8>>) -> (rest: Vec<u8>)
    ensures
        frames_view(final(frames)@) == frames_view(old(frames)@) + frame_split(buf@).0,
        rest@ == frame_split(buf@).1,
{
    let len = buf.len();
    let mut off: usize = 0;
    let ghost start_frames = frames_view(frames@);
    assert(buf@.subrange(0, len as int) =~= buf@);
    loop
        invariant
            off <= len,
            len == buf@.len(),
            start_frames == frames_view(old(frames)@),
            frames_view(frames@) + frame_split(buf@.subrange(off as int, len as int)).0
                == start_frames + frame_split(buf@).0,
            frame_split(buf@.subrange(off as int, len as int)).1 == frame_split(buf@).1,
        decreases len - off,
    {
        let ghost sub = buf@.subrange(off as int, len as int);
        if len - off < 4 {
            let rest = vstd::slice::slice_to_vec(vstd::slice::slice_subrange(buf.as_slice(), off, len));
            assert(frame_split(sub).0 =~= Seq::<Seq<u8>>::empty());
            assert(frames_view(frames@) + Seq::<Seq<u8>>::empty() =~= frames_view(frames@));
            return rest;
        }
        let size = read_be_u32(buf.as_slice(), off) as usize;
        assert(be_u32(sub, 0) == be_u32(buf@, off as int)) by {
            assert(sub[0] == buf@[off as int] && sub[1] == buf@[off + 1] && sub[2] == buf@[off + 2] && sub[3] == buf@[off + 3]);
        }
        if size < 6 || size > MAX_BUFFER {
            assert(frames_view(frames@) + Seq::<Seq<u8>>::empty() =~= frames_view(frames@));
            return Vec::new();
        }
        if len - off < size {
            let rest = vstd::slice::slice_to_vec(vstd::slice::slice_subrange(buf.as_slice(), off, len));
            assert(frames_view(frames@) + Seq::<Seq<u8>>::empty() =~= frames_view(frames@));
            return rest;
        }
        let frame = vstd::slice::slice_to_vec(vstd::slice::slice_subrange(buf.as_slice(), off, off + size));
        let ghost before = frames_view(frames@);
        frames.push(frame);
        proof {
            let tail = sub.subrange(size as int, sub.len() as int);
            assert(tail =~= buf@.subrange(off + size, len as int));
            assert(sub.subrange(0, size as int) =~= frame@);
            assert(frames_view(frames@) =~= before.push(frame@));
            let (fs1, r1) = frame_split(tail);
            assert(frame_split(sub).0 == seq![frame@] + fs1);
            assert(before.push(frame@) + fs1 =~= before + (seq![frame@] + fs1));
        }
        off = off + size;
    }
}


/// Sequence number that follows a segment of `len` bytes starting at `next`.
pub open spec fn seq_after(next: u32, len: int) -> u32 {
    ((next as int + len) % 0x1_0000_0000) as u32
}

/// A segment starting at `seq` lies before `next` in sequence space (the
/// signed 32-bit distance is negative): it was already seen.
pub open spec fn already_seen(seq: u32, next: u32) -> bool {
    (seq as int - next as int) % 0x1_0000_0000 >= 0x8000_0000
}

/// Moves cached segments into the buffer for as long as the segment that
/// starts at the expected sequence number is cached, cutting frames after
/// each. Returns the frames, the buffer, the cache and the next expected
/// sequence number.
pub open spec fn reassemble(buffer: Seq<u8>, cache: Map<u32, Seq<u8>>, next: u32)
    -> (Seq<Seq<u8>>, Seq<u8>, Map<u32, Seq<u8>>, u32)
    decreases cache.dom().len(),
    when cache.dom().finite()
{
    if !cache.contains_key(next) {
        (Seq::empty(), buffer, cache, next)
    } else {
        let seg = cache[next];
        let (fs, rest) = frame_split(buffer + seg);
        let (fs2, b2, c2, n2) = reassemble(rest, cache.remove(next), seq_after(next, seg.len() as int));
        (fs + fs2, b2, c2, n2)
    }
}

/// The stream state after a segment `(seq, data)` arrives, and the frames it
/// completes. An empty segment changes nothing; the first segment fixes the
/// expected sequence number; a segment already passed is dropped; otherwise
/// it is cached (unless the cache is full or holds that sequence number
/// already) and the contiguous segments are reassembled.
pub open spec fn stream_feed(
    buffer: Seq<u8>,
    cache: Map<u32, Seq<u8>>,
    expected: Option<u32>,
    seq: u32,
    data: Seq<u8>,
) -> ((Seq<u8>, Map<u32, Seq<u8>>, Option<u32>), Seq<Seq<u8>>) {
    if data.len() == 0 {
        ((buffer, cache, expected), Seq::empty())
    } else {
        let next = match expected {
            Some(n) => n,
            None => seq,
        };
        if already_seen(seq, next) {
            ((buffer, cache, Some(next)), Seq::empty())
        } else {
            let c = if cache.dom().len() < MAX_CACHE_SEGS && !cache.contains_key(seq) {
                cache.insert(seq, data)
            } else {
                cache
            };
            let (fs, b, c2, n2) = reassemble(buffer, c, next);
            ((b, c2, Some(n2)), fs)
        }
    }
}

/// One TCP flow: the bytes not yet cut into frames, the segments waiting for
/// their turn (by sequence number) and the next expected sequence number.
pub struct TcpStream {
    buffer: Vec<u8>,
    cache: std::collections::BTreeMap<u32, Vec<u8>>,
    next_seq: Option<u32>,
}

/// The bytes of each cached segment.
pub open spec fn cache_view(m: Map<u32, Vec<u8>>) -> Map<u32, Seq<u8>> {
    m.map_values(|v: Vec<u8>| v@)
}

proof fn lemma_cache_view_dom(m: Map<u32, Vec<u8>>)
    ensures
        cache_view(m).dom() == m.dom(),
{
    assert(cache_view(m).dom() =~= m.dom());
}

impl TcpStream {
    /// Bytes waiting to complete a frame.
    pub closed spec fn pending(&self) -> Seq<u8> {
        self.buffer@
    }

    /// Out-of-order segments, by starting sequence number.
    pub closed spec fn segments(&self) -> Map<u32, Seq<u8>> {
        cache_view(self.cache@)
    }

    /// The next expected sequence number, once the first segment was seen.
    pub closed spec fn expected(&self) -> Option<u32> {
        self.next_seq
    }

    pub fn new() -> (r: TcpStream)
        ensures
            r.pending().len() == 0,
            r.segments() == Map::<u32, Seq<u8>>::empty(),
            r.expected() is None,
    {
        let r = TcpStream { buffer: Vec::new(), cache: std::collections::BTreeMap::new(), next_seq: None };
        assert(cache_view(r.cache@) =~= Map::<u32, Seq<u8>>::empty());
        r
    }

    /// Takes in one TCP segment and returns the frames it completes.
    pub fn feed(&mut self, seq: u32, data: &[u8]) -> (frames: Vec<Vec<u8>>)
        ensures
            ({
                let (st, fs) = stream_feed(old(self).pending(), old(self).segments(), old(self).expected(), seq, data@);
                &&& frames_view(frames@) == fs
                &&& final(self).pending() == st.0
                &&& final(self).segments() == st.1
                &&& final(self).expected() == st.2
            }),
    {
        broadcast use vstd::std_specs::btree::group_btree_axioms;
        if data.len() == 0 {
            return Vec::new();
        }
        let next = match self.next_seq {
            Some(n) => n,
            None => {
                self.next_seq = Some(seq);
                seq
            },
        };
        if seq.wrapping_sub(next) >= 0x8000_0000 {
            return Vec::new();
        }
        proof { lemma_cache_view_dom(self.cache@); }
        if self.cache.len() < MAX_CACHE_SEGS && !self.cache.contains_key(&seq) {
            let ghost before = cache_view(self.cache@);
            self.cache.insert(seq, vstd::slice::slice_to_vec(data));
            assert(cache_view(self.cache@) =~= before.insert(seq, data@));
        }
        self.drain()
    }

    /// Cuts frames out of the contiguous segments now available.
    fn drain(&mut self) -> (frames: Vec<Vec<u8>>)
        ensures
            ({
                match old(self).expected() {
                    None => frames@.len() == 0 && *final(self) == *old(self),
                    Some(next) => {
                        let (fs, b, c, n) = reassemble(old(self).pending(), old(self).segments(), next);
                        &&& frames_view(frames@) == fs
                        &&& final(self).pending() == b
                        &&& final(self).segments() == c
                        &&& final(self).expected() == Some(n)
                    },
                }
            }),
    {
        broadcast use vstd::std_specs::btree::group_btree_axioms;
        let mut frames: Vec<Vec<u8>> = Vec::new();
        let next0 = match self.next_seq {
            Some(s) => s,
            None => return frames,
        };
        proof { lemma_cache_view_dom(self.cache@); }
        let ghost total = reassemble(self.buffer@, cache_view(self.cache@), next0);
        loop
            invariant
                self.next_seq is Some,
                cache_view(self.cache@).dom().finite(),
                total == reassemble(old(self).pending(), old(self).segments(), next0),
                old(self).expected() == Some(next0),
                ({
                    let (fs, b, c, n) = reassemble(self.buffer@, cache_view(self.cache@), self.next_seq->0);
                    &&& frames_view(frames@) + fs == total.0
                    &&& b == total.1
                    &&& c == total.2
                    &&& n == total.3
                }),
            ensures
                frames_view(frames@) == total.0,
                self.buffer@ == total.1,
                cache_view(self.cache@) == total.2,
                self.next_seq == Some(total.3),
            decreases self.cache@.dom().len(),
        {
            let next = match self.next_seq {
                Some(s) => s,
                None => break,
            };
            let ghost cache_before = cache_view(self.cache@);
            let ghost raw_before = self.cache@;
            proof { lemma_cache_view_dom(self.cache@); }
            let seg = match self.cache.remove(&next) {
                Some(s) => s,
                None => {
                    assert(self.cache@ =~= raw_before);
                    assert(!cache_before.contains_key(next));
                    assert(frames_view(frames@) + Seq::<Seq<u8>>::empty() =~= frames_view(frames@));
                    break;
                },
            };
            let seg_len = ((seg.len() as u64) % 0x1_0000_0000) as u32;
            proof {
                vstd::arithmetic::div_mod::lemma_add_mod_noop(next as int, seg@.len() as int, 0x1_0000_0000);
                vstd::arithmetic::div_mod::lemma_mod_twice(seg@.len() as int, 0x1_0000_0000);
                vstd::arithmetic::div_mod::lemma_add_mod_noop(next as int, seg_len as int, 0x1_0000_0000);
                assert(cache_view(self.cache@) =~= cache_before.remove(next));
                lemma_cache_view_dom(self.cache@);
                assert(cache_before[next] == seg@);
            }
            self.next_seq = Some(next.wrapping_add(seg_len));
            let mut seg_bytes = seg;
            let ghost joined = self.buffer@ + seg_bytes@;
            self.buffer.append(&mut seg_bytes);
            let ghost before = frames_view(frames@);
            let rest = split_buffer(&self.buffer, &mut frames);
            self.buffer = rest;
            proof {
                let (fs, r) = frame_split(joined);
                let (fs2, b2, c2, n2) = reassemble(r, cache_before.remove(next), seq_after(next, seg@.len() as int));
                assert(before + (fs + fs2) =~= (before + fs) + fs2);
            }
        }
        frames
    }
}


impl TcpStream {
    /// The whole state of the flow: pending bytes, cached segments, expected
    /// sequence number.
    pub closed spec fn state(&self) -> (Seq<u8>, Map<u32, Seq<u8>>, Option<u32>) {
        (self.pending(), self.segments(), self.expected())
    }
}

/// Whether a frame is a game or social notify (see `game_notify`).
pub fn is_game_notify(frame: &[u8]) -> (r: bool)
    ensures
        r == game_notify(frame@),
{
    if frame.len() < 14 {
        return false;
    }
    let msg_type = read_be_u16(frame, 4) & 0x7fff;
    if msg_type != 2 {
        return false;
    }
    let uuid = read_be_u64(frame, 6);
    uuid == UUID_GAME || uuid == UUID_SOCIAL
}

/// Key of a flow: source address, source port and destination port packed
/// into one 64-bit number (one-to-one).
pub open spec fn flow_key(src: u32, src_port: u16, dst_port: u16) -> u64 {
    (src as int * 0x1_0000_0000 + src_port as int * 0x1_0000 + dst_port as int) as u64
}

/// The first two octets of an IPv4 address, as the /16 subnet.
pub open spec fn subnet16(ip: Seq<u8>) -> u16 {
    (ip[0] as int * 0x100 + ip[1] as int) as u16
}

/// An IPv4 address as one number, most significant octet first.
pub open spec fn ip_u32(ip: Seq<u8>) -> u32 {
    be_u32(ip, 0)
}

/// RFC 1918 private networks: 10/8, 172.16/12, 192.168/16.
pub open spec fn private_net(ip: Seq<u8>) -> bool {
    ip[0] == 10 || (ip[0] == 172 && 16 <= ip[1] <= 31) || (ip[0] == 192 && ip[1] == 168)
}

/// The subnet filter once the server is known: 0 accepts every source.
pub open spec fn server_prefix(ip: Seq<u8>) -> u16 {
    if private_net(ip) { 0 } else { subnet16(ip) }
}

/// Whether any of `frames` is a game or social notify.
pub open spec fn has_game_notify(frames: Seq<Seq<u8>>) -> bool {
    exists|i: int| 0 <= i < frames.len() && game_notify(#[trigger] frames[i])
}

/// Whether a source lies outside the accepted subnet.
pub open spec fn outside_subnet(prefix: Option<u16>, ip: Seq<u8>) -> bool {
    match prefix {
        Some(p) => p != 0 && subnet16(ip) != p,
        None => false,
    }
}

/// A fresh flow.
pub open spec fn fresh_stream() -> (Seq<u8>, Map<u32, Seq<u8>>, Option<u32>) {
    (Seq::empty(), Map::empty(), None)
}

/// One packet through the session table: flows are looked up (or created) by
/// key and fed the segment; once the game server is known, sources outside
/// its /16 (unless it sits on a private network) are ignored; the first flow
/// to complete a game or social notify frame is taken as the server.
pub open spec fn session_feed(
    streams: Map<u64, (Seq<u8>, Map<u32, Seq<u8>>, Option<u32>)>,
    server: Option<(u32, u16)>,
    prefix: Option<u16>,
    ip: Seq<u8>,
    src_port: u16,
    dst_port: u16,
    seq: u32,
    data: Seq<u8>,
) -> ((Map<u64, (Seq<u8>, Map<u32, Seq<u8>>, Option<u32>)>, Option<(u32, u16)>, Option<u16>), Seq<Seq<u8>>) {
    if data.len() == 0 {
        ((streams, server, prefix), Seq::empty())
    } else if outside_subnet(prefix, ip) {
        ((streams, server, prefix), Seq::empty())
    } else {
        let key = flow_key(ip_u32(ip), src_port, dst_port);
        let st = if streams.contains_key(key) { streams[key] } else { fresh_stream() };
        let (st2, fs) = stream_feed(st.0, st.1, st.2, seq, data);
        let streams2 = streams.insert(key, st2);
        if server.is_none() && has_game_notify(fs) {
            ((streams2, Some((ip_u32(ip), src_port)), Some(server_prefix(ip))), fs)
        } else {
            ((streams2, server, prefix), fs)
        }
    }
}

/// All flows seen so far, and what is known of the game server.
pub struct SessionTable {
    streams: std::collections::HashMap<u64, TcpStream>,
    known_server: Option<(u32, u16)>,
    known_prefix: Option<u16>,
}

impl SessionTable {
    /// Every flow's state, by flow key.
    pub closed spec fn flows(&self) -> Map<u64, (Seq<u8>, Map<u32, Seq<u8>>, Option<u32>)> {
        self.streams@.map_values(|t: TcpStream| t.state())
    }

    /// The game server (address, port), once detected.
    pub closed spec fn server(&self) -> Option<(u32, u16)> {
        self.known_server
    }

    /// The accepted source subnet, once the server is detected (0 = any).
    pub closed spec fn prefix(&self) -> Option<u16> {
        self.known_prefix
    }

    pub fn new() -> (r: SessionTable)
        ensures
            r.flows() == Map::<u64, (Seq<u8>, Map<u32, Seq<u8>>, Option<u32>)>::empty(),
            r.server() is None,
            r.prefix() is None,
    {
        let r = SessionTable {
            streams: std::collections::HashMap::new(),
            known_server: None,
            known_prefix: None,
        };
        assert(r.flows() =~= Map::<u64, (Seq<u8>, Map<u32, Seq<u8>>, Option<u32>)>::empty());
        r
    }

    /// Feeds one TCP segment from `src_ip:src_port` to `dst_port` and
    /// returns the frames it completes.
    pub fn feed(&mut self, src_ip: [u8; 4], src_port: u16, dst_port: u16, tcp_seq: u32, data: &[u8]) -> (frames: Vec<Vec<u8>>)
        ensures
            ({
                let (st, fs) = session_feed(old(self).flows(), old(self).server(), old(self).prefix(),
                    src_ip@, src_port, dst_port, tcp_seq, data@);
                &&& frames_view(frames@) == fs
                &&& final(self).flows() == st.0
                &&& final(self).server() == st.1
                &&& final(self).prefix() == st.2
            }),
    {
        broadcast use vstd::std_specs::hash::group_hash_axioms;
        if data.len() == 0 {
            return Vec::new();
        }
        let subnet: u16 = (src_ip[0] as u16) * 0x100 + (src_ip[1] as u16);
        if let Some(pfx) = self.known_prefix {
            if pfx != 0 && subnet != pfx {
                return Vec::new();
            }
        }
        let src_u32 = read_be_u32(&src_ip, 0);
        let key: u64 = (src_u32 as u64) * 0x1_0000_0000 + (src_port as u64) * 0x1_0000 + (dst_port as u64);
        let ghost flows0 = self.flows();
        let mut stream = match self.streams.remove(&key) {
            Some(s) => s,
            None => TcpStream::new(),
        };
        proof {
            if flows0.contains_key(key) {
                assert(stream.state() == flows0[key]);
            } else {
                assert(stream.state() == fresh_stream());
            }
        }
        let frames = stream.feed(tcp_seq, data);
        let ghost st2 = stream.state();
        let ghost raw_before = self.streams@;
        self.streams.insert(key, stream);
        assert(self.flows() =~= flows0.insert(key, st2)) by {
            assert(raw_before.dom() =~= old(self).streams@.dom().remove(key));
        }
        let ghost after_flows = self.flows();
        if self.known_server.is_none() {
            let mut i: usize = 0;
            #[verifier::loop_isolation(false)]
            while i < frames.len()
                invariant
                    i <= frames@.len(),
                    self.flows() == after_flows,
                    self.known_server is None,
                    self.known_prefix == old(self).known_prefix,
                    subnet as int == subnet16(src_ip@),
                    src_u32 == ip_u32(src_ip@),
                    forall|j: int| 0 <= j < i ==> !game_notify(#[trigger] frames@[j]@),
                decreases frames.len() - i,
            {
                if is_game_notify(frames[i].as_slice()) {
                    self.known_server = Some((src_u32, src_port));
                    let private = src_ip[0] == 10
                        || (src_ip[0] == 172 && src_ip[1] >= 16 && src_ip[1] <= 31)
                        || (src_ip[0] == 192 && src_ip[1] == 168);
                    let prefix: u16 = if !private { subnet } else { 0 };
                    self.known_prefix = Some(prefix);
                    assert(frames_view(frames@)[i as int] == frames@[i as int]@);
                    assert(game_notify(frames_view(frames@)[i as int]));
                    assert(private == private_net(src_ip@));
                    proof {
                        let (st, fs) = session_feed(old(self).flows(), old(self).server(), old(self).prefix(),
                            src_ip@, src_port, dst_port, tcp_seq, data@);
                        assert(key == flow_key(ip_u32(src_ip@), src_port, dst_port));
                        assert(frames_view(frames@) == fs);
                        assert(old(self).known_server is None);
                        assert(exists|j: int| 0 <= j < fs.len() && game_notify(#[trigger] fs[j]));
                        assert(self.flows() == st.0);
                        assert(self.known_server == st.1);
                        assert(self.known_prefix == st.2);
                    }
                    return frames;
                }
                i = i + 1;
            }
            assert forall|j: int| 0 <= j < frames_view(frames@).len() implies !game_notify(#[trigger] frames_view(frames@)[j]) by {
                assert(frames_view(frames@)[j] == frames@[j]@);
            }
        }
        frames
    }
}


/// Every frame reassembly completes is well formed.
pub proof fn lemma_reassembled_frames_well_formed(buffer: Seq<u8>, cache: Map<u32, Seq<u8>>, next: u32)
    requires
        cache.dom().finite(),
    ensures
        forall|i: int| 0 <= i < reassemble(buffer, cache, next).0.len()
            ==> well_formed_frame(#[trigger] reassemble(buffer, cache, next).0[i]),
    decreases cache.dom().len(),
{
    if cache.contains_key(next) {
        let seg = cache[next];
        lemma_frame_split_sound(buffer + seg);
        let (fs, rest) = frame_split(buffer + seg);
        let n2 = seq_after(next, seg.len() as int);
        lemma_reassembled_frames_well_formed(rest, cache.remove(next), n2);
        let fs2 = reassemble(rest, cache.remove(next), n2).0;
        assert forall|i: int| 0 <= i < (fs + fs2).len() implies well_formed_frame(#[trigger] (fs + fs2)[i]) by {
            if i < fs.len() {
                assert((fs + fs2)[i] == fs[i]);
            } else {
                assert((fs + fs2)[i] == fs2[i - fs.len()]);
            }
        }
    }
}

/// A segment that lies before the expected sequence number (a
/// retransmission) completes no frame and leaves the flow as it was.
pub proof fn lemma_retransmission_ignored(
    buffer: Seq<u8>,
    cache: Map<u32, Seq<u8>>,
    next: u32,
    seq: u32,
    data: Seq<u8>,
)
    requires
        already_seen(seq, next),
    ensures
        stream_feed(buffer, cache, Some(next), seq, data) == ((buffer, cache, Some(next)), Seq::<Seq<u8>>::empty()),
{
}

/// Once the game server is known on a public network, packets from any other
/// /16 subnet complete no frame and change nothing.
pub proof fn lemma_foreign_subnet_ignored(
    streams: Map<u64, (Seq<u8>, Map<u32, Seq<u8>>, Option<u32>)>,
    server: Option<(u32, u16)>,
    p: u16,
    ip: Seq<u8>,
    src_port: u16,
    dst_port: u16,
    seq: u32,
    data: Seq<u8>,
)
    requires
        p != 0,
        subnet16(ip) != p,
    ensures
        session_feed(streams, server, Some(p), ip, src_port, dst_port, seq, data)
            == ((streams, server, Some(p)), Seq::<Seq<u8>>::empty()),
{
}

/// Every frame a stream hands out is well formed.
pub proof fn lemma_stream_frames_well_formed(
    buffer: Seq<u8>,
    cache: Map<u32, Seq<u8>>,
    expected: Option<u32>,
    seq: u32,
    data: Seq<u8>,
)
    requires
        cache.dom().finite(),
    ensures
        forall|i: int| 0 <= i < stream_feed(buffer, cache, expected, seq, data).1.len()
            ==> well_formed_frame(#[trigger] stream_feed(buffer, cache, expected, seq, data).1[i]),
{
    if data.len() > 0 {
        let next = match expected {
            Some(n) => n,
            None => seq,
        };
        if !already_seen(seq, next) {
            let c = if cache.dom().len() < MAX_CACHE_SEGS && !cache.contains_key(seq) {
                cache.insert(seq, data)
            } else {
                cache
            };
            lemma_reassembled_frames_well_formed(buffer, c, next);
        }
    }
}

/// Every length header that cutting `buf` reads lies in the accepted range
/// (the stream never falls out of step).
pub open spec fn headers_valid(buf: Seq<u8>) -> bool
    decreases buf.len(),
{
    if buf.len() < 4 {
        true
    } else {
        let size = be_u32(buf, 0) as int;
        &&& 6 <= size <= MAX_BUFFER
        &&& (buf.len() < size || headers_valid(buf.subrange(size, buf.len() as int)))
    }
}

/// Cutting a buffer in two steps, the remainder of the first part carried
/// into the second, gives the frames of cutting it at once.
proof fn lemma_frame_split_concat(b1: Seq<u8>, b2: Seq<u8>)
    requires
        headers_valid(b1 + b2),
    ensures
        frame_split(b1 + b2) == ({
            let x = frame_split(frame_split(b1).1 + b2);
            (frame_split(b1).0 + x.0, x.1)
        }),
    decreases b1.len(),
{
    let t = b1 + b2;
    if b1.len() < 4 {
        assert(frame_split(b1).0 =~= Seq::<Seq<u8>>::empty());
        let x = frame_split(frame_split(b1).1 + b2);
        assert(frame_split(b1).0 + x.0 =~= x.0);
    } else {
        assert(be_u32(t, 0) == be_u32(b1, 0));
        let size = be_u32(b1, 0) as int;
        if b1.len() < size {
            let x = frame_split(frame_split(b1).1 + b2);
            assert(frame_split(b1).0 + x.0 =~= x.0);
        } else {
            let tail = b1.subrange(size, b1.len() as int);
            assert(t.subrange(size, t.len() as int) =~= tail + b2);
            assert(t.subrange(0, size) =~= b1.subrange(0, size));
            lemma_frame_split_concat(tail, b2);
            let x = frame_split(frame_split(tail).1 + b2);
            assert(seq![b1.subrange(0, size)] + (frame_split(tail).0 + x.0)
                =~= (seq![b1.subrange(0, size)] + frame_split(tail).0) + x.0);
        }
    }
}

proof fn lemma_reassemble_one(buffer: Seq<u8>, next: u32, data: Seq<u8>)
    ensures
        reassemble(buffer, Map::<u32, Seq<u8>>::empty().insert(next, data), next) == (
            frame_split(buffer + data).0,
            frame_split(buffer + data).1,
            Map::<u32, Seq<u8>>::empty(),
            seq_after(next, data.len() as int),
        ),
{
    let c = Map::<u32, Seq<u8>>::empty().insert(next, data);
    assert(c.dom() =~= Set::<u32>::empty().insert(next));
    assert(c.remove(next) =~= Map::<u32, Seq<u8>>::empty());
    let n2 = seq_after(next, data.len() as int);
    let e = Map::<u32, Seq<u8>>::empty();
    assert(e.dom() =~= Set::<u32>::empty());
    assert(reassemble(frame_split(buffer + data).1, e, n2) == (Seq::<Seq<u8>>::empty(), frame_split(buffer + data).1, e, n2));
    assert(frame_split(buffer + data).0 + Seq::<Seq<u8>>::empty() =~= frame_split(buffer + data).0);
}

/// Frames are reassembled across in-order segments: a new stream fed the
/// bytes `b1 + b2` in one segment hands out the same frames, and ends in
/// the same state, as one fed `b1` and then `b2` at the sequence number
/// right after `b1`, wherever the stream's length headers are all valid.
pub proof fn lemma_segments_reassembled(seq: u32, b1: Seq<u8>, b2: Seq<u8>)
    requires
        b1.len() > 0,
        b2.len() > 0,
        headers_valid(b1 + b2),
    ensures
        ({
            let whole = stream_feed(Seq::empty(), Map::empty(), None, seq, b1 + b2);
            let first = stream_feed(Seq::empty(), Map::empty(), None, seq, b1);
            let second = stream_feed(first.0.0, first.0.1, first.0.2, seq_after(seq, b1.len() as int), b2);
            &&& whole.1 == first.1 + second.1
            &&& whole.0 == second.0
        }),
{
    let e = Map::<u32, Seq<u8>>::empty();
    let es = Seq::<u8>::empty();
    assert(e.dom() =~= Set::<u32>::empty());
    assert(!already_seen(seq, seq));
    let s2 = seq_after(seq, b1.len() as int);
    assert(!already_seen(s2, s2));
    assert(es + (b1 + b2) =~= b1 + b2);
    assert(es + b1 =~= b1);
    lemma_reassemble_one(es, seq, b1 + b2);
    lemma_reassemble_one(es, seq, b1);
    let rest1 = frame_split(b1).1;
    lemma_reassemble_one(rest1, s2, b2);
    lemma_frame_split_concat(b1, b2);
    assert(seq_after(s2, b2.len() as int) == seq_after(seq, (b1 + b2).len() as int));
}

proof fn lemma_game_notify_concat(a: Seq<Seq<u8>>, b: Seq<Seq<u8>>)
    ensures
        has_game_notify(a + b) == (has_game_notify(a) || has_game_notify(b)),
{
    if has_game_notify(a + b) {
        let i = choose|i: int| 0 <= i < (a + b).len() && game_notify(#[trigger] (a + b)[i]);
        if i < a.len() {
            assert((a + b)[i] == a[i]);
        } else {
            assert((a + b)[i] == b[i - a.len()]);
        }
    }
    if has_game_notify(a) {
        let i = choose|i: int| 0 <= i < a.len() && game_notify(#[trigger] a[i]);
        assert((a + b)[i] == a[i]);
    }
    if has_game_notify(b) {
        let i = choose|i: int| 0 <= i < b.len() && game_notify(#[trigger] b[i]);
        assert((a + b)[a.len() + i] == b[i]);
    }
}

/// The session table reassembles frames across in-order segments too: a
/// new table fed `b1 + b2` in one packet hands out the same frames, and
/// ends in the same state, as one fed `b1` and then `b2` from the same
/// source at the sequence number right after `b1`, wherever the stream's
/// length headers are all valid.
pub proof fn lemma_table_reassembles(ip: Seq<u8>, src_port: u16, dst_port: u16, seq: u32, b1: Seq<u8>, b2: Seq<u8>)
    requires
        ip.len() == 4,
        b1.len() > 0,
        b2.len() > 0,
        headers_valid(b1 + b2),
    ensures
        ({
            let e = Map::<u64, (Seq<u8>, Map<u32, Seq<u8>>, Option<u32>)>::empty();
            let whole = session_feed(e, None, None, ip, src_port, dst_port, seq, b1 + b2);
            let first = session_feed(e, None, None, ip, src_port, dst_port, seq, b1);
            let second = session_feed(first.0.0, first.0.1, first.0.2, ip, src_port, dst_port,
                seq_after(seq, b1.len() as int), b2);
            &&& whole.1 == first.1 + second.1
            &&& whole.0 == second.0
        }),
{
    let e = Map::<u64, (Seq<u8>, Map<u32, Seq<u8>>, Option<u32>)>::empty();
    let key = flow_key(ip_u32(ip), src_port, dst_port);
    lemma_segments_reassembled(seq, b1, b2);
    let first = stream_feed(Seq::empty(), Map::empty(), None, seq, b1);
    let second = stream_feed(first.0.0, first.0.1, first.0.2, seq_after(seq, b1.len() as int), b2);
    let whole = stream_feed(Seq::empty(), Map::empty(), None, seq, b1 + b2);
    lemma_game_notify_concat(first.1, second.1);
    let t1 = session_feed(e, None, None, ip, src_port, dst_port, seq, b1);
    assert(t1.0.0 == e.insert(key, first.0));
    assert(t1.0.0.contains_key(key) && t1.0.0[key] == first.0);
    assert(e.insert(key, first.0).insert(key, second.0) =~= e.insert(key, second.0));
    assert(!outside_subnet(t1.0.2, ip));
}

} // verus!
