//! The text of the raw packet log: a header line per packet, then a hex and
//! character dump of its bytes, 32 to a line. Appending the text to the log
//! file is the caller's part.

use vstd::prelude::*;
use vstd::string::*;
use crate::text::{digit_char, digit_str, digits, push_char, push_digits};

verus! {

/// Bytes per dump line.
pub const DUMP_WIDTH: usize = 32;

/// Two lowercase hexadecimal digits of a byte.
pub open spec fn hex_pair(b: u8) -> Seq<char> {
    seq![digit_char(b as nat / 16), digit_char(b as nat % 16)]
}

/// The hexadecimal pairs of the bytes, separated by single spaces.
pub open spec fn hex_join(c: Seq<u8>) -> Seq<char>
    decreases c.len(),
{
    if c.len() == 0 {
        Seq::empty()
    } else if c.len() == 1 {
        hex_pair(c[0])
    } else {
        hex_join(c.drop_last()) + seq![' '] + hex_pair(c.last())
    }
}

/// `n` spaces.
pub open spec fn spaces(n: nat) -> Seq<char> {
    Seq::new(n, |i: int| ' ')
}

/// Text padded with spaces on the right to `w` characters.
pub open spec fn pad_right(s: Seq<char>, w: nat) -> Seq<char> {
    if s.len() < w { s + spaces((w - s.len()) as nat) } else { s }
}

/// Text padded with zeros on the left to `w` characters.
pub open spec fn pad_zero(s: Seq<char>, w: nat) -> Seq<char> {
    if s.len() < w { Seq::new((w - s.len()) as nat, |i: int| '0') + s } else { s }
}

/// How a byte shows in the character column: printable ASCII and the
/// space as themselves, anything else as a dot.
pub open spec fn shown_char(b: u8) -> char {
    if 0x20 <= b <= 0x7e { b as char } else { '.' }
}

pub open spec fn shown(c: Seq<u8>) -> Seq<char> {
    c.map_values(|b: u8| shown_char(b))
}

/// The end of the dump line that starts at `start`.
pub open spec fn chunk_end(len: nat, start: nat) -> nat {
    if start + 32 <= len { start + 32 } else { len }
}

/// The dump line of the bytes from `start`: the offset in six or more
/// hexadecimal digits, the bytes in hexadecimal padded to a full line, and
/// the bytes as characters.
pub open spec fn dump_line(data: Seq<u8>, start: nat) -> Seq<char> {
    let c = data.subrange(start as int, chunk_end(data.len(), start) as int);
    pad_zero(digits(start, 16), 6) + seq![' ', ' '] + pad_right(hex_join(c), 95) + seq![' ', ' '] + shown(c) + seq!['\n']
}

/// The dump lines of the first `k` chunks of the data.
pub open spec fn dump_lines(data: Seq<u8>, k: nat) -> Seq<char>
    decreases k,
{
    if k == 0 { Seq::empty() } else { dump_lines(data, (k - 1) as nat) + dump_line(data, ((k - 1) * 32) as nat) }
}

/// How many dump lines the data takes.
pub open spec fn line_count(len: nat) -> nat {
    (len + 31) / 32
}

/// The log entry of a packet: `# time proto src_port dst_port length`, the
/// dump lines, and an empty line.
pub open spec fn packet_entry(ts_us: u64, proto: Seq<char>, src_port: u16, dst_port: u16, data: Seq<u8>) -> Seq<char> {
    seq!['#', ' '] + digits(ts_us as nat, 10) + seq![' '] + proto + seq![' '] + digits(src_port as nat, 10)
        + seq![' '] + digits(dst_port as nat, 10) + seq![' '] + digits(data.len(), 10) + seq!['\n']
        + dump_lines(data, line_count(data.len())) + seq!['\n']
}

fn push_spaces(s: &mut String, n: usize)
    ensures
        final(s)@ == old(s)@ + spaces(n as nat),
{
    let mut k: usize = 0;
    while k < n
        invariant
            k <= n,
            s@ == old(s)@ + spaces(k as nat),
        decreases n - k,
    {
        push_char(s, ' ');
        assert(s@ =~= old(s)@ + spaces((k + 1) as nat));
        k = k + 1;
    }
}

fn push_zero_padded_hex(s: &mut String, n: u64, w: usize)
    ensures
        final(s)@ == old(s)@ + pad_zero(digits(n as nat, 16), w as nat),
{
    let mut d = String::new();
    push_digits(&mut d, n, 16);
    assert(d@ =~= digits(n as nat, 16));
    let len = d.as_str().unicode_len();
    if len < w {
        let mut k: usize = 0;
        while k < w - len
            invariant
                len < w,
                k <= w - len,
                s@ == old(s)@ + Seq::new(k as nat, |i: int| '0'),
            decreases w - len - k,
        {
            push_char(s, '0');
            assert(s@ =~= old(s)@ + Seq::new((k + 1) as nat, |i: int| '0'));
            k = k + 1;
        }
    }
    s.append(d.as_str());
    assert(s@ =~= old(s)@ + pad_zero(digits(n as nat, 16), w as nat));
}

fn shown_byte(b: u8) -> (r: char)
    ensures
        r == shown_char(b),
{
    if 0x20 <= b && b <= 0x7e { b as char } else { '.' }
}

fn push_dump_line(s: &mut String, data: &[u8], start: usize)
    requires
        start < data@.len(),
    ensures
        final(s)@ == old(s)@ + dump_line(data@, start as nat),
{
    let end: usize = if data.len() - start > DUMP_WIDTH { start + DUMP_WIDTH } else { data.len() };
    assert(end == chunk_end(data@.len(), start as nat));
    let ghost c = data@.subrange(start as int, end as int);
    push_zero_padded_hex(s, start as u64, 6);
    s.append("  ");
    proof { reveal_strlit("  "); }
    let mut hex = String::new();
    let mut k: usize = start;
    while k < end
        invariant
            start < end <= data@.len(),
            start <= k <= end,
            hex@ == hex_join(data@.subrange(start as int, k as int)),
        decreases end - k,
    {
        let ghost prev = data@.subrange(start as int, k as int);
        let ghost next = data@.subrange(start as int, k + 1);
        assert(next.drop_last() =~= prev);
        assert(next.last() == data@[k as int]);
        if k > start {
            push_char(&mut hex, ' ');
        }
        hex.append(digit_str((data[k] / 16) as u64));
        hex.append(digit_str((data[k] % 16) as u64));
        assert(hex@ =~= hex_join(next));
        k = k + 1;
    }
    let hl = hex.as_str().unicode_len();
    s.append(hex.as_str());
    if hl < 95 {
        push_spaces(s, 95 - hl);
    }
    s.append("  ");
    let ghost before_chars = s@;
    let mut q: usize = start;
    while q < end
        invariant
            start < end <= data@.len(),
            start <= q <= end,
            s@ == before_chars + shown(data@.subrange(start as int, q as int)),
        decreases end - q,
    {
        push_char(s, shown_byte(data[q]));
        assert(shown(data@.subrange(start as int, q + 1)) =~= shown(data@.subrange(start as int, q as int)).push(shown_char(data@[q as int])));
        q = q + 1;
    }
    push_char(s, '\n');
    assert(s@ =~= old(s)@ + dump_line(data@, start as nat));
}

/// The log entry of a packet seen at `ts_us` microseconds since the epoch.
pub fn log_packet(ts_us: u64, proto: &str, src_port: u16, dst_port: u16, data: &[u8]) -> (r: String)
    ensures
        r@ == packet_entry(ts_us, proto@, src_port, dst_port, data@),
{
    let mut s = String::new();
    s.append("# ");
    proof { reveal_strlit("# "); }
    push_digits(&mut s, ts_us, 10);
    push_char(&mut s, ' ');
    s.append(proto);
    push_char(&mut s, ' ');
    push_digits(&mut s, src_port as u64, 10);
    push_char(&mut s, ' ');
    push_digits(&mut s, dst_port as u64, 10);
    push_char(&mut s, ' ');
    push_digits(&mut s, data.len() as u64, 10);
    push_char(&mut s, '\n');
    let ghost head = s@;
    assert(head =~= seq!['#', ' '] + digits(ts_us as nat, 10) + seq![' '] + proto@ + seq![' '] + digits(src_port as nat, 10)
        + seq![' '] + digits(dst_port as nat, 10) + seq![' '] + digits(data@.len(), 10) + seq!['\n']);
    let len = data.len();
    let mut start: usize = 0;
    let mut j: usize = 0;
    while start < len
        invariant
            len == data@.len(),
            start <= len,
            start as int == (if 32 * j <= len { 32 * j } else { len as int }),
            j <= line_count(len as nat),
            s@ == head + dump_lines(data@, j as nat),
        decreases len - start,
    {
        push_dump_line(&mut s, data, start);
        assert(dump_lines(data@, (j + 1) as nat) == dump_lines(data@, j as nat) + dump_line(data@, (j * 32) as nat));
        start = if len - start > DUMP_WIDTH { start + DUMP_WIDTH } else { len };
        j = j + 1;
    }
    assert(j == line_count(len as nat));
    push_char(&mut s, '\n');
    assert(s@ =~= packet_entry(ts_us, proto@, src_port, dst_port, data@));
    s
}

} // verus!
