//! Preset codes: a list of stat priorities as text, `ZMO:` followed by one
//! `effect-mode-level` segment per priority (mode 0 for "at least", 1 for
//! "exactly"), the segments joined with commas.

use vstd::prelude::*;
use crate::chat::{after_prefix, parse_dec, strip_prefix, parse_u64_dec};
use crate::optimizer::{StatMode, StatPriority};
use crate::text::{digits, i64_to_dec, push_digits, signed_dec};
use crate::window::{parse_i32_dec, parse_i32_text};
use vstd::string::*;

verus! {

/// The pieces of `s` between the characters `c`, from `i` on, the current
/// piece starting at `start`, as `str::split` gives them: always at least
/// one, empty ones included.
pub open spec fn pieces_from(s: Seq<char>, c: char, start: int, i: int) -> Seq<Seq<char>>
    decreases s.len() - i,
{
    if i >= s.len() {
        seq![s.subrange(start, s.len() as int)]
    } else if s[i] == c {
        seq![s.subrange(start, i)] + pieces_from(s, c, i + 1, i + 1)
    } else {
        pieces_from(s, c, start, i + 1)
    }
}

/// The pieces of `s` between the characters `c`.
pub open spec fn split_text(s: Seq<char>, c: char) -> Seq<Seq<char>> {
    pieces_from(s, c, 0, 0)
}

pub open spec fn strs_view<'a>(v: Seq<&'a str>) -> Seq<Seq<char>> {
    v.map_values(|l: &'a str| l@)
}

/// Splits text at each `c`, as `str::split` does.
pub fn split_at<'a>(s: &'a str, c: char) -> (r: Vec<&'a str>)
    ensures
        strs_view(r@) == split_text(s@, c),
{
    let n = s.unicode_len();
    let mut out: Vec<&'a str> = Vec::new();
    let mut start: usize = 0;
    let mut i: usize = 0;
    while i < n
        invariant
            n == s@.len(),
            start <= i <= n,
            strs_view(out@) + pieces_from(s@, c, start as int, i as int) == split_text(s@, c),
        decreases n - i,
    {
        if s.get_char(i) == c {
            let piece = s.substring_char(start, i);
            let ghost before = strs_view(out@);
            out.push(piece);
            assert(strs_view(out@) =~= before.push(piece@));
            assert(strs_view(out@) + pieces_from(s@, c, i + 1, i + 1) =~= before + pieces_from(s@, c, start as int, i as int));
            start = i + 1;
        }
        i = i + 1;
    }
    let ghost before = strs_view(out@);
    out.push(s.substring_char(start, n));
    assert(strs_view(out@) =~= before + pieces_from(s@, c, start as int, n as int));
    out
}

/// `u8` parsing: an optional `+`, then at least one ASCII digit, the value
/// within range.
pub open spec fn parse_u8_text(s: Seq<char>) -> Option<u8> {
    match parse_dec(s) {
        Some(v) => if v <= 255 { Some(v as u8) } else { None },
        None => None,
    }
}

fn parse_u8_dec(s: &str) -> (r: Option<u8>)
    ensures
        r == parse_u8_text(s@),
{
    match parse_u64_dec(s) {
        Some(v) => if v <= 255 { Some(v as u8) } else { None },
        None => None,
    }
}

/// The text of one priority: effect id, mode and level, joined with `-`.
pub open spec fn segment_text(p: StatPriority) -> Seq<char> {
    signed_dec(p.effect_id as int) + seq!['-'] + (if p.mode == StatMode::AtLeast { seq!['0'] } else { seq!['1'] })
        + seq!['-'] + digits(p.req_level as nat, 10)
}

/// The first `k` segments joined with commas.
pub open spec fn joined_segments(ps: Seq<StatPriority>, k: int) -> Seq<char>
    decreases k,
{
    if k <= 0 {
        Seq::empty()
    } else if k == 1 {
        segment_text(ps[0])
    } else {
        joined_segments(ps, k - 1) + seq![','] + segment_text(ps[k - 1])
    }
}

/// The preset code of a list of priorities.
pub open spec fn preset_text(ps: Seq<StatPriority>) -> Seq<char> {
    "ZMO:"@ + joined_segments(ps, ps.len() as int)
}

/// One segment read back, or the message saying what is wrong with it.
pub open spec fn segment_of(part: Seq<char>) -> Result<StatPriority, Seq<char>> {
    let p = split_text(part, '-');
    if p.len() != 3 {
        Err("Bad segment: "@ + part)
    } else {
        match parse_i32_text(p[0]) {
            None => Err("Bad effect_id: "@ + p[0]),
            Some(effect_id) => match parse_u8_text(p[1]) {
                None => Err("Bad mode"@),
                Some(m) => match parse_u8_text(p[2]) {
                    None => Err("Bad req_level"@),
                    Some(req_level) => Ok(StatPriority {
                        effect_id,
                        req_level,
                        mode: if m == 0 { StatMode::AtLeast } else { StatMode::Exactly },
                    }),
                },
            },
        }
    }
}

/// The first `k` segments read back, stopping at the first bad one.
pub open spec fn segments_of(parts: Seq<Seq<char>>, k: int) -> Result<Seq<StatPriority>, Seq<char>>
    decreases k,
{
    if k <= 0 {
        Ok(Seq::empty())
    } else {
        match segments_of(parts, k - 1) {
            Err(e) => Err(e),
            Ok(ps) => match segment_of(parts[k - 1]) {
                Err(e) => Err(e),
                Ok(p) => Ok(ps.push(p)),
            },
        }
    }
}

/// A preset code read back: its priorities, or the message saying what is
/// wrong with it.
pub open spec fn preset_of(code: Seq<char>) -> Result<Seq<StatPriority>, Seq<char>> {
    match after_prefix(code, "ZMO:"@) {
        None => Err("Invalid preset code (must start with ZMO:)"@),
        Some(inner) => {
            let parts = split_text(inner, ',');
            segments_of(parts, parts.len() as int)
        },
    }
}

fn push_segment(s: &mut String, p: StatPriority)
    ensures
        final(s)@ == old(s)@ + segment_text(p),
{
    let e = i64_to_dec(p.effect_id as i64);
    s.append(e.as_str());
    s.append("-");
    proof { reveal_strlit("-"); reveal_strlit("0"); reveal_strlit("1"); }
    match p.mode {
        StatMode::AtLeast => s.append("0"),
        StatMode::Exactly => s.append("1"),
    }
    s.append("-");
    push_digits(s, p.req_level as u64, 10);
    assert(s@ =~= old(s)@ + segment_text(p));
}

/// The preset code of a list of priorities.
pub fn encode_preset(priorities: &Vec<StatPriority>) -> (r: String)
    ensures
        r@ == preset_text(priorities@),
{
    let mut s = String::from_str("ZMO:");
    proof { reveal_strlit("ZMO:"); reveal_strlit(","); }
    let n = priorities.len();
    let mut k: usize = 0;
    while k < n
        invariant
            n == priorities@.len(),
            k <= n,
            s@ == "ZMO:"@ + joined_segments(priorities@, k as int),
        decreases n - k,
    {
        let ghost before = s@;
        if k > 0 {
            s.append(",");
            proof { reveal_strlit(","); }
            assert(s@ == before + seq![',']);
        }
        let p = priorities[k];
        assert(p == priorities@[k as int]);
        push_segment(&mut s, p);
        if k == 0 {
            assert(joined_segments(priorities@, 1) == segment_text(priorities@[0]));
            assert(s@ =~= "ZMO:"@ + joined_segments(priorities@, k + 1));
        } else {
            assert(joined_segments(priorities@, k + 1) == joined_segments(priorities@, k as int) + seq![','] + segment_text(priorities@[k as int]));
            assert(s@ =~= "ZMO:"@ + joined_segments(priorities@, k + 1));
        }
        k = k + 1;
    }
    s
}

fn decode_segment(part: &str) -> (r: Result<StatPriority, String>)
    ensures
        match segment_of(part@) {
            Ok(p) => r == Ok::<StatPriority, String>(p),
            Err(e) => r matches Err(m) && m@ == e,
        },
{
    proof {
        reveal_strlit("Bad segment: ");
        reveal_strlit("Bad effect_id: ");
        reveal_strlit("Bad mode");
        reveal_strlit("Bad req_level");
    }
    let p = split_at(part, '-');
    if p.len() != 3 {
        let mut m = String::from_str("Bad segment: ");
        m.append(part);
        return Err(m);
    }
    assert(strs_view(p@)[0] == p@[0]@ && strs_view(p@)[1] == p@[1]@ && strs_view(p@)[2] == p@[2]@);
    let effect_id = match parse_i32_dec(p[0]) {
        Some(v) => v,
        None => {
            let mut m = String::from_str("Bad effect_id: ");
            m.append(p[0]);
            return Err(m);
        },
    };
    let mode_n = match parse_u8_dec(p[1]) {
        Some(v) => v,
        None => return Err(String::from_str("Bad mode")),
    };
    let req_level = match parse_u8_dec(p[2]) {
        Some(v) => v,
        None => return Err(String::from_str("Bad req_level")),
    };
    Ok(StatPriority { effect_id, req_level, mode: if mode_n == 0 { StatMode::AtLeast } else { StatMode::Exactly } })
}

/// Reads a preset code back: its priorities, or a message saying what is
/// wrong with it.
pub fn decode_preset(code: &str) -> (r: Result<Vec<StatPriority>, String>)
    ensures
        match preset_of(code@) {
            Ok(ps) => r matches Ok(v) && v@ == ps,
            Err(e) => r matches Err(m) && m@ == e,
        },
{
    proof {
        reveal_strlit("ZMO:");
        reveal_strlit("Invalid preset code (must start with ZMO:)");
    }
    let inner = match strip_prefix(code, "ZMO:") {
        Some(t) => t,
        None => return Err(String::from_str("Invalid preset code (must start with ZMO:)")),
    };
    let parts = split_at(inner, ',');
    let ghost pv = strs_view(parts@);
    let mut prios: Vec<StatPriority> = Vec::new();
    let mut k: usize = 0;
    while k < parts.len()
        invariant
            k <= parts@.len(),
            pv == strs_view(parts@),
            pv == split_text(inner@, ','),
            after_prefix(code@, "ZMO:"@) == Some(inner@),
            segments_of(pv, k as int) == Ok::<Seq<StatPriority>, Seq<char>>(prios@),
        decreases parts@.len() - k,
    {
        assert(pv[k as int] == parts@[k as int]@);
        match decode_segment(parts[k]) {
            Ok(p) => {
                let ghost before = prios@;
                prios.push(p);
                assert(segments_of(pv, k + 1) == Ok::<Seq<StatPriority>, Seq<char>>(before.push(p)));
            },
            Err(m) => {
                proof {
                    assert(segment_of(pv[k as int]) is Err);
                    assert(segments_of(pv, k + 1) == Err::<Seq<StatPriority>, Seq<char>>(m@));
                    lemma_segments_err(pv, k as int + 1, pv.len() as int);
                    assert(pv == split_text(inner@, ','));
                }
                return Err(m);
            },
        }
        k = k + 1;
    }
    assert(pv == split_text(inner@, ','));
    Ok(prios)
}

/// Once a segment is bad, reading stops with its message.
proof fn lemma_segments_err(parts: Seq<Seq<char>>, k: int, n: int)
    requires
        1 <= k <= n,
        segments_of(parts, k) is Err,
    ensures
        segments_of(parts, n) == segments_of(parts, k),
    decreases n - k,
{
    if k < n {
        lemma_segments_err(parts, k, n - 1);
    }
}

/// Every character of a number's decimal digits is a digit.
proof fn lemma_digits_dec(n: nat)
    ensures
        digits(n, 10).len() > 0,
        forall|i: int| 0 <= i < digits(n, 10).len() ==> '0' <= #[trigger] digits(n, 10)[i] <= '9',
        crate::chat::dec_value(digits(n, 10)) == n,
    decreases n,
{
    if n >= 10 {
        lemma_digits_dec(n / 10);
        let d = digits(n / 10, 10);
        let r = n % 10;
        assert(digits(n, 10) == d.push(crate::text::digit_char(r)));
        assert(digits(n, 10).drop_last() =~= d);
        assert(crate::text::digit_char(r) as int == r + 48);
        assert(n == (n / 10) * 10 + r);
        assert(digits(n, 10).last() == crate::text::digit_char(r));
        assert('0' as int == 48);
        assert(crate::chat::dec_value(digits(n, 10))
            == crate::chat::dec_value(d) * 10 + (crate::text::digit_char(r) as int - '0' as int));
    } else {
        assert('0' as int == 48);
        assert(digits(n, 10).last() == crate::text::digit_char(n));
        assert(crate::chat::dec_value(digits(n, 10).drop_last()) == 0);
        assert(crate::chat::dec_value(digits(n, 10))
            == crate::chat::dec_value(digits(n, 10).drop_last()) * 10 + (crate::text::digit_char(n) as int - '0' as int));
        assert(digits(n, 10) == seq![crate::text::digit_char(n)]);
        assert(digits(n, 10).drop_last() =~= Seq::<char>::empty());
        assert(crate::text::digit_char(n) as int == n + 48);
    }
}

/// Decimal digits read back as the number.
proof fn lemma_parse_digits(n: nat)
    requires
        n <= u64::MAX,
    ensures
        parse_dec(digits(n, 10)) == Some(n as u64),
{
    lemma_digits_dec(n);
    assert(crate::chat::sign_stripped(digits(n, 10)) == digits(n, 10));
}

/// Shifting text behind a prefix shifts its pieces along.
proof fn lemma_pieces_shift(p: Seq<char>, b: Seq<char>, c: char, x: int, y: int)
    requires
        0 <= x <= y <= b.len(),
    ensures
        pieces_from(p + b, c, p.len() + x, p.len() + y) == pieces_from(b, c, x, y),
    decreases b.len() - y,
{
    let t = p + b;
    if y >= b.len() {
        assert(t.subrange(p.len() + x, t.len() as int) =~= b.subrange(x, b.len() as int));
    } else {
        assert(t[p.len() + y] == b[y]);
        if b[y] == c {
            lemma_pieces_shift(p, b, c, y + 1, y + 1);
            assert(t.subrange(p.len() + x, p.len() + y) =~= b.subrange(x, y));
        } else {
            lemma_pieces_shift(p, b, c, x, y + 1);
        }
    }
}

/// Splitting `a`, the separator, then `b` gives the pieces of `a`, then those of `b`.
proof fn lemma_pieces_concat(a: Seq<char>, b: Seq<char>, c: char, start: int, i: int)
    requires
        0 <= start <= i <= a.len(),
    ensures
        pieces_from(a + seq![c] + b, c, start, i) == pieces_from(a, c, start, i) + split_text(b, c),
    decreases a.len() - i,
{
    let t = a + seq![c] + b;
    if i == a.len() {
        assert(t[i] == c);
        assert(t.subrange(start, i) =~= a.subrange(start, a.len() as int));
        assert(t =~= (a + seq![c]) + b);
        lemma_pieces_shift(a + seq![c], b, c, 0, 0);
    } else {
        assert(t[i] == a[i]);
        lemma_pieces_concat(a, b, c, if a[i] == c { i + 1 } else { start }, i + 1);
        if a[i] == c {
            assert(t.subrange(start, i) =~= a.subrange(start, i));
        }
    }
}

/// Text without the separator is one piece.
proof fn lemma_pieces_none(s: Seq<char>, c: char, i: int)
    requires
        0 <= i <= s.len(),
        forall|j: int| 0 <= j < s.len() ==> #[trigger] s[j] != c,
    ensures
        pieces_from(s, c, 0, i) == seq![s],
    decreases s.len() - i,
{
    if i < s.len() {
        lemma_pieces_none(s, c, i + 1);
    } else {
        assert(s.subrange(0, s.len() as int) =~= s);
    }
}

/// The pieces of `a`, the separator, then `b`.
proof fn lemma_split_concat(a: Seq<char>, b: Seq<char>, c: char)
    ensures
        split_text(a + seq![c] + b, c) == split_text(a, c) + split_text(b, c),
{
    lemma_pieces_concat(a, b, c, 0, 0);
}

proof fn lemma_segment_round_trip(p: StatPriority)
    requires
        p.effect_id >= 0,
    ensures
        forall|j: int| 0 <= j < segment_text(p).len() ==> #[trigger] segment_text(p)[j] != ',',
        segment_of(segment_text(p)) == Ok::<StatPriority, Seq<char>>(p),
{
    let d = digits(p.effect_id as nat, 10);
    let m = if p.mode == StatMode::AtLeast { seq!['0'] } else { seq!['1'] };
    let r = digits(p.req_level as nat, 10);
    lemma_digits_dec(p.effect_id as nat);
    lemma_digits_dec(p.req_level as nat);
    assert(segment_text(p) =~= d + seq!['-'] + (m + seq!['-'] + r));
    assert forall|j: int| 0 <= j < segment_text(p).len() implies #[trigger] segment_text(p)[j] != ',' by {
        if j < d.len() {
            assert(segment_text(p)[j] == d[j]);
        } else if j > d.len() + 2 {
            assert(segment_text(p)[j] == r[j - d.len() - 3]);
        }
    }
    lemma_split_concat(d, m + seq!['-'] + r, '-');
    lemma_split_concat(m, r, '-');
    assert forall|j: int| 0 <= j < d.len() implies #[trigger] d[j] != '-' by {}
    assert forall|j: int| 0 <= j < r.len() implies #[trigger] r[j] != '-' by {}
    assert forall|j: int| 0 <= j < m.len() implies #[trigger] m[j] != '-' by {}
    lemma_pieces_none(d, '-', 0);
    lemma_pieces_none(m, '-', 0);
    lemma_pieces_none(r, '-', 0);
    let parts = split_text(segment_text(p), '-');
    assert(parts =~= seq![d, m, r]);
    lemma_parse_digits(p.effect_id as nat);
    lemma_parse_digits(p.req_level as nat);
    assert(d[0] != '-');
    assert(parse_i32_text(d) == Some(p.effect_id));
    assert(crate::chat::sign_stripped(m) == m);
    assert(m.drop_last() =~= Seq::<char>::empty());
    assert(crate::chat::dec_value(m.drop_last()) == 0);
    assert(crate::chat::all_digits(m));
    if p.mode == StatMode::AtLeast {
        assert(crate::chat::dec_value(m) == 0);
        assert(parse_dec(m) == Some(0u64));
    } else {
        assert(crate::chat::dec_value(m) == 1);
        assert(parse_dec(m) == Some(1u64));
    }
    assert(parse_u8_text(r) == Some(p.req_level));
}

proof fn lemma_joined_split(ps: Seq<StatPriority>, k: int)
    requires
        1 <= k <= ps.len(),
        forall|i: int| 0 <= i < ps.len() ==> (#[trigger] ps[i]).effect_id >= 0,
    ensures
        split_text(joined_segments(ps, k), ',') == ps.take(k).map_values(|p: StatPriority| segment_text(p)),
    decreases k,
{
    lemma_segment_round_trip(ps[k - 1]);
    let sk = segment_text(ps[k - 1]);
    lemma_pieces_none(sk, ',', 0);
    if k == 1 {
        assert(ps.take(1).map_values(|p: StatPriority| segment_text(p)) =~= seq![sk]);
    } else {
        lemma_joined_split(ps, k - 1);
        lemma_split_concat(joined_segments(ps, k - 1), sk, ',');
        assert(ps.take(k).map_values(|p: StatPriority| segment_text(p))
            =~= ps.take(k - 1).map_values(|p: StatPriority| segment_text(p)).push(sk));
    }
}

proof fn lemma_segments_read(ps: Seq<StatPriority>, parts: Seq<Seq<char>>, k: int)
    requires
        0 <= k <= ps.len(),
        parts == ps.map_values(|p: StatPriority| segment_text(p)),
        forall|i: int| 0 <= i < ps.len() ==> (#[trigger] ps[i]).effect_id >= 0,
    ensures
        segments_of(parts, k) == Ok::<Seq<StatPriority>, Seq<char>>(ps.take(k)),
    decreases k,
{
    if k == 0 {
        assert(ps.take(0) =~= Seq::<StatPriority>::empty());
    } else {
        lemma_segments_read(ps, parts, k - 1);
        lemma_segment_round_trip(ps[k - 1]);
        assert(ps.take(k) =~= ps.take(k - 1).push(ps[k - 1]));
    }
}

/// A preset code reads back as the priorities it was made of, for any
/// non-empty list of priorities with effect ids of 0 or more.
pub proof fn lemma_preset_round_trip(ps: Seq<StatPriority>)
    requires
        ps.len() > 0,
        forall|i: int| 0 <= i < ps.len() ==> (#[trigger] ps[i]).effect_id >= 0,
    ensures
        preset_of(preset_text(ps)) == Ok::<Seq<StatPriority>, Seq<char>>(ps),
{
    reveal_strlit("ZMO:");
    let j = joined_segments(ps, ps.len() as int);
    assert(preset_text(ps).subrange(0, 4) =~= "ZMO:"@);
    assert(preset_text(ps).subrange(4, preset_text(ps).len() as int) =~= j);
    lemma_joined_split(ps, ps.len() as int);
    assert(ps.take(ps.len() as int) =~= ps);
    lemma_segments_read(ps, ps.map_values(|p: StatPriority| segment_text(p)), ps.len() as int);
}

} // verus!
