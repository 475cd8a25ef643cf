//! Finding the game window from what the window tools print: the first id
//! that `xdotool search` lists, the `KEY=value` lines of
//! `xdotool getwindowgeometry --shell`, and the columns of `wmctrl -l -G`.
//! Running the tools is the caller's part; a tool that failed is `None`.

use vstd::prelude::*;
use vstd::string::*;
use crate::attrs::trim_text;
use crate::chat::{after_prefix, all_digits, dec_value, parse_dec, parse_u64_dec, strip_prefix};
use crate::fishing::{has_infix, str_contains};
use crate::tables::opt_text;
use crate::text::{is_white, is_white_space, lowercase, lowercase_text, trim_white_end, trim_white_start};

verus! {

/// The texts of a list of string slices.
pub open spec fn strs_view<'a>(v: Seq<&'a str>) -> Seq<Seq<char>> {
    v.map_values(|l: &'a str| l@)
}

/// A line without the `'\r'` of a `"\r\n"` ending.
pub open spec fn line_body(l: Seq<char>) -> Seq<char> {
    if l.len() > 0 && l.last() == '\r' { l.drop_last() } else { l }
}

/// The lines of `s` from `i` on, the current one starting at `start`, as
/// `str::lines` gives them: split at `'\n'`, a `'\r'` before it dropped, and
/// no empty line after a final `'\n'`.
pub open spec fn lines_from(s: Seq<char>, start: int, i: int) -> Seq<Seq<char>>
    decreases s.len() - i,
{
    if i >= s.len() {
        if 0 <= start < s.len() { seq![s.subrange(start, s.len() as int)] } else { Seq::empty() }
    } else if s[i] == '\n' {
        seq![line_body(s.subrange(start, i))] + lines_from(s, i + 1, i + 1)
    } else {
        lines_from(s, start, i + 1)
    }
}

pub open spec fn text_lines(s: Seq<char>) -> Seq<Seq<char>> {
    lines_from(s, 0, 0)
}

/// The words of `s` from `i` on, as `str::split_whitespace` gives them; a
/// word under way started at `start`.
pub open spec fn words_from(s: Seq<char>, start: Option<int>, i: int) -> Seq<Seq<char>>
    decreases s.len() - i,
{
    if i >= s.len() {
        match start {
            Some(k) => seq![s.subrange(k, s.len() as int)],
            None => Seq::empty(),
        }
    } else if is_white_space(s[i]) {
        match start {
            Some(k) => seq![s.subrange(k, i)] + words_from(s, None, i + 1),
            None => words_from(s, None, i + 1),
        }
    } else {
        match start {
            Some(k) => words_from(s, Some(k), i + 1),
            None => words_from(s, Some(i), i + 1),
        }
    }
}

pub open spec fn words(s: Seq<char>) -> Seq<Seq<char>> {
    words_from(s, None, 0)
}

/// The words joined by single spaces.
pub open spec fn joined(ws: Seq<Seq<char>>) -> Seq<char>
    decreases ws.len(),
{
    if ws.len() == 0 {
        Seq::empty()
    } else if ws.len() == 1 {
        ws[0]
    } else {
        joined(ws.drop_last()) + seq![' '] + ws.last()
    }
}

/// `i32` parsing: an optional sign, then at least one ASCII digit, the
/// value within range.
pub open spec fn parse_i32_text(s: Seq<char>) -> Option<i32> {
    if s.len() > 0 && s[0] == '-' {
        let b = s.drop_first();
        if b.len() > 0 && all_digits(b) && dec_value(b) <= 0x8000_0000 {
            Some((-dec_value(b)) as i32)
        } else {
            None
        }
    } else {
        match parse_dec(s) {
            Some(v) => if v <= 0x7fff_ffff { Some(v as i32) } else { None },
            None => None,
        }
    }
}

/// `u32` parsing: an optional `+`, then at least one ASCII digit, the value
/// within range.
pub open spec fn parse_u32_text(s: Seq<char>) -> Option<u32> {
    match parse_dec(s) {
        Some(v) => if v <= 0xffff_ffff { Some(v as u32) } else { None },
        None => None,
    }
}

pub open spec fn trimmed(s: Seq<char>) -> Seq<char> {
    trim_white_end(trim_white_start(s))
}

/// The first window id `xdotool search` lists: its first line, trimmed,
/// where that is not empty.
pub open spec fn first_id(out: Seq<char>) -> Option<Seq<char>> {
    let ls = text_lines(out);
    if ls.len() > 0 && trimmed(ls[0]).len() > 0 { Some(trimmed(ls[0])) } else { None }
}

/// One line of `getwindowgeometry --shell` applied to what was read so far:
/// `X=`, `Y=`, `WIDTH=` and `HEIGHT=` set their value; a value that does not
/// parse spoils the whole reading.
pub open spec fn geom_line(l: Seq<char>, acc: (i32, i32, u32, u32)) -> Option<(i32, i32, u32, u32)> {
    let a1 = match after_prefix(l, "X="@) {
        Some(v) => match parse_i32_text(trimmed(v)) { Some(x) => Some((x, acc.1, acc.2, acc.3)), None => None },
        None => Some(acc),
    };
    let a2 = match a1 {
        Some(a) => match after_prefix(l, "Y="@) {
            Some(v) => match parse_i32_text(trimmed(v)) { Some(y) => Some((a.0, y, a.2, a.3)), None => None },
            None => Some(a),
        },
        None => None,
    };
    let a3 = match a2 {
        Some(a) => match after_prefix(l, "WIDTH="@) {
            Some(v) => match parse_u32_text(trimmed(v)) { Some(w) => Some((a.0, a.1, w, a.3)), None => None },
            None => Some(a),
        },
        None => None,
    };
    match a3 {
        Some(a) => match after_prefix(l, "HEIGHT="@) {
            Some(v) => match parse_u32_text(trimmed(v)) { Some(h) => Some((a.0, a.1, a.2, h)), None => None },
            None => Some(a),
        },
        None => None,
    }
}

/// The lines from `k` on applied in turn.
pub open spec fn geom_fold(ls: Seq<Seq<char>>, k: int, acc: (i32, i32, u32, u32)) -> Option<(i32, i32, u32, u32)>
    decreases ls.len() - k,
{
    if k >= ls.len() {
        Some(acc)
    } else {
        match geom_line(ls[k], acc) {
            Some(a) => geom_fold(ls, k + 1, a),
            None => None,
        }
    }
}

/// The window's position and size from `getwindowgeometry --shell`, where
/// every value parses and the size is not zero.
pub open spec fn geometry_of(text: Seq<char>) -> Option<(i32, i32, u32, u32)> {
    match geom_fold(text_lines(text), 0, (0, 0, 0, 0)) {
        Some(g) => if g.2 > 0 && g.3 > 0 { Some(g) } else { None },
        None => None,
    }
}

/// A number column of `wmctrl`, 0 where it does not parse.
pub open spec fn i32_or_zero(s: Seq<char>) -> i32 {
    match parse_i32_text(s) { Some(v) => v, None => 0 }
}

pub open spec fn u32_or_zero(s: Seq<char>) -> u32 {
    match parse_u32_text(s) { Some(v) => v, None => 0 }
}

/// A `wmctrl -l -G` line of a window whose title (the eighth column on,
/// lower-cased) holds the wanted lower-cased title, with a size that is
/// not zero: its id, position and size.
pub open spec fn wmctrl_line(l: Seq<char>, want: Seq<char>) -> Option<(Seq<char>, i32, i32, u32, u32)> {
    let cols = words(l);
    if cols.len() >= 8 && has_infix(lowercase_text(joined(cols.skip(7))), want) {
        let w = u32_or_zero(cols[4]);
        let h = u32_or_zero(cols[5]);
        if w > 0 && h > 0 {
            Some((cols[0], i32_or_zero(cols[2]), i32_or_zero(cols[3]), w, h))
        } else {
            None
        }
    } else {
        None
    }
}

/// The first of the lines from `k` on that `wmctrl_line` accepts.
pub open spec fn wmctrl_from(ls: Seq<Seq<char>>, k: int, want: Seq<char>) -> Option<(Seq<char>, i32, i32, u32, u32)>
    decreases ls.len() - k,
{
    if k >= ls.len() {
        None
    } else {
        match wmctrl_line(ls[k], want) {
            Some(r) => Some(r),
            None => wmctrl_from(ls, k + 1, want),
        }
    }
}

/// The game window: none for an empty title; else the first window that
/// `xdotool search` lists, placed where its geometry says; else the first
/// `wmctrl` window whose title holds the wanted one, case aside.
pub open spec fn window_of(title: Seq<char>, search: Option<Seq<char>>, geometry: Option<Seq<char>>,
    listing: Option<Seq<char>>) -> Option<(Seq<char>, i32, i32, u32, u32)> {
    let via_xdotool = match search {
        Some(s) => match first_id(s) {
            Some(id) => match geometry {
                Some(g) => match geometry_of(g) {
                    Some(p) => Some((id, p.0, p.1, p.2, p.3)),
                    None => None,
                },
                None => None,
            },
            None => None,
        },
        None => None,
    };
    if title.len() == 0 {
        None
    } else if via_xdotool is Some {
        via_xdotool
    } else {
        match listing {
            Some(t) => wmctrl_from(text_lines(t), 0, lowercase_text(title)),
            None => None,
        }
    }
}

pub open spec fn window_view(r: Option<(String, i32, i32, u32, u32)>) -> Option<(Seq<char>, i32, i32, u32, u32)> {
    match r {
        Some(w) => Some((w.0@, w.1, w.2, w.3, w.4)),
        None => None,
    }
}

/// Splits text into lines.
pub fn split_lines<'a>(s: &'a str) -> (r: Vec<&'a str>)
    ensures
        strs_view(r@) == text_lines(s@),
{
    let n = s.unicode_len();
    let mut out: Vec<&'a str> = Vec::new();
    let mut start: usize = 0;
    let mut i: usize = 0;
    while i < n
        invariant
            n == s@.len(),
            start <= i <= n,
            strs_view(out@) + lines_from(s@, start as int, i as int) == text_lines(s@),
        decreases n - i,
    {
        if s.get_char(i) == '\n' {
            let piece = s.substring_char(start, i);
            let m = piece.unicode_len();
            let line = if m > 0 && piece.get_char(m - 1) == '\r' { piece.substring_char(0, m - 1) } else { piece };
            proof {
                if m > 0 && piece@[m - 1] == '\r' {
                    assert(line@ =~= piece@.drop_last());
                }
                assert(line@ == line_body(s@.subrange(start as int, i as int)));
            }
            let ghost before = strs_view(out@);
            out.push(line);
            assert(strs_view(out@) =~= before.push(line@));
            assert(strs_view(out@) + lines_from(s@, i + 1, i + 1) =~= before + lines_from(s@, start as int, i as int));
            start = i + 1;
        }
        i = i + 1;
    }
    if start < n {
        let ghost before = strs_view(out@);
        out.push(s.substring_char(start, n));
        assert(strs_view(out@) =~= before + lines_from(s@, start as int, n as int));
    } else {
        assert(strs_view(out@) =~= strs_view(out@) + lines_from(s@, start as int, n as int));
    }
    out
}

/// Splits text at white space.
pub fn split_words<'a>(s: &'a str) -> (r: Vec<&'a str>)
    ensures
        strs_view(r@) == words(s@),
{
    let n = s.unicode_len();
    let mut out: Vec<&'a str> = Vec::new();
    let mut start: Option<usize> = None;
    let mut i: usize = 0;
    while i < n
        invariant
            n == s@.len(),
            i <= n,
            start matches Some(k) ==> k < i,
            strs_view(out@) + words_from(s@, match start { Some(k) => Some(k as int), None => None }, i as int) == words(s@),
        decreases n - i,
    {
        let c = s.get_char(i);
        if is_white(c) {
            match start {
                Some(k) => {
                    let ghost before = strs_view(out@);
                    out.push(s.substring_char(k, i));
                    assert(strs_view(out@) + words_from(s@, None, i + 1) =~= before + words_from(s@, Some(k as int), i as int));
                },
                None => {},
            }
            start = None;
        } else {
            if start.is_none() {
                start = Some(i);
            }
        }
        i = i + 1;
    }
    match start {
        Some(k) => {
            let ghost before = strs_view(out@);
            out.push(s.substring_char(k, n));
            assert(strs_view(out@) =~= before + words_from(s@, Some(k as int), n as int));
        },
        None => {
            assert(strs_view(out@) =~= strs_view(out@) + words_from(s@, None, n as int));
        },
    }
    out
}

/// The words from `k` on, joined by single spaces.
fn join_from(ws: &Vec<&str>, k: usize) -> (r: String)
    requires
        k <= ws@.len(),
    ensures
        r@ == joined(strs_view(ws@).skip(k as int)),
{
    let mut out = String::new();
    let mut i: usize = k;
    assert(strs_view(ws@).subrange(k as int, k as int) =~= Seq::<Seq<char>>::empty());
    while i < ws.len()
        invariant
            k <= i <= ws@.len(),
            out@ == joined(strs_view(ws@).subrange(k as int, i as int)),
        decreases ws@.len() - i,
    {
        let ghost prev = strs_view(ws@).subrange(k as int, i as int);
        let ghost next = strs_view(ws@).subrange(k as int, i + 1);
        assert(next.drop_last() =~= prev);
        assert(next.last() == ws@[i as int]@);
        if i > k {
            out.append(" ");
            proof { reveal_strlit(" "); }
        }
        out.append(ws[i]);
        assert(out@ =~= joined(next));
        i = i + 1;
    }
    assert(strs_view(ws@).subrange(k as int, ws@.len() as int) =~= strs_view(ws@).skip(k as int));
    out
}

/// Reads a decimal `i32`; `None` where the text is not one.
pub fn parse_i32_dec(s: &str) -> (r: Option<i32>)
    ensures
        r == parse_i32_text(s@),
{
    let n = s.unicode_len();
    if n > 0 && s.get_char(0) == '-' {
        let body = s.substring_char(1, n);
        assert(body@ =~= s@.drop_first());
        if body.unicode_len() > 0 && body.get_char(0) == '+' {
            assert(!all_digits(body@)) by {
                assert(!('0' <= body@[0] <= '9'));
            }
            return None;
        }
        assert(crate::chat::sign_stripped(body@) == body@);
        match parse_u64_dec(body) {
            Some(v) => {
                assert(parse_dec(body@) == Some(v));
                proof { crate::chat::lemma_dec_nonneg(body@); }
                assert(body@.len() > 0 && all_digits(body@) && dec_value(body@) == v);
                if v <= 0x8000_0000 {
                    Some((-(v as i64)) as i32)
                } else {
                    None
                }
            },
            None => {
                proof {
                    if body@.len() > 0 && all_digits(body@) && dec_value(body@) <= 0x8000_0000 {
                        assert(body@[0] != '+');
                        assert(dec_value(body@) <= u64::MAX);
                    }
                }
                None
            },
        }
    } else {
        match parse_u64_dec(s) {
            Some(v) => if v <= 0x7fff_ffff { Some(v as i32) } else { None },
            None => None,
        }
    }
}

/// Reads a decimal `u32`; `None` where the text is not one.
pub fn parse_u32_dec(s: &str) -> (r: Option<u32>)
    ensures
        r == parse_u32_text(s@),
{
    match parse_u64_dec(s) {
        Some(v) => if v <= 0xffff_ffff { Some(v as u32) } else { None },
        None => None,
    }
}

/// The first window id that `xdotool search` lists.
pub fn first_window_id(search_out: &str) -> (r: Option<String>)
    ensures
        match r {
            Some(id) => first_id(search_out@) == Some(id@),
            None => first_id(search_out@) is None,
        },
{
    let ls = split_lines(search_out);
    if ls.len() == 0 {
        return None;
    }
    assert(strs_view(ls@)[0] == ls@[0]@);
    let id = trim_text(ls[0]);
    if id.unicode_len() == 0 {
        None
    } else {
        Some(String::from_str(id))
    }
}

/// Applies one line of `getwindowgeometry --shell`.
fn apply_geom_line(l: &str, acc: (i32, i32, u32, u32)) -> (r: Option<(i32, i32, u32, u32)>)
    ensures
        r == geom_line(l@, acc),
{
    let mut a = acc;
    match strip_prefix(l, "X=") {
        Some(v) => match parse_i32_dec(trim_text(v)) {
            Some(x) => { a = (x, a.1, a.2, a.3); },
            None => { return None; },
        },
        None => {},
    }
    match strip_prefix(l, "Y=") {
        Some(v) => match parse_i32_dec(trim_text(v)) {
            Some(y) => { a = (a.0, y, a.2, a.3); },
            None => { return None; },
        },
        None => {},
    }
    match strip_prefix(l, "WIDTH=") {
        Some(v) => match parse_u32_dec(trim_text(v)) {
            Some(w) => { a = (a.0, a.1, w, a.3); },
            None => { return None; },
        },
        None => {},
    }
    match strip_prefix(l, "HEIGHT=") {
        Some(v) => match parse_u32_dec(trim_text(v)) {
            Some(h) => { a = (a.0, a.1, a.2, h); },
            None => { return None; },
        },
        None => {},
    }
    Some(a)
}

/// The window's position and size from `getwindowgeometry --shell`.
pub fn parse_xdotool_geom(text: &str) -> (r: Option<(i32, i32, u32, u32)>)
    ensures
        r == geometry_of(text@),
{
    let ls = split_lines(text);
    let ghost lv = strs_view(ls@);
    let mut acc: (i32, i32, u32, u32) = (0, 0, 0, 0);
    let mut k: usize = 0;
    while k < ls.len()
        invariant
            lv == strs_view(ls@),
            lv == text_lines(text@),
            k <= ls@.len(),
            geom_fold(lv, 0, (0, 0, 0, 0)) == geom_fold(lv, k as int, acc),
        decreases ls@.len() - k,
    {
        assert(lv[k as int] == ls@[k as int]@);
        match apply_geom_line(ls[k], acc) {
            Some(a) => { acc = a; },
            None => { return None; },
        }
        k = k + 1;
    }
    if acc.2 > 0 && acc.3 > 0 { Some(acc) } else { None }
}

/// Checks one `wmctrl -l -G` line against the lower-cased title.
fn match_wmctrl_line(l: &str, want: &str) -> (r: Option<(String, i32, i32, u32, u32)>)
    ensures
        window_view(r) == wmctrl_line(l@, want@),
{
    let cols = split_words(l);
    let ghost cv = strs_view(cols@);
    if cols.len() < 8 {
        return None;
    }
    let title = join_from(&cols, 7);
    let lower = lowercase(title.as_str());
    if !str_contains(lower.as_str(), want) {
        return None;
    }
    assert(cv[2] == cols@[2]@ && cv[3] == cols@[3]@ && cv[4] == cols@[4]@ && cv[5] == cols@[5]@ && cv[0] == cols@[0]@);
    let x = match parse_i32_dec(cols[2]) { Some(v) => v, None => 0 };
    let y = match parse_i32_dec(cols[3]) { Some(v) => v, None => 0 };
    let w = match parse_u32_dec(cols[4]) { Some(v) => v, None => 0 };
    let h = match parse_u32_dec(cols[5]) { Some(v) => v, None => 0 };
    if w > 0 && h > 0 {
        Some((String::from_str(cols[0]), x, y, w, h))
    } else {
        None
    }
}

/// The first `wmctrl -l -G` window whose title holds `title`, case aside.
pub fn find_in_wmctrl(listing: &str, title: &str) -> (r: Option<(String, i32, i32, u32, u32)>)
    ensures
        window_view(r) == wmctrl_from(text_lines(listing@), 0, lowercase_text(title@)),
{
    let want = lowercase(title);
    let ls = split_lines(listing);
    let ghost lv = strs_view(ls@);
    let mut k: usize = 0;
    while k < ls.len()
        invariant
            lv == strs_view(ls@),
            lv == text_lines(listing@),
            want@ == lowercase_text(title@),
            k <= ls@.len(),
            wmctrl_from(lv, 0, want@) == wmctrl_from(lv, k as int, want@),
        decreases ls@.len() - k,
    {
        assert(lv[k as int] == ls@[k as int]@);
        let r = match_wmctrl_line(ls[k], want.as_str());
        if r.is_some() {
            return r;
        }
        k = k + 1;
    }
    None
}

/// The game window, from what the tools printed: `search` is the output of
/// `xdotool search`, `geometry` that of `getwindowgeometry --shell` for the
/// first id it lists, `listing` that of `wmctrl -l -G`.
pub fn find_game_window(title: &str, search: Option<&str>, geometry: Option<&str>, listing: Option<&str>)
    -> (r: Option<(String, i32, i32, u32, u32)>)
    ensures
        window_view(r) == window_of(title@, opt_text(search), opt_text(geometry), opt_text(listing)),
{
    if title.unicode_len() == 0 {
        return None;
    }
    let via_xdotool = match search {
        Some(s) => match first_window_id(s) {
            Some(id) => match geometry {
                Some(g) => match parse_xdotool_geom(g) {
                    Some(p) => Some((id, p.0, p.1, p.2, p.3)),
                    None => None,
                },
                None => None,
            },
            None => None,
        },
        None => None,
    };
    if via_xdotool.is_some() {
        return via_xdotool;
    }
    match listing {
        Some(t) => find_in_wmctrl(t, title),
        None => None,
    }
}

} // verus!
