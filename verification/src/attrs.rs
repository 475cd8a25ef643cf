//! Gear attribute rolls from the data tables: the basic and advanced
//! lines of an item and its breakthrough options, with their descriptions
//! filled in.

use vstd::prelude::*;
use vstd::string::*;
use crate::text::{is_white, is_white_space, push_char, signed_dec, i64_to_dec, trim_white_end, trim_white_start};
use crate::chat::{parse_dec, parse_u64_dec};
use crate::tables::{AttrDescriptionEntry, BuffEntry, DataTables, EquipAttrLibEntry, EquipAttrSchoolLibEntry, EquipBreakThroughEntry, FightAttrEntry};

verus! {

/// Walks text keeping what lies outside `<...>` tags: returns what is
/// kept and whether the walk ends inside a tag (an unclosed tag runs to
/// the end).
pub open spec fn markup_scan(s: Seq<char>) -> (Seq<char>, bool)
    decreases s.len(),
{
    if s.len() == 0 {
        (Seq::empty(), false)
    } else {
        let (kept, inside) = markup_scan(s.drop_last());
        let c = s.last();
        if inside {
            (kept, c != '>')
        } else if c == '<' {
            (kept, true)
        } else {
            (kept.push(c), false)
        }
    }
}

/// The text without its `<...>` tags.
pub open spec fn strip_markup_text(s: Seq<char>) -> Seq<char> {
    markup_scan(s).0
}

/// Drops `<...>` tags from text.
pub fn strip_markup(s: &str) -> (r: String)
    ensures
        r@ == strip_markup_text(s@),
{
    let n = s.unicode_len();
    let mut out = String::new();
    let mut inside = false;
    let mut i: usize = 0;
    assert(s@.take(0) =~= Seq::<char>::empty());
    while i < n
        invariant
            n == s@.len(),
            i <= n,
            (out@, inside) == markup_scan(s@.take(i as int)),
        decreases n - i,
    {
        let c = s.get_char(i);
        assert(s@.take(i + 1).drop_last() =~= s@.take(i as int));
        assert(s@.take(i + 1).last() == c);
        if inside {
            inside = c != '>';
        } else if c == '<' {
            inside = true;
        } else {
            let ghost before = out@;
            let mut one = String::new();
            push_char(&mut one, c);
            out.append(one.as_str());
            assert(out@ =~= before.push(c));
        }
        i = i + 1;
    }
    assert(s@.take(n as int) =~= s@);
    out
}

/// `p` occurs in `s` at `i`.
pub open spec fn occurs_at(s: Seq<char>, p: Seq<char>, i: int) -> bool {
    0 <= i && i + p.len() <= s.len() && s.subrange(i, i + p.len()) == p
}

/// The first place from `i` on where `p` occurs in `s`.
pub open spec fn find_from(s: Seq<char>, p: Seq<char>, i: int) -> Option<int>
    decreases s.len() + 1 - i,
{
    if i < 0 || i + p.len() > s.len() {
        None
    } else if occurs_at(s, p, i) {
        Some(i)
    } else {
        find_from(s, p, i + 1)
    }
}

/// The first place where `p` occurs in `s`, as `str::find` gives it.
pub open spec fn find_sub(s: Seq<char>, p: Seq<char>) -> Option<int> {
    find_from(s, p, 0)
}

/// What `find_from` finds is an occurrence at or after `i`.
pub proof fn lemma_find_from(s: Seq<char>, p: Seq<char>, i: int)
    requires
        0 <= i,
    ensures
        find_from(s, p, i) matches Some(k) ==> i <= k && occurs_at(s, p, k),
    decreases s.len() + 1 - i,
{
    if i + p.len() <= s.len() && !occurs_at(s, p, i) {
        lemma_find_from(s, p, i + 1);
    }
}

/// Where `p` first occurs in `s`.
pub fn find_text(s: &str, p: &str) -> (r: Option<usize>)
    ensures
        match r {
            Some(k) => find_sub(s@, p@) == Some(k as int),
            None => find_sub(s@, p@) is None,
        },
{
    let n = s.unicode_len();
    let m = p.unicode_len();
    if m > n {
        return None;
    }
    let mut i: usize = 0;
    while i <= n - m
        invariant
            n == s@.len(),
            m == p@.len(),
            m <= n,
            i <= n - m + 1,
            find_sub(s@, p@) == find_from(s@, p@, i as int),
        decreases n - m + 1 - i,
    {
        let part = s.substring_char(i, i + m);
        if crate::labels::str_eq(part, p) {
            return Some(i);
        }
        if i == n - m {
            assert(find_from(s@, p@, i + 1) is None);
            return None;
        }
        i = i + 1;
    }
    None
}

/// The text with every `from` replaced by `to`, left to right.
pub open spec fn replace_all(s: Seq<char>, from: Seq<char>, to: Seq<char>) -> Seq<char>
    decreases s.len(),
{
    if from.len() == 0 {
        s
    } else {
        match find_sub(s, from) {
            Some(i) => {
                proof { lemma_find_from(s, from, 0); }
                s.subrange(0, i) + to + replace_all(s.subrange(i + from.len(), s.len() as int), from, to)
            },
            None => s,
        }
    }
}

/// Replaces every `from` by `to`.
pub fn replace_text(s: &str, from: &str, to: &str) -> (r: String)
    requires
        from@.len() > 0,
    ensures
        r@ == replace_all(s@, from@, to@),
    decreases s@.len(),
{
    match find_text(s, from) {
        Some(i) => {
            proof { lemma_find_from(s@, from@, 0); }
            let n = s.unicode_len();
            let m = from.unicode_len();
            let head = s.substring_char(0, i);
            let tail = s.substring_char(i + m, n);
            let rest = replace_text(tail, from, to);
            let mut out = String::from_str(head);
            out.append(to);
            out.append(rest.as_str());
            out
        },
        None => String::from_str(s),
    }
}

/// The text without white space at either end, as `str::trim` gives it.
pub fn trim_text(s: &str) -> (r: &str)
    ensures
        r@ == trim_white_end(trim_white_start(s@)),
{
    let n = s.unicode_len();
    let mut i: usize = 0;
    assert(s@.subrange(0, n as int) =~= s@);
    while i < n && is_white(s.get_char(i))
        invariant
            n == s@.len(),
            i <= n,
            trim_white_start(s@) == trim_white_start(s@.subrange(i as int, n as int)),
        decreases n - i,
    {
        assert(s@.subrange(i + 1, n as int) =~= s@.subrange(i as int, n as int).drop_first());
        i = i + 1;
    }
    let mut j: usize = n;
    while j > i && is_white(s.get_char(j - 1))
        invariant
            n == s@.len(),
            i <= j <= n,
            trim_white_end(s@.subrange(i as int, n as int)) == trim_white_end(s@.subrange(i as int, j as int)),
        decreases j,
    {
        assert(s@.subrange(i as int, j - 1) =~= s@.subrange(i as int, j as int).drop_last());
        j = j - 1;
    }
    s.substring_char(i, j)
}

/// The value a placeholder stands for: it names the first or second value
/// by number between its parentheses; otherwise it stands for nothing.
pub open spec fn token_text(token: Seq<char>, min: i32, max: i32) -> Seq<char> {
    match (find_sub(token, seq!['(']), find_sub(token, seq![')'])) {
        (Some(p1), Some(p2)) => match parse_dec(trim_white_end(trim_white_start(token.subrange(p1 + 1, p2)))) {
            Some(idx) => if idx == 1 { signed_dec(min as int) } else if idx == 2 { signed_dec(max as int) } else { Seq::empty() },
            None => Seq::empty(),
        },
        _ => Seq::empty(),
    }
}

/// A placeholder's parentheses, where both occur, open before they close.
pub open spec fn token_ok(token: Seq<char>) -> bool {
    match (find_sub(token, seq!['(']), find_sub(token, seq![')'])) {
        (Some(p1), Some(p2)) => p1 < p2,
        _ => true,
    }
}

/// Fills the `{*Decision.…(N)…*}` placeholders of a description; an
/// unclosed placeholder is kept as it is.
pub open spec fn fill_template(rest: Seq<char>, min: i32, max: i32) -> Seq<char>
    decreases rest.len(),
{
    match find_sub(rest, "{*Decision."@) {
        None => rest,
        Some(start) => {
            proof { lemma_find_from(rest, "{*Decision."@, 0); }
            let after = rest.subrange(start, rest.len() as int);
            match find_sub(after, "*}"@) {
                None => rest,
                Some(end) => {
                    proof { lemma_find_from(after, "*}"@, 0); reveal_strlit("*}"); }
                    rest.subrange(0, start) + token_text(after.subrange(0, end + 2), min, max)
                        + fill_template(after.subrange(end + 2, after.len() as int), min, max)
                },
            }
        },
    }
}

/// Every closed placeholder of a description has its parentheses in order.
pub open spec fn template_ok(rest: Seq<char>) -> bool
    decreases rest.len(),
{
    match find_sub(rest, "{*Decision."@) {
        None => true,
        Some(start) => {
            proof { lemma_find_from(rest, "{*Decision."@, 0); }
            let after = rest.subrange(start, rest.len() as int);
            match find_sub(after, "*}"@) {
                None => true,
                Some(end) => {
                    proof { lemma_find_from(after, "*}"@, 0); reveal_strlit("*}"); }
                    token_ok(after.subrange(0, end + 2)) && template_ok(after.subrange(end + 2, after.len() as int))
                },
            }
        },
    }
}

/// The text of a description with its placeholders filled, line breaks
/// (`<br>`) as spaces, and tags dropped.
pub open spec fn attr_description(desc: Seq<char>, min: i32, max: i32) -> Seq<char> {
    strip_markup_text(replace_all(fill_template(desc, min, max), "<br>"@, " "@))
}

/// The value text of one placeholder.
fn token_value(token: &str, min: i32, max: i32) -> (r: String)
    requires
        token_ok(token@),
    ensures
        r@ == token_text(token@, min, max),
{
    proof {
        reveal_strlit("(");
        reveal_strlit(")");
        assert("("@ =~= seq!['(']);
        assert(")"@ =~= seq![')']);
    }
    match (find_text(token, "("), find_text(token, ")")) {
        (Some(p1), Some(p2)) => {
            proof {
                lemma_find_from(token@, seq!['('], 0);
                lemma_find_from(token@, seq![')'], 0);
            }
            let inner = trim_text(token.substring_char(p1 + 1, p2));
            match parse_u64_dec(inner) {
                Some(idx) => {
                    if idx == 1 {
                        i64_to_dec(min as i64)
                    } else if idx == 2 {
                        i64_to_dec(max as i64)
                    } else {
                        String::new()
                    }
                },
                None => String::new(),
            }
        },
        _ => String::new(),
    }
}

/// Fills the placeholders of a description.
fn fill_text(rest: &str, min: i32, max: i32) -> (r: String)
    requires
        template_ok(rest@),
    ensures
        r@ == fill_template(rest@, min, max),
    decreases rest@.len(),
{
    proof {
        reveal_strlit("{*Decision.");
        reveal_strlit("*}");
    }
    match find_text(rest, "{*Decision.") {
        None => String::from_str(rest),
        Some(start) => {
            proof { lemma_find_from(rest@, "{*Decision."@, 0); }
            let n = rest.unicode_len();
            let after = rest.substring_char(start, n);
            match find_text(after, "*}") {
                None => String::from_str(rest),
                Some(end) => {
                    proof { lemma_find_from(after@, "*}"@, 0); }
                    let m = after.unicode_len();
                    let token = after.substring_char(0, end + 2);
                    let tail = after.substring_char(end + 2, m);
                    let v = token_value(token, min, max);
                    let filled = fill_text(tail, min, max);
                    let mut out = String::from_str(rest.substring_char(0, start));
                    out.append(v.as_str());
                    out.append(filled.as_str());
                    out
                },
            }
        },
    }
}

/// A description with its placeholders filled from `[min, max]`, line
/// breaks as spaces and tags dropped.
pub fn resolve_attr_template(desc: &str, min: i32, max: i32) -> (r: String)
    requires
        template_ok(desc@),
    ensures
        r@ == attr_description(desc@, min, max),
{
    let filled = fill_text(desc, min, max);
    proof {
        reveal_strlit("<br>");
        reveal_strlit(" ");
    }
    let spaced = replace_text(filled.as_str(), "<br>", " ");
    strip_markup(spaced.as_str())
}

/// One attribute line of a gear roll.
pub struct AttrLine {
    pub name: String,
    pub min: i32,
    pub max: i32,
    pub is_percent: bool,
}

/// The lines a breakthrough level adds.
pub struct GearBreakthroughOption {
    pub level: i32,
    pub equip_gs: i32,
    pub basic: Vec<AttrLine>,
    pub advanced: Vec<AttrLine>,
}

/// An item's possible attribute rolls.
pub struct GearAttrRoll {
    pub equip_gs: i32,
    pub basic: Vec<AttrLine>,
    pub advanced: Vec<AttrLine>,
    pub breakthroughs: Vec<GearBreakthroughOption>,
}

pub open spec fn line_view(l: AttrLine) -> (Seq<char>, i32, i32, bool) {
    (l.name@, l.min, l.max, l.is_percent)
}

pub open spec fn lines_view(v: Seq<AttrLine>) -> Seq<(Seq<char>, i32, i32, bool)> {
    v.map_values(|l: AttrLine| line_view(l))
}

/// Every attribute description's placeholders are well formed.
pub open spec fn descriptions_ok(t: DataTables) -> bool {
    forall|k: i64| #[trigger] t.attr_descriptions@.contains_key(k) ==> template_ok(t.attr_descriptions@[k].description@)
}

/// The first stat entry whose attribute is `kind`.
pub open spec fn fight_attr_from(s: Seq<FightAttrEntry>, kind: i32, i: int) -> Option<FightAttrEntry>
    decreases s.len() - i,
{
    if i < 0 || i >= s.len() { None } else if s[i].attr_add == kind { Some(s[i]) } else { fight_attr_from(s, kind, i + 1) }
}

/// The range of a line: the first two numbers of its config, 0 where absent.
pub open spec fn range_of(config: Option<Seq<i32>>) -> (i32, i32) {
    match config {
        Some(c) => (if c.len() > 0 { c[0] } else { 0 }, if c.len() > 1 { c[1] } else { 0 }),
        None => (0, 0),
    }
}

/// The line an effect gives: a stat line (type 1) named as the stat table
/// has it, or a buff line (type 3) described by its template where it has
/// one, else by the buff's own text; nothing otherwise.
pub open spec fn line_for(t: DataTables, effect: Seq<i32>, config: Option<Seq<i32>>) -> Option<(Seq<char>, i32, i32, bool)> {
    if effect.len() < 2 {
        None
    } else {
        let (min, max) = range_of(config);
        let kind = effect[1];
        if effect[0] == 1 {
            match fight_attr_from(t.fight_attrs@, kind, 0) {
                Some(fa) => Some((fa.official_name@, min, max, fa.attr_num_type == 1)),
                None => None,
            }
        } else if effect[0] == 3 {
            if t.buffs@.contains_key(kind as i64) {
                let buff = t.buffs@[kind as i64];
                let name = if buff.tips_description > 0 && t.attr_descriptions@.contains_key(buff.tips_description as i64) {
                    attr_description(t.attr_descriptions@[buff.tips_description as i64].description@, min, max)
                } else {
                    buff.desc@
                };
                Some((name, min, max, false))
            } else {
                None
            }
        } else {
            None
        }
    }
}

/// The lines of the first `k` effects.
pub open spec fn lines_upto(t: DataTables, effects: Seq<Vec<i32>>, configs: Seq<Vec<i32>>, k: int) -> Seq<(Seq<char>, i32, i32, bool)>
    decreases k,
{
    if k <= 0 {
        Seq::empty()
    } else {
        let prev = lines_upto(t, effects, configs, k - 1);
        match line_for(t, effects[k - 1]@, if k - 1 < configs.len() { Some(configs[k - 1]@) } else { None }) {
            Some(l) => prev.push(l),
            None => prev,
        }
    }
}

/// The stat entry of an attribute.
fn find_fight_attr(t: &DataTables, kind: i32) -> (r: Option<&FightAttrEntry>)
    ensures
        match r {
            Some(f) => fight_attr_from(t.fight_attrs@, kind, 0) == Some(*f),
            None => fight_attr_from(t.fight_attrs@, kind, 0) is None,
        },
{
    let mut i: usize = 0;
    while i < t.fight_attrs.len()
        invariant
            i <= t.fight_attrs@.len(),
            fight_attr_from(t.fight_attrs@, kind, 0) == fight_attr_from(t.fight_attrs@, kind, i as int),
        decreases t.fight_attrs@.len() - i,
    {
        if t.fight_attrs[i].attr_add == kind {
            return Some(&t.fight_attrs[i]);
        }
        i = i + 1;
    }
    None
}

/// Appends the lines of a list of effects with their ranges.
pub fn append_attr_lines(t: &DataTables, effects: &Vec<Vec<i32>>, configs: &Vec<Vec<i32>>, out: &mut Vec<AttrLine>)
    requires
        descriptions_ok(*t),
    ensures
        lines_view(final(out)@) == lines_view(old(out)@) + lines_upto(*t, effects@, configs@, effects@.len() as int),
{
    let ghost o0 = lines_view(out@);
    let mut idx: usize = 0;
    assert(o0 + lines_upto(*t, effects@, configs@, 0) =~= o0);
    while idx < effects.len()
        invariant
            descriptions_ok(*t),
            idx <= effects@.len(),
            lines_view(out@) == o0 + lines_upto(*t, effects@, configs@, idx as int),
        decreases effects@.len() - idx,
    {
        let effect = &effects[idx];
        let ghost before = lines_view(out@);
        let config: Option<&Vec<i32>> = if idx < configs.len() { Some(&configs[idx]) } else { None };
        let (min, max) = match config {
            Some(c) => (if c.len() > 0 { c[0] } else { 0 }, if c.len() > 1 { c[1] } else { 0 }),
            None => (0, 0),
        };
        let ghost want = line_for(*t, effect@, match config { Some(c) => Some(c@), None => None });
        if effect.len() >= 2 {
            let attr_type = effect[0];
            let kind = effect[1];
            if attr_type == 1 {
                match find_fight_attr(t, kind) {
                    Some(fa) => {
                        out.push(AttrLine { name: fa.official_name.clone(), min, max, is_percent: fa.attr_num_type == 1 });
                        assert(lines_view(out@) =~= before.push(want->0));
                    },
                    None => {},
                }
            } else if attr_type == 3 {
                match t.buffs.get(&(kind as i64)) {
                    Some(buff) => {
                        let name = if buff.tips_description > 0 {
                            match t.attr_descriptions.get(&(buff.tips_description as i64)) {
                                Some(d) => {
                                    assert(t.attr_descriptions@.contains_key(buff.tips_description as i64));
                                    resolve_attr_template(d.description.as_str(), min, max)
                                },
                                None => buff.desc.clone(),
                            }
                        } else {
                            buff.desc.clone()
                        };
                        out.push(AttrLine { name, min, max, is_percent: false });
                        assert(lines_view(out@) =~= before.push(want->0));
                    },
                    None => {},
                }
            }
        }
        assert(lines_view(out@) == o0 + lines_upto(*t, effects@, configs@, idx + 1)) by {
            assert(o0 + lines_upto(*t, effects@, configs@, idx as int) == before);
            if want is Some {
                assert(o0 + lines_upto(*t, effects@, configs@, idx as int).push(want->0) =~= before.push(want->0));
            }
        }
        idx = idx + 1;
    }
}

/// The first attribute library entry for `attr` that allows `part`.
pub open spec fn attr_lib_from(s: Seq<EquipAttrLibEntry>, attr: i32, part: i32, i: int) -> Option<EquipAttrLibEntry>
    decreases s.len() - i,
{
    if i < 0 || i >= s.len() {
        None
    } else if s[i].attr_lib_id == attr && s[i].allow_part@.contains(part) {
        Some(s[i])
    } else {
        attr_lib_from(s, attr, part, i + 1)
    }
}

/// The first school library entry for `attr` that allows `part`.
pub open spec fn school_lib_from(s: Seq<EquipAttrSchoolLibEntry>, attr: i32, part: i32, i: int) -> Option<EquipAttrSchoolLibEntry>
    decreases s.len() - i,
{
    if i < 0 || i >= s.len() {
        None
    } else if s[i].attr_lib_id == attr && s[i].allow_part@.contains(part) {
        Some(s[i])
    } else {
        school_lib_from(s, attr, part, i + 1)
    }
}

/// The lines one library id gives, from the library its version names
/// (1: attribute libraries, 2: school libraries).
pub open spec fn lines_of_lib(t: DataTables, version: i32, attr: i32, part: i32) -> Seq<(Seq<char>, i32, i32, bool)> {
    if version == 1 {
        match attr_lib_from(t.equip_attr_libs@, attr, part, 0) {
            Some(l) => lines_upto(t, l.attr_effect@, l.attr_effect_config@, l.attr_effect@.len() as int),
            None => Seq::empty(),
        }
    } else if version == 2 {
        match school_lib_from(t.equip_attr_school_libs@, attr, part, 0) {
            Some(l) => lines_upto(t, l.attr_effect@, l.attr_effect_config@, l.attr_effect@.len() as int),
            None => Seq::empty(),
        }
    } else {
        Seq::empty()
    }
}

/// The lines of the library ids after the version tag, up to `k`.
pub open spec fn lib_lines_upto(t: DataTables, ids: Seq<i32>, part: i32, k: int) -> Seq<(Seq<char>, i32, i32, bool)>
    decreases k,
{
    if k <= 1 || ids.len() == 0 {
        Seq::empty()
    } else {
        lib_lines_upto(t, ids, part, k - 1) + lines_of_lib(t, ids[0], ids[k - 1], part)
    }
}

/// The lines a list of library ids gives: the first id tags the library
/// version, the others are resolved for the equipment part.
pub open spec fn lib_lines(t: DataTables, ids: Seq<i32>, part: i32) -> Seq<(Seq<char>, i32, i32, bool)> {
    if ids.len() < 2 { Seq::empty() } else { lib_lines_upto(t, ids, part, ids.len() as int) }
}

fn contains_i32(v: &Vec<i32>, x: i32) -> (r: bool)
    ensures
        r == v@.contains(x),
{
    let mut i: usize = 0;
    while i < v.len()
        invariant
            i <= v@.len(),
            forall|k: int| 0 <= k < i ==> v@[k] != x,
        decreases v@.len() - i,
    {
        if v[i] == x {
            assert(v@[i as int] == x);
            return true;
        }
        i = i + 1;
    }
    false
}

fn find_attr_lib(t: &DataTables, attr: i32, part: i32) -> (r: Option<&EquipAttrLibEntry>)
    ensures
        match r {
            Some(l) => attr_lib_from(t.equip_attr_libs@, attr, part, 0) == Some(*l),
            None => attr_lib_from(t.equip_attr_libs@, attr, part, 0) is None,
        },
{
    let mut i: usize = 0;
    while i < t.equip_attr_libs.len()
        invariant
            i <= t.equip_attr_libs@.len(),
            attr_lib_from(t.equip_attr_libs@, attr, part, 0) == attr_lib_from(t.equip_attr_libs@, attr, part, i as int),
        decreases t.equip_attr_libs@.len() - i,
    {
        let l = &t.equip_attr_libs[i];
        if l.attr_lib_id == attr && contains_i32(&l.allow_part, part) {
            return Some(l);
        }
        i = i + 1;
    }
    None
}

fn find_school_lib(t: &DataTables, attr: i32, part: i32) -> (r: Option<&EquipAttrSchoolLibEntry>)
    ensures
        match r {
            Some(l) => school_lib_from(t.equip_attr_school_libs@, attr, part, 0) == Some(*l),
            None => school_lib_from(t.equip_attr_school_libs@, attr, part, 0) is None,
        },
{
    let mut i: usize = 0;
    while i < t.equip_attr_school_libs.len()
        invariant
            i <= t.equip_attr_school_libs@.len(),
            school_lib_from(t.equip_attr_school_libs@, attr, part, 0) == school_lib_from(t.equip_attr_school_libs@, attr, part, i as int),
        decreases t.equip_attr_school_libs@.len() - i,
    {
        let l = &t.equip_attr_school_libs[i];
        if l.attr_lib_id == attr && contains_i32(&l.allow_part, part) {
            return Some(l);
        }
        i = i + 1;
    }
    None
}

/// The lines of a list of library ids for an equipment part.
pub fn resolve_attr_lib_ids(t: &DataTables, lib_ids: &Vec<i32>, equip_part: i32) -> (r: Vec<AttrLine>)
    requires
        descriptions_ok(*t),
    ensures
        lines_view(r@) == lib_lines(*t, lib_ids@, equip_part),
{
    let mut out: Vec<AttrLine> = Vec::new();
    if lib_ids.len() < 2 {
        assert(lines_view(out@) =~= Seq::empty());
        return out;
    }
    let version = lib_ids[0];
    let mut k: usize = 1;
    assert(lines_view(out@) =~= lib_lines_upto(*t, lib_ids@, equip_part, 1));
    while k < lib_ids.len()
        invariant
            descriptions_ok(*t),
            lib_ids@.len() >= 2,
            version == lib_ids@[0],
            1 <= k <= lib_ids@.len(),
            lines_view(out@) == lib_lines_upto(*t, lib_ids@, equip_part, k as int),
        decreases lib_ids@.len() - k,
    {
        let attr = lib_ids[k];
        let ghost before = lines_view(out@);
        if version == 1 {
            match find_attr_lib(t, attr, equip_part) {
                Some(l) => { append_attr_lines(t, &l.attr_effect, &l.attr_effect_config, &mut out); },
                None => {},
            }
        } else if version == 2 {
            match find_school_lib(t, attr, equip_part) {
                Some(l) => { append_attr_lines(t, &l.attr_effect, &l.attr_effect_config, &mut out); },
                None => {},
            }
        }
        assert(lines_view(out@) =~= before + lines_of_lib(*t, version, attr, equip_part));
        k = k + 1;
    }
    out
}

pub open spec fn option_view(o: GearBreakthroughOption) -> (i32, i32, Seq<(Seq<char>, i32, i32, bool)>, Seq<(Seq<char>, i32, i32, bool)>) {
    (o.level, o.equip_gs, lines_view(o.basic@), lines_view(o.advanced@))
}

/// The breakthrough option an entry gives for an equipment part.
pub open spec fn option_of(t: DataTables, bt: EquipBreakThroughEntry, part: i32) -> (i32, i32, Seq<(Seq<char>, i32, i32, bool)>, Seq<(Seq<char>, i32, i32, bool)>) {
    (bt.break_through_time, bt.equip_gs, lib_lines(t, bt.basic_attr_lib_id@, part), lib_lines(t, bt.advanced_attr_lib_id@, part))
}

impl DataTables {
    /// An item's attribute rolls: its basic and advanced lines and, by level,
    /// its breakthrough options; nothing where the item is not equipment.
    pub fn gear_attr_roll(&self, item_id: i32) -> (r: Option<GearAttrRoll>)
        requires
            descriptions_ok(*self),
        ensures
            r is Some == self.equips@.contains_key(item_id as i64),
            r matches Some(g) ==> {
                let e = self.equips@[item_id as i64];
                &&& g.equip_gs == e.equip_gs
                &&& lines_view(g.basic@) == lib_lines(*self, e.basic_attr_lib_id@, e.equip_part)
                &&& lines_view(g.advanced@) == lib_lines(*self, e.advanced_attr_lib_id@, e.equip_part)
                &&& g.breakthroughs@.map_values(|o: GearBreakthroughOption| option_view(o)).to_multiset()
                    == self.equip_break_throughs@.filter(|bt: EquipBreakThroughEntry| bt.equip_id == item_id)
                        .map_values(|bt: EquipBreakThroughEntry| option_of(*self, bt, e.equip_part)).to_multiset()
                &&& forall|a: int, b: int| 0 <= a < b < g.breakthroughs@.len() ==> #[trigger] g.breakthroughs@[a].level <= #[trigger] g.breakthroughs@[b].level
            },
    {
        let t = self;
        let equip = match t.equips.get(&(item_id as i64)) {
            Some(e) => e,
            None => { return None; },
        };
        let basic = resolve_attr_lib_ids(t, &equip.basic_attr_lib_id, equip.equip_part);
        let advanced = resolve_attr_lib_ids(t, &equip.advanced_attr_lib_id, equip.equip_part);
        let ghost want = t.equip_break_throughs@.filter(|bt: EquipBreakThroughEntry| bt.equip_id == item_id)
            .map_values(|bt: EquipBreakThroughEntry| option_of(*t, bt, equip.equip_part));
        let mut opts: Vec<GearBreakthroughOption> = Vec::new();
        let n = t.equip_break_throughs.len();
        let mut i: usize = 0;
        proof {
            broadcast use vstd::seq_lib::group_to_multiset_ensures;
            let f0 = t.equip_break_throughs@.take(0).filter(|bt: EquipBreakThroughEntry| bt.equip_id == item_id);
            crate::seqs::lemma_filter_empty(t.equip_break_throughs@.take(0), |bt: EquipBreakThroughEntry| bt.equip_id == item_id);
            let m0 = f0.map_values(|bt: EquipBreakThroughEntry| option_of(*t, bt, equip.equip_part));
            assert(m0 =~= Seq::empty());
            assert(opts@.map_values(|o: GearBreakthroughOption| option_view(o)) =~= Seq::empty());
            assert(m0.to_multiset() =~= opts@.map_values(|o: GearBreakthroughOption| option_view(o)).to_multiset());
        }
        while i < n
            invariant
                descriptions_ok(*t),
                n == t.equip_break_throughs@.len(),
                i <= n,
                opts@.map_values(|o: GearBreakthroughOption| option_view(o)).to_multiset()
                    == t.equip_break_throughs@.take(i as int).filter(|bt: EquipBreakThroughEntry| bt.equip_id == item_id)
                        .map_values(|bt: EquipBreakThroughEntry| option_of(*t, bt, equip.equip_part)).to_multiset(),
                forall|a: int, b: int| 0 <= a < b < opts@.len() ==> #[trigger] opts@[a].level <= #[trigger] opts@[b].level,
            decreases n - i,
        {
            let bt = &t.equip_break_throughs[i];
            let ghost tk = t.equip_break_throughs@.take(i as int);
            proof {
                assert(t.equip_break_throughs@.take(i + 1) =~= tk.push(*bt));
                crate::seqs::lemma_filter_push(tk, |bt: EquipBreakThroughEntry| bt.equip_id == item_id, *bt);
            }
            if bt.equip_id == item_id {
                let o = GearBreakthroughOption {
                    level: bt.break_through_time,
                    equip_gs: bt.equip_gs,
                    basic: resolve_attr_lib_ids(t, &bt.basic_attr_lib_id, equip.equip_part),
                    advanced: resolve_attr_lib_ids(t, &bt.advanced_attr_lib_id, equip.equip_part),
                };
                let ghost ov = option_view(o);
                assert(ov == option_of(*t, *bt, equip.equip_part));
                let mut pos: usize = opts.len();
                while pos > 0 && opts[pos - 1].level > o.level
                    invariant
                        pos <= opts@.len(),
                        forall|q: int| pos <= q < opts@.len() ==> opts@[q].level > o.level,
                    decreases pos,
                {
                    pos = pos - 1;
                }
                let ghost before = opts@;
                opts.insert(pos, o);
                proof {
                    broadcast use vstd::seq_lib::group_to_multiset_ensures;
                    let fv = tk.filter(|bt: EquipBreakThroughEntry| bt.equip_id == item_id);
                    assert(fv.push(*bt).map_values(|bt: EquipBreakThroughEntry| option_of(*t, bt, equip.equip_part))
                        =~= fv.map_values(|bt: EquipBreakThroughEntry| option_of(*t, bt, equip.equip_part)).push(ov));
                    assert(opts@.map_values(|o: GearBreakthroughOption| option_view(o))
                        =~= before.map_values(|o: GearBreakthroughOption| option_view(o)).insert(pos as int, ov));
                    assert forall|a: int, b: int| 0 <= a < b < opts@.len() implies opts@[a].level <= opts@[b].level by {
                        if b < pos {
                            assert(opts@[a] == before[a] && opts@[b] == before[b]);
                        } else if b == pos {
                            assert(opts@[a] == before[a]);
                            if pos > 0 {
                                assert(before[pos - 1].level <= ov.0);
                            }
                        } else if a < pos {
                            assert(opts@[a] == before[a] && opts@[b] == before[b - 1]);
                        } else if a == pos {
                            assert(opts@[b] == before[b - 1]);
                        } else {
                            assert(opts@[a] == before[a - 1] && opts@[b] == before[b - 1]);
                        }
                    }
                }
            }
            i = i + 1;
        }
        assert(t.equip_break_throughs@.take(n as int) =~= t.equip_break_throughs@);
        Some(GearAttrRoll { equip_gs: equip.equip_gs, basic, advanced, breakthroughs: opts })
    }
}

/// Whether a description's placeholders are well formed.
pub fn template_is_ok(desc: &str) -> (r: bool)
    ensures
        r == template_ok(desc@),
    decreases desc@.len(),
{
    proof {
        reveal_strlit("{*Decision.");
        reveal_strlit("*}");
        reveal_strlit("(");
        reveal_strlit(")");
        assert("("@ =~= seq!['(']);
        assert(")"@ =~= seq![')']);
    }
    match find_text(desc, "{*Decision.") {
        None => true,
        Some(start) => {
            proof { lemma_find_from(desc@, "{*Decision."@, 0); }
            let n = desc.unicode_len();
            let after = desc.substring_char(start, n);
            match find_text(after, "*}") {
                None => true,
                Some(end) => {
                    proof { lemma_find_from(after@, "*}"@, 0); }
                    let m = after.unicode_len();
                    let token = after.substring_char(0, end + 2);
                    let ok = match (find_text(token, "("), find_text(token, ")")) {
                        (Some(p1), Some(p2)) => p1 < p2,
                        _ => true,
                    };
                    ok && template_is_ok(after.substring_char(end + 2, m))
                },
            }
        },
    }
}

} // verus!
