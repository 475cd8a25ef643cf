//! Choosing a set of modules whose combined stats best fit a list of
//! stat priorities, by beam search.
//!
//! Each module adds its stat levels; a stat's total counts up to
//! `MAX_STAT_VALUE`. A combination's score is the sum, over stats, of a
//! score table looked up at the stat's total; a requirement of a stat is met
//! or not at that total. The best combinations meeting every requirement are
//! returned.

use vstd::prelude::*;
use rayon::iter::{IntoParallelRefIterator, ParallelIterator};
use std::cmp::Ordering;
use crate::seqs::{lemma_filter_empty, lemma_filter_push, lemma_take_multiset};
use crate::event::{ModuleEffect, PlayerModule};

verus! {

pub const MAX_STAT_VALUE: u8 = 20;
pub const MAX_STAT_SLOTS: usize = 32;
/// Default beam width: a trade-off between quality and speed.
pub const DEFAULT_BEAM_WIDTH: usize = 8000;
/// Score table entries per stat: one per total 0..=`MAX_STAT_VALUE`.
pub const LEVEL_COUNT: usize = 21;

/// The boost a stat total earns, doubling at the breakpoints 1, 4, 8, 12, 16 and 20.
pub open spec fn boost_of(total: u8) -> i32 {
    if total >= 20 { 32 }
    else if total >= 16 { 16 }
    else if total >= 12 { 8 }
    else if total >= 8 { 4 }
    else if total >= 4 { 2 }
    else if total >= 1 { 1 }
    else { 0 }
}

pub fn link_level_boost(total: u8) -> (r: i32)
    ensures
        r == boost_of(total),
{
    if total >= 20 { 32 }
    else if total >= 16 { 16 }
    else if total >= 12 { 8 }
    else if total >= 8 { 4 }
    else if total >= 4 { 2 }
    else if total >= 1 { 1 }
    else { 0 }
}

// ───────────── single-precision arithmetic of a partial "exactly" score ─────────────

/// `a / b` rounded to the nearest integer, ties to even.
pub open spec fn round_half_even(a: nat, b: nat) -> nat {
    let q = a / b;
    let r = a % b;
    if 2 * r > b || (2 * r == b && q % 2 == 1) { q + 1 } else { q }
}

/// Doubles `p` until it reaches `target` (at most 64 times); the number of
/// doublings and the result.
pub open spec fn scale_up(p: nat, target: nat, s: nat) -> (nat, nat)
    decreases 64 - s,
{
    if s >= 64 || p >= target { (s, p) } else { scale_up(2 * p, target, s + 1) }
}

/// `2` to the `e`.
pub open spec fn two_pow(e: nat) -> nat
    decreases e,
{
    if e == 0 { 1 } else { 2 * two_pow((e - 1) as nat) }
}

/// The number of binary digits of `n`.
pub open spec fn bit_len(n: nat) -> nat
    decreases n,
{
    if n == 0 { 0 } else { 1 + bit_len(n / 2) }
}

/// `n` rounded to 24 significant bits, ties to even.
pub open spec fn round_to_24_bits(n: nat) -> nat {
    if bit_len(n) <= 24 {
        n
    } else {
        let t = (bit_len(n) - 24) as nat;
        round_half_even(n, two_pow(t)) * two_pow(t)
    }
}

/// The value of `(max_s as f32 * (v as f32 / r as f32)) as i32` for
/// `r >= 1`: the quotient is rounded to a 24-bit significand `m / 2^s`
/// with `2^23 <= v * 2^s / r`, the product to 24 significant bits, and the
/// result cut toward zero.
pub open spec fn single_precision_share(max_s: nat, v: nat, r: nat) -> nat {
    if v == 0 || max_s == 0 {
        0
    } else {
        let (s, p) = scale_up(v, 8388608 * r, 0);
        let m = round_half_even(p, r);
        round_to_24_bits(max_s * m) / two_pow(s)
    }
}

proof fn lemma_two_pow_split(e: nat)
    ensures
        two_pow(e + 1) == 2 * two_pow(e),
{
}

proof fn lemma_two_pow_pos(e: nat)
    ensures
        two_pow(e) >= 1,
    decreases e,
{
    if e > 0 {
        lemma_two_pow_pos((e - 1) as nat);
    }
}

proof fn lemma_two_pow_mono(a: nat, b: nat)
    requires
        a <= b,
    ensures
        two_pow(a) <= two_pow(b),
    decreases b,
{
    if a < b {
        lemma_two_pow_mono(a, (b - 1) as nat);
    }
}

proof fn lemma_bit_len_bound(n: nat, e: nat)
    requires
        n < two_pow(e),
    ensures
        bit_len(n) <= e,
    decreases e,
{
    if n > 0 {
        assert(e > 0);
        lemma_bit_len_bound(n / 2, (e - 1) as nat);
    }
}

fn rne_u64(a: u64, b: u64) -> (r: u64)
    requires
        b > 0,
        a < 0x8000_0000_0000_0000,
    ensures
        r == round_half_even(a as nat, b as nat),
{
    let q = a / b;
    let r = a % b;
    assert(q <= a) by (nonlinear_arith) requires q == a / b, b > 0;
    if r > b - r || (r == b - r && q % 2 == 1) { q + 1 } else { q }
}

proof fn lemma_two_pow_32()
    ensures
        two_pow(32) == 0x1_0000_0000,
        two_pow(50) == 0x4_0000_0000_0000,
{
    reveal_with_fuel(two_pow, 51);
}

proof fn lemma_rne_bound(a: nat, b: nat)
    requires
        b >= 1,
    ensures
        round_half_even(a, b) <= a / b + 1,
        round_half_even(a, b) * b <= a + b,
{
    let q = a / b;
    assert(q * b <= a) by (nonlinear_arith) requires q == a / b, b >= 1;
    assert((q + 1) * b == q * b + b) by (nonlinear_arith);
}

/// The partial score of an "exactly" priority at a total other than its
/// requirement: `max_s` scaled by `v / req` (with `req` at least 1), with
/// the roundings of single-precision arithmetic.
pub fn exactly_partial_score(max_s: i32, v: u8, req_level: u8) -> (r: i32)
    requires
        0 <= max_s <= 0x100_0000,
        v <= MAX_STAT_VALUE,
    ensures
        r == single_precision_share(max_s as nat, v as nat, (if req_level >= 1 { req_level } else { 1u8 }) as nat),
        0 <= r <= 20 * max_s + 200,
{
    let r: u64 = if req_level >= 1 { req_level as u64 } else { 1 };
    if v == 0 || max_s == 0 {
        return 0;
    }
    let target: u64 = 8388608 * r;
    let mut p: u64 = v as u64;
    let mut s: u64 = 0;
    let mut scale: u64 = 1;
    proof { lemma_two_pow_32(); }
    while p < target
        invariant
            1 <= v <= 20,
            1 <= r <= 255,
            target == 8388608 * r,
            s < 32,
            scale == two_pow(s as nat),
            1 <= scale <= p,
            p == v * scale,
            p < 2 * target,
            scale_up(p as nat, target as nat, s as nat) == scale_up(v as nat, target as nat, 0),
        decreases 64 - s,
    {
        proof {
            lemma_two_pow_32();
            lemma_two_pow_split(s as nat);
            if s + 1 >= 32 {
                lemma_two_pow_mono(32, (s + 1) as nat);
            }
        }
        assert(2 * p == v * (2 * scale)) by (nonlinear_arith) requires p == v * scale;
        p = p * 2;
        scale = scale * 2;
        s = s + 1;
        assert(scale <= p) by (nonlinear_arith) requires p == v * scale, v >= 1;
    }
    assert(scale_up(p as nat, target as nat, s as nat) == (s as nat, p as nat));
    proof { lemma_rne_bound(p as nat, r as nat); }
    let m = rne_u64(p, r);
    assert(p / r < 0x100_0000) by (nonlinear_arith)
        requires p < 2 * target, target == 8388608 * r, r >= 1;
    assert((max_s as u64) * m <= 0x1_0000_0000_0000) by (nonlinear_arith)
        requires m <= 0x100_0000, max_s <= 0x100_0000, max_s >= 0;
    let n: u64 = (max_s as u64) * m;

    let mut len: u64 = 0;
    let mut k: u64 = n;
    proof { lemma_bit_len_bound(n as nat, 50); }
    while k > 0
        invariant
            bit_len(n as nat) == len + bit_len(k as nat),
            bit_len(n as nat) <= 50,
        decreases k,
    {
        k = k / 2;
        len = len + 1;
    }
    let rounded: u64 = if len <= 24 {
        n
    } else {
        let t = len - 24;
        let mut d: u64 = 1;
        let mut i: u64 = 0;
        while i < t
            invariant
                i <= t,
                t <= 26,
                d == two_pow(i as nat),
                d <= 0x400_0000,
            decreases t - i,
        {
            proof {
                lemma_two_pow_split(i as nat);
                lemma_two_pow_mono((i + 1) as nat, 26);
                reveal_with_fuel(two_pow, 27);
            }
            d = d * 2;
            i = i + 1;
        }
        proof { lemma_two_pow_pos(t as nat); lemma_rne_bound(n as nat, d as nat); }
        let q = rne_u64(n, d);
        q * d
    };
    assert(rounded <= 0x1_0000_0400_0000);
    assert(rounded <= n + 0x400_0000);
    proof { lemma_two_pow_pos(s as nat); }
    let res = rounded / scale;
    assert(m <= 20 * scale + 1) by (nonlinear_arith)
        requires m <= p / r + 1, p == v * scale, v <= 20, r >= 1;
    assert(n <= max_s * (20 * scale + 1)) by (nonlinear_arith)
        requires n == max_s * m, m <= 20 * scale + 1, max_s >= 0;
    assert(res * scale <= rounded) by (nonlinear_arith)
        requires res == rounded / scale, scale >= 1;
    assert(scale >= 419431) by (nonlinear_arith)
        requires v * scale >= 8388608, 1 <= v <= 20;
    assert(res <= 20 * max_s + 200) by (nonlinear_arith)
        requires
            res * scale <= rounded,
            rounded <= n + 0x400_0000,
            n <= max_s * (20 * scale + 1),
            scale >= 419431,
            0 <= max_s <= 0x100_0000;
    assert(res <= 0x7fff_ffff) by (nonlinear_arith)
        requires
            res == rounded / scale,
            rounded <= 0x1_0000_0400_0000,
            v * scale >= 8388608,
            1 <= v <= 20,
            scale >= 1;
    res as i32
}

// ───────────────────────────── configuration ─────────────────────────────

/// How a priority's requirement counts: reaching the level, or hitting it exactly.
#[derive(Clone, Copy, PartialEq, Eq, Debug, Structural)]
pub enum StatMode {
    AtLeast,
    Exactly,
}

/// One wanted stat: its effect id, the level required of its total (0 for
/// none) and how the requirement counts.
#[derive(Clone, Copy, PartialEq, Eq, Debug, Structural)]
pub struct StatPriority {
    pub effect_id: i32,
    pub req_level: u8,
    pub mode: StatMode,
}

/// What to optimise: priorities, highest first; how many modules to combine;
/// whether stats without a priority count a little; the beam width.
pub struct SolverConfig {
    pub priorities: Vec<StatPriority>,
    pub num_modules: usize,
    pub value_all_stats: bool,
    pub beam_width: usize,
}

impl Default for SolverConfig {
    fn default() -> (r: SolverConfig)
        ensures
            r.priorities@.len() == 0,
            r.num_modules == 4,
            r.value_all_stats,
            r.beam_width == DEFAULT_BEAM_WIDTH,
    {
        SolverConfig { priorities: Vec::new(), num_modules: 4, value_all_stats: true, beam_width: DEFAULT_BEAM_WIDTH }
    }
}

/// One proposed combination: the chosen module positions (ascending), each
/// priority's stat with its total, every stat with a non-zero total (by
/// effect id), and the combination's score.
pub struct ModComboResult {
    pub module_indices: Vec<usize>,
    pub priority_stats: Vec<(i32, u8)>,
    pub all_stats: Vec<(i32, u8)>,
    pub score: i32,
}

// ───────────────────────────── stat ids ─────────────────────────────

pub open spec fn strictly_sorted(s: Seq<i32>) -> bool {
    forall|i: int, j: int| 0 <= i < j < s.len() ==> s[i] < s[j]
}

/// Some module has an effect with this id.
pub open spec fn has_effect(ms: Seq<PlayerModule>, id: i32) -> bool {
    exists|i: int, j: int| 0 <= i < ms.len() && 0 <= j < ms[i].effects@.len() && #[trigger] ms[i].effects@[j].effect_id == id
}

/// The ids of all effects of the modules, ascending.
pub open spec fn effect_ids(ms: Seq<PlayerModule>) -> Seq<i32> {
    choose|s: Seq<i32>| strictly_sorted(s) && forall|id: i32| s.contains(id) <==> has_effect(ms, id)
}

/// Two ascending sequences with the same elements are equal.
pub proof fn lemma_sorted_unique(a: Seq<i32>, b: Seq<i32>)
    requires
        strictly_sorted(a),
        strictly_sorted(b),
        forall|x: i32| a.contains(x) <==> b.contains(x),
    ensures
        a == b,
    decreases a.len(),
{
    if a.len() == 0 {
        if b.len() > 0 {
            assert(b.contains(b[0]));
        }
    } else {
        assert(a.contains(a[0]));
        assert(b.len() > 0);
        assert(b.contains(b[0]));
        let ia = choose|i: int| 0 <= i < a.len() && a[i] == b[0];
        let ib = choose|i: int| 0 <= i < b.len() && b[i] == a[0];
        assert(a[0] <= b[0]) by { if ia > 0 { assert(a[0] < a[ia]); } }
        assert(b[0] <= a[0]) by { if ib > 0 { assert(b[0] < b[ib]); } }
        let a1 = a.drop_first();
        let b1 = b.drop_first();
        assert forall|x: i32| a1.contains(x) <==> b1.contains(x) by {
            if a1.contains(x) {
                let k = choose|k: int| 0 <= k < a1.len() && a1[k] == x;
                assert(a[k + 1] == x && a[0] < x);
                assert(b.contains(x));
                let kb = choose|kb: int| 0 <= kb < b.len() && b[kb] == x;
                assert(kb != 0);
                assert(b1[kb - 1] == x);
            }
            if b1.contains(x) {
                let k = choose|k: int| 0 <= k < b1.len() && b1[k] == x;
                assert(b[k + 1] == x && b[0] < x);
                assert(a.contains(x));
                let ka = choose|ka: int| 0 <= ka < a.len() && a[ka] == x;
                assert(ka != 0);
                assert(a1[ka - 1] == x);
            }
        }
        lemma_sorted_unique(a1, b1);
        assert(a =~= seq![a[0]] + a1);
        assert(b =~= seq![b[0]] + b1);
    }
}

/// Adds `id` to an ascending list unless it holds it.
fn insert_sorted(v: &mut Vec<i32>, id: i32)
    requires
        strictly_sorted(old(v)@),
    ensures
        strictly_sorted(final(v)@),
        forall|x: i32| final(v)@.contains(x) <==> (old(v)@.contains(x) || x == id),
{
    let mut pos: usize = 0;
    while pos < v.len() && v[pos] < id
        invariant
            v@ == old(v)@,
            pos <= v@.len(),
            forall|k: int| 0 <= k < pos ==> v@[k] < id,
        decreases v@.len() - pos,
    {
        pos = pos + 1;
    }
    if pos < v.len() && v[pos] == id {
        assert(v@[pos as int] == id);
        assert(old(v)@.contains(id));
        return;
    }
    let ghost before = v@;
    assert(before == old(v)@);
    v.insert(pos, id);
    proof {
        assert(v@ == before.insert(pos as int, id));
        assert(pos == before.len() || before[pos as int] > id);
        assert forall|x: i32| #[trigger] v@.contains(x) <==> (old(v)@.contains(x) || x == id) by {
            if before.contains(x) {
                let k = choose|k: int| 0 <= k < before.len() && before[k] == x;
                if k < pos { assert(v@[k] == x); } else { assert(v@[k + 1] == x); }
            }
            if x == id { assert(v@[pos as int] == x); }
            if v@.contains(x) {
                let k = choose|k: int| 0 <= k < v@.len() && v@[k] == x;
                if k < pos { assert(before[k] == x); } else if k > pos { assert(before[k - 1] == x); }
            }
        }
        assert forall|i: int, j: int| 0 <= i < j < v@.len() implies v@[i] < v@[j] by {
            if j < pos {
                assert(v@[i] == before[i] && v@[j] == before[j]);
            } else if j == pos {
                assert(v@[i] == before[i]);
            } else if i < pos {
                assert(v@[i] == before[i] && v@[j] == before[j - 1]);
                assert(before[j - 1] >= before[pos as int]);
            } else if i == pos {
                assert(v@[j] == before[j - 1]);
                assert(before[j - 1] >= before[pos as int]);
            } else {
                assert(v@[i] == before[i - 1] && v@[j] == before[j - 1]);
            }
        }
    }
}

/// The effect ids of the modules, ascending, each once.
fn collect_effect_ids(modules: &[PlayerModule]) -> (r: Vec<i32>)
    ensures
        r@ == effect_ids(modules@),
        strictly_sorted(r@),
        forall|id: i32| r@.contains(id) <==> has_effect(modules@, id),
{
    let mut ids: Vec<i32> = Vec::new();
    let mut i: usize = 0;
    while i < modules.len()
        invariant
            i <= modules@.len(),
            strictly_sorted(ids@),
            forall|x: i32| ids@.contains(x) <==> exists|a: int, b: int| 0 <= a < i && 0 <= b < modules@[a].effects@.len()
                && #[trigger] modules@[a].effects@[b].effect_id == x,
        decreases modules@.len() - i,
    {
        let effects = &modules[i].effects;
        let mut j: usize = 0;
        while j < effects.len()
            invariant
                i < modules@.len(),
                effects@ == modules@[i as int].effects@,
                j <= effects@.len(),
                strictly_sorted(ids@),
                forall|x: i32| ids@.contains(x) <==> (
                    (exists|a: int, b: int| 0 <= a < i && 0 <= b < modules@[a].effects@.len()
                        && #[trigger] modules@[a].effects@[b].effect_id == x)
                    || exists|b: int| 0 <= b < j && #[trigger] effects@[b].effect_id == x),
            decreases effects@.len() - j,
        {
            insert_sorted(&mut ids, effects[j].effect_id);
            j = j + 1;
        }
        proof {
            assert forall|x: i32| ids@.contains(x) <==> exists|a: int, b: int| 0 <= a < i + 1 && 0 <= b < modules@[a].effects@.len()
                && #[trigger] modules@[a].effects@[b].effect_id == x by {
                if exists|b: int| 0 <= b < effects@.len() && #[trigger] effects@[b].effect_id == x {
                    let b = choose|b: int| 0 <= b < effects@.len() && #[trigger] effects@[b].effect_id == x;
                    assert(modules@[i as int].effects@[b].effect_id == x);
                }
                if exists|a: int, b: int| 0 <= a < i + 1 && 0 <= b < modules@[a].effects@.len()
                    && #[trigger] modules@[a].effects@[b].effect_id == x {
                    let (a, b) = choose|a: int, b: int| 0 <= a < i + 1 && 0 <= b < modules@[a].effects@.len()
                        && #[trigger] modules@[a].effects@[b].effect_id == x;
                    if a == i {
                        assert(effects@[b].effect_id == x);
                    }
                }
            }
        }
        i = i + 1;
    }
    proof {
        assert forall|x: i32| ids@.contains(x) <==> has_effect(modules@, x) by {}
        lemma_sorted_unique(ids@, effect_ids(modules@));
    }
    ids
}

/// The position of `id` among the first `sc` ids.
pub open spec fn dense_index(ids: Seq<i32>, sc: int, id: i32) -> Option<int> {
    if exists|di: int| 0 <= di < sc && #[trigger] ids[di] == id {
        Some(choose|di: int| 0 <= di < sc && #[trigger] ids[di] == id)
    } else {
        None
    }
}

fn find_dense(ids: &Vec<i32>, sc: usize, id: i32) -> (r: Option<usize>)
    requires
        sc <= ids@.len(),
        strictly_sorted(ids@),
    ensures
        match r {
            Some(di) => dense_index(ids@, sc as int, id) == Some(di as int),
            None => dense_index(ids@, sc as int, id) is None,
        },
{
    let mut di: usize = 0;
    while di < sc
        invariant
            sc <= ids@.len(),
            strictly_sorted(ids@),
            di <= sc,
            forall|k: int| 0 <= k < di ==> ids@[k] != id,
        decreases sc - di,
    {
        if ids[di] == id {
            proof {
                let c = choose|c: int| 0 <= c < sc && #[trigger] ids@[c] == id;
                if c != di {
                    if c < di { assert(ids@[c] < ids@[di as int]); } else { assert(ids@[di as int] < ids@[c]); }
                }
            }
            return Some(di);
        }
        di = di + 1;
    }
    None
}

// ───────────────────────────── module stat vectors ─────────────────────────────

/// What one effect adds to its stat: its level where positive, kept to its low byte.
pub open spec fn level_add(level: i32) -> u8 {
    (if level > 0 { level } else { 0i32 }) as u8
}

/// The sum of a module's additions to stat `id`.
pub open spec fn stat_sum(effects: Seq<ModuleEffect>, id: i32) -> nat
    decreases effects.len(),
{
    if effects.len() == 0 {
        0
    } else {
        stat_sum(effects.drop_last(), id) + if effects.last().effect_id == id { level_add(effects.last().level) as nat } else { 0 }
    }
}

/// A module's level in a stat, saturating at 255.
pub open spec fn module_stat(m: PlayerModule, id: i32) -> nat {
    let t = stat_sum(m.effects@, id);
    if t > 255 { 255 } else { t }
}

/// A module's levels in the first `sc` stats, zero beyond.
pub open spec fn stat_vector_ok(v: Seq<u8>, m: PlayerModule, ids: Seq<i32>, sc: int) -> bool {
    &&& v.len() == MAX_STAT_SLOTS
    &&& forall|di: int| 0 <= di < MAX_STAT_SLOTS ==> #[trigger] v[di] == if di < sc { module_stat(m, ids[di]) } else { 0 }
}

fn stat_vector(m: &PlayerModule, ids: &Vec<i32>, sc: usize) -> (r: [u8; MAX_STAT_SLOTS])
    requires
        sc <= ids@.len(),
        sc <= MAX_STAT_SLOTS,
        strictly_sorted(ids@),
    ensures
        stat_vector_ok(r@, *m, ids@, sc as int),
{
    let mut v = [0u8; MAX_STAT_SLOTS];
    let effects = &m.effects;
    let mut j: usize = 0;
    while j < effects.len()
        invariant
            sc <= ids@.len(),
            sc <= MAX_STAT_SLOTS,
            strictly_sorted(ids@),
            effects@ == m.effects@,
            j <= effects@.len(),
            v@.len() == MAX_STAT_SLOTS,
            forall|di: int| 0 <= di < MAX_STAT_SLOTS ==> #[trigger] v@[di] == if di < sc {
                let t = stat_sum(effects@.take(j as int), ids@[di]);
                if t > 255 { 255 } else { t }
            } else {
                0
            },
        decreases effects@.len() - j,
    {
        let e = effects[j];
        proof {
            assert(effects@.take(j + 1).drop_last() =~= effects@.take(j as int));
            assert(effects@.take(j + 1).last() == e);
        }
        let add: u8 = if e.level > 0 { e.level as u8 } else { 0 };
        match find_dense(ids, sc, e.effect_id) {
            Some(di) => {
                let cur = v[di];
                v[di] = cur.saturating_add(add);
                proof {
                    assert forall|k: int| 0 <= k < MAX_STAT_SLOTS && k != di implies #[trigger] v@[k] == if k < sc {
                        let t = stat_sum(effects@.take(j + 1), ids@[k]);
                        if t > 255 { 255 } else { t }
                    } else {
                        0
                    } by {
                        if k < sc {
                            assert(ids@[k] != e.effect_id) by {
                                if k < di { assert(ids@[k] < ids@[di as int]); } else { assert(ids@[di as int] < ids@[k]); }
                            }
                        }
                    }
                }
            },
            None => {
                proof {
                    assert forall|k: int| 0 <= k < sc implies ids@[k] != e.effect_id by {
                        if ids@[k] == e.effect_id {
                            assert(exists|d: int| 0 <= d < sc && #[trigger] ids@[d] == e.effect_id);
                        }
                    }
                }
            },
        }
        j = j + 1;
    }
    assert(effects@.take(effects@.len() as int) =~= effects@);
    v
}

// ───────────────────────────── priorities and score tables ─────────────────────────────

/// A priority on a stat that occurs, with its stat's position and its weight
/// (the priority count minus its rank, plus one).
#[derive(Clone, Copy, PartialEq, Eq, Debug, Structural)]
pub struct NormPrio {
    pub dense_idx: usize,
    pub req_level: u8,
    pub mode: StatMode,
    pub weight: i32,
}

/// The first `k` priorities, kept where their stat is among the first `sc` ids.
pub open spec fn norm_prios(prios: Seq<StatPriority>, ids: Seq<i32>, sc: int, k: int) -> Seq<NormPrio>
    decreases k,
{
    if k <= 0 {
        Seq::empty()
    } else {
        let prev = norm_prios(prios, ids, sc, k - 1);
        let p = prios[k - 1];
        match dense_index(ids, sc, p.effect_id) {
            Some(di) => prev.push(NormPrio {
                dense_idx: di as usize,
                req_level: p.req_level,
                mode: p.mode,
                weight: (prios.len() - k + 2) as i32,
            }),
            None => prev,
        }
    }
}

/// The last priority on stat `di`.
pub open spec fn last_prio(nps: Seq<NormPrio>, di: int) -> Option<NormPrio>
    decreases nps.len(),
{
    if nps.len() == 0 {
        None
    } else if nps.last().dense_idx == di {
        Some(nps.last())
    } else {
        last_prio(nps.drop_last(), di)
    }
}

/// The score of a priority's stat at total `v`: for "at least", the total
/// times the weight and boost; for "exactly", the full score at the required
/// total and a share of it elsewhere.
pub open spec fn prio_cell(np: NormPrio, v: u8) -> int {
    match np.mode {
        StatMode::AtLeast => v * np.weight * boost_of(v),
        StatMode::Exactly => {
            let ms = 20 * np.weight * boost_of(v);
            if v == np.req_level {
                ms
            } else {
                single_precision_share(ms as nat, v as nat, (if np.req_level >= 1 { np.req_level } else { 1u8 }) as nat) as int
            }
        },
    }
}

/// The score of stat `di` at total `v`: by its last priority, or, for a
/// stat without one, the total times its boost where all stats count.
pub open spec fn cell_score(nps: Seq<NormPrio>, value_all: bool, di: int, v: u8) -> int {
    match last_prio(nps, di) {
        Some(np) => prio_cell(np, v),
        None => if value_all { v * boost_of(v) } else { 0 },
    }
}

/// Whether stat `di` at total `v` counts as meeting a requirement: each
/// priority on the stat with a level above 0 in turn decides it, an "at
/// least" one by the total reaching its level, an "exactly" one only where
/// the total equals its level (elsewhere leaving the earlier decision). A
/// level of 0 is no requirement and leaves the cell as it was.
pub open spec fn cell_req(nps: Seq<NormPrio>, di: int, v: u8) -> bool
    decreases nps.len(),
{
    if nps.len() == 0 {
        false
    } else {
        let prev = cell_req(nps.drop_last(), di, v);
        let np = nps.last();
        if np.dense_idx != di {
            prev
        } else {
            if np.req_level == 0 {
                prev
            } else {
                match np.mode {
                    StatMode::AtLeast => v >= np.req_level,
                    StatMode::Exactly => if v == np.req_level { true } else { prev },
                }
            }
        }
    }
}

/// The most priorities a search takes. The first priority weighs one more
/// than their count, a cell of an "exactly" priority can score twenty times
/// its full score (`20 * weight * 32`), and a combination's score adds up to
/// 32 cells in an `i32`. With 5241 priorities a cell stays under `CELL_MAX`
/// and 32 of them under `i32::MAX`; from about 5250 on the sum can overflow,
/// as it does in the same arithmetic without this bound.
pub const MAX_PRIORITIES: usize = 5241;

/// The largest score a table cell can hold.
pub const CELL_MAX: i32 = 67097800;

/// Per stat and total, the score and whether the requirement is met.
pub struct ScoreTables {
    pub score: Vec<i32>,
    pub req_met: Vec<bool>,
    pub len_v: usize,
}

impl ScoreTables {
    pub open spec fn wf(&self, nps: Seq<NormPrio>, value_all: bool, sc: int) -> bool {
        &&& self.len_v == LEVEL_COUNT
        &&& self.score@.len() == sc * 21
        &&& self.req_met@.len() == sc * 21
        &&& forall|di: int, v: int| 0 <= di < sc && 0 <= v <= 20 ==> {
            &&& #[trigger] self.score@[di * 21 + v] == cell_score(nps, value_all, di, v as u8)
            &&& self.req_met@[di * 21 + v] == cell_req(nps, di, v as u8)
            &&& 0 <= self.score@[di * 21 + v] <= CELL_MAX
        }
    }

    fn score(&self, stat_idx: usize, value: u8) -> (r: i32)
        requires
            self.len_v == LEVEL_COUNT,
            stat_idx < MAX_STAT_SLOTS,
            value <= MAX_STAT_VALUE,
            stat_idx * 21 + value < self.score@.len(),
        ensures
            r == self.score@[stat_idx * 21 + value],
    {
        self.score[stat_idx * self.len_v + value as usize]
    }

    fn req_met(&self, stat_idx: usize, value: u8) -> (r: bool)
        requires
            self.len_v == LEVEL_COUNT,
            stat_idx < MAX_STAT_SLOTS,
            value <= MAX_STAT_VALUE,
            stat_idx * 21 + value < self.req_met@.len(),
        ensures
            r == self.req_met@[stat_idx * 21 + value],
    {
        self.req_met[stat_idx * self.len_v + value as usize]
    }
}

/// Priorities are on stats below `sc`, with weights from 1 to 5242.
pub open spec fn prios_ok(nps: Seq<NormPrio>, sc: int) -> bool {
    forall|k: int| 0 <= k < nps.len() ==> (#[trigger] nps[k]).dense_idx < sc && 1 <= nps[k].weight <= 5242
}

proof fn lemma_norm_prios_ok(prios: Seq<StatPriority>, ids: Seq<i32>, sc: int, k: int)
    requires
        0 <= k <= prios.len(),
        prios.len() <= MAX_PRIORITIES,
    ensures
        prios_ok(norm_prios(prios, ids, sc, k), sc),
    decreases k,
{
    if k > 0 {
        lemma_norm_prios_ok(prios, ids, sc, k - 1);
    }
}

/// The weighted priority of the priority at rank `k` (0-based, highest
/// first) among `n`, on stat `di`.
pub open spec fn ranked_prio(p: StatPriority, di: int, n: int, k: int) -> NormPrio {
    NormPrio { dense_idx: di as usize, req_level: p.req_level, mode: p.mode, weight: (n - k + 1) as i32 }
}

/// The priority at rank `k`, where its stat is found, is among `nps` with
/// its rank's weight.
pub open spec fn rank_kept(prios: Seq<StatPriority>, ids: Seq<i32>, sc: int, nps: Seq<NormPrio>, k: int) -> bool {
    dense_index(ids, sc, prios[k].effect_id) is Some ==>
        exists|a: int| 0 <= a < nps.len()
            && #[trigger] nps[a] == ranked_prio(prios[k], dense_index(ids, sc, prios[k].effect_id)->0, prios.len() as int, k)
}

/// Entry `a` of `nps` is the priority of some rank below `c` whose stat is
/// found, with its rank's weight.
pub open spec fn from_rank(prios: Seq<StatPriority>, ids: Seq<i32>, sc: int, nps: Seq<NormPrio>, a: int, c: int) -> bool {
    exists|k: int| 0 <= k < c
        && dense_index(ids, sc, (#[trigger] prios[k]).effect_id) is Some
        && nps[a] == ranked_prio(prios[k], dense_index(ids, sc, prios[k].effect_id)->0, prios.len() as int, k)
}

proof fn lemma_norm_prios_ranked(prios: Seq<StatPriority>, ids: Seq<i32>, sc: int, c: int)
    requires
        0 <= c <= prios.len(),
        prios.len() <= MAX_PRIORITIES,
    ensures ({
        let nps = norm_prios(prios, ids, sc, c);
        let n = prios.len() as int;
        &&& forall|a: int, b: int| 0 <= a < b < nps.len() ==> (#[trigger] nps[a]).weight > (#[trigger] nps[b]).weight
        &&& forall|a: int| 0 <= a < nps.len() ==> n - c + 2 <= (#[trigger] nps[a]).weight <= n + 1
        &&& forall|k: int| 0 <= k < c ==> #[trigger] rank_kept(prios, ids, sc, nps, k)
        &&& forall|a: int| 0 <= a < nps.len() ==> #[trigger] from_rank(prios, ids, sc, nps, a, c)
    }),
    decreases c,
{
    if c > 0 {
        lemma_norm_prios_ranked(prios, ids, sc, c - 1);
        let prev = norm_prios(prios, ids, sc, c - 1);
        let nps = norm_prios(prios, ids, sc, c);
        let n = prios.len() as int;
        let p = prios[c - 1];
        match dense_index(ids, sc, p.effect_id) {
            Some(di) => {
                let np = ranked_prio(p, di, n, c - 1);
                assert(nps == prev.push(np));
                assert(np.weight == n - c + 2);
                assert forall|a: int, b: int| 0 <= a < b < nps.len() implies (#[trigger] nps[a]).weight > (#[trigger] nps[b]).weight by {
                    if b < prev.len() {
                        assert(nps[a] == prev[a] && nps[b] == prev[b]);
                    } else {
                        assert(nps[a] == prev[a]);
                    }
                }
                assert forall|a: int| 0 <= a < nps.len() implies n - c + 2 <= (#[trigger] nps[a]).weight <= n + 1 by {
                    if a < prev.len() {
                        assert(nps[a] == prev[a]);
                    }
                }
                assert forall|k: int| 0 <= k < c implies #[trigger] rank_kept(prios, ids, sc, nps, k) by {
                    if k < c - 1 {
                        assert(rank_kept(prios, ids, sc, prev, k));
                        if dense_index(ids, sc, prios[k].effect_id) is Some {
                            let a = choose|a: int| 0 <= a < prev.len()
                                && #[trigger] prev[a] == ranked_prio(prios[k], dense_index(ids, sc, prios[k].effect_id)->0, n, k);
                            assert(nps[a] == prev[a]);
                        }
                    } else {
                        assert(nps[prev.len() as int] == np);
                    }
                }
                assert forall|a: int| 0 <= a < nps.len() implies #[trigger] from_rank(prios, ids, sc, nps, a, c) by {
                    if a < prev.len() {
                        assert(nps[a] == prev[a]);
                        assert(from_rank(prios, ids, sc, prev, a, c - 1));
                        let k = choose|k: int| 0 <= k < c - 1
                            && dense_index(ids, sc, (#[trigger] prios[k]).effect_id) is Some
                            && prev[a] == ranked_prio(prios[k], dense_index(ids, sc, prios[k].effect_id)->0, n, k);
                        assert(prios[k] == prios[k]);
                    } else {
                        assert(nps[a] == np);
                        assert(prios[c - 1] == p);
                    }
                }
            },
            None => {
                assert(nps == prev);
                assert forall|k: int| 0 <= k < c implies #[trigger] rank_kept(prios, ids, sc, nps, k) by {
                    if k < c - 1 {
                        assert(rank_kept(prios, ids, sc, prev, k));
                    }
                }
                assert forall|a: int| 0 <= a < nps.len() implies #[trigger] from_rank(prios, ids, sc, nps, a, c) by {
                    assert(from_rank(prios, ids, sc, prev, a, c - 1));
                    let k = choose|k: int| 0 <= k < c - 1
                        && dense_index(ids, sc, (#[trigger] prios[k]).effect_id) is Some
                        && prev[a] == ranked_prio(prios[k], dense_index(ids, sc, prios[k].effect_id)->0, n, k);
                    assert(prios[k] == prios[k]);
                }
            },
        }
    }
}

/// Priorities weigh by rank, highest first: the priority at rank `k`
/// (0-based) of `n`, on a stat found among the modules, is kept with its
/// stat, level and mode and weight `n - k + 1`; every kept priority is one
/// of these, and an earlier priority weighs strictly more than a later one.
pub proof fn lemma_priority_weights(prios: Seq<StatPriority>, ids: Seq<i32>, sc: int)
    requires
        prios.len() <= MAX_PRIORITIES,
    ensures ({
        let nps = norm_prios(prios, ids, sc, prios.len() as int);
        &&& forall|a: int, b: int| 0 <= a < b < nps.len() ==> (#[trigger] nps[a]).weight > (#[trigger] nps[b]).weight
        &&& forall|k: int| 0 <= k < prios.len() ==> #[trigger] rank_kept(prios, ids, sc, nps, k)
        &&& forall|a: int| 0 <= a < nps.len() ==> #[trigger] from_rank(prios, ids, sc, nps, a, prios.len() as int)
    }),
{
    lemma_norm_prios_ranked(prios, ids, sc, prios.len() as int);
}

fn build_norm_prios(prios: &Vec<StatPriority>, ids: &Vec<i32>, sc: usize) -> (r: Vec<NormPrio>)
    requires
        sc <= ids@.len(),
        strictly_sorted(ids@),
        prios@.len() <= MAX_PRIORITIES,
    ensures
        r@ == norm_prios(prios@, ids@, sc as int, prios@.len() as int),
        prios_ok(r@, sc as int),
        forall|a: int, b: int| 0 <= a < b < r@.len() ==> (#[trigger] r@[a]).weight > (#[trigger] r@[b]).weight,
        forall|k: int| 0 <= k < prios@.len() ==> #[trigger] rank_kept(prios@, ids@, sc as int, r@, k),
        forall|a: int| 0 <= a < r@.len() ==> #[trigger] from_rank(prios@, ids@, sc as int, r@, a, prios@.len() as int),
{
    let n = prios.len();
    let mut r: Vec<NormPrio> = Vec::new();
    let mut k: usize = 0;
    while k < n
        invariant
            n == prios@.len(),
            n <= MAX_PRIORITIES,
            sc <= ids@.len(),
            strictly_sorted(ids@),
            k <= n,
            r@ == norm_prios(prios@, ids@, sc as int, k as int),
        decreases n - k,
    {
        let p = prios[k];
        match find_dense(ids, sc, p.effect_id) {
            Some(di) => {
                r.push(NormPrio { dense_idx: di, req_level: p.req_level, mode: p.mode, weight: (n - k + 1) as i32 });
            },
            None => {},
        }
        k = k + 1;
    }
    proof {
        lemma_norm_prios_ok(prios@, ids@, sc as int, n as int);
        lemma_priority_weights(prios@, ids@, sc as int);
    }
    r
}

/// Whether some priority is on stat `di`.
fn has_prio(nps: &Vec<NormPrio>, di: usize) -> (r: bool)
    ensures
        r == last_prio(nps@, di as int) is Some,
{
    let mut k: usize = nps.len();
    proof { lemma_take_full(nps@); }
    while k > 0
        invariant
            k <= nps@.len(),
            last_prio(nps@, di as int) == last_prio(nps@.take(k as int), di as int),
        decreases k,
    {
        proof {
            assert(nps@.take(k as int).drop_last() =~= nps@.take(k - 1));
        }
        if nps[k - 1].dense_idx == di {
            return true;
        }
        k = k - 1;
    }
    false
}

proof fn lemma_take_full<T>(s: Seq<T>)
    ensures
        s.take(s.len() as int) == s,
{
    assert(s.take(s.len() as int) =~= s);
}

/// The table cells after the priorities `nps` were filled in: each stat's
/// last priority gives its scores, the requirement cells follow `cell_req`.
spec fn filled(score: Seq<i32>, req: Seq<bool>, nps: Seq<NormPrio>, sc: int) -> bool {
    forall|d: int, w: int| 0 <= d < sc && 0 <= w <= 20 ==> {
        &&& #[trigger] score[d * 21 + w] == match last_prio(nps, d) {
            Some(np) => prio_cell(np, w as u8),
            None => 0,
        }
        &&& req[d * 21 + w] == cell_req(nps, d, w as u8)
        &&& 0 <= score[d * 21 + w] <= CELL_MAX
    }
}

/// Partway through filling in priority `np` (the `t`-th) on stat `di`:
/// totals below `v` hold its values, the rest the earlier ones.
spec fn filling(score: Seq<i32>, req: Seq<bool>, nps: Seq<NormPrio>, t: int, di: int, v: int, sc: int) -> bool {
    forall|d: int, w: int| 0 <= d < sc && 0 <= w <= 20 ==> {
        &&& #[trigger] score[d * 21 + w] == match last_prio(if d == di && w < v { nps.take(t + 1) } else { nps.take(t) }, d) {
            Some(p) => prio_cell(p, w as u8),
            None => 0,
        }
        &&& req[d * 21 + w] == cell_req(if d == di && w < v { nps.take(t + 1) } else { nps.take(t) }, d, w as u8)
        &&& 0 <= score[d * 21 + w] <= CELL_MAX
    }
}

/// Cells of other stats are the same whether or not the `t`-th priority counts.
proof fn lemma_other_stat(nps: Seq<NormPrio>, t: int, d: int, w: u8)
    requires
        0 <= t < nps.len(),
        nps[t].dense_idx != d,
    ensures
        last_prio(nps.take(t + 1), d) == last_prio(nps.take(t), d),
        cell_req(nps.take(t + 1), d, w) == cell_req(nps.take(t), d, w),
{
    assert(nps.take(t + 1).drop_last() =~= nps.take(t));
}

#[verifier::rlimit(100)]
#[verifier::spinoff_prover]
fn build_tables(nps: &Vec<NormPrio>, value_all: bool, sc: usize) -> (t: ScoreTables)
    requires
        sc <= MAX_STAT_SLOTS,
        prios_ok(nps@, sc as int),
    ensures
        t.wf(nps@, value_all, sc as int),
{
    let size = sc * 21;
    let mut score: Vec<i32> = Vec::new();
    let mut req: Vec<bool> = Vec::new();
    let mut z: usize = 0;
    while z < size
        invariant
            size == sc * 21,
            z <= size,
            score@.len() == z,
            req@.len() == z,
            forall|q: int| 0 <= q < z ==> score@[q] == 0 && !req@[q],
        decreases size - z,
    {
        score.push(0);
        req.push(false);
        z = z + 1;
    }
    assert(nps@.take(0) =~= Seq::<NormPrio>::empty());
    assert(filled(score@, req@, nps@.take(0), sc as int));
    let mut t: usize = 0;
    while t < nps.len()
        invariant
            sc <= MAX_STAT_SLOTS,
            prios_ok(nps@, sc as int),
            t <= nps@.len(),
            score@.len() == sc * 21,
            req@.len() == sc * 21,
            filled(score@, req@, nps@.take(t as int), sc as int),
        decreases nps@.len() - t,
    {
        let np = nps[t];
        let di = np.dense_idx;
        proof {
            assert(np == nps@[t as int]);
            assert(nps@.take(t + 1).drop_last() =~= nps@.take(t as int));
            assert(nps@.take(t + 1).last() == np);
        }
        let mut v: u8 = 0;
        while v <= MAX_STAT_VALUE
            invariant
                sc <= MAX_STAT_SLOTS,
                t < nps@.len(),
                np == nps@[t as int],
                di == np.dense_idx,
                di < sc,
                1 <= np.weight <= 5242,
                nps@.take(t + 1).drop_last() == nps@.take(t as int),
                nps@.take(t + 1).last() == np,
                v <= 21,
                score@.len() == sc * 21,
                req@.len() == sc * 21,
                filling(score@, req@, nps@, t as int, di as int, v as int, sc as int),
            decreases 21 - v,
        {
            let idx = di * 21 + v as usize;
            let boost = link_level_boost(v);
            assert(0 <= v * np.weight <= 104840) by (nonlinear_arith)
                requires 0 <= v <= 20, 1 <= np.weight <= 5242;
            assert(0 <= v * np.weight * boost <= 3354880) by (nonlinear_arith)
                requires 0 <= v <= 20, 1 <= np.weight <= 5242, 0 <= boost <= 32;
            assert(0 <= 20 * np.weight <= 104840);
            assert(0 <= 20 * np.weight * boost <= 3354880) by (nonlinear_arith)
                requires 1 <= np.weight <= 5242, 0 <= boost <= 32;
            let ghost s0 = score@;
            let ghost r0 = req@;
            match np.mode {
                StatMode::AtLeast => {
                    score[idx] = (v as i32) * np.weight * boost;
                    if np.req_level > 0 {
                        req[idx] = v >= np.req_level;
                    }
                },
                StatMode::Exactly => {
                    let max_s = 20 * np.weight * boost;
                    if v == np.req_level {
                        score[idx] = max_s;
                        if np.req_level > 0 {
                            req[idx] = true;
                        }
                    } else {
                        score[idx] = exactly_partial_score(max_s, v, np.req_level);
                    }
                },
            }
            proof {
                assert(score@[idx as int] == prio_cell(np, v));
                assert(last_prio(nps@.take(t + 1), di as int) == Some(np));
                assert(req@[idx as int] == cell_req(nps@.take(t + 1), di as int, v));
                assert forall|d: int, w: int| 0 <= d < sc && 0 <= w <= 20 implies {
                    &&& #[trigger] score@[d * 21 + w] == match last_prio(if d == di && w < v + 1 { nps@.take(t + 1) } else { nps@.take(t as int) }, d) {
                        Some(p) => prio_cell(p, w as u8),
                        None => 0,
                    }
                    &&& req@[d * 21 + w] == cell_req(if d == di && w < v + 1 { nps@.take(t + 1) } else { nps@.take(t as int) }, d, w as u8)
                    &&& 0 <= score@[d * 21 + w] <= CELL_MAX
                } by {
                    if d == di && w == v {
                    } else {
                        assert(d * 21 + w != idx);
                        assert(score@[d * 21 + w] == s0[d * 21 + w]);
                        assert(req@[d * 21 + w] == r0[d * 21 + w]);
                    }
                }
            }
            v = v + 1;
        }
        proof {
            assert forall|d: int, w: int| 0 <= d < sc && 0 <= w <= 20 implies {
                &&& #[trigger] score@[d * 21 + w] == match last_prio(nps@.take(t + 1), d) {
                    Some(p) => prio_cell(p, w as u8),
                    None => 0,
                }
                &&& req@[d * 21 + w] == cell_req(nps@.take(t + 1), d, w as u8)
                &&& 0 <= score@[d * 21 + w] <= CELL_MAX
            } by {
                if d != di {
                    lemma_other_stat(nps@, t as int, d, w as u8);
                }
            }
        }
        t = t + 1;
    }
    proof { lemma_take_full(nps@); }
    if value_all {
        let mut d: usize = 0;
        while d < sc
            invariant
                sc <= MAX_STAT_SLOTS,
                d <= sc,
                score@.len() == sc * 21,
                req@.len() == sc * 21,
                forall|e: int, w: int| 0 <= e < sc && 0 <= w <= 20 ==> {
                    &&& #[trigger] score@[e * 21 + w] == if e < d {
                        cell_score(nps@, true, e, w as u8)
                    } else {
                        match last_prio(nps@, e) {
                            Some(p) => prio_cell(p, w as u8),
                            None => 0,
                        }
                    }
                    &&& req@[e * 21 + w] == cell_req(nps@, e, w as u8)
                    &&& 0 <= score@[e * 21 + w] <= CELL_MAX
                },
            decreases sc - d,
        {
            if !has_prio(nps, d) {
                let mut v: u8 = 0;
                while v <= MAX_STAT_VALUE
                    invariant
                        sc <= MAX_STAT_SLOTS,
                        d < sc,
                        v <= 21,
                        last_prio(nps@, d as int) is None,
                        score@.len() == sc * 21,
                        req@.len() == sc * 21,
                        forall|e: int, w: int| 0 <= e < sc && 0 <= w <= 20 ==> {
                            &&& #[trigger] score@[e * 21 + w] == if e < d || (e == d && w < v) {
                                cell_score(nps@, true, e, w as u8)
                            } else {
                                match last_prio(nps@, e) {
                                    Some(p) => prio_cell(p, w as u8),
                                    None => 0,
                                }
                            }
                            &&& req@[e * 21 + w] == cell_req(nps@, e, w as u8)
                            &&& 0 <= score@[e * 21 + w] <= CELL_MAX
                        },
                    decreases 21 - v,
                {
                    let idx = d * 21 + v as usize;
                    let boost = link_level_boost(v);
                    assert(0 <= v * boost <= 640) by (nonlinear_arith) requires 0 <= v <= 20, 0 <= boost <= 32;
                    let ghost s0 = score@;
                    score[idx] = (v as i32) * boost;
                    proof {
                        assert(score@[idx as int] == cell_score(nps@, true, d as int, v));
                        assert forall|e: int, w: int| 0 <= e < sc && 0 <= w <= 20 && (e != d || w != v) implies
                            #[trigger] score@[e * 21 + w] == s0[e * 21 + w] by {
                            assert(e * 21 + w != idx);
                        }
                    }
                    v = v + 1;
                }
            }
            d = d + 1;
        }
    }
    assert forall|di: int, v: int| 0 <= di < sc && 0 <= v <= 20 implies {
        &&& #[trigger] score@[di * 21 + v] == cell_score(nps@, value_all, di, v as u8)
        &&& req@[di * 21 + v] == cell_req(nps@, di, v as u8)
        &&& 0 <= score@[di * 21 + v] <= CELL_MAX
    } by {
        if !value_all {
            assert(score@[di * 21 + v] == match last_prio(nps@, di) {
                Some(p) => prio_cell(p, v as u8),
                None => 0,
            });
        }
    }
    let tab = ScoreTables { score, req_met: req, len_v: LEVEL_COUNT };
    assert(tab.score@ == score@ && tab.req_met@ == req@);
    tab
}

// ───────────────────────────── beam search ─────────────────────────────

/// A partial combination: the chosen module positions (ascending, -1 for
/// slots not yet filled), the capped stat totals, and the score and number
/// of met requirements at those totals.
#[derive(Clone, Copy, Debug)]
struct BeamNode {
    mods: [i16; 5],
    totals: [u8; MAX_STAT_SLOTS],
    score: i32,
    req_met: u8,
}

/// A total capped at `MAX_STAT_VALUE`.
pub open spec fn capped(x: int) -> u8 {
    if x > 20 { 20 } else if x < 0 { 0 } else { x as u8 }
}

/// The sum of table cells at the totals of the first `k` stats.
pub open spec fn table_score(tab: Seq<i32>, totals: Seq<u8>, k: int) -> int
    decreases k,
{
    if k <= 0 { 0 } else { table_score(tab, totals, k - 1) + tab[(k - 1) * 21 + totals[k - 1]] }
}

/// The number of the first `k` stats whose requirement cell is met.
pub open spec fn table_req(tab: Seq<bool>, totals: Seq<u8>, k: int) -> nat
    decreases k,
{
    if k <= 0 { 0 } else { table_req(tab, totals, k - 1) + if tab[(k - 1) * 21 + totals[k - 1]] { 1nat } else { 0 } }
}

/// Each module vector is zero beyond the first `sc` stats.
spec fn dense_ok(dense: Seq<[u8; MAX_STAT_SLOTS]>, sc: int) -> bool {
    forall|c: int, di: int| 0 <= c < dense.len() && sc <= di < MAX_STAT_SLOTS ==> #[trigger] dense[c]@[di] == 0
}

/// The sum of the first `depth` chosen modules' levels in stat `di`.
spec fn combo_sum(dense: Seq<[u8; MAX_STAT_SLOTS]>, mods: Seq<i16>, depth: int, di: int) -> int
    decreases depth,
{
    if depth <= 0 { 0 } else { combo_sum(dense, mods, depth - 1, di) + dense[mods[depth - 1] as int]@[di] }
}

/// A node with `depth` modules chosen, ascending, and its totals the
/// capped sums of their vectors.
spec fn node_ok(n: BeamNode, depth: int, dense: Seq<[u8; MAX_STAT_SLOTS]>) -> bool {
    &&& 0 <= depth <= 5
    &&& forall|t: int| 0 <= t < depth ==> 0 <= #[trigger] n.mods@[t] < dense.len()
    &&& forall|a: int, b: int| 0 <= a < b < depth ==> #[trigger] n.mods@[a] < #[trigger] n.mods@[b]
    &&& forall|t: int| depth <= t < 5 ==> #[trigger] n.mods@[t] == -1
    &&& forall|di: int| 0 <= di < MAX_STAT_SLOTS ==> #[trigger] n.totals@[di] == capped(combo_sum(dense, n.mods@, depth, di))
}

/// The node's score and met-requirement count are those of the tables at its totals.
spec fn node_scored(n: BeamNode, tables: ScoreTables, sc: int) -> bool {
    &&& n.score == table_score(tables.score@, n.totals@, sc)
    &&& n.req_met == table_req(tables.req_met@, n.totals@, sc)
}

/// `c` adds one module, past the last chosen, to `p`, and is scored.
spec fn child_ok(p: BeamNode, c: BeamNode, depth: int, dense: Seq<[u8; MAX_STAT_SLOTS]>, tables: ScoreTables, sc: int) -> bool {
    &&& c.mods@ == p.mods@.update(depth, c.mods@[depth])
    &&& 0 <= c.mods@[depth] < dense.len()
    &&& (depth > 0 ==> c.mods@[depth] > p.mods@[depth - 1])
    &&& forall|di: int| 0 <= di < MAX_STAT_SLOTS ==> #[trigger] c.totals@[di]
        == capped(p.totals@[di] + dense[c.mods@[depth] as int]@[di])
    &&& node_scored(c, tables, sc)
}

/// Where the children of a node with `depth` modules start: past its last module.
spec fn start_of(p: BeamNode, depth: int) -> int {
    if depth == 0 { 0 } else { p.mods@[depth - 1] + 1 }
}

/// `s` holds the children of `p`, one for each later module, in ascending order.
spec fn children_ok(p: BeamNode, s: Seq<BeamNode>, depth: int, dense: Seq<[u8; MAX_STAT_SLOTS]>, tables: ScoreTables, sc: int) -> bool {
    &&& s.len() == dense.len() - start_of(p, depth)
    &&& forall|k: int| 0 <= k < s.len() ==> {
        &&& child_ok(p, #[trigger] s[k], depth, dense, tables, sc)
        &&& s[k].mods@[depth] == start_of(p, depth) + k
    }
}

/// The tables are laid out for `sc` stats, with cells in range.
spec fn tables_ok(tables: ScoreTables, sc: int) -> bool {
    &&& tables.len_v == LEVEL_COUNT
    &&& tables.score@.len() == sc * 21
    &&& tables.req_met@.len() == sc * 21
    &&& forall|q: int| 0 <= q < sc * 21 ==> 0 <= #[trigger] tables.score@[q] <= CELL_MAX
}

proof fn lemma_child_node_ok(p: BeamNode, c: BeamNode, depth: int, dense: Seq<[u8; MAX_STAT_SLOTS]>, tables: ScoreTables, sc: int)
    requires
        0 <= depth < 5,
        node_ok(p, depth, dense),
        child_ok(p, c, depth, dense, tables, sc),
    ensures
        node_ok(c, depth + 1, dense),
{
    assert forall|di: int| 0 <= di < MAX_STAT_SLOTS implies #[trigger] c.totals@[di] == capped(combo_sum(dense, c.mods@, depth + 1, di)) by {
        lemma_combo_sum_prefix(dense, p.mods@, c.mods@, depth, di);
        lemma_combo_sum_nonneg(dense, p.mods@, depth, di);
    }
    assert forall|a: int, b: int| 0 <= a < b < depth + 1 implies #[trigger] c.mods@[a] < #[trigger] c.mods@[b] by {
        if b == depth && a < depth - 1 {
            assert(p.mods@[a] < p.mods@[depth - 1]);
        }
    }
}

proof fn lemma_combo_sum_nonneg(dense: Seq<[u8; MAX_STAT_SLOTS]>, mods: Seq<i16>, depth: int, di: int)
    ensures
        combo_sum(dense, mods, depth, di) >= 0,
    decreases depth,
{
    if depth > 0 {
        lemma_combo_sum_nonneg(dense, mods, depth - 1, di);
    }
}

proof fn lemma_combo_sum_prefix(dense: Seq<[u8; MAX_STAT_SLOTS]>, a: Seq<i16>, b: Seq<i16>, depth: int, di: int)
    requires
        0 <= depth,
        depth < a.len(),
        b == a.update(depth, b[depth]),
    ensures
        combo_sum(dense, b, depth, di) == combo_sum(dense, a, depth, di),
    decreases depth,
{
    if depth > 0 {
        lemma_combo_sum_prefix_at(dense, a, b, depth - 1, depth, di);
    }
}

proof fn lemma_combo_sum_prefix_at(dense: Seq<[u8; MAX_STAT_SLOTS]>, a: Seq<i16>, b: Seq<i16>, k: int, depth: int, di: int)
    requires
        0 <= k < depth,
        depth < a.len(),
        b == a.update(depth, b[depth]),
    ensures
        combo_sum(dense, b, k + 1, di) == combo_sum(dense, a, k + 1, di),
    decreases k,
{
    assert(b[k] == a[k]);
    if k > 0 {
        lemma_combo_sum_prefix_at(dense, a, b, k - 1, depth, di);
    } else {
        assert(combo_sum(dense, b, 0, di) == 0 && combo_sum(dense, a, 0, di) == 0);
    }
}

impl BeamNode {
    /// The node with nothing chosen.
    fn empty(stat_count: usize) -> (r: BeamNode)
        ensures
            forall|dense: Seq<[u8; MAX_STAT_SLOTS]>| #[trigger] node_ok(r, 0, dense),
            r.score == 0,
            r.req_met == 0,
    {
        let r = BeamNode { mods: [-1i16; 5], totals: [0u8; MAX_STAT_SLOTS], score: 0, req_met: 0 };
        r
    }

    /// Whether the module position is chosen.
    fn contains_mod(&self, idx: i16) -> (r: bool)
        ensures
            r == exists|t: int| 0 <= t < 5 && #[trigger] self.mods@[t] == idx,
    {
        let mut t: usize = 0;
        while t < 5
            invariant
                t <= 5,
                forall|u: int| 0 <= u < t ==> self.mods@[u] != idx,
            decreases 5 - t,
        {
            if self.mods[t] == idx {
                return true;
            }
            t = t + 1;
        }
        false
    }
}

/// The children of a node: each later module added, scored by the tables.
fn expand_node(node: &BeamNode, depth: usize, dense: &Vec<[u8; MAX_STAT_SLOTS]>, tables: &ScoreTables, sc: usize) -> (r: Vec<BeamNode>)
    requires
        depth < 5,
        sc <= MAX_STAT_SLOTS,
        dense@.len() < 32768,
        dense_ok(dense@, sc as int),
        node_ok(*node, depth as int, dense@),
        tables_ok(*tables, sc as int),
    ensures
        children_ok(*node, r@, depth as int, dense@, *tables, sc as int),
{
    let start: usize = if depth == 0 {
        0
    } else {
        let mut last: usize = 0;
        let mut t: usize = 0;
        while t < depth
            invariant
                t <= depth < 5,
                node_ok(*node, depth as int, dense@),
                dense@.len() < 32768,
                t == 0 ==> last == 0,
                t > 0 ==> last == node.mods@[t - 1] as usize,
            decreases depth - t,
        {
            let m = node.mods[t];
            if m >= 0 && m as usize > last {
                last = m as usize;
            }
            proof {
                if t > 0 {
                    assert(node.mods@[t - 1] < node.mods@[t as int]);
                }
            }
            t = t + 1;
        }
        last + 1
    };
    let mut out: Vec<BeamNode> = Vec::new();
    let mut mod_idx: usize = start;
    while mod_idx < dense.len()
        invariant
            depth < 5,
            sc <= MAX_STAT_SLOTS,
            dense@.len() < 32768,
            dense_ok(dense@, sc as int),
            node_ok(*node, depth as int, dense@),
            tables_ok(*tables, sc as int),
            start == start_of(*node, depth as int),
            start <= mod_idx <= dense@.len(),
            out@.len() == mod_idx - start,
            forall|k: int| 0 <= k < out@.len() ==> {
                &&& child_ok(*node, #[trigger] out@[k], depth as int, dense@, *tables, sc as int)
                &&& out@[k].mods@[depth as int] == start + k
            },
        decreases dense@.len() - mod_idx,
    {
        proof {
            assert forall|t: int| 0 <= t < 5 implies node.mods@[t] != mod_idx as i16 by {
                if t < depth && depth > 0 && t < depth - 1 {
                    assert(node.mods@[t] < node.mods@[depth - 1]);
                }
            }
        }
        if !node.contains_mod(mod_idx as i16) {
            let m = &dense[mod_idx];
            let mut new_totals = node.totals;
            let mut score: i32 = 0;
            let mut req_met: u8 = 0;
            let mut di: usize = 0;
            while di < sc
                invariant
                    sc <= MAX_STAT_SLOTS,
                    di <= sc,
                    tables_ok(*tables, sc as int),
                    *m == dense@[mod_idx as int],
                    new_totals@.len() == MAX_STAT_SLOTS,
                    forall|d: int| 0 <= d < MAX_STAT_SLOTS ==> #[trigger] new_totals@[d]
                        == if d < di { capped(node.totals@[d] + m@[d]) } else { node.totals@[d] },
                    score == table_score(tables.score@, new_totals@, di as int),
                    req_met == table_req(tables.req_met@, new_totals@, di as int),
                    0 <= score <= di * CELL_MAX,
                    req_met <= di,
                decreases sc - di,
            {
                let ghost before = new_totals@;
                let sum = new_totals[di].saturating_add(m[di]);
                let v = if sum < MAX_STAT_VALUE { sum } else { MAX_STAT_VALUE };
                new_totals[di] = v;
                proof {
                    assert(table_score(tables.score@, new_totals@, di as int) == table_score(tables.score@, before, di as int)) by {
                        lemma_table_prefix(tables.score@, tables.req_met@, before, new_totals@, di as int);
                    }
                    lemma_table_prefix(tables.score@, tables.req_met@, before, new_totals@, di as int);
                }
                let cell = tables.score(di, v);
                assert(0 <= di * 21 + v < sc * 21);
                score = score + cell;
                if tables.req_met(di, v) {
                    req_met = req_met + 1;
                }
                di = di + 1;
            }
            let mut new_mods = node.mods;
            new_mods[depth] = mod_idx as i16;
            let child = BeamNode { mods: new_mods, totals: new_totals, score, req_met };
            proof {
                assert(child.mods@ =~= node.mods@.update(depth as int, child.mods@[depth as int]));
                assert forall|d: int| 0 <= d < MAX_STAT_SLOTS implies #[trigger] child.totals@[d]
                    == capped(node.totals@[d] + dense@[child.mods@[depth as int] as int]@[d]) by {
                    if d >= sc {
                        assert(node.totals@[d] <= 20);
                    }
                }
            }
            out.push(child);
        }
        mod_idx = mod_idx + 1;
    }
    out
}

proof fn lemma_table_prefix(tab: Seq<i32>, req: Seq<bool>, a: Seq<u8>, b: Seq<u8>, k: int)
    requires
        0 <= k,
        k <= a.len(),
        a.len() == b.len(),
        forall|d: int| 0 <= d < k ==> a[d] == b[d],
    ensures
        table_score(tab, a, k) == table_score(tab, b, k),
        table_req(req, a, k) == table_req(req, b, k),
    decreases k,
{
    if k > 0 {
        lemma_table_prefix(tab, req, a, b, k - 1);
    }
}

/// Expands every beam node with `rayon`: `par_iter().flat_map_iter(..)`
/// over the nodes, collected into a vector. Every collected item is one that
/// `expand_node` produced for some node of the beam, and the vector is the
/// lists that `expand_node` gives for the nodes, node after node: rayon
/// collects an unindexed iterator into a `Vec` by appending the pieces of its
/// split in their original order.
#[verifier::external_body]
fn expand_all(beam: &Vec<BeamNode>, depth: usize, dense: &Vec<[u8; MAX_STAT_SLOTS]>, tables: &ScoreTables, sc: usize) -> (r: Vec<BeamNode>)
    requires
        depth < 5,
        sc <= MAX_STAT_SLOTS,
        dense@.len() < 32768,
        dense_ok(dense@, sc as int),
        tables_ok(*tables, sc as int),
        forall|i: int| 0 <= i < beam@.len() ==> node_ok(#[trigger] beam@[i], depth as int, dense@),
    ensures
        forall|k: int| 0 <= k < r@.len() ==> #[trigger] from_beam(beam@, r@[k], depth as int, dense@, *tables, sc as int),
        exists|parts: Seq<Seq<BeamNode>>| #[trigger] parts_of(beam@, parts, r@, depth as int, dense@, *tables, sc as int),
{
    beam.par_iter().flat_map_iter(|node| expand_node(node, depth, dense, tables, sc)).collect()
}

/// The lists of `parts`, one after the other.
spec fn concat_all(parts: Seq<Seq<BeamNode>>) -> Seq<BeamNode>
    decreases parts.len(),
{
    if parts.len() == 0 { Seq::empty() } else { concat_all(parts.drop_last()) + parts.last() }
}

/// `c` is the children of the beam's nodes, node after node, with `parts`
/// the children of each.
spec fn parts_of(beam: Seq<BeamNode>, parts: Seq<Seq<BeamNode>>, c: Seq<BeamNode>, depth: int, dense: Seq<[u8; MAX_STAT_SLOTS]>, tables: ScoreTables, sc: int) -> bool {
    &&& parts.len() == beam.len()
    &&& forall|i: int| 0 <= i < beam.len() ==> children_ok(beam[i], #[trigger] parts[i], depth, dense, tables, sc)
    &&& c == concat_all(parts)
}

/// `c` is a child of some node of the beam.
spec fn from_beam(beam: Seq<BeamNode>, c: BeamNode, depth: int, dense: Seq<[u8; MAX_STAT_SLOTS]>, tables: ScoreTables, sc: int) -> bool {
    exists|i: int| 0 <= i < beam.len() && child_ok(#[trigger] beam[i], c, depth, dense, tables, sc)
}

/// `a` ranks above `b`: more requirements met, or as many and a higher score.
spec fn better(a: BeamNode, b: BeamNode) -> bool {
    a.req_met > b.req_met || (a.req_met == b.req_met && a.score > b.score)
}

/// Orders nodes best first.
fn beam_order(a: &BeamNode, b: &BeamNode) -> (r: Ordering)
    ensures
        (r == Ordering::Less) == better(*a, *b),
        (r == Ordering::Greater) == better(*b, *a),
{
    if a.req_met > b.req_met || (a.req_met == b.req_met && a.score > b.score) {
        Ordering::Less
    } else if b.req_met > a.req_met || (b.req_met == a.req_met && b.score > a.score) {
        Ordering::Greater
    } else {
        Ordering::Equal
    }
}

/// `slice::select_nth_unstable_by` with the best-first order: the nodes are
/// reordered so that none before position `k` ranks below the node at `k`,
/// and none after it ranks above.
#[verifier::external_body]
fn select_best(v: &mut Vec<BeamNode>, k: usize)
    requires
        k < old(v)@.len(),
    ensures
        final(v)@.len() == old(v)@.len(),
        final(v)@.to_multiset() == old(v)@.to_multiset(),
        partitioned_at(final(v)@, k),
{
    v.select_nth_unstable_by(k, |a, b| beam_order(a, b));
}

/// None before position `k` ranks below the node at `k`, none after it above.
spec fn partitioned_at(w: Seq<BeamNode>, k: usize) -> bool {
    &&& forall|i: int| 0 <= i < k ==> !better(w[k as int], #[trigger] w[i])
    &&& forall|j: int| k < j < w.len() ==> !better(#[trigger] w[j], w[k as int])
}

/// Keeps the `k` best nodes (in no particular order): every kept node was
/// there before, and no dropped node ranks above a kept one.
fn top_k_inplace(v: &mut Vec<BeamNode>, k: usize)
    ensures
        final(v)@.len() == if old(v)@.len() <= k { old(v)@.len() } else { k as nat },
        old(v)@.len() <= k ==> final(v)@ == old(v)@,
        final(v)@.to_multiset().subset_of(old(v)@.to_multiset()),
        forall|x: BeamNode| #[trigger] final(v)@.contains(x) ==> old(v)@.contains(x),
        forall|x: BeamNode, i: int| old(v)@.contains(x) && !final(v)@.contains(x) && 0 <= i < final(v)@.len()
            ==> !#[trigger] better(x, final(v)@[i]),
        forall|x: BeamNode, i: int| old(v)@.to_multiset().count(x) > final(v)@.to_multiset().count(x) && 0 <= i < final(v)@.len()
            ==> !#[trigger] better(x, final(v)@[i]),
{
    if v.len() <= k {
        return;
    }
    let ghost v0 = v@;
    select_best(v, k);
    let ghost w = v@;
    v.truncate(k);
    proof {
        broadcast use vstd::seq_lib::group_to_multiset_ensures;
        assert(v@ == w.take(k as int));
        lemma_take_multiset(w, k as int);
        assert forall|x: BeamNode| #[trigger] v@.contains(x) implies v0.contains(x) by {
            let j = choose|j: int| 0 <= j < v@.len() && v@[j] == x;
            assert(w[j] == x);
            assert(w.contains(x));
            assert(w.to_multiset().count(x) > 0);
        }
        assert forall|x: BeamNode, i: int| v0.contains(x) && !v@.contains(x) && 0 <= i < v@.len()
            implies !#[trigger] better(x, v@[i]) by {
            assert(v0.to_multiset().count(x) > 0);
            assert(w.contains(x));
            let j = choose|j: int| 0 <= j < w.len() && w[j] == x;
            if j < k {
                assert(v@[j] == x);
            }
            assert(v@[i] == w[i]);
        }
        assert(w =~= w.take(k as int) + w.skip(k as int));
        vstd::seq_lib::lemma_multiset_commutative(w.take(k as int), w.skip(k as int));
        assert forall|x: BeamNode, i: int| v0.to_multiset().count(x) > v@.to_multiset().count(x) && 0 <= i < v@.len()
            implies !#[trigger] better(x, v@[i]) by {
            let sk = w.skip(k as int);
            assert(w.to_multiset().count(x) == v@.to_multiset().count(x) + sk.to_multiset().count(x));
            assert(sk.contains(x));
            let j = choose|j: int| 0 <= j < sk.len() && sk[j] == x;
            assert(w[k + j] == x);
            assert(v@[i] == w[i]);
            assert(!better(w[k as int], w[i]));
            if j > 0 {
                assert(!better(w[k + j], w[k as int]));
            }
        }
    }
}

// ───────────────────────────── the search on combinations ─────────────────────────────

/// Where the modules added to a combination start: past its last one.
pub open spec fn combo_start(idx: Seq<usize>) -> int {
    if idx.len() == 0 { 0 } else { idx.last() + 1 }
}

/// The combinations one module longer, one for each later module of `n`, ascending.
pub open spec fn combo_children(idx: Seq<usize>, n: int) -> Seq<Seq<usize>> {
    let start = combo_start(idx);
    Seq::new(if n > start { (n - start) as nat } else { 0 }, |j: int| idx.push((start + j) as usize))
}

/// The children of every combination of a beam, combination after combination.
pub open spec fn expand_combos(beam: Seq<Seq<usize>>, n: int) -> Seq<Seq<usize>>
    decreases beam.len(),
{
    if beam.len() == 0 { Seq::empty() } else { expand_combos(beam.drop_last(), n) + combo_children(beam.last(), n) }
}

/// `a` ranks above `b`: more requirements met, or as many and a higher score.
pub open spec fn ranks_above(rank: spec_fn(Seq<usize>) -> (nat, int), a: Seq<usize>, b: Seq<usize>) -> bool {
    rank(a).0 > rank(b).0 || (rank(a).0 == rank(b).0 && rank(a).1 > rank(b).1)
}

/// `kept` is `k` distinct combinations of `all` (all of them if there are
/// no more), and nothing left out ranks above anything kept.
pub open spec fn best_kept(all: Seq<Seq<usize>>, kept: Seq<Seq<usize>>, k: int, rank: spec_fn(Seq<usize>) -> (nat, int)) -> bool {
    &&& kept.len() == if all.len() <= k { all.len() as int } else { k }
    &&& kept.no_duplicates()
    &&& forall|x: Seq<usize>| #[trigger] kept.contains(x) ==> all.contains(x)
    &&& forall|x: Seq<usize>, i: int| all.contains(x) && !kept.contains(x) && 0 <= i < kept.len()
        ==> !#[trigger] ranks_above(rank, x, kept[i])
}

/// The beams of a search over `n` modules, one per depth: the first holds
/// the empty combination, each next one the best `width` children of the
/// one before; the search runs `num_slots` deep or stops at an empty beam.
pub open spec fn beam_trace(tr: Seq<Seq<Seq<usize>>>, n: int, num_slots: int, width: int, rank: spec_fn(Seq<usize>) -> (nat, int)) -> bool {
    &&& 1 <= tr.len() <= num_slots + 1
    &&& tr[0] == seq![Seq::<usize>::empty()]
    &&& forall|d: int| 0 <= d < tr.len() - 1 ==> best_kept(expand_combos(#[trigger] tr[d], n), tr[d + 1], width, rank)
    &&& (tr.len() == num_slots + 1 || tr.last().len() == 0)
}

/// Combinations meeting at least `want` requirements.
pub open spec fn meets_reqs(rank: spec_fn(Seq<usize>) -> (nat, int), want: nat) -> spec_fn(Seq<usize>) -> bool {
    |idx: Seq<usize>| rank(idx).0 >= want
}

/// What the best ten are taken from: the final beam's combinations that
/// meet every requirement, or, where none does, the whole final beam.
pub open spec fn final_pool(last: Seq<Seq<usize>>, rank: spec_fn(Seq<usize>) -> (nat, int), want: nat) -> Seq<Seq<usize>> {
    if last.filter(meets_reqs(rank, want)).len() > 0 { last.filter(meets_reqs(rank, want)) } else { last }
}

/// A combination of `d` distinct modules among `n`, in ascending order.
pub open spec fn combo_shape(x: Seq<usize>, d: int, n: int) -> bool {
    &&& x.len() == d
    &&& forall|i: int| 0 <= i < x.len() ==> #[trigger] x[i] < n
    &&& forall|a: int, b: int| 0 <= a < b < x.len() ==> #[trigger] x[a] < #[trigger] x[b]
}

proof fn lemma_expand_shape(beam: Seq<Seq<usize>>, n: int, d: int)
    requires
        0 <= n <= usize::MAX,
        forall|i: int| 0 <= i < beam.len() ==> combo_shape(#[trigger] beam[i], d, n),
    ensures
        forall|i: int| 0 <= i < expand_combos(beam, n).len() ==> combo_shape(#[trigger] expand_combos(beam, n)[i], d + 1, n),
    decreases beam.len(),
{
    if beam.len() > 0 {
        let bl = beam.drop_last();
        assert forall|i: int| 0 <= i < bl.len() implies combo_shape(#[trigger] bl[i], d, n) by {
            assert(bl[i] == beam[i]);
        }
        lemma_expand_shape(bl, n, d);
        let b = beam.last();
        assert(combo_shape(beam[beam.len() - 1], d, n));
        let kids = combo_children(b, n);
        assert forall|j: int| 0 <= j < kids.len() implies combo_shape(#[trigger] kids[j], d + 1, n) by {
            let x = kids[j];
            let st = combo_start(b);
            assert(x == b.push((st + j) as usize));
            assert(st + j < n);
            assert(st >= 0);
            assert(((st + j) as usize) as int == st + j);
            assert(b.len() > 0 ==> st == b[b.len() - 1] + 1);
            assert forall|a: int| 0 <= a < b.len() implies #[trigger] b[a] < st by {
                if a < b.len() - 1 {
                    assert(b[a] < b[b.len() - 1]);
                }
            }
            assert forall|a: int| 0 <= a < x.len() implies #[trigger] x[a] < n by {
                if a < b.len() {
                    assert(x[a] == b[a]);
                }
            }
            assert forall|a: int, c: int| 0 <= a < c < x.len() implies #[trigger] x[a] < #[trigger] x[c] by {
                assert(x[a] == b[a]);
                if c < b.len() {
                    assert(x[c] == b[c]);
                    assert(b[a] < b[c]);
                } else {
                    assert(x[c] == st + j);
                }
            }
        }
        let e = expand_combos(bl, n);
        assert forall|i: int| 0 <= i < expand_combos(beam, n).len() implies combo_shape(#[trigger] expand_combos(beam, n)[i], d + 1, n) by {
            if i < e.len() {
                assert(expand_combos(beam, n)[i] == e[i]);
            } else {
                assert(expand_combos(beam, n)[i] == kids[i - e.len()]);
            }
        }
    }
}

proof fn lemma_shape_fits(x: Seq<usize>, d: int, n: int)
    requires
        n >= 0,
        combo_shape(x, d, n),
    ensures
        d <= n,
{
    assert forall|i: int| 0 <= i < x.len() implies #[trigger] x[i] >= i by {
        lemma_shape_at_least(x, d, n, i);
    }
    if d > 0 {
        assert(x[d - 1] >= d - 1);
        assert(x[d - 1] < n);
    }
}

proof fn lemma_shape_at_least(x: Seq<usize>, d: int, n: int, i: int)
    requires
        combo_shape(x, d, n),
        0 <= i < x.len(),
    ensures
        x[i] >= i,
    decreases i,
{
    if i > 0 {
        lemma_shape_at_least(x, d, n, i - 1);
        assert(x[i - 1] < x[i]);
    }
}

proof fn lemma_trace_shape(tr: Seq<Seq<Seq<usize>>>, n: int, num_slots: int, width: int, rank: spec_fn(Seq<usize>) -> (nat, int), d: int)
    requires
        beam_trace(tr, n, num_slots, width, rank),
        0 <= d < tr.len(),
        0 <= n <= usize::MAX,
    ensures
        forall|i: int| 0 <= i < tr[d].len() ==> combo_shape(#[trigger] tr[d][i], d, n),
    decreases d,
{
    if d == 0 {
        assert forall|i: int| 0 <= i < tr[0].len() implies combo_shape(#[trigger] tr[0][i], 0, n) by {
            assert(tr[0][i] == Seq::<usize>::empty());
        }
    } else {
        lemma_trace_shape(tr, n, num_slots, width, rank, d - 1);
        lemma_expand_shape(tr[d - 1], n, d - 1);
        assert(best_kept(expand_combos(tr[d - 1], n), tr[d], width, rank));
        let all = expand_combos(tr[d - 1], n);
        assert forall|i: int| 0 <= i < tr[d].len() implies combo_shape(#[trigger] tr[d][i], d, n) by {
            assert(tr[d].contains(tr[d][i]));
            assert(all.contains(tr[d][i]));
            let j = choose|j: int| 0 <= j < all.len() && all[j] == tr[d][i];
            assert(combo_shape(all[j], d, n));
        }
    }
}

/// With fewer modules than slots no combination can be filled, so nothing
/// is proposed.
pub proof fn lemma_too_few_modules(tr: Seq<Seq<Seq<usize>>>, n: int, num_slots: int, width: int,
    rank: spec_fn(Seq<usize>) -> (nat, int), want: nat, r: Seq<Seq<usize>>)
    requires
        beam_trace(tr, n, num_slots, width, rank),
        best_kept(final_pool(tr.last(), rank, want), r, 10, rank),
        0 <= n < num_slots,
        n <= usize::MAX,
    ensures
        r.len() == 0,
{
    let last = tr.last();
    if tr.len() == num_slots + 1 {
        lemma_trace_shape(tr, n, num_slots, width, rank, num_slots);
        if last.len() > 0 {
            assert(combo_shape(tr[num_slots][0], num_slots, n));
            lemma_shape_fits(tr[num_slots][0], num_slots, n);
        }
    }
    assert(last.len() == 0);
    lemma_filter_empty(last, meets_reqs(rank, want));
}

/// Every position is one of `n` modules.
pub open spec fn idx_valid(idx: Seq<usize>, n: int) -> bool {
    forall|t: int| 0 <= t < idx.len() ==> #[trigger] idx[t] < n
}

/// The sum of the combination's vectors in stat `di`.
spec fn idx_sum(dense: Seq<[u8; MAX_STAT_SLOTS]>, idx: Seq<usize>, di: int) -> int
    decreases idx.len(),
{
    if idx.len() == 0 { 0 } else { idx_sum(dense, idx.drop_last(), di) + dense[idx.last() as int]@[di] }
}

/// The combination's capped totals.
spec fn combo_totals(dense: Seq<[u8; MAX_STAT_SLOTS]>, idx: Seq<usize>) -> Seq<u8> {
    Seq::new(MAX_STAT_SLOTS as nat, |di: int| capped(idx_sum(dense, idx, di)))
}

/// The rank the tables give a combination of the module vectors.
spec fn dense_rank(dense: Seq<[u8; MAX_STAT_SLOTS]>, tables: ScoreTables, sc: int) -> spec_fn(Seq<usize>) -> (nat, int) {
    |idx: Seq<usize>| if idx_valid(idx, dense.len() as int) {
        (table_req(tables.req_met@, combo_totals(dense, idx), sc), table_score(tables.score@, combo_totals(dense, idx), sc))
    } else {
        (0nat, 0int)
    }
}

spec fn chosen_at(k: int) -> spec_fn(BeamNode) -> Seq<usize> {
    |n: BeamNode| chosen(n, k)
}

spec fn meets_node(want: nat) -> spec_fn(BeamNode) -> bool {
    |n: BeamNode| n.req_met >= want
}

proof fn lemma_combo_sum_idx(dense: Seq<[u8; MAX_STAT_SLOTS]>, n: BeamNode, k: int, di: int)
    requires
        0 <= k <= 5,
        forall|t: int| 0 <= t < k ==> 0 <= #[trigger] n.mods@[t],
    ensures
        combo_sum(dense, n.mods@, k, di) == idx_sum(dense, chosen(n, k), di),
    decreases k,
{
    if k > 0 {
        lemma_combo_sum_idx(dense, n, k - 1, di);
        assert(chosen(n, k).drop_last() =~= chosen(n, k - 1));
        assert(chosen(n, k).last() as int == n.mods@[k - 1]);
    }
}

proof fn lemma_node_rank(n: BeamNode, d: int, dense: Seq<[u8; MAX_STAT_SLOTS]>, tables: ScoreTables, sc: int)
    requires
        node_ok(n, d, dense),
        node_scored(n, tables, sc),
    ensures
        dense_rank(dense, tables, sc)(chosen(n, d)) == (n.req_met as nat, n.score as int),
{
    assert forall|di: int| 0 <= di < MAX_STAT_SLOTS implies #[trigger] n.totals@[di] == combo_totals(dense, chosen(n, d))[di] by {
        lemma_combo_sum_idx(dense, n, d, di);
    }
    assert(n.totals@ =~= combo_totals(dense, chosen(n, d)));
    assert(idx_valid(chosen(n, d), dense.len() as int));
}

proof fn lemma_children_combos(p: BeamNode, s: Seq<BeamNode>, d: int, dense: Seq<[u8; MAX_STAT_SLOTS]>, tables: ScoreTables, sc: int)
    requires
        0 <= d < 5,
        node_ok(p, d, dense),
        children_ok(p, s, d, dense, tables, sc),
    ensures
        s.map_values(chosen_at(d + 1)) == combo_children(chosen(p, d), dense.len() as int),
{
    let start = start_of(p, d);
    assert(combo_start(chosen(p, d)) == start);
    let cc = combo_children(chosen(p, d), dense.len() as int);
    assert forall|k: int| 0 <= k < s.len() implies #[trigger] s.map_values(chosen_at(d + 1))[k] == cc[k] by {
        assert(child_ok(p, s[k], d, dense, tables, sc));
        assert(chosen(s[k], d + 1) =~= chosen(p, d).push((start + k) as usize));
    }
    assert(s.map_values(chosen_at(d + 1)) =~= cc);
}

proof fn lemma_expansion_combos(beam: Seq<BeamNode>, parts: Seq<Seq<BeamNode>>, d: int, dense: Seq<[u8; MAX_STAT_SLOTS]>, tables: ScoreTables, sc: int)
    requires
        0 <= d < 5,
        parts.len() == beam.len(),
        forall|i: int| 0 <= i < beam.len() ==> node_ok(#[trigger] beam[i], d, dense),
        forall|i: int| 0 <= i < beam.len() ==> children_ok(beam[i], #[trigger] parts[i], d, dense, tables, sc),
    ensures
        concat_all(parts).map_values(chosen_at(d + 1)) == expand_combos(beam.map_values(chosen_at(d)), dense.len() as int),
    decreases beam.len(),
{
    if beam.len() == 0 {
        assert(concat_all(parts).map_values(chosen_at(d + 1)) =~= Seq::<Seq<usize>>::empty());
        assert(beam.map_values(chosen_at(d)) =~= Seq::<Seq<usize>>::empty());
    } else {
        let bl = beam.drop_last();
        let pl = parts.drop_last();
        assert forall|i: int| 0 <= i < bl.len() implies node_ok(#[trigger] bl[i], d, dense) by {
            assert(bl[i] == beam[i]);
        }
        assert forall|i: int| 0 <= i < bl.len() implies children_ok(bl[i], #[trigger] pl[i], d, dense, tables, sc) by {
            assert(bl[i] == beam[i] && pl[i] == parts[i]);
        }
        lemma_expansion_combos(bl, pl, d, dense, tables, sc);
        assert(node_ok(beam[beam.len() - 1], d, dense));
        assert(children_ok(beam[beam.len() - 1], parts[parts.len() - 1], d, dense, tables, sc));
        lemma_children_combos(beam.last(), parts.last(), d, dense, tables, sc);
        assert(beam.map_values(chosen_at(d)).drop_last() =~= bl.map_values(chosen_at(d)));
        assert((concat_all(pl) + parts.last()).map_values(chosen_at(d + 1))
            =~= concat_all(pl).map_values(chosen_at(d + 1)) + parts.last().map_values(chosen_at(d + 1)));
    }
}

/// Part of a sequence whose images are distinct has distinct images too.
proof fn lemma_sub_multiset_map_distinct<A, B>(s: Seq<A>, t: Seq<A>, f: spec_fn(A) -> B)
    requires
        s.map_values(f).no_duplicates(),
        t.to_multiset().subset_of(s.to_multiset()),
    ensures
        t.map_values(f).no_duplicates(),
{
    broadcast use vstd::seq_lib::group_to_multiset_ensures;
    assert(s.no_duplicates()) by {
        assert forall|a: int, b: int| 0 <= a < s.len() && 0 <= b < s.len() && a != b implies s[a] != s[b] by {
            assert(s.map_values(f)[a] == f(s[a]) && s.map_values(f)[b] == f(s[b]));
        }
    }
    s.lemma_multiset_has_no_duplicates();
    assert forall|x: A| t.to_multiset().contains(x) implies t.to_multiset().count(x) == 1 by {
        assert(t.to_multiset().count(x) <= s.to_multiset().count(x));
        assert(s.to_multiset().contains(x));
    }
    t.lemma_multiset_has_no_duplicates_conv();
    let tm = t.map_values(f);
    assert forall|i: int, j: int| 0 <= i < tm.len() && 0 <= j < tm.len() && i != j implies tm[i] != tm[j] by {
        if tm[i] == tm[j] {
            assert(t.contains(t[i]) && t.contains(t[j]));
            assert(t.to_multiset().count(t[i]) > 0 && t.to_multiset().count(t[j]) > 0);
            assert(s.contains(t[i]) && s.contains(t[j]));
            let p = choose|p: int| 0 <= p < s.len() && s[p] == t[i];
            let q = choose|q: int| 0 <= q < s.len() && s[q] == t[j];
            assert(s.map_values(f)[p] == tm[i] && s.map_values(f)[q] == tm[j]);
            assert(t[i] == t[j]);
        }
    }
}

/// The children of a beam of distinct combinations of `d` modules are
/// distinct, each one longer and grown from a combination of the beam.
proof fn lemma_expand_distinct(beam: Seq<Seq<usize>>, n: int, d: int)
    requires
        0 <= n <= usize::MAX,
        0 <= d,
        beam.no_duplicates(),
        forall|i: int| 0 <= i < beam.len() ==> (#[trigger] beam[i]).len() == d,
    ensures
        expand_combos(beam, n).no_duplicates(),
        forall|i: int| 0 <= i < expand_combos(beam, n).len() ==> {
            &&& (#[trigger] expand_combos(beam, n)[i]).len() == d + 1
            &&& beam.contains(expand_combos(beam, n)[i].take(d))
        },
    decreases beam.len(),
{
    if beam.len() > 0 {
        let bl = beam.drop_last();
        assert forall|i: int| 0 <= i < bl.len() implies (#[trigger] bl[i]).len() == d by {
            assert(bl[i] == beam[i]);
        }
        lemma_expand_distinct(bl, n, d);
        let b = beam.last();
        let e = expand_combos(bl, n);
        let kids = combo_children(b, n);
        let st = combo_start(b);
        assert(b.len() == d) by { assert(beam[beam.len() - 1] == b); }
        assert forall|j: int| 0 <= j < kids.len() implies {
            &&& (#[trigger] kids[j]).len() == d + 1
            &&& kids[j].take(d) == b
            &&& kids[j][d] as int == st + j
        } by {
            assert(kids[j] == b.push((st + j) as usize));
            assert(kids[j].take(d) =~= b);
            assert(st >= 0 && st + j < n);
        }
        assert(kids.no_duplicates()) by {
            assert forall|a: int, c: int| 0 <= a < kids.len() && 0 <= c < kids.len() && a != c implies kids[a] != kids[c] by {
                assert(kids[a][d] as int == st + a && kids[c][d] as int == st + c);
            }
        }
        assert forall|a: int, c: int| 0 <= a < e.len() && 0 <= c < kids.len() implies e[a] != kids[c] by {
            assert(bl.contains(e[a].take(d)));
            let q = choose|q: int| 0 <= q < bl.len() && bl[q] == e[a].take(d);
            assert(bl[q] == beam[q]);
            assert(beam[beam.len() - 1] == b);
            if e[a] == kids[c] {
                assert(e[a].take(d) == b);
                assert(q != beam.len() - 1);
            }
        }
        vstd::seq_lib::lemma_no_dup_in_concat(e, kids);
        assert forall|i: int| 0 <= i < expand_combos(beam, n).len() implies {
            &&& (#[trigger] expand_combos(beam, n)[i]).len() == d + 1
            &&& beam.contains(expand_combos(beam, n)[i].take(d))
        } by {
            if i < e.len() {
                assert(expand_combos(beam, n)[i] == e[i]);
                let q = choose|q: int| 0 <= q < bl.len() && bl[q] == e[i].take(d);
                assert(beam[q] == bl[q]);
            } else {
                assert(expand_combos(beam, n)[i] == kids[i - e.len()]);
                assert(beam[beam.len() - 1] == b);
            }
        }
    }
}

/// Filtering keeps a sequence's items distinct.
proof fn lemma_filter_distinct<A>(s: Seq<A>, p: spec_fn(A) -> bool)
    requires
        s.no_duplicates(),
    ensures
        s.filter(p).no_duplicates(),
    decreases s.len(),
{
    if s.len() == 0 {
        lemma_filter_empty(s, p);
    } else {
        let sl = s.drop_last();
        assert(sl.no_duplicates());
        lemma_filter_distinct(sl, p);
        assert(s =~= sl.push(s.last()));
        lemma_filter_push(sl, p, s.last());
        if p(s.last()) {
            let f = sl.filter(p);
            assert forall|i: int| 0 <= i < f.len() implies f[i] != s.last() by {
                assert(f.contains(f[i]));
                sl.lemma_filter_contains_rev(p, f[i]);
                let q = choose|q: int| 0 <= q < sl.len() && sl[q] == f[i];
                assert(s[q] == sl[q]);
            }
        }
    }
}

proof fn lemma_kept_combos(all: Seq<BeamNode>, kept: Seq<BeamNode>, k: int, d: int, rank: spec_fn(Seq<usize>) -> (nat, int))
    requires
        kept.len() == if all.len() <= k { all.len() as int } else { k },
        forall|x: BeamNode| #[trigger] kept.contains(x) ==> all.contains(x),
        forall|x: BeamNode, i: int| all.contains(x) && !kept.contains(x) && 0 <= i < kept.len()
            ==> !#[trigger] better(x, kept[i]),
        forall|i: int| 0 <= i < all.len() ==> rank(chosen(#[trigger] all[i], d)) == (all[i].req_met as nat, all[i].score as int),
        all.map_values(chosen_at(d)).no_duplicates(),
        kept.to_multiset().subset_of(all.to_multiset()),
    ensures
        best_kept(all.map_values(chosen_at(d)), kept.map_values(chosen_at(d)), k, rank),
{
    lemma_sub_multiset_map_distinct(all, kept, chosen_at(d));
    let am = all.map_values(chosen_at(d));
    let km = kept.map_values(chosen_at(d));
    assert forall|i: int| 0 <= i < kept.len() implies rank(chosen(#[trigger] kept[i], d)) == (kept[i].req_met as nat, kept[i].score as int) by {
        assert(kept.contains(kept[i]));
        let j = choose|j: int| 0 <= j < all.len() && all[j] == kept[i];
        assert(rank(chosen(all[j], d)) == (all[j].req_met as nat, all[j].score as int));
    }
    assert forall|x: Seq<usize>| #[trigger] km.contains(x) implies am.contains(x) by {
        let i = choose|i: int| 0 <= i < km.len() && km[i] == x;
        assert(kept.contains(kept[i]));
        let j = choose|j: int| 0 <= j < all.len() && all[j] == kept[i];
        assert(am[j] == x);
    }
    assert forall|x: Seq<usize>, i: int| am.contains(x) && !km.contains(x) && 0 <= i < km.len()
        implies !#[trigger] ranks_above(rank, x, km[i]) by {
        let j = choose|j: int| 0 <= j < am.len() && am[j] == x;
        if kept.contains(all[j]) {
            let i2 = choose|i2: int| 0 <= i2 < kept.len() && kept[i2] == all[j];
            assert(km[i2] == x);
        }
        assert(all.contains(all[j]));
        assert(!better(all[j], kept[i]));
        assert(rank(chosen(all[j], d)) == (all[j].req_met as nat, all[j].score as int));
        assert(rank(chosen(kept[i], d)) == (kept[i].req_met as nat, kept[i].score as int));
    }
}

proof fn lemma_filter_combos(s: Seq<BeamNode>, d: int, rank: spec_fn(Seq<usize>) -> (nat, int), want: nat)
    requires
        forall|i: int| 0 <= i < s.len() ==> rank(chosen(#[trigger] s[i], d)).0 == s[i].req_met,
    ensures
        s.filter(meets_node(want)).map_values(chosen_at(d)) == s.map_values(chosen_at(d)).filter(meets_reqs(rank, want)),
    decreases s.len(),
{
    if s.len() == 0 {
        lemma_filter_empty(s, meets_node(want));
        lemma_filter_empty(s.map_values(chosen_at(d)), meets_reqs(rank, want));
        assert(s.filter(meets_node(want)).map_values(chosen_at(d)) =~= Seq::<Seq<usize>>::empty());
    } else {
        let sl = s.drop_last();
        assert forall|i: int| 0 <= i < sl.len() implies rank(chosen(#[trigger] sl[i], d)).0 == sl[i].req_met by {
            assert(sl[i] == s[i]);
        }
        lemma_filter_combos(sl, d, rank, want);
        assert(s =~= sl.push(s.last()));
        lemma_filter_push(sl, meets_node(want), s.last());
        let ml = sl.map_values(chosen_at(d));
        assert(s.map_values(chosen_at(d)) =~= ml.push(chosen(s.last(), d)));
        lemma_filter_push(ml, meets_reqs(rank, want), chosen(s.last(), d));
        assert(rank(chosen(s[s.len() - 1], d)).0 == s[s.len() - 1].req_met);
        assert(sl.filter(meets_node(want)).push(s.last()).map_values(chosen_at(d))
            =~= sl.filter(meets_node(want)).map_values(chosen_at(d)).push(chosen(s.last(), d)));
    }
}

/// The best ten nodes of the final beam that meet every requirement, or,
/// where none does, the best ten of the final beam: the beams run as
/// `beam_trace` says, with the rank the tables give a combination of the
/// module vectors.
fn beam_search(dense: &Vec<[u8; MAX_STAT_SLOTS]>, num_slots: usize, beam_width: usize, tables: &ScoreTables, sc: usize, num_reqs: usize) -> (r: Vec<BeamNode>)
    requires
        1 <= num_slots <= 5,
        sc <= MAX_STAT_SLOTS,
        dense@.len() < 32768,
        dense_ok(dense@, sc as int),
        tables_ok(*tables, sc as int),
    ensures
        r@.len() <= 10,
        forall|k: int| 0 <= k < r@.len() ==> {
            &&& node_ok(#[trigger] r@[k], num_slots as int, dense@)
            &&& node_scored(r@[k], *tables, sc as int)
        },
        exists|tr: Seq<Seq<Seq<usize>>>| {
            &&& #[trigger] beam_trace(tr, dense@.len() as int, num_slots as int, beam_width as int, dense_rank(dense@, *tables, sc as int))
            &&& best_kept(final_pool(tr.last(), dense_rank(dense@, *tables, sc as int), num_reqs as nat),
                r@.map_values(chosen_at(num_slots as int)), 10, dense_rank(dense@, *tables, sc as int))
        },
{
    let ghost rank = dense_rank(dense@, *tables, sc as int);
    let ghost n = dense@.len() as int;
    let mut beam: Vec<BeamNode> = Vec::new();
    beam.push(BeamNode::empty(sc));
    let ghost mut tr: Seq<Seq<Seq<usize>>> = seq![seq![Seq::<usize>::empty()]];
    assert(beam@.map_values(chosen_at(0)) =~= seq![Seq::<usize>::empty()]) by {
        assert(chosen(beam@[0], 0) =~= Seq::<usize>::empty());
    }
    let mut depth: usize = 0;
    while depth < num_slots
        invariant
            1 <= num_slots <= 5,
            depth <= num_slots,
            sc <= MAX_STAT_SLOTS,
            dense@.len() < 32768,
            dense_ok(dense@, sc as int),
            tables_ok(*tables, sc as int),
            rank == dense_rank(dense@, *tables, sc as int),
            n == dense@.len(),
            forall|i: int| 0 <= i < beam@.len() ==> {
                &&& node_ok(#[trigger] beam@[i], depth as int, dense@)
                &&& (depth > 0 ==> node_scored(beam@[i], *tables, sc as int))
            },
            tr.len() == depth + 1,
            tr[0] == seq![Seq::<usize>::empty()],
            forall|d: int| 0 <= d < depth ==> best_kept(expand_combos(#[trigger] tr[d], n), tr[d + 1], beam_width as int, rank),
            beam@.map_values(chosen_at(depth as int)) == tr.last(),
            tr.last().no_duplicates(),
        decreases num_slots - depth,
    {
        let mut candidates = expand_all(&beam, depth, dense, tables, sc);
        proof {
            assert forall|k: int| 0 <= k < candidates@.len() implies {
                &&& node_ok(#[trigger] candidates@[k], depth + 1, dense@)
                &&& node_scored(candidates@[k], *tables, sc as int)
            } by {
                assert(from_beam(beam@, candidates@[k], depth as int, dense@, *tables, sc as int));
                let i = choose|i: int| 0 <= i < beam@.len()
                    && child_ok(#[trigger] beam@[i], candidates@[k], depth as int, dense@, *tables, sc as int);
                lemma_child_node_ok(beam@[i], candidates@[k], depth as int, dense@, *tables, sc as int);
            }
            let parts = choose|parts: Seq<Seq<BeamNode>>| #[trigger] parts_of(beam@, parts, candidates@, depth as int, dense@, *tables, sc as int);
            lemma_expansion_combos(beam@, parts, depth as int, dense@, *tables, sc as int);
            assert forall|i: int| 0 <= i < tr.last().len() implies (#[trigger] tr.last()[i]).len() == depth by {
                assert(tr.last()[i] == chosen(beam@[i], depth as int));
            }
            lemma_expand_distinct(tr.last(), n, depth as int);
        }
        let ghost c0 = candidates@;
        top_k_inplace(&mut candidates, beam_width);
        proof {
            assert forall|i: int| 0 <= i < candidates@.len() implies {
                &&& node_ok(#[trigger] candidates@[i], depth + 1, dense@)
                &&& node_scored(candidates@[i], *tables, sc as int)
            } by {
                assert(candidates@.contains(candidates@[i]));
                let j = choose|j: int| 0 <= j < c0.len() && c0[j] == candidates@[i];
            }
            assert forall|i: int| 0 <= i < c0.len() implies rank(chosen(#[trigger] c0[i], depth + 1)) == (c0[i].req_met as nat, c0[i].score as int) by {
                lemma_node_rank(c0[i], depth + 1, dense@, *tables, sc as int);
            }
            lemma_kept_combos(c0, candidates@, beam_width as int, depth + 1, rank);
            let old_tr = tr;
            tr = tr.push(candidates@.map_values(chosen_at(depth + 1)));
            assert forall|d: int| 0 <= d < depth + 1 implies best_kept(expand_combos(#[trigger] tr[d], n), tr[d + 1], beam_width as int, rank) by {
                if d < depth {
                    assert(tr[d] == old_tr[d] && tr[d + 1] == old_tr[d + 1]);
                } else {
                    assert(tr[d] == old_tr.last());
                }
            }
        }
        beam = candidates;
        if beam.len() == 0 {
            proof {
                let e = Seq::<BeamNode>::empty();
                assert(e.map_values(chosen_at(num_slots as int)) =~= Seq::<Seq<usize>>::empty());
                assert(tr.last() =~= Seq::<Seq<usize>>::empty());
                lemma_filter_empty(tr.last(), meets_reqs(rank, num_reqs as nat));
                assert(final_pool(tr.last(), rank, num_reqs as nat) =~= Seq::<Seq<usize>>::empty());
                assert(beam_trace(tr, n, num_slots as int, beam_width as int, rank));
            }
            return Vec::new();
        }
        depth = depth + 1;
    }
    let mut meets: Vec<BeamNode> = Vec::new();
    let mut i: usize = 0;
    proof { lemma_filter_empty(beam@.take(0), meets_node(num_reqs as nat)); }
    while i < beam.len()
        invariant
            i <= beam@.len(),
            forall|q: int| 0 <= q < beam@.len() ==> {
                &&& node_ok(#[trigger] beam@[q], num_slots as int, dense@)
                &&& node_scored(beam@[q], *tables, sc as int)
            },
            forall|q: int| 0 <= q < meets@.len() ==> {
                &&& node_ok(#[trigger] meets@[q], num_slots as int, dense@)
                &&& node_scored(meets@[q], *tables, sc as int)
                &&& meets@[q].req_met >= num_reqs
            },
            meets@ == beam@.take(i as int).filter(meets_node(num_reqs as nat)),
        decreases beam@.len() - i,
    {
        let n = beam[i];
        proof {
            assert(beam@.take(i + 1) =~= beam@.take(i as int).push(beam@[i as int]));
            lemma_filter_push(beam@.take(i as int), meets_node(num_reqs as nat), beam@[i as int]);
        }
        if n.req_met as usize >= num_reqs {
            meets.push(n);
        }
        i = i + 1;
    }
    proof {
        assert(beam@.take(beam@.len() as int) =~= beam@);
        assert forall|q: int| 0 <= q < beam@.len() implies rank(chosen(#[trigger] beam@[q], num_slots as int)).0 == beam@[q].req_met by {
            lemma_node_rank(beam@[q], num_slots as int, dense@, *tables, sc as int);
        }
        lemma_filter_combos(beam@, num_slots as int, rank, num_reqs as nat);
        lemma_filter_distinct(tr.last(), meets_reqs(rank, num_reqs as nat));
        assert(meets@.map_values(chosen_at(num_slots as int)).len() == meets@.len());
    }
    if meets.len() == 0 {
        meets = beam;
    }
    proof {
        assert(meets@.map_values(chosen_at(num_slots as int)) == final_pool(tr.last(), rank, num_reqs as nat));
    }
    let ghost m0 = meets@;
    top_k_inplace(&mut meets, 10);
    proof {
        assert forall|q: int| 0 <= q < meets@.len() implies {
            &&& node_ok(#[trigger] meets@[q], num_slots as int, dense@)
            &&& node_scored(meets@[q], *tables, sc as int)
        } by {
            assert(meets@.contains(meets@[q]));
            let j = choose|j: int| 0 <= j < m0.len() && m0[j] == meets@[q];
        }
        assert forall|q: int| 0 <= q < m0.len() implies rank(chosen(#[trigger] m0[q], num_slots as int)) == (m0[q].req_met as nat, m0[q].score as int) by {
            lemma_node_rank(m0[q], num_slots as int, dense@, *tables, sc as int);
        }
        lemma_kept_combos(m0, meets@, 10, num_slots as int, rank);
        assert(beam_trace(tr, n, num_slots as int, beam_width as int, rank));
    }
    meets
}

// ───────────────────────────── results ─────────────────────────────

/// The sum of the chosen modules' levels in stat `id`.
pub open spec fn module_level_sum(ms: Seq<PlayerModule>, idx: Seq<usize>, id: i32) -> int
    decreases idx.len(),
{
    if idx.len() == 0 { 0 } else { module_level_sum(ms, idx.drop_last(), id) + module_stat(ms[idx.last() as int], id) }
}

/// A combination's total in stat `id`, capped at `MAX_STAT_VALUE`.
pub open spec fn combo_total(ms: Seq<PlayerModule>, idx: Seq<usize>, id: i32) -> u8 {
    capped(module_level_sum(ms, idx, id))
}

/// How many stats are scored: the distinct effect ids, at most `MAX_STAT_SLOTS`.
pub open spec fn stat_count_of(ms: Seq<PlayerModule>) -> int {
    let n = effect_ids(ms).len();
    if n > MAX_STAT_SLOTS { MAX_STAT_SLOTS as int } else { n as int }
}

/// A combination's score: the sum over the first `k` stats of their cells at its totals.
pub open spec fn combo_score(nps: Seq<NormPrio>, va: bool, ms: Seq<PlayerModule>, idx: Seq<usize>, ids: Seq<i32>, k: int) -> int
    decreases k,
{
    if k <= 0 {
        0
    } else {
        combo_score(nps, va, ms, idx, ids, k - 1) + cell_score(nps, va, k - 1, combo_total(ms, idx, ids[k - 1]))
    }
}

/// How many of the first `k` stats meet their requirement cell.
pub open spec fn combo_reqs(nps: Seq<NormPrio>, ms: Seq<PlayerModule>, idx: Seq<usize>, ids: Seq<i32>, k: int) -> nat
    decreases k,
{
    if k <= 0 {
        0
    } else {
        combo_reqs(nps, ms, idx, ids, k - 1) + if cell_req(nps, k - 1, combo_total(ms, idx, ids[k - 1])) { 1nat } else { 0 }
    }
}

/// How many priorities require a level.
pub open spec fn reqs_wanted(nps: Seq<NormPrio>) -> nat
    decreases nps.len(),
{
    if nps.len() == 0 { 0 } else { reqs_wanted(nps.drop_last()) + if nps.last().req_level > 0 { 1nat } else { 0 } }
}

/// The first `k` stats with a non-zero total, with their totals.
pub open spec fn listed_stats(ms: Seq<PlayerModule>, idx: Seq<usize>, ids: Seq<i32>, k: int) -> Seq<(i32, u8)>
    decreases k,
{
    if k <= 0 {
        Seq::empty()
    } else {
        let prev = listed_stats(ms, idx, ids, k - 1);
        let t = combo_total(ms, idx, ids[k - 1]);
        if t > 0 { prev.push((ids[k - 1], t)) } else { prev }
    }
}

/// A proposed combination is sound: `num_slots` distinct modules in
/// ascending order; each priority's and each non-zero stat's total as the
/// modules give them; and the score the tables give those totals.
pub open spec fn result_ok(ms: Seq<PlayerModule>, prios: Seq<StatPriority>, value_all: bool, num_slots: int, r: ModComboResult) -> bool {
    let ids = effect_ids(ms);
    let sc = stat_count_of(ms);
    let nps = norm_prios(prios, ids, sc, prios.len() as int);
    let idx = r.module_indices@;
    &&& idx.len() == num_slots
    &&& forall|a: int, b: int| 0 <= a < b < idx.len() ==> #[trigger] idx[a] < #[trigger] idx[b]
    &&& forall|a: int| 0 <= a < idx.len() ==> #[trigger] idx[a] < ms.len()
    &&& r.priority_stats@ == nps.map_values(|np: NormPrio| (ids[np.dense_idx as int], combo_total(ms, idx, ids[np.dense_idx as int])))
    &&& r.all_stats@ == listed_stats(ms, idx, ids, sc)
    &&& r.score == combo_score(nps, value_all, ms, idx, ids, sc)
}

/// How a combination of `ms` ranks under the priorities: how many stats meet
/// their requirement cell, and its score (nothing for positions out of range).
pub open spec fn combo_rank(ms: Seq<PlayerModule>, prios: Seq<StatPriority>, value_all: bool) -> spec_fn(Seq<usize>) -> (nat, int) {
    let ids = effect_ids(ms);
    let sc = stat_count_of(ms);
    let nps = norm_prios(prios, ids, sc, prios.len() as int);
    |idx: Seq<usize>| if idx_valid(idx, ms.len() as int) {
        (combo_reqs(nps, ms, idx, ids, sc), combo_score(nps, value_all, ms, idx, ids, sc))
    } else {
        (0nat, 0int)
    }
}

/// How many modules a combination holds: the number asked for, at most five.
pub open spec fn slot_count(num_modules: int) -> int {
    if num_modules < 5 { num_modules } else { 5 }
}

/// How many of the priorities require a level.
pub open spec fn wanted_reqs(ms: Seq<PlayerModule>, prios: Seq<StatPriority>) -> nat {
    reqs_wanted(norm_prios(prios, effect_ids(ms), stat_count_of(ms), prios.len() as int))
}

proof fn lemma_idx_sum_modules(dense: Seq<[u8; MAX_STAT_SLOTS]>, ms: Seq<PlayerModule>, ids: Seq<i32>, sc: int, idx: Seq<usize>, di: int)
    requires
        0 <= di < sc,
        sc <= MAX_STAT_SLOTS,
        dense.len() == ms.len(),
        forall|c: int| 0 <= c < dense.len() ==> stat_vector_ok(#[trigger] dense[c]@, ms[c], ids, sc),
        idx_valid(idx, dense.len() as int),
    ensures
        idx_sum(dense, idx, di) == module_level_sum(ms, idx, ids[di]),
    decreases idx.len(),
{
    if idx.len() > 0 {
        let il = idx.drop_last();
        assert forall|t: int| 0 <= t < il.len() implies #[trigger] il[t] < dense.len() by {
            assert(il[t] == idx[t]);
        }
        lemma_idx_sum_modules(dense, ms, ids, sc, il, di);
        assert(idx[idx.len() - 1] < dense.len());
        let c = idx.last() as int;
        assert(stat_vector_ok(dense[c]@, ms[c], ids, sc));
        assert(dense[c]@[di] == module_stat(ms[c], ids[di]));
    }
}

/// The chosen positions of a node with `n` modules.
spec fn chosen(n: BeamNode, k: int) -> Seq<usize> {
    Seq::new(k as nat, |t: int| n.mods@[t] as usize)
}

proof fn lemma_combo_sum_modules(dense: Seq<[u8; MAX_STAT_SLOTS]>, ms: Seq<PlayerModule>, ids: Seq<i32>, sc: int, n: BeamNode, k: int, di: int)
    requires
        0 <= k <= 5,
        0 <= di < sc,
        sc <= MAX_STAT_SLOTS,
        dense.len() == ms.len(),
        forall|c: int| 0 <= c < dense.len() ==> stat_vector_ok(#[trigger] dense[c]@, ms[c], ids, sc),
        forall|t: int| 0 <= t < k ==> 0 <= #[trigger] n.mods@[t] < dense.len(),
    ensures
        combo_sum(dense, n.mods@, k, di) == module_level_sum(ms, chosen(n, k), ids[di]),
    decreases k,
{
    if k > 0 {
        lemma_combo_sum_modules(dense, ms, ids, sc, n, k - 1, di);
        assert(chosen(n, k).drop_last() =~= chosen(n, k - 1));
        let c = n.mods@[k - 1] as int;
        assert(stat_vector_ok(dense[c]@, ms[c], ids, sc));
        assert(dense[c]@[di] == module_stat(ms[c], ids[di]));
    }
}

proof fn lemma_table_sums(tables: ScoreTables, nps: Seq<NormPrio>, va: bool, sc: int, totals: Seq<u8>,
    ms: Seq<PlayerModule>, idx: Seq<usize>, ids: Seq<i32>, k: int)
    requires
        0 <= k <= sc,
        tables.wf(nps, va, sc),
        totals.len() == MAX_STAT_SLOTS,
        sc <= MAX_STAT_SLOTS,
        forall|di: int| 0 <= di < sc ==> #[trigger] totals[di] == combo_total(ms, idx, ids[di]),
    ensures
        table_score(tables.score@, totals, k) == combo_score(nps, va, ms, idx, ids, k),
        table_req(tables.req_met@, totals, k) == combo_reqs(nps, ms, idx, ids, k),
    decreases k,
{
    if k > 0 {
        lemma_table_sums(tables, nps, va, sc, totals, ms, idx, ids, k - 1);
        let di = k - 1;
        assert(totals[di] == combo_total(ms, idx, ids[di]));
        assert(totals[di] <= 20);
        assert(tables.score@[di * 21 + totals[di]] == cell_score(nps, va, di, totals[di]));
    }
}

fn to_result(node: &BeamNode, num_slots: usize, nps: &Vec<NormPrio>, ids: &Vec<i32>, sc: usize) -> (r: ModComboResult)
    requires
        1 <= num_slots <= 5,
        sc <= ids@.len(),
        sc <= MAX_STAT_SLOTS,
        prios_ok(nps@, sc as int),
        forall|t: int| 0 <= t < num_slots ==> 0 <= #[trigger] node.mods@[t],
        forall|t: int| num_slots <= t < 5 ==> #[trigger] node.mods@[t] == -1,
        forall|di: int| 0 <= di < MAX_STAT_SLOTS ==> #[trigger] node.totals@[di] <= 20,
    ensures
        r.module_indices@ == chosen(*node, num_slots as int),
        r.priority_stats@ == nps@.map_values(|np: NormPrio| (ids@[np.dense_idx as int], node.totals@[np.dense_idx as int])),
        r.all_stats@ == node_listed(node.totals@, ids@, sc as int),
        r.score == node.score,
{
    let mut priority_stats: Vec<(i32, u8)> = Vec::new();
    let mut k: usize = 0;
    while k < nps.len()
        invariant
            k <= nps@.len(),
            sc <= ids@.len(),
            sc <= MAX_STAT_SLOTS,
            prios_ok(nps@, sc as int),
            forall|di: int| 0 <= di < MAX_STAT_SLOTS ==> #[trigger] node.totals@[di] <= 20,
            priority_stats@ == nps@.take(k as int).map_values(|np: NormPrio| (ids@[np.dense_idx as int], node.totals@[np.dense_idx as int])),
        decreases nps@.len() - k,
    {
        let np = nps[k];
        assert(np.dense_idx < sc);
        let v = node.totals[np.dense_idx];
        let capped_v = if v < MAX_STAT_VALUE { v } else { MAX_STAT_VALUE };
        priority_stats.push((ids[np.dense_idx], capped_v));
        assert(nps@.take(k + 1) =~= nps@.take(k as int).push(np));
        assert(priority_stats@ =~= nps@.take(k + 1).map_values(|np: NormPrio| (ids@[np.dense_idx as int], node.totals@[np.dense_idx as int])));
        k = k + 1;
    }
    assert(nps@.take(nps@.len() as int) =~= nps@);
    let mut all_stats: Vec<(i32, u8)> = Vec::new();
    let mut di: usize = 0;
    while di < sc
        invariant
            di <= sc,
            sc <= ids@.len(),
            sc <= MAX_STAT_SLOTS,
            forall|d: int| 0 <= d < MAX_STAT_SLOTS ==> #[trigger] node.totals@[d] <= 20,
            all_stats@ == node_listed(node.totals@, ids@, di as int),
        decreases sc - di,
    {
        let v = node.totals[di];
        if v > 0 {
            let capped_v = if v < MAX_STAT_VALUE { v } else { MAX_STAT_VALUE };
            all_stats.push((ids[di], capped_v));
        }
        di = di + 1;
    }
    let mut module_indices: Vec<usize> = Vec::new();
    let mut t: usize = 0;
    while t < 5
        invariant
            t <= 5,
            1 <= num_slots <= 5,
            forall|u: int| 0 <= u < num_slots ==> 0 <= #[trigger] node.mods@[u],
            forall|u: int| num_slots <= u < 5 ==> #[trigger] node.mods@[u] == -1,
            module_indices@ == chosen(*node, if t < num_slots { t as int } else { num_slots as int }),
        decreases 5 - t,
    {
        let m = node.mods[t];
        if m >= 0 {
            module_indices.push(m as usize);
            assert(module_indices@ =~= chosen(*node, t + 1));
        }
        t = t + 1;
    }
    ModComboResult { module_indices, priority_stats, all_stats, score: node.score }
}

/// The stats among the first `k` with non-zero totals.
spec fn node_listed(totals: Seq<u8>, ids: Seq<i32>, k: int) -> Seq<(i32, u8)>
    decreases k,
{
    if k <= 0 {
        Seq::empty()
    } else {
        let prev = node_listed(totals, ids, k - 1);
        if totals[k - 1] > 0 { prev.push((ids[k - 1], totals[k - 1])) } else { prev }
    }
}

proof fn lemma_listed(totals: Seq<u8>, ms: Seq<PlayerModule>, idx: Seq<usize>, ids: Seq<i32>, k: int, sc: int)
    requires
        0 <= k <= sc,
        forall|di: int| 0 <= di < sc ==> #[trigger] totals[di] == combo_total(ms, idx, ids[di]),
    ensures
        node_listed(totals, ids, k) == listed_stats(ms, idx, ids, k),
    decreases k,
{
    if k > 0 {
        lemma_listed(totals, ms, idx, ids, k - 1, sc);
        assert(totals[k - 1] == combo_total(ms, idx, ids[k - 1]));
    }
}

proof fn lemma_reqs_wanted_count(nps: Seq<NormPrio>)
    ensures
        reqs_wanted(nps) <= nps.len(),
    decreases nps.len(),
{
    if nps.len() > 0 {
        lemma_reqs_wanted_count(nps.drop_last());
    }
}

/// Proposes up to ten distinct combinations of `min(num_modules, 5)` modules (see
/// `result_ok`): the best of the final beam that meet every required level,
/// or, where none does, the best of the final beam anyway, so either all of
/// them meet every required level or none does. Nothing is proposed without
/// modules, without slots or without any stat effect.
pub fn optimize(modules: &[PlayerModule], config: &SolverConfig) -> (r: Vec<ModComboResult>)
    requires
        modules@.len() < 32768,
        config.priorities@.len() <= MAX_PRIORITIES,
    ensures
        (modules@.len() == 0 || config.num_modules == 0 || effect_ids(modules@).len() == 0) ==> r@.len() == 0,
        r@.len() <= 10,
        forall|k: int| 0 <= k < r@.len() ==> result_ok(
            modules@,
            config.priorities@,
            config.value_all_stats,
            if config.num_modules < 5 { config.num_modules as int } else { 5 },
            #[trigger] r@[k],
        ),
        !(modules@.len() == 0 || config.num_modules == 0 || effect_ids(modules@).len() == 0) ==> exists|tr: Seq<Seq<Seq<usize>>>| {
            &&& #[trigger] beam_trace(tr, modules@.len() as int, slot_count(config.num_modules as int),
                config.beam_width as int, combo_rank(modules@, config.priorities@, config.value_all_stats))
            &&& best_kept(final_pool(tr.last(), combo_rank(modules@, config.priorities@, config.value_all_stats), wanted_reqs(modules@, config.priorities@)),
                r@.map_values(|x: ModComboResult| x.module_indices@), 10, combo_rank(modules@, config.priorities@, config.value_all_stats))
        },
        forall|j: int, k: int| 0 <= j < k < r@.len() ==> #[trigger] r@[j].module_indices@ != #[trigger] r@[k].module_indices@,
        forall|j: int, k: int| 0 <= j < r@.len() && 0 <= k < r@.len()
            && #[trigger] meets_reqs(combo_rank(modules@, config.priorities@, config.value_all_stats), wanted_reqs(modules@, config.priorities@))(r@[j].module_indices@)
            ==> #[trigger] meets_reqs(combo_rank(modules@, config.priorities@, config.value_all_stats), wanted_reqs(modules@, config.priorities@))(r@[k].module_indices@),
{
    if modules.len() == 0 || config.num_modules == 0 {
        return Vec::new();
    }
    let num_slots = if config.num_modules < 5 { config.num_modules } else { 5 };
    let id_list = collect_effect_ids(modules);
    let stat_count = if id_list.len() < MAX_STAT_SLOTS { id_list.len() } else { MAX_STAT_SLOTS };
    if stat_count == 0 {
        return Vec::new();
    }
    let ghost ids = id_list@;
    let ghost sc = stat_count as int;

    let mut dense: Vec<[u8; MAX_STAT_SLOTS]> = Vec::new();
    let mut i: usize = 0;
    while i < modules.len()
        invariant
            i <= modules@.len(),
            stat_count <= id_list@.len(),
            stat_count <= MAX_STAT_SLOTS,
            strictly_sorted(id_list@),
            dense@.len() == i,
            forall|c: int| 0 <= c < i ==> stat_vector_ok(#[trigger] dense@[c]@, modules@[c], id_list@, stat_count as int),
        decreases modules@.len() - i,
    {
        dense.push(stat_vector(&modules[i], &id_list, stat_count));
        i = i + 1;
    }
    assert(dense_ok(dense@, sc)) by {
        assert forall|c: int, di: int| 0 <= c < dense@.len() && sc <= di < MAX_STAT_SLOTS implies #[trigger] dense@[c]@[di] == 0 by {
            assert(stat_vector_ok(dense@[c]@, modules@[c], ids, sc));
        }
    }
    let norm = build_norm_prios(&config.priorities, &id_list, stat_count);
    let tables = build_tables(&norm, config.value_all_stats, stat_count);
    assert(tables_ok(tables, sc)) by {
        assert forall|q: int| 0 <= q < sc * 21 implies 0 <= #[trigger] tables.score@[q] <= CELL_MAX by {
            let di = q / 21;
            let v = q % 21;
            assert(q == di * 21 + v);
            assert(0 <= di < sc);
        }
    }
    let mut num_reqs: usize = 0;
    let mut q: usize = 0;
    while q < norm.len()
        invariant
            q <= norm@.len(),
            num_reqs == reqs_wanted(norm@.take(q as int)),
            num_reqs <= q,
        decreases norm@.len() - q,
    {
        assert(norm@.take(q + 1).drop_last() =~= norm@.take(q as int));
        if norm[q].req_level > 0 {
            num_reqs = num_reqs + 1;
        }
        q = q + 1;
    }
    assert(norm@.take(norm@.len() as int) =~= norm@);
    let raw = beam_search(&dense, num_slots, config.beam_width, &tables, stat_count, num_reqs);
    let mut results: Vec<ModComboResult> = Vec::new();
    let mut k: usize = 0;
    while k < raw.len()
        invariant
            k <= raw@.len(),
            raw@.len() <= 10,
            results@.len() == k,
            1 <= num_slots <= 5,
            num_slots == (if config.num_modules < 5 { config.num_modules } else { 5 }),
            ids == id_list@,
            ids == effect_ids(modules@),
            sc == stat_count,
            stat_count == stat_count_of(modules@),
            stat_count <= MAX_STAT_SLOTS,
            stat_count <= ids.len(),
            norm@ == norm_prios(config.priorities@, ids, sc, config.priorities@.len() as int),
            prios_ok(norm@, sc),
            tables.wf(norm@, config.value_all_stats, sc),
            num_reqs == reqs_wanted(norm@),
            dense@.len() == modules@.len(),
            forall|c: int| 0 <= c < dense@.len() ==> stat_vector_ok(#[trigger] dense@[c]@, modules@[c], ids, sc),
            forall|j: int| 0 <= j < raw@.len() ==> {
                &&& node_ok(#[trigger] raw@[j], num_slots as int, dense@)
                &&& node_scored(raw@[j], tables, sc)
            },
            forall|j: int| 0 <= j < k ==> result_ok(modules@, config.priorities@, config.value_all_stats, num_slots as int, #[trigger] results@[j]),
            forall|j: int| 0 <= j < k ==> (#[trigger] results@[j]).module_indices@ == chosen(raw@[j], num_slots as int),
        decreases raw@.len() - k,
    {
        let node = &raw[k];
        proof {
            assert(node_ok(*node, num_slots as int, dense@));
        }
        let res = to_result(node, num_slots, &norm, &id_list, stat_count);
        proof {
            let idx = chosen(*node, num_slots as int);
            assert forall|di: int| 0 <= di < sc implies #[trigger] node.totals@[di] == combo_total(modules@, idx, ids[di]) by {
                lemma_combo_sum_modules(dense@, modules@, ids, sc, *node, num_slots as int, di);
            }
            lemma_table_sums(tables, norm@, config.value_all_stats, sc, node.totals@, modules@, idx, ids, sc);
            lemma_listed(node.totals@, modules@, idx, ids, sc, sc);
            assert(res.priority_stats@ =~= norm@.map_values(|np: NormPrio| (ids[np.dense_idx as int], combo_total(modules@, idx, ids[np.dense_idx as int]))));
            assert forall|a: int, b: int| 0 <= a < b < idx.len() implies #[trigger] idx[a] < #[trigger] idx[b] by {
                assert(node.mods@[a] < node.mods@[b]);
            }
        }
        results.push(res);
        k = k + 1;
    }
    proof {
        let rank_d = dense_rank(dense@, tables, sc);
        let rank_c = combo_rank(modules@, config.priorities@, config.value_all_stats);
        assert forall|idx: Seq<usize>| #[trigger] rank_d(idx) == rank_c(idx) by {
            if idx_valid(idx, dense@.len() as int) {
                assert forall|di: int| 0 <= di < sc implies #[trigger] combo_totals(dense@, idx)[di] == combo_total(modules@, idx, ids[di]) by {
                    lemma_idx_sum_modules(dense@, modules@, ids, sc, idx, di);
                }
                lemma_table_sums(tables, norm@, config.value_all_stats, sc, combo_totals(dense@, idx), modules@, idx, ids, sc);
            }
        }
        assert(rank_d =~= rank_c);
        assert(results@.map_values(|x: ModComboResult| x.module_indices@) =~= raw@.map_values(chosen_at(num_slots as int)));
        let tr = choose|tr: Seq<Seq<Seq<usize>>>| {
            &&& #[trigger] beam_trace(tr, dense@.len() as int, num_slots as int, config.beam_width as int, rank_d)
            &&& best_kept(final_pool(tr.last(), rank_d, num_reqs as nat),
                raw@.map_values(chosen_at(num_slots as int)), 10, rank_d)
        };
        assert(num_reqs as nat == wanted_reqs(modules@, config.priorities@));
        assert(beam_trace(tr, dense@.len() as int, num_slots as int, config.beam_width as int, rank_d));
        assert(beam_trace(tr, modules@.len() as int, num_slots as int, config.beam_width as int, rank_c));
        assert(slot_count(config.num_modules as int) == num_slots);
        let want = wanted_reqs(modules@, config.priorities@);
        assert(meets_reqs(rank_d, num_reqs as nat) == meets_reqs(rank_c, want));
        let rm = results@.map_values(|x: ModComboResult| x.module_indices@);
        let pool = final_pool(tr.last(), rank_c, want);
        assert(best_kept(pool, rm, 10, rank_c));
        assert forall|j: int, k: int| 0 <= j < k < results@.len() implies #[trigger] results@[j].module_indices@ != #[trigger] results@[k].module_indices@ by {
            assert(rm[j] == results@[j].module_indices@ && rm[k] == results@[k].module_indices@);
        }
        let f = tr.last().filter(meets_reqs(rank_c, want));
        broadcast use vstd::seq_lib::group_filter_ensures;
        assert forall|j: int, k: int| 0 <= j < results@.len() && 0 <= k < results@.len()
            && #[trigger] meets_reqs(rank_c, want)(results@[j].module_indices@)
            implies #[trigger] meets_reqs(rank_c, want)(results@[k].module_indices@) by {
            assert(rm[j] == results@[j].module_indices@ && rm[k] == results@[k].module_indices@);
            assert(rm.contains(rm[j]) && rm.contains(rm[k]));
            if f.len() > 0 {
                assert(pool == f);
                assert(pool.contains(rm[k]));
                let q = choose|q: int| 0 <= q < f.len() && f[q] == rm[k];
                assert(meets_reqs(rank_c, want)(f[q]));
            } else {
                assert(pool == tr.last());
                assert(pool.contains(rm[j]));
                let q = choose|q: int| 0 <= q < tr.last().len() && tr.last()[q] == rm[j];
                assert(f.contains(tr.last()[q]));
            }
        }
    }
    results
}

} // verus!
