//! Per-entity combat counters: damage dealt, damage taken, healing, and the
//! per-skill breakdown of damage.

use vstd::prelude::*;
use indexmap::IndexMap;
use crate::event::{CombatEvent, EntityId};

verus! {

#[verifier::external_type_specification]
#[verifier::external_body]
#[verifier::reject_recursive_types(K)]
#[verifier::reject_recursive_types(V)]
#[verifier::reject_recursive_types(S)]
pub struct ExIndexMap<K, V, S>(IndexMap<K, V, S>);

/// Counters for one category of hits (dealt, taken or healed).
#[derive(Clone, Copy, PartialEq, Eq, Debug, Structural)]
pub struct CombatStats {
    pub total: u64,
    pub hits: u64,
    pub crit_hits: u64,
    pub lucky_hits: u64,
    pub crit_lucky_hits: u64,
    pub crit_total: u64,
    pub lucky_total: u64,
    pub crit_lucky_total: u64,
    pub max_hit: u64,
}

impl CombatStats {
    pub open spec fn zero() -> CombatStats {
        CombatStats {
            total: 0, hits: 0, crit_hits: 0, lucky_hits: 0, crit_lucky_hits: 0,
            crit_total: 0, lucky_total: 0, crit_lucky_total: 0, max_hit: 0,
        }
    }

    /// The partial counts never exceed the totals they are part of.
    pub open spec fn wf(&self) -> bool {
        &&& self.crit_hits + self.lucky_hits + self.crit_lucky_hits <= self.hits
        &&& self.crit_total + self.lucky_total + self.crit_lucky_total <= self.total
        &&& self.max_hit <= self.total
    }

    /// Whether one more hit of `amount` can be counted.
    pub open spec fn has_room(&self, amount: u64) -> bool {
        self.total + amount <= u64::MAX && self.hits < u64::MAX
    }

    /// The counters after one more hit: the total and hit count grow, and so
    /// do the count and total of its kind (crit, lucky, both); the largest
    /// hit is kept.
    pub open spec fn applied(self, amount: u64, is_crit: bool, is_lucky: bool) -> CombatStats {
        let s = CombatStats {
            total: (self.total + amount) as u64,
            hits: (self.hits + 1) as u64,
            max_hit: if amount > self.max_hit { amount } else { self.max_hit },
            ..self
        };
        if is_crit && is_lucky {
            CombatStats {
                crit_lucky_hits: (self.crit_lucky_hits + 1) as u64,
                crit_lucky_total: (self.crit_lucky_total + amount) as u64,
                ..s
            }
        } else if is_crit {
            CombatStats { crit_hits: (self.crit_hits + 1) as u64, crit_total: (self.crit_total + amount) as u64, ..s }
        } else if is_lucky {
            CombatStats { lucky_hits: (self.lucky_hits + 1) as u64, lucky_total: (self.lucky_total + amount) as u64, ..s }
        } else {
            s
        }
    }

    pub fn new() -> (r: CombatStats)
        ensures
            r == CombatStats::zero(),
            r.wf(),
    {
        CombatStats {
            total: 0, hits: 0, crit_hits: 0, lucky_hits: 0, crit_lucky_hits: 0,
            crit_total: 0, lucky_total: 0, crit_lucky_total: 0, max_hit: 0,
        }
    }

    /// Counts one hit.
    pub fn apply(&mut self, amount: u64, is_crit: bool, is_lucky: bool)
        requires
            old(self).wf(),
            old(self).has_room(amount),
        ensures
            final(self).wf(),
            *final(self) == old(self).applied(amount, is_crit, is_lucky),
    {
        self.total = self.total + amount;
        self.hits = self.hits + 1;
        if is_crit && is_lucky {
            self.crit_lucky_hits = self.crit_lucky_hits + 1;
            self.crit_lucky_total = self.crit_lucky_total + amount;
        } else if is_crit {
            self.crit_hits = self.crit_hits + 1;
            self.crit_total = self.crit_total + amount;
        } else if is_lucky {
            self.lucky_hits = self.lucky_hits + 1;
            self.lucky_total = self.lucky_total + amount;
        }
        if amount > self.max_hit {
            self.max_hit = amount;
        }
    }
}

/// The counters after the hits `(amount, is_crit, is_lucky)`, in order.
pub open spec fn applied_all(s: CombatStats, hits: Seq<(u64, bool, bool)>) -> CombatStats
    decreases hits.len(),
{
    if hits.len() == 0 { s } else { applied_all(s, hits.drop_last()).applied(hits.last().0, hits.last().1, hits.last().2) }
}

/// The sum of the hits' amounts.
pub open spec fn amount_sum(hits: Seq<(u64, bool, bool)>) -> int
    decreases hits.len(),
{
    if hits.len() == 0 { 0 } else { amount_sum(hits.drop_last()) + hits.last().0 }
}

/// Two hits counted in either order give the same counters.
pub proof fn lemma_two_hits_commute(s: CombatStats, a: (u64, bool, bool), b: (u64, bool, bool))
    requires
        s.wf(),
        s.total + a.0 + b.0 <= u64::MAX,
        s.hits + 2 <= u64::MAX,
    ensures
        s.applied(a.0, a.1, a.2).applied(b.0, b.1, b.2) == s.applied(b.0, b.1, b.2).applied(a.0, a.1, a.2),
{
}

proof fn lemma_applied_all_split(s: CombatStats, a: Seq<(u64, bool, bool)>, b: Seq<(u64, bool, bool)>)
    ensures
        applied_all(s, a + b) == applied_all(applied_all(s, a), b),
    decreases b.len(),
{
    if b.len() == 0 {
        assert(a + b =~= a);
    } else {
        lemma_applied_all_split(s, a, b.drop_last());
        assert((a + b).drop_last() =~= a + b.drop_last());
    }
}

proof fn lemma_applied_all_grows(s: CombatStats, hits: Seq<(u64, bool, bool)>)
    requires
        s.wf(),
        s.total + amount_sum(hits) <= u64::MAX,
        s.hits + hits.len() <= u64::MAX,
    ensures
        applied_all(s, hits).wf(),
        applied_all(s, hits).total == s.total + amount_sum(hits),
        applied_all(s, hits).hits == s.hits + hits.len(),
    decreases hits.len(),
{
    if hits.len() > 0 {
        lemma_applied_all_grows(s, hits.drop_last());
    }
}

proof fn lemma_amount_sum_nonneg(a: Seq<(u64, bool, bool)>)
    ensures
        amount_sum(a) >= 0,
    decreases a.len(),
{
    if a.len() > 0 {
        lemma_amount_sum_nonneg(a.drop_last());
    }
}

proof fn lemma_amount_sum_split(a: Seq<(u64, bool, bool)>, b: Seq<(u64, bool, bool)>)
    ensures
        amount_sum(a + b) == amount_sum(a) + amount_sum(b),
    decreases b.len(),
{
    if b.len() == 0 {
        assert(a + b =~= a);
    } else {
        lemma_amount_sum_split(a, b.drop_last());
        assert((a + b).drop_last() =~= a + b.drop_last());
    }
}

/// Counting hits does not depend on their order: swapping two neighbouring
/// hits (and so, step by step, any reordering) gives the same counters,
/// wherever the totals do not overflow.
pub proof fn lemma_hit_order_free(s: CombatStats, hits: Seq<(u64, bool, bool)>, i: int)
    requires
        s.wf(),
        0 <= i,
        i + 1 < hits.len(),
        s.total + amount_sum(hits) <= u64::MAX,
        s.hits + hits.len() <= u64::MAX,
    ensures
        applied_all(s, hits) == applied_all(s, hits.update(i, hits[i + 1]).update(i + 1, hits[i])),
{
    let swapped = hits.update(i, hits[i + 1]).update(i + 1, hits[i]);
    let pre = hits.take(i);
    let post = hits.skip(i + 2);
    let pair = seq![hits[i], hits[i + 1]];
    let rpair = seq![hits[i + 1], hits[i]];
    assert(hits =~= pre + pair + post);
    assert(swapped =~= pre + rpair + post);
    lemma_applied_all_split(s, pre + pair, post);
    lemma_applied_all_split(s, pre + rpair, post);
    lemma_applied_all_split(s, pre, pair);
    lemma_applied_all_split(s, pre, rpair);
    lemma_amount_sum_split(pre + pair, post);
    lemma_amount_sum_split(pre, pair);
    lemma_amount_sum_nonneg(post);
    lemma_amount_sum_nonneg(pair);
    lemma_amount_sum_nonneg(pre);
    lemma_applied_all_grows(s, pre);
    let t = applied_all(s, pre);
    assert(pair.drop_last() =~= seq![hits[i]]);
    assert(seq![hits[i]].drop_last() =~= Seq::<(u64, bool, bool)>::empty());
    assert(rpair.drop_last() =~= seq![hits[i + 1]]);
    assert(seq![hits[i + 1]].drop_last() =~= Seq::<(u64, bool, bool)>::empty());
    let one = seq![hits[i]];
    let other = seq![hits[i + 1]];
    let e = Seq::<(u64, bool, bool)>::empty();
    assert(one.drop_last() =~= e && other.drop_last() =~= e);
    assert(amount_sum(e) == 0 && applied_all(t, e) == t);
    assert(one.last() == hits[i] && other.last() == hits[i + 1]);
    assert(pair.drop_last() == one && rpair.drop_last() == other);
    assert(pair.last() == hits[i + 1] && rpair.last() == hits[i]);
    assert(amount_sum(one) == hits[i].0);
    assert(amount_sum(pair) == hits[i].0 + hits[i + 1].0);
    assert(hits.len() == pre.len() + 2 + post.len());
    lemma_two_hits_commute(t, hits[i], hits[i + 1]);
    assert(applied_all(t, one) == t.applied(hits[i].0, hits[i].1, hits[i].2));
    assert(applied_all(t, other) == t.applied(hits[i + 1].0, hits[i + 1].1, hits[i + 1].2));
    assert(applied_all(t, pair) == applied_all(t, rpair));
}

proof fn lemma_amount_sum_remove(b: Seq<(u64, bool, bool)>, j: int)
    requires
        0 <= j < b.len(),
    ensures
        amount_sum(b) == amount_sum(b.remove(j)) + b[j].0,
{
    let pre = b.take(j);
    let post = b.skip(j + 1);
    assert(b =~= pre + seq![b[j]] + post);
    assert(b.remove(j) =~= pre + post);
    lemma_amount_sum_split(pre + seq![b[j]], post);
    lemma_amount_sum_split(pre, seq![b[j]]);
    lemma_amount_sum_split(pre, post);
    let one = seq![b[j]];
    let e = Seq::<(u64, bool, bool)>::empty();
    assert(one.drop_last() =~= e);
    assert(amount_sum(e) == 0);
    assert(one.last() == b[j]);
    assert(amount_sum(one) == b[j].0);
}

/// Moving one hit to the end changes nothing.
proof fn lemma_hit_to_end(s: CombatStats, b: Seq<(u64, bool, bool)>, j: int)
    requires
        s.wf(),
        0 <= j < b.len(),
        s.total + amount_sum(b) <= u64::MAX,
        s.hits + b.len() <= u64::MAX,
    ensures
        applied_all(s, b) == applied_all(s, b.remove(j).push(b[j])),
    decreases b.len() - j,
{
    if j == b.len() - 1 {
        assert(b.remove(j).push(b[j]) =~= b);
    } else {
        lemma_hit_order_free(s, b, j);
        let b2 = b.update(j, b[j + 1]).update(j + 1, b[j]);
        let pre = b.take(j);
        let post = b.skip(j + 2);
        assert(b =~= pre + seq![b[j], b[j + 1]] + post);
        assert(b2 =~= pre + seq![b[j + 1], b[j]] + post);
        lemma_amount_sum_split(pre + seq![b[j], b[j + 1]], post);
        lemma_amount_sum_split(pre + seq![b[j + 1], b[j]], post);
        lemma_amount_sum_split(pre, seq![b[j], b[j + 1]]);
        lemma_amount_sum_split(pre, seq![b[j + 1], b[j]]);
        assert(seq![b[j], b[j + 1]].drop_last() =~= seq![b[j]]);
        assert(seq![b[j + 1], b[j]].drop_last() =~= seq![b[j + 1]]);
        let e = Seq::<(u64, bool, bool)>::empty();
        let one = seq![b[j]];
        let other = seq![b[j + 1]];
        let pair = seq![b[j], b[j + 1]];
        let rpair = seq![b[j + 1], b[j]];
        assert(one.drop_last() =~= e && other.drop_last() =~= e);
        assert(amount_sum(e) == 0);
        assert(one.last() == b[j] && other.last() == b[j + 1]);
        assert(amount_sum(one) == b[j].0 && amount_sum(other) == b[j + 1].0);
        assert(pair.drop_last() == one && rpair.drop_last() == other);
        assert(pair.last() == b[j + 1] && rpair.last() == b[j]);
        assert(amount_sum(pair) == amount_sum(rpair));
        assert(amount_sum(b2) == amount_sum(b));
        lemma_hit_to_end(s, b2, j + 1);
        assert(b2.remove(j + 1) =~= b.remove(j));
        assert(b2[j + 1] == b[j]);
    }
}

/// Counting hits does not depend on their order at all: the same hits, in
/// any order, give the same counters, wherever the totals do not overflow.
pub proof fn lemma_hits_any_order(s: CombatStats, a: Seq<(u64, bool, bool)>, b: Seq<(u64, bool, bool)>)
    requires
        s.wf(),
        a.to_multiset() == b.to_multiset(),
        s.total + amount_sum(a) <= u64::MAX,
        s.total + amount_sum(b) <= u64::MAX,
        s.hits + a.len() <= u64::MAX,
    ensures
        applied_all(s, a) == applied_all(s, b),
    decreases a.len(),
{
    broadcast use vstd::seq_lib::group_to_multiset_ensures;
    assert(a.to_multiset().len() == a.len() && b.to_multiset().len() == b.len());
    assert(a.len() == b.len());
    if a.len() == 0 {
        assert(b =~= Seq::<(u64, bool, bool)>::empty());
        assert(a =~= Seq::<(u64, bool, bool)>::empty());
    } else {
        let x = a.last();
        let al = a.drop_last();
        assert(a =~= al.push(x));
        assert(a.to_multiset().count(x) > 0);
        assert(b.contains(x));
        let j = choose|j: int| 0 <= j < b.len() && b[j] == x;
        let br = b.remove(j);
        assert(b.to_multiset() =~= a.to_multiset());
        assert(br.to_multiset() =~= b.to_multiset().remove(x));
        assert(al.to_multiset() =~= a.to_multiset().remove(x));
        lemma_amount_sum_nonneg(al);
        lemma_amount_sum_nonneg(br);
        lemma_amount_sum_remove(b, j);
        lemma_hits_any_order(s, al, br);
        lemma_hit_to_end(s, b, j);
        assert(br.push(x).drop_last() =~= br);
    }
}

/// The damage one skill dealt.
#[derive(Clone, Copy, PartialEq, Eq, Debug, Structural)]
pub struct SkillStat {
    pub skill_id: u32,
    pub stats: CombatStats,
}

#[derive(Clone, Copy, PartialEq, Eq, Debug, Structural)]
pub enum HitKind {
    Damage,
    Heal,
    Taken,
}

/// One hit, with its time as microseconds since the encounter started.
#[derive(Clone, Copy, PartialEq, Eq, Debug, Structural)]
pub struct HitRecord {
    pub time_us: u64,
    pub skill_id: u32,
    pub amount: u64,
    pub is_crit: bool,
    pub is_lucky: bool,
    pub kind: HitKind,
}

/// The entries of a skill breakdown, in insertion order.
pub uninterp spec fn skill_entries(m: IndexMap<u32, SkillStat>) -> Seq<(u32, SkillStat)>;

/// No key occurs twice.
pub open spec fn unique_keys<K, V>(s: Seq<(K, V)>) -> bool {
    forall|i: int, j: int| 0 <= i < j < s.len() ==> #[trigger] s[i].0 != #[trigger] s[j].0
}

/// Some entry has key `k`.
pub open spec fn has_key<K, V>(s: Seq<(K, V)>, k: K) -> bool {
    exists|i: int| 0 <= i < s.len() && #[trigger] s[i].0 == k
}

/// The position of key `k` (meaningful where the key is present).
pub open spec fn key_pos<K, V>(s: Seq<(K, V)>, k: K) -> int {
    choose|i: int| 0 <= i < s.len() && #[trigger] s[i].0 == k
}

/// `IndexMap::new`: an empty map.
#[verifier::external_body]
fn skill_map_new() -> (m: IndexMap<u32, SkillStat>)
    ensures
        skill_entries(m) == Seq::<(u32, SkillStat)>::empty(),
{
    IndexMap::new()
}

/// `IndexMap::get`: the value stored under the key, if any.
#[verifier::external_body]
fn skill_map_get(m: &IndexMap<u32, SkillStat>, k: u32) -> (r: Option<SkillStat>)
    requires
        unique_keys(skill_entries(*m)),
    ensures
        has_key(skill_entries(*m), k) ==> r == Some(skill_entries(*m)[key_pos(skill_entries(*m), k)].1),
        !has_key(skill_entries(*m), k) ==> r is None,
{
    m.get(&k).copied()
}

/// `IndexMap::clone`: a map with the same entries in the same order.
#[verifier::external_body]
fn skill_map_clone(m: &IndexMap<u32, SkillStat>) -> (r: IndexMap<u32, SkillStat>)
    ensures
        skill_entries(r) == skill_entries(*m),
{
    m.clone()
}

/// `IndexMap::insert`: an existing key keeps its place and takes the new
/// value; a new key goes last.
#[verifier::external_body]
fn skill_map_insert(m: &mut IndexMap<u32, SkillStat>, k: u32, v: SkillStat)
    requires
        unique_keys(skill_entries(*old(m))),
    ensures
        has_key(skill_entries(*old(m)), k) ==> skill_entries(*final(m))
            == skill_entries(*old(m)).update(key_pos(skill_entries(*old(m)), k), (k, v)),
        !has_key(skill_entries(*old(m)), k) ==> skill_entries(*final(m)) == skill_entries(*old(m)).push((k, v)),
{
    m.insert(k, v);
}

/// `IndexMap::len`.
#[verifier::external_body]
fn skill_map_len(m: &IndexMap<u32, SkillStat>) -> (r: usize)
    ensures
        r == skill_entries(*m).len(),
{
    m.len()
}

/// `IndexMap::get_index`: the value at a position.
#[verifier::external_body]
fn skill_map_value_at(m: &IndexMap<u32, SkillStat>, i: usize) -> (r: SkillStat)
    requires
        i < skill_entries(*m).len(),
    ensures
        r == skill_entries(*m)[i as int].1,
{
    *m.get_index(i).map(|(_, v)| v).unwrap()
}

/// The sum of the skills' damage totals.
pub open spec fn skill_total_sum(s: Seq<(u32, SkillStat)>) -> int
    decreases s.len(),
{
    if s.len() == 0 { 0 } else { skill_total_sum(s.drop_last()) + s.last().1.stats.total }
}

/// The sum of the skills' hit counts.
pub open spec fn skill_hits_sum(s: Seq<(u32, SkillStat)>) -> int
    decreases s.len(),
{
    if s.len() == 0 { 0 } else { skill_hits_sum(s.drop_last()) + s.last().1.stats.hits }
}

/// Replacing one skill's counters changes the sums by the difference.
pub proof fn lemma_skill_sums_update(s: Seq<(u32, SkillStat)>, i: int, x: (u32, SkillStat))
    requires
        0 <= i < s.len(),
    ensures
        skill_total_sum(s.update(i, x)) == skill_total_sum(s) - s[i].1.stats.total + x.1.stats.total,
        skill_hits_sum(s.update(i, x)) == skill_hits_sum(s) - s[i].1.stats.hits + x.1.stats.hits,
    decreases s.len(),
{
    if i < s.len() - 1 {
        lemma_skill_sums_update(s.drop_last(), i, x);
        assert(s.update(i, x).drop_last() =~= s.drop_last().update(i, x));
    } else {
        assert(s.update(i, x).drop_last() =~= s.drop_last());
    }
}

/// No skill's counters exceed the sums.
pub proof fn lemma_skill_sums_bound(s: Seq<(u32, SkillStat)>, i: int)
    requires
        0 <= i < s.len(),
    ensures
        s[i].1.stats.total <= skill_total_sum(s),
        s[i].1.stats.hits <= skill_hits_sum(s),
    decreases s.len(),
{
    lemma_skill_sums_nonneg(s.drop_last());
    if i < s.len() - 1 {
        lemma_skill_sums_bound(s.drop_last(), i);
    }
}

pub proof fn lemma_skill_sums_nonneg(s: Seq<(u32, SkillStat)>)
    ensures
        skill_total_sum(s) >= 0,
        skill_hits_sum(s) >= 0,
    decreases s.len(),
{
    if s.len() > 0 {
        lemma_skill_sums_nonneg(s.drop_last());
    }
}

/// The breakdown after one more hit of a skill: the skill's entry, or a new
/// entry appended last, counts it.
pub open spec fn skills_after_hit(s: Seq<(u32, SkillStat)>, skill_id: u32, amount: u64, is_crit: bool, is_lucky: bool) -> Seq<(u32, SkillStat)> {
    if has_key(s, skill_id) {
        let i = key_pos(s, skill_id);
        s.update(i, (skill_id, SkillStat { skill_id, stats: s[i].1.stats.applied(amount, is_crit, is_lucky) }))
    } else {
        s.push((skill_id, SkillStat { skill_id, stats: CombatStats::zero().applied(amount, is_crit, is_lucky) }))
    }
}

/// The amounts of the logged hits of one kind, added up.
pub open spec fn log_total(s: Seq<HitRecord>, kind: HitKind) -> int
    decreases s.len(),
{
    if s.len() == 0 {
        0
    } else {
        log_total(s.drop_last(), kind) + if s.last().kind == kind { s.last().amount as int } else { 0 }
    }
}

/// Logging one more hit adds its amount to its kind.
pub proof fn lemma_log_total_push(s: Seq<HitRecord>, h: HitRecord, kind: HitKind)
    ensures
        log_total(s.push(h), kind) == log_total(s, kind) + if h.kind == kind { h.amount as int } else { 0 },
{
    assert(s.push(h).drop_last() =~= s);
}

/// Everything counted for one entity within an encounter.
pub struct PlayerMeter {
    pub entity_id: EntityId,
    pub player_name: String,
    pub is_player: bool,
    pub damage_stats: CombatStats,
    pub taken_stats: CombatStats,
    pub heal_stats: CombatStats,
    pub overheal: u64,
    pub shield_gain: u64,
    pub deaths: u32,
    pub skill_breakdown: IndexMap<u32, SkillStat>,
    pub hit_log: Vec<HitRecord>,
}

impl PlayerMeter {
    pub open spec fn skills(&self) -> Seq<(u32, SkillStat)> {
        skill_entries(self.skill_breakdown)
    }

    /// The counters are consistent, each skill is listed once under its own
    /// id, and the skill breakdown adds up to the damage dealt.
    pub open spec fn wf(&self) -> bool {
        &&& self.damage_stats.wf()
        &&& self.taken_stats.wf()
        &&& self.heal_stats.wf()
        &&& unique_keys(self.skills())
        &&& forall|i: int| 0 <= i < self.skills().len() ==> {
            &&& (#[trigger] self.skills()[i]).1.skill_id == self.skills()[i].0
            &&& self.skills()[i].1.stats.wf()
        }
        &&& skill_total_sum(self.skills()) == self.damage_stats.total
        &&& skill_hits_sum(self.skills()) == self.damage_stats.hits
        &&& log_total(self.hit_log@, HitKind::Damage) == self.damage_stats.total
        &&& log_total(self.hit_log@, HitKind::Heal) == self.heal_stats.total
        &&& log_total(self.hit_log@, HitKind::Taken) == self.taken_stats.total
    }

    pub fn new(entity_id: EntityId, player_name: String) -> (r: PlayerMeter)
        ensures
            r.wf(),
            r.entity_id == entity_id,
            r.player_name == player_name,
            !r.is_player,
            r.damage_stats == CombatStats::zero(),
            r.taken_stats == CombatStats::zero(),
            r.heal_stats == CombatStats::zero(),
            r.overheal == 0,
            r.shield_gain == 0,
            r.deaths == 0,
            r.skills() == Seq::<(u32, SkillStat)>::empty(),
            r.hit_log@ == Seq::<HitRecord>::empty(),
    {
        PlayerMeter {
            entity_id,
            player_name,
            is_player: false,
            damage_stats: CombatStats::new(),
            taken_stats: CombatStats::new(),
            heal_stats: CombatStats::new(),
            overheal: 0,
            shield_gain: 0,
            deaths: 0,
            skill_breakdown: skill_map_new(),
            hit_log: Vec::new(),
        }
    }

    /// Counts a hit this entity dealt, seen `time_us` into the encounter.
    pub fn apply(&mut self, event: &CombatEvent, time_us: u64)
        requires
            old(self).wf(),
            old(self).damage_stats.has_room(event.damage),
        ensures
            final(self).wf(),
            final(self).damage_stats == old(self).damage_stats.applied(event.damage, event.is_crit, event.is_lucky),
            final(self).skills() == skills_after_hit(old(self).skills(), event.skill_id, event.damage, event.is_crit, event.is_lucky),
            final(self).hit_log@ == old(self).hit_log@.push(HitRecord {
                time_us,
                skill_id: event.skill_id,
                amount: event.damage,
                is_crit: event.is_crit,
                is_lucky: event.is_lucky,
                kind: HitKind::Damage,
            }),
            final(self).entity_id == old(self).entity_id,
            final(self).player_name == old(self).player_name,
            final(self).is_player == old(self).is_player,
            final(self).taken_stats == old(self).taken_stats,
            final(self).heal_stats == old(self).heal_stats,
            final(self).overheal == old(self).overheal,
            final(self).shield_gain == old(self).shield_gain,
            final(self).deaths == old(self).deaths,
    {
        let ghost s0 = self.skills();
        let k = event.skill_id;
        self.damage_stats.apply(event.damage, event.is_crit, event.is_lucky);
        let cur = skill_map_get(&self.skill_breakdown, k);
        let mut st = match cur {
            Some(st) => st,
            None => SkillStat { skill_id: k, stats: CombatStats::new() },
        };
        proof {
            if has_key(s0, k) {
                let i = key_pos(s0, k);
                lemma_skill_sums_bound(s0, i);
                assert(s0[i].1.stats.wf());
            }
        }
        st.stats.apply(event.damage, event.is_crit, event.is_lucky);
        skill_map_insert(&mut self.skill_breakdown, k, st);
        proof {
            let s1 = self.skills();
            if has_key(s0, k) {
                let i = key_pos(s0, k);
                lemma_skill_sums_update(s0, i, (k, st));
                assert forall|a: int, b: int| 0 <= a < b < s1.len() implies #[trigger] s1[a].0 != #[trigger] s1[b].0 by {
                    assert(s0[a].0 == s1[a].0 && s0[b].0 == s1[b].0);
                }
            } else {
                assert(s1.drop_last() =~= s0);
                assert forall|a: int, b: int| 0 <= a < b < s1.len() implies #[trigger] s1[a].0 != #[trigger] s1[b].0 by {
                    if b == s1.len() - 1 {
                        assert(s0[a].0 == s1[a].0);
                    } else {
                        assert(s0[a].0 == s1[a].0 && s0[b].0 == s1[b].0);
                    }
                }
            }
            assert forall|i: int| 0 <= i < s1.len() implies {
                &&& (#[trigger] s1[i]).1.skill_id == s1[i].0
                &&& s1[i].1.stats.wf()
            } by {
                if i < s0.len() && !(has_key(s0, k) && i == key_pos(s0, k)) {
                    assert(s1[i] == s0[i]);
                }
            }
        }
        let ghost l0 = self.hit_log@;
        self.hit_log.push(HitRecord {
            time_us,
            skill_id: k,
            amount: event.damage,
            is_crit: event.is_crit,
            is_lucky: event.is_lucky,
            kind: HitKind::Damage,
        });
        proof {
            let h = self.hit_log@.last();
            assert(self.hit_log@ =~= l0.push(h));
            lemma_log_total_push(l0, h, HitKind::Damage);
            lemma_log_total_push(l0, h, HitKind::Heal);
            lemma_log_total_push(l0, h, HitKind::Taken);
        }
    }

    /// Counts a heal this entity gave, with the part of it that overhealed.
    pub fn apply_heal(&mut self, event: &CombatEvent, overheal: u64, time_us: u64)
        requires
            old(self).wf(),
            old(self).heal_stats.has_room(event.damage),
            old(self).overheal + overheal <= u64::MAX,
        ensures
            final(self).wf(),
            final(self).heal_stats == old(self).heal_stats.applied(event.damage, event.is_crit, event.is_lucky),
            final(self).overheal == old(self).overheal + overheal,
            final(self).hit_log@ == old(self).hit_log@.push(HitRecord {
                time_us,
                skill_id: event.skill_id,
                amount: event.damage,
                is_crit: event.is_crit,
                is_lucky: event.is_lucky,
                kind: HitKind::Heal,
            }),
            final(self).skills() == old(self).skills(),
            final(self).entity_id == old(self).entity_id,
            final(self).player_name == old(self).player_name,
            final(self).is_player == old(self).is_player,
            final(self).damage_stats == old(self).damage_stats,
            final(self).taken_stats == old(self).taken_stats,
            final(self).shield_gain == old(self).shield_gain,
            final(self).deaths == old(self).deaths,
    {
        self.heal_stats.apply(event.damage, event.is_crit, event.is_lucky);
        self.overheal = self.overheal + overheal;
        let ghost l0 = self.hit_log@;
        self.hit_log.push(HitRecord {
            time_us,
            skill_id: event.skill_id,
            amount: event.damage,
            is_crit: event.is_crit,
            is_lucky: event.is_lucky,
            kind: HitKind::Heal,
        });
        proof {
            let h = self.hit_log@.last();
            assert(self.hit_log@ =~= l0.push(h));
            lemma_log_total_push(l0, h, HitKind::Damage);
            lemma_log_total_push(l0, h, HitKind::Heal);
            lemma_log_total_push(l0, h, HitKind::Taken);
        }
    }

    /// Counts a hit this entity took.
    pub fn apply_taken(&mut self, event: &CombatEvent, time_us: u64)
        requires
            old(self).wf(),
            old(self).taken_stats.has_room(event.damage),
        ensures
            final(self).wf(),
            final(self).taken_stats == old(self).taken_stats.applied(event.damage, event.is_crit, event.is_lucky),
            final(self).hit_log@ == old(self).hit_log@.push(HitRecord {
                time_us,
                skill_id: event.skill_id,
                amount: event.damage,
                is_crit: event.is_crit,
                is_lucky: event.is_lucky,
                kind: HitKind::Taken,
            }),
            final(self).skills() == old(self).skills(),
            final(self).entity_id == old(self).entity_id,
            final(self).player_name == old(self).player_name,
            final(self).is_player == old(self).is_player,
            final(self).damage_stats == old(self).damage_stats,
            final(self).heal_stats == old(self).heal_stats,
            final(self).overheal == old(self).overheal,
            final(self).shield_gain == old(self).shield_gain,
            final(self).deaths == old(self).deaths,
    {
        self.taken_stats.apply(event.damage, event.is_crit, event.is_lucky);
        let ghost l0 = self.hit_log@;
        self.hit_log.push(HitRecord {
            time_us,
            skill_id: event.skill_id,
            amount: event.damage,
            is_crit: event.is_crit,
            is_lucky: event.is_lucky,
            kind: HitKind::Taken,
        });
        proof {
            let h = self.hit_log@.last();
            assert(self.hit_log@ =~= l0.push(h));
            lemma_log_total_push(l0, h, HitKind::Damage);
            lemma_log_total_push(l0, h, HitKind::Heal);
            lemma_log_total_push(l0, h, HitKind::Taken);
        }
    }

    pub fn total_damage(&self) -> (r: u64)
        ensures
            r == self.damage_stats.total,
    {
        self.damage_stats.total
    }

    pub fn hit_count(&self) -> (r: u64)
        ensures
            r == self.damage_stats.hits,
    {
        self.damage_stats.hits
    }

    /// How many skills dealt damage.
    pub fn skill_count(&self) -> (r: usize)
        ensures
            r == self.skills().len(),
    {
        skill_map_len(&self.skill_breakdown)
    }

    /// The skill at position `i`, in order of first use.
    pub fn skill_at(&self, i: usize) -> (r: SkillStat)
        requires
            i < self.skills().len(),
        ensures
            r == self.skills()[i as int].1,
    {
        skill_map_value_at(&self.skill_breakdown, i)
    }

    /// Critical hits, lucky or not.
    pub fn crit_count(&self) -> (r: u64)
        requires
            self.wf(),
        ensures
            r == self.damage_stats.crit_hits + self.damage_stats.crit_lucky_hits,
    {
        self.damage_stats.crit_hits + self.damage_stats.crit_lucky_hits
    }

    pub fn damage_taken(&self) -> (r: u64)
        ensures
            r == self.taken_stats.total,
    {
        self.taken_stats.total
    }

    pub fn total_healing(&self) -> (r: u64)
        ensures
            r == self.heal_stats.total,
    {
        self.heal_stats.total
    }
}

/// What a meter holds, with its texts and lists as sequences.
pub ghost struct MeterModel {
    pub entity_id: EntityId,
    pub name: Seq<char>,
    pub is_player: bool,
    pub damage_stats: CombatStats,
    pub taken_stats: CombatStats,
    pub heal_stats: CombatStats,
    pub overheal: u64,
    pub shield_gain: u64,
    pub deaths: u32,
    pub skills: Seq<(u32, SkillStat)>,
    pub hits: Seq<HitRecord>,
}

impl PlayerMeter {
    pub open spec fn model(&self) -> MeterModel {
        MeterModel {
            entity_id: self.entity_id,
            name: self.player_name@,
            is_player: self.is_player,
            damage_stats: self.damage_stats,
            taken_stats: self.taken_stats,
            heal_stats: self.heal_stats,
            overheal: self.overheal,
            shield_gain: self.shield_gain,
            deaths: self.deaths,
            skills: self.skills(),
            hits: self.hit_log@,
        }
    }

    /// A copy of the meter.
    pub fn duplicate(&self) -> (r: PlayerMeter)
        ensures
            r.model() == self.model(),
            self.wf() ==> r.wf(),
    {
        let mut hits: Vec<HitRecord> = Vec::new();
        let mut i: usize = 0;
        while i < self.hit_log.len()
            invariant
                i <= self.hit_log@.len(),
                hits@ == self.hit_log@.take(i as int),
            decreases self.hit_log@.len() - i,
        {
            hits.push(self.hit_log[i]);
            assert(self.hit_log@.take(i + 1) =~= self.hit_log@.take(i as int).push(self.hit_log@[i as int]));
            i = i + 1;
        }
        assert(self.hit_log@.take(self.hit_log@.len() as int) =~= self.hit_log@);
        PlayerMeter {
            entity_id: self.entity_id,
            player_name: self.player_name.clone(),
            is_player: self.is_player,
            damage_stats: self.damage_stats,
            taken_stats: self.taken_stats,
            heal_stats: self.heal_stats,
            overheal: self.overheal,
            shield_gain: self.shield_gain,
            deaths: self.deaths,
            skill_breakdown: skill_map_clone(&self.skill_breakdown),
            hit_log: hits,
        }
    }
}

} // verus!
