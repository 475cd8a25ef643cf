//! The encounter detail table of the history view: which rows it shows for
//! a phase, and in which order a chosen column sorts them.

use vstd::prelude::*;
use crate::saved::{EncounterRecord, PlayerRecord, SavedPlayerPhaseStats};

verus! {

/// The columns the detail table sorts by.
#[derive(Clone, Copy, PartialEq, Eq, Debug, Structural)]
pub enum SortKey {
    Damage,
    DamageTaken,
    Healing,
    Hits,
    CritRate,
    Deaths,
}

/// One row of the detail table: the entity's position in the encounter and
/// its counters (over the whole encounter or the chosen phase).
#[derive(Clone, Copy, PartialEq, Eq, Debug, Structural)]
pub struct DetailRow {
    pub player: usize,
    pub total_damage: u64,
    pub hits: u64,
    pub damage_taken: u64,
    pub total_healing: u64,
}

/// The counters of an entity's first stats entry for `phase`, if any.
pub open spec fn phase_counters(s: Seq<SavedPlayerPhaseStats>, phase: usize) -> Option<(u64, u64, u64, u64)>
    decreases s.len(),
{
    if s.len() == 0 {
        None
    } else if s[0].phase_index == phase {
        Some((s[0].total_damage, s[0].hits, s[0].damage_taken, s[0].total_healing))
    } else {
        phase_counters(s.drop_first(), phase)
    }
}

/// The row an entity gets: its totals, or for a phase its counters there;
/// a monster without activity in the phase gets none.
pub open spec fn row_counters(p: PlayerRecord, phase: Option<usize>) -> Option<(u64, u64, u64, u64)> {
    match phase {
        None => Some((p.total_damage, p.hit_count, p.damage_taken, p.total_healing)),
        Some(ph) => {
            let c = phase_counters(p.phase_stats@, ph);
            let active = c matches Some(v) && (v.0 > 0 || v.1 > 0 || v.2 > 0 || v.3 > 0);
            if !active && !p.is_player {
                None
            } else {
                match c { Some(v) => Some(v), None => Some((0u64, 0u64, 0u64, 0u64)) }
            }
        },
    }
}

/// The rows of the first `k` entities, in encounter order; with
/// `players_only` players alone.
pub open spec fn rows_of(ps: Seq<PlayerRecord>, players_only: bool, phase: Option<usize>, k: int) -> Seq<DetailRow>
    decreases k,
{
    if k <= 0 {
        Seq::empty()
    } else {
        let prev = rows_of(ps, players_only, phase, k - 1);
        let p = ps[k - 1];
        if players_only && !p.is_player {
            prev
        } else {
            match row_counters(p, phase) {
                Some(v) => prev.push(DetailRow { player: (k - 1) as usize, total_damage: v.0, hits: v.1, damage_taken: v.2, total_healing: v.3 }),
                None => prev,
            }
        }
    }
}

fn phase_of(s: &Vec<SavedPlayerPhaseStats>, phase: usize) -> (r: Option<(u64, u64, u64, u64)>)
    ensures
        r == phase_counters(s@, phase),
{
    let mut i: usize = 0;
    assert(s@.skip(0) =~= s@);
    while i < s.len()
        invariant
            i <= s@.len(),
            phase_counters(s@, phase) == phase_counters(s@.skip(i as int), phase),
        decreases s@.len() - i,
    {
        assert(s@.skip(i as int)[0] == s@[i as int]);
        assert(s@.skip(i as int).drop_first() =~= s@.skip(i + 1));
        if s[i].phase_index == phase {
            return Some((s[i].total_damage, s[i].hits, s[i].damage_taken, s[i].total_healing));
        }
        i = i + 1;
    }
    assert(s@.skip(i as int) =~= Seq::<SavedPlayerPhaseStats>::empty());
    None
}

/// The rows of the detail table, in encounter order.
pub fn detail_rows(enc: &EncounterRecord, players_only: bool, phase: Option<usize>) -> (r: Vec<DetailRow>)
    ensures
        r@ == rows_of(enc.players@, players_only, phase, enc.players@.len() as int),
        forall|i: int| 0 <= i < r@.len() ==> (#[trigger] r@[i]).player < enc.players@.len(),
{
    let n = enc.players.len();
    let mut rows: Vec<DetailRow> = Vec::new();
    let mut i: usize = 0;
    while i < n
        invariant
            n == enc.players@.len(),
            i <= n,
            rows@ == rows_of(enc.players@, players_only, phase, i as int),
            forall|j: int| 0 <= j < rows@.len() ==> (#[trigger] rows@[j]).player < i,
        decreases n - i,
    {
        let p = &enc.players[i];
        if !(players_only && !p.is_player) {
            let counters = match phase {
                None => Some((p.total_damage, p.hit_count, p.damage_taken, p.total_healing)),
                Some(ph) => {
                    let c = phase_of(&p.phase_stats, ph);
                    let active = match c { Some(v) => v.0 > 0 || v.1 > 0 || v.2 > 0 || v.3 > 0, None => false };
                    if !active && !p.is_player {
                        None
                    } else {
                        match c { Some(v) => Some(v), None => Some((0u64, 0u64, 0u64, 0u64)) }
                    }
                },
            };
            match counters {
                Some(v) => {
                    rows.push(DetailRow { player: i, total_damage: v.0, hits: v.1, damage_taken: v.2, total_healing: v.3 });
                },
                None => {},
            }
        }
        i = i + 1;
    }
    rows
}

/// The value a row sorts by under `key` (crit rate sorts by crit count).
pub open spec fn sort_value(row: DetailRow, p: PlayerRecord, key: SortKey) -> u64 {
    match key {
        SortKey::Damage => row.total_damage,
        SortKey::DamageTaken => row.damage_taken,
        SortKey::Healing => row.total_healing,
        SortKey::Hits => row.hits,
        SortKey::CritRate => p.crit_count,
        SortKey::Deaths => p.deaths as u64,
    }
}

/// `a` comes before `b`: a smaller value (a larger one when descending),
/// equal values keeping their order.
pub open spec fn sorted_before(keys: Seq<u64>, desc: bool, a: int, b: int) -> bool {
    if desc {
        keys[a] > keys[b] || (keys[a] == keys[b] && a < b)
    } else {
        keys[a] < keys[b] || (keys[a] == keys[b] && a < b)
    }
}

/// Whether a value `a` already placed belongs after a new value `key`.
fn goes_after(a: u64, key: u64, desc: bool) -> (r: bool)
    ensures
        r == if desc { a < key } else { a > key },
{
    if desc { a < key } else { a > key }
}

/// The positions of `keys` in sorted order, stable.
pub fn stable_order(keys: &Vec<u64>, desc: bool) -> (r: Vec<usize>)
    ensures
        r@.len() == keys@.len(),
        forall|k: int| 0 <= k < r@.len() ==> #[trigger] r@[k] < keys@.len(),
        forall|a: int, b: int| 0 <= a < b < r@.len() ==> sorted_before(keys@, desc, #[trigger] r@[a] as int, #[trigger] r@[b] as int),
{
    let n = keys.len();
    let mut out: Vec<usize> = Vec::new();
    let mut i: usize = 0;
    while i < n
        invariant
            n == keys@.len(),
            i <= n,
            out@.len() == i,
            forall|k: int| 0 <= k < out@.len() ==> #[trigger] out@[k] < i,
            forall|a: int, b: int| 0 <= a < b < out@.len() ==> sorted_before(keys@, desc, #[trigger] out@[a] as int, #[trigger] out@[b] as int),
        decreases n - i,
    {
        let key = keys[i];
        let mut pos: usize = out.len();
        while pos > 0 && goes_after(keys[out[pos - 1]], key, desc)
            invariant
                n == keys@.len(),
                i < n,
                key == keys@[i as int],
                pos <= out@.len(),
                forall|k: int| 0 <= k < out@.len() ==> #[trigger] out@[k] < i,
                forall|q: int| pos <= q < out@.len() ==> (if desc { keys@[#[trigger] out@[q] as int] < key } else { keys@[out@[q] as int] > key }),
            decreases pos,
        {
            pos = pos - 1;
        }
        let ghost before = out@;
        proof {
            if pos > 0 {
                assert forall|q: int| 0 <= q < pos implies (if desc { keys@[#[trigger] before[q] as int] >= key } else { keys@[before[q] as int] <= key }) by {
                    if q < pos - 1 {
                        assert(sorted_before(keys@, desc, before[q] as int, before[pos - 1] as int));
                    }
                }
            }
        }
        out.insert(pos, i);
        proof {
            assert forall|a: int, b: int| 0 <= a < b < out@.len() implies sorted_before(keys@, desc, #[trigger] out@[a] as int, #[trigger] out@[b] as int) by {
                if b < pos {
                    assert(out@[a] == before[a] && out@[b] == before[b]);
                } else if b == pos {
                    assert(out@[a] == before[a]);
                } else if a < pos {
                    assert(out@[a] == before[a] && out@[b] == before[b - 1]);
                } else if a == pos {
                    assert(out@[b] == before[b - 1]);
                } else {
                    assert(out@[a] == before[a - 1] && out@[b] == before[b - 1]);
                }
            }
            assert forall|k: int| 0 <= k < out@.len() implies #[trigger] out@[k] < i + 1 by {
                if k < pos {
                    assert(out@[k] == before[k]);
                } else if k > pos {
                    assert(out@[k] == before[k - 1]);
                }
            }
        }
        i = i + 1;
    }
    out
}

/// The rows' sort values under `key`.
pub open spec fn sort_keys(rows: Seq<DetailRow>, ps: Seq<PlayerRecord>, key: SortKey) -> Seq<u64> {
    rows.map_values(|r: DetailRow| sort_value(r, ps[r.player as int], key))
}

/// `x` may come before `y` in the chosen direction.
pub open spec fn in_direction(x: u64, y: u64, desc: bool) -> bool {
    if desc { x >= y } else { x <= y }
}

/// The rows listed at `a` and `b` are in order by the column `key` names:
/// damage, damage taken, healing or hits of the row, the entity's crit
/// count (for the crit rate column) or its deaths.
pub open spec fn column_ordered(rows: Seq<DetailRow>, ps: Seq<PlayerRecord>, key: SortKey, desc: bool, x: int, y: int) -> bool {
    let (rx, ry) = (rows[x], rows[y]);
    let (px, py) = (ps[rx.player as int], ps[ry.player as int]);
    &&& key == SortKey::Damage ==> in_direction(rx.total_damage, ry.total_damage, desc)
    &&& key == SortKey::DamageTaken ==> in_direction(rx.damage_taken, ry.damage_taken, desc)
    &&& key == SortKey::Healing ==> in_direction(rx.total_healing, ry.total_healing, desc)
    &&& key == SortKey::Hits ==> in_direction(rx.hits, ry.hits, desc)
    &&& key == SortKey::CritRate ==> in_direction(px.crit_count, py.crit_count, desc)
    &&& key == SortKey::Deaths ==> in_direction(px.deaths as u64, py.deaths as u64, desc)
}

/// The detail table sorts by the chosen column: of any two rows it lists,
/// the earlier has the larger value in that column when descending, the
/// smaller when ascending.
pub proof fn lemma_detail_order_by_column(rows: Seq<DetailRow>, ps: Seq<PlayerRecord>, key: SortKey, desc: bool, order: Seq<usize>)
    requires
        forall|i: int| 0 <= i < rows.len() ==> (#[trigger] rows[i]).player < ps.len(),
        forall|k: int| 0 <= k < order.len() ==> #[trigger] order[k] < rows.len(),
        forall|a: int, b: int| 0 <= a < b < order.len()
            ==> sorted_before(sort_keys(rows, ps, key), desc, #[trigger] order[a] as int, #[trigger] order[b] as int),
    ensures
        forall|a: int, b: int| 0 <= a < b < order.len()
            ==> column_ordered(rows, ps, key, desc, #[trigger] order[a] as int, #[trigger] order[b] as int),
{
    assert forall|a: int, b: int| 0 <= a < b < order.len()
        implies column_ordered(rows, ps, key, desc, #[trigger] order[a] as int, #[trigger] order[b] as int) by {
        assert(sorted_before(sort_keys(rows, ps, key), desc, order[a] as int, order[b] as int));
    }
}

/// The order in which the detail table lists its rows: by the chosen
/// column, ascending or descending, rows with equal values in encounter
/// order. Returns positions in `rows`.
pub fn detail_order(rows: &Vec<DetailRow>, enc: &EncounterRecord, key: SortKey, desc: bool) -> (r: Vec<usize>)
    requires
        forall|i: int| 0 <= i < rows@.len() ==> (#[trigger] rows@[i]).player < enc.players@.len(),
    ensures
        r@.len() == rows@.len(),
        forall|k: int| 0 <= k < r@.len() ==> #[trigger] r@[k] < rows@.len(),
        forall|a: int, b: int| 0 <= a < b < r@.len()
            ==> sorted_before(sort_keys(rows@, enc.players@, key), desc, #[trigger] r@[a] as int, #[trigger] r@[b] as int),
        forall|a: int, b: int| 0 <= a < b < r@.len()
            ==> column_ordered(rows@, enc.players@, key, desc, #[trigger] r@[a] as int, #[trigger] r@[b] as int),
{
    let mut keys: Vec<u64> = Vec::new();
    let mut i: usize = 0;
    while i < rows.len()
        invariant
            i <= rows@.len(),
            forall|j: int| 0 <= j < rows@.len() ==> (#[trigger] rows@[j]).player < enc.players@.len(),
            keys@ == sort_keys(rows@, enc.players@, key).take(i as int),
        decreases rows@.len() - i,
    {
        let row = rows[i];
        let p = &enc.players[row.player];
        let v = match key {
            SortKey::Damage => row.total_damage,
            SortKey::DamageTaken => row.damage_taken,
            SortKey::Healing => row.total_healing,
            SortKey::Hits => row.hits,
            SortKey::CritRate => p.crit_count,
            SortKey::Deaths => p.deaths as u64,
        };
        keys.push(v);
        assert(keys@ =~= sort_keys(rows@, enc.players@, key).take(i + 1));
        i = i + 1;
    }
    assert(keys@ =~= sort_keys(rows@, enc.players@, key));
    let r = stable_order(&keys, desc);
    proof { lemma_detail_order_by_column(rows@, enc.players@, key, desc, r@); }
    r
}

} // verus!
