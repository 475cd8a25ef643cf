//! The encounter archive's decisions: the summary kept beside each stored
//! encounter, the order in which summaries are listed, and which stored
//! encounters a clear or a cleanup removes. Reading, writing and deleting
//! the files is the caller's part; it hands in what it listed.

use vstd::prelude::*;
use crate::encounter::EncounterOutcome;
use crate::saved::{EncounterRecord, PlayerRecord};

verus! {

/// Microseconds in a day.
pub const DAY_US: u64 = 86_400_000_000;

/// A stored encounter as listed: what its summary beside the full record
/// holds. Times are microseconds on the capture clock.
pub struct EncounterSummary {
    pub id: u128,
    pub scene_name: String,
    pub start_us: u64,
    pub duration_us: u64,
    pub player_count: usize,
    pub total_damage: u64,
    pub top_player_name: String,
    pub top_player_damage: u64,
    pub custom_name: Option<String>,
    pub outcome: EncounterOutcome,
}

/// The text an optional name holds.
pub open spec fn name_view(o: Option<String>) -> Option<Seq<char>> {
    match o {
        Some(s) => Some(s@),
        None => None,
    }
}

/// How many of the entities are players.
pub open spec fn players_in(s: Seq<PlayerRecord>) -> nat
    decreases s.len(),
{
    if s.len() == 0 {
        0
    } else {
        players_in(s.drop_last()) + if s.last().is_player { 1nat } else { 0nat }
    }
}

/// `i` is the last of the entities that dealt the most damage.
pub open spec fn is_top(s: Seq<PlayerRecord>, i: int) -> bool {
    &&& 0 <= i < s.len()
    &&& forall|j: int| 0 <= j < s.len() ==> #[trigger] s[j].total_damage <= s[i].total_damage
    &&& forall|j: int| i < j < s.len() ==> #[trigger] s[j].total_damage < s[i].total_damage
}

/// At most one entity is the top one.
pub proof fn lemma_top_unique(s: Seq<PlayerRecord>, i: int, k: int)
    requires
        is_top(s, i),
        is_top(s, k),
    ensures
        i == k,
{
    if i < k {
        assert(s[k].total_damage < s[i].total_damage);
        assert(s[i].total_damage <= s[k].total_damage);
    } else if k < i {
        assert(s[i].total_damage < s[k].total_damage);
        assert(s[k].total_damage <= s[i].total_damage);
    }
}

fn top_player(players: &Vec<PlayerRecord>) -> (r: Option<usize>)
    ensures
        match r {
            Some(i) => is_top(players@, i as int),
            None => players@.len() == 0,
        },
{
    if players.len() == 0 {
        return None;
    }
    let mut best: usize = 0;
    let mut i: usize = 1;
    while i < players.len()
        invariant
            1 <= i <= players@.len(),
            best < i,
            forall|j: int| 0 <= j < i ==> #[trigger] players@[j].total_damage <= players@[best as int].total_damage,
            forall|j: int| best < j < i ==> #[trigger] players@[j].total_damage < players@[best as int].total_damage,
        decreases players@.len() - i,
    {
        if players[i].total_damage >= players[best].total_damage {
            best = i;
        }
        i = i + 1;
    }
    Some(best)
}

fn count_players(players: &Vec<PlayerRecord>) -> (r: usize)
    ensures
        r == players_in(players@),
{
    let mut c: usize = 0;
    let mut i: usize = 0;
    while i < players.len()
        invariant
            i <= players@.len(),
            c <= i,
            c == players_in(players@.take(i as int)),
        decreases players@.len() - i,
    {
        assert(players@.take(i + 1).drop_last() =~= players@.take(i as int));
        if players[i].is_player {
            c = c + 1;
        }
        i = i + 1;
    }
    assert(players@.take(i as int) =~= players@);
    c
}

/// The summary of a stored encounter: its headline figures, how many of its
/// entities are players, and the name and damage of the last of those that
/// dealt the most (an empty name and nothing where there is none).
pub fn summary_of(enc: &EncounterRecord) -> (r: EncounterSummary)
    ensures
        r.id == enc.id,
        r.scene_name@ == enc.scene_name@,
        r.start_us == enc.start_us,
        r.duration_us == enc.duration_us,
        r.player_count == players_in(enc.players@),
        r.total_damage == enc.total_damage,
        name_view(r.custom_name) == name_view(enc.custom_name),
        r.outcome == enc.outcome,
        enc.players@.len() == 0 ==> r.top_player_name@ == Seq::<char>::empty() && r.top_player_damage == 0,
        enc.players@.len() > 0 ==> exists|i: int| #[trigger] is_top(enc.players@, i)
            && r.top_player_name@ == enc.players@[i].name@
            && r.top_player_damage == enc.players@[i].total_damage,
{
    let (top_name, top_damage) = match top_player(&enc.players) {
        Some(i) => (enc.players[i].name.clone(), enc.players[i].total_damage),
        None => (String::new(), 0),
    };
    let custom_name = match &enc.custom_name {
        Some(n) => Some(n.clone()),
        None => None,
    };
    EncounterSummary {
        id: enc.id,
        scene_name: enc.scene_name.clone(),
        start_us: enc.start_us,
        duration_us: enc.duration_us,
        player_count: count_players(&enc.players),
        total_damage: enc.total_damage,
        top_player_name: top_name,
        top_player_damage: top_damage,
        custom_name,
        outcome: enc.outcome,
    }
}

/// In a listing newest first, the summary at `a` comes before the one at
/// `b`: it started later, or at the same time and was listed first.
pub open spec fn listed_before(starts: Seq<u64>, a: int, b: int) -> bool {
    starts[a] > starts[b] || (starts[a] == starts[b] && a < b)
}

/// The order in which summaries are listed: newest first, summaries that
/// started at the same time in the order in which they were found. The
/// result holds each index of `starts` once.
pub fn newest_first_order(starts: &Vec<u64>) -> (r: Vec<usize>)
    ensures
        r@.len() == starts@.len(),
        forall|k: int| 0 <= k < r@.len() ==> #[trigger] r@[k] < starts@.len(),
        forall|a: int, b: int| 0 <= a < b < r@.len() ==> listed_before(starts@, #[trigger] r@[a] as int, #[trigger] r@[b] as int),
{
    crate::history::stable_order(starts, true)
}

/// An encounter is past its age when it started more than `max_age_days`
/// days before `now_us`.
pub open spec fn expired(start_us: u64, now_us: u64, max_age_days: u64) -> bool {
    start_us + max_age_days * DAY_US < now_us
}

/// How many of the first `i` listed encounters are not past their age.
pub open spec fn kept_before(s: Seq<EncounterSummary>, i: int, now_us: u64, max_age_days: u64) -> nat
    decreases i,
{
    if i <= 0 {
        0
    } else {
        kept_before(s, i - 1, now_us, max_age_days)
            + if expired(s[i - 1].start_us, now_us, max_age_days) { 0nat } else { 1nat }
    }
}

/// A cleanup removes the listed encounter at `i` where it is past its age,
/// or where `max_count` younger ones listed before it are kept.
pub open spec fn doomed(s: Seq<EncounterSummary>, i: int, now_us: u64, max_age_days: u64, max_count: usize) -> bool {
    expired(s[i].start_us, now_us, max_age_days) || kept_before(s, i, now_us, max_age_days) >= max_count
}

/// The ids of the first `n` listed encounters that a cleanup removes, in
/// listing order.
pub open spec fn doomed_ids(s: Seq<EncounterSummary>, n: int, now_us: u64, max_age_days: u64, max_count: usize) -> Seq<u128>
    decreases n,
{
    if n <= 0 {
        Seq::empty()
    } else {
        doomed_ids(s, n - 1, now_us, max_age_days, max_count)
            + if doomed(s, n - 1, now_us, max_age_days, max_count) { seq![s[n - 1].id] } else { Seq::empty() }
    }
}

/// The ids of the first `n` listed encounters that started before `cutoff_us`.
pub open spec fn ids_before(s: Seq<EncounterSummary>, n: int, cutoff_us: u64) -> Seq<u128>
    decreases n,
{
    if n <= 0 {
        Seq::empty()
    } else {
        ids_before(s, n - 1, cutoff_us) + if s[n - 1].start_us < cutoff_us { seq![s[n - 1].id] } else { Seq::empty() }
    }
}

/// How many of the first `n` listed encounters a cleanup keeps.
pub open spec fn survivors(s: Seq<EncounterSummary>, n: int, now_us: u64, max_age_days: u64, max_count: usize) -> nat
    decreases n,
{
    if n <= 0 {
        0
    } else {
        survivors(s, n - 1, now_us, max_age_days, max_count)
            + if doomed(s, n - 1, now_us, max_age_days, max_count) { 0nat } else { 1nat }
    }
}

proof fn lemma_survivors_min(s: Seq<EncounterSummary>, n: int, now_us: u64, max_age_days: u64, max_count: usize)
    requires
        0 <= n <= s.len(),
    ensures
        survivors(s, n, now_us, max_age_days, max_count) == if kept_before(s, n, now_us, max_age_days) < max_count {
            kept_before(s, n, now_us, max_age_days)
        } else {
            max_count as nat
        },
    decreases n,
{
    if n > 0 {
        lemma_survivors_min(s, n - 1, now_us, max_age_days, max_count);
    }
}

proof fn lemma_kept_monotone(s: Seq<EncounterSummary>, j: int, i: int, now_us: u64, max_age_days: u64)
    requires
        0 <= j <= i,
    ensures
        kept_before(s, j, now_us, max_age_days) <= kept_before(s, i, now_us, max_age_days),
    decreases i - j,
{
    if j < i {
        lemma_kept_monotone(s, j, i - 1, now_us, max_age_days);
    }
}

/// A cleanup keeps at most `max_count` encounters, none of them past its
/// age, and of those not past their age it keeps the ones listed first:
/// where one is kept, so is every such one listed before it.
pub proof fn lemma_cleanup_keeps_newest(s: Seq<EncounterSummary>, now_us: u64, max_age_days: u64, max_count: usize)
    ensures
        survivors(s, s.len() as int, now_us, max_age_days, max_count) <= max_count,
        forall|i: int| 0 <= i < s.len() && !doomed(s, i, now_us, max_age_days, max_count)
            ==> !expired(s[i].start_us, now_us, max_age_days),
        forall|i: int, j: int| 0 <= j < i < s.len() && !#[trigger] doomed(s, i, now_us, max_age_days, max_count)
            && !expired(s[j].start_us, now_us, max_age_days) ==> !#[trigger] doomed(s, j, now_us, max_age_days, max_count),
{
    lemma_survivors_min(s, s.len() as int, now_us, max_age_days, max_count);
    assert forall|i: int, j: int| 0 <= j < i < s.len() && !#[trigger] doomed(s, i, now_us, max_age_days, max_count)
        && !expired(s[j].start_us, now_us, max_age_days) implies !#[trigger] doomed(s, j, now_us, max_age_days, max_count) by {
        lemma_kept_monotone(s, j, i, now_us, max_age_days);
    }
}

fn is_expired(start_us: u64, now_us: u64, max_age_days: u64) -> (r: bool)
    ensures
        r == expired(start_us, now_us, max_age_days),
{
    assert((max_age_days as int) * (DAY_US as int) <= 0xffff_ffff_ffff_ffff * 86_400_000_000) by (nonlinear_arith)
        requires max_age_days <= 0xffff_ffff_ffff_ffff;
    let span: u128 = (max_age_days as u128) * (DAY_US as u128);
    (start_us as u128) + span < (now_us as u128)
}

/// The archive of finished encounters, kept in one directory: each
/// encounter's full record beside a small summary of it.
pub struct EncounterStore {
    pub dir: String,
}

impl EncounterStore {
    /// The archive in the `bpsr-aio-tools/encounters` directory under a
    /// data directory, or under the working directory where there is none.
    pub fn open(data_dir: Option<&str>) -> (r: EncounterStore)
        ensures
            r.dir@ == (match data_dir {
                Some(d) => d@,
                None => "."@,
            }) + "/bpsr-aio-tools/encounters"@,
    {
        let mut dir = match data_dir {
            Some(d) => String::from_str(d),
            None => String::from_str("."),
        };
        dir.append("/bpsr-aio-tools/encounters");
        EncounterStore { dir }
    }

    /// The file of an encounter's full record.
    pub fn enc_path(&self, id_text: &str) -> (r: String)
        ensures
            r@ == self.dir@ + "/"@ + id_text@ + ".enc.zst"@,
    {
        let mut p = self.dir.clone();
        p.append("/");
        p.append(id_text);
        p.append(".enc.zst");
        p
    }

    /// The file of an encounter's summary.
    pub fn sum_path(&self, id_text: &str) -> (r: String)
        ensures
            r@ == self.dir@ + "/"@ + id_text@ + ".sum.json"@,
    {
        let mut p = self.dir.clone();
        p.append("/");
        p.append(id_text);
        p.append(".sum.json");
        p
    }

    /// The encounters a clear removes: every listed one, in listing order.
    pub fn clear_all(&self, listed: &Vec<EncounterSummary>) -> (r: Vec<u128>)
        ensures
            r@ == listed@.map_values(|e: EncounterSummary| e.id),
    {
        let mut out: Vec<u128> = Vec::new();
        let mut i: usize = 0;
        while i < listed.len()
            invariant
                i <= listed@.len(),
                out@ == listed@.take(i as int).map_values(|e: EncounterSummary| e.id),
            decreases listed@.len() - i,
        {
            out.push(listed[i].id);
            assert(listed@.take(i + 1) =~= listed@.take(i as int).push(listed@[i as int]));
            assert(out@ =~= listed@.take(i + 1).map_values(|e: EncounterSummary| e.id));
            i = i + 1;
        }
        assert(listed@.take(i as int) =~= listed@);
        out
    }

    /// The encounters removed by a clear of those started before a cutoff,
    /// in listing order.
    pub fn clear_before(&self, listed: &Vec<EncounterSummary>, cutoff_us: u64) -> (r: Vec<u128>)
        ensures
            r@ == ids_before(listed@, listed@.len() as int, cutoff_us),
    {
        let mut out: Vec<u128> = Vec::new();
        let mut i: usize = 0;
        while i < listed.len()
            invariant
                i <= listed@.len(),
                out@ == ids_before(listed@, i as int, cutoff_us),
            decreases listed@.len() - i,
        {
            if listed[i].start_us < cutoff_us {
                out.push(listed[i].id);
            }
            assert(out@ =~= ids_before(listed@, i + 1, cutoff_us));
            i = i + 1;
        }
        out
    }

    /// The encounters a cleanup removes from a listing newest first: those
    /// started more than `max_age_days` days before `now_us`, and of the
    /// others all but the first `max_count`; in listing order.
    pub fn cleanup_plan(&self, listed: &Vec<EncounterSummary>, now_us: u64, max_count: usize, max_age_days: u64) -> (r: Vec<u128>)
        ensures
            r@ == doomed_ids(listed@, listed@.len() as int, now_us, max_age_days, max_count),
    {
        let mut out: Vec<u128> = Vec::new();
        let mut kept: usize = 0;
        let mut i: usize = 0;
        while i < listed.len()
            invariant
                i <= listed@.len(),
                kept <= i,
                kept == kept_before(listed@, i as int, now_us, max_age_days),
                out@ == doomed_ids(listed@, i as int, now_us, max_age_days, max_count),
            decreases listed@.len() - i,
        {
            let old_age = is_expired(listed[i].start_us, now_us, max_age_days);
            if old_age || kept >= max_count {
                out.push(listed[i].id);
            }
            if !old_age {
                kept = kept + 1;
            }
            assert(out@ =~= doomed_ids(listed@, i + 1, now_us, max_age_days, max_count));
            i = i + 1;
        }
        out
    }
}

/// Where a run of deletions, each reported as done or failed in order,
/// first failed: a clear goes on past a failure and reports the first one.
pub fn first_failure(done: &Vec<bool>) -> (r: Option<usize>)
    ensures
        match r {
            None => forall|j: int| 0 <= j < done@.len() ==> done@[j],
            Some(i) => i < done@.len() && !done@[i as int]
                && forall|j: int| 0 <= j < i ==> done@[j],
        },
{
    let mut i: usize = 0;
    while i < done.len()
        invariant
            i <= done@.len(),
            forall|j: int| 0 <= j < i ==> done@[j],
        decreases done@.len() - i,
    {
        if !done[i] {
            return Some(i);
        }
        i = i + 1;
    }
    None
}

/// How many of a run of deletions were done.
pub open spec fn done_count(done: Seq<bool>) -> nat
    decreases done.len(),
{
    if done.len() == 0 {
        0
    } else {
        done_count(done.drop_last()) + if done.last() { 1nat } else { 0nat }
    }
}

/// How many deletions of a clear were done: what a clear of old
/// encounters reports, failures being skipped.
pub fn count_done(done: &Vec<bool>) -> (r: usize)
    ensures
        r == done_count(done@),
{
    let mut n: usize = 0;
    let mut i: usize = 0;
    while i < done.len()
        invariant
            i <= done@.len(),
            n == done_count(done@.take(i as int)),
            n <= i,
        decreases done@.len() - i,
    {
        assert(done@.take(i as int) =~= done@.take(i + 1).drop_last());
        if done[i] {
            n = n + 1;
        }
        i = i + 1;
    }
    assert(done@.take(i as int) =~= done@);
    n
}

} // verus!
