//! The world-boss timer: the service's messages, the board of bosses they
//! build, when to connect, and the respawn countdown text.

use vstd::prelude::*;
use crate::labels::{str_eq, BossEntry, BossStatus};
use crate::chat::two_digits;
use crate::text::{digits, push_digits};

verus! {

/// A message as the timer service sends it, fields absent where not sent.
pub struct Envelope {
    pub msg_type: String,
    pub bosses: Option<Vec<BossPayload>>,
    pub id: Option<String>,
    pub name: Option<String>,
    pub region: Option<String>,
    pub status: Option<String>,
    pub last_death_ts: Option<i64>,
    pub respawn_secs: Option<u64>,
}

/// One boss in a full or spawn update.
pub struct BossPayload {
    pub id: String,
    pub name: String,
    pub region: String,
    pub status: String,
    pub last_death_ts: Option<i64>,
    pub respawn_secs: u64,
}

/// How often a boss respawns when an update does not say, in seconds.
pub const DEFAULT_RESPAWN_SECS: u64 = 3600;

/// The status a status text names.
pub open spec fn status_of(s: Seq<char>) -> BossStatus {
    if s == "alive"@ { BossStatus::Alive } else if s == "dead"@ { BossStatus::Dead } else { BossStatus::Unknown }
}

pub open spec fn entry_view(e: BossEntry) -> (Seq<char>, Seq<char>, Seq<char>, BossStatus, Option<i64>, u64) {
    (e.id@, e.name@, e.region@, e.status, e.last_death_ts, e.respawn_secs)
}

pub open spec fn payload_entry(p: BossPayload) -> (Seq<char>, Seq<char>, Seq<char>, BossStatus, Option<i64>, u64) {
    (p.id@, p.name@, p.region@, status_of(p.status@), p.last_death_ts, p.respawn_secs)
}

pub open spec fn opt_text(o: Option<String>) -> Seq<char> {
    match o { Some(s) => s@, None => Seq::empty() }
}

/// The entries a message carries: all bosses of a full or spawn update,
/// the one boss of a boss update (which must name its id), else none.
pub open spec fn entries_spec(env: Envelope) -> Option<Seq<(Seq<char>, Seq<char>, Seq<char>, BossStatus, Option<i64>, u64)>> {
    if env.msg_type@ == "full_update"@ || env.msg_type@ == "spawn_update"@ {
        match env.bosses {
            Some(v) => Some(v@.map_values(|p: BossPayload| payload_entry(p))),
            None => None,
        }
    } else if env.msg_type@ == "boss_update"@ {
        match env.id {
            Some(id) => Some(seq![(
                id@,
                opt_text(env.name),
                opt_text(env.region),
                status_of(opt_text(env.status)),
                env.last_death_ts,
                match env.respawn_secs { Some(r) => r, None => DEFAULT_RESPAWN_SECS },
            )]),
            None => None,
        }
    } else {
        None
    }
}

fn text_or_empty(o: Option<String>) -> (r: String)
    ensures
        r@ == opt_text(o),
{
    match o { Some(s) => s, None => String::new() }
}

/// The boss entries a service message carries.
pub fn entries_of(env: Envelope) -> (r: Option<Vec<BossEntry>>)
    ensures
        match r {
            Some(v) => entries_spec(env) == Some(v@.map_values(|e: BossEntry| entry_view(e))),
            None => entries_spec(env) is None,
        },
{
    let ghost e0 = env;
    proof {
        reveal_strlit("full_update");
        reveal_strlit("spawn_update");
        reveal_strlit("boss_update");
    }
    let t = env.msg_type.as_str();
    if str_eq(t, "full_update") || str_eq(t, "spawn_update") {
        match env.bosses {
            Some(v) => {
                let mut out: Vec<BossEntry> = Vec::new();
                let mut i: usize = 0;
                while i < v.len()
                    invariant
                        i <= v@.len(),
                        out@.map_values(|e: BossEntry| entry_view(e)) == v@.take(i as int).map_values(|p: BossPayload| payload_entry(p)),
                    decreases v@.len() - i,
                {
                    let p = &v[i];
                    let ghost before = out@;
                    let st = BossStatus::from_str(p.status.as_str());
                    proof { reveal_strlit("alive"); reveal_strlit("dead"); }
                    out.push(BossEntry {
                        id: p.id.clone(),
                        name: p.name.clone(),
                        region: p.region.clone(),
                        status: st,
                        last_death_ts: p.last_death_ts,
                        respawn_secs: p.respawn_secs,
                    });
                    assert(v@.take(i + 1) =~= v@.take(i as int).push(v@[i as int]));
                    assert(out@.map_values(|e: BossEntry| entry_view(e)) =~= before.map_values(|e: BossEntry| entry_view(e)).push(payload_entry(*p)));
                    assert(v@.take(i + 1).map_values(|p: BossPayload| payload_entry(p)) =~= v@.take(i as int).map_values(|p: BossPayload| payload_entry(p)).push(payload_entry(*p)));
                    i = i + 1;
                }
                assert(v@.take(v@.len() as int) =~= v@);
                Some(out)
            },
            None => None,
        }
    } else if str_eq(t, "boss_update") {
        match env.id {
            Some(id) => {
                let status_text = text_or_empty(env.status);
                let st = BossStatus::from_str(status_text.as_str());
                proof { reveal_strlit("alive"); reveal_strlit("dead"); }
                let e = BossEntry {
                    id,
                    name: text_or_empty(env.name),
                    region: text_or_empty(env.region),
                    status: st,
                    last_death_ts: env.last_death_ts,
                    respawn_secs: match env.respawn_secs { Some(r) => r, None => DEFAULT_RESPAWN_SECS },
                };
                let ghost ev = entry_view(e);
                let mut out: Vec<BossEntry> = Vec::new();
                out.push(e);
                assert(out@.map_values(|e: BossEntry| entry_view(e)) =~= seq![ev]);
                Some(out)
            },
            None => None,
        }
    } else {
        None
    }
}

/// What the timer thread reports.
pub enum TimerMessage {
    Connected,
    Disconnected,
    Entries(Vec<BossEntry>),
    /// The thread is gone.
    Closed,
}

/// The bosses known, by id, and whether the service is connected.
pub struct BossBoard {
    pub bosses: Vec<BossEntry>,
    pub connected: bool,
    /// Whether messages can still arrive.
    pub listening: bool,
}

/// The entry with id `id`, looking from the latest.
pub open spec fn entry_for(s: Seq<(Seq<char>, Seq<char>, Seq<char>, BossStatus, Option<i64>, u64)>, id: Seq<char>)
    -> Option<(Seq<char>, Seq<char>, Seq<char>, BossStatus, Option<i64>, u64)>
    decreases s.len(),
{
    if s.len() == 0 { None } else if s.last().0 == id { Some(s.last()) } else { entry_for(s.drop_last(), id) }
}

/// Each boss id is listed once.
pub open spec fn ids_unique(s: Seq<(Seq<char>, Seq<char>, Seq<char>, BossStatus, Option<i64>, u64)>) -> bool {
    forall|i: int, j: int| 0 <= i < j < s.len() ==> #[trigger] s[i].0 != #[trigger] s[j].0
}

impl BossBoard {
    pub open spec fn view(&self) -> Seq<(Seq<char>, Seq<char>, Seq<char>, BossStatus, Option<i64>, u64)> {
        self.bosses@.map_values(|e: BossEntry| entry_view(e))
    }

    pub fn new() -> (r: BossBoard)
        ensures
            ids_unique(r.view()),
            r.view().len() == 0,
            !r.connected,
            !r.listening,
    {
        BossBoard { bosses: Vec::new(), connected: false, listening: false }
    }

    /// Puts an entry in, replacing the one with the same id.
    fn upsert(&mut self, e: BossEntry)
        requires
            ids_unique(old(self).view()),
        ensures
            ids_unique(final(self).view()),
            forall|id: Seq<char>| #[trigger] entry_for(final(self).view(), id)
                == if id == e.id@ { Some(entry_view(e)) } else { entry_for(old(self).view(), id) },
            final(self).connected == old(self).connected,
            final(self).listening == old(self).listening,
    {
        let ghost b0 = self.view();
        let ghost ev = entry_view(e);
        let n = self.bosses.len();
        let mut i: usize = 0;
        while i < n
            invariant
                n == b0.len(),
                i <= n,
                self.view() == b0,
                self.bosses@.len() == n,
                ids_unique(b0),
                forall|k: int| 0 <= k < i ==> b0[k].0 != e.id@,
                ev == entry_view(e),
                b0 == old(self).view(),
                self.connected == old(self).connected,
                self.listening == old(self).listening,
            decreases n - i,
        {
            if str_eq(self.bosses[i].id.as_str(), e.id.as_str()) {
                let ghost v0 = self.bosses@;
                assert(self.view()[i as int] == entry_view(self.bosses@[i as int]));
                assert(b0[i as int].0 == ev.0);
                let _ = self.bosses.remove(i);
                self.bosses.insert(i, e);
                proof {
                    assert(self.bosses@ =~= v0.update(i as int, e));
                    assert(b0 == v0.map_values(|x: BossEntry| entry_view(x)));
                    assert(self.view() =~= b0.update(i as int, ev));
                    assert(ids_unique(self.view())) by {
                        assert forall|a: int, b: int| 0 <= a < b < self.view().len() implies #[trigger] self.view()[a].0 != #[trigger] self.view()[b].0 by {
                            assert(self.view()[a].0 == b0[a].0 && self.view()[b].0 == b0[b].0);
                        }
                    }
                    lemma_entry_for_update(b0, i as int, ev);
                }
                return;
            }
            i = i + 1;
        }
        self.bosses.push(e);
        proof {
            assert(self.view() =~= b0.push(ev));
            assert(ids_unique(self.view())) by {
                assert forall|a: int, b: int| 0 <= a < b < self.view().len() implies #[trigger] self.view()[a].0 != #[trigger] self.view()[b].0 by {
                    if b == n { assert(self.view()[a] == b0[a]); } else { assert(self.view()[a] == b0[a] && self.view()[b] == b0[b]); }
                }
            }
            assert(self.view().drop_last() =~= b0);
        }
    }

    /// Applies one message: entries replace those with the same id.
    pub fn apply(&mut self, msg: TimerMessage)
        requires
            ids_unique(old(self).view()),
        ensures
            ids_unique(final(self).view()),
            match msg {
                TimerMessage::Connected => final(self).connected && final(self).view() == old(self).view()
                    && final(self).listening == old(self).listening,
                TimerMessage::Disconnected => !final(self).connected && final(self).view() == old(self).view()
                    && final(self).listening == old(self).listening,
                TimerMessage::Closed => !final(self).connected && !final(self).listening && final(self).view() == old(self).view(),
                TimerMessage::Entries(v) => {
                    &&& final(self).connected == old(self).connected
                    &&& final(self).listening == old(self).listening
                    &&& forall|id: Seq<char>| #[trigger] entry_for(final(self).view(), id) == match entry_for(v@.map_values(|e: BossEntry| entry_view(e)), id) {
                        Some(e) => Some(e),
                        None => entry_for(old(self).view(), id),
                    }
                },
            },
    {
        match msg {
            TimerMessage::Connected => { self.connected = true; },
            TimerMessage::Disconnected => { self.connected = false; },
            TimerMessage::Closed => { self.connected = false; self.listening = false; },
            TimerMessage::Entries(v) => {
                let ghost nv = v@.map_values(|e: BossEntry| entry_view(e));
                let ghost b0 = self.view();
                let mut v = v;
                let n = v.len();
                let mut i: usize = 0;
                let ghost acc = b0;
                proof {
                    assert(b0 + nv.take(0) =~= b0);
                    lemma_entry_for_concat(b0, nv.take(0));
                }
                while i < n
                    invariant
                        n == nv.len(),
                        v@.len() == n - i,
                        forall|k: int| 0 <= k < v@.len() ==> entry_view(#[trigger] v@[k]) == nv[i + k],
                        i <= n,
                        ids_unique(self.view()),
                        forall|id: Seq<char>| #[trigger] entry_for(self.view(), id) == entry_for(b0 + nv.take(i as int), id),
                        self.connected == old(self).connected,
                        self.listening == old(self).listening,
                    decreases n - i,
                {
                    let e = v.remove(0);
                    assert(entry_view(e) == nv[i as int]);
                    let ghost before = self.view();
                    self.upsert(e);
                    proof {
                        assert(nv.take(i + 1) =~= nv.take(i as int).push(nv[i as int]));
                        assert(b0 + nv.take(i + 1) =~= (b0 + nv.take(i as int)).push(nv[i as int]));
                        assert forall|id: Seq<char>| #[trigger] entry_for(self.view(), id) == entry_for(b0 + nv.take(i + 1), id) by {
                            assert((b0 + nv.take(i + 1)).drop_last() =~= b0 + nv.take(i as int));
                        }
                        assert forall|k: int| 0 <= k < v@.len() implies entry_view(#[trigger] v@[k]) == nv[i + 1 + k] by {}
                    }
                    i = i + 1;
                }
                proof {
                    assert(nv.take(n as int) =~= nv);
                    lemma_entry_for_concat(b0, nv);
                }
            },
        }
    }
}


/// Replacing the only entry of an id.
proof fn lemma_entry_for_update(s: Seq<(Seq<char>, Seq<char>, Seq<char>, BossStatus, Option<i64>, u64)>, i: int,
    e: (Seq<char>, Seq<char>, Seq<char>, BossStatus, Option<i64>, u64))
    requires
        ids_unique(s),
        0 <= i < s.len(),
        s[i].0 == e.0,
    ensures
        forall|id: Seq<char>| #[trigger] entry_for(s.update(i, e), id) == if id == e.0 { Some(e) } else { entry_for(s, id) },
    decreases s.len(),
{
    let t = s.update(i, e);
    if i == s.len() - 1 {
        assert(t.drop_last() =~= s.drop_last());
        assert forall|id: Seq<char>| #[trigger] entry_for(t, id) == if id == e.0 { Some(e) } else { entry_for(s, id) } by {
            if id != e.0 {
                assert(t.last() == e);
            }
        }
    } else {
        assert(ids_unique(s.drop_last())) by {
            assert forall|a: int, b: int| 0 <= a < b < s.drop_last().len() implies #[trigger] s.drop_last()[a].0 != #[trigger] s.drop_last()[b].0 by {
                assert(s.drop_last()[a] == s[a] && s.drop_last()[b] == s[b]);
            }
        }
        lemma_entry_for_update(s.drop_last(), i, e);
        assert(t.drop_last() =~= s.drop_last().update(i, e));
        assert(t.last() == s.last());
        assert(s.last().0 != e.0) by {
            assert(s[i].0 != s[s.len() - 1].0);
        }
        assert forall|id: Seq<char>| #[trigger] entry_for(t, id) == if id == e.0 { Some(e) } else { entry_for(s, id) } by {
            if s.last().0 == id {
                assert(id != e.0);
            } else {
                assert(entry_for(s.drop_last().update(i, e), id) == (if id == e.0 { Some(e) } else { entry_for(s.drop_last(), id) }));
            }
        }
    }
}

/// Looking up in a concatenation finds the later part first.
proof fn lemma_entry_for_concat(a: Seq<(Seq<char>, Seq<char>, Seq<char>, BossStatus, Option<i64>, u64)>,
    b: Seq<(Seq<char>, Seq<char>, Seq<char>, BossStatus, Option<i64>, u64)>)
    ensures
        forall|id: Seq<char>| #[trigger] entry_for(a + b, id) == match entry_for(b, id) {
            Some(e) => Some(e),
            None => entry_for(a, id),
        },
    decreases b.len(),
{
    if b.len() == 0 {
        assert(a + b =~= a);
    } else {
        lemma_entry_for_concat(a, b.drop_last());
        assert((a + b).drop_last() =~= a + b.drop_last());
        assert((a + b).last() == b.last());
        assert forall|id: Seq<char>| #[trigger] entry_for(a + b, id) == match entry_for(b, id) {
            Some(e) => Some(e),
            None => entry_for(a, id),
        } by {
            assert(entry_for(a + b.drop_last(), id) == match entry_for(b.drop_last(), id) {
                Some(e) => Some(e),
                None => entry_for(a, id),
            });
        }
    }
}

/// What to do about the service connection.
#[derive(Clone, Copy, PartialEq, Eq, Debug, Structural)]
pub enum ConnectionStep {
    /// Connect to the configured address (dropping any other).
    Start,
    Stop,
    Keep,
}

/// Connect when enabled with an address other than the current one; stop
/// when disabled while connected somewhere.
pub fn connection_step(enabled: bool, ws_url: &str, current_url: &str) -> (r: ConnectionStep)
    ensures
        r == if enabled && ws_url@.len() > 0 {
            if ws_url@ != current_url@ { ConnectionStep::Start } else { ConnectionStep::Keep }
        } else if !enabled && current_url@.len() > 0 {
            ConnectionStep::Stop
        } else {
            ConnectionStep::Keep
        },
{
    if enabled && !ws_url.is_empty() {
        if !str_eq(ws_url, current_url) { ConnectionStep::Start } else { ConnectionStep::Keep }
    } else if !enabled && !current_url.is_empty() {
        ConnectionStep::Stop
    } else {
        ConnectionStep::Keep
    }
}

/// How a boss's respawn line reads.
#[derive(Clone, Copy, PartialEq, Eq, Debug, Structural)]
pub enum SpawnTone {
    Alive,
    CountingDown,
    Overdue,
    DeadTimeUnknown,
    Unknown,
}

/// The respawn text of a boss at `now_ts` (seconds): `Alive`, the time
/// left as `Mm SSs`, the time overdue as `+Mm SSs OVERDUE`, or what is known.
pub open spec fn spawn_text(status: BossStatus, last_death_ts: Option<i64>, respawn_secs: u64, now_ts: i64) -> (Seq<char>, SpawnTone) {
    match status {
        BossStatus::Alive => ("Alive"@, SpawnTone::Alive),
        BossStatus::Dead => match last_death_ts {
            Some(death) => {
                let remaining = death + (respawn_secs as i64) - now_ts;
                if remaining > 0 {
                    (digits((remaining / 60) as nat, 10) + "m "@ + two_digits((remaining % 60) as nat) + seq!['s'], SpawnTone::CountingDown)
                } else {
                    let overdue = -remaining;
                    ("+"@ + digits((overdue / 60) as nat, 10) + "m "@ + two_digits((overdue % 60) as nat) + "s OVERDUE"@, SpawnTone::Overdue)
                }
            },
            None => ("Dead (time unknown)"@, SpawnTone::DeadTimeUnknown),
        },
        BossStatus::Unknown => ("?"@, SpawnTone::Unknown),
    }
}

/// Whether the respawn arithmetic stays within 64 bits.
pub open spec fn spawn_fits(last_death_ts: Option<i64>, respawn_secs: u64, now_ts: i64) -> bool {
    match last_death_ts {
        Some(death) => {
            let respawn = death + (respawn_secs as i64);
            &&& i64::MIN <= respawn <= i64::MAX
            &&& i64::MIN < respawn - now_ts <= i64::MAX
        },
        None => true,
    }
}

fn push_two(s: &mut String, n: u64)
    ensures
        final(s)@ == old(s)@ + two_digits(n as nat),
{
    if n < 10 {
        s.append("0");
        proof { reveal_strlit("0"); }
    }
    let ghost mid = s@;
    push_digits(s, n, 10);
    assert(n < 10 ==> mid == old(s)@ + seq!['0']);
    assert(s@ =~= old(s)@ + two_digits(n as nat));
}

/// The respawn line of a boss at `now_ts`.
pub fn spawn_time_label(entry: &BossEntry, now_ts: i64) -> (r: (String, SpawnTone))
    requires
        entry.status == BossStatus::Dead ==> spawn_fits(entry.last_death_ts, entry.respawn_secs, now_ts),
    ensures
        (r.0@, r.1) == spawn_text(entry.status, entry.last_death_ts, entry.respawn_secs, now_ts),
{
    proof {
        reveal_strlit("Alive");
        reveal_strlit("m ");
        reveal_strlit("s");
        reveal_strlit("+");
        reveal_strlit("s OVERDUE");
        reveal_strlit("Dead (time unknown)");
        reveal_strlit("?");
    }
    match entry.status {
        BossStatus::Alive => (String::from_str("Alive"), SpawnTone::Alive),
        BossStatus::Dead => match entry.last_death_ts {
            Some(death) => {
                let respawn = death + entry.respawn_secs as i64;
                let remaining = respawn - now_ts;
                if remaining > 0 {
                    let mut s = String::new();
                    push_digits(&mut s, (remaining / 60) as u64, 10);
                    s.append("m ");
                    push_two(&mut s, (remaining % 60) as u64);
                    s.append("s");
                    let ghost want = spawn_text(entry.status, entry.last_death_ts, entry.respawn_secs, now_ts).0;
                    assert(s@ =~= want);
                    (s, SpawnTone::CountingDown)
                } else {
                    let overdue = (-remaining) as u64;
                    let mut s = String::from_str("+");
                    push_digits(&mut s, overdue / 60, 10);
                    s.append("m ");
                    push_two(&mut s, overdue % 60);
                    s.append("s OVERDUE");
                    let ghost want = spawn_text(entry.status, entry.last_death_ts, entry.respawn_secs, now_ts).0;
                    assert(s@ =~= want);
                    (s, SpawnTone::Overdue)
                }
            },
            None => (String::from_str("Dead (time unknown)"), SpawnTone::DeadTimeUnknown),
        },
        BossStatus::Unknown => (String::from_str("?"), SpawnTone::Unknown),
    }
}

} // verus!
