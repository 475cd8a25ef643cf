//! Display names and short texts shown by the tools.

use vstd::prelude::*;
use vstd::string::*;
use crate::event::ChatChannel;
use crate::tables::DataTables;
use crate::text::{digits, u64_to_hex_prefixed};

verus! {

/// Whether two strings hold the same text.
pub fn str_eq(a: &str, b: &str) -> (r: bool)
    ensures
        r == (a@ == b@),
{
    let n = a.unicode_len();
    if n != b.unicode_len() {
        return false;
    }
    let mut i: usize = 0;
    while i < n
        invariant
            n == a@.len(),
            n == b@.len(),
            i <= n,
            forall|k: int| 0 <= k < i ==> a@[k] == b@[k],
        decreases n - i,
    {
        if a.get_char(i) != b.get_char(i) {
            return false;
        }
        i = i + 1;
    }
    assert(a@ =~= b@);
    true
}

/// The class names by class id.
pub open spec fn class_label(class_id: Option<u32>) -> Seq<char> {
    match class_id {
        Some(1) => "Stormblade"@,
        Some(2) => "Frost Mage"@,
        Some(3) => "Twin Striker"@,
        Some(4) => "Wind Knight"@,
        Some(5) => "Verdant Oracle"@,
        Some(8) => "Thunder Cannon"@,
        Some(9) => "Heavy Guardian"@,
        Some(10) => "Dark Spirit"@,
        Some(11) => "Marksman"@,
        Some(12) => "Shield Knight"@,
        Some(13) => "Beat Performer"@,
        _ => "Unknown"@,
    }
}

pub fn class_name(class_id: Option<u32>) -> (r: &'static str)
    ensures
        r@ == class_label(class_id),
{
    match class_id {
        Some(1) => "Stormblade",
        Some(2) => "Frost Mage",
        Some(3) => "Twin Striker",
        Some(4) => "Wind Knight",
        Some(5) => "Verdant Oracle",
        Some(8) => "Thunder Cannon",
        Some(9) => "Heavy Guardian",
        Some(10) => "Dark Spirit",
        Some(11) => "Marksman",
        Some(12) => "Shield Knight",
        Some(13) => "Beat Performer",
        _ => "Unknown",
    }
}

/// Monster tiers by monster type.
pub open spec fn monster_type_label(monster_type: Option<i32>) -> Seq<char> {
    match monster_type {
        Some(0) => "Monster"@,
        Some(1) => "Elite Monster"@,
        Some(2) => "Boss Monster"@,
        _ => "Unknown"@,
    }
}

pub fn monster_type_name(monster_type: Option<i32>) -> (r: &'static str)
    ensures
        r@ == monster_type_label(monster_type),
{
    match monster_type {
        Some(0) => "Monster",
        Some(1) => "Elite Monster",
        Some(2) => "Boss Monster",
        _ => "Unknown",
    }
}

/// The specialisation a signature skill reveals.
pub open spec fn spec_of_skill(skill_id: u32) -> Option<Seq<char>> {
    if skill_id == 1714 || skill_id == 1734 { Some("Iaido"@) }
    else if skill_id == 1715 || skill_id == 1740 || skill_id == 1741 || skill_id == 179906 { Some("Moonstrike"@) }
    else if skill_id == 120901 || skill_id == 120902 { Some("Icicle"@) }
    else if skill_id == 1241 { Some("Frostbeam"@) }
    else if skill_id == 35107 || skill_id == 35108 || skill_id == 35109 || skill_id == 160102 { Some("Formless"@) }
    else if skill_id == 1606 || skill_id == 1621 || skill_id == 1622 || skill_id == 1623 { Some("Crimson"@) }
    else if skill_id == 1405 || skill_id == 1418 { Some("Vanguard"@) }
    else if skill_id == 1419 { Some("Skyward"@) }
    else if skill_id == 1518 || skill_id == 1541 || skill_id == 21402 { Some("Smite"@) }
    else if skill_id == 20301 { Some("Lifebind"@) }
    else if skill_id == 199902 { Some("Earthfort"@) }
    else if skill_id == 1930 || skill_id == 1931 || skill_id == 1934 || skill_id == 1935 { Some("Block"@) }
    else if skill_id == 2292 || skill_id == 1700820 || skill_id == 1700825 || skill_id == 1700827 { Some("Wildpack"@) }
    else if skill_id == 220112 || skill_id == 2203622 || skill_id == 220106 { Some("Falconry"@) }
    else if skill_id == 2405 { Some("Recovery"@) }
    else if skill_id == 2406 { Some("Shield"@) }
    else if skill_id == 2321 || skill_id == 2335 { Some("Dissonance"@) }
    else if skill_id == 2301 || skill_id == 2336 || skill_id == 2361 || skill_id == 55302 { Some("Concerto"@) }
    else { None }
}

pub fn skill_spec(skill_id: u32) -> (r: Option<&'static str>)
    ensures
        match r { Some(s) => spec_of_skill(skill_id) == Some(s@), None => spec_of_skill(skill_id) is None },
{
    match skill_id {
        1714 | 1734 => Some("Iaido"),
        1715 | 1740 | 1741 | 179906 => Some("Moonstrike"),
        120901 | 120902 => Some("Icicle"),
        1241 => Some("Frostbeam"),
        35107 | 35108 | 35109 | 160102 => Some("Formless"),
        1606 | 1621 | 1622 | 1623 => Some("Crimson"),
        1405 | 1418 => Some("Vanguard"),
        1419 => Some("Skyward"),
        1518 | 1541 | 21402 => Some("Smite"),
        20301 => Some("Lifebind"),
        199902 => Some("Earthfort"),
        1930 | 1931 | 1934 | 1935 => Some("Block"),
        2292 | 1700820 | 1700825 | 1700827 => Some("Wildpack"),
        220112 | 2203622 | 220106 => Some("Falconry"),
        2405 => Some("Recovery"),
        2406 => Some("Shield"),
        2321 | 2335 => Some("Dissonance"),
        2301 | 2336 | 2361 | 55302 => Some("Concerto"),
        _ => None,
    }
}

/// The class a specialisation belongs to.
pub open spec fn class_of_spec(spec: Seq<char>) -> Option<u32> {
    if spec == "Iaido"@ || spec == "Moonstrike"@ { Some(1) }
    else if spec == "Icicle"@ || spec == "Frostbeam"@ { Some(2) }
    else if spec == "Formless"@ || spec == "Crimson"@ { Some(3) }
    else if spec == "Vanguard"@ || spec == "Skyward"@ { Some(4) }
    else if spec == "Smite"@ || spec == "Lifebind"@ { Some(5) }
    else if spec == "Earthfort"@ || spec == "Block"@ { Some(9) }
    else if spec == "Wildpack"@ || spec == "Falconry"@ { Some(11) }
    else if spec == "Recovery"@ || spec == "Shield"@ { Some(12) }
    else if spec == "Dissonance"@ || spec == "Concerto"@ { Some(13) }
    else { None }
}

/// Every specialisation a skill reveals belongs to a class with a name.
pub proof fn lemma_skill_spec_has_class(skill_id: u32)
    ensures
        spec_of_skill(skill_id) matches Some(sp) ==> class_of_spec(sp) is Some
            && class_label(class_of_spec(sp)) != "Unknown"@,
{
    reveal_strlit("Unknown");
    reveal_strlit("Stormblade");
    reveal_strlit("Frost Mage");
    reveal_strlit("Twin Striker");
    reveal_strlit("Wind Knight");
    reveal_strlit("Verdant Oracle");
    reveal_strlit("Heavy Guardian");
    reveal_strlit("Marksman");
    reveal_strlit("Shield Knight");
    reveal_strlit("Beat Performer");
    assert("Stormblade"@[0] != "Unknown"@[0]);
    assert("Frost Mage"@[0] != "Unknown"@[0]);
    assert(class_label(Some(1)) != "Unknown"@);
    assert(class_label(Some(2)) != "Unknown"@);
    assert(class_label(Some(3)) != "Unknown"@);
    assert(class_label(Some(4)) != "Unknown"@);
    assert(class_label(Some(5)) != "Unknown"@);
    assert(class_label(Some(9)) != "Unknown"@);
    assert(class_label(Some(11)) != "Unknown"@);
    assert(class_label(Some(12)) != "Unknown"@);
    assert(class_label(Some(13)) != "Unknown"@);
    match spec_of_skill(skill_id) {
        Some(sp) => {
            let c = class_of_spec(sp);
            assert(c is Some);
            let k = c->0;
            assert(k == 1 || k == 2 || k == 3 || k == 4 || k == 5 || k == 9 || k == 11 || k == 12 || k == 13);
        },
        None => {},
    }
}

pub fn spec_to_class_id(spec: &str) -> (r: Option<u32>)
    ensures
        r == class_of_spec(spec@),
{
    if str_eq(spec, "Iaido") || str_eq(spec, "Moonstrike") { Some(1) }
    else if str_eq(spec, "Icicle") || str_eq(spec, "Frostbeam") { Some(2) }
    else if str_eq(spec, "Formless") || str_eq(spec, "Crimson") { Some(3) }
    else if str_eq(spec, "Vanguard") || str_eq(spec, "Skyward") { Some(4) }
    else if str_eq(spec, "Smite") || str_eq(spec, "Lifebind") { Some(5) }
    else if str_eq(spec, "Earthfort") || str_eq(spec, "Block") { Some(9) }
    else if str_eq(spec, "Wildpack") || str_eq(spec, "Falconry") { Some(11) }
    else if str_eq(spec, "Recovery") || str_eq(spec, "Shield") { Some(12) }
    else if str_eq(spec, "Dissonance") || str_eq(spec, "Concerto") { Some(13) }
    else { None }
}

/// The chat tabs, each showing one channel or all of them.
#[derive(Clone, Copy, PartialEq, Eq, Debug, Structural)]
pub enum ChannelTab {
    All,
    World,
    Scene,
    Team,
    Union,
    Private,
    Group,
}

impl ChannelTab {
    pub open spec fn label_text(self) -> Seq<char> {
        match self {
            ChannelTab::All => "All"@,
            ChannelTab::World => "World"@,
            ChannelTab::Scene => "Scene"@,
            ChannelTab::Team => "Team"@,
            ChannelTab::Union => "Union"@,
            ChannelTab::Private => "Private"@,
            ChannelTab::Group => "Group"@,
        }
    }

    pub fn label(self) -> (r: &'static str)
        ensures
            r@ == self.label_text(),
    {
        match self {
            ChannelTab::All => "All",
            ChannelTab::World => "World",
            ChannelTab::Scene => "Scene",
            ChannelTab::Team => "Team",
            ChannelTab::Union => "Union",
            ChannelTab::Private => "Private",
            ChannelTab::Group => "Group",
        }
    }

    /// Whether a message of the channel shows under this tab: under `All`
    /// every message does, under a channel's tab only that channel's.
    pub open spec fn shows(self, ch: ChatChannel) -> bool {
        match self {
            ChannelTab::All => true,
            ChannelTab::World => ch == ChatChannel::World,
            ChannelTab::Scene => ch == ChatChannel::Scene,
            ChannelTab::Team => ch == ChatChannel::Team,
            ChannelTab::Union => ch == ChatChannel::Union,
            ChannelTab::Private => ch == ChatChannel::Private,
            ChannelTab::Group => ch == ChatChannel::Group,
        }
    }

    pub fn matches(self, ch: &ChatChannel) -> (r: bool)
        ensures
            r == self.shows(*ch),
    {
        match self {
            ChannelTab::All => true,
            ChannelTab::World => matches!(ch, ChatChannel::World),
            ChannelTab::Scene => matches!(ch, ChatChannel::Scene),
            ChannelTab::Team => matches!(ch, ChatChannel::Team),
            ChannelTab::Union => matches!(ch, ChatChannel::Union),
            ChannelTab::Private => matches!(ch, ChatChannel::Private),
            ChannelTab::Group => matches!(ch, ChatChannel::Group),
        }
    }
}

/// The tabs of the module optimizer.
#[derive(Clone, Copy, PartialEq, Eq, Debug, Structural)]
pub enum OptimizerTab {
    Optimizer,
    Inventory,
    Settings,
}

impl OptimizerTab {
    pub fn label(self) -> (r: &'static str)
        ensures
            r@ == match self {
                OptimizerTab::Optimizer => "Optimizer"@,
                OptimizerTab::Inventory => "Module Inventory"@,
                OptimizerTab::Settings => "Settings"@,
            },
    {
        match self {
            OptimizerTab::Optimizer => "Optimizer",
            OptimizerTab::Inventory => "Module Inventory",
            OptimizerTab::Settings => "Settings",
        }
    }
}

/// A world boss's state as the timer service reports it.
#[derive(Clone, Copy, PartialEq, Eq, Debug, Structural)]
pub enum BossStatus {
    Alive,
    Dead,
    Unknown,
}

impl BossStatus {
    /// `alive` and `dead` are known; anything else is unknown.
    pub fn from_str(s: &str) -> (r: BossStatus)
        ensures
            r == (if s@ == "alive"@ {
                BossStatus::Alive
            } else if s@ == "dead"@ {
                BossStatus::Dead
            } else {
                BossStatus::Unknown
            }),
    {
        if str_eq(s, "alive") {
            BossStatus::Alive
        } else if str_eq(s, "dead") {
            BossStatus::Dead
        } else {
            BossStatus::Unknown
        }
    }

    pub fn label(&self) -> (r: &'static str)
        ensures
            r@ == match *self {
                BossStatus::Alive => "Alive"@,
                BossStatus::Dead => "Dead"@,
                BossStatus::Unknown => "?"@,
            },
    {
        match self {
            BossStatus::Alive => "Alive",
            BossStatus::Dead => "Dead",
            BossStatus::Unknown => "?",
        }
    }
}

/// A world boss as the timer service lists it.
pub struct BossEntry {
    pub id: String,
    pub name: String,
    pub region: String,
    pub status: BossStatus,
    pub last_death_ts: Option<i64>,
    pub respawn_secs: u64,
}

/// A player uid in hexadecimal, or `?` when unknown (0).
pub fn format_uid(uid: u64) -> (r: String)
    ensures
        r@ == (if uid == 0 { "?"@ } else { seq!['0', 'x'] + digits(uid as nat, 16) }),
{
    if uid == 0 {
        String::from_str("?")
    } else {
        u64_to_hex_prefixed(uid)
    }
}

/// `name` cut to at most `max_chars` characters: where it is longer, its
/// first `max_chars - 1` characters and an ellipsis (nothing at all for a
/// width of 0).
pub open spec fn truncated(name: Seq<char>, max_chars: nat) -> Seq<char> {
    if name.len() <= max_chars {
        name
    } else if max_chars == 0 {
        Seq::empty()
    } else {
        name.take(max_chars - 1).push('\u{2026}')
    }
}

pub fn truncate_name(name: &str, max_chars: usize) -> (r: String)
    ensures
        r@ == truncated(name@, max_chars as nat),
        r@.len() <= max_chars,
{
    let n = name.unicode_len();
    if n <= max_chars {
        String::from_str(name)
    } else if max_chars == 0 {
        String::new()
    } else {
        let keep = max_chars - 1;
        let mut s = String::from_str(name.substring_char(0, keep));
        s.append("\u{2026}");
        proof {
            reveal_strlit("\u{2026}");
            assert(name@.subrange(0, keep as int) =~= name@.take(keep as int));
        }
        s
    }
}

/// The quality of an equipped item; none for an empty slot (item 0).
pub fn quality_of(tables: &DataTables, item_id: i32) -> (r: Option<i32>)
    ensures
        r == (if item_id == 0 {
            None
        } else if tables.items@.contains_key(item_id as i64) {
            Some(tables.items@[item_id as i64].quality)
        } else {
            None
        }),
{
    if item_id == 0 {
        return None;
    }
    tables.item_quality(item_id)
}

} // verus!
