//! The fishing bot's decisions. The bot asks for what it needs to know (a
//! screen reading, the window's focus, a pause) and answers each reply with
//! the inputs to send and its next request; the caller does the outside
//! work and feeds the results back.

use vstd::prelude::*;
use crate::fishing::{BaitPosition, FishingState};

verus! {

/// The movement keys the bot holds to steer the bait.
#[derive(Clone, Copy, PartialEq, Eq, Debug, Structural)]
pub enum SteerKey {
    /// `a`, steering left.
    Left,
    /// `d`, steering right.
    Right,
}

impl SteerKey {
    pub open spec fn name_text(self) -> Seq<char> {
        match self { SteerKey::Left => seq!['a'], SteerKey::Right => seq!['d'] }
    }

    /// The key's name for the input tool.
    pub fn name(self) -> (r: &'static str)
        ensures
            r@ == self.name_text(),
    {
        match self {
            SteerKey::Left => { proof { reveal_strlit("a"); } "a" },
            SteerKey::Right => { proof { reveal_strlit("d"); } "d" },
        }
    }
}

/// What the bot needs read from the screen or the window system.
#[derive(Clone, Copy, PartialEq, Eq, Debug, Structural)]
pub enum Probe {
    /// Whether the game window has the focus.
    Focus,
    /// Where the game window is.
    Window,
    /// Whether the "continue fishing" button shows.
    FishCaught,
    /// Whether the fishing-mode indicator shows.
    FishingMode,
    /// Whether the rod panel shows.
    FishingRod,
    /// Whether a fish bites.
    Bite,
    /// One screenshot during reeling, read for tension, the catch screen,
    /// the tension bar and the bait.
    Frame,
}

/// What the bot asks the caller to do.
#[derive(Clone, PartialEq, Eq, Debug)]
pub enum BotAction {
    /// Press and release a configured key.
    PressKey(String),
    SteerDown(SteerKey),
    SteerUp(SteerKey),
    ClickLeft,
    MouseDown,
    MouseUp,
    ClickAt(i32, i32),
    /// Show this tension percentage.
    ShowTension(u32),
    /// Wait this many microseconds, then answer `Slept`.
    Sleep(u64),
    /// Read this and answer with the reading.
    Ask(Probe),
}

/// The caller's reply to the bot's last request.
#[derive(Clone, Copy, PartialEq, Eq, Debug, Structural)]
pub enum BotAnswer {
    Slept,
    Focused(bool),
    /// The game window's origin, where it was found.
    Window(Option<WindowOrigin>),
    /// A yes-or-no reading; `None` where the reading failed.
    Seen(Option<bool>),
    /// A reeling screenshot: the tension in whole percent (rounded down),
    /// whether the catch screen shows, whether the tension bar shows, and
    /// where the bait is.
    Frame { tension_floor: u32, caught: bool, bar_visible: bool, bait: BaitPosition },
    /// The screenshot could not be taken.
    FrameFailed,
}

/// The top-left corner of the game window on the screen.
#[derive(Clone, Copy, PartialEq, Eq, Debug, Structural)]
pub struct WindowOrigin {
    pub x: i32,
    pub y: i32,
}

/// What the bot is waiting for.
#[derive(Clone, Copy, PartialEq, Eq, Debug, Structural)]
pub enum Wait {
    /// A pause before the next round.
    NextRound,
    /// The focus reading at the start of a round.
    FocusAtRound,
    /// The window position while checking the state.
    CheckWindow,
    /// The pause after reading the window position.
    CheckPause,
    /// The catch screen reading while checking the state.
    CheckCaught,
    /// The fishing-mode reading while checking the state.
    CheckMode,
    /// The rod reading while checking the state.
    CheckRod,
    /// A pause while waiting for fishing mode to show.
    EnterPause,
    /// The fishing-mode reading while entering it.
    EnterMode,
    /// The rod reading once fishing mode shows.
    EnterRod,
    /// The pauses of selecting the rod, in order.
    SelectOpen,
    SelectUse,
    SelectClose,
    /// A pause while the line goes out.
    CastPause,
    /// The rod reading while the line goes out.
    CastRod,
    /// The fishing-mode reading after no bite came.
    BiteTimeoutMode,
    /// The bite reading.
    BiteCheck,
    /// The pause after a reel ended, before the catch screen reading.
    ReelEndPause,
    /// The catch screen reading after a reel ended.
    ReelEndCaught,
    /// A reeling screenshot.
    ReelFrame,
    /// The pause before clicking "continue fishing".
    CaughtPause,
}

/// The bot's settings: keys, timings in milliseconds, and screen regions
/// relative to the game window.
pub struct BotConfig {
    pub fishing_key: String,
    pub rod_slot_key: String,
    pub cast_delay_ms: u64,
    pub bite_timeout_ms: u64,
    pub reel_timeout_ms: u64,
    pub cooldown_ms: u64,
    pub rod_use_region: [i32; 4],
    pub fish_caught_region: [i32; 4],
}

/// Half of a width, rounded toward zero.
pub open spec fn half_width(w: i32) -> i32 {
    if w >= 0 { (w / 2) as i32 } else { (-((-(w as int)) / 2)) as i32 }
}

/// The middle of a region placed at `origin`, in wrapping 32-bit arithmetic.
pub open spec fn region_center(origin: (i32, i32), r: [i32; 4]) -> (i32, i32) {
    (
        r[0].wrapping_add(origin.0).wrapping_add(half_width(r[2])),
        r[1].wrapping_add(origin.1).wrapping_add(half_width(r[3])),
    )
}

/// `now + ms` milliseconds, on the microsecond clock (saturating).
pub open spec fn after_ms(now_us: u64, ms: u64) -> u64 {
    if now_us + ms * 1000 <= u64::MAX { (now_us + ms * 1000) as u64 } else { u64::MAX }
}

/// Microseconds from `since` to `now` (0 if the clock went back).
pub open spec fn elapsed_us(since: u64, now_us: u64) -> u64 {
    if now_us >= since { (now_us - since) as u64 } else { 0 }
}

/// Whether the left button is held after a run of actions.
pub open spec fn button_after(held: bool, acts: Seq<BotAction>) -> bool
    decreases acts.len(),
{
    if acts.len() == 0 {
        held
    } else {
        let h = button_after(held, acts.drop_last());
        match acts.last() {
            BotAction::MouseDown => true,
            BotAction::MouseUp => false,
            _ => h,
        }
    }
}

/// Which steering key is held after a run of actions.
pub open spec fn steer_after(held: Option<SteerKey>, acts: Seq<BotAction>) -> Option<SteerKey>
    decreases acts.len(),
{
    if acts.len() == 0 {
        held
    } else {
        let h = steer_after(held, acts.drop_last());
        match acts.last() {
            BotAction::SteerDown(k) => Some(k),
            BotAction::SteerUp(k) => if h == Some(k) { None } else { h },
            _ => h,
        }
    }
}

/// The steering for a bait position: left and right hold their key, the
/// centre holds nothing new.
pub open spec fn wanted_key(bait: BaitPosition) -> Option<SteerKey> {
    match bait {
        BaitPosition::Left => Some(SteerKey::Left),
        BaitPosition::Right => Some(SteerKey::Right),
        BaitPosition::Center => None,
    }
}

/// The steering actions for a wanted key: the held key is pressed again
/// (the compositor forgets held keys), or swapped for the wanted one.
pub open spec fn steer_actions(held: Option<SteerKey>, want: Option<SteerKey>) -> Seq<BotAction> {
    match (held, want) {
        (Some(cur), Some(w)) => if cur == w {
            seq![BotAction::SteerDown(cur)]
        } else {
            seq![BotAction::SteerUp(cur), BotAction::SteerDown(w)]
        },
        (Some(cur), None) => seq![BotAction::SteerDown(cur)],
        (None, Some(w)) => seq![BotAction::SteerDown(w)],
        (None, None) => seq![],
    }
}

/// The bot: its state, what it waits for, what it holds, and its counts.
pub struct FishingBot {
    pub config: BotConfig,
    pub origin: WindowOrigin,
    pub state: FishingState,
    pub wait: Wait,
    /// When a polling wait gives up (entering fishing mode, casting).
    pub deadline_us: u64,
    /// How long the current reel had lasted at its last screenshot.
    pub reel_elapsed_us: u64,
    pub focus_tick: u32,
    pub paused: bool,
    pub lmb_held: bool,
    pub held_steer: Option<SteerKey>,
    pub bar_absent_streak: u32,
    /// Set while the tension cools down from 80% to below 50%.
    pub tension_cooldown: bool,
    pub fish_count: u32,
    pub failed_count: u32,
}

/// What the bot's actions end with: a pause or a question.
pub open spec fn ends_with_request(acts: Seq<BotAction>) -> bool {
    acts.len() > 0 && (acts.last() is Sleep || acts.last() is Ask)
}

/// An action as contracts read it.
pub ghost enum ActView {
    PressKey(Seq<char>),
    SteerDown(SteerKey),
    SteerUp(SteerKey),
    ClickLeft,
    MouseDown,
    MouseUp,
    ClickAt(i32, i32),
    ShowTension(u32),
    Sleep(u64),
    Ask(Probe),
}

pub open spec fn act_view(a: BotAction) -> ActView {
    match a {
        BotAction::PressKey(k) => ActView::PressKey(k@),
        BotAction::SteerDown(k) => ActView::SteerDown(k),
        BotAction::SteerUp(k) => ActView::SteerUp(k),
        BotAction::ClickLeft => ActView::ClickLeft,
        BotAction::MouseDown => ActView::MouseDown,
        BotAction::MouseUp => ActView::MouseUp,
        BotAction::ClickAt(x, y) => ActView::ClickAt(x, y),
        BotAction::ShowTension(p) => ActView::ShowTension(p),
        BotAction::Sleep(us) => ActView::Sleep(us),
        BotAction::Ask(p) => ActView::Ask(p),
    }
}

pub open spec fn acts_view(s: Seq<BotAction>) -> Seq<ActView> {
    s.map_values(|a: BotAction| act_view(a))
}

/// The bot part way through a step, with the actions sent so far.
pub ghost struct Turn {
    pub bot: FishingBot,
    pub acts: Seq<ActView>,
}

pub open spec fn sent(t: Turn, a: ActView) -> Turn {
    Turn { acts: t.acts.push(a), ..t }
}

pub open spec fn waiting(t: Turn, w: Wait) -> Turn {
    Turn { bot: FishingBot { wait: w, ..t.bot }, ..t }
}

pub open spec fn in_state(t: Turn, s: FishingState) -> Turn {
    Turn { bot: FishingBot { state: s, ..t.bot }, ..t }
}

/// Ends the step with a pause of `us`, after which a new round starts.
pub open spec fn next_round(t: Turn, us: u64) -> Turn {
    waiting(sent(t, ActView::Sleep(us)), Wait::NextRound)
}

/// Ends the step with a question, whose answer `w` awaits.
pub open spec fn asking(t: Turn, p: Probe, w: Wait) -> Turn {
    waiting(sent(t, ActView::Ask(p)), w)
}

/// Ends the step with a pause of `us`, after which `w` goes on.
pub open spec fn pausing(t: Turn, us: u64, w: Wait) -> Turn {
    waiting(sent(t, ActView::Sleep(us)), w)
}

/// Lets go of the held steering key, then of the button.
pub open spec fn released(t: Turn) -> Turn {
    let t1 = match t.bot.held_steer {
        Some(k) => Turn { bot: FishingBot { held_steer: None, ..t.bot }, acts: t.acts.push(ActView::SteerUp(k)) },
        None => t,
    };
    if t1.bot.lmb_held {
        Turn { bot: FishingBot { lmb_held: false, ..t1.bot }, acts: t1.acts.push(ActView::MouseUp) }
    } else {
        t1
    }
}

/// Everything let go, the tension cooldown off and the tension shown as 0.
pub open spec fn reel_stopped(t: Turn) -> Turn {
    let r = released(t);
    sent(Turn { bot: FishingBot { tension_cooldown: false, ..r.bot }, ..r }, ActView::ShowTension(0))
}

/// A reel ends: the catch screen is read after a pause.
pub open spec fn reel_ended(t: Turn) -> Turn {
    pausing(reel_stopped(t), 300_000, Wait::ReelEndPause)
}

/// The round's work for the current state, after the focus check.
pub open spec fn state_work(t: Turn, now_us: u64) -> Turn {
    let b = t.bot;
    match b.state {
        FishingState::CheckingState => asking(t, Probe::Window, Wait::CheckWindow),
        FishingState::EnteringFishingMode => pausing(
            Turn { bot: FishingBot { deadline_us: after_ms(now_us, 10_000), ..b }, acts: t.acts.push(ActView::PressKey(b.config.fishing_key@)) },
            300_000, Wait::EnterPause),
        FishingState::SelectingRod => pausing(sent(t, ActView::PressKey(b.config.rod_slot_key@)), 800_000, Wait::SelectOpen),
        FishingState::Idle => next_round(in_state(sent(t, ActView::ClickLeft), FishingState::Casting), 0),
        FishingState::Casting => pausing(
            Turn { bot: FishingBot { deadline_us: after_ms(now_us, b.config.cast_delay_ms), ..b }, ..t }, 100_000, Wait::CastPause),
        FishingState::WaitingBite { cast_at_us } => if elapsed_us(cast_at_us, now_us) > after_ms(0, b.config.bite_timeout_ms) {
            asking(t, Probe::FishingMode, Wait::BiteTimeoutMode)
        } else {
            asking(t, Probe::Bite, Wait::BiteCheck)
        },
        FishingState::Reeling { started_at_us } => {
            let e = elapsed_us(started_at_us, now_us);
            if e > after_ms(0, b.config.reel_timeout_ms) {
                reel_ended(t)
            } else {
                asking(Turn { bot: FishingBot { reel_elapsed_us: e, ..b }, ..t }, Probe::Frame, Wait::ReelFrame)
            }
        },
        FishingState::FishCaught => pausing(
            Turn { bot: FishingBot { fish_count: b.fish_count.wrapping_add(1), ..b }, ..t }, 500_000, Wait::CaughtPause),
        FishingState::Cooldown { until_us } => {
            let remaining: u64 = if until_us > now_us { (until_us - now_us) as u64 } else { 0 };
            if remaining == 0 {
                next_round(in_state(t, FishingState::CheckingState), 0)
            } else {
                next_round(t, if remaining < 50_000 { remaining } else { 50_000 })
            }
        },
    }
}

/// After the focus check: a paused bot lets go of everything and waits.
pub open spec fn focus_done(t: Turn, now_us: u64) -> Turn {
    if t.bot.paused { next_round(released(t), 200_000) } else { state_work(t, now_us) }
}

/// A new round: every fifth reads the focus first.
pub open spec fn round(t: Turn, now_us: u64) -> Turn {
    let tick: u32 = if t.bot.focus_tick < u32::MAX { (t.bot.focus_tick + 1) as u32 } else { u32::MAX };
    if tick >= 5 {
        asking(Turn { bot: FishingBot { focus_tick: 0, ..t.bot }, ..t }, Probe::Focus, Wait::FocusAtRound)
    } else {
        focus_done(Turn { bot: FishingBot { focus_tick: tick, ..t.bot }, ..t }, now_us)
    }
}

/// The steering key held after steering toward `want`.
pub open spec fn steered(held: Option<SteerKey>, want: Option<SteerKey>) -> Option<SteerKey> {
    match want {
        Some(w) => Some(w),
        None => held,
    }
}

/// The tension gate of a reeling screenshot: the button is let go at 80%
/// tension, and the cooldown ends below 50%.
pub open spec fn gate(t: Turn, tension_floor: u32) -> Turn {
    let b = t.bot;
    if tension_floor >= 80 {
        if b.lmb_held {
            Turn { bot: FishingBot { lmb_held: false, tension_cooldown: true, ..b }, acts: t.acts.push(ActView::MouseUp) }
        } else {
            t
        }
    } else if b.tension_cooldown && tension_floor < 50 {
        Turn { bot: FishingBot { tension_cooldown: false, ..b }, ..t }
    } else {
        t
    }
}

/// Out of the cooldown the button is held (pressed again where it is).
pub open spec fn hold(t: Turn) -> Turn {
    if !t.bot.tension_cooldown {
        if !t.bot.lmb_held {
            Turn {
                bot: FishingBot { lmb_held: true, held_steer: None, bar_absent_streak: 0, ..t.bot },
                acts: t.acts.push(ActView::MouseDown),
            }
        } else {
            sent(t, ActView::MouseDown)
        }
    } else {
        t
    }
}

/// The tension bar's absence count after a screenshot: counted only after
/// two seconds of reeling.
pub open spec fn streak_after(t: Turn, bar_visible: bool) -> Turn {
    let e = t.bot.reel_elapsed_us;
    let streak: u32 = if e > 2_000_000 {
        if !bar_visible {
            if t.bot.bar_absent_streak < u32::MAX { (t.bot.bar_absent_streak + 1) as u32 } else { u32::MAX }
        } else {
            0
        }
    } else {
        0
    };
    Turn { bot: FishingBot { bar_absent_streak: streak, ..t.bot }, ..t }
}

/// The rest of a reeling screenshot: the reel ends on the catch screen
/// (after a second) or when the tension bar stays gone ten times (after
/// two seconds); a paused bot lets go; else it steers toward the bait.
pub open spec fn frame_tail(t2: Turn, caught: bool, bar_visible: bool, bait: BaitPosition) -> Turn {
    let e = t2.bot.reel_elapsed_us;
    if e > 1_000_000 && caught {
        next_round(in_state(reel_stopped(t2), FishingState::FishCaught), 0)
    } else {
        let t3 = streak_after(t2, bar_visible);
        if e > 2_000_000 && t3.bot.bar_absent_streak >= 10 {
            reel_ended(t3)
        } else if t3.bot.paused {
            let r = released(t3);
            next_round(Turn { bot: FishingBot { tension_cooldown: false, ..r.bot }, ..r }, 0)
        } else {
            let want = wanted_key(bait);
            next_round(Turn {
                bot: FishingBot { held_steer: steered(t3.bot.held_steer, want), ..t3.bot },
                acts: t3.acts + acts_view(steer_actions(t3.bot.held_steer, want)),
            }, 50_000)
        }
    }
}

/// One reeling screenshot.
pub open spec fn frame_seen(t: Turn, tension_floor: u32, caught: bool, bar_visible: bool, bait: BaitPosition) -> Turn {
    frame_tail(hold(gate(t, tension_floor)), caught, bar_visible, bait)
}

/// What the bot does with an answer at `now_us`.
pub open spec fn step_spec(b: FishingBot, answer: BotAnswer, now_us: u64) -> Turn {
    let t = Turn { bot: b, acts: Seq::empty() };
    let origin = (b.origin.x, b.origin.y);
    match (b.wait, answer) {
        (Wait::NextRound, BotAnswer::Slept) => round(t, now_us),
        (Wait::FocusAtRound, BotAnswer::Focused(f)) => focus_done(Turn { bot: FishingBot { paused: !f, ..b }, ..t }, now_us),
        (Wait::CheckWindow, BotAnswer::Window(found)) => pausing(
            Turn { bot: FishingBot { origin: match found { Some(o) => o, None => b.origin }, ..b }, ..t }, 300_000, Wait::CheckPause),
        (Wait::CheckPause, BotAnswer::Slept) => asking(t, Probe::FishCaught, Wait::CheckCaught),
        (Wait::CheckCaught, BotAnswer::Seen(c)) => if c == Some(true) {
            let (x, y) = region_center(origin, b.config.fish_caught_region);
            next_round(in_state(sent(t, ActView::ClickAt(x, y)), FishingState::Cooldown { until_us: after_ms(now_us, 2_000) }), 0)
        } else {
            asking(t, Probe::FishingMode, Wait::CheckMode)
        },
        (Wait::CheckMode, BotAnswer::Seen(m)) => if m != Some(true) {
            next_round(in_state(t, FishingState::EnteringFishingMode), 0)
        } else {
            asking(t, Probe::FishingRod, Wait::CheckRod)
        },
        (Wait::CheckRod, BotAnswer::Seen(r)) =>
            next_round(in_state(t, if r == Some(true) { FishingState::SelectingRod } else { FishingState::Idle }), 0),
        (Wait::EnterPause, BotAnswer::Slept) => asking(t, Probe::FishingMode, Wait::EnterMode),
        (Wait::EnterMode, BotAnswer::Seen(m)) => if m == Some(true) {
            asking(t, Probe::FishingRod, Wait::EnterRod)
        } else if now_us >= b.deadline_us {
            next_round(in_state(t, FishingState::CheckingState), 0)
        } else {
            pausing(t, 300_000, Wait::EnterPause)
        },
        (Wait::EnterRod, BotAnswer::Seen(r)) =>
            next_round(in_state(t, if r == Some(true) { FishingState::SelectingRod } else { FishingState::Idle }), 0),
        (Wait::SelectOpen, BotAnswer::Slept) => {
            let (x, y) = region_center(origin, b.config.rod_use_region);
            pausing(sent(t, ActView::ClickAt(x, y)), 500_000, Wait::SelectUse)
        },
        (Wait::SelectUse, BotAnswer::Slept) => pausing(sent(t, ActView::PressKey(b.config.rod_slot_key@)), 1_000_000, Wait::SelectClose),
        (Wait::SelectClose, BotAnswer::Slept) => next_round(in_state(t, FishingState::Idle), 0),
        (Wait::CastPause, BotAnswer::Slept) => asking(t, Probe::FishingRod, Wait::CastRod),
        (Wait::CastRod, BotAnswer::Seen(r)) => if r == Some(false) || now_us >= b.deadline_us {
            next_round(in_state(t, FishingState::WaitingBite { cast_at_us: now_us }), 0)
        } else {
            pausing(t, 100_000, Wait::CastPause)
        },
        (Wait::BiteTimeoutMode, BotAnswer::Seen(m)) =>
            next_round(in_state(t, if m == Some(false) { FishingState::CheckingState } else { FishingState::Idle }), 0),
        (Wait::BiteCheck, BotAnswer::Seen(x)) => if x == Some(true) {
            next_round(in_state(sent(t, ActView::ClickLeft), FishingState::Reeling { started_at_us: now_us }), 0)
        } else {
            next_round(t, 50_000)
        },
        (Wait::ReelEndPause, BotAnswer::Slept) => asking(t, Probe::FishCaught, Wait::ReelEndCaught),
        (Wait::ReelEndCaught, BotAnswer::Seen(c)) => if c == Some(true) {
            next_round(in_state(t, FishingState::FishCaught), 0)
        } else {
            next_round(in_state(Turn { bot: FishingBot { failed_count: b.failed_count.wrapping_add(1), ..b }, ..t },
                FishingState::Cooldown { until_us: after_ms(now_us, b.config.cooldown_ms) }), 0)
        },
        (Wait::ReelFrame, BotAnswer::FrameFailed) => next_round(t, 50_000),
        (Wait::ReelFrame, BotAnswer::Frame { tension_floor, caught, bar_visible, bait }) =>
            frame_seen(t, tension_floor, caught, bar_visible, bait),
        (Wait::CaughtPause, BotAnswer::Slept) => {
            let (x, y) = region_center(origin, b.config.fish_caught_region);
            next_round(in_state(sent(t, ActView::ClickAt(x, y)), FishingState::Cooldown { until_us: after_ms(now_us, b.config.cooldown_ms) }), 0)
        },
        _ => next_round(t, 0),
    }
}

/// The bot and the actions sent so far.
pub open spec fn turn_of(b: FishingBot, acts: Seq<BotAction>) -> Turn {
    Turn { bot: b, acts: acts_view(acts) }
}

proof fn lemma_view_push(v: Seq<BotAction>, a: BotAction)
    ensures
        acts_view(v.push(a)) == acts_view(v).push(act_view(a)),
{
    assert(acts_view(v.push(a)) =~= acts_view(v).push(act_view(a)));
}

/// Actions other than the button and steering keys leave both as they are.
proof fn lemma_push_other(b: bool, k: Option<SteerKey>, acts: Seq<BotAction>, a: BotAction)
    requires
        !(a is MouseDown) && !(a is MouseUp) && !(a is SteerDown) && !(a is SteerUp),
    ensures
        button_after(b, acts.push(a)) == button_after(b, acts),
        steer_after(k, acts.push(a)) == steer_after(k, acts),
{
    assert(acts.push(a).drop_last() =~= acts);
}

proof fn lemma_push(b: bool, k: Option<SteerKey>, acts: Seq<BotAction>, a: BotAction)
    ensures
        button_after(b, acts.push(a)) == match a {
            BotAction::MouseDown => true,
            BotAction::MouseUp => false,
            _ => button_after(b, acts),
        },
        steer_after(k, acts.push(a)) == match a {
            BotAction::SteerDown(x) => Some(x),
            BotAction::SteerUp(x) => if steer_after(k, acts) == Some(x) { None } else { steer_after(k, acts) },
            _ => steer_after(k, acts),
        },
{
    assert(acts.push(a).drop_last() =~= acts);
}

impl FishingBot {
    /// The button is held exactly when the actions sent since `b0` leave it
    /// held, and a steering key the bot believes held is held.
    pub open spec fn tracks(&self, b0: bool, k0: Option<SteerKey>, acts: Seq<BotAction>) -> bool {
        &&& button_after(b0, acts) == self.lmb_held
        &&& self.held_steer is Some ==> steer_after(k0, acts) == self.held_steer
    }

    /// A bot about to check the game's state, holding nothing, with no counts.
    pub fn new(config: BotConfig, origin: WindowOrigin) -> (r: FishingBot)
        ensures
            r.state == FishingState::CheckingState,
            r.wait == Wait::NextRound,
            !r.lmb_held,
            r.held_steer is None,
            !r.paused,
            r.fish_count == 0,
            r.failed_count == 0,
            r.origin == origin,
    {
        FishingBot {
            config,
            origin,
            state: FishingState::CheckingState,
            wait: Wait::NextRound,
            deadline_us: 0,
            reel_elapsed_us: 0,
            focus_tick: 0,
            paused: false,
            lmb_held: false,
            held_steer: None,
            bar_absent_streak: 0,
            tension_cooldown: false,
            fish_count: 0,
            failed_count: 0,
        }
    }

    fn push(&mut self, acts: &mut Vec<BotAction>, a: BotAction, Ghost(b0): Ghost<bool>, Ghost(k0): Ghost<Option<SteerKey>>)
        requires
            old(self).tracks(b0, k0, old(acts)@),
            !(a is MouseDown) && !(a is MouseUp) && !(a is SteerDown) && !(a is SteerUp),
        ensures
            turn_of(*final(self), final(acts)@) == sent(turn_of(*old(self), old(acts)@), act_view(a)),
            final(acts)@ == old(acts)@.push(a),
            *final(self) == *old(self),
            final(self).tracks(b0, k0, final(acts)@),
    {
        proof { lemma_push_other(b0, k0, acts@, a); lemma_view_push(acts@, a); }
        acts.push(a);
    }

    /// Lets go of the steering key and the button, where held.
    fn release_all(&mut self, acts: &mut Vec<BotAction>, Ghost(b0): Ghost<bool>, Ghost(k0): Ghost<Option<SteerKey>>)
        requires
            old(self).tracks(b0, k0, old(acts)@),
        ensures
            turn_of(*final(self), final(acts)@) == released(turn_of(*old(self), old(acts)@)),
            final(self).tracks(b0, k0, final(acts)@),
            !final(self).lmb_held,
            final(self).held_steer is None,
            old(self).held_steer is Some ==> steer_after(k0, final(acts)@) is None,
            final(self).state == old(self).state,
            final(self).wait == old(self).wait,
            final(self).fish_count == old(self).fish_count,
            final(self).failed_count == old(self).failed_count,
            final(self).config == old(self).config,
            final(self).origin == old(self).origin,
            final(self).paused == old(self).paused,
            final(self).deadline_us == old(self).deadline_us,
            final(self).reel_elapsed_us == old(self).reel_elapsed_us,
            final(self).tension_cooldown == old(self).tension_cooldown,
            final(self).bar_absent_streak == old(self).bar_absent_streak,
            final(self).focus_tick == old(self).focus_tick,
    {
        match self.held_steer {
            Some(k) => {
                proof { lemma_push(b0, k0, acts@, BotAction::SteerUp(k)); lemma_view_push(acts@, BotAction::SteerUp(k)); }
                acts.push(BotAction::SteerUp(k));
                self.held_steer = None;
            },
            None => {},
        }
        if self.lmb_held {
            proof { lemma_push(b0, k0, acts@, BotAction::MouseUp); lemma_view_push(acts@, BotAction::MouseUp); }
            acts.push(BotAction::MouseUp);
            self.lmb_held = false;
        }
    }

    /// Ends this step: wait `us` microseconds, then start a new round.
    fn pause_then_round(&mut self, acts: &mut Vec<BotAction>, us: u64, Ghost(b0): Ghost<bool>, Ghost(k0): Ghost<Option<SteerKey>>)
        requires
            old(self).tracks(b0, k0, old(acts)@),
        ensures
            turn_of(*final(self), final(acts)@) == next_round(turn_of(*old(self), old(acts)@), us),
            final(acts)@ == old(acts)@.push(BotAction::Sleep(us)),
            final(self).tracks(b0, k0, final(acts)@),
            *final(self) == (FishingBot { wait: Wait::NextRound, ..*old(self) }),
    {
        self.push(acts, BotAction::Sleep(us), Ghost(b0), Ghost(k0));
        self.wait = Wait::NextRound;
    }

    /// Ends this step with a question.
    fn ask(&mut self, acts: &mut Vec<BotAction>, p: Probe, w: Wait, Ghost(b0): Ghost<bool>, Ghost(k0): Ghost<Option<SteerKey>>)
        requires
            old(self).tracks(b0, k0, old(acts)@),
        ensures
            turn_of(*final(self), final(acts)@) == asking(turn_of(*old(self), old(acts)@), p, w),
            final(acts)@ == old(acts)@.push(BotAction::Ask(p)),
            final(self).tracks(b0, k0, final(acts)@),
            *final(self) == (FishingBot { wait: w, ..*old(self) }),
    {
        self.push(acts, BotAction::Ask(p), Ghost(b0), Ghost(k0));
        self.wait = w;
    }

    /// Ends this step with a pause, after which `w` goes on.
    fn pause(&mut self, acts: &mut Vec<BotAction>, us: u64, w: Wait, Ghost(b0): Ghost<bool>, Ghost(k0): Ghost<Option<SteerKey>>)
        requires
            old(self).tracks(b0, k0, old(acts)@),
        ensures
            turn_of(*final(self), final(acts)@) == pausing(turn_of(*old(self), old(acts)@), us, w),
            final(acts)@ == old(acts)@.push(BotAction::Sleep(us)),
            final(self).tracks(b0, k0, final(acts)@),
            *final(self) == (FishingBot { wait: w, ..*old(self) }),
    {
        self.push(acts, BotAction::Sleep(us), Ghost(b0), Ghost(k0));
        self.wait = w;
    }
}

/// The clock `ms` milliseconds after `now_us`.
fn later(now_us: u64, ms: u64) -> (r: u64)
    ensures
        r == after_ms(now_us, ms),
{
    if ms <= (u64::MAX - now_us) / 1000 {
        assert(ms * 1000 <= u64::MAX - now_us) by (nonlinear_arith)
            requires
                ms <= (u64::MAX - now_us) / 1000,
        ;
        now_us + ms * 1000
    } else {
        assert(now_us + ms * 1000 > u64::MAX) by (nonlinear_arith)
            requires
                ms > (u64::MAX - now_us) / 1000,
                now_us <= u64::MAX,
        ;
        u64::MAX
    }
}

fn since(t: u64, now_us: u64) -> (r: u64)
    ensures
        r == elapsed_us(t, now_us),
{
    if now_us >= t { now_us - t } else { 0 }
}

fn half(w: i32) -> (r: i32)
    ensures
        r == half_width(w),
{
    if w >= 0 { w / 2 } else { (-((-(w as i64)) / 2)) as i32 }
}

/// Where to click to hit the middle of a region placed at `origin`.
pub fn center_of(origin: WindowOrigin, r: [i32; 4]) -> (c: (i32, i32))
    ensures
        c == region_center((origin.x, origin.y), r),
{
    (r[0].wrapping_add(origin.x).wrapping_add(half(r[2])), r[1].wrapping_add(origin.y).wrapping_add(half(r[3])))
}

impl FishingBot {
    /// The round's work for the current state, after the focus check.
    fn run_state(&mut self, acts: &mut Vec<BotAction>, now_us: u64, Ghost(b0): Ghost<bool>, Ghost(k0): Ghost<Option<SteerKey>>)
        requires
            old(self).tracks(b0, k0, old(acts)@),
            !old(self).paused,
        ensures
            turn_of(*final(self), final(acts)@) == state_work(turn_of(*old(self), old(acts)@), now_us),
            final(self).tracks(b0, k0, final(acts)@),
            ends_with_request(final(acts)@),
            final(self).failed_count == old(self).failed_count,
            final(self).fish_count == old(self).fish_count
                || (old(self).state == FishingState::FishCaught && final(self).fish_count == old(self).fish_count.wrapping_add(1)),
    {
        match self.state {
            FishingState::CheckingState => {
                self.ask(acts, Probe::Window, Wait::CheckWindow, Ghost(b0), Ghost(k0));
            },
            FishingState::EnteringFishingMode => {
                let k = self.config.fishing_key.clone();
                self.push(acts, BotAction::PressKey(k), Ghost(b0), Ghost(k0));
                self.deadline_us = later(now_us, 10_000);
                self.pause(acts, 300_000, Wait::EnterPause, Ghost(b0), Ghost(k0));
            },
            FishingState::SelectingRod => {
                let k = self.config.rod_slot_key.clone();
                self.push(acts, BotAction::PressKey(k), Ghost(b0), Ghost(k0));
                self.pause(acts, 800_000, Wait::SelectOpen, Ghost(b0), Ghost(k0));
            },
            FishingState::Idle => {
                self.push(acts, BotAction::ClickLeft, Ghost(b0), Ghost(k0));
                self.state = FishingState::Casting;
                self.pause_then_round(acts, 0, Ghost(b0), Ghost(k0));
            },
            FishingState::Casting => {
                self.deadline_us = later(now_us, self.config.cast_delay_ms);
                self.pause(acts, 100_000, Wait::CastPause, Ghost(b0), Ghost(k0));
            },
            FishingState::WaitingBite { cast_at_us } => {
                let waited = since(cast_at_us, now_us);
                if waited > later(0, self.config.bite_timeout_ms) {
                    self.ask(acts, Probe::FishingMode, Wait::BiteTimeoutMode, Ghost(b0), Ghost(k0));
                } else {
                    self.ask(acts, Probe::Bite, Wait::BiteCheck, Ghost(b0), Ghost(k0));
                }
            },
            FishingState::Reeling { started_at_us } => {
                let elapsed = since(started_at_us, now_us);
                if elapsed > later(0, self.config.reel_timeout_ms) {
                    self.release_all(acts, Ghost(b0), Ghost(k0));
                    self.tension_cooldown = false;
                    self.push(acts, BotAction::ShowTension(0), Ghost(b0), Ghost(k0));
                    self.pause(acts, 300_000, Wait::ReelEndPause, Ghost(b0), Ghost(k0));
                } else {
                    self.reel_elapsed_us = elapsed;
                    self.ask(acts, Probe::Frame, Wait::ReelFrame, Ghost(b0), Ghost(k0));
                }
            },
            FishingState::FishCaught => {
                self.fish_count = self.fish_count.wrapping_add(1);
                self.pause(acts, 500_000, Wait::CaughtPause, Ghost(b0), Ghost(k0));
            },
            FishingState::Cooldown { until_us } => {
                let remaining = if until_us > now_us { until_us - now_us } else { 0 };
                if remaining == 0 {
                    self.state = FishingState::CheckingState;
                    self.pause_then_round(acts, 0, Ghost(b0), Ghost(k0));
                } else {
                    let nap = if remaining < 50_000 { remaining } else { 50_000 };
                    self.pause_then_round(acts, nap, Ghost(b0), Ghost(k0));
                }
            },
        }
    }

    /// A new round: every fifth round reads the focus first; a paused bot
    /// lets go of everything and waits.
    fn begin_round(&mut self, acts: &mut Vec<BotAction>, now_us: u64, Ghost(b0): Ghost<bool>, Ghost(k0): Ghost<Option<SteerKey>>)
        requires
            old(self).tracks(b0, k0, old(acts)@),
        ensures
            turn_of(*final(self), final(acts)@) == round(turn_of(*old(self), old(acts)@), now_us),
            final(self).tracks(b0, k0, final(acts)@),
            ends_with_request(final(acts)@),
            final(self).failed_count == old(self).failed_count,
            final(self).fish_count == old(self).fish_count
                || (old(self).state == FishingState::FishCaught && final(self).fish_count == old(self).fish_count.wrapping_add(1)),
    {
        self.focus_tick = if self.focus_tick < u32::MAX { self.focus_tick + 1 } else { u32::MAX };
        if self.focus_tick >= 5 {
            self.focus_tick = 0;
            self.ask(acts, Probe::Focus, Wait::FocusAtRound, Ghost(b0), Ghost(k0));
        } else {
            self.after_focus(acts, now_us, Ghost(b0), Ghost(k0));
        }
    }

    fn after_focus(&mut self, acts: &mut Vec<BotAction>, now_us: u64, Ghost(b0): Ghost<bool>, Ghost(k0): Ghost<Option<SteerKey>>)
        requires
            old(self).tracks(b0, k0, old(acts)@),
        ensures
            turn_of(*final(self), final(acts)@) == focus_done(turn_of(*old(self), old(acts)@), now_us),
            final(self).tracks(b0, k0, final(acts)@),
            ends_with_request(final(acts)@),
            final(self).failed_count == old(self).failed_count,
            final(self).fish_count == old(self).fish_count
                || (old(self).state == FishingState::FishCaught && final(self).fish_count == old(self).fish_count.wrapping_add(1)),
    {
        if self.paused {
            self.release_all(acts, Ghost(b0), Ghost(k0));
            self.pause_then_round(acts, 200_000, Ghost(b0), Ghost(k0));
        } else {
            self.run_state(acts, now_us, Ghost(b0), Ghost(k0));
        }
    }

    /// Ends a reel: the catch screen is read after a pause.
    fn end_reel(&mut self, acts: &mut Vec<BotAction>, Ghost(b0): Ghost<bool>, Ghost(k0): Ghost<Option<SteerKey>>)
        requires
            old(self).tracks(b0, k0, old(acts)@),
        ensures
            turn_of(*final(self), final(acts)@) == reel_ended(turn_of(*old(self), old(acts)@)),
            final(self).tracks(b0, k0, final(acts)@),
            ends_with_request(final(acts)@),
            !final(self).lmb_held,
            final(self).held_steer is None,
            !final(self).tension_cooldown,
            final(self).state == old(self).state,
            final(self).wait == Wait::ReelEndPause,
            final(self).fish_count == old(self).fish_count,
            final(self).failed_count == old(self).failed_count,
    {
        self.release_all(acts, Ghost(b0), Ghost(k0));
        self.tension_cooldown = false;
        self.push(acts, BotAction::ShowTension(0), Ghost(b0), Ghost(k0));
        self.pause(acts, 300_000, Wait::ReelEndPause, Ghost(b0), Ghost(k0));
    }

    /// One reeling screenshot: keep the tension in check, end on the catch
    /// screen or when the tension bar stays gone, else steer toward the bait.
    #[verifier::rlimit(100)]
    #[verifier::spinoff_prover]
    fn reel_frame(&mut self, acts: &mut Vec<BotAction>, tension_floor: u32, caught: bool, bar_visible: bool,
        bait: BaitPosition, Ghost(b0): Ghost<bool>, Ghost(k0): Ghost<Option<SteerKey>>)
        requires
            old(self).tracks(b0, k0, old(acts)@),
        ensures
            turn_of(*final(self), final(acts)@) == frame_seen(turn_of(*old(self), old(acts)@), tension_floor, caught, bar_visible, bait),
            final(self).tracks(b0, k0, final(acts)@),
            ends_with_request(final(acts)@),
            final(self).fish_count == old(self).fish_count,
            final(self).failed_count == old(self).failed_count,
    {
        let ghost t0 = turn_of(*self, acts@);
        let elapsed = self.reel_elapsed_us;
        if tension_floor >= 80 {
            if self.lmb_held {
                proof { lemma_push(b0, k0, acts@, BotAction::MouseUp); lemma_view_push(acts@, BotAction::MouseUp); }
                acts.push(BotAction::MouseUp);
                self.lmb_held = false;
                self.tension_cooldown = true;
            }
        } else if self.tension_cooldown && tension_floor < 50 {
            self.tension_cooldown = false;
        }
        assert(turn_of(*self, acts@) == gate(t0, tension_floor));
        let ghost t1 = turn_of(*self, acts@);
        if !self.tension_cooldown {
            if !self.lmb_held {
                proof { lemma_push(b0, k0, acts@, BotAction::MouseDown); lemma_view_push(acts@, BotAction::MouseDown); }
                acts.push(BotAction::MouseDown);
                self.lmb_held = true;
                self.held_steer = None;
                self.bar_absent_streak = 0;
            } else {
                proof { lemma_push(b0, k0, acts@, BotAction::MouseDown); lemma_view_push(acts@, BotAction::MouseDown); }
                acts.push(BotAction::MouseDown);
            }
        }
        assert(turn_of(*self, acts@) == hold(t1));
        let ghost t2 = turn_of(*self, acts@);
        if elapsed > 1_000_000 && caught {
            self.release_all(acts, Ghost(b0), Ghost(k0));
            self.tension_cooldown = false;
            self.push(acts, BotAction::ShowTension(0), Ghost(b0), Ghost(k0));
            self.state = FishingState::FishCaught;
            self.pause_then_round(acts, 0, Ghost(b0), Ghost(k0));
            return;
        }
        if elapsed > 2_000_000 {
            if !bar_visible {
                self.bar_absent_streak = if self.bar_absent_streak < u32::MAX { self.bar_absent_streak + 1 } else { u32::MAX };
            } else {
                self.bar_absent_streak = 0;
            }
            if self.bar_absent_streak >= 10 {
                self.end_reel(acts, Ghost(b0), Ghost(k0));
                return;
            }
        } else {
            self.bar_absent_streak = 0;
        }
        assert(turn_of(*self, acts@) == streak_after(t2, bar_visible));
        let ghost t3 = turn_of(*self, acts@);
        if self.paused {
            self.release_all(acts, Ghost(b0), Ghost(k0));
            self.tension_cooldown = false;
            self.pause_then_round(acts, 0, Ghost(b0), Ghost(k0));
            return;
        }
        let want = match bait {
            BaitPosition::Left => Some(SteerKey::Left),
            BaitPosition::Right => Some(SteerKey::Right),
            BaitPosition::Center => None,
        };
        match (self.held_steer, want) {
            (Some(cur), Some(w)) => {
                if cur == w {
                    proof { lemma_push(b0, k0, acts@, BotAction::SteerDown(cur)); lemma_view_push(acts@, BotAction::SteerDown(cur)); }
                    acts.push(BotAction::SteerDown(cur));
                } else {
                    proof { lemma_push(b0, k0, acts@, BotAction::SteerUp(cur)); lemma_view_push(acts@, BotAction::SteerUp(cur)); }
                    acts.push(BotAction::SteerUp(cur));
                    proof { lemma_push(b0, k0, acts@, BotAction::SteerDown(w)); lemma_view_push(acts@, BotAction::SteerDown(w)); }
                    acts.push(BotAction::SteerDown(w));
                    self.held_steer = Some(w);
                }
            },
            (Some(cur), None) => {
                proof { lemma_push(b0, k0, acts@, BotAction::SteerDown(cur)); lemma_view_push(acts@, BotAction::SteerDown(cur)); }
                acts.push(BotAction::SteerDown(cur));
            },
            (None, Some(w)) => {
                proof { lemma_push(b0, k0, acts@, BotAction::SteerDown(w)); lemma_view_push(acts@, BotAction::SteerDown(w)); }
                acts.push(BotAction::SteerDown(w));
                self.held_steer = Some(w);
            },
            (None, None) => {},
        }
        proof {
            let sa = steer_actions(t3.bot.held_steer, wanted_key(bait));
            assert(acts_view(sa) =~= sa.map_values(|a: BotAction| act_view(a)));
            assert(acts_view(acts@) =~= t3.acts + acts_view(sa));
        }
        self.pause_then_round(acts, 50_000, Ghost(b0), Ghost(k0));
    }

    /// Answers the bot's last request at `now_us`; gives the inputs to send,
    /// ending with the next request (a pause or a question).
    #[verifier::rlimit(100)]
    #[verifier::spinoff_prover]
    pub fn step(&mut self, answer: BotAnswer, now_us: u64) -> (acts: Vec<BotAction>)
        ensures
            turn_of(*final(self), acts@) == step_spec(*old(self), answer, now_us),
            ends_with_request(acts@),
            button_after(old(self).lmb_held, acts@) == final(self).lmb_held,
            final(self).held_steer is Some ==> steer_after(old(self).held_steer, acts@) == final(self).held_steer,
            final(self).fish_count == old(self).fish_count || final(self).fish_count == old(self).fish_count.wrapping_add(1),
            final(self).failed_count == old(self).failed_count || final(self).failed_count == old(self).failed_count.wrapping_add(1),
    {
        let mut acts: Vec<BotAction> = Vec::new();
        assert(acts_view(acts@) =~= Seq::<ActView>::empty());
        let ghost b0 = self.lmb_held;
        let ghost k0 = self.held_steer;
        let g0 = Ghost(b0);
        let g1 = Ghost(k0);
        match (self.wait, answer) {
            (Wait::NextRound, BotAnswer::Slept) => {
                self.begin_round(&mut acts, now_us, Ghost(b0), Ghost(k0));
            },
            (Wait::FocusAtRound, BotAnswer::Focused(f)) => {
                self.paused = !f;
                self.after_focus(&mut acts, now_us, Ghost(b0), Ghost(k0));
            },
            (Wait::CheckWindow, BotAnswer::Window(found)) => {
                match found {
                    Some(o) => { self.origin = o; },
                    None => {},
                }
                self.pause(&mut acts, 300_000, Wait::CheckPause, Ghost(b0), Ghost(k0));
            },
            (Wait::CheckPause, BotAnswer::Slept) => {
                self.ask(&mut acts, Probe::FishCaught, Wait::CheckCaught, Ghost(b0), Ghost(k0));
            },
            (Wait::CheckCaught, BotAnswer::Seen(c)) => {
                if c == Some(true) {
                    let (x, y) = center_of(self.origin, self.config.fish_caught_region);
                    self.push(&mut acts, BotAction::ClickAt(x, y), Ghost(b0), Ghost(k0));
                    self.state = FishingState::Cooldown { until_us: later(now_us, 2_000) };
                    self.pause_then_round(&mut acts, 0, Ghost(b0), Ghost(k0));
                } else {
                    self.ask(&mut acts, Probe::FishingMode, Wait::CheckMode, Ghost(b0), Ghost(k0));
                }
            },
            (Wait::CheckMode, BotAnswer::Seen(m)) => {
                if m != Some(true) {
                    self.state = FishingState::EnteringFishingMode;
                    self.pause_then_round(&mut acts, 0, Ghost(b0), Ghost(k0));
                } else {
                    self.ask(&mut acts, Probe::FishingRod, Wait::CheckRod, Ghost(b0), Ghost(k0));
                }
            },
            (Wait::CheckRod, BotAnswer::Seen(r)) => {
                self.state = if r == Some(true) { FishingState::SelectingRod } else { FishingState::Idle };
                self.pause_then_round(&mut acts, 0, Ghost(b0), Ghost(k0));
            },
            (Wait::EnterPause, BotAnswer::Slept) => {
                self.ask(&mut acts, Probe::FishingMode, Wait::EnterMode, Ghost(b0), Ghost(k0));
            },
            (Wait::EnterMode, BotAnswer::Seen(m)) => {
                if m == Some(true) {
                    self.ask(&mut acts, Probe::FishingRod, Wait::EnterRod, Ghost(b0), Ghost(k0));
                } else if now_us >= self.deadline_us {
                    self.state = FishingState::CheckingState;
                    self.pause_then_round(&mut acts, 0, Ghost(b0), Ghost(k0));
                } else {
                    self.pause(&mut acts, 300_000, Wait::EnterPause, Ghost(b0), Ghost(k0));
                }
            },
            (Wait::EnterRod, BotAnswer::Seen(r)) => {
                self.state = if r == Some(true) { FishingState::SelectingRod } else { FishingState::Idle };
                self.pause_then_round(&mut acts, 0, Ghost(b0), Ghost(k0));
            },
            (Wait::SelectOpen, BotAnswer::Slept) => {
                let (x, y) = center_of(self.origin, self.config.rod_use_region);
                self.push(&mut acts, BotAction::ClickAt(x, y), Ghost(b0), Ghost(k0));
                self.pause(&mut acts, 500_000, Wait::SelectUse, Ghost(b0), Ghost(k0));
            },
            (Wait::SelectUse, BotAnswer::Slept) => {
                let k = self.config.rod_slot_key.clone();
                self.push(&mut acts, BotAction::PressKey(k), Ghost(b0), Ghost(k0));
                self.pause(&mut acts, 1_000_000, Wait::SelectClose, Ghost(b0), Ghost(k0));
            },
            (Wait::SelectClose, BotAnswer::Slept) => {
                self.state = FishingState::Idle;
                self.pause_then_round(&mut acts, 0, Ghost(b0), Ghost(k0));
            },
            (Wait::CastPause, BotAnswer::Slept) => {
                self.ask(&mut acts, Probe::FishingRod, Wait::CastRod, Ghost(b0), Ghost(k0));
            },
            (Wait::CastRod, BotAnswer::Seen(r)) => {
                let rod_gone = r == Some(false);
                if rod_gone || now_us >= self.deadline_us {
                    self.state = FishingState::WaitingBite { cast_at_us: now_us };
                    self.pause_then_round(&mut acts, 0, Ghost(b0), Ghost(k0));
                } else {
                    self.pause(&mut acts, 100_000, Wait::CastPause, Ghost(b0), Ghost(k0));
                }
            },
            (Wait::BiteTimeoutMode, BotAnswer::Seen(m)) => {
                self.state = if m == Some(false) { FishingState::CheckingState } else { FishingState::Idle };
                self.pause_then_round(&mut acts, 0, Ghost(b0), Ghost(k0));
            },
            (Wait::BiteCheck, BotAnswer::Seen(b)) => {
                if b == Some(true) {
                    self.push(&mut acts, BotAction::ClickLeft, Ghost(b0), Ghost(k0));
                    self.state = FishingState::Reeling { started_at_us: now_us };
                    self.pause_then_round(&mut acts, 0, Ghost(b0), Ghost(k0));
                } else {
                    self.pause_then_round(&mut acts, 50_000, Ghost(b0), Ghost(k0));
                }
            },
            (Wait::ReelEndPause, BotAnswer::Slept) => {
                self.ask(&mut acts, Probe::FishCaught, Wait::ReelEndCaught, Ghost(b0), Ghost(k0));
            },
            (Wait::ReelEndCaught, BotAnswer::Seen(c)) => {
                if c == Some(true) {
                    self.state = FishingState::FishCaught;
                } else {
                    self.failed_count = self.failed_count.wrapping_add(1);
                    self.state = FishingState::Cooldown { until_us: later(now_us, self.config.cooldown_ms) };
                }
                self.pause_then_round(&mut acts, 0, Ghost(b0), Ghost(k0));
            },
            (Wait::ReelFrame, BotAnswer::FrameFailed) => {
                self.pause_then_round(&mut acts, 50_000, Ghost(b0), Ghost(k0));
            },
            (Wait::ReelFrame, BotAnswer::Frame { tension_floor, caught, bar_visible, bait }) => {
                self.reel_frame(&mut acts, tension_floor, caught, bar_visible, bait, Ghost(b0), Ghost(k0));
            },
            (Wait::CaughtPause, BotAnswer::Slept) => {
                let (x, y) = center_of(self.origin, self.config.fish_caught_region);
                self.push(&mut acts, BotAction::ClickAt(x, y), Ghost(b0), Ghost(k0));
                self.state = FishingState::Cooldown { until_us: later(now_us, self.config.cooldown_ms) };
                self.pause_then_round(&mut acts, 0, Ghost(b0), Ghost(k0));
            },
            _ => {
                self.pause_then_round(&mut acts, 0, Ghost(b0), Ghost(k0));
            },
        }
        acts
    }

    /// Stops the bot: lets go of the steering key and the button, and
    /// starts over from checking the state next time.
    pub fn stop(&mut self) -> (acts: Vec<BotAction>)
        ensures
            !button_after(old(self).lmb_held, acts@),
            old(self).held_steer is Some ==> steer_after(old(self).held_steer, acts@) is None,
            !final(self).lmb_held,
            final(self).held_steer is None,
            final(self).state == FishingState::CheckingState,
            final(self).wait == Wait::NextRound,
    {
        let mut acts: Vec<BotAction> = Vec::new();
        let ghost b0 = self.lmb_held;
        let ghost k0 = self.held_steer;
        self.release_all(&mut acts, Ghost(b0), Ghost(k0));
        self.state = FishingState::CheckingState;
        self.wait = Wait::NextRound;
        acts
    }
}

} // verus!
