//! The fishing helper's states, screen regions, readings of on-screen text,
//! and the input-tool commands it issues.

use vstd::prelude::*;
use vstd::string::*;
use crate::text::{i64_to_dec, signed_dec};

verus! {

/// Where the bot is in a fishing cycle. Times are microseconds on the
/// caller's clock.
#[derive(Clone, Copy, PartialEq, Eq, Debug, Structural)]
pub enum FishingState {
    CheckingState,
    EnteringFishingMode,
    SelectingRod,
    Idle,
    Casting,
    WaitingBite { cast_at_us: u64 },
    Reeling { started_at_us: u64 },
    FishCaught,
    Cooldown { until_us: u64 },
}

impl FishingState {
    pub open spec fn label_text(self) -> Seq<char> {
        match self {
            FishingState::CheckingState => "Checking..."@,
            FishingState::EnteringFishingMode => "Entering fishing mode"@,
            FishingState::SelectingRod => "Selecting rod"@,
            FishingState::Idle => "Idle"@,
            FishingState::Casting => "Casting..."@,
            FishingState::WaitingBite { .. } => "Waiting for bite"@,
            FishingState::Reeling { .. } => "Reeling!"@,
            FishingState::FishCaught => "Fish caught!"@,
            FishingState::Cooldown { .. } => "Cooldown"@,
        }
    }

    pub fn label(&self) -> (r: &'static str)
        ensures
            r@ == self.label_text(),
    {
        match self {
            FishingState::CheckingState => "Checking...",
            FishingState::EnteringFishingMode => "Entering fishing mode",
            FishingState::SelectingRod => "Selecting rod",
            FishingState::Idle => "Idle",
            FishingState::Casting => "Casting...",
            FishingState::WaitingBite { .. } => "Waiting for bite",
            FishingState::Reeling { .. } => "Reeling!",
            FishingState::FishCaught => "Fish caught!",
            FishingState::Cooldown { .. } => "Cooldown",
        }
    }
}

#[derive(Clone, Copy, PartialEq, Eq, Debug, Structural)]
pub enum BaitPosition {
    Left,
    Center,
    Right,
}

/// What the rod panel shows.
#[derive(Clone, Copy, PartialEq, Eq, Debug, Structural)]
pub enum FishingRodArea {
    /// The slot is empty ("Add a Pole").
    NoPole,
    /// A rod is equipped.
    HasPole,
    /// The panel is not open.
    NotVisible,
}

/// What the rod's button says.
#[derive(Clone, Copy, PartialEq, Eq, Debug, Structural)]
pub enum RodUseButton {
    Using,
    Use,
    Unknown,
}

/// A region given relative to the game window, moved to screen coordinates.
pub fn resolve_region(origin: (i32, i32), region: [i32; 4]) -> (r: [i32; 4])
    requires
        i32::MIN <= region[0] + origin.0 <= i32::MAX,
        i32::MIN <= region[1] + origin.1 <= i32::MAX,
    ensures
        r@ == seq![(region[0] + origin.0) as i32, (region[1] + origin.1) as i32, region[2], region[3]],
{
    let r = [region[0] + origin.0, region[1] + origin.1, region[2], region[3]];
    assert(r@ =~= seq![(region[0] + origin.0) as i32, (region[1] + origin.1) as i32, region[2], region[3]]);
    r
}

/// Whether `needle` occurs in `hay`.
pub open spec fn has_infix(hay: Seq<char>, needle: Seq<char>) -> bool {
    exists|i: int| 0 <= i && i + needle.len() <= hay.len() && #[trigger] hay.subrange(i, i + needle.len()) == needle
}

/// Whether `needle` occurs in `hay`.
pub fn str_contains(hay: &str, needle: &str) -> (r: bool)
    ensures
        r == has_infix(hay@, needle@),
{
    let n = hay.unicode_len();
    let m = needle.unicode_len();
    if m > n {
        assert forall|i: int| 0 <= i && i + needle@.len() <= hay@.len() implies
            #[trigger] hay@.subrange(i, i + needle@.len()) != needle@ by {}
        return false;
    }
    let mut i: usize = 0;
    while i <= n - m
        invariant
            n == hay@.len(),
            m == needle@.len(),
            m <= n,
            i <= n - m + 1,
            forall|k: int| 0 <= k < i ==> #[trigger] hay@.subrange(k, k + m) != needle@,
        decreases n - i,
    {
        let mut j: usize = 0;
        let mut same = true;
        while j < m
            invariant
                n == hay@.len(),
                m == needle@.len(),
                i + m <= n,
                j <= m,
                same == (forall|k: int| 0 <= k < j ==> hay@[i + k] == needle@[k]),
            decreases m - j,
        {
            if hay.get_char(i + j) != needle.get_char(j) {
                same = false;
            }
            j = j + 1;
        }
        if same {
            assert(hay@.subrange(i as int, i + m) =~= needle@);
            return true;
        }
        assert(hay@.subrange(i as int, i + m) != needle@) by {
            let k = choose|k: int| 0 <= k < m && hay@[i + k] != needle@[k];
            assert(hay@.subrange(i as int, i + m)[k] == hay@[i + k]);
        }
        i = i + 1;
    }
    assert forall|k: int| 0 <= k && k + needle@.len() <= hay@.len() implies
        #[trigger] hay@.subrange(k, k + needle@.len()) != needle@ by {
        assert(k < i);
    }
    false
}

/// The rod panel as its text reads: "add" means an empty slot, "fishing" a rod.
pub fn classify_rod_area(text: &str) -> (r: FishingRodArea)
    ensures
        r == (if has_infix(text@, "add"@) {
            FishingRodArea::NoPole
        } else if has_infix(text@, "fishing"@) {
            FishingRodArea::HasPole
        } else {
            FishingRodArea::NotVisible
        }),
{
    if str_contains(text, "add") {
        FishingRodArea::NoPole
    } else if str_contains(text, "fishing") {
        FishingRodArea::HasPole
    } else {
        FishingRodArea::NotVisible
    }
}

/// The rod button as its text reads: "using" before "use".
pub fn classify_rod_use(text: &str) -> (r: RodUseButton)
    ensures
        r == (if has_infix(text@, "using"@) {
            RodUseButton::Using
        } else if has_infix(text@, "use"@) {
            RodUseButton::Use
        } else {
            RodUseButton::Unknown
        }),
{
    if str_contains(text, "using") {
        RodUseButton::Using
    } else if str_contains(text, "use") {
        RodUseButton::Use
    } else {
        RodUseButton::Unknown
    }
}

/// Whether the text is the monthly reward popup's "click ... close".
pub fn is_reward_popup_text(text: &str) -> (r: bool)
    ensures
        r == (has_infix(text@, "click"@) && has_infix(text@, "close"@)),
{
    str_contains(text, "click") && str_contains(text, "close")
}

/// The input tools the bot drives.
#[derive(Clone, Copy, PartialEq, Eq, Debug, Structural)]
pub enum InputTool {
    /// `xdotool`, for keys and pointer moves.
    Xdotool,
    /// `ydotool`, for clicks the compositor sees as real input.
    Ydotool,
}

/// One run of an input tool with its arguments.
pub struct ToolCommand {
    pub tool: InputTool,
    pub args: Vec<String>,
}

impl ToolCommand {
    pub open spec fn view(&self) -> (InputTool, Seq<Seq<char>>) {
        (self.tool, self.args@.map_values(|a: String| a@))
    }
}

pub open spec fn commands_view(cs: Seq<ToolCommand>) -> Seq<(InputTool, Seq<Seq<char>>)> {
    cs.map_values(|c: ToolCommand| c.view())
}

fn strings(parts: &[&str]) -> (r: Vec<String>)
    ensures
        r@.map_values(|a: String| a@) == parts@.map_values(|p: &str| p@),
{
    let mut r: Vec<String> = Vec::new();
    let mut i: usize = 0;
    while i < parts.len()
        invariant
            i <= parts@.len(),
            r@.map_values(|a: String| a@) == parts@.take(i as int).map_values(|p: &str| p@),
        decreases parts@.len() - i,
    {
        let ghost before = r@;
        let s = String::from_str(parts[i]);
        assert(s@ == parts@[i as int]@);
        r.push(s);
        assert(r@ == before.push(s));
        assert(parts@.take(i + 1) =~= parts@.take(i as int).push(parts@[i as int]));
        assert(r@.map_values(|a: String| a@) =~= before.map_values(|a: String| a@).push(s@));
        assert(r@.map_values(|a: String| a@) =~= parts@.take(i + 1).map_values(|p: &str| p@));
        i = i + 1;
    }
    assert(parts@.take(parts@.len() as int) =~= parts@);
    r
}

fn command(tool: InputTool, parts: &[&str]) -> (r: ToolCommand)
    ensures
        r.view() == (tool, parts@.map_values(|p: &str| p@)),
{
    ToolCommand { tool, args: strings(parts) }
}

fn single(c: ToolCommand) -> (r: Vec<ToolCommand>)
    ensures
        commands_view(r@) == seq![c.view()],
{
    let ghost v = c.view();
    let mut r: Vec<ToolCommand> = Vec::new();
    r.push(c);
    assert(commands_view(r@) =~= seq![v]);
    r
}

fn pair(a: ToolCommand, b: ToolCommand) -> (r: Vec<ToolCommand>)
    ensures
        commands_view(r@) == seq![a.view(), b.view()],
{
    let ghost va = a.view();
    let ghost vb = b.view();
    let mut r: Vec<ToolCommand> = Vec::new();
    r.push(a);
    r.push(b);
    assert(commands_view(r@) =~= seq![va, vb]);
    r
}

/// Sends keys and clicks to the game window. Each method gives the tool
/// runs to make, in order; the caller stops at the first that fails.
pub struct InputController {
    pub window_id: String,
}

impl InputController {
    pub fn new(window_id: &str) -> (r: InputController)
        ensures
            r.window_id@ == window_id@,
    {
        InputController { window_id: String::from_str(window_id) }
    }

    /// Presses and releases a key, aimed at the game window where one is known.
    pub fn press_key(&mut self, key: &str) -> (r: Vec<ToolCommand>)
        ensures
            final(self).window_id == old(self).window_id,
            commands_view(r@) == seq![(InputTool::Xdotool, if old(self).window_id@.len() == 0 {
                seq!["key"@, "--clearmodifiers"@, key@]
            } else {
                seq!["key"@, "--window"@, old(self).window_id@, "--clearmodifiers"@, key@]
            })],
    {
        let c = if self.window_id.as_str().is_empty() {
            command(InputTool::Xdotool, &["key", "--clearmodifiers", key])
        } else {
            command(InputTool::Xdotool, &["key", "--window", self.window_id.as_str(), "--clearmodifiers", key])
        };
        proof {
            assert(c.view().1 =~= (if self.window_id@.len() == 0 {
                seq!["key"@, "--clearmodifiers"@, key@]
            } else {
                seq!["key"@, "--window"@, self.window_id@, "--clearmodifiers"@, key@]
            }));
        }
        single(c)
    }

    /// Presses a key without releasing it.
    pub fn key_down(&mut self, key: &str) -> (r: Vec<ToolCommand>)
        ensures
            final(self).window_id == old(self).window_id,
            commands_view(r@) == seq![(InputTool::Xdotool, seq!["keydown"@, key@])],
    {
        let c = command(InputTool::Xdotool, &["keydown", key]);
        assert(c.view().1 =~= seq!["keydown"@, key@]);
        single(c)
    }

    /// Releases a key.
    pub fn key_up(&mut self, key: &str) -> (r: Vec<ToolCommand>)
        ensures
            final(self).window_id == old(self).window_id,
            commands_view(r@) == seq![(InputTool::Xdotool, seq!["keyup"@, key@])],
    {
        let c = command(InputTool::Xdotool, &["keyup", key]);
        assert(c.view().1 =~= seq!["keyup"@, key@]);
        single(c)
    }

    /// Clicks the left button where the pointer is.
    pub fn click_mouse_left(&mut self) -> (r: Vec<ToolCommand>)
        ensures
            final(self).window_id == old(self).window_id,
            commands_view(r@) == seq![(InputTool::Ydotool, seq!["click"@, "0xC0"@])],
    {
        let c = command(InputTool::Ydotool, &["click", "0xC0"]);
        assert(c.view().1 =~= seq!["click"@, "0xC0"@]);
        single(c)
    }

    /// Presses the left button.
    pub fn mouse_down(&mut self) -> (r: Vec<ToolCommand>)
        ensures
            final(self).window_id == old(self).window_id,
            commands_view(r@) == seq![(InputTool::Ydotool, seq!["click"@, "0x40"@])],
    {
        let c = command(InputTool::Ydotool, &["click", "0x40"]);
        assert(c.view().1 =~= seq!["click"@, "0x40"@]);
        single(c)
    }

    /// Releases the left button.
    pub fn mouse_up(&mut self) -> (r: Vec<ToolCommand>)
        ensures
            final(self).window_id == old(self).window_id,
            commands_view(r@) == seq![(InputTool::Ydotool, seq!["click"@, "0x80"@])],
    {
        let c = command(InputTool::Ydotool, &["click", "0x80"]);
        assert(c.view().1 =~= seq!["click"@, "0x80"@]);
        single(c)
    }

    /// Releases the left button and presses it again.
    pub fn mouse_repress(&mut self) -> (r: Vec<ToolCommand>)
        ensures
            final(self).window_id == old(self).window_id,
            commands_view(r@) == seq![
                (InputTool::Ydotool, seq!["click"@, "0x80"@]),
                (InputTool::Ydotool, seq!["click"@, "0x40"@]),
            ],
    {
        let a = command(InputTool::Ydotool, &["click", "0x80"]);
        let b = command(InputTool::Ydotool, &["click", "0x40"]);
        assert(a.view().1 =~= seq!["click"@, "0x80"@]);
        assert(b.view().1 =~= seq!["click"@, "0x40"@]);
        pair(a, b)
    }

    /// Moves the pointer to a screen position, then clicks the left button.
    pub fn click_at(&mut self, x: i32, y: i32) -> (r: Vec<ToolCommand>)
        ensures
            final(self).window_id == old(self).window_id,
            commands_view(r@) == seq![
                (InputTool::Xdotool, seq!["mousemove"@, "--sync"@, signed_dec(x as int), signed_dec(y as int)]),
                (InputTool::Ydotool, seq!["click"@, "0xC0"@]),
            ],
    {
        let xs = i64_to_dec(x as i64);
        let ys = i64_to_dec(y as i64);
        let a = command(InputTool::Xdotool, &["mousemove", "--sync", xs.as_str(), ys.as_str()]);
        let b = command(InputTool::Ydotool, &["click", "0xC0"]);
        assert(a.view().1 =~= seq!["mousemove"@, "--sync"@, signed_dec(x as int), signed_dec(y as int)]);
        assert(b.view().1 =~= seq!["click"@, "0xC0"@]);
        pair(a, b)
    }
}

} // verus!
