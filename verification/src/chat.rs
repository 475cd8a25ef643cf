//! The chat log: recent messages, raid warnings (`/rw text`) and
//! countdowns (`/ct secs [label]` or `/countdown secs [label]`).

use vstd::prelude::*;
use crate::event::{ChatChannel, GameEvent, EventView, events_view};
use crate::seqs::{lemma_filter_empty, lemma_filter_push};
use crate::tables::{is_prefix, starts_with};
use crate::text::{digits, push_digits};
use vstd::string::*;

verus! {

/// Most messages the log keeps.
pub const MAX_MESSAGES: usize = 500;

/// How long a raid warning shows, in microseconds.
pub const WARNING_TTL_US: u64 = 10_000_000;

/// One received message. Times are microseconds on the caller's clock.
pub struct ChatMessage {
    pub received_at_us: u64,
    pub channel: ChatChannel,
    pub sender_name: String,
    pub text: String,
}

/// A raid warning being shown.
pub struct RaidWarning {
    pub text: String,
    pub at_us: u64,
}

/// A running countdown.
pub struct Countdown {
    pub ends_at_us: u64,
    pub label: String,
}

/// A desktop notification to show.
pub struct ChatNotice {
    pub title: String,
    pub body: String,
    pub urgent: bool,
}

/// The chat module's state.
pub struct ChatLog {
    pub messages: Vec<ChatMessage>,
    pub warnings: Vec<RaidWarning>,
    pub countdown: Option<Countdown>,
    pub scroll_to_bottom: bool,
}

/// The text after `p`, where `s` starts with it.
pub open spec fn after_prefix(s: Seq<char>, p: Seq<char>) -> Option<Seq<char>> {
    if is_prefix(p, s) { Some(s.subrange(p.len() as int, s.len() as int)) } else { None }
}

/// The countdown command's arguments: after `/ct `, else after `/countdown `.
pub open spec fn countdown_args(text: Seq<char>) -> Option<Seq<char>> {
    match after_prefix(text, "/ct "@) {
        Some(r) => Some(r),
        None => after_prefix(text, "/countdown "@),
    }
}

/// The text before the first space (all of it without a space), and the
/// rest after that space, if there is one.
pub open spec fn split_first_space(s: Seq<char>) -> (Seq<char>, Option<Seq<char>>) {
    if exists|i: int| 0 <= i < s.len() && s[i] == ' ' {
        let i = choose|i: int| 0 <= i < s.len() && s[i] == ' ' && forall|j: int| 0 <= j < i ==> s[j] != ' ';
        (s.subrange(0, i), Some(s.subrange(i + 1, s.len() as int)))
    } else {
        (s, None)
    }
}

/// The value of a string of decimal digits.
pub open spec fn dec_value(s: Seq<char>) -> int
    decreases s.len(),
{
    if s.len() == 0 { 0 } else { dec_value(s.drop_last()) * 10 + (s.last() as int - '0' as int) }
}

/// `u64` parsing: an optional `+`, then at least one ASCII digit, the value
/// fitting in 64 bits.
pub open spec fn parse_dec(s: Seq<char>) -> Option<u64> {
    let body = sign_stripped(s);
    if body.len() > 0 && all_digits(body) && dec_value(body) <= u64::MAX {
        Some(dec_value(body) as u64)
    } else {
        None
    }
}

/// Every character is an ASCII digit.
pub open spec fn all_digits(s: Seq<char>) -> bool {
    forall|i: int| 0 <= i < s.len() ==> '0' <= #[trigger] s[i] <= '9'
}

/// The text without a leading `+`.
pub open spec fn sign_stripped(s: Seq<char>) -> Seq<char> {
    if s.len() > 0 && s[0] == '+' { s.drop_first() } else { s }
}

/// A number padded with zeros to two digits.
pub open spec fn two_digits(n: nat) -> Seq<char> {
    if n < 10 { seq!['0'] + digits(n, 10) } else { digits(n, 10) }
}

/// A duration in seconds as `mm:ss` from a minute on, else as `Ns`.
pub open spec fn duration_text(secs: u64) -> Seq<char> {
    if secs >= 60 {
        two_digits((secs / 60) as nat) + seq![':'] + two_digits((secs % 60) as nat)
    } else {
        digits(secs as nat, 10) + seq!['s']
    }
}

/// A countdown the text starts: its length and label.
pub open spec fn countdown_of(text: Seq<char>) -> Option<(u64, Seq<char>)> {
    match countdown_args(text) {
        Some(rest) => {
            let (num, label) = split_first_space(rest);
            match parse_dec(num) {
                Some(secs) => Some((secs, match label { Some(l) => l, None => "Countdown"@ })),
                None => None,
            }
        },
        None => None,
    }
}

/// The text after `p`, where `s` starts with it.
pub fn strip_prefix<'a>(s: &'a str, p: &str) -> (r: Option<&'a str>)
    ensures
        match r {
            Some(t) => after_prefix(s@, p@) == Some(t@),
            None => after_prefix(s@, p@) is None,
        },
{
    if starts_with(s, p) {
        let n = s.unicode_len();
        let m = p.unicode_len();
        Some(s.substring_char(m, n))
    } else {
        None
    }
}

/// Splits at the first space.
fn split_space<'a>(s: &'a str) -> (r: (&'a str, Option<&'a str>))
    ensures
        (r.0@, match r.1 { Some(t) => Some(t@), None => None }) == split_first_space(s@),
{
    let n = s.unicode_len();
    let mut i: usize = 0;
    while i < n
        invariant
            n == s@.len(),
            i <= n,
            forall|j: int| 0 <= j < i ==> s@[j] != ' ',
        decreases n - i,
    {
        if s.get_char(i) == ' ' {
            let ghost k = choose|k: int| 0 <= k < s@.len() && s@[k] == ' ' && forall|j: int| 0 <= j < k ==> s@[j] != ' ';
            assert(k == i) by {
                if k < i {
                } else if k > i {
                    assert(s@[i as int] == ' ');
                }
            }
            return (s.substring_char(0, i), Some(s.substring_char(i + 1, n)));
        }
        i = i + 1;
    }
    assert(s@.subrange(0, n as int) =~= s@);
    (s.substring_char(0, n), None)
}

/// Reads a decimal `u64`; `None` where the text is not one.
pub fn parse_u64_dec(s: &str) -> (r: Option<u64>)
    ensures
        r == parse_dec(s@),
{
    let n = s.unicode_len();
    let mut i: usize = 0;
    if n > 0 && s.get_char(0) == '+' {
        i = 1;
    }
    let ghost body = s@.subrange(i as int, n as int);
    assert(body == (if s@.len() > 0 && s@[0] == '+' { s@.drop_first() } else { s@ }));
    if i == n {
        return None;
    }
    let mut v: u64 = 0;
    let mut k: usize = i;
    assert(body.take(0) =~= Seq::<char>::empty());
    while k < n
        invariant
            body == sign_stripped(s@),
            n == s@.len(),
            i < n,
            i <= k <= n,
            body == s@.subrange(i as int, n as int),
            body == (if s@.len() > 0 && s@[0] == '+' { s@.drop_first() } else { s@ }),
            forall|q: int| 0 <= q < k - i ==> '0' <= #[trigger] body[q] <= '9',
            v == dec_value(body.take(k - i)),
        decreases n - k,
    {
        let c = s.get_char(k);
        assert(body[k - i] == c);
        assert(body.take(k - i + 1).drop_last() =~= body.take(k - i));
        assert(body.take(k - i + 1).last() == c);
        if c < '0' || c > '9' {
            assert(!all_digits(body)) by {
                assert(!('0' <= body[k - i] <= '9'));
            }
            return None;
        }
        let d = (c as u32 - '0' as u32) as u64;
        if v > (u64::MAX - d) / 10 {
            proof {
                assert(v * 10 + d > u64::MAX) by (nonlinear_arith)
                    requires v > (u64::MAX - d) / 10, d <= 9;
                assert(dec_value(body.take(k - i + 1)) == v * 10 + d);
                lemma_dec_prefix(body, k - i + 1);
            }
            return None;
        }
        assert(v * 10 + d <= u64::MAX) by (nonlinear_arith)
            requires v <= (u64::MAX - d) / 10, d <= 9;
        v = v * 10 + d;
        k = k + 1;
    }
    assert(body.take(k - i) =~= body);
    Some(v)
}

/// A string of digits is worth at least any prefix, where all are digits.
proof fn lemma_dec_prefix(s: Seq<char>, k: int)
    requires
        0 <= k <= s.len(),
    ensures
        all_digits(s) ==> dec_value(s.take(k)) <= dec_value(s),
    decreases s.len(),
{
    if all_digits(s) {
        if k < s.len() {
            assert forall|i: int| 0 <= i < s.drop_last().len() implies '0' <= #[trigger] s.drop_last()[i] <= '9' by {
                assert(s.drop_last()[i] == s[i]);
            }
            lemma_dec_prefix(s.drop_last(), k);
            assert(s.drop_last().take(k) =~= s.take(k));
            lemma_dec_nonneg(s.drop_last());
            assert('0' <= s[s.len() - 1] <= '9');
        } else {
            assert(s.take(k) =~= s);
        }
    }
}

/// A string of digits is worth at least zero.
pub proof fn lemma_dec_nonneg(s: Seq<char>)
    requires
        forall|i: int| 0 <= i < s.len() ==> '0' <= #[trigger] s[i] <= '9',
    ensures
        dec_value(s) >= 0,
    decreases s.len(),
{
    if s.len() > 0 {
        assert forall|i: int| 0 <= i < s.drop_last().len() implies '0' <= #[trigger] s.drop_last()[i] <= '9' by {
            assert(s.drop_last()[i] == s[i]);
        }
        lemma_dec_nonneg(s.drop_last());
        assert('0' <= s[s.len() - 1] <= '9');
    }
}

/// Appends a number padded to two digits.
fn push_two_digits(s: &mut String, n: u64)
    ensures
        final(s)@ == old(s)@ + two_digits(n as nat),
{
    if n < 10 {
        s.append("0");
        proof { reveal_strlit("0"); }
    }
    let ghost mid = s@;
    push_digits(s, n, 10);
    assert(n < 10 ==> mid == old(s)@ + seq!['0']);
    assert(s@ =~= old(s)@ + two_digits(n as nat));
}

/// A duration in seconds as `mm:ss` from a minute on, else as `Ns`.
pub fn format_dur(secs: u64) -> (r: String)
    ensures
        r@ == duration_text(secs),
{
    let mut s = String::new();
    if secs >= 60 {
        push_two_digits(&mut s, secs / 60);
        s.append(":");
        proof { reveal_strlit(":"); }
        push_two_digits(&mut s, secs % 60);
        assert(s@ =~= duration_text(secs));
    } else {
        push_digits(&mut s, secs, 10);
        s.append("s");
        proof { reveal_strlit("s"); }
        assert(s@ =~= duration_text(secs));
    }
    s
}

/// The start time plus `secs` seconds, on the microsecond clock (saturating).
pub open spec fn after_secs(now_us: u64, secs: u64) -> u64 {
    if now_us + secs * 1_000_000 <= u64::MAX { (now_us + secs * 1_000_000) as u64 } else { u64::MAX }
}

pub open spec fn message_view(m: ChatMessage) -> (u64, ChatChannel, Seq<char>, Seq<char>) {
    (m.received_at_us, m.channel, m.sender_name@, m.text@)
}

pub open spec fn notice_view(n: ChatNotice) -> (Seq<char>, Seq<char>, bool) {
    (n.title@, n.body@, n.urgent)
}

/// The notifications a message raises: a raid warning's, then a countdown's.
pub open spec fn notices_for(text: Seq<char>) -> Seq<(Seq<char>, Seq<char>, bool)> {
    let rw = match after_prefix(text, "/rw "@) {
        Some(w) => seq![("Raid Warning"@, w, true)],
        None => seq![],
    };
    let ct = match countdown_of(text) {
        Some((secs, label)) => seq![("Countdown started"@, "Countdown: "@ + label + " — "@ + duration_text(secs), false)],
        None => seq![],
    };
    rw + ct
}

/// What the log holds: the messages, the raid warnings (text and time) and
/// the countdown (end and label).
pub ghost struct ChatState {
    pub messages: Seq<(u64, ChatChannel, Seq<char>, Seq<char>)>,
    pub warnings: Seq<(Seq<char>, u64)>,
    pub countdown: Option<(u64, Seq<char>)>,
}

/// The log after one message at `now_us`, as `ingest` leaves it.
pub open spec fn chat_ingest(m: ChatState, channel: ChatChannel, sender_name: Seq<char>, text: Seq<char>, now_us: u64) -> ChatState {
    let pushed = m.messages.push((now_us, channel, sender_name, text));
    ChatState {
        messages: if pushed.len() > MAX_MESSAGES { pushed.drop_first() } else { pushed },
        warnings: match after_prefix(text, "/rw "@) {
            Some(w) => m.warnings.push((w, now_us)),
            None => m.warnings,
        },
        countdown: match countdown_of(text) {
            Some((secs, label)) => Some((after_secs(now_us, secs), label)),
            None => m.countdown,
        },
    }
}

/// The log after the chat messages among `evs`, in order.
pub open spec fn chat_events(m: ChatState, evs: Seq<EventView>, now_us: u64) -> ChatState
    decreases evs.len(),
{
    if evs.len() == 0 {
        m
    } else {
        let before = chat_events(m, evs.drop_last(), now_us);
        match evs.last() {
            EventView::Chat { channel, sender_name, text, .. } => chat_ingest(before, channel, sender_name, text, now_us),
            _ => before,
        }
    }
}

/// The notifications the chat messages among `evs` raise, in order.
pub open spec fn chat_notices(evs: Seq<EventView>) -> Seq<(Seq<char>, Seq<char>, bool)>
    decreases evs.len(),
{
    if evs.len() == 0 {
        Seq::empty()
    } else {
        match evs.last() {
            EventView::Chat { text, .. } => chat_notices(evs.drop_last()) + notices_for(text),
            _ => chat_notices(evs.drop_last()),
        }
    }
}

/// Whether some event is a chat message.
pub open spec fn has_chat(evs: Seq<EventView>) -> bool {
    exists|i: int| 0 <= i < evs.len() && #[trigger] evs[i] is Chat
}

/// A raid warning shown at `at_us` is still shown at `now_us`.
pub open spec fn warning_fresh(now_us: u64) -> spec_fn((Seq<char>, u64)) -> bool {
    |w: (Seq<char>, u64)| (if now_us >= w.1 { now_us - w.1 } else { 0 }) < WARNING_TTL_US
}

/// The countdown still running at `now_us`.
pub open spec fn countdown_left(c: Option<(u64, Seq<char>)>, now_us: u64) -> Option<(u64, Seq<char>)> {
    match c {
        Some((end, label)) => if now_us >= end { None } else { Some((end, label)) },
        None => None,
    }
}

impl ChatLog {
    pub open spec fn state(&self) -> ChatState {
        ChatState { messages: self.messages_view(), warnings: self.warnings_view(), countdown: self.countdown_view() }
    }

    pub open spec fn messages_view(&self) -> Seq<(u64, ChatChannel, Seq<char>, Seq<char>)> {
        self.messages@.map_values(|m: ChatMessage| message_view(m))
    }

    pub open spec fn warnings_view(&self) -> Seq<(Seq<char>, u64)> {
        self.warnings@.map_values(|w: RaidWarning| (w.text@, w.at_us))
    }

    pub open spec fn countdown_view(&self) -> Option<(u64, Seq<char>)> {
        match self.countdown {
            Some(c) => Some((c.ends_at_us, c.label@)),
            None => None,
        }
    }

    pub fn new() -> (r: ChatLog)
        ensures
            r.messages_view().len() == 0,
            r.warnings_view().len() == 0,
            r.countdown is None,
            !r.scroll_to_bottom,
    {
        ChatLog { messages: Vec::new(), warnings: Vec::new(), countdown: None, scroll_to_bottom: false }
    }

    /// Takes in one message at `now_us`: a raid warning starts showing, a
    /// countdown starts, and the message is logged (the oldest dropped past
    /// the limit). Returns the notifications to show.
    pub fn ingest(&mut self, channel: ChatChannel, sender_name: String, text: String, now_us: u64) -> (notices: Vec<ChatNotice>)
        requires
            old(self).messages@.len() <= MAX_MESSAGES,
        ensures
            final(self).messages@.len() <= MAX_MESSAGES,
            notices@.map_values(|n: ChatNotice| notice_view(n)) == notices_for(text@),
            final(self).warnings_view() == match after_prefix(text@, "/rw "@) {
                Some(w) => old(self).warnings_view().push((w, now_us)),
                None => old(self).warnings_view(),
            },
            final(self).countdown_view() == match countdown_of(text@) {
                Some((secs, label)) => Some((after_secs(now_us, secs), label)),
                None => old(self).countdown_view(),
            },
            ({
                let pushed = old(self).messages_view().push((now_us, channel, sender_name@, text@));
                final(self).messages_view() == if pushed.len() > MAX_MESSAGES { pushed.drop_first() } else { pushed }
            }),
            final(self).scroll_to_bottom,
    {
        let mut notices: Vec<ChatNotice> = Vec::new();
        proof {
            reveal_strlit("/rw ");
            reveal_strlit("/ct ");
            reveal_strlit("/countdown ");
            reveal_strlit("Raid Warning");
            reveal_strlit("Countdown started");
            reveal_strlit("Countdown: ");
            reveal_strlit(" — ");
            reveal_strlit("Countdown");
        }
        let ghost w0 = self.warnings_view();
        match strip_prefix(text.as_str(), "/rw ") {
            Some(w) => {
                notices.push(ChatNotice { title: String::from_str("Raid Warning"), body: String::from_str(w), urgent: true });
                self.warnings.push(RaidWarning { text: String::from_str(w), at_us: now_us });
                assert(self.warnings_view() =~= w0.push((w@, now_us)));
            },
            None => {},
        }
        let ghost n1 = notices@.map_values(|n: ChatNotice| notice_view(n));
        let args = match strip_prefix(text.as_str(), "/ct ") {
            Some(r) => Some(r),
            None => strip_prefix(text.as_str(), "/countdown "),
        };
        match args {
            Some(rest) => {
                let (num, label) = split_space(rest);
                match parse_u64_dec(num) {
                    Some(secs) => {
                        let label_text = match label { Some(l) => String::from_str(l), None => String::from_str("Countdown") };
                        let mut msg = String::from_str("Countdown: ");
                        msg.append(label_text.as_str());
                        msg.append(" — ");
                        let d = format_dur(secs);
                        msg.append(d.as_str());
                        let ghost before = notices@;
                        notices.push(ChatNotice { title: String::from_str("Countdown started"), body: msg, urgent: false });
                        assert(notices@.map_values(|n: ChatNotice| notice_view(n)) =~= before.map_values(|n: ChatNotice| notice_view(n)).push(notice_view(notices@.last())));
                        let ends = if secs <= (u64::MAX - now_us) / 1_000_000 {
                            assert(secs * 1_000_000 <= u64::MAX - now_us) by (nonlinear_arith)
                                requires secs <= (u64::MAX - now_us) / 1_000_000;
                            now_us + secs * 1_000_000
                        } else {
                            assert(now_us + secs * 1_000_000 > u64::MAX) by (nonlinear_arith)
                                requires secs > (u64::MAX - now_us) / 1_000_000, now_us <= u64::MAX;
                            u64::MAX
                        };
                        self.countdown = Some(Countdown { ends_at_us: ends, label: label_text });
                    },
                    None => {},
                }
            },
            None => {},
        }
        let ghost m0 = self.messages_view();
        let ghost msg_v = (now_us, channel, sender_name@, text@);
        self.messages.push(ChatMessage { received_at_us: now_us, channel, sender_name, text });
        assert(self.messages_view() =~= m0.push(msg_v));
        if self.messages.len() > MAX_MESSAGES {
            let ghost m1 = self.messages_view();
            let _ = self.messages.remove(0);
            assert(self.messages_view() =~= m1.drop_first());
        }
        self.scroll_to_bottom = true;
        assert(notices@.map_values(|n: ChatNotice| notice_view(n)) =~= notices_for(msg_v.3));
        notices
    }

    /// One update at `now_us`: takes in the chat messages among the events,
    /// then drops raid warnings older than ten seconds and an expired
    /// countdown. Returns the notifications to show.
    pub fn update(&mut self, events: Vec<GameEvent>, now_us: u64) -> (notices: Vec<ChatNotice>)
        requires
            old(self).messages@.len() <= MAX_MESSAGES,
        ensures
            final(self).messages@.len() <= MAX_MESSAGES,
            forall|i: int| 0 <= i < final(self).warnings@.len() ==>
                (if now_us >= (#[trigger] final(self).warnings@[i]).at_us { now_us - final(self).warnings@[i].at_us } else { 0 }) < WARNING_TTL_US,
            final(self).countdown matches Some(c) ==> now_us < c.ends_at_us,
            final(self).messages_view() == chat_events(old(self).state(), events_view(events@), now_us).messages,
            final(self).warnings_view() == chat_events(old(self).state(), events_view(events@), now_us).warnings.filter(warning_fresh(now_us)),
            final(self).countdown_view() == countdown_left(chat_events(old(self).state(), events_view(events@), now_us).countdown, now_us),
            notices@.map_values(|n: ChatNotice| notice_view(n)) == chat_notices(events_view(events@)),
            final(self).scroll_to_bottom == (old(self).scroll_to_bottom || has_chat(events_view(events@))),
    {
        let mut notices: Vec<ChatNotice> = Vec::new();
        let n = events.len();
        let mut i: usize = 0;
        let ghost evs = events_view(events@);
        let ghost s0 = self.state();
        assert(evs.take(0) =~= Seq::<EventView>::empty());
        assert(notices@.map_values(|n: ChatNotice| notice_view(n)) =~= Seq::<(Seq<char>, Seq<char>, bool)>::empty());
        while i < n
            invariant
                n == events@.len(),
                i <= n,
                evs == events_view(events@),
                self.messages@.len() <= MAX_MESSAGES,
                self.state() == chat_events(s0, evs.take(i as int), now_us),
                notices@.map_values(|n: ChatNotice| notice_view(n)) == chat_notices(evs.take(i as int)),
                self.scroll_to_bottom == (old(self).scroll_to_bottom || has_chat(evs.take(i as int))),
            decreases n - i,
        {
            proof {
                assert(evs.take(i + 1).drop_last() =~= evs.take(i as int));
                assert(evs.take(i + 1).last() == events@[i as int].view());
                assert(has_chat(evs.take(i + 1)) == (has_chat(evs.take(i as int)) || evs[i as int] is Chat)) by {
                    if has_chat(evs.take(i + 1)) {
                        let j = choose|j: int| 0 <= j < evs.take(i + 1).len() && #[trigger] evs.take(i + 1)[j] is Chat;
                        if j < i {
                            assert(evs.take(i as int)[j] == evs.take(i + 1)[j]);
                        }
                    }
                    if has_chat(evs.take(i as int)) {
                        let j = choose|j: int| 0 <= j < evs.take(i as int).len() && #[trigger] evs.take(i as int)[j] is Chat;
                        assert(evs.take(i + 1)[j] == evs.take(i as int)[j]);
                    }
                    if evs[i as int] is Chat {
                        assert(evs.take(i + 1)[i as int] is Chat);
                    }
                }
            }
            match &events[i] {
                GameEvent::Chat { channel, sender_name, text, .. } => {
                    let ghost nv = notices@.map_values(|n: ChatNotice| notice_view(n));
                    let more = self.ingest(*channel, sender_name.clone(), text.clone(), now_us);
                    let mut more = more;
                    let ghost mv = more@.map_values(|n: ChatNotice| notice_view(n));
                    notices.append(&mut more);
                    assert(notices@.map_values(|n: ChatNotice| notice_view(n)) =~= nv + mv);
                },
                _ => {},
            }
            i = i + 1;
        }
        assert(evs.take(n as int) =~= evs);
        let ghost mid = self.warnings_view();
        let mut kept: Vec<RaidWarning> = Vec::new();
        let mut old_warnings: Vec<RaidWarning> = Vec::new();
        std::mem::swap(&mut old_warnings, &mut self.warnings);
        let mut q: usize = 0;
        let ghost ov = old_warnings@.map_values(|w: RaidWarning| (w.text@, w.at_us));
        assert(ov == mid);
        proof { lemma_filter_empty(ov.take(0), warning_fresh(now_us)); }
        assert(kept@.map_values(|w: RaidWarning| (w.text@, w.at_us)) =~= Seq::<(Seq<char>, u64)>::empty());
        while q < old_warnings.len()
            invariant
                q <= old_warnings@.len(),
                ov == old_warnings@.map_values(|w: RaidWarning| (w.text@, w.at_us)),
                kept@.map_values(|w: RaidWarning| (w.text@, w.at_us)) == ov.take(q as int).filter(warning_fresh(now_us)),
                forall|k: int| 0 <= k < kept@.len() ==>
                    (if now_us >= (#[trigger] kept@[k]).at_us { now_us - kept@[k].at_us } else { 0 }) < WARNING_TTL_US,
            decreases old_warnings@.len() - q,
        {
            let w = &old_warnings[q];
            let ghost kv = kept@.map_values(|w: RaidWarning| (w.text@, w.at_us));
            proof {
                assert(ov.take(q + 1) =~= ov.take(q as int).push(ov[q as int]));
                lemma_filter_push(ov.take(q as int), warning_fresh(now_us), ov[q as int]);
            }
            let age = if now_us >= w.at_us { now_us - w.at_us } else { 0 };
            if age < WARNING_TTL_US {
                kept.push(RaidWarning { text: w.text.clone(), at_us: w.at_us });
                assert(kept@.map_values(|w: RaidWarning| (w.text@, w.at_us)) =~= kv.push(ov[q as int]));
            }
            q = q + 1;
        }
        assert(ov.take(q as int) =~= ov);
        self.warnings = kept;
        let expired = match &self.countdown { Some(c) => now_us >= c.ends_at_us, None => false };
        if expired {
            self.countdown = None;
        }
        notices
    }
}

} // verus!
