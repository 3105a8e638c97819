//! Inbound notification lines: parsing and classification, and the event
//! loop's state machine.
//!
//! The interpreter reports events as text lines with short prefixes. Each
//! line is classified into a typed payload; numeric fields fall back to `0`
//! when they do not parse, as the wire protocol prescribes. The event loop
//! runs until the `exit` notification arrives, which demands that the child
//! process be killed — exactly once.

use vstd::prelude::*;

use crate::ids::is_digit;
use crate::text::split_all;
use crate::text::split_char;
use crate::text::starts_with;
use crate::text::has_prefix;
use crate::text::trim_view;
use crate::text::trim_lo;
use crate::text::trim_hi;
use crate::text::trim_range;
use crate::text::trimmed;
use crate::text::str_eq;

verus! {

/// The value of an ASCII digit.
pub open spec fn digit_val(c: char) -> int {
    c as u32 - 0x30
}

/// Every character is an ASCII digit.
pub open spec fn all_digits(s: Seq<char>) -> bool {
    forall|i: int| 0 <= i < s.len() ==> is_digit(#[trigger] s[i])
}

/// The number the digit string `s` denotes.
pub open spec fn digits_val(s: Seq<char>) -> int
    decreases s.len(),
{
    if s.len() == 0 {
        0
    } else {
        digits_val(s.drop_last()) * 10 + digit_val(s.last())
    }
}

pub proof fn lemma_digits_val_nonneg(s: Seq<char>)
    requires
        all_digits(s),
    ensures
        digits_val(s) >= 0,
    decreases s.len(),
{
    if s.len() > 0 {
        assert(all_digits(s.drop_last())) by {
            assert(forall|i: int|
                0 <= i < s.drop_last().len() ==> #[trigger] s.drop_last()[i] == s[i]);
        }
        lemma_digits_val_nonneg(s.drop_last());
    }
}

/// Extending a digit string can only grow its value.
pub proof fn lemma_digits_val_mono(s: Seq<char>, i: int)
    requires
        all_digits(s),
        0 <= i <= s.len(),
    ensures
        digits_val(s) >= digits_val(s.take(i)),
    decreases s.len() - i,
{
    if i < s.len() {
        assert(s.take(i + 1).drop_last() =~= s.take(i));
        assert(s.take(i + 1).last() == s[i]);
        assert(all_digits(s.take(i))) by {
            assert(forall|j: int| 0 <= j < i ==> #[trigger] s.take(i)[j] == s[j]);
        }
        lemma_digits_val_nonneg(s.take(i));
        assert(digits_val(s.take(i + 1)) == digits_val(s.take(i)) * 10 + digit_val(s[i]));
        assert(digits_val(s.take(i + 1)) >= digits_val(s.take(i)));
        lemma_digits_val_mono(s, i + 1);
        assert(s.take(s.len() as int) =~= s);
    } else {
        assert(s.take(i) =~= s);
    }
}

/// The digit part of an unsigned decimal literal: a leading `+` is allowed.
pub open spec fn u64_digits(s: Seq<char>) -> Seq<char> {
    if s.len() > 0 && s[0] == '+' {
        s.drop_first()
    } else {
        s
    }
}

/// `s` parses as a `u64`, as `str::parse::<u64>` accepts it.
pub open spec fn u64_ok(s: Seq<char>) -> bool {
    let d = u64_digits(s);
    d.len() > 0 && all_digits(d) && digits_val(d) <= 0xffff_ffff_ffff_ffff
}

/// What `str::parse::<u64>().unwrap_or(0)` yields on `s`.
pub open spec fn u64_or_zero(s: Seq<char>) -> int {
    if u64_ok(s) {
        digits_val(u64_digits(s))
    } else {
        0
    }
}

/// The digit part of a signed decimal literal: a leading `+` or `-` is
/// allowed.
pub open spec fn i64_body(s: Seq<char>) -> Seq<char> {
    if s.len() > 0 && (s[0] == '+' || s[0] == '-') {
        s.drop_first()
    } else {
        s
    }
}

/// The literal `s` carries a minus sign.
pub open spec fn i64_negative(s: Seq<char>) -> bool {
    s.len() > 0 && s[0] == '-'
}

/// `s` parses as an `i64`, as `str::parse::<i64>` accepts it.
pub open spec fn i64_ok(s: Seq<char>) -> bool {
    let d = i64_body(s);
    d.len() > 0 && all_digits(d) && (if i64_negative(s) {
        digits_val(d) <= 0x8000_0000_0000_0000
    } else {
        digits_val(d) <= 0x7fff_ffff_ffff_ffff
    })
}

/// What `str::parse::<i64>().unwrap_or(0)` yields on `s`.
pub open spec fn i64_or_zero(s: Seq<char>) -> int {
    if i64_ok(s) {
        if i64_negative(s) {
            -digits_val(i64_body(s))
        } else {
            digits_val(i64_body(s))
        }
    } else {
        0
    }
}

/// The digit value of `c`, or `None` when `c` is no ASCII digit.
fn digit_of(c: char) -> (r: Option<u64>)
    ensures
        r is Some <==> is_digit(c),
        r matches Some(v) ==> v as int == digit_val(c),
{
    let u = c as u32;
    if 0x30 <= u && u <= 0x39 {
        Some((u - 0x30) as u64)
    } else {
        None
    }
}

/// Reads the digits of `s` from `start` to the end, accumulating their
/// value; yields `None` when a non-digit appears, no digit appears, or the
/// value exceeds `bound`.
fn parse_digits(s: &str, start: usize, bound: u64) -> (r: Option<u64>)
    requires
        start <= s@.len(),
        bound >= 9,
    ensures
        ({
            let d = s@.skip(start as int);
            &&& (r is Some <==> d.len() > 0 && all_digits(d) && digits_val(d) <= bound)
            &&& (r matches Some(v) ==> v as int == digits_val(d))
        }),
{
    let n = s.unicode_len();
    let ghost d = s@.skip(start as int);
    proof {
        assert(d =~= s@.subrange(start as int, n as int));
    }
    if start == n {
        return None;
    }
    let mut acc: u64 = 0;
    let mut i = start;
    loop
        invariant
            bound >= 9,
            start <= i <= n,
            start < n,
            n == s@.len(),
            d == s@.subrange(start as int, n as int),
            all_digits(s@.subrange(start as int, i as int)),
            acc as int == digits_val(s@.subrange(start as int, i as int)),
            acc <= bound,
        decreases n - i,
    {
        if i == n {
            proof {
                assert(s@.subrange(start as int, i as int) =~= d);
            }
            return Some(acc);
        }
        let c = s.get_char(i);
        let ghost pre = s@.subrange(start as int, i as int);
        proof {
            assert(d[i - start] == s@[i as int]);
        }
        match digit_of(c) {
            None => {
                return None;
            },
            Some(dv) => {
                proof {
                    vstd::arithmetic::div_mod::lemma_fundamental_div_mod(
                        (bound - dv) as int,
                        10,
                    );
                    assert(s@.subrange(start as int, i + 1).drop_last() =~= pre);
                    assert(s@.subrange(start as int, i + 1).last() == s@[i as int]);
                }
                if acc > (bound - dv) / 10 {
                    proof {
                        if all_digits(d) && digits_val(d) <= bound {
                            assert(all_digits(s@.subrange(start as int, i + 1))) by {
                                assert(forall|j: int|
                                    0 <= j < i + 1 - start ==> #[trigger] s@.subrange(
                                        start as int,
                                        i + 1,
                                    )[j] == d[j]);
                            }
                            assert(digits_val(s@.subrange(start as int, i + 1)) == acc * 10
                                + dv);
                            assert(d.take(i + 1 - start) =~= s@.subrange(start as int, i + 1));
                            lemma_digits_val_mono(d, i + 1 - start);
                            assert(acc * 10 + dv > bound);
                            assert(false);
                        }
                    }
                    return None;
                }
                proof {
                    assert(acc * 10 <= bound - dv);
                }
                acc = acc * 10 + dv;
                proof {
                    assert(all_digits(s@.subrange(start as int, i + 1))) by {
                        assert(forall|j: int|
                            0 <= j < i - start ==> #[trigger] s@.subrange(start as int, i + 1)[j]
                                == pre[j]);
                        assert(s@.subrange(start as int, i + 1)[i - start] == s@[i as int]);
                    }
                }
                i = i + 1;
            },
        }
    }
}

/// Parses `s` as `str::parse::<u64>().unwrap_or(0)` does: an optional `+`,
/// then decimal digits; anything else, or overflow, yields `0`.
pub fn parse_u64_or_zero(s: &str) -> (r: u64)
    ensures
        r as int == u64_or_zero(s@),
{
    let n = s.unicode_len();
    if n == 0 {
        return 0;
    }
    let start: usize = if s.get_char(0) == '+' {
        1
    } else {
        0
    };
    proof {
        assert(u64_digits(s@) =~= s@.skip(start as int));
    }
    match parse_digits(s, start, u64::MAX) {
        Some(v) => v,
        None => 0,
    }
}

/// Parses `s` as `str::parse::<i64>().unwrap_or(0)` does: an optional sign,
/// then decimal digits; anything else, or overflow, yields `0`.
pub fn parse_i64_or_zero(s: &str) -> (r: i64)
    ensures
        r as int == i64_or_zero(s@),
{
    let n = s.unicode_len();
    if n == 0 {
        return 0;
    }
    let c0 = s.get_char(0);
    let neg = c0 == '-';
    let start: usize = if c0 == '-' || c0 == '+' {
        1
    } else {
        0
    };
    let bound: u64 = if neg {
        0x8000_0000_0000_0000
    } else {
        0x7fff_ffff_ffff_ffff
    };
    proof {
        assert(i64_body(s@) =~= s@.skip(start as int));
    }
    match parse_digits(s, start, bound) {
        Some(v) => {
            if neg {
                if v == 0x8000_0000_0000_0000 {
                    i64::MIN
                } else {
                    -(v as i64)
                }
            } else {
                v as i64
            }
        },
        None => 0,
    }
}

/// The payload of a structured event notification: pointer and window
/// coordinates, widget dimensions, key code and symbol, mouse button.
#[derive(Clone, Debug)]
pub struct TkEvent {
    pub x: i64,
    pub y: i64,
    pub root_x: i64,
    pub root_y: i64,
    pub height: i64,
    pub width: i64,
    pub key_code: u64,
    pub key_symbol: String,
    pub mouse_button: u64,
}

/// The mathematical image of a `TkEvent`.
pub struct EventView {
    pub x: int,
    pub y: int,
    pub root_x: int,
    pub root_y: int,
    pub height: int,
    pub width: int,
    pub key_code: int,
    pub key_symbol: Seq<char>,
    pub mouse_button: int,
}

impl View for TkEvent {
    type V = EventView;

    open spec fn view(&self) -> EventView {
        EventView {
            x: self.x as int,
            y: self.y as int,
            root_x: self.root_x as int,
            root_y: self.root_y as int,
            height: self.height as int,
            width: self.width as int,
            key_code: self.key_code as int,
            key_symbol: self.key_symbol@,
            mouse_button: self.mouse_button as int,
        }
    }
}

/// What a notification line means, at the specification level.
pub enum LineClass {
    Clicked(Seq<char>),
    BoolChange(Seq<char>, bool),
    EventFired(Seq<char>, EventView),
    ScaleChange(Seq<char>, Seq<char>),
    FontChoice(Seq<char>),
    Exit,
    Unrecognized,
}

/// A classified notification line, as the dispatcher handles it. A scale
/// change carries its value as the raw field text, for the embedding to
/// read as a floating-point number.
pub enum Notification {
    Clicked(String),
    BoolChange(String, bool),
    EventFired(String, TkEvent),
    ScaleChange(String, String),
    FontChoice(String),
    Exit,
    Unrecognized,
}

impl View for Notification {
    type V = LineClass;

    open spec fn view(&self) -> LineClass {
        match self {
            Notification::Clicked(w) => LineClass::Clicked(w@),
            Notification::BoolChange(w, v) => LineClass::BoolChange(w@, *v),
            Notification::EventFired(p, e) => LineClass::EventFired(p@, e@),
            Notification::ScaleChange(w, v) => LineClass::ScaleChange(w@, v@),
            Notification::FontChoice(d) => LineClass::FontChoice(d@),
            Notification::Exit => LineClass::Exit,
            Notification::Unrecognized => LineClass::Unrecognized,
        }
    }
}

/// The event payload read from the colon-separated fields of a structured
/// event line; numeric fields fall back to `0` when they do not parse.
pub open spec fn event_view_of(parts: Seq<Seq<char>>) -> EventView {
    EventView {
        x: i64_or_zero(parts[2]),
        y: i64_or_zero(parts[3]),
        root_x: i64_or_zero(parts[4]),
        root_y: i64_or_zero(parts[5]),
        height: i64_or_zero(parts[6]),
        width: i64_or_zero(parts[7]),
        key_code: u64_or_zero(parts[8]),
        key_symbol: parts[9],
        mouse_button: u64_or_zero(parts[10]),
    }
}

/// The classification of one notification line, by its prefix:
/// `clicked<X><id>` names a no-argument callback; `cb1b-<id>-<0|1>` a
/// boolean change; `cb1e:<pattern>:<nine fields>` a structured event;
/// `cb1f-<id>-<value>` a scale change; `font<desc>` a font choice; `exit`
/// ends the loop. A line that fits no shape, or misses fields, is
/// unrecognized and will be ignored.
pub open spec fn classify(line: Seq<char>) -> LineClass {
    if starts_with(line, "clicked"@) {
        if line.len() >= 8 {
            LineClass::Clicked(line.skip(8))
        } else {
            LineClass::Unrecognized
        }
    } else if starts_with(line, "cb1b"@) {
        let parts = split_all(line, '-');
        if parts.len() >= 3 {
            LineClass::BoolChange(trim_view(parts[1]), trim_view(parts[2]) == seq!['1'])
        } else {
            LineClass::Unrecognized
        }
    } else if starts_with(line, "cb1e"@) {
        let parts = split_all(line, ':');
        if parts.len() >= 11 {
            LineClass::EventFired(trim_view(parts[1]), event_view_of(parts))
        } else {
            LineClass::Unrecognized
        }
    } else if starts_with(line, "cb1f"@) {
        let parts = split_all(line, '-');
        if parts.len() >= 3 {
            LineClass::ScaleChange(trim_view(parts[1]), trim_view(parts[2]))
        } else {
            LineClass::Unrecognized
        }
    } else if starts_with(line, "font"@) {
        LineClass::FontChoice(
            line.subrange(trim_lo(line, 4, line.len() as int), trim_hi(line, 4, line.len() as int)),
        )
    } else if starts_with(line, "exit"@) {
        LineClass::Exit
    } else {
        LineClass::Unrecognized
    }
}

/// Classifies one notification line, without its line terminator,
/// matching `classify`.
pub fn classify_line(line: &str) -> (r: Notification)
    ensures
        r@ == classify(line@),
{
    let n = line.unicode_len();
    if has_prefix(line, "clicked") {
        if n >= 8 {
            let widget = line.substring_char(8, n).to_owned();
            proof {
                assert(line@.subrange(8, n as int) =~= line@.skip(8));
            }
            Notification::Clicked(widget)
        } else {
            Notification::Unrecognized
        }
    } else if has_prefix(line, "cb1b") {
        let parts = split_char(line, '-');
        if parts.len() >= 3 {
            let widget = trimmed(parts[1].as_str());
            let value_text = trimmed(parts[2].as_str());
            let value = str_eq(value_text.as_str(), "1");
            proof {
                reveal_strlit("1");
                assert("1"@ =~= seq!['1']);
                assert(parts@[1]@ == split_all(line@, '-')[1]);
                assert(parts@[2]@ == split_all(line@, '-')[2]);
            }
            Notification::BoolChange(widget, value)
        } else {
            Notification::Unrecognized
        }
    } else if has_prefix(line, "cb1e") {
        let parts = split_char(line, ':');
        if parts.len() >= 11 {
            let pattern = trimmed(parts[1].as_str());
            let ev = TkEvent {
                x: parse_i64_or_zero(parts[2].as_str()),
                y: parse_i64_or_zero(parts[3].as_str()),
                root_x: parse_i64_or_zero(parts[4].as_str()),
                root_y: parse_i64_or_zero(parts[5].as_str()),
                height: parse_i64_or_zero(parts[6].as_str()),
                width: parse_i64_or_zero(parts[7].as_str()),
                key_code: parse_u64_or_zero(parts[8].as_str()),
                key_symbol: parts[9].clone(),
                mouse_button: parse_u64_or_zero(parts[10].as_str()),
            };
            proof {
                assert(forall|i: int|
                    0 <= i < parts@.len() ==> (#[trigger] parts@[i])@ == split_all(line@, ':')[i]);
            }
            Notification::EventFired(pattern, ev)
        } else {
            Notification::Unrecognized
        }
    } else if has_prefix(line, "cb1f") {
        let parts = split_char(line, '-');
        if parts.len() >= 3 {
            let widget = trimmed(parts[1].as_str());
            let value_text = trimmed(parts[2].as_str());
            proof {
                assert(parts@[1]@ == split_all(line@, '-')[1]);
                assert(parts@[2]@ == split_all(line@, '-')[2]);
            }
            Notification::ScaleChange(widget, value_text)
        } else {
            Notification::Unrecognized
        }
    } else if has_prefix(line, "font") {
        proof {
            reveal_strlit("font");
        }
        let (lo, hi) = trim_range(line, 4, n);
        Notification::FontChoice(line.substring_char(lo, hi).to_owned())
    } else if has_prefix(line, "exit") {
        Notification::Exit
    } else {
        Notification::Unrecognized
    }
}

/// The phases of the event loop: reading lines while the interpreter runs,
/// killing the child once `exit` arrives, and stopped.
#[derive(Clone, Copy, Debug, PartialEq, Eq, Structural)]
pub enum LoopState {
    Running,
    Terminating,
    Stopped,
}

/// The event loop's state machine. The blocking read loop itself lives in
/// the embedding; this type decides, line by line, what happens next.
pub struct EventLoop {
    state: LoopState,
}

impl View for EventLoop {
    type V = LoopState;

    closed spec fn view(&self) -> LoopState {
        self.state
    }
}

impl EventLoop {
    pub fn new() -> (r: EventLoop)
        ensures
            r@ is Running,
    {
        EventLoop { state: LoopState::Running }
    }

    /// The state the loop is in.
    pub fn current_state(&self) -> (r: LoopState)
        ensures
            r == self@,
    {
        self.state
    }

    /// Takes one notification line, classifies it, and steps the state
    /// machine: the `exit` notification — and only that — moves the loop
    /// out of `Running` into `Terminating`, where the caller must kill the
    /// child process and confirm with `child_killed`. Every other line
    /// leaves the loop running; its classification is returned for
    /// dispatch.
    pub fn on_line(&mut self, line: &str) -> (r: Notification)
        requires
            old(self)@ is Running,
        ensures
            r@ == classify(line@),
            classify(line@) is Exit ==> final(self)@ is Terminating,
            !(classify(line@) is Exit) ==> final(self)@ is Running,
    {
        let note = classify_line(line);
        if let Notification::Exit = &note {
            self.state = LoopState::Terminating;
        }
        note
    }

    /// Confirms that the child process was killed: the one transition into
    /// `Stopped`. It is only reachable once, since no transition leaves
    /// `Stopped`, so the child is killed exactly once.
    pub fn child_killed(&mut self)
        requires
            old(self)@ is Terminating,
        ensures
            final(self)@ is Stopped,
    {
        self.state = LoopState::Stopped;
    }

    /// The loop is done: control returns to the embedding's caller.
    pub fn done(&self) -> (r: bool)
        ensures
            r == (self@ is Stopped),
    {
        match self.state {
            LoopState::Stopped => true,
            _ => false,
        }
    }
}

} // verus!
