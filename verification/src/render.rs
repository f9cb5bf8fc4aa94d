//! The control of the renderer: where a pixel lies in the field of view, and
//! the progressive mode, which adds pass after pass of one scene and starts
//! afresh when the description of the scene changes.

use vstd::arithmetic::div_mod::lemma_div_is_ordered;
use vstd::arithmetic::power2::{lemma2_to64_rest, pow2};
use vstd::prelude::*;
use crate::pattern::{is_nan, less, INFINITY, ONE, SIGN};
use crate::config::{config_of, parse_config, ConfigError, ConfigErrorView};
use crate::scene::{Config, ConfigView};
use crate::text::same_text;

verus! {

/// How far the pixel in column `x` and row `y`, counted from the top left,
/// lies from the middle of an image: twice the column less the width, and
/// twice the row counted from the bottom less the height. Divided by the
/// width and the height these are the fractions of the field of view by
/// which the camera's ray is turned, none of them beyond the whole.
pub fn pixel_offsets(x: u32, y: u32, width: u32, height: u32) -> (r: (i64, i64))
    requires
        x < width,
        y < height,
    ensures
        r.0 == 2 * x - width,
        r.1 == 2 * (height - y - 1) - height,
        -width <= r.0 < width,
        -height <= r.1 < height,
{
    let across: i64 = 2 * (x as i64) - (width as i64);
    let up: i64 = 2 * ((height - y - 1) as i64) - (height as i64);
    (across, up)
}

/// The pattern of 255, the brightest value of a channel.
pub const BRIGHTEST: u64 = 0x406f_e000_0000_0000;

/// Two to the power of 52: the patterns of one exponent.
pub const SPAN: u64 = 0x10_0000_0000_0000;

/// The byte that shows a channel whose value is given as a pattern: the
/// whole part of the value, and 0 or 255 where that lies below or above the
/// bytes. What is no number shows as 0.
///
/// From one on, a pattern holds the exponent of its number, raised by 1023,
/// above its lowest 52 bits, and in those the fraction of the significand
/// after its leading one.
pub open spec fn byte_of(p: u64) -> int {
    if is_nan(p) || p >= SIGN || p < ONE {
        0
    } else if p >= BRIGHTEST {
        255
    } else {
        let exponent = p / SPAN - 1023;
        let significand = p % SPAN + SPAN;
        significand / (pow2((52 - exponent) as nat) as int)
    }
}

/// The divisor that takes the significand of a number with the given
/// exponent to its whole part.
proof fn lemma_divisor(exponent: int)
    requires
        0 <= exponent <= 7,
    ensures
        pow2((52 - exponent) as nat) == if exponent == 0 {
            0x10_0000_0000_0000int
        } else if exponent == 1 {
            0x8_0000_0000_0000int
        } else if exponent == 2 {
            0x4_0000_0000_0000int
        } else if exponent == 3 {
            0x2_0000_0000_0000int
        } else if exponent == 4 {
            0x1_0000_0000_0000int
        } else if exponent == 5 {
            0x8000_0000_0000int
        } else if exponent == 6 {
            0x4000_0000_0000int
        } else {
            0x2000_0000_0000int
        },
{
    lemma2_to64_rest();
}

/// The byte of a number from one up to 255 lies between the power of two
/// of its exponent and the next.
proof fn lemma_byte_by_exponent(p: u64)
    requires
        ONE <= p < BRIGHTEST,
    ensures
        0 <= p / SPAN - 1023 <= 7,
        p / SPAN == 1023 ==> byte_of(p) == 1,
        p / SPAN == 1024 ==> 2 <= byte_of(p) < 4,
        p / SPAN == 1025 ==> 4 <= byte_of(p) < 8,
        p / SPAN == 1026 ==> 8 <= byte_of(p) < 16,
        p / SPAN == 1027 ==> 16 <= byte_of(p) < 32,
        p / SPAN == 1028 ==> 32 <= byte_of(p) < 64,
        p / SPAN == 1029 ==> 64 <= byte_of(p) < 128,
        p / SPAN == 1030 ==> 128 <= byte_of(p) < 256,
{
    let exponent = p / SPAN - 1023;
    let significand = p % SPAN + SPAN;
    let divisor = pow2((52 - exponent) as nat) as int;
    lemma_divisor(exponent);
    assert(byte_of(p) == significand / divisor);
    assert(0x10_0000_0000_0000 <= significand < 0x20_0000_0000_0000);
    if exponent == 0 {
        assert(significand / 0x10_0000_0000_0000 == 1);
    } else if exponent == 1 {
        assert(2 <= significand / 0x8_0000_0000_0000 < 4);
    } else if exponent == 2 {
        assert(4 <= significand / 0x4_0000_0000_0000 < 8);
    } else if exponent == 3 {
        assert(8 <= significand / 0x2_0000_0000_0000 < 16);
    } else if exponent == 4 {
        assert(16 <= significand / 0x1_0000_0000_0000 < 32);
    } else if exponent == 5 {
        assert(32 <= significand / 0x8000_0000_0000 < 64);
    } else if exponent == 6 {
        assert(64 <= significand / 0x4000_0000_0000 < 128);
    } else {
        assert(128 <= significand / 0x2000_0000_0000 < 256);
    }
}

/// Every byte lies from 0 to 255.
pub proof fn lemma_byte_is_in_range(p: u64)
    ensures
        0 <= byte_of(p) <= 255,
{
    if !(is_nan(p) || p >= SIGN || p < ONE) && p < BRIGHTEST {
        lemma_byte_by_exponent(p);
    }
}

/// A greater value never shows as a smaller byte: values beyond the bytes
/// do not wrap around.
pub proof fn lemma_brighter_is_no_darker(a: u64, b: u64)
    requires
        less(a, b),
    ensures
        byte_of(a) <= byte_of(b),
{
    lemma_byte_is_in_range(a);
    lemma_byte_is_in_range(b);
    if a >= SIGN || a < ONE {
        assert(byte_of(a) == 0);
    } else if b >= BRIGHTEST {
        assert(byte_of(b) == 255);
    } else {
        assert(ONE <= a < b < BRIGHTEST);
        lemma_byte_by_exponent(a);
        lemma_byte_by_exponent(b);
        if a / SPAN == b / SPAN {
            let exponent = a / SPAN - 1023;
            let divisor = pow2((52 - exponent) as nat) as int;
            lemma_divisor(exponent);
            assert(a % SPAN <= b % SPAN);
            assert(byte_of(a) == (a % SPAN + SPAN) / divisor);
            assert(byte_of(b) == (b % SPAN + SPAN) / divisor);
            assert(divisor > 0);
            lemma_div_is_ordered(a % SPAN + SPAN, b % SPAN + SPAN, divisor);
        } else {
            assert(a / SPAN < b / SPAN);
        }
    }
}

/// Turns the value of a channel into the byte that shows it.
pub fn channel_byte(p: u64) -> (r: u8)
    ensures
        r == byte_of(p),
{
    if p >= SIGN || p < ONE || p > INFINITY {
        return 0;
    }
    if p >= BRIGHTEST {
        return 255;
    }
    let exponent: u64 = p / SPAN - 1023;
    let significand: u64 = p % SPAN + SPAN;
    let divisor: u64 = if exponent == 0 {
        0x10_0000_0000_0000
    } else if exponent == 1 {
        0x8_0000_0000_0000
    } else if exponent == 2 {
        0x4_0000_0000_0000
    } else if exponent == 3 {
        0x2_0000_0000_0000
    } else if exponent == 4 {
        0x1_0000_0000_0000
    } else if exponent == 5 {
        0x8000_0000_0000
    } else if exponent == 6 {
        0x4000_0000_0000
    } else {
        0x2000_0000_0000
    };
    proof {
        lemma2_to64_rest();
        assert(exponent <= 7);
        assert(divisor == pow2((52 - exponent) as nat));
    }
    (significand / divisor) as u8
}

/// The state of the progressive renderer.
#[derive(Debug)]
pub enum Driver {
    /// No description has been read yet.
    Idle,
    /// The scene of `raw` is being rendered, and `frames` passes over it
    /// have been added up.
    Rendering { raw: String, config: Config, frames: u64 },
    /// The description `raw` was refused; the renderer waits for another.
    Waiting { raw: String },
}

/// The state of the renderer, with the description as a character sequence.
pub enum DriverView {
    Idle,
    Rendering { raw: Seq<char>, config: ConfigView, frames: u64 },
    Waiting { raw: Seq<char> },
}

impl View for Driver {
    type V = DriverView;

    open spec fn view(&self) -> DriverView {
        match self {
            Driver::Idle => DriverView::Idle,
            Driver::Rendering { raw, config, frames } => DriverView::Rendering {
                raw: raw@,
                config: config@,
                frames: *frames,
            },
            Driver::Waiting { raw } => DriverView::Waiting { raw: raw@ },
        }
    }
}

/// What the program around the renderer is to do next.
#[derive(Debug)]
pub enum Action {
    /// Clear the sums of all pixels, then render a pass of the new scene.
    Restart,
    /// Render another pass of the same scene.
    Continue,
    /// Show the error, then read the description again.
    Report(ConfigError),
    /// Wait a moment, then read the description again.
    Sleep,
}

/// An action, with its error by its view.
pub enum ActionView {
    Restart,
    Continue,
    Report(ConfigErrorView),
    Sleep,
}

impl View for Action {
    type V = ActionView;

    open spec fn view(&self) -> ActionView {
        match self {
            Action::Restart => ActionView::Restart,
            Action::Continue => ActionView::Continue,
            Action::Report(e) => ActionView::Report(e@),
            Action::Sleep => ActionView::Sleep,
        }
    }
}

/// Whether `text` is the description that the renderer read last.
pub open spec fn is_unchanged(state: DriverView, text: Seq<char>) -> bool {
    match state {
        DriverView::Idle => false,
        DriverView::Rendering { raw, .. } => raw == text,
        DriverView::Waiting { raw } => raw == text,
    }
}

/// The state and the action after a description was read for the first time
/// or in place of another: its scene with no pass rendered yet, or the wait
/// for a better one.
pub open spec fn after_new_text(text: Seq<char>) -> (DriverView, ActionView) {
    match config_of(text) {
        Ok(config) => (DriverView::Rendering { raw: text, config, frames: 0 }, ActionView::Restart),
        Err(e) => (DriverView::Waiting { raw: text }, ActionView::Report(e)),
    }
}

/// The state and the action after the description was read. An unchanged
/// description changes nothing: a scene is rendered further, an error is
/// waited on. A changed one is parsed, and the passes so far are given up.
pub open spec fn after_text(state: DriverView, text: Seq<char>) -> (DriverView, ActionView) {
    if is_unchanged(state, text) {
        (
            state,
            if state is Rendering {
                ActionView::Continue
            } else {
                ActionView::Sleep
            },
        )
    } else {
        after_new_text(text)
    }
}

/// The state after a pass was rendered and added to the sums, and the number
/// of passes that the sums then hold, by which they are divided for display.
/// There is none where no scene is being rendered or the count is at its
/// limit; the state is then as before.
pub open spec fn after_frame(state: DriverView) -> (DriverView, Option<u64>) {
    match state {
        DriverView::Rendering { raw, config, frames } => if frames < u64::MAX {
            (
                DriverView::Rendering { raw, config, frames: (frames + 1) as u64 },
                Some((frames + 1) as u64),
            )
        } else {
            (state, None)
        },
        _ => (state, None),
    }
}

fn start(text: &str) -> (r: (Driver, Action))
    ensures
        (r.0@, r.1@) == after_new_text(text@),
{
    match parse_config(text) {
        Ok(config) => (
            Driver::Rendering { raw: text.to_owned(), config, frames: 0 },
            Action::Restart,
        ),
        Err(e) => (Driver::Waiting { raw: text.to_owned() }, Action::Report(e)),
    }
}

impl Driver {
    /// The renderer before anything was read.
    pub fn new() -> (r: Driver)
        ensures
            r@ == DriverView::Idle,
    {
        Driver::Idle
    }

    /// Takes the description as it was just read.
    pub fn on_text(self, text: &str) -> (r: (Driver, Action))
        ensures
            (r.0@, r.1@) == after_text(self@, text@),
    {
        match self {
            Driver::Idle => start(text),
            Driver::Rendering { raw, config, frames } => {
                if same_text(raw.as_str(), text) {
                    (Driver::Rendering { raw, config, frames }, Action::Continue)
                } else {
                    start(text)
                }
            },
            Driver::Waiting { raw } => {
                if same_text(raw.as_str(), text) {
                    (Driver::Waiting { raw }, Action::Sleep)
                } else {
                    start(text)
                }
            },
        }
    }

    /// Counts a pass that was rendered and added to the sums.
    pub fn on_frame(self) -> (r: (Driver, Option<u64>))
        ensures
            (r.0@, r.1) == after_frame(self@),
    {
        match self {
            Driver::Rendering { raw, config, frames } => {
                if frames < u64::MAX {
                    (Driver::Rendering { raw, config, frames: frames + 1 }, Some(frames + 1))
                } else {
                    (Driver::Rendering { raw, config, frames }, None)
                }
            },
            other => (other, None),
        }
    }

    /// The scene that is being rendered, if there is one.
    pub fn config(&self) -> (r: Option<&Config>)
        ensures
            match r {
                Some(c) => self@ is Rendering && c@ == self@->config,
                None => !(self@ is Rendering),
            },
    {
        match self {
            Driver::Rendering { config, .. } => Some(config),
            _ => None,
        }
    }
}

} // verus!
