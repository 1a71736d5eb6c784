//! The text of the download progress bar and of the spinner shown while unpacking.

use vstd::prelude::*;
use vstd::utf8::encode_utf8;
use crate::text::{decimal, pad_left, push_decimal_padded, push_repeated, repeat_char};

verus! {

/// `n` when it is positive, else zero: how often `for _ in 0..n` runs.
pub open spec fn runs(n: int) -> nat {
    if n > 0 {
        n as nat
    } else {
        0
    }
}

/// The progress bar line for a bar `width` characters wide with `filled` cells
/// done, and `percent` shown behind it: `\r[***...]-` then the percentage
/// right-aligned in three characters, then `%`.
pub open spec fn progress_bar_text(width: int, filled: int, percent: nat) -> Seq<char> {
    seq!['\r', '['] + repeat_char('*', runs(filled)) + repeat_char('.', runs(width - 6 - filled))
        + seq![']', '-'] + pad_left(decimal(percent), 3) + seq!['%']
}

/// Two brackets, the dash and three places for the percentage take six of the
/// `width` columns: the cells of the bar fill the rest exactly.
pub proof fn lemma_progress_bar_cells(width: int, filled: int)
    requires
        0 <= filled <= width - 6,
    ensures
        runs(filled) + runs(width - 6 - filled) == width - 6,
{
}

/// The bar shows `filled` stars (none when it is not positive), then a dot for each
/// remaining cell of the `width - 6` cells, then the closing bracket.
pub proof fn lemma_progress_bar_cells_drawn(width: int, filled: int, percent: nat)
    ensures
        progress_bar_text(width, filled, percent)[0] == '\r',
        progress_bar_text(width, filled, percent)[1] == '[',
        forall|k: int|
            0 <= k < runs(filled) ==> #[trigger] progress_bar_text(width, filled, percent)[2 + k]
                == '*',
        forall|k: int|
            0 <= k < runs(width - 6 - filled) ==> #[trigger] progress_bar_text(
                width,
                filled,
                percent,
            )[2 + runs(filled) + k] == '.',
        progress_bar_text(width, filled, percent)[2 + runs(filled) + runs(width - 6 - filled) as int]
            == ']',
{
    let stars = repeat_char('*', runs(filled));
    let dots = repeat_char('.', runs(width - 6 - filled));
    let head = seq!['\r', '['];
    let tail = seq![']', '-'] + pad_left(decimal(percent), 3) + seq!['%'];
    let t = progress_bar_text(width, filled, percent);
    assert(t =~= head + stars + dots + tail);
    assert forall|k: int| 0 <= k < runs(filled) implies #[trigger] t[2 + k] == '*' by {
        assert((head + stars)[2 + k] == stars[k]);
    }
    assert forall|k: int| 0 <= k < runs(width - 6 - filled) implies #[trigger] t[2 + runs(filled)
        + k] == '.' by {
        assert((head + stars + dots)[2 + runs(filled) + k] == dots[k]);
    }
    assert(tail[0] == ']');
}

/// The progress bar line; six of the `width` characters go to the brackets and the
/// percentage, the others are cells. `filled` and `percent` are what the download has
/// reached (the caller works them out from the fraction done).
pub fn progress_bar_line(width: i32, filled: i32, percent: usize) -> (r: String)
    requires
        i32::MIN <= width - 6 - filled <= i32::MAX,
        i32::MIN <= width - 6,
    ensures
        r@ == progress_bar_text(width as int, filled as int, percent as nat),
{
    let inner_width = width - 6;
    let mut r = String::new();
    let open = "\r[";
    let star = "*";
    let dot = ".";
    let close = "]-";
    let percent_sign = "%";
    proof {
        reveal_strlit("\r[");
        reveal_strlit("*");
        reveal_strlit(".");
        reveal_strlit("]-");
        reveal_strlit("%");
    }
    r.append(open);
    if filled > 0 {
        push_repeated(&mut r, star, filled as usize);
    }
    let rest = inner_width - filled;
    if rest > 0 {
        push_repeated(&mut r, dot, rest as usize);
    }
    r.append(close);
    push_decimal_padded(&mut r, percent, 3);
    r.append(percent_sign);
    proof {
        assert(r@ =~= progress_bar_text(width as int, filled as int, percent as nat));
    }
    r
}

/// The progress bar was stopped before it was started.
pub struct NotStartedError;

impl NotStartedError {
    /// The message for the error.
    pub fn message(&self) -> (r: String)
        ensures
            r@ == "async progress bar not started"@,
    {
        String::from_str("async progress bar not started")
    }
}

/// What the spinner's stop channel said after a frame was shown.
#[derive(Clone, Copy, Debug, PartialEq, Eq, Structural)]
pub enum SpinnerSignal {
    /// A stop message arrived.
    Stop,
    /// Nothing arrived.
    Empty,
    /// The sending side is gone.
    Disconnected,
}

/// What the spinner does next.
#[derive(Clone, Copy, Debug, PartialEq, Eq, Structural)]
pub enum SpinnerStep {
    /// The spinner ends.
    Finish,
    /// Show frame `tick` next, after one more pause when `pause` holds.
    Next { tick: usize, pause: bool },
}

/// A spinner that cycles through `chars` with `label` beside it, one frame per `interval`.
pub struct AsyncProgressBar {
    started: bool,
    chars: Vec<String>,
    interval: core::time::Duration,
    label: String,
}

impl AsyncProgressBar {
    /// Whether the spinner was started.
    pub closed spec fn is_started(&self) -> bool {
        self.started
    }

    /// The frames of the spinner.
    pub closed spec fn frames(&self) -> Seq<Seq<char>> {
        self.chars@.map_values(|s: String| s@)
    }

    /// The text beside the frames.
    pub closed spec fn label_text(&self) -> Seq<char> {
        self.label@
    }

    /// The pause between frames.
    pub closed spec fn pause(&self) -> core::time::Duration {
        self.interval
    }

    /// A started spinner with these frames, pause and label; the caller shows its frames.
    pub fn start(chars: Vec<String>, interval: core::time::Duration, label: String) -> (pb: AsyncProgressBar)
        ensures
            pb.is_started(),
            pb.frames() == chars@.map_values(|s: String| s@),
            pb.pause() == interval,
            pb.label_text() == label@,
    {
        AsyncProgressBar { started: true, chars, interval, label }
    }

    /// The pause between frames.
    pub fn interval(&self) -> (d: core::time::Duration)
        ensures
            d == self.pause(),
    {
        self.interval
    }

    /// How many frames the spinner cycles through.
    pub fn frame_count(&self) -> (n: usize)
        ensures
            n == self.frames().len(),
    {
        self.chars.len()
    }

    /// The line for frame `tick`: `\r`, the frame, ` - `, the label.
    pub fn frame(&self, tick: usize) -> (r: String)
        requires
            tick < self.frames().len(),
        ensures
            r@ == seq!['\r'] + self.frames()[tick as int] + seq![' ', '-', ' '] + self.label_text(),
    {
        let mut r = String::from_str("\r");
        let sep = " - ";
        proof {
            reveal_strlit("\r");
            reveal_strlit(" - ");
        }
        r.append(self.chars[tick].as_str());
        r.append(sep);
        r.append(self.label.as_str());
        proof {
            assert(r@ =~= seq!['\r'] + self.frames()[tick as int] + seq![' ', '-', ' '] + self.label_text());
        }
        r
    }

    /// What follows frame `tick` given what the stop channel said: a stop message
    /// ends the spinner; otherwise the frames go round, with one more pause when the
    /// sending side is gone.
    pub fn step(&self, tick: usize, signal: SpinnerSignal) -> (s: SpinnerStep)
        requires
            tick < self.frames().len(),
        ensures
            signal == SpinnerSignal::Stop ==> s == SpinnerStep::Finish,
            signal != SpinnerSignal::Stop ==> s == (SpinnerStep::Next {
                tick: ((tick + 1) % self.frames().len() as int) as usize,
                pause: signal == SpinnerSignal::Disconnected,
            }),
    {
        let n = self.chars.len();
        let next = if tick + 1 == n {
            0
        } else {
            tick + 1
        };
        assert(next == (tick + 1) % (n as int)) by (nonlinear_arith)
            requires
                tick < n,
                next == (if tick + 1 == n {
                    0
                } else {
                    tick + 1
                }),
        ;
        match signal {
            SpinnerSignal::Stop => SpinnerStep::Finish,
            SpinnerSignal::Empty => SpinnerStep::Next { tick: next, pause: false },
            SpinnerSignal::Disconnected => SpinnerStep::Next { tick: next, pause: true },
        }
    }

    /// The text that wipes the spinner line: `\r`, spaces over the label's bytes and
    /// four more, `\r`.
    pub fn clear_line(&self) -> (r: String)
        requires
            encode_utf8(self.label_text()).len() + 4 <= usize::MAX,
        ensures
            r@ == seq!['\r'] + repeat_char(' ', (encode_utf8(self.label_text()).len() + 4) as nat)
                + seq!['\r'],
    {
        let n = self.label.as_str().len();
        let mut r = String::from_str("\r");
        let space = " ";
        proof {
            reveal_strlit("\r");
            reveal_strlit(" ");
        }
        push_repeated(&mut r, space, n + 4);
        r.append("\r");
        assert(n == encode_utf8(self.label_text()).len());
        proof {
            assert(r@ =~= seq!['\r'] + repeat_char(' ', (n + 4) as nat) + seq!['\r']);
        }
        r
    }

    /// Stops the spinner: `Ok` when it was started.
    pub fn stop(self) -> (r: Result<(), NotStartedError>)
        ensures
            r is Ok <==> self.is_started(),
    {
        if self.started {
            Ok(())
        } else {
            Err(NotStartedError)
        }
    }
}

} // verus!
