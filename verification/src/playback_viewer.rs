//! The animated-playback viewer: the policy of pause, seek, restart, frame rate and pacing.
//!
//! What is played (a GIF or a video) is driven from outside: the controller says what the source is
//! to do, and the pacing says when. Frame rates are computed elsewhere and come in as values.

use crate::config::Settings;
use crate::error::Complaint;
use crate::gif::GifLoop;
use crate::image_viewer::{at_least_one, clamp_columns, columns};
use crate::media::Input;
use crate::span::{left, Span};
use crate::terminal::{is_quit, quits, KeyCode, KeyEvent, KeyModifiers};
use crate::terminal_frame::TerminalFrame;
use crate::viewer_chrome::{barred, overlay_bottom_bar};
use crate::viewport::Viewport;
use vstd::prelude::*;
use vstd::string::*;

verus! {

/// A double-precision number, held by its bit pattern.
#[derive(Clone, Copy, Debug, PartialEq, Eq, Structural)]
pub struct Double {
    /// The IEEE 754 bit pattern.
    pub bits: u64,
}

/// Extracts a file path from the input, rejecting stdin with a clear message; `what` is what would
/// have to be read.
pub fn file_path(input: &Input, what: &str) -> (r: Result<String, Complaint>)
    ensures
        match input {
            Input::File(p) => r is Ok && r->Ok_0@ == p@,
            Input::Stdin => r is Err && r->Err_0.cause is None && r->Err_0.what@ == "reading "@
                + what@ + " from stdin is not yet implemented (arrives in task 025)"@,
        },
{
    match input {
        Input::File(p) => Ok(p.clone()),
        Input::Stdin => {
            let mut m = "reading ".to_owned();
            m.append(what);
            m.append(" from stdin is not yet implemented (arrives in task 025)");
            Err(Complaint { what: m, cause: None })
        },
    }
}

/// Whether `v` is the viewport for those terminal bounds, narrowed to that width where there is one.
pub open spec fn narrowed(width: Option<u32>, bounds: Viewport, v: Viewport) -> bool {
    match width {
        Some(w) => {
            let rows = columns(w) * at_least_one(bounds.rows) / at_least_one(
                bounds.cols,
            ) as int;
            &&& v.cols == columns(w)
            &&& v.rows == if rows < 1 {
                1
            } else if rows > 0xffff {
                0xffff
            } else {
                rows
            }
        },
        None => v.cols == at_least_one(bounds.cols) && v.rows == at_least_one(bounds.rows),
    }
}

/// The interactive render viewport: the terminal bounds, narrowed to the given width (keeping the
/// terminal's cell aspect) when one is set.
pub fn playback_viewport(settings: &Settings, bounds: Viewport) -> (v: Viewport)
    ensures
        narrowed(settings.width, bounds, v),
{
    let max_cols: u16 = if bounds.cols == 0 {
        1
    } else {
        bounds.cols
    };
    let max_rows: u16 = if bounds.rows == 0 {
        1
    } else {
        bounds.rows
    };
    match settings.width {
        Some(w) => {
            let cols: u16 = clamp_columns(w);
            assert(cols * max_rows <= 0xffff * 0xffff) by (nonlinear_arith)
                requires
                    0 <= cols <= 0xffff,
                    0 <= max_rows <= 0xffff,
            ;
            assert(0 <= cols * max_rows) by (nonlinear_arith);
            let rows: u32 = (cols as u32 * max_rows as u32) / max_cols as u32;
            Viewport { cols, rows: clamp_columns(rows) }
        },
        None => Viewport { cols: max_cols, rows: max_rows },
    }
}

/// What a GIF does at its last frame, under these settings.
pub fn gif_loop(settings: &Settings) -> (l: GifLoop)
    ensures
        l == (if settings.loop_playback {
            GifLoop::Infinite
        } else {
            GifLoop::Once
        }),
{
    if settings.loop_playback {
        GifLoop::Infinite
    } else {
        GifLoop::Once
    }
}

/// How long to wait before the next frame of a GIF: the span of the chosen rate where there is one,
/// else that of the frame, else the fallback.
pub fn next_wait(chosen: Option<Span>, frame: Option<Span>, fallback: Span) -> (s: Span)
    ensures
        s == (match chosen {
            Some(c) => c,
            None => match frame {
                Some(f) => f,
                None => fallback,
            },
        }),
{
    match chosen {
        Some(c) => c,
        None => match frame {
            Some(f) => f,
            None => fallback,
        },
    }
}

/// The status of a GIF of that name.
pub fn gif_status(name: &str) -> (s: String)
    ensures
        s@ == name@ + " | gif"@,
{
    crate::text::joined(name, " | gif")
}

/// The position, in nanoseconds, that a seek from there leads to.
pub open spec fn sought(position: nat, forward: bool) -> nat {
    if forward {
        (position + 5_000_000_000) as nat
    } else {
        left(position, 5_000_000_000)
    }
}

/// The position that a seek leads to: five seconds on or back, but not before the start.
pub fn seek_target(position: Span, forward: bool) -> (s: Span)
    requires
        position.nanos + 5_000_000_000 <= u128::MAX,
    ensures
        s.nanos == sought(position.nanos as nat, forward),
{
    let step = Span::from_secs(5);
    if forward {
        Span { nanos: position.nanos + step.nanos }
    } else {
        position.saturating_sub(step)
    }
}

/// What a handled key press means for the render loop.
#[derive(Clone, Copy, Debug, PartialEq, Eq, Structural)]
pub enum Outcome {
    /// Quit the viewer and restore the terminal.
    Quit,
    /// Re-present the current position immediately (after a seek/restart).
    Redraw,
    /// Timing changed; recompute the next-frame deadline without decoding.
    Reschedule,
    /// Nothing actionable happened.
    Continue,
}

/// What the source, or the chosen frame rate, is to do.
#[derive(Clone, Copy, Debug, PartialEq, Eq, Structural)]
pub enum PlaybackCommand {
    /// Freeze or resume the source's internal timing.
    SetPaused(bool),
    /// Go back to the beginning.
    Restart,
    /// Seek forward or backward.
    Seek(bool),
    /// A higher chosen frame rate.
    RaiseFps,
    /// A lower chosen frame rate.
    LowerFps,
}

/// One step of showing a frame.
#[derive(Clone, Copy, Debug, PartialEq, Eq, Structural)]
pub enum FrameStep {
    /// Freeze or resume the source's internal timing.
    SetPaused(bool),
    /// Have the source render its next frame.
    NextFrame,
}

/// The control policy of playback: pause, chosen frame rate, and the options bar.
#[derive(Clone, Copy, Debug, PartialEq, Eq, Structural)]
pub struct PlaybackController {
    /// Whether playback is paused.
    pub paused: bool,
    /// The chosen frame rate, or `None` to follow the source.
    pub override_fps: Option<Double>,
    /// Whether the bottom options bar is shown.
    pub show_ui: bool,
}

/// What a key does: the controller behind it, what the loop should do, and what the source or the
/// rate is to do. `can_seek` is whether seeking is meaningful for the source.
pub open spec fn key_effect(c: PlaybackController, can_seek: bool, key: KeyEvent) -> (
    PlaybackController,
    Outcome,
    Option<PlaybackCommand>,
) {
    if quits(key) {
        (c, Outcome::Quit, None)
    } else if key.code == KeyCode::Char(' ') {
        (
            PlaybackController { paused: !c.paused, ..c },
            if c.paused {
                Outcome::Reschedule
            } else {
                Outcome::Continue
            },
            Some(PlaybackCommand::SetPaused(!c.paused)),
        )
    } else if key.is_letter('r', 'R') {
        (c, Outcome::Redraw, Some(PlaybackCommand::Restart))
    } else if key.is_letter('f', 'F') {
        (PlaybackController { show_ui: !c.show_ui, ..c }, Outcome::Redraw, None)
    } else if key.code == KeyCode::Left || key.code == KeyCode::Right {
        if can_seek {
            (c, Outcome::Redraw, Some(PlaybackCommand::Seek(key.code == KeyCode::Right)))
        } else {
            (c, Outcome::Continue, None)
        }
    } else if key.is_letter('+', '=') {
        (c, Outcome::Reschedule, Some(PlaybackCommand::RaiseFps))
    } else if key.is_letter('-', '_') {
        (c, Outcome::Reschedule, Some(PlaybackCommand::LowerFps))
    } else {
        (c, Outcome::Continue, None)
    }
}

/// Pausing and resuming leaves everything as it was, and tells the source of both. Restarting keeps
/// playback paused or playing as it was.
pub proof fn law_pause_and_resume(c: PlaybackController, can_seek: bool, key: KeyEvent)
    ensures
        key.code == KeyCode::Char(' ') ==> {
            let (once, first, told) = key_effect(c, can_seek, key);
            let (twice, second, retold) = key_effect(once, can_seek, key);
            &&& twice == c
            &&& told == Some(PlaybackCommand::SetPaused(!c.paused))
            &&& retold == Some(PlaybackCommand::SetPaused(c.paused))
            &&& (first == Outcome::Reschedule) == !once.paused
        },
        key_effect(c, can_seek, key).2 == Some(PlaybackCommand::Restart) ==> key_effect(
            c,
            can_seek,
            key,
        ).0 == c,
{
}

/// A source that cannot seek is never told to.
pub proof fn law_seek_only_where_supported(c: PlaybackController, key: KeyEvent)
    ensures
        !(key_effect(c, false, key).2 matches Some(PlaybackCommand::Seek(_))),
{
}

impl PlaybackController {
    /// Creates a controller in the playing state, with a chosen frame rate where there is one.
    pub fn new(initial_fps: Option<Double>) -> (c: PlaybackController)
        ensures
            c == (PlaybackController {
                paused: false,
                override_fps: initial_fps,
                show_ui: true,
            }),
    {
        PlaybackController { paused: false, override_fps: initial_fps, show_ui: true }
    }

    /// Whether playback is currently paused.
    pub fn is_paused(&self) -> (b: bool)
        ensures
            b == self.paused,
    {
        self.paused
    }

    /// Whether the bottom options bar is currently shown.
    pub fn show_ui(&self) -> (b: bool)
        ensures
            b == self.show_ui,
    {
        self.show_ui
    }

    /// The current chosen frame rate, if one is in force.
    pub fn override_fps(&self) -> (f: Option<Double>)
        ensures
            f == self.override_fps,
    {
        self.override_fps
    }

    /// Puts a chosen frame rate in force.
    pub fn set_fps(&mut self, fps: Double)
        ensures
            *final(self) == (PlaybackController { override_fps: Some(fps), ..*old(self) }),
    {
        self.override_fps = Some(fps);
    }

    /// Whether a frame is asked of the source when one is due: a paused controller holds the last
    /// frame instead.
    pub fn advances(&self) -> (b: bool)
        ensures
            b == !self.paused,
    {
        !self.paused
    }

    /// The steps that render a frame regardless of pause (used for the first frame and after a seek):
    /// a paused source is resumed for it and frozen again. Every step behind the frame is taken whatever
    /// became of the frame; [`PlaybackController::forced_result`] tells what comes of it all.
    pub fn force_frame(&self) -> (steps: Vec<FrameStep>)
        ensures
            steps@ == if self.paused {
                seq![
                    FrameStep::SetPaused(false),
                    FrameStep::NextFrame,
                    FrameStep::SetPaused(true),
                ]
            } else {
                seq![FrameStep::NextFrame]
            },
    {
        let mut steps: Vec<FrameStep> = Vec::new();
        if self.paused {
            steps.push(FrameStep::SetPaused(false));
            steps.push(FrameStep::NextFrame);
            steps.push(FrameStep::SetPaused(true));
            assert(steps@ =~= seq![
                FrameStep::SetPaused(false),
                FrameStep::NextFrame,
                FrameStep::SetPaused(true),
            ]);
        } else {
            steps.push(FrameStep::NextFrame);
            assert(steps@ =~= seq![FrameStep::NextFrame]);
        }
        steps
    }

    /// What comes of rendering a frame regardless of pause, given what became of resuming a paused
    /// source, of the frame, and of freezing the source again. Where it could not be resumed, neither
    /// of the others was tried; where it could not be frozen again, that is the outcome, and else what
    /// became of the frame.
    pub fn forced_result<E>(
        &self,
        resumed: Result<(), E>,
        frame: Result<bool, E>,
        frozen: Result<(), E>,
    ) -> (r: Result<bool, E>)
        ensures
            r == (if self.paused && resumed is Err {
                Err::<bool, E>(resumed->Err_0)
            } else if self.paused && frozen is Err {
                Err::<bool, E>(frozen->Err_0)
            } else {
                frame
            }),
    {
        if self.paused {
            if let Err(e) = resumed {
                return Err(e);
            }
            if let Err(e) = frozen {
                return Err(e);
            }
        }
        frame
    }

    /// Applies a key press, reporting what the loop should do and what the source or the frame rate
    /// is to do.
    pub fn on_key(&mut self, key: KeyEvent, can_seek: bool) -> (r: (
        Outcome,
        Option<PlaybackCommand>,
    ))
        ensures
            (*final(self), r.0, r.1) == key_effect(*old(self), can_seek, key),
    {
        if is_quit(key) {
            return (Outcome::Quit, None);
        }
        match key.code {
            KeyCode::Char(' ') => {
                self.paused = !self.paused;
                // Resuming should advance promptly; pausing just holds the frame.
                let outcome = if self.paused {
                    Outcome::Continue
                } else {
                    Outcome::Reschedule
                };
                (outcome, Some(PlaybackCommand::SetPaused(self.paused)))
            },
            KeyCode::Char('r') | KeyCode::Char('R') => (
                Outcome::Redraw,
                Some(PlaybackCommand::Restart),
            ),
            KeyCode::Char('f') | KeyCode::Char('F') => {
                self.show_ui = !self.show_ui;
                (Outcome::Redraw, None)
            },
            KeyCode::Left => self.seek(false, can_seek),
            KeyCode::Right => self.seek(true, can_seek),
            KeyCode::Char('+') | KeyCode::Char('=') => (
                Outcome::Reschedule,
                Some(PlaybackCommand::RaiseFps),
            ),
            KeyCode::Char('-') | KeyCode::Char('_') => (
                Outcome::Reschedule,
                Some(PlaybackCommand::LowerFps),
            ),
            _ => (Outcome::Continue, None),
        }
    }

    /// Seeks the source, if it supports seeking; otherwise a no-op that keeps playing.
    fn seek(&self, forward: bool, can_seek: bool) -> (r: (Outcome, Option<PlaybackCommand>))
        ensures
            r == (if can_seek {
                (Outcome::Redraw, Some(PlaybackCommand::Seek(forward)))
            } else {
                (Outcome::Continue, None)
            }),
    {
        if can_seek {
            (Outcome::Redraw, Some(PlaybackCommand::Seek(forward)))
        } else {
            (Outcome::Continue, None)
        }
    }
}

/// The two-line control help shown at the bottom of the frame.
pub open spec fn help_text() -> Seq<char> {
    "space:pause  <-/->:seek  R:restart  +/-:fps  F:ui  Q:quit"@
}

/// The status line: the source's, the chosen frame rate where there is one, and whether it is paused.
pub open spec fn status_text(c: PlaybackController, source: Seq<char>, fps: Seq<char>) -> Seq<char> {
    source + (if c.override_fps is Some {
        " | "@ + fps + " fps"@
    } else {
        ""@
    }) + (if c.paused {
        " | paused"@
    } else {
        ""@
    })
}

/// Draws the two-line status/help bar across the bottom rows of `frame`, where it is shown; `source`
/// is the source's status and `fps` the text of the chosen frame rate.
pub fn overlay_status(frame: &mut TerminalFrame, c: &PlaybackController, source: &str, fps: &str)
    requires
        old(frame).wf(),
    ensures
        final(frame).wf(),
        if c.show_ui {
            barred(
                old(frame)@,
                final(frame)@,
                status_text(*c, source@, fps@),
                help_text(),
            )
        } else {
            final(frame)@ == old(frame)@
        },
{
    if !c.show_ui {
        return;
    }
    let mut status = source.to_owned();
    if c.override_fps.is_some() {
        status.append(" | ");
        status.append(fps);
        status.append(" fps");
    } else {
        status.append("");
    }
    status.append(
        if c.paused {
            " | paused"
        } else {
            ""
        },
    );
    assert(status@ =~= status_text(*c, source@, fps@));
    overlay_bottom_bar(
        frame,
        status.as_str(),
        "space:pause  <-/->:seek  R:restart  +/-:fps  F:ui  Q:quit",
    );
}

/// When the next frame is due, in nanoseconds of a clock that never goes back.
#[derive(Clone, Copy, Debug, PartialEq, Eq, Structural)]
pub struct Pacing {
    /// When the next frame is due.
    pub next_due: u128,
}

/// How often the loop wakes at least, in nanoseconds.
pub const POLL_NANOS: u128 = 100_000_000;

/// What the loop does when a frame is due and the source has been asked for it.
#[derive(Clone, Copy, Debug, PartialEq, Eq, Structural)]
pub enum DueStep {
    /// Show the frame.
    Present,
    /// Start the source over.
    Restart,
    /// End playback.
    End,
}

impl Pacing {
    /// How long to wait for input: until the next frame is due, but no longer than the loop may sleep;
    /// as long as it may sleep while paused.
    pub fn timeout(&self, now: u128, paused: bool) -> (t: u128)
        ensures
            t == (if paused || left(self.next_due as nat, now as nat) > POLL_NANOS {
                POLL_NANOS as nat
            } else {
                left(self.next_due as nat, now as nat)
            }),
    {
        if paused {
            return POLL_NANOS;
        }
        let rest: u128 = if self.next_due >= now {
            self.next_due - now
        } else {
            0
        };
        if rest > POLL_NANOS {
            POLL_NANOS
        } else {
            rest
        }
    }

    /// Whether a frame is due.
    pub fn due(&self, now: u128, paused: bool) -> (b: bool)
        ensures
            b == (!paused && now >= self.next_due),
    {
        !paused && now >= self.next_due
    }

    /// Makes the next frame due once `wait` has passed.
    pub fn schedule(&mut self, now: u128, wait: Span)
        requires
            now + wait.nanos <= u128::MAX,
        ensures
            final(self).next_due == now + wait.nanos,
    {
        self.next_due = now + wait.nanos;
    }

    /// Makes the next frame due at once.
    pub fn reschedule(&mut self, now: u128)
        ensures
            final(self).next_due == now,
    {
        self.next_due = now;
    }

    /// Decides what becomes of a frame that was due: a source that has ended starts over where it
    /// loops, and its first frame is due at once; otherwise playback ends.
    pub fn after_frame(&mut self, now: u128, wait: Span, produced: bool, loops: bool) -> (s: DueStep)
        requires
            now + wait.nanos <= u128::MAX,
        ensures
            s == (if produced {
                DueStep::Present
            } else if loops {
                DueStep::Restart
            } else {
                DueStep::End
            }),
            final(self).next_due == (if produced {
                (now + wait.nanos) as u128
            } else if loops {
                now
            } else {
                old(self).next_due
            }),
    {
        if produced {
            self.next_due = now + wait.nanos;
            DueStep::Present
        } else if loops {
            self.next_due = now;
            DueStep::Restart
        } else {
            DueStep::End
        }
    }
}

/// A loop that sleeps no longer than it is told never misses a frame by sleeping: when it wakes on
/// time, no frame has been due for longer than it was awake.
pub proof fn law_sleep_never_passes_the_deadline(p: Pacing, now: nat, asleep: nat)
    requires
        now <= p.next_due,
        asleep <= if left(p.next_due as nat, now) > POLL_NANOS {
            POLL_NANOS as nat
        } else {
            left(p.next_due as nat, now)
        },
    ensures
        now + asleep <= p.next_due,
{
}

/// A narrowed viewport keeps the shape of the terminal: it is as high for its width as the terminal
/// is, rounded down to whole rows, as long as that is a row at least and as many as can be counted.
pub proof fn law_narrowed_viewport_keeps_its_shape(width: u32, bounds: Viewport, v: Viewport)
    requires
        narrowed(Some(width), bounds, v),
        1 <= width <= 0xffff,
        bounds.cols >= 1,
        bounds.rows >= 1,
    ensures
        v.cols == width,
        v.rows >= 1,
        v.rows < 0xffff ==> width * bounds.rows < (v.rows + 1) * bounds.cols,
        v.rows > 1 ==> v.rows * bounds.cols <= width * bounds.rows,
{
    let (n, d) = (width * bounds.rows, bounds.cols as int);
    assert(n >= 0) by (nonlinear_arith)
        requires
            n == width * bounds.rows,
    ;
    vstd::arithmetic::div_mod::lemma_fundamental_div_mod(n, d);
    vstd::arithmetic::div_mod::lemma_mod_bound(n, d);
    let q = n / d;
    assert(d * (q + 1) == d * q + d) by (nonlinear_arith);
    assert(v.rows < 0xffff ==> q <= v.rows);
    assert(v.rows < 0xffff ==> d * (q + 1) <= (v.rows + 1) * d) by (nonlinear_arith)
        requires
            v.rows < 0xffff ==> q <= v.rows,
            d > 0,
    ;
    assert(v.rows > 1 ==> v.rows * d <= d * q) by (nonlinear_arith)
        requires
            v.rows > 1 ==> v.rows <= q,
            d > 0,
    ;
}

/// Without a width the viewport is the terminal, a cell each way at least.
pub proof fn law_viewport_is_the_terminal(bounds: Viewport, v: Viewport)
    requires
        narrowed(None, bounds, v),
    ensures
        bounds.cols > 0 ==> v.cols == bounds.cols,
        bounds.rows > 0 ==> v.rows == bounds.rows,
        v.cols > 0 && v.rows > 0,
{
}

/// Seeking on and back again leads to where it started; seeking back near the start leads to it.
pub proof fn law_seeking_back_undoes_seeking_on(position: nat)
    ensures
        sought(sought(position, true), false) == position,
        sought(position, true) > position,
        sought(position, false) <= position,
        position <= 5_000_000_000 ==> sought(position, false) == 0,
        position >= 5_000_000_000 ==> sought(sought(position, false), true) == position,
{
}

/// What keys do to a source: the right arrow seeks on and the left one back, where it can seek; plus
/// raises the frame rate and minus lowers it; the letters R and F restart it and hide or show the bar,
/// in either case. None of them pauses it.
pub proof fn law_each_key_has_its_command(c: PlaybackController, can_seek: bool, modifiers: KeyModifiers)
    ensures
        ({
            let press = |code: KeyCode| key_effect(c, can_seek, KeyEvent { code, modifiers });
            &&& can_seek ==> press(KeyCode::Right).2 == Some(PlaybackCommand::Seek(true))
            &&& can_seek ==> press(KeyCode::Left).2 == Some(PlaybackCommand::Seek(false))
            &&& press(KeyCode::Char('+')).2 == Some(PlaybackCommand::RaiseFps)
            &&& press(KeyCode::Char('=')).2 == Some(PlaybackCommand::RaiseFps)
            &&& press(KeyCode::Char('-')).2 == Some(PlaybackCommand::LowerFps)
            &&& press(KeyCode::Char('_')).2 == Some(PlaybackCommand::LowerFps)
            &&& press(KeyCode::Char('r')) == press(KeyCode::Char('R'))
            &&& press(KeyCode::Char('r')).2 == Some(PlaybackCommand::Restart)
            &&& press(KeyCode::Char('f')) == press(KeyCode::Char('F'))
            &&& press(KeyCode::Char('f')).2 is None
            &&& press(KeyCode::Char('f')).0.show_ui != c.show_ui
            &&& forall|code: KeyCode| code != KeyCode::Char(' ') ==> (#[trigger] press(code)).0.paused == c.paused
            &&& forall|code: KeyCode| (#[trigger] press(code)).0.override_fps == c.override_fps
        }),
{
}

} // verus!
