//! The interactive 3D mesh viewer: its toggles, its light and animation menus, its key and mouse
//! handling, and the policy of its render loop.
//!
//! Everything here is plain state. Where a key moves the camera, the light or the playback clock by
//! some angle or time, the new value is arithmetic done elsewhere: the handler says which move is
//! asked for.

use crate::anim::AnimationInfo;
use crate::cli::Shading;
use crate::config::Settings;
use crate::error::Complaint;
use crate::framebuffer::{
    lemma_index_in_plane, lemma_index_is_injective, lemma_share_in_range,
    lemma_share_of_same_length, lemma_share_spans, Framebuffer, Raster,
};
use crate::geometry::BoundingBox;
use crate::image_viewer::{at_least_one, clamp_columns, columns, switch_name, switch_text};
use crate::media::{Input, MeshFormat};
use crate::raster::ShadingMode;
use crate::single::Single;
use crate::terminal::{
    is_quit, quits, ColorMode, Event, KeyCode, KeyEvent, MouseButton, MouseEvent, MouseEventKind,
};
use crate::terminal_frame::{Grid, TerminalFrame};
use crate::text::{decimal, joined, push_decimal};
use crate::viewer_chrome::{
    barred, lemma_line_tells, one_tells, overlay_bottom_bar, overlay_panel, paneled, widest,
};
use crate::viewport::Viewport;
use vstd::prelude::*;
use vstd::string::*;

verus! {

/// Which frame the light's direction is interpreted in.
#[derive(Clone, Copy, Debug, PartialEq, Eq, Structural)]
pub enum LightMode {
    /// The direction is fixed relative to the camera, so the light stays put on screen. This is the
    /// default.
    Viewer,
    /// The direction is a fixed world-space direction: shading stays constant as the camera orbits.
    World,
}

impl LightMode {
    /// The other mode.
    pub open spec fn other(self) -> LightMode {
        match self {
            LightMode::Viewer => LightMode::World,
            LightMode::World => LightMode::Viewer,
        }
    }

    /// The name of the mode.
    pub open spec fn spec_name(self) -> Seq<char> {
        match self {
            LightMode::Viewer => "viewer"@,
            LightMode::World => "world"@,
        }
    }

    /// The other mode (used by the `M` toggle).
    pub fn toggled(self) -> (m: LightMode)
        ensures
            m == self.other(),
            m.other() == self,
    {
        match self {
            LightMode::Viewer => LightMode::World,
            LightMode::World => LightMode::Viewer,
        }
    }

    /// A short lower-case name for the status bar / menu.
    pub fn name(self) -> (s: &'static str)
        ensures
            s@ == self.spec_name(),
    {
        match self {
            LightMode::Viewer => "viewer",
            LightMode::World => "world",
        }
    }
}

/// A move of the light by one step.
#[derive(Clone, Copy, Debug, PartialEq, Eq, Structural)]
pub enum LightNudge {
    /// A smaller azimuth.
    AzimuthDown,
    /// A larger azimuth.
    AzimuthUp,
    /// A larger elevation, up to just short of the pole.
    ElevationUp,
    /// A smaller elevation, down to just short of the pole.
    ElevationDown,
    /// More ambient light, up to full.
    AmbientUp,
    /// Less ambient light, down to none.
    AmbientDown,
}

/// The viewer-side directional-light model: where the light sits, how its direction is interpreted,
/// the ambient floor, whether it is on, and whether the modal light menu is open.
#[derive(Clone, Copy, Debug, PartialEq, Eq, Structural)]
pub struct LightState {
    /// How the direction is interpreted.
    pub mode: LightMode,
    /// Azimuth around the vertical axis, in radians (wraps freely).
    pub azimuth: Single,
    /// Elevation above the horizontal plane, in radians (clamped near the poles).
    pub elevation: Single,
    /// Ambient floor, from zero to one.
    pub ambient: Single,
    /// Whether directional lighting is applied.
    pub on: bool,
    /// Whether the modal light menu is open (captures input while true).
    pub menu_open: bool,
}

impl LightState {
    /// The default light: viewer-fixed, upper-front-right (0.46 by 0.56 radians), low ambient (0.15),
    /// on, menu closed.
    pub open spec fn spec_new() -> LightState {
        LightState {
            mode: LightMode::Viewer,
            azimuth: Single { bits: 0x3eeb_851f },
            elevation: Single { bits: 0x3f0f_5c29 },
            ambient: Single { bits: 0x3e19_999a },
            on: true,
            menu_open: false,
        }
    }

    /// The default light: viewer-fixed, upper-front-right, low ambient, on, menu closed.
    pub fn new() -> (l: LightState)
        ensures
            l == LightState::spec_new(),
    {
        LightState {
            mode: LightMode::Viewer,
            azimuth: Single { bits: 0x3eeb_851f },
            elevation: Single { bits: 0x3f0f_5c29 },
            ambient: Single { bits: 0x3e19_999a },
            on: true,
            menu_open: false,
        }
    }

    /// Restores the light to its defaults, leaving the menu open/closed as it was.
    pub fn reset(&mut self)
        ensures
            *final(self) == (LightState {
                menu_open: old(self).menu_open,
                ..LightState::spec_new()
            }),
    {
        let menu_open: bool = self.menu_open;
        *self = LightState::new();
        self.menu_open = menu_open;
    }

    /// What a key does while the light menu is open, apart from closing it; `None` where it does
    /// nothing.
    pub open spec fn menu_effect(self, key: KeyEvent) -> Option<(LightState, Option<LightNudge>)> {
        if key.code == KeyCode::Left {
            Some((self, Some(LightNudge::AzimuthDown)))
        } else if key.code == KeyCode::Right {
            Some((self, Some(LightNudge::AzimuthUp)))
        } else if key.code == KeyCode::Up {
            Some((self, Some(LightNudge::ElevationUp)))
        } else if key.code == KeyCode::Down {
            Some((self, Some(LightNudge::ElevationDown)))
        } else if key.is_letter('m', 'M') {
            Some((LightState { mode: self.mode.other(), ..self }, None))
        } else if key.is_letter('+', '=') {
            Some((self, Some(LightNudge::AmbientUp)))
        } else if key.is_letter('-', '_') {
            Some((self, Some(LightNudge::AmbientDown)))
        } else if key.is_letter('o', 'O') || key.code == KeyCode::Char(' ') {
            Some((LightState { on: !self.on, ..self }, None))
        } else if key.is_letter('r', 'R') {
            Some((LightState { menu_open: self.menu_open, ..LightState::spec_new() }, None))
        } else {
            None
        }
    }

    /// Routes a key while the menu is open. Returns `None` where nothing changed, else the move of
    /// the light that the key asks for, if any.
    pub fn on_menu_key(&mut self, key: KeyEvent) -> (r: Option<Option<LightNudge>>)
        ensures
            match old(self).menu_effect(key) {
                Some((after, nudge)) => *final(self) == after && r == Some(nudge),
                None => *final(self) == *old(self) && r is None,
            },
    {
        match key.code {
            KeyCode::Left => Some(Some(LightNudge::AzimuthDown)),
            KeyCode::Right => Some(Some(LightNudge::AzimuthUp)),
            KeyCode::Up => Some(Some(LightNudge::ElevationUp)),
            KeyCode::Down => Some(Some(LightNudge::ElevationDown)),
            KeyCode::Char('m') | KeyCode::Char('M') => {
                self.mode = self.mode.toggled();
                Some(None)
            },
            KeyCode::Char('+') | KeyCode::Char('=') => Some(Some(LightNudge::AmbientUp)),
            KeyCode::Char('-') | KeyCode::Char('_') => Some(Some(LightNudge::AmbientDown)),
            KeyCode::Char('o') | KeyCode::Char('O') | KeyCode::Char(' ') => {
                self.on = !self.on;
                Some(None)
            },
            KeyCode::Char('r') | KeyCode::Char('R') => {
                self.reset();
                Some(None)
            },
            _ => None,
        }
    }
}

/// A move of the playback clock or speed by one step.
#[derive(Clone, Copy, Debug, PartialEq, Eq, Structural)]
pub enum AnimNudge {
    /// Back in time.
    ScrubBack,
    /// Forward in time.
    ScrubForward,
    /// Faster, up to the fastest.
    SpeedUp,
    /// Slower, down to the slowest.
    SpeedDown,
}

/// The viewer-side animation-playback model: which animation is selected, the playback clock,
/// whether it is playing/looping, the speed, and whether the modal animation menu is open.
///
/// Without names the model carries no animations; the menu still opens but every playback key is
/// inert.
#[derive(Clone, Debug)]
pub struct AnimState {
    /// Whether the modal animation menu is open (captures input while true).
    pub menu_open: bool,
    /// Whether playback is advancing with real time.
    pub playing: bool,
    /// Whether playback wraps at the end.
    pub looping: bool,
    /// Playback speed multiplier.
    pub speed: Single,
    /// The current playback time in seconds (within the selected animation).
    pub time: Single,
    /// The selected animation.
    pub selected: usize,
    /// The animation names.
    pub names: Vec<String>,
    /// Per-animation duration in seconds.
    pub durations: Vec<Single>,
    /// Per-animation skinned flag (only node motion plays).
    pub skinned: Vec<bool>,
}

/// Where playback stands.
pub ghost struct AnimControl {
    /// Whether the menu is open.
    pub menu_open: bool,
    /// Whether playback is advancing.
    pub playing: bool,
    /// Whether playback wraps at the end.
    pub looping: bool,
    /// The speed.
    pub speed: Single,
    /// The time.
    pub time: Single,
    /// The selected animation.
    pub selected: int,
}

impl AnimControl {
    /// Playback with the animation `offset` places further on selected, counted round all `count`,
    /// from its start.
    pub open spec fn moved(self, count: nat, offset: int) -> AnimControl {
        if count == 0 {
            self
        } else {
            AnimControl {
                selected: (self.selected + offset) % count as int,
                time: Single::zero(),
                ..self
            }
        }
    }

    /// Playback once time has passed in an animation of that length, where the new time is `moved`, or
    /// `wrapped` counted round the length.
    pub open spec fn run(self, length: Single, moved: Single, wrapped: Single) -> AnimControl {
        if self.looping {
            AnimControl { time: wrapped, ..self }
        } else if length.spec_le(moved) {
            AnimControl { time: length, playing: false, ..self }
        } else {
            AnimControl { time: moved, ..self }
        }
    }

    /// Playback once its clock was moved in an animation of that length, where the new time is `wrapped`
    /// round the length, or `clamped` to it.
    pub open spec fn scrubbed(self, length: Single, wrapped: Single, clamped: Single) -> AnimControl {
        if length.spec_le(Single::zero()) {
            self
        } else if self.looping {
            AnimControl { time: wrapped, ..self }
        } else {
            AnimControl { time: clamped, ..self }
        }
    }

    /// What a key does while the animation menu is open, apart from closing it; `None` where it does
    /// nothing, as every key does without animations.
    pub open spec fn menu_effect(self, count: nat, key: KeyEvent) -> Option<(
        AnimControl,
        Option<AnimNudge>,
    )> {
        if count == 0 {
            None
        } else if key.code == KeyCode::Char(' ') {
            Some((AnimControl { playing: !self.playing, ..self }, None))
        } else if key.is_letter('l', 'L') {
            Some((AnimControl { looping: !self.looping, ..self }, None))
        } else if key.code == KeyCode::Up {
            Some((self.moved(count, -1), None))
        } else if key.code == KeyCode::Down {
            Some((self.moved(count, 1), None))
        } else if key.code == KeyCode::Left {
            Some((self, Some(AnimNudge::ScrubBack)))
        } else if key.code == KeyCode::Right {
            Some((self, Some(AnimNudge::ScrubForward)))
        } else if key.is_letter('+', '=') {
            Some((self, Some(AnimNudge::SpeedUp)))
        } else if key.is_letter('-', '_') {
            Some((self, Some(AnimNudge::SpeedDown)))
        } else if key.is_letter('r', 'R') {
            Some((AnimControl { time: Single::zero(), speed: Single::one(), ..self }, None))
        } else {
            None
        }
    }
}

/// Selecting the next animation and then the one before leads back, and going through all of them
/// leads back to the first.
pub proof fn law_selection_comes_round(c: AnimControl, count: nat)
    requires
        0 <= c.selected < count,
    ensures
        c.moved(count, 1).moved(count, -1).selected == c.selected,
        c.moved(count, -1).moved(count, 1).selected == c.selected,
        c.moved(count, count as int).selected == c.selected,
        0 <= c.moved(count, 1).selected < count,
        0 <= c.moved(count, -1).selected < count,
{
    let n = count as int;
    let up = (c.selected + 1) % n;
    let down = (c.selected - 1) % n;
    if c.selected + 1 < n {
        vstd::arithmetic::div_mod::lemma_small_mod((c.selected + 1) as nat, count);
        vstd::arithmetic::div_mod::lemma_small_mod(c.selected as nat, count);
    } else {
        vstd::arithmetic::div_mod::lemma_mod_self_0(n);
        vstd::arithmetic::div_mod::lemma_fundamental_div_mod_converse(-1, n, -1, n - 1);
    }
    if c.selected > 0 {
        vstd::arithmetic::div_mod::lemma_small_mod((c.selected - 1) as nat, count);
        vstd::arithmetic::div_mod::lemma_small_mod(c.selected as nat, count);
    } else {
        vstd::arithmetic::div_mod::lemma_fundamental_div_mod_converse(-1, n, -1, n - 1);
        vstd::arithmetic::div_mod::lemma_mod_self_0(n);
    }
    vstd::arithmetic::div_mod::lemma_fundamental_div_mod_converse(
        c.selected + n,
        n,
        1,
        c.selected,
    );
}

impl AnimState {
    /// Where playback stands.
    pub open spec fn control(&self) -> AnimControl {
        AnimControl {
            menu_open: self.menu_open,
            playing: self.playing,
            looping: self.looping,
            speed: self.speed,
            time: self.time,
            selected: self.selected as int,
        }
    }

    /// Whether the selected animation is there, where any is, and they can be counted.
    pub open spec fn wf(&self) -> bool {
        &&& self.names@.len() < 0x7fff_ffff
        &&& self.names@.len() > 0 ==> self.selected < self.names@.len()
    }

    /// Whether the animations are those of `other`.
    pub open spec fn same_clips(&self, other: &AnimState) -> bool {
        self.names == other.names && self.durations == other.durations && self.skinned
            == other.skinned
    }

    /// The length of the selected animation, or zero where there is none.
    pub open spec fn length(&self) -> Single {
        if self.selected < self.durations@.len() {
            self.durations@[self.selected as int]
        } else {
            Single::zero()
        }
    }

    /// The state for a model with no animations: the menu may open but nothing plays.
    pub fn disabled() -> (s: AnimState)
        ensures
            s.wf(),
            s.names@ == Seq::<String>::empty(),
            s.durations@ == Seq::<Single>::empty(),
            s.skinned@ == Seq::<bool>::empty(),
            s.control() == (AnimControl {
                menu_open: false,
                playing: false,
                looping: false,
                speed: Single::zero(),
                time: Single::zero(),
                selected: 0,
            }),
    {
        AnimState {
            menu_open: false,
            playing: false,
            looping: false,
            speed: Single::zero(),
            time: Single::zero(),
            selected: 0,
            names: Vec::new(),
            durations: Vec::new(),
            skinned: Vec::new(),
        }
    }

    /// Builds the state for a model with the given animations: playback starts playing and looping.
    pub fn new(names: Vec<String>, durations: Vec<Single>, skinned: Vec<bool>) -> (s: AnimState)
        requires
            names@.len() < 0x7fff_ffff,
        ensures
            s.wf(),
            s.names == names,
            s.durations == durations,
            s.skinned == skinned,
            s.control() == (AnimControl {
                menu_open: false,
                playing: names@.len() > 0,
                looping: true,
                speed: Single::one(),
                time: Single::zero(),
                selected: 0,
            }),
    {
        let enabled: bool = names.len() > 0;
        AnimState {
            menu_open: false,
            playing: enabled,
            looping: true,
            speed: Single::one(),
            time: Single::zero(),
            selected: 0,
            names,
            durations,
            skinned,
        }
    }

    /// Whether the model carries at least one animation.
    pub fn enabled(&self) -> (b: bool)
        ensures
            b == (self.names@.len() > 0),
    {
        self.names.len() > 0
    }

    /// The number of animations.
    pub fn count(&self) -> (n: usize)
        ensures
            n == self.names@.len(),
    {
        self.names.len()
    }

    /// Whether playback is currently advancing (playing and at least one animation exists).
    pub fn is_playing(&self) -> (b: bool)
        ensures
            b == (self.playing && self.names@.len() > 0),
    {
        self.playing && self.enabled()
    }

    /// The selected animation's duration, or zero when none exist.
    pub fn current_duration(&self) -> (d: Single)
        ensures
            d == self.length(),
    {
        if self.selected < self.durations.len() {
            self.durations[self.selected]
        } else {
            Single::zero()
        }
    }

    /// The selected animation's name, or `None` when none exist.
    pub fn current_name(&self) -> (n: Option<&str>)
        ensures
            n is Some <==> self.selected < self.names@.len(),
            n is Some ==> n->0@ == self.names@[self.selected as int]@,
    {
        if self.selected < self.names.len() {
            Some(self.names[self.selected].as_str())
        } else {
            None
        }
    }

    /// Whether the selected animation is skinned (node motion only is played).
    pub fn current_skinned(&self) -> (b: bool)
        ensures
            b == (self.selected < self.skinned@.len() && self.skinned@[self.selected as int]),
    {
        if self.selected < self.skinned.len() {
            self.skinned[self.selected]
        } else {
            false
        }
    }

    /// Whether playback moves on over `dt` seconds: it is playing, time has passed, and the selected
    /// animation takes time.
    pub open spec fn moves_on(&self, dt: Single) -> bool {
        self.playing && self.names@.len() > 0 && !dt.spec_le(Single::zero())
            && !self.length().spec_le(Single::zero())
    }

    /// Advances the clock over `dt` seconds when playing: to `wrapped`, the new time counted round the
    /// duration, for a loop; otherwise to `moved`, the new time, or to the end, where it pauses.
    /// Returns whether the time changed.
    pub fn advance(&mut self, dt: Single, moved: Single, wrapped: Single) -> (b: bool)
        ensures
            b == old(self).moves_on(dt),
            final(self).same_clips(old(self)),
            final(self).control() == if b {
                old(self).control().run(old(self).length(), moved, wrapped)
            } else {
                old(self).control()
            },
    {
        if !self.is_playing() || dt.le(Single::zero()) {
            return false;
        }
        let duration = self.current_duration();
        if duration.le(Single::zero()) {
            return false;
        }
        if self.looping {
            self.time = wrapped;
        } else if duration.le(moved) {
            self.time = duration;
            self.playing = false;
        } else {
            self.time = moved;
        }
        true
    }

    /// Moves the clock: to `wrapped`, the new time counted round the duration, for a loop; otherwise
    /// to `clamped`, the new time kept within the duration. An animation that takes no time stays.
    pub fn scrub(&mut self, wrapped: Single, clamped: Single)
        ensures
            final(self).same_clips(old(self)),
            final(self).control() == old(self).control().scrubbed(
                old(self).length(),
                wrapped,
                clamped,
            ),
    {
        let duration = self.current_duration();
        if duration.le(Single::zero()) {
            return;
        }
        self.time = if self.looping {
            wrapped
        } else {
            clamped
        };
    }

    /// Selects an animation by signed offset (wrapping), resetting the clock to its start.
    pub fn select(&mut self, offset: i32)
        requires
            old(self).wf(),
        ensures
            final(self).wf(),
            final(self).same_clips(old(self)),
            final(self).control() == old(self).control().moved(old(self).names@.len(), offset as int),
    {
        let count: usize = self.count();
        if count == 0 {
            return;
        }
        let n: i64 = count as i64;
        let at: i64 = self.selected as i64 + offset as i64;
        let rest: i64 = if at >= 0 {
            at % n
        } else {
            // Rounded towards zero, so what is left of a negative place is negative or zero.
            let back: i64 = (-at) % n;
            if back == 0 {
                0
            } else {
                n - back
            }
        };
        proof {
            if at < 0 {
                let m = -(at as int);
                let k = count as int;
                vstd::arithmetic::div_mod::lemma_fundamental_div_mod(m, k);
                vstd::arithmetic::div_mod::lemma_mod_bound(m, k);
                let q = m / k;
                if m % k == 0 {
                    assert(k * (-q) == -(k * q)) by (nonlinear_arith);
                    vstd::arithmetic::div_mod::lemma_fundamental_div_mod_converse(at as int, k, -q, 0);
                } else {
                    assert(k * (-q - 1) == -(k * q) - k) by (nonlinear_arith);
                    vstd::arithmetic::div_mod::lemma_fundamental_div_mod_converse(
                        at as int,
                        k,
                        -q - 1,
                        k - m % k,
                    );
                }
            }
            vstd::arithmetic::div_mod::lemma_mod_bound(at as int, count as int);
        }
        self.selected = rest as usize;
        self.time = Single::zero();
    }

    /// Routes a key while the animation menu is open. Returns `None` where nothing changed, else the
    /// move of the clock or speed that the key asks for, if any.
    pub fn on_menu_key(&mut self, key: KeyEvent) -> (r: Option<Option<AnimNudge>>)
        requires
            old(self).wf(),
        ensures
            final(self).wf(),
            final(self).same_clips(old(self)),
            match old(self).control().menu_effect(old(self).names@.len(), key) {
                Some((after, nudge)) => final(self).control() == after && r == Some(nudge),
                None => final(self).control() == old(self).control() && r is None,
            },
    {
        if !self.enabled() {
            return None;
        }
        match key.code {
            KeyCode::Char(' ') => {
                self.playing = !self.playing;
            },
            KeyCode::Char('l') | KeyCode::Char('L') => {
                self.looping = !self.looping;
            },
            KeyCode::Up => self.select(-1),
            KeyCode::Down => self.select(1),
            KeyCode::Left => {
                return Some(Some(AnimNudge::ScrubBack));
            },
            KeyCode::Right => {
                return Some(Some(AnimNudge::ScrubForward));
            },
            KeyCode::Char('+') | KeyCode::Char('=') => {
                return Some(Some(AnimNudge::SpeedUp));
            },
            KeyCode::Char('-') | KeyCode::Char('_') => {
                return Some(Some(AnimNudge::SpeedDown));
            },
            KeyCode::Char('r') | KeyCode::Char('R') => {
                self.time = Single::zero();
                self.speed = Single::one();
            },
            _ => {
                return None;
            },
        }
        Some(None)
    }
}

/// What a handled key press means for the render loop.
#[derive(Clone, Copy, Debug, PartialEq, Eq, Structural)]
pub enum KeyAction {
    /// Quit the viewer and restore the terminal.
    Quit,
    /// State changed; re-render on the next loop iteration.
    Redraw,
    /// Nothing actionable; keep idling without a redraw.
    Ignore,
}

/// A move of the camera, the light or the clock that an event asks for.
#[derive(Clone, Copy, Debug, PartialEq, Eq, Structural)]
pub enum ViewCommand {
    /// Orbit by so many key steps to the right and up.
    Orbit(i32, i32),
    /// Orbit by a drag over so many cells to the right and down.
    Drag(i32, i32),
    /// Zoom in by one step.
    ZoomIn,
    /// Zoom out by one step.
    ZoomOut,
    /// Roll by so many key steps.
    Roll(i32),
    /// Go back to the framed view.
    ResetView,
    /// Move the light.
    Light(LightNudge),
    /// Move the clock or the speed.
    Anim(AnimNudge),
}

/// The filled shading mode at that place of the cycle. Wireframe is a separate toggle.
pub open spec fn cycle_mode(index: int) -> ShadingMode {
    if index == 0 {
        ShadingMode::Flat
    } else if index == 1 {
        ShadingMode::Smooth
    } else if index == 2 {
        ShadingMode::Unlit
    } else if index == 3 {
        ShadingMode::Normals
    } else {
        ShadingMode::Depth
    }
}

/// How many filled shading modes are in the cycle.
pub const CYCLE_LEN: usize = 5;

fn mode_at(index: usize) -> (m: ShadingMode)
    ensures
        m == cycle_mode(index as int),
{
    if index == 0 {
        ShadingMode::Flat
    } else if index == 1 {
        ShadingMode::Smooth
    } else if index == 2 {
        ShadingMode::Unlit
    } else if index == 3 {
        ShadingMode::Normals
    } else {
        ShadingMode::Depth
    }
}

/// The index of `mode` within the shading cycle, or `0` when it is not a cycled mode.
pub fn cycle_index(mode: ShadingMode) -> (i: usize)
    ensures
        i < CYCLE_LEN,
        mode == ShadingMode::Wireframe ==> i == 0,
        mode != ShadingMode::Wireframe ==> cycle_mode(i as int) == mode,
{
    match mode {
        ShadingMode::Flat => 0,
        ShadingMode::Smooth => 1,
        ShadingMode::Unlit => 2,
        ShadingMode::Normals => 3,
        ShadingMode::Depth => 4,
        ShadingMode::Wireframe => 0,
    }
}

/// The rasterizer's mode for that setting.
pub open spec fn mode_for(shading: Shading) -> ShadingMode {
    match shading {
        Shading::Unlit => ShadingMode::Unlit,
        Shading::Flat => ShadingMode::Flat,
        Shading::Smooth => ShadingMode::Smooth,
        Shading::Normals => ShadingMode::Normals,
        Shading::Depth => ShadingMode::Depth,
    }
}

/// Maps the [`Shading`] setting onto the rasterizer's [`ShadingMode`].
pub fn shading_mode(shading: Shading) -> (m: ShadingMode)
    ensures
        m == mode_for(shading),
{
    match shading {
        Shading::Unlit => ShadingMode::Unlit,
        Shading::Flat => ShadingMode::Flat,
        Shading::Smooth => ShadingMode::Smooth,
        Shading::Normals => ShadingMode::Normals,
        Shading::Depth => ShadingMode::Depth,
    }
}

/// The name of a shading mode.
pub open spec fn shading_text(mode: ShadingMode) -> Seq<char> {
    match mode {
        ShadingMode::Unlit => "unlit"@,
        ShadingMode::Flat => "flat"@,
        ShadingMode::Smooth => "smooth"@,
        ShadingMode::Normals => "normals"@,
        ShadingMode::Depth => "depth"@,
        ShadingMode::Wireframe => "wireframe"@,
    }
}

/// A short lower-case name for a shading mode, for the status bar.
pub fn shading_name(mode: ShadingMode) -> (s: &'static str)
    ensures
        s@ == shading_text(mode),
{
    match mode {
        ShadingMode::Unlit => "unlit",
        ShadingMode::Flat => "flat",
        ShadingMode::Smooth => "smooth",
        ShadingMode::Normals => "normals",
        ShadingMode::Depth => "depth",
        ShadingMode::Wireframe => "wireframe",
    }
}

/// The terminal-free state of the 3D viewer, apart from its camera.
#[derive(Debug)]
pub struct ViewerState {
    /// The place in the shading cycle.
    pub shading_index: usize,
    /// Whether the mesh is drawn as a wireframe (overrides the filled shading).
    pub wireframe: bool,
    /// Whether color output is enabled.
    pub color: bool,
    /// The directional-light model and its modal menu.
    pub light: LightState,
    /// The animation-playback model and its modal menu.
    pub anim: AnimState,
    /// Whether the status bar / key help overlay is shown.
    pub show_ui: bool,
    /// The last pointer cell while a left-drag is in progress.
    pub last_drag: Option<(u16, u16)>,
}

/// Where the 3D viewer stands.
pub ghost struct ViewerView {
    /// The place in the shading cycle.
    pub shading_index: int,
    /// Whether the mesh is drawn as a wireframe.
    pub wireframe: bool,
    /// Whether color output is enabled.
    pub color: bool,
    /// The light.
    pub light: LightState,
    /// Playback.
    pub anim: AnimControl,
    /// Whether the status bar is shown.
    pub show_ui: bool,
    /// The last pointer cell while a left-drag is in progress.
    pub last_drag: Option<(u16, u16)>,
}

/// What a key does: the state behind it, what the loop should do, and the move that it asks for.
/// `count` is the number of animations.
pub open spec fn key_effect(v: ViewerView, count: nat, key: KeyEvent) -> (
    ViewerView,
    KeyAction,
    Option<ViewCommand>,
) {
    if key.is_interrupt() {
        (v, KeyAction::Quit, None)
    } else if v.light.menu_open {
        if key.code == KeyCode::Esc || key.is_letter('l', 'L') {
            (
                ViewerView { light: LightState { menu_open: false, ..v.light }, ..v },
                KeyAction::Redraw,
                None,
            )
        } else {
            match v.light.menu_effect(key) {
                Some((light, nudge)) => (
                    ViewerView { light, ..v },
                    KeyAction::Redraw,
                    match nudge {
                        Some(n) => Some(ViewCommand::Light(n)),
                        None => None,
                    },
                ),
                None => (v, KeyAction::Ignore, None),
            }
        }
    } else if v.anim.menu_open {
        if key.code == KeyCode::Esc || key.is_letter('a', 'A') {
            (
                ViewerView { anim: AnimControl { menu_open: false, ..v.anim }, ..v },
                KeyAction::Redraw,
                None,
            )
        } else {
            match v.anim.menu_effect(count, key) {
                Some((anim, nudge)) => (
                    ViewerView { anim, ..v },
                    KeyAction::Redraw,
                    match nudge {
                        Some(n) => Some(ViewCommand::Anim(n)),
                        None => None,
                    },
                ),
                None => (v, KeyAction::Ignore, None),
            }
        }
    } else if quits(key) {
        (v, KeyAction::Quit, None)
    } else if key.is_letter('a', 'A') {
        (
            ViewerView { anim: AnimControl { menu_open: true, ..v.anim }, ..v },
            KeyAction::Redraw,
            None,
        )
    } else if key.is_letter('w', 'W') {
        (ViewerView { wireframe: !v.wireframe, ..v }, KeyAction::Redraw, None)
    } else if key.is_letter('s', 'S') {
        (
            ViewerView { shading_index: (v.shading_index + 1) % (CYCLE_LEN as int), ..v },
            KeyAction::Redraw,
            None,
        )
    } else if key.is_letter('c', 'C') {
        (ViewerView { color: !v.color, ..v }, KeyAction::Redraw, None)
    } else if key.is_letter('l', 'L') {
        (
            ViewerView { light: LightState { menu_open: true, ..v.light }, ..v },
            KeyAction::Redraw,
            None,
        )
    } else if key.is_letter('f', 'F') {
        (ViewerView { show_ui: !v.show_ui, ..v }, KeyAction::Redraw, None)
    } else {
        match camera_move(key) {
            Some(c) => (v, KeyAction::Redraw, Some(c)),
            None => (v, KeyAction::Ignore, None),
        }
    }
}

/// The move of the camera that a key asks for while no menu is open.
pub open spec fn camera_move(key: KeyEvent) -> Option<ViewCommand> {
    if key.code == KeyCode::Left {
        Some(ViewCommand::Orbit((-1) as i32, 0))
    } else if key.code == KeyCode::Right {
        Some(ViewCommand::Orbit(1, 0))
    } else if key.code == KeyCode::Up {
        Some(ViewCommand::Orbit(0, 1))
    } else if key.code == KeyCode::Down {
        Some(ViewCommand::Orbit(0, (-1) as i32))
    } else if key.is_letter('+', '=') {
        Some(ViewCommand::ZoomIn)
    } else if key.is_letter('-', '_') {
        Some(ViewCommand::ZoomOut)
    } else if key.is_letter('z', 'Z') {
        Some(ViewCommand::Roll((-1) as i32))
    } else if key.is_letter('x', 'X') {
        Some(ViewCommand::Roll(1))
    } else if key.is_letter('r', 'R') {
        Some(ViewCommand::ResetView)
    } else {
        None
    }
}

/// What a mouse event does: the state behind it, what the loop should do, and the move that it asks
/// for.
pub open spec fn mouse_effect(v: ViewerView, m: MouseEvent) -> (
    ViewerView,
    KeyAction,
    Option<ViewCommand>,
) {
    match m.kind {
        MouseEventKind::Down(MouseButton::Left) => (
            ViewerView { last_drag: Some((m.col, m.row)), ..v },
            KeyAction::Ignore,
            None,
        ),
        MouseEventKind::Drag(MouseButton::Left) => {
            let after = ViewerView { last_drag: Some((m.col, m.row)), ..v };
            match v.last_drag {
                Some((col, row)) => (
                    after,
                    KeyAction::Redraw,
                    Some(ViewCommand::Drag((m.col - col) as i32, (m.row - row) as i32)),
                ),
                None => (after, KeyAction::Ignore, None),
            }
        },
        MouseEventKind::Up(_) => (ViewerView { last_drag: None, ..v }, KeyAction::Ignore, None),
        MouseEventKind::ScrollUp => (v, KeyAction::Redraw, Some(ViewCommand::ZoomIn)),
        MouseEventKind::ScrollDown => (v, KeyAction::Redraw, Some(ViewCommand::ZoomOut)),
        _ => (v, KeyAction::Ignore, None),
    }
}

/// An open menu captures every key but control and C, which quits from anywhere: nothing quits, the
/// camera does not move, and none of the toggles behind the menu changes. While both menus are
/// closed, no key moves the light or the clock.
pub proof fn law_open_menu_captures_keys(v: ViewerView, count: nat, key: KeyEvent)
    ensures
        key.is_interrupt() ==> key_effect(v, count, key).1 == KeyAction::Quit,
        !key.is_interrupt() && (v.light.menu_open || v.anim.menu_open) ==> {
            let (after, action, command) = key_effect(v, count, key);
            &&& action != KeyAction::Quit
            &&& command is None || command->0 is Light || command->0 is Anim
            &&& after.shading_index == v.shading_index
            &&& after.wireframe == v.wireframe
            &&& after.color == v.color
            &&& after.show_ui == v.show_ui
            &&& after.last_drag == v.last_drag
            &&& v.light.menu_open ==> after.anim == v.anim
            &&& !v.light.menu_open ==> after.light == v.light
        },
        !v.light.menu_open && !v.anim.menu_open ==> {
            let (after, action, command) = key_effect(v, count, key);
            &&& after.light == LightState { menu_open: after.light.menu_open, ..v.light }
            &&& after.anim == AnimControl { menu_open: after.anim.menu_open, ..v.anim }
            &&& command is Some ==> !(command->0 is Light) && !(command->0 is Anim)
        },
{
}

/// At most one menu is open, whatever keys are pressed.
pub proof fn law_one_menu_at_a_time(v: ViewerView, count: nat, key: KeyEvent)
    requires
        !(v.light.menu_open && v.anim.menu_open),
    ensures
        !(key_effect(v, count, key).0.light.menu_open && key_effect(v, count, key).0.anim.menu_open),
{
}

/// The shading mode that a state renders with: wireframe outweighs all, and without the light the
/// lit modes are unlit.
pub open spec fn shading_of(v: ViewerView) -> ShadingMode {
    let base = cycle_mode(v.shading_index);
    if v.wireframe {
        ShadingMode::Wireframe
    } else if !v.light.on && (base == ShadingMode::Flat || base == ShadingMode::Smooth) {
        ShadingMode::Unlit
    } else {
        base
    }
}

impl ViewerState {
    /// Where the viewer stands.
    pub open spec fn view(&self) -> ViewerView {
        ViewerView {
            shading_index: self.shading_index as int,
            wireframe: self.wireframe,
            color: self.color,
            light: self.light,
            anim: self.anim.control(),
            show_ui: self.show_ui,
            last_drag: self.last_drag,
        }
    }

    /// Whether the place in the shading cycle is one, and playback is well-formed.
    pub open spec fn wf(&self) -> bool {
        self.shading_index < CYCLE_LEN && self.anim.wf()
    }

    /// Builds the initial state with the settings' shading, wireframe, and color defaults.
    pub fn new(settings: &Settings, anim: AnimState) -> (s: ViewerState)
        requires
            anim.wf(),
        ensures
            s.wf(),
            s.anim == anim,
            cycle_mode(s.shading_index as int) == mode_for(settings.shading),
            s.wireframe == settings.wireframe,
            s.color == settings.color,
            s.light == LightState::spec_new(),
            s.show_ui,
            s.last_drag is None,
    {
        ViewerState {
            shading_index: cycle_index(shading_mode(settings.shading)),
            wireframe: settings.wireframe,
            color: settings.color,
            light: LightState::new(),
            anim,
            show_ui: true,
            last_drag: None,
        }
    }

    /// The effective shading mode, resolving the wireframe and lighting toggles over the cycled
    /// filled mode.
    pub fn effective_shading(&self) -> (m: ShadingMode)
        ensures
            m == shading_of(self.view()),
    {
        if self.wireframe {
            return ShadingMode::Wireframe;
        }
        let base = mode_at(self.shading_index);
        if !self.light.on && (base == ShadingMode::Flat || base == ShadingMode::Smooth) {
            ShadingMode::Unlit
        } else {
            base
        }
    }

    /// Applies a key press, updating the toggles and reporting what the loop should do, and the move
    /// that the key asks for.
    ///
    /// The modal menus take priority: while one is open its keys drive it rather than the camera
    /// (Ctrl+C still quits).
    pub fn on_key(&mut self, key: KeyEvent) -> (r: (KeyAction, Option<ViewCommand>))
        requires
            old(self).wf(),
        ensures
            final(self).wf(),
            final(self).anim.same_clips(&old(self).anim),
            (final(self).view(), r.0, r.1) == key_effect(
                old(self).view(),
                old(self).anim.names@.len(),
                key,
            ),
    {
        if key.interrupts() {
            return (KeyAction::Quit, None);
        }
        if self.light.menu_open {
            match key.code {
                KeyCode::Esc | KeyCode::Char('l') | KeyCode::Char('L') => {
                    self.light.menu_open = false;
                    return (KeyAction::Redraw, None);
                },
                _ => {},
            }
            return match self.light.on_menu_key(key) {
                Some(Some(nudge)) => (KeyAction::Redraw, Some(ViewCommand::Light(nudge))),
                Some(None) => (KeyAction::Redraw, None),
                None => (KeyAction::Ignore, None),
            };
        }
        if self.anim.menu_open {
            match key.code {
                KeyCode::Esc | KeyCode::Char('a') | KeyCode::Char('A') => {
                    self.anim.menu_open = false;
                    return (KeyAction::Redraw, None);
                },
                _ => {},
            }
            return match self.anim.on_menu_key(key) {
                Some(Some(nudge)) => (KeyAction::Redraw, Some(ViewCommand::Anim(nudge))),
                Some(None) => (KeyAction::Redraw, None),
                None => (KeyAction::Ignore, None),
            };
        }
        if is_quit(key) {
            return (KeyAction::Quit, None);
        }
        let command: Option<ViewCommand> = match key.code {
            KeyCode::Char('a') | KeyCode::Char('A') => {
                self.anim.menu_open = true;
                None
            },
            KeyCode::Left => Some(ViewCommand::Orbit(-1, 0)),
            KeyCode::Right => Some(ViewCommand::Orbit(1, 0)),
            KeyCode::Up => Some(ViewCommand::Orbit(0, 1)),
            KeyCode::Down => Some(ViewCommand::Orbit(0, -1)),
            KeyCode::Char('+') | KeyCode::Char('=') => Some(ViewCommand::ZoomIn),
            KeyCode::Char('-') | KeyCode::Char('_') => Some(ViewCommand::ZoomOut),
            KeyCode::Char('z') | KeyCode::Char('Z') => Some(ViewCommand::Roll(-1)),
            KeyCode::Char('x') | KeyCode::Char('X') => Some(ViewCommand::Roll(1)),
            KeyCode::Char('r') | KeyCode::Char('R') => Some(ViewCommand::ResetView),
            KeyCode::Char('w') | KeyCode::Char('W') => {
                self.wireframe = !self.wireframe;
                None
            },
            KeyCode::Char('s') | KeyCode::Char('S') => {
                self.shading_index = (self.shading_index + 1) % CYCLE_LEN;
                None
            },
            KeyCode::Char('c') | KeyCode::Char('C') => {
                self.color = !self.color;
                None
            },
            KeyCode::Char('l') | KeyCode::Char('L') => {
                self.light.menu_open = true;
                None
            },
            KeyCode::Char('f') | KeyCode::Char('F') => {
                self.show_ui = !self.show_ui;
                None
            },
            _ => {
                return (KeyAction::Ignore, None);
            },
        };
        (KeyAction::Redraw, command)
    }

    /// Applies a mouse event: left-drag orbits the model in both axes, and the wheel zooms.
    pub fn on_mouse(&mut self, m: MouseEvent) -> (r: (KeyAction, Option<ViewCommand>))
        ensures
            final(self).anim == old(self).anim,
            (final(self).view(), r.0, r.1) == mouse_effect(old(self).view(), m),
    {
        match m.kind {
            MouseEventKind::Down(MouseButton::Left) => {
                self.last_drag = Some((m.col, m.row));
                (KeyAction::Ignore, None)
            },
            MouseEventKind::Drag(MouseButton::Left) => {
                let before: Option<(u16, u16)> = self.last_drag;
                self.last_drag = Some((m.col, m.row));
                match before {
                    Some((col, row)) => (
                        KeyAction::Redraw,
                        Some(
                            ViewCommand::Drag(m.col as i32 - col as i32, m.row as i32 - row as i32),
                        ),
                    ),
                    None => (KeyAction::Ignore, None),
                }
            },
            MouseEventKind::Up(_) => {
                self.last_drag = None;
                (KeyAction::Ignore, None)
            },
            MouseEventKind::ScrollUp => (KeyAction::Redraw, Some(ViewCommand::ZoomIn)),
            MouseEventKind::ScrollDown => (KeyAction::Redraw, Some(ViewCommand::ZoomOut)),
            _ => (KeyAction::Ignore, None),
        }
    }

    /// The color mode that the encoder uses: the terminal's, or none while color is off.
    pub fn encoder_color(&self, terminal: ColorMode) -> (m: ColorMode)
        ensures
            m == (if self.color {
                terminal
            } else {
                ColorMode::Off
            }),
    {
        if self.color {
            terminal
        } else {
            ColorMode::Off
        }
    }
}

/// A drag and the same drag back ask for opposite moves.
pub proof fn law_drag_and_back_cancel(v: ViewerView, a: MouseEvent, b: MouseEvent)
    requires
        a.kind == MouseEventKind::Drag(MouseButton::Left),
        b.kind == MouseEventKind::Drag(MouseButton::Left),
        v.last_drag == Some((b.col, b.row)),
    ensures
        ({
            let there = mouse_effect(v, a);
            let back = mouse_effect(there.0, b);
            &&& there.2->0->Drag_0 == -(back.2->0->Drag_0)
            &&& there.2->0->Drag_1 == -(back.2->0->Drag_1)
            &&& back.0 == v
        }),
{
}

/// While the menus are closed, opposite arrow keys ask for opposite orbits, and the two roll keys
/// for opposite rolls; none of them changes anything else.
pub proof fn law_opposite_keys_cancel(v: ViewerView, count: nat, a: KeyEvent, b: KeyEvent)
    requires
        !v.light.menu_open,
        !v.anim.menu_open,
    ensures
        (a.code == KeyCode::Left && b.code == KeyCode::Right) || (a.code == KeyCode::Up && b.code
            == KeyCode::Down) ==> {
            let (there, first, out) = key_effect(v, count, a);
            let (back, second, home) = key_effect(there, count, b);
            &&& back == v
            &&& first == KeyAction::Redraw && second == KeyAction::Redraw
            &&& out matches Some(ViewCommand::Orbit(x, y)) && home == Some(
                ViewCommand::Orbit((-x) as i32, (-y) as i32),
            )
        },
        a.is_letter('z', 'Z') && b.is_letter('x', 'X') ==> {
            let (there, first, out) = key_effect(v, count, a);
            let (back, second, home) = key_effect(there, count, b);
            &&& back == v
            &&& first == KeyAction::Redraw && second == KeyAction::Redraw
            &&& out matches Some(ViewCommand::Roll(n)) && home == Some(
                ViewCommand::Roll((-n) as i32),
            )
        },
{
}

/// The state after a key was pressed `n` times.
pub open spec fn pressed(v: ViewerView, count: nat, key: KeyEvent, n: nat) -> ViewerView
    decreases n,
{
    if n == 0 {
        v
    } else {
        key_effect(pressed(v, count, key, (n - 1) as nat), count, key).0
    }
}

/// While the menus are closed, pressing the shading key once for each mode of the cycle leads back
/// to the state at first, and on the way every mode of the cycle comes up once.
pub proof fn law_shading_cycle_comes_round(v: ViewerView, count: nat, key: KeyEvent)
    requires
        0 <= v.shading_index < CYCLE_LEN,
        !v.light.menu_open,
        !v.anim.menu_open,
        key.is_letter('s', 'S'),
    ensures
        pressed(v, count, key, CYCLE_LEN as nat) == v,
        forall|i: nat, j: nat|
            i < j < CYCLE_LEN ==> cycle_mode(#[trigger] pressed(v, count, key, i).shading_index)
                != cycle_mode(#[trigger] pressed(v, count, key, j).shading_index),
{
    lemma_shading_steps(v, count, key, CYCLE_LEN as nat);
    assert forall|i: nat, j: nat| i < j < CYCLE_LEN implies cycle_mode(
        #[trigger] pressed(v, count, key, i).shading_index,
    ) != cycle_mode(#[trigger] pressed(v, count, key, j).shading_index) by {
        lemma_shading_steps(v, count, key, i);
        lemma_shading_steps(v, count, key, j);
    }
}

proof fn lemma_shading_steps(v: ViewerView, count: nat, key: KeyEvent, n: nat)
    requires
        0 <= v.shading_index < CYCLE_LEN,
        !v.light.menu_open,
        !v.anim.menu_open,
        key.is_letter('s', 'S'),
    ensures
        pressed(v, count, key, n) == (ViewerView {
            shading_index: (v.shading_index + n) % (CYCLE_LEN as int),
            ..v
        }),
    decreases n,
{
    if n > 0 {
        lemma_shading_steps(v, count, key, (n - 1) as nat);
    }
}

/// Decides the triangle target for a mesh with `total` triangles, or `None` to render at full
/// detail. `asked` is the count that an explicit request comes to: the rounded share of the total
/// for a ratio, the rounded number otherwise.
///
/// An explicit request wins; one that is not positive is ignored. Without one, a mesh above the
/// configured automatic budget targets that budget. The target may equal or exceed the total; only
/// a smaller one simplifies.
pub fn simplify_target(total: usize, settings: &Settings, asked: usize) -> (t: Option<usize>)
    ensures
        t == target_of(
            total,
            settings.simplify,
            settings.auto_simplify,
            settings.simplify_budget,
            asked,
        ),
{
    if let Some(v) = settings.simplify {
        if !v.le(Single::zero()) {
            return Some(
                if asked == 0 {
                    1
                } else {
                    asked
                },
            );
        }
    }
    if settings.auto_simplify && total > settings.simplify_budget {
        return Some(settings.simplify_budget);
    }
    None
}

/// The triangle target for a mesh with `total` triangles.
pub open spec fn target_of(
    total: usize,
    request: Option<Single>,
    auto: bool,
    budget: usize,
    asked: usize,
) -> Option<usize> {
    if request is Some && !request->0.spec_le(Single::zero()) {
        Some(
            if asked == 0 {
                1
            } else {
                asked
            },
        )
    } else if auto && total > budget {
        Some(budget)
    } else {
        None
    }
}

/// Whether an explicit request is a ratio of the triangles rather than a number of them.
pub fn is_ratio(request: Single) -> (b: bool)
    ensures
        b == request.spec_le(Single::one()),
{
    request.le(Single::one())
}

/// Whether a mesh with `total` triangles is simplified to that target: only to fewer triangles.
pub fn simplifies(total: usize, target: Option<usize>) -> (b: bool)
    ensures
        b == (target is Some && target->0 < total),
{
    match target {
        Some(t) => t < total,
        None => false,
    }
}

/// Whether every pixel of `after` is the pixel of `src` at the same share of its width and height.
pub open spec fn upscaled(src: Raster, before: Raster, after: Raster) -> bool {
    &&& after.wf()
    &&& after.same_shape(before)
    &&& forall|x: int, y: int|
        #![trigger after.pixel(x, y)]
        before.contains(x, y) ==> after.pixel(x, y) == src.pixel(
            x * src.width as int / before.width as int,
            y * src.height as int / before.height as int,
        )
}

/// Nearest-neighbor upscales the rendered `src` framebuffer into the full-size `dst`: every `dst`
/// pixel is written. No-op where either has no pixels.
pub fn upscale_into(src: &Framebuffer, dst: &mut Framebuffer)
    requires
        src.wf(),
        old(dst).wf(),
        src@.width * old(dst)@.width <= usize::MAX,
        src@.height * old(dst)@.height <= usize::MAX,
    ensures
        if src@.width == 0 || src@.height == 0 {
            final(dst)@ == old(dst)@
        } else {
            upscaled(src@, old(dst)@, final(dst)@)
        },
{
    let ghost before = dst@;
    let sw: usize = src.width();
    let sh: usize = src.height();
    let dw: usize = dst.width();
    let dh: usize = dst.height();
    if sw == 0 || sh == 0 || dw == 0 || dh == 0 {
        return;
    }
    let mut y: usize = 0;
    while y < dh
        invariant
            src.wf(),
            before.wf(),
            sw == src@.width,
            sh == src@.height,
            dw == before.width,
            dh == before.height,
            0 < sw,
            0 < sh,
            0 < dw,
            sw * dw <= usize::MAX,
            sh * dh <= usize::MAX,
            y <= dh,
            dst@.wf(),
            dst@.same_shape(before),
            forall|px: int, py: int|
                #![trigger dst@.pixel(px, py)]
                before.contains(px, py) && py < y ==> dst@.pixel(px, py) == src@.pixel(
                    px * sw as int / dw as int,
                    py * sh as int / dh as int,
                ),
        decreases dh - y,
    {
        proof {
            lemma_share_in_range(y as int, dh as int, sh as int);
        }
        let sy: usize = y * sh / dh;
        let mut x: usize = 0;
        while x < dw
            invariant
                src.wf(),
                before.wf(),
                sw == src@.width,
                sh == src@.height,
                dw == before.width,
                dh == before.height,
                0 < sw,
                0 < dw,
                sw * dw <= usize::MAX,
                y < dh,
                sy == y * sh as int / dh as int,
                sy < sh,
                x <= dw,
                dst@.wf(),
                dst@.same_shape(before),
                forall|px: int, py: int|
                    #![trigger dst@.pixel(px, py)]
                    before.contains(px, py) && (py < y || (py == y && px < x)) ==> dst@.pixel(px, py)
                        == src@.pixel(px * sw as int / dw as int, py * sh as int / dh as int),
            decreases dw - x,
        {
            let ghost mid = dst@;
            proof {
                lemma_share_in_range(x as int, dw as int, sw as int);
            }
            let sx: usize = x * sw / dw;
            dst.set(x, y, src.get(sx, sy));
            proof {
                lemma_index_in_plane(x as int, y as int, dw as int, dh as int);
                assert forall|px: int, py: int|
                    #![trigger dst@.pixel(px, py)]
                    before.contains(px, py) && (py < y || (py == y && px < x + 1)) implies dst@.pixel(
                    px,
                    py,
                ) == src@.pixel(px * sw as int / dw as int, py * sh as int / dh as int) by {
                    lemma_index_in_plane(px, py, dw as int, dh as int);
                    lemma_index_is_injective(px, py, x as int, y as int, dw as int);
                    assert(mid.pixel(px, py) == mid.color[py * dw + px]);
                }
            }
            x = x + 1;
        }
        y = y + 1;
    }
}

/// A side divided by `downscale`, and at least one pixel.
pub open spec fn reduced(side: int, downscale: int) -> int {
    if side < downscale {
        1
    } else {
        side / downscale
    }
}

/// The size of the reduced framebuffer that is rendered while the user interacts: the full size
/// divided by `downscale` on each axis, and at least one pixel.
pub fn reduced_size(width: usize, height: usize, downscale: usize) -> (s: (usize, usize))
    requires
        downscale > 1,
    ensures
        s.0 == reduced(width as int, downscale as int),
        s.1 == reduced(height as int, downscale as int),
        s.0 >= 1 && s.1 >= 1,
{
    proof {
        if width >= downscale {
            vstd::arithmetic::div_mod::lemma_div_non_zero(width as int, downscale as int);
        }
        if height >= downscale {
            vstd::arithmetic::div_mod::lemma_div_non_zero(height as int, downscale as int);
        }
    }
    let w: usize = if width < downscale {
        1
    } else {
        width / downscale
    };
    let h: usize = if height < downscale {
        1
    } else {
        height / downscale
    };
    (w, h)
}

/// Default render width in columns for non-interactive output when no width is given.
pub const DEFAULT_OUTPUT_COLS: u32 = 80;

/// The non-interactive output viewport: a fixed width (the given one or the default) with a height
/// chosen so the braille render field is roughly square.
pub fn output_viewport(settings: &Settings) -> (v: Viewport)
    ensures
        v.cols == columns(
            match settings.width {
                Some(w) => w,
                None => DEFAULT_OUTPUT_COLS,
            },
        ),
        v.rows == at_least_one(v.cols / 2),
{
    let cols: u16 = clamp_columns(settings.width.unwrap_or(DEFAULT_OUTPUT_COLS));
    let rows: u16 = if cols / 2 == 0 {
        1
    } else {
        cols / 2
    };
    Viewport { cols, rows }
}

/// What is said when a mesh of that format could not be loaded.
pub open spec fn load_failure_text(format: MeshFormat, path: Seq<char>) -> Seq<char> {
    match format {
        MeshFormat::Obj => "loading OBJ "@ + path,
        MeshFormat::Stl => "loading STL "@ + path,
        MeshFormat::Gltf => "loading glTF "@ + path,
        MeshFormat::Blend => "loading Blender file "@ + path + " (via headless export)"@,
    }
}

/// The complaint when a mesh of that format could not be loaded, for that cause.
pub fn load_failure(format: MeshFormat, path: &str, cause: String) -> (c: Complaint)
    ensures
        c.what@ == load_failure_text(format, path@),
        c.cause == Some(cause),
{
    let what = match format {
        MeshFormat::Obj => joined("loading OBJ ", path),
        MeshFormat::Stl => joined("loading STL ", path),
        MeshFormat::Gltf => joined("loading glTF ", path),
        MeshFormat::Blend => {
            let mut m = joined("loading Blender file ", path);
            m.append(" (via headless export)");
            m
        },
    };
    Complaint { what, cause: Some(cause) }
}

/// The path of a mesh, or a complaint where it would have to come from standard input.
pub fn mesh_path(input: &Input) -> (r: Result<String, Complaint>)
    ensures
        match input {
            Input::File(p) => r is Ok && r->Ok_0@ == p@,
            Input::Stdin => r is Err && r->Err_0.what@
                == "reading meshes from stdin is not supported (pass a file path)"@
                && r->Err_0.cause is None,
        },
{
    match input {
        Input::File(p) => Ok(p.clone()),
        Input::Stdin => Err(
            Complaint::new("reading meshes from stdin is not supported (pass a file path)"),
        ),
    }
}

/// The bounding box of a scene, or a complaint where the scene has nothing in it.
pub fn scene_bounds(bounds: Option<BoundingBox>) -> (r: Result<BoundingBox, Complaint>)
    ensures
        match bounds {
            Some(b) => r == Ok::<BoundingBox, Complaint>(b),
            None => r is Err && r->Err_0.what@ == "mesh has no geometry to display"@
                && r->Err_0.cause is None,
        },
{
    match bounds {
        Some(b) => Ok(b),
        None => Err(Complaint::new("mesh has no geometry to display")),
    }
}

/// Builds the initial playback state for a loaded model: playing its first animation, or disabled when
/// the model has none to play.
pub fn anim_state_for(infos: Option<&[AnimationInfo]>) -> (s: AnimState)
    requires
        infos is Some ==> infos->0@.len() < 0x7fff_ffff,
    ensures
        s.wf(),
        match infos {
            None => {
                &&& s.names@ == Seq::<String>::empty()
                &&& s.durations@ == Seq::<Single>::empty()
                &&& s.skinned@ == Seq::<bool>::empty()
                &&& s.control() == AnimControl {
                    menu_open: false,
                    playing: false,
                    looping: false,
                    speed: Single::zero(),
                    time: Single::zero(),
                    selected: 0,
                }
            },
            Some(list) => {
                &&& s.names@.len() == list@.len()
                &&& s.durations@ == list@.map_values(|a: AnimationInfo| a.duration)
                &&& s.skinned@ == list@.map_values(|a: AnimationInfo| a.skinned)
                &&& forall|i: int|
                    #![trigger s.names@[i]]
                    0 <= i < list@.len() ==> s.names@[i]@ == list@[i].name@
                &&& s.control() == AnimControl {
                    menu_open: false,
                    playing: list@.len() > 0,
                    looping: true,
                    speed: Single::one(),
                    time: Single::zero(),
                    selected: 0,
                }
            },
        },
{
    let list = match infos {
        Some(list) => list,
        None => {
            return AnimState::disabled();
        },
    };
    let mut names: Vec<String> = Vec::new();
    let mut durations: Vec<Single> = Vec::new();
    let mut skinned: Vec<bool> = Vec::new();
    let mut i: usize = 0;
    while i < list.len()
        invariant
            i <= list@.len(),
            names@.len() == i,
            forall|k: int| #![trigger names@[k]] 0 <= k < i ==> names@[k]@ == list@[k].name@,
            durations@ == list@.map_values(|a: AnimationInfo| a.duration).take(i as int),
            skinned@ == list@.map_values(|a: AnimationInfo| a.skinned).take(i as int),
        decreases list@.len() - i,
    {
        names.push(list[i].name.clone());
        durations.push(list[i].duration);
        skinned.push(list[i].skinned);
        i = i + 1;
        assert(durations@ =~= list@.map_values(|a: AnimationInfo| a.duration).take(i as int));
        assert(skinned@ =~= list@.map_values(|a: AnimationInfo| a.skinned).take(i as int));
    }
    assert(durations@ =~= list@.map_values(|a: AnimationInfo| a.duration));
    assert(skinned@ =~= list@.map_values(|a: AnimationInfo| a.skinned));
    AnimState::new(names, durations, skinned)
}

/// The dynamic status-bar inputs that are not part of the state. Numbers that are not whole come as
/// text.
#[derive(Debug)]
pub struct StatusInfo {
    /// The displayed file name.
    pub file: String,
    /// The rendered scene's triangle count (after any simplification).
    pub triangles: usize,
    /// The most recent measured frames-per-second.
    pub fps: String,
    /// The triangle counts before and after simplification, when the mesh was simplified on load.
    pub simplify: Option<(usize, usize)>,
    /// The playback time.
    pub time: String,
}

/// The part of the status line on the triangles.
pub open spec fn triangles_text(info: StatusInfo) -> Seq<char> {
    match info.simplify {
        Some((before, after)) => decimal(before as nat) + "\u{2192}"@ + decimal(after as nat)
            + " tris (simplified)"@,
        None => decimal(info.triangles as nat) + " tris"@,
    }
}

/// The part of the status line on the light.
pub open spec fn light_text(l: LightState) -> Seq<char> {
    if l.on {
        "light:"@ + l.mode.spec_name()
    } else {
        "light:off"@
    }
}

/// The part of the status line on the animation.
pub open spec fn anim_text(a: AnimState, time: Seq<char>) -> Seq<char> {
    if a.names@.len() > 0 {
        " | anim:"@ + a.names@[a.selected as int]@ + " t="@ + time + "s "@ + (if a.playing {
            "\u{25b6}"@
        } else {
            "\u{275a}\u{275a}"@
        }) + (if a.looping {
            " loop"@
        } else {
            " once"@
        })
    } else {
        Seq::empty()
    }
}

/// The status line.
pub open spec fn status_text(s: ViewerState, info: StatusInfo) -> Seq<char> {
    info.file@ + " | "@ + triangles_text(info) + " | "@ + info.fps@ + " fps | braille | "@
        + shading_text(shading_of(s.view())) + (if s.color {
        " | color"@
    } else {
        ""@
    }) + " | "@ + light_text(s.light) + anim_text(s.anim, info.time@)
}

/// The status line.
pub fn status_line(s: &ViewerState, info: &StatusInfo) -> (t: String)
    requires
        s.wf(),
    ensures
        t@ == status_text(*s, *info),
{
    let mut tris = String::new();
    match info.simplify {
        Some((before, after)) => {
            push_decimal(&mut tris, before as u64);
            tris.append("\u{2192}");
            push_decimal(&mut tris, after as u64);
            tris.append(" tris (simplified)");
        },
        None => {
            push_decimal(&mut tris, info.triangles as u64);
            tris.append(" tris");
        },
    }
    assert(tris@ =~= triangles_text(*info));
    let light = if s.light.on {
        joined("light:", s.light.mode.name())
    } else {
        "light:off".to_owned()
    };
    let mut anim = String::new();
    if s.anim.enabled() {
        anim.append(" | anim:");
        anim.append(s.anim.names[s.anim.selected].as_str());
        anim.append(" t=");
        anim.append(info.time.as_str());
        anim.append("s ");
        anim.append(
            if s.anim.playing {
                "\u{25b6}"
            } else {
                "\u{275a}\u{275a}"
            },
        );
        anim.append(
            if s.anim.looping {
                " loop"
            } else {
                " once"
            },
        );
    }
    assert(anim@ =~= anim_text(s.anim, info.time@));
    let mut t = info.file.clone();
    t.append(" | ");
    t.append(tris.as_str());
    t.append(" | ");
    t.append(info.fps.as_str());
    t.append(" fps | braille | ");
    t.append(shading_name(s.effective_shading()));
    t.append(
        if s.color {
            " | color"
        } else {
            ""
        },
    );
    t.append(" | ");
    t.append(light.as_str());
    t.append(anim.as_str());
    assert(t@ =~= status_text(*s, *info));
    t
}

/// The key help of the viewer.
pub open spec fn help_text() -> Seq<char> {
    "arrows:orbit  z/x:roll  +/-:zoom  R:reset  W:wire  S:shade  C:color  L:light  A:anim  F:ui  Q:quit"@
}

/// Whether `lines` are those of the light menu. The texts are those of the azimuth and elevation in
/// degrees and of the ambient level.
pub open spec fn is_light_menu(
    l: LightState,
    azimuth: Seq<char>,
    elevation: Seq<char>,
    ambient: Seq<char>,
    lines: Seq<String>,
) -> bool {
    &&& lines.len() == 10
    &&& lines[0]@ == "Light menu"@
    &&& lines[1]@ == "mode:      "@ + l.mode.spec_name()
    &&& lines[2]@ == "azimuth:   "@ + azimuth + "\u{b0}"@
    &&& lines[3]@ == "elevation: "@ + elevation + "\u{b0}"@
    &&& lines[4]@ == "ambient:   "@ + ambient
    &&& lines[5]@ == "light:     "@ + switch_text(l.on)
    &&& lines[6]@ == Seq::<char>::empty()
    &&& lines[7]@ == "\u{2190}/\u{2192} az   \u{2191}/\u{2193} el   M mode"@
    &&& lines[8]@ == "+/- ambient   O/Space on/off"@
    &&& lines[9]@ == "R reset   Esc/L close"@
}

/// The lines of the light menu.
pub fn light_menu_lines(l: &LightState, azimuth: &str, elevation: &str, ambient: &str) -> (lines:
    Vec<String>)
    ensures
        is_light_menu(*l, azimuth@, elevation@, ambient@, lines@),
{
    let mut az = joined("azimuth:   ", azimuth);
    az.append("\u{b0}");
    let mut el = joined("elevation: ", elevation);
    el.append("\u{b0}");
    let mut lines: Vec<String> = Vec::new();
    lines.push("Light menu".to_owned());
    lines.push(joined("mode:      ", l.mode.name()));
    lines.push(az);
    lines.push(el);
    lines.push(joined("ambient:   ", ambient));
    lines.push(joined("light:     ", switch_name(l.on)));
    lines.push(String::new());
    lines.push("\u{2190}/\u{2192} az   \u{2191}/\u{2193} el   M mode".to_owned());
    lines.push("+/- ambient   O/Space on/off".to_owned());
    lines.push("R reset   Esc/L close".to_owned());
    lines
}

/// Whether `lines` are those of the animation menu. The texts are those of the time, the duration and
/// the speed.
pub open spec fn is_anim_menu(
    a: AnimState,
    time: Seq<char>,
    duration: Seq<char>,
    speed: Seq<char>,
    lines: Seq<String>,
) -> bool {
    if a.names@.len() == 0 {
        &&& lines.len() == 4
        &&& lines[0]@ == "Animation menu"@
        &&& lines[1]@ == "no animations in this file"@
        &&& lines[2]@ == Seq::<char>::empty()
        &&& lines[3]@ == "Esc/A close"@
    } else {
        &&& lines.len() == 10
        &&& lines[0]@ == "Animation menu"@
        &&& lines[1]@ == "clip:    "@ + a.names@[a.selected as int]@ + " ["@ + decimal(
            (a.selected + 1) as nat,
        ) + "/"@ + decimal(a.names@.len()) + "]"@
        &&& lines[2]@ == "time:    "@ + time + "s / "@ + duration + "s"@
        &&& lines[3]@ == "state:   "@ + (if a.playing {
            "playing"@
        } else {
            "paused"@
        })
        &&& lines[4]@ == "loop:    "@ + switch_text(a.looping)
        &&& lines[5]@ == "speed:   "@ + speed + "x"@ + (if a.selected < a.skinned@.len()
            && a.skinned@[a.selected as int] {
            "  (skinned: node motion only)"@
        } else {
            ""@
        })
        &&& lines[6]@ == Seq::<char>::empty()
        &&& lines[7]@ == "Space play/pause   L loop"@
        &&& lines[8]@ == "\u{2191}/\u{2193} clip   \u{2190}/\u{2192} scrub"@
        &&& lines[9]@ == "+/- speed   R reset   Esc/A close"@
    }
}

/// The lines of the animation menu.
pub fn anim_menu_lines(a: &AnimState, time: &str, duration: &str, speed: &str) -> (lines: Vec<String>)
    requires
        a.wf(),
    ensures
        is_anim_menu(*a, time@, duration@, speed@, lines@),
{
    let mut lines: Vec<String> = Vec::new();
    lines.push("Animation menu".to_owned());
    if !a.enabled() {
        lines.push("no animations in this file".to_owned());
        lines.push(String::new());
        lines.push("Esc/A close".to_owned());
        return lines;
    }
    let mut clip = joined("clip:    ", a.names[a.selected].as_str());
    clip.append(" [");
    push_decimal(&mut clip, (a.selected + 1) as u64);
    clip.append("/");
    push_decimal(&mut clip, a.count() as u64);
    clip.append("]");
    lines.push(clip);
    let mut clock = joined("time:    ", time);
    clock.append("s / ");
    clock.append(duration);
    clock.append("s");
    lines.push(clock);
    lines.push(
        joined(
            "state:   ",
            if a.playing {
                "playing"
            } else {
                "paused"
            },
        ),
    );
    lines.push(joined("loop:    ", switch_name(a.looping)));
    let mut rate = joined("speed:   ", speed);
    rate.append("x");
    rate.append(
        if a.current_skinned() {
            "  (skinned: node motion only)"
        } else {
            ""
        },
    );
    lines.push(rate);
    lines.push(String::new());
    lines.push("Space play/pause   L loop".to_owned());
    lines.push("\u{2191}/\u{2193} clip   \u{2190}/\u{2192} scrub".to_owned());
    lines.push("+/- speed   R reset   Esc/A close".to_owned());
    lines
}

/// Whether `after` is `before` with a panel of these lines near its top-left.
pub open spec fn shows_panel(before: Grid, after: Grid, lines: Seq<String>) -> bool {
    paneled(before, after, 1, 1, lines, lines.len() as int, widest(lines, lines.len()) as int)
}

/// Whether `after` is `before` with the status bar, where that is shown and there is something to
/// show in it.
pub open spec fn shows_status(
    before: Grid,
    after: Grid,
    s: ViewerState,
    info: Option<StatusInfo>,
) -> bool {
    if s.show_ui && info is Some {
        barred(before, after, status_text(s, info->0), help_text())
    } else {
        after == before
    }
}

/// Draws what lies over the rendered mesh: the status bar where it is shown, and over everything the
/// menus that are open.
pub fn overlay_viewer(
    frame: &mut TerminalFrame,
    s: &ViewerState,
    info: &Option<StatusInfo>,
    light_lines: &[String],
    anim_lines: &[String],
)
    requires
        old(frame).wf(),
        s.wf(),
    ensures
        final(frame).wf(),
        exists|bar: Grid, light: Grid|
            {
                &&& #[trigger] shows_status(old(frame)@, bar, *s, *info)
                &&& #[trigger] shows_if(s.light.menu_open, bar, light, light_lines@)
                &&& shows_if(s.anim.menu_open, light, final(frame)@, anim_lines@)
            },
{
    if s.show_ui {
        if let Some(info) = info {
            let status = status_line(s, info);
            overlay_bottom_bar(
                frame,
                status.as_str(),
                "arrows:orbit  z/x:roll  +/-:zoom  R:reset  W:wire  S:shade  C:color  L:light  A:anim  F:ui  Q:quit",
            );
        }
    }
    let ghost bar = frame@;
    assert(shows_status(old(frame)@, bar, *s, *info));
    if s.light.menu_open {
        overlay_panel(frame, 1, 1, light_lines);
    }
    let ghost light = frame@;
    assert(shows_if(s.light.menu_open, bar, light, light_lines@));
    if s.anim.menu_open {
        overlay_panel(frame, 1, 1, anim_lines);
    }
}

/// Whether `after` is `before` with a panel of these lines, where it is open.
pub open spec fn shows_if(open: bool, before: Grid, after: Grid, lines: Seq<String>) -> bool {
    if open {
        shows_panel(before, after, lines)
    } else {
        after == before
    }
}

/// Where the render loop stands.
#[derive(Clone, Copy, Debug, PartialEq, Eq, Structural)]
pub struct ViewLoop {
    /// The size of the terminal.
    pub viewport: Viewport,
    /// Whether the scene must be rendered anew.
    pub dirty: bool,
    /// Whether the user is interacting, so that frames are rendered at a reduced resolution.
    pub interacting: bool,
}

/// What the render loop does behind an event.
#[derive(Clone, Copy, Debug, PartialEq, Eq, Structural)]
pub enum LoopStep {
    /// Leave the viewer.
    Quit,
    /// Go on, after the move, if there is one.
    Continue(Option<ViewCommand>),
}

/// How long the loop waits for input while an animation plays, in milliseconds.
pub const ANIM_FRAME_MILLIS: u64 = 33;

/// How long the loop waits for input while the user interacts, in milliseconds.
pub const INTERACT_IDLE_MILLIS: u64 = 120;

/// How long the loop waits for input otherwise, in milliseconds.
pub const POLL_MILLIS: u64 = 500;

/// By how much the render resolution is divided while the user interacts.
pub const INTERACT_DOWNSCALE: usize = 2;

impl ViewLoop {
    /// The loop at its start: something is to be rendered, at full resolution.
    pub fn new(viewport: Viewport) -> (l: ViewLoop)
        ensures
            l == (ViewLoop { viewport, dirty: true, interacting: false }),
    {
        ViewLoop { viewport, dirty: true, interacting: false }
    }

    /// By how much the render resolution is divided.
    pub fn downscale(&self) -> (d: usize)
        ensures
            d == (if self.interacting {
                INTERACT_DOWNSCALE
            } else {
                1
            }),
    {
        if self.interacting {
            INTERACT_DOWNSCALE
        } else {
            1
        }
    }

    /// How long to wait for input, in milliseconds: little while playing or just after input.
    pub fn timeout_millis(&self, playing: bool) -> (t: u64)
        ensures
            t == (if playing {
                ANIM_FRAME_MILLIS
            } else if self.interacting {
                INTERACT_IDLE_MILLIS
            } else {
                POLL_MILLIS
            }),
    {
        if playing {
            ANIM_FRAME_MILLIS
        } else if self.interacting {
            INTERACT_IDLE_MILLIS
        } else {
            POLL_MILLIS
        }
    }

    /// The loop once something asked for a redraw.
    pub open spec fn touched(self) -> ViewLoop {
        ViewLoop { dirty: true, interacting: true, ..self }
    }

    /// Takes in an event: whatever changes something is rendered at once, at reduced resolution.
    pub fn on_event(&mut self, state: &mut ViewerState, event: Event) -> (s: LoopStep)
        requires
            old(state).wf(),
        ensures
            final(state).wf(),
            final(state).anim.same_clips(&old(state).anim),
            match event {
                Event::Resize(cols, rows) => {
                    &&& s == LoopStep::Continue(None)
                    &&& final(state).view() == old(state).view()
                    &&& *final(self) == (ViewLoop {
                        viewport: Viewport { cols, rows },
                        ..old(self).touched()
                    })
                },
                Event::Key(key) => takes_step(
                    *old(self),
                    *final(self),
                    final(state).view(),
                    s,
                    key_effect(old(state).view(), old(state).anim.names@.len(), key),
                ),
                Event::Mouse(m) => takes_step(
                    *old(self),
                    *final(self),
                    final(state).view(),
                    s,
                    mouse_effect(old(state).view(), m),
                ),
                _ => {
                    &&& s == LoopStep::Continue(None)
                    &&& final(state).view() == old(state).view()
                    &&& *final(self) == *old(self)
                },
            },
    {
        let (action, command): (KeyAction, Option<ViewCommand>) = match event {
            Event::Resize(cols, rows) => {
                self.viewport = Viewport { cols, rows };
                (KeyAction::Redraw, None)
            },
            Event::Key(key) => state.on_key(key),
            Event::Mouse(m) => state.on_mouse(m),
            _ => (KeyAction::Ignore, None),
        };
        match action {
            KeyAction::Quit => LoopStep::Quit,
            KeyAction::Redraw => {
                self.interacting = true;
                self.dirty = true;
                LoopStep::Continue(command)
            },
            KeyAction::Ignore => LoopStep::Continue(command),
        }
    }

    /// Takes in that no input came: a clock that moved asks for a redraw, and so does going back to
    /// full resolution.
    pub fn on_tick(&mut self, clock_moved: bool)
        ensures
            *final(self) == (ViewLoop {
                dirty: old(self).dirty || clock_moved || old(self).interacting,
                interacting: false,
                ..*old(self)
            }),
    {
        if clock_moved {
            self.dirty = true;
        }
        if self.interacting {
            self.interacting = false;
            self.dirty = true;
        }
    }
}

/// Whether the loop and the state take the step that the effect of an event asks for.
pub open spec fn takes_step(
    before: ViewLoop,
    after: ViewLoop,
    state: ViewerView,
    step: LoopStep,
    effect: (ViewerView, KeyAction, Option<ViewCommand>),
) -> bool {
    &&& state == effect.0
    &&& step == (if effect.1 == KeyAction::Quit {
        LoopStep::Quit
    } else {
        LoopStep::Continue(effect.2)
    })
    &&& after == (if effect.1 == KeyAction::Redraw {
        before.touched()
    } else {
        before
    })
}

/// A picture upscaled to its own size is the picture itself, and at any size every pixel shows the pixel
/// of the smaller picture at the same share of the way from the left and from the top.
pub proof fn law_upscaling_keeps_the_picture(src: Raster, before: Raster, after: Raster, x: int, y: int)
    requires
        src.wf(),
        before.wf(),
        0 < src.width,
        0 < src.height,
        upscaled(src, before, after),
        before.contains(x, y),
    ensures
        src.width == before.width && src.height == before.height ==> after.color[y * before.width
            + x] == src.color[y * before.width + x],
        exists|sx: int, sy: int|
            #![trigger src.color[sy * src.width + sx]]
            {
                &&& 0 <= sx < src.width
                &&& 0 <= sy < src.height
                &&& sx * before.width <= x * src.width < (sx + 1) * before.width
                &&& sy * before.height <= y * src.height < (sy + 1) * before.height
                &&& after.color[y * before.width + x] == src.color[sy * src.width + sx]
            },
{
    let sx = x * src.width as int / before.width as int;
    let sy = y * src.height as int / before.height as int;
    lemma_share_spans(x, before.width as int, src.width as int);
    lemma_share_spans(y, before.height as int, src.height as int);
    if src.width == before.width && src.height == before.height {
        lemma_share_of_same_length(x, before.width as int);
        lemma_share_of_same_length(y, before.height as int);
    }
    assert(after.pixel(x, y) == after.color[y * before.width + x]);
    let c = src.color[sy * src.width + sx];
}

/// A reduced side is as many pixels as the whole one holds steps of the divisor, and at least one.
pub proof fn law_reduced_side_divides_the_whole(side: int, downscale: int)
    requires
        side >= 0,
        downscale > 1,
    ensures
        reduced(side, downscale) >= 1,
        side < (reduced(side, downscale) + 1) * downscale,
        side >= downscale ==> reduced(side, downscale) * downscale <= side,
{
    let n = reduced(side, downscale);
    if side >= downscale {
        vstd::arithmetic::div_mod::lemma_fundamental_div_mod(side, downscale);
        vstd::arithmetic::div_mod::lemma_mod_bound(side, downscale);
        vstd::arithmetic::div_mod::lemma_div_non_zero(side, downscale);
        assert(downscale * n == n * downscale) by (nonlinear_arith);
    }
    assert((n + 1) * downscale == n * downscale + downscale) by (nonlinear_arith);
    assert(n >= 1 ==> n * downscale >= downscale) by (nonlinear_arith)
        requires
            downscale > 1,
    ;
}

/// Drags add up to where the pointer went: from where the button went down, the moves asked for come
/// to as many cells to the right, and as many down, as the pointer ends up from there. Letting go ends
/// it: a drag without a button down asks for nothing.
pub proof fn law_drags_follow_the_pointer(
    v: ViewerView,
    down: MouseEvent,
    first: MouseEvent,
    second: MouseEvent,
    up: MouseEvent,
)
    requires
        down.kind == MouseEventKind::Down(MouseButton::Left),
        first.kind == MouseEventKind::Drag(MouseButton::Left),
        second.kind == MouseEventKind::Drag(MouseButton::Left),
        up.kind == MouseEventKind::Up(MouseButton::Left),
    ensures
        ({
            let held = mouse_effect(v, down);
            let moved = mouse_effect(held.0, first);
            let there = mouse_effect(moved.0, second);
            let free = mouse_effect(there.0, up);
            &&& held.2 is None
            &&& moved.2 is Some && moved.2->0 is Drag
            &&& there.2 is Some && there.2->0 is Drag
            &&& moved.2->0->Drag_0 + there.2->0->Drag_0 == second.col - down.col
            &&& moved.2->0->Drag_1 + there.2->0->Drag_1 == second.row - down.row
            &&& moved.2->0->Drag_0 == first.col - down.col
            &&& moved.2->0->Drag_1 == first.row - down.row
            &&& free.2 is None
            &&& mouse_effect(free.0, first).2 is None
            &&& free.0 == ViewerView { last_drag: None, ..v }
        }),
{
}

/// The wheel and the keys zoom alike: turned up, or plus, zooms in, and turned down, or minus, out.
pub proof fn law_wheel_zooms_like_the_keys(v: ViewerView, count: nat, m: MouseEvent, key: KeyEvent)
    requires
        !v.light.menu_open,
        !v.anim.menu_open,
    ensures
        m.kind is ScrollUp && key.is_letter('+', '=') ==> mouse_effect(v, m) == key_effect(
            v,
            count,
            key,
        ) && mouse_effect(v, m).2 == Some(ViewCommand::ZoomIn),
        m.kind is ScrollDown && key.is_letter('-', '_') ==> mouse_effect(v, m) == key_effect(
            v,
            count,
            key,
        ) && mouse_effect(v, m).2 == Some(ViewCommand::ZoomOut),
{
}

/// While the menus are closed the arrow keys orbit as they point, one step: left and right sideways
/// alone, up and down in height alone; X rolls on and Z back, and R goes back to the framed view.
pub proof fn law_keys_move_the_camera_as_they_point(v: ViewerView, count: nat, key: KeyEvent)
    requires
        !v.light.menu_open,
        !v.anim.menu_open,
    ensures
        ({
            let (after, action, command) = key_effect(v, count, key);
            &&& key.code == KeyCode::Right ==> command == Some(ViewCommand::Orbit(1, 0))
            &&& key.code == KeyCode::Left ==> command == Some(
                ViewCommand::Orbit((-1) as i32, 0),
            )
            &&& key.code == KeyCode::Up ==> command == Some(ViewCommand::Orbit(0, 1))
            &&& key.code == KeyCode::Down ==> command == Some(
                ViewCommand::Orbit(0, (-1) as i32),
            )
            &&& key.is_letter('x', 'X') ==> command == Some(ViewCommand::Roll(1))
            &&& key.is_letter('z', 'Z') ==> command == Some(ViewCommand::Roll((-1) as i32))
            &&& key.is_letter('r', 'R') ==> command == Some(ViewCommand::ResetView)
            &&& command is Some ==> after == v && action == KeyAction::Redraw
        }),
{
}

/// While the light menu is open the arrow keys move the light as they point: left and right round,
/// up and down in height; plus and minus the ambient floor. None of them changes anything at once.
pub proof fn law_light_moves_as_the_keys_point(v: ViewerView, count: nat, key: KeyEvent)
    requires
        v.light.menu_open,
    ensures
        ({
            let (after, action, command) = key_effect(v, count, key);
            &&& key.code == KeyCode::Right ==> command == Some(
                ViewCommand::Light(LightNudge::AzimuthUp),
            )
            &&& key.code == KeyCode::Left ==> command == Some(
                ViewCommand::Light(LightNudge::AzimuthDown),
            )
            &&& key.code == KeyCode::Up ==> command == Some(
                ViewCommand::Light(LightNudge::ElevationUp),
            )
            &&& key.code == KeyCode::Down ==> command == Some(
                ViewCommand::Light(LightNudge::ElevationDown),
            )
            &&& key.is_letter('+', '=') ==> command == Some(
                ViewCommand::Light(LightNudge::AmbientUp),
            )
            &&& key.is_letter('-', '_') ==> command == Some(
                ViewCommand::Light(LightNudge::AmbientDown),
            )
            &&& command is Some ==> after == v
        }),
{
}

/// While the animation menu is open the arrow keys move the clock on and back and the selection down
/// and up the list; plus and minus the speed.
pub proof fn law_clock_moves_as_the_keys_point(v: ViewerView, count: nat, key: KeyEvent)
    requires
        !v.light.menu_open,
        v.anim.menu_open,
        0 <= v.anim.selected < count,
    ensures
        ({
            let (after, action, command) = key_effect(v, count, key);
            &&& key.code == KeyCode::Right ==> command == Some(
                ViewCommand::Anim(AnimNudge::ScrubForward),
            )
            &&& key.code == KeyCode::Left ==> command == Some(
                ViewCommand::Anim(AnimNudge::ScrubBack),
            )
            &&& key.is_letter('+', '=') ==> command == Some(ViewCommand::Anim(AnimNudge::SpeedUp))
            &&& key.is_letter('-', '_') ==> command == Some(ViewCommand::Anim(AnimNudge::SpeedDown))
            &&& command is Some ==> after == v
            &&& key.code == KeyCode::Down && v.anim.selected + 1 < count ==> after.anim.selected
                == v.anim.selected + 1
            &&& key.code == KeyCode::Up && v.anim.selected > 0 ==> after.anim.selected
                == v.anim.selected - 1
            &&& key.code == KeyCode::Down && v.anim.selected + 1 == count ==> after.anim.selected == 0
            &&& key.code == KeyCode::Up && v.anim.selected == 0 ==> after.anim.selected == count - 1
            &&& key.code == KeyCode::Up || key.code == KeyCode::Down ==> after.anim.time
                == Single::zero() && after.anim.playing == v.anim.playing && after.anim.looping
                == v.anim.looping && after.anim.speed == v.anim.speed
        }),
{
    let n = count as int;
    if v.anim.selected + 1 == n {
        vstd::arithmetic::div_mod::lemma_fundamental_div_mod_converse(n, n, 1, 0);
    } else {
        vstd::arithmetic::div_mod::lemma_small_mod((v.anim.selected + 1) as nat, count);
    }
    if v.anim.selected == 0 {
        vstd::arithmetic::div_mod::lemma_fundamental_div_mod_converse(-1, n, -1, n - 1);
    } else {
        vstd::arithmetic::div_mod::lemma_small_mod((v.anim.selected - 1) as nat, count);
    }
}

/// A toggle pressed twice leaves everything as it was, and a menu that is opened and closed too.
pub proof fn law_toggles_undo_themselves(v: ViewerView, count: nat, key: KeyEvent, esc: KeyEvent)
    requires
        !key.modifiers.ctrl,
        esc.code == KeyCode::Esc,
    ensures
        !v.light.menu_open && !v.anim.menu_open && (key.is_letter('w', 'W') || key.is_letter('c', 'C')
            || key.is_letter('f', 'F') || key.is_letter('l', 'L') || key.is_letter('a', 'A'))
            ==> pressed(v, count, key, 2) == v && pressed(v, count, key, 1) != v,
        !v.light.menu_open && !v.anim.menu_open && (key.is_letter('l', 'L') || key.is_letter(
            'a',
            'A',
        )) ==> key_effect(key_effect(v, count, key).0, count, esc).0 == v,
        v.light.menu_open && (key.is_letter('m', 'M') || key.is_letter('o', 'O') || key.code
            == KeyCode::Char(' ')) ==> pressed(v, count, key, 2) == v && pressed(v, count, key, 1)
            != v,
        !v.light.menu_open && v.anim.menu_open && count > 0 && (key.is_letter('l', 'L') || key.code
            == KeyCode::Char(' ')) ==> pressed(v, count, key, 2) == v && pressed(v, count, key, 1)
            != v,
{
    reveal_with_fuel(pressed, 3);
}

/// The light decides only how lit modes look: without it they are unlit, and all others are the same
/// with it and without; as a wireframe the mesh is one whatever the rest says.
pub proof fn law_light_matters_for_lit_modes_only(v: ViewerView, light: LightState, index: int)
    ensures
        v.wireframe ==> shading_of(v) == ShadingMode::Wireframe && shading_of(
            ViewerView { light, shading_index: index, ..v },
        ) == ShadingMode::Wireframe,
        !v.wireframe ==> shading_of(v) != ShadingMode::Wireframe,
        !v.wireframe && v.light.on ==> shading_of(v) == cycle_mode(v.shading_index),
        !v.wireframe && !v.light.on ==> shading_of(v) != ShadingMode::Flat && shading_of(v)
            != ShadingMode::Smooth,
        light.on == v.light.on ==> shading_of(ViewerView { light, ..v }) == shading_of(v),
        shading_of(v) != shading_of(ViewerView { light, ..v }) ==> cycle_mode(v.shading_index)
            == ShadingMode::Flat || cycle_mode(v.shading_index) == ShadingMode::Smooth,
{
}

/// An explicit request decides the target alone, whatever the automatic budget says; without one the
/// target is the budget, for a mesh above it and where that is wanted, and a mesh is simplified only to
/// fewer triangles.
pub proof fn law_request_outweighs_the_budget(
    total: usize,
    request: Single,
    auto: bool,
    budget: usize,
    asked: usize,
)
    ensures
        Single::zero().spec_lt(request) && asked > 0 ==> target_of(
            total,
            Some(request),
            auto,
            budget,
            asked,
        ) == Some(asked),
        Single::zero().spec_lt(request) ==> target_of(total, Some(request), auto, budget, asked) is Some
            && target_of(total, Some(request), auto, budget, asked)->0 >= 1,
        request.spec_le(Single::zero()) ==> target_of(total, Some(request), auto, budget, asked)
            == target_of(total, None, auto, budget, asked),
        target_of(total, None, auto, budget, asked) is Some <==> auto && total > budget,
        target_of(total, None, auto, budget, asked) is Some ==> target_of(
            total,
            None,
            auto,
            budget,
            asked,
        ) == Some(budget),
{
}

/// The light menu shows each of its values behind its own name.
pub proof fn law_light_menu_names_its_values(
    l: LightState,
    azimuth: Seq<char>,
    elevation: Seq<char>,
    ambient: Seq<char>,
    lines: Seq<String>,
)
    requires
        is_light_menu(l, azimuth, elevation, ambient, lines),
    ensures
        one_tells(lines, "azimuth:"@, azimuth),
        one_tells(lines, "elevation:"@, elevation),
        one_tells(lines, "ambient:"@, ambient),
        one_tells(lines, "mode:"@, l.mode.spec_name()),
        one_tells(lines, "light:"@, switch_text(l.on)),
{
    let none = Seq::<char>::empty();
    reveal_strlit("azimuth:   ");
    reveal_strlit("azimuth:");
    reveal_strlit("elevation: ");
    reveal_strlit("elevation:");
    reveal_strlit("ambient:   ");
    reveal_strlit("ambient:");
    reveal_strlit("mode:      ");
    reveal_strlit("mode:");
    reveal_strlit("light:     ");
    reveal_strlit("light:");
    let wide = seq![' ', ' ', ' '];
    assert("azimuth:   "@ =~= "azimuth:"@ + wide);
    assert("elevation: "@ =~= "elevation:"@ + seq![' ']);
    assert("ambient:   "@ =~= "ambient:"@ + wide);
    assert("mode:      "@ =~= "mode:"@ + seq![' ', ' ', ' ', ' ', ' ', ' ']);
    assert("light:     "@ =~= "light:"@ + seq![' ', ' ', ' ', ' ', ' ']);
    lemma_line_tells(lines, 2, "azimuth:"@, wide, azimuth, "\u{b0}"@);
    lemma_line_tells(lines, 3, "elevation:"@, seq![' '], elevation, "\u{b0}"@);
    assert(lines[4]@ =~= "ambient:"@ + wide + ambient + none);
    lemma_line_tells(lines, 4, "ambient:"@, wide, ambient, none);
    let mode = l.mode.spec_name();
    assert(lines[1]@ =~= "mode:"@ + seq![' ', ' ', ' ', ' ', ' ', ' '] + mode + none);
    lemma_line_tells(lines, 1, "mode:"@, seq![' ', ' ', ' ', ' ', ' ', ' '], mode, none);
    let on = switch_text(l.on);
    assert(lines[5]@ =~= "light:"@ + seq![' ', ' ', ' ', ' ', ' '] + on + none);
    lemma_line_tells(lines, 5, "light:"@, seq![' ', ' ', ' ', ' ', ' '], on, none);
}

/// The animation menu shows each of its values behind its own name: the time before the duration, and
/// the name of the selected animation with its place among all, counted from one.
pub proof fn law_anim_menu_names_its_values(
    a: AnimState,
    time: Seq<char>,
    duration: Seq<char>,
    speed: Seq<char>,
    lines: Seq<String>,
)
    requires
        is_anim_menu(a, time, duration, speed, lines),
        0 < a.names@.len(),
        a.selected < a.names@.len(),
    ensures
        one_tells(lines, "time:"@, time + "s / "@ + duration + "s"@),
        one_tells(lines, "speed:"@, speed),
        one_tells(lines, "loop:"@, switch_text(a.looping)),
        one_tells(
            lines,
            "state:"@,
            if a.playing {
                "playing"@
            } else {
                "paused"@
            },
        ),
        one_tells(lines, "clip:"@, a.names@[a.selected as int]@),
        one_tells(
            lines,
            "clip:"@,
            decimal((a.selected + 1) as nat) + "/"@ + decimal(a.names@.len()),
        ),
{
    let none = Seq::<char>::empty();
    reveal_strlit("time:    ");
    reveal_strlit("time:");
    reveal_strlit("speed:   ");
    reveal_strlit("speed:");
    reveal_strlit("loop:    ");
    reveal_strlit("loop:");
    reveal_strlit("state:   ");
    reveal_strlit("state:");
    reveal_strlit("clip:    ");
    reveal_strlit("clip:");
    let four = seq![' ', ' ', ' ', ' '];
    let three = seq![' ', ' ', ' '];
    assert("time:    "@ =~= "time:"@ + four);
    assert("speed:   "@ =~= "speed:"@ + three);
    assert("loop:    "@ =~= "loop:"@ + four);
    assert("state:   "@ =~= "state:"@ + three);
    assert("clip:    "@ =~= "clip:"@ + four);
    let span = time + "s / "@ + duration + "s"@;
    assert(lines[2]@ =~= "time:"@ + four + span + none);
    lemma_line_tells(lines, 2, "time:"@, four, span, none);
    let tail = "x"@ + (if a.selected < a.skinned@.len() && a.skinned@[a.selected as int] {
        "  (skinned: node motion only)"@
    } else {
        ""@
    });
    assert(lines[5]@ =~= "speed:"@ + three + speed + tail);
    lemma_line_tells(lines, 5, "speed:"@, three, speed, tail);
    let on = switch_text(a.looping);
    assert(lines[4]@ =~= "loop:"@ + four + on + none);
    lemma_line_tells(lines, 4, "loop:"@, four, on, none);
    let state = if a.playing {
        "playing"@
    } else {
        "paused"@
    };
    assert(lines[3]@ =~= "state:"@ + three + state + none);
    lemma_line_tells(lines, 3, "state:"@, three, state, none);
    let name = a.names@[a.selected as int]@;
    let place = decimal((a.selected + 1) as nat) + "/"@ + decimal(a.names@.len());
    assert(lines[1]@ =~= "clip:"@ + four + name + (" ["@ + place + "]"@));
    lemma_line_tells(lines, 1, "clip:"@, four, name, " ["@ + place + "]"@);
    assert(lines[1]@ =~= "clip:"@ + (four + name + " ["@) + place + "]"@);
    lemma_line_tells(lines, 1, "clip:"@, four + name + " ["@, place, "]"@);
}

/// Playback that loops goes on and its time is counted round; playback that does not runs on to the end
/// of the animation, is never beyond it, and stops there. Moving the clock never starts or stops it, and
/// none of this changes the speed or the selection.
pub proof fn law_playback_stops_at_the_end_unless_it_loops(
    c: AnimControl,
    length: Single,
    moved: Single,
    wrapped: Single,
    clamped: Single,
)
    requires
        Single::zero().spec_lt(length),
        !moved.is_nan(),
    ensures
        c.looping ==> c.run(length, moved, wrapped).time == wrapped && c.run(
            length,
            moved,
            wrapped,
        ).playing == c.playing,
        !c.looping && moved.spec_lt(length) ==> c.run(length, moved, wrapped).time == moved && c.run(
            length,
            moved,
            wrapped,
        ).playing == c.playing,
        !c.looping && !moved.spec_lt(length) ==> c.run(length, moved, wrapped).time == length && !c.run(
            length,
            moved,
            wrapped,
        ).playing,
        c.looping ==> c.scrubbed(length, wrapped, clamped).time == wrapped,
        !c.looping ==> c.scrubbed(length, wrapped, clamped).time == clamped,
        c.scrubbed(length, wrapped, clamped).playing == c.playing,
        ({
            let a = c.run(length, moved, wrapped);
            let b = c.scrubbed(length, wrapped, clamped);
            &&& a.speed == c.speed && a.selected == c.selected && a.looping == c.looping && a.menu_open
                == c.menu_open
            &&& b.speed == c.speed && b.selected == c.selected && b.looping == c.looping && b.menu_open
                == c.menu_open
        }),
{
}

} // verus!
