use vstd::prelude::*;

use crate::fixed::spec_norm_cr;
use crate::fixed::spec_sin_cr;
use crate::fixed::norm_cr;
use crate::fixed::sin_cr;

verus! {

/// Phase of the capture sequence.
#[derive(Clone, Copy, PartialEq, Eq, Structural, Debug)]
pub enum Phase {
    /// Waiting for a throw; the ball idles on the left.
    Idle,
    /// The ball travels toward the target.
    Throwing,
    /// The ball opens; a particle stream is drawn from the sprite.
    Opening,
    /// The sprite is pulled into the ball.
    Absorbing,
    /// The ball snaps shut; the capture is recorded on this phase's entry.
    Closing,
    /// The ball wobbles a fixed number of times.
    Shaking,
    /// Starburst and caught message are held on screen.
    StarHold,
}

/// Which screen-level mode interprets typed lines.
#[derive(Clone, Copy, PartialEq, Eq, Structural, Debug)]
pub enum Screen {
    /// Trainer-name entry.
    Name,
    /// The main capture scene.
    Game,
    /// The caught-index grid.
    DexGrid,
    /// One entry of the index, 1-151.
    DexDetail(u8),
}

/// Ticks the ball idles before its idle counter wraps.
pub const IDLE_WRAP_FRAMES: u32 = 60;

/// Ball travel per Throwing tick, in tenths of a cell.
pub const THROW_STEP: i32 = 15;

/// Starting ball column, in tenths of a cell.
pub const BALL_START_X: i32 = -450;

/// Past this column the throw connects, in tenths of a cell.
pub const BALL_HIT_X: i32 = 120;

/// Column the ball snaps to over the target, in tenths of a cell.
pub const BALL_CAUGHT_X: i32 = 150;

/// Resting ball row, in tenths of a cell.
pub const FLOOR_Y: i32 = 50;

/// Ticks the ball stays open before absorbing begins.
pub const OPEN_FRAMES: u32 = 30;

/// Ticks the absorb stream runs before the ball closes.
pub const ABSORB_FRAMES: u32 = 30;

/// Ticks the ball takes to snap shut.
pub const CLOSE_FRAMES: u32 = 20;

/// Number of wobble cycles while shaking.
pub const SHAKE_COUNT: u32 = 3;

/// Ticks per wobble cycle.
pub const SHAKE_FRAMES: u32 = 20;

/// Ticks the starburst and caught message are held.
pub const STAR_FRAMES: u32 = 50;

/// Spin applied per tick while idle, in centiradians.
pub const IDLE_SPIN_CR: i32 = 5;

/// Spin applied per tick while throwing, in centiradians.
pub const THROW_SPIN_CR: i32 = 20;

/// Tilt-phase advance per tick, in centiradians.
pub const TILT_STEP_CR: i32 = 4;

/// The state one session's scene carries between ticks.
pub struct SceneState {
    /// Screen-level mode.
    pub screen: Screen,
    /// Capture phase.
    pub phase: Phase,
    /// Ticks spent in the current phase.
    pub frame: u32,
    /// Ball column, tenths of a cell.
    pub ball_x: i32,
    /// Ball row, tenths of a cell.
    pub ball_y: i32,
    /// Sphere rotation angle, centiradians in [0, 628).
    pub spin: i32,
    /// Tilt modulation phase, centiradians in [0, 628).
    pub tilt_phase: i32,
    /// Whether this capture cycle has already been recorded.
    pub recorded: bool,
    /// Sanitized trainer name, once entered.
    pub trainer: Option<Vec<u8>>,
    /// Names caught so far, in memory.
    pub caught: Vec<Vec<u8>>,
    /// Name of the creature on screen.
    pub target: Vec<u8>,
    /// The last typed line, echoed in the prompt.
    pub last_cmd: Vec<u8>,
}

/// Ghost image of a scene state: plain mathematical fields.
pub struct SceneView {
    /// Screen-level mode.
    pub screen: Screen,
    /// Capture phase.
    pub phase: Phase,
    /// Ticks spent in the current phase.
    pub frame: int,
    /// Ball column, tenths of a cell.
    pub ball_x: int,
    /// Ball row, tenths of a cell.
    pub ball_y: int,
    /// Sphere rotation angle, centiradians.
    pub spin: int,
    /// Tilt modulation phase, centiradians.
    pub tilt_phase: int,
    /// Whether this capture cycle has already been recorded.
    pub recorded: bool,
    /// Sanitized trainer name, once entered.
    pub trainer: Option<Seq<u8>>,
    /// Names caught so far.
    pub caught: Seq<Seq<u8>>,
    /// Name of the creature on screen.
    pub target: Seq<u8>,
    /// The last typed line.
    pub last_cmd: Seq<u8>,
}

impl View for SceneState {
    type V = SceneView;

    open spec fn view(&self) -> SceneView {
        SceneView {
            screen: self.screen,
            phase: self.phase,
            frame: self.frame as int,
            ball_x: self.ball_x as int,
            ball_y: self.ball_y as int,
            spin: self.spin as int,
            tilt_phase: self.tilt_phase as int,
            recorded: self.recorded,
            trainer: self.trainer.deep_view(),
            caught: self.caught.deep_view(),
            target: self.target@,
            last_cmd: self.last_cmd@,
        }
    }
}

impl SceneState {
    /// Scalar fields stay inside the ranges every tick keeps.
    pub open spec fn wf(self) -> bool {
        &&& 0 <= self.spin < 628
        &&& 0 <= self.tilt_phase < 628
        &&& -500 <= self.ball_x <= 500
        &&& 0 <= self.ball_y <= 100
        &&& self.frame <= 1000
    }
}

/// Vertical bobble of the rolling ball: half a cell of sine on the ball
/// column, written over a shifted non-negative numerator so that the
/// division is exact floor division.
pub open spec fn spec_bobble(bx: int) -> int {
    5 * (spec_sin_cr(spec_norm_cr(5 * bx)) + 1024) / 1024 - 5
}

/// Horizontal wobble while shaking: two cells of sine over the shake
/// counter.
pub open spec fn spec_wobble(f: int) -> int {
    20 * (spec_sin_cr(spec_norm_cr(31 * f)) + 1024) / 1024 - 20
}

/// The tick about to run records the capture: the Absorbing phase ends and
/// nothing was recorded in this cycle yet.
pub open spec fn spec_records_edge(v: SceneView) -> bool {
    &&& v.phase is Absorbing
    &&& v.frame + 1 >= ABSORB_FRAMES
    &&& !v.recorded
}

/// The name the tick about to run must persist, if any: the capture is
/// recorded and the target is not already in the caught set.
pub open spec fn spec_save(v: SceneView) -> Option<Seq<u8>> {
    if spec_records_edge(v) && !v.caught.contains(v.target) {
        Some(v.target)
    } else {
        None
    }
}

/// The scene state after one tick of the state machine.
pub open spec fn spec_advance(v: SceneView) -> SceneView {
    let spin = if v.phase is Throwing {
        spec_norm_cr(v.spin + 628 - THROW_SPIN_CR)
    } else if v.phase is Idle {
        spec_norm_cr(v.spin + 628 - IDLE_SPIN_CR)
    } else {
        v.spin
    };
    let tilt = spec_norm_cr(v.tilt_phase + TILT_STEP_CR);
    let b = SceneView { spin, tilt_phase: tilt, ..v };
    match v.phase {
        Phase::Idle => SceneView {
            frame: if v.frame >= IDLE_WRAP_FRAMES {
                0
            } else {
                v.frame + 1
            },
            ..b
        },
        Phase::Throwing => {
            let bx = v.ball_x + THROW_STEP;
            if bx > BALL_HIT_X {
                SceneView {
                    phase: Phase::Opening,
                    frame: 0,
                    ball_x: BALL_CAUGHT_X as int,
                    ball_y: FLOOR_Y as int,
                    ..b
                }
            } else {
                SceneView { ball_x: bx, ball_y: FLOOR_Y + spec_bobble(bx), ..b }
            }
        },
        Phase::Opening => {
            if v.frame + 1 >= OPEN_FRAMES {
                SceneView { phase: Phase::Absorbing, frame: 0, ..b }
            } else {
                SceneView { frame: v.frame + 1, ..b }
            }
        },
        Phase::Absorbing => {
            if v.frame + 1 >= ABSORB_FRAMES {
                SceneView {
                    phase: Phase::Closing,
                    frame: 0,
                    recorded: true,
                    caught: if !v.recorded && !v.caught.contains(v.target) {
                        v.caught.push(v.target)
                    } else {
                        v.caught
                    },
                    ..b
                }
            } else {
                SceneView { frame: v.frame + 1, ..b }
            }
        },
        Phase::Closing => {
            if v.frame + 1 >= CLOSE_FRAMES {
                SceneView { phase: Phase::Shaking, frame: 0, ball_x: BALL_CAUGHT_X as int, ..b }
            } else {
                SceneView { frame: v.frame + 1, ..b }
            }
        },
        Phase::Shaking => {
            if v.frame + 1 >= SHAKE_COUNT * SHAKE_FRAMES {
                SceneView {
                    phase: Phase::StarHold,
                    frame: 0,
                    ball_x: BALL_CAUGHT_X as int,
                    ..b
                }
            } else {
                SceneView {
                    frame: v.frame + 1,
                    ball_x: BALL_CAUGHT_X + spec_wobble(v.frame + 1),
                    ..b
                }
            }
        },
        Phase::StarHold => {
            if v.frame + 1 >= STAR_FRAMES {
                SceneView {
                    phase: Phase::Idle,
                    frame: 0,
                    ball_x: BALL_START_X as int,
                    ball_y: FLOOR_Y as int,
                    recorded: false,
                    ..b
                }
            } else {
                SceneView { frame: v.frame + 1, ..b }
            }
        },
    }
}

/// The scene state after `n` ticks.
pub open spec fn spec_advance_n(v: SceneView, n: nat) -> SceneView
    decreases n,
{
    if n == 0 {
        v
    } else {
        spec_advance(spec_advance_n(v, (n - 1) as nat))
    }
}

impl SceneState {
    /// A fresh session: name entry first, ball resting on the left.
    pub fn new(target: Vec<u8>) -> (s: SceneState)
        ensures
            s.wf(),
            s@.screen == Screen::Name,
            s@.phase == Phase::Idle,
            s@.frame == 0,
            s@.ball_x == BALL_START_X as int,
            s@.ball_y == FLOOR_Y as int,
            s@.spin == 0,
            s@.tilt_phase == 0,
            !s@.recorded,
            s@.trainer is None,
            s@.caught == Seq::<Seq<u8>>::empty(),
            s@.target == target@,
            s@.last_cmd == Seq::<u8>::empty(),
    {
        let s = SceneState {
            screen: Screen::Name,
            phase: Phase::Idle,
            frame: 0,
            ball_x: BALL_START_X,
            ball_y: FLOOR_Y,
            spin: 0,
            tilt_phase: 0,
            recorded: false,
            trainer: None,
            caught: Vec::new(),
            target,
            last_cmd: Vec::new(),
        };
        proof {
            assert(s.caught.deep_view() =~= Seq::<Seq<u8>>::empty());
        }
        s
    }

    /// Replaces the in-memory caught set, e.g. with what the persistence
    /// layer loaded for a trainer.
    pub fn set_caught(&mut self, caught: Vec<Vec<u8>>)
        ensures
            *final(self) == (SceneState { caught, ..*old(self) }),
    {
        self.caught = caught;
    }

    /// Advances the scene by exactly one tick.
    ///
    /// Returns the name whose capture must be persisted, exactly when this
    /// tick crossed the Absorbing-to-Closing edge for the first time in the
    /// cycle and the name was not already caught.
    pub fn advance_tick(&mut self) -> (saved: Option<Vec<u8>>)
        requires
            old(self).wf(),
        ensures
            final(self).wf(),
            final(self)@ == spec_advance(old(self)@),
            saved.deep_view() == spec_save(old(self)@),
    {
        let ghost v = self@;
        // spin and tilt integrate every tick
        if matches!(self.phase, Phase::Throwing) {
            self.spin = norm_cr(self.spin + 628 - THROW_SPIN_CR);
        } else if matches!(self.phase, Phase::Idle) {
            self.spin = norm_cr(self.spin + 628 - IDLE_SPIN_CR);
        }
        self.tilt_phase = norm_cr(self.tilt_phase + TILT_STEP_CR);

        let mut saved: Option<Vec<u8>> = None;
        match self.phase {
            Phase::Idle => {
                if self.frame >= IDLE_WRAP_FRAMES {
                    self.frame = 0;
                } else {
                    self.frame = self.frame + 1;
                }
            },
            Phase::Throwing => {
                let bx = self.ball_x + THROW_STEP;
                if bx > BALL_HIT_X {
                    self.phase = Phase::Opening;
                    self.frame = 0;
                    self.ball_x = BALL_CAUGHT_X;
                    self.ball_y = FLOOR_Y;
                } else {
                    self.ball_x = bx;
                    let s = sin_cr(norm_cr(5 * bx));
                    self.ball_y = FLOOR_Y + (5 * (s + 1024) / 1024 - 5);
                }
            },
            Phase::Opening => {
                if self.frame + 1 >= OPEN_FRAMES {
                    self.phase = Phase::Absorbing;
                    self.frame = 0;
                } else {
                    self.frame = self.frame + 1;
                }
            },
            Phase::Absorbing => {
                if self.frame + 1 >= ABSORB_FRAMES {
                    self.phase = Phase::Closing;
                    self.frame = 0;
                    if !self.recorded && !contains_name(&self.caught, &self.target) {
                        let name = clone_bytes(&self.target);
                        self.caught.push(name);
                        let out = clone_bytes(&self.target);
                        saved = Some(out);
                        proof {
                            assert(self.caught.deep_view() =~~= v.caught.push(v.target));
                        }
                    }
                    self.recorded = true;
                } else {
                    self.frame = self.frame + 1;
                }
            },
            Phase::Closing => {
                if self.frame + 1 >= CLOSE_FRAMES {
                    self.phase = Phase::Shaking;
                    self.frame = 0;
                    self.ball_x = BALL_CAUGHT_X;
                } else {
                    self.frame = self.frame + 1;
                }
            },
            Phase::Shaking => {
                if self.frame + 1 >= SHAKE_COUNT * SHAKE_FRAMES {
                    self.phase = Phase::StarHold;
                    self.frame = 0;
                    self.ball_x = BALL_CAUGHT_X;
                } else {
                    self.frame = self.frame + 1;
                    let s = sin_cr(norm_cr(31 * self.frame as i32));
                    self.ball_x = BALL_CAUGHT_X + (20 * (s + 1024) / 1024 - 20);
                }
            },
            Phase::StarHold => {
                if self.frame + 1 >= STAR_FRAMES {
                    self.phase = Phase::Idle;
                    self.frame = 0;
                    self.ball_x = BALL_START_X;
                    self.ball_y = FLOOR_Y;
                    self.recorded = false;
                } else {
                    self.frame = self.frame + 1;
                }
            },
        }
        saved
    }
}

/// Compares two byte strings.
pub fn bytes_eq(a: &Vec<u8>, b: &Vec<u8>) -> (r: bool)
    ensures
        r == (a@ == b@),
{
    if a.len() != b.len() {
        return false;
    }
    let mut i: usize = 0;
    while i < a.len()
        invariant
            i <= a@.len(),
            a@.len() == b@.len(),
            forall|k: int| 0 <= k < i ==> a@[k] == b@[k],
        decreases a@.len() - i,
    {
        if a[i] != b[i] {
            return false;
        }
        i = i + 1;
    }
    proof {
        assert(a@ =~= b@);
    }
    true
}

/// Whether a list of names contains one equal to `name`.
pub fn contains_name(list: &Vec<Vec<u8>>, name: &Vec<u8>) -> (r: bool)
    ensures
        r == list.deep_view().contains(name@),
{
    let mut i: usize = 0;
    while i < list.len()
        invariant
            i <= list@.len(),
            forall|k: int| 0 <= k < i ==> list.deep_view()[k] != name@,
        decreases list@.len() - i,
    {
        let hit = bytes_eq(&list[i], name);
        proof {
            assert(list@[i as int].deep_view() =~= list@[i as int]@);
        }
        if hit {
            proof {
                assert(list.deep_view()[i as int] == name@);
            }
            return true;
        }
        i = i + 1;
    }
    proof {
        if list.deep_view().contains(name@) {
            let k = choose|k: int|
                0 <= k < list.deep_view().len() && list.deep_view()[k] == name@;
            assert(list.deep_view()[k] != name@);
        }
    }
    false
}

/// Copies a byte string.
pub fn clone_bytes(a: &Vec<u8>) -> (r: Vec<u8>)
    ensures
        r@ == a@,
{
    let mut out: Vec<u8> = Vec::new();
    let mut i: usize = 0;
    while i < a.len()
        invariant
            i <= a@.len(),
            out@.len() == i,
            forall|k: int| 0 <= k < i ==> out@[k] == a@[k],
        decreases a@.len() - i,
    {
        out.push(a[i]);
        i = i + 1;
    }
    proof {
        assert(out@ =~= a@);
    }
    out
}

/// Once a tick records the capture, no later tick of the same cycle records
/// it again: the recorded flag is set by the edge and only cleared when the
/// cycle returns to Idle, which no further tick leaves. So at most one
/// persistence write and at most one set-insertion happen per capture
/// cycle, even if the edge condition were reached again.
pub proof fn lemma_record_once(v: SceneView, n: nat)
    requires
        spec_records_edge(v),
    ensures
        forall|k: nat|
            1 <= k <= n ==> !spec_records_edge(#[trigger] spec_advance_n(v, k)),
    decreases n,
{
    if n >= 1 {
        lemma_record_once(v, (n - 1) as nat);
        lemma_recorded_or_idle_holds(v, n);
    }
}

/// Helper: after the recording tick, every later state either still carries
/// the recorded flag or has come to rest in Idle; either way the edge
/// cannot fire.
proof fn lemma_recorded_or_idle_holds(v: SceneView, n: nat)
    requires
        spec_records_edge(v),
        n >= 1,
    ensures
        spec_advance_n(v, n).recorded || spec_advance_n(v, n).phase is Idle,
        !spec_records_edge(spec_advance_n(v, n)),
    decreases n,
{
    if n == 1 {
        assert(spec_advance_n(v, 1) == spec_advance(spec_advance_n(v, 0)));
        assert(spec_advance(v).recorded);
    } else {
        lemma_recorded_or_idle_holds(v, (n - 1) as nat);
        let u = spec_advance_n(v, (n - 1) as nat);
        assert(spec_advance_n(v, n) == spec_advance(u));
    }
}

/// A thrown ball starting at the left edge travels for exactly 39 ticks:
/// each tick adds the throw step, the phase stays Throwing while the ball
/// has not passed the hit column, and the 39th tick crosses it and opens
/// the ball at the caught column.
pub proof fn lemma_throw_reaches_opening(v: SceneView)
    requires
        v.phase is Throwing,
        v.ball_x == BALL_START_X as int,
    ensures
        forall|n: nat| n < 39 ==> (#[trigger] spec_advance_n(v, n)).phase is Throwing,
        spec_advance_n(v, 39).phase is Opening,
        spec_advance_n(v, 39).ball_x == BALL_CAUGHT_X as int,
{
    assert forall|n: nat| n < 39 implies (#[trigger] spec_advance_n(v, n)).phase
        is Throwing by {
        lemma_throw_progress(v, n);
    }
    lemma_throw_progress(v, 38);
    let u = spec_advance_n(v, 38);
    assert(u.ball_x == -450 + 15 * 38);
    assert(spec_advance_n(v, 39) == spec_advance(u));
}

/// Helper: after `n <= 38` Throwing ticks the ball sits at its start plus
/// `n` throw steps and is still Throwing.
proof fn lemma_throw_progress(v: SceneView, n: nat)
    requires
        v.phase is Throwing,
        v.ball_x == BALL_START_X as int,
        n <= 38,
    ensures
        spec_advance_n(v, n).phase is Throwing,
        spec_advance_n(v, n).ball_x == BALL_START_X + THROW_STEP * n,
    decreases n,
{
    if n > 0 {
        lemma_throw_progress(v, (n - 1) as nat);
        let u = spec_advance_n(v, (n - 1) as nat);
        assert(spec_advance_n(v, n) == spec_advance(u));
        assert(u.ball_x + THROW_STEP == BALL_START_X + THROW_STEP * n) by (nonlinear_arith)
            requires
                u.ball_x == BALL_START_X + THROW_STEP * (n - 1),
        ;
        assert(BALL_START_X + THROW_STEP * n <= BALL_HIT_X) by (nonlinear_arith)
            requires
                n <= 38,
        ;
    }
}

/// The Shaking phase takes exactly SHAKE_COUNT * SHAKE_FRAMES ticks: each
/// tick advances the shake counter by one, and the tick that completes the
/// last wobble cycle moves the scene to StarHold.
pub proof fn lemma_shaking_duration(v: SceneView)
    requires
        v.phase is Shaking,
        v.frame == 0,
    ensures
        forall|n: nat| n < 60 ==> (#[trigger] spec_advance_n(v, n)).phase is Shaking,
        spec_advance_n(v, 60).phase is StarHold,
{
    assert forall|n: nat| n < 60 implies (#[trigger] spec_advance_n(v, n)).phase
        is Shaking by {
        lemma_shaking_progress(v, n);
    }
    lemma_shaking_progress(v, 59);
    let u = spec_advance_n(v, 59);
    assert(spec_advance_n(v, 60) == spec_advance(u));
}

/// Helper: after `n <= 59` Shaking ticks the shake counter reads `n`.
proof fn lemma_shaking_progress(v: SceneView, n: nat)
    requires
        v.phase is Shaking,
        v.frame == 0,
        n <= 59,
    ensures
        spec_advance_n(v, n).phase is Shaking,
        spec_advance_n(v, n).frame == n,
    decreases n,
{
    if n > 0 {
        lemma_shaking_progress(v, (n - 1) as nat);
        let u = spec_advance_n(v, (n - 1) as nat);
        assert(spec_advance_n(v, n) == spec_advance(u));
    }
}

} // verus!
