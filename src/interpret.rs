//! The per-enemy interpreter: one frame of a program at a time.

use vstd::prelude::*;

use crate::direction::{object_displacement, Direction};
use crate::op::{decode_spec, DecodeError, Op};

verus! {

broadcast use crate::direction::group_direction;

/// What the interpreter asks of the game that hosts it. The four queries
/// are read once at the start of each frame that runs instructions.
pub trait Game {
    fn is_second_round(&self) -> bool;

    /// The stage number, `1..=16`.
    fn stage(&self) -> u8;

    fn hero_x(&self) -> u8;

    fn hero_y(&self) -> u8;

    fn rand(&mut self) -> u8;

    fn try_shoot_aim(&mut self, x: u8, y: u8, speed_mask: u8, force_homing: bool);

    fn restore_music(&mut self);

    fn play_sound(&mut self, sound: u8);
}

/// Why a frame could not be run to its end.
#[derive(Clone, Copy, Debug, PartialEq, Eq, Structural)]
pub enum InterpretError {
    /// The instruction at `addr` could not be decoded.
    Decode { addr: usize, source: DecodeError },
    /// The program counter `addr` lies past the end of the program.
    EndOfProgram { addr: usize },
    /// The frame ran `FRAME_OP_LIMIT` steps without ending.
    FrameLimit,
}

pub type InterpretResult<T> = Result<T, InterpretError>;

/// The most steps (instructions fetched or homing moves) that one frame may take.
pub const FRAME_OP_LIMIT: u32 = 0x100000;

/// An enemy's position off the bottom of the screen at and past this line.
pub const CLIP_Y_MIN: u8 = 239;

/// Everything needed to start an enemy.
#[derive(Debug)]
pub struct InterpreterInit {
    pub program: Vec<u8>,
    pub pc: usize,
    pub boss: bool,
    pub difficulty: u8,
    /// At a low rank the enemy does not shoot at the hero.
    pub shot_with_rank: bool,
    /// A higher rank makes aimed shots faster.
    pub accel_shot_with_rank: bool,
    /// At the top rank in the second round aimed shots home in.
    pub homing_shot_with_rank: bool,
    /// A higher rank lets the enemy act again after it moves.
    pub extra_act_with_rank: bool,
    /// A higher rank makes the enemy move faster.
    pub accel_with_rank: bool,
    pub rank: u8,
    pub x: u8,
    pub y: u8,
}

#[derive(Clone, Copy, Debug, Eq, Hash, PartialEq, Structural)]
pub enum EnemyState {
    Alive,
    Dying,
    Leaving,
}

/// One enemy running its program.
#[derive(Debug)]
pub struct Interpreter {
    program: Vec<u8>,
    pc: usize,
    boss: bool,
    difficulty: u8,
    shot_with_rank: bool,
    accel_shot_with_rank: bool,
    homing_shot_with_rank: bool,
    extra_act_with_rank: bool,
    accel_with_rank: bool,
    rank: u8,
    state: EnemyState,
    x: u8,
    y: u8,
    inv_x: bool,
    inv_y: bool,
    health: u8,
    sprite_idx: u8,
    part: u8,
    sleep_timer: u8,
    homing_timer: u8,
    loop_start_addr: usize,
    loop_counter: u8,
    jump_on_damage: u8,
}

/// The abstract state of an [`Interpreter`].
pub struct EnemyModel {
    pub program: Seq<u8>,
    pub pc: usize,
    pub boss: bool,
    pub difficulty: u8,
    pub shot_with_rank: bool,
    pub accel_shot_with_rank: bool,
    pub homing_shot_with_rank: bool,
    pub extra_act_with_rank: bool,
    pub accel_with_rank: bool,
    pub rank: u8,
    pub state: EnemyState,
    pub x: u8,
    pub y: u8,
    pub inv_x: bool,
    pub inv_y: bool,
    pub health: u8,
    pub sprite_idx: u8,
    pub part: u8,
    pub sleep_timer: u8,
    pub homing_timer: u8,
    pub loop_start_addr: usize,
    pub loop_counter: u8,
    pub jump_on_damage: u8,
}

/// What the host reports during one frame.
#[derive(Clone, Copy, Debug, PartialEq, Eq, Structural)]
pub struct HostView {
    pub second_round: bool,
    pub stage: u8,
    pub hero_x: u8,
    pub hero_y: u8,
}

/// The per-frame flags of the inner loop.
#[derive(Clone, Copy, Debug, PartialEq, Eq, Structural)]
pub struct Frame {
    /// A homing move may still be made this frame.
    pub do_try_homing: bool,
    /// The enemy may still act again after a move this frame.
    pub do_try_extra_act: bool,
}

/// A request to the host that one step makes.
#[derive(Clone, Copy, Debug, PartialEq, Eq, Structural)]
pub enum Effect {
    Nothing,
    ShootAim { x: u8, y: u8, speed_mask: u8, force_homing: bool },
    RestoreMusic,
    PlaySound(u8),
}

/// The result of one step of a frame.
#[derive(Clone, Copy, Debug, PartialEq, Eq, Structural)]
pub struct Tick {
    /// The frame is over.
    pub end: bool,
    pub effect: Effect,
}

/// Where a frame stands after some steps.
pub enum FrameRun {
    Running(EnemyModel, Frame),
    Ended(EnemyModel),
    /// The frame failed in the given state, which the failing step left as it was.
    Failed(InterpretError, EnemyModel),
}

/// `v + d` on the 8-bit screen, wrapping around.
pub open spec fn wrap_add(v: u8, d: int) -> u8 {
    ((v + d) % 256) as u8
}

/// The host's rank condition for a one-level speed-up.
pub open spec fn cond_accel1_spec(e: EnemyModel, h: HostView) -> bool {
    e.accel_with_rank && h.stage >= e.difficulty && 4 <= e.rank <= 6
}

/// The host's rank condition for a two-level speed-up.
pub open spec fn cond_accel2_spec(e: EnemyModel, h: HostView) -> bool {
    e.accel_with_rank && h.stage >= e.difficulty && e.rank == 7
}

/// The direction a `move d` actually takes: slow directions speed up with rank.
pub open spec fn effective_dir(e: EnemyModel, h: HostView, d: u8) -> u8 {
    if d <= 0x1F {
        if cond_accel1_spec(e, h) {
            (d + 0x10) as u8
        } else if cond_accel2_spec(e, h) {
            (d + 0x20) as u8
        } else {
            d
        }
    } else {
        d
    }
}

/// The bounds check after a position change: leaves the screen at the bottom,
/// or grants one extra action. Returns the new state, flags and whether to act again.
pub open spec fn clip_spec(e: EnemyModel, f: Frame, h: HostView) -> (EnemyModel, Frame, bool) {
    if e.y >= CLIP_Y_MIN {
        (EnemyModel { state: EnemyState::Leaving, ..e }, f, false)
    } else if f.do_try_extra_act && h.stage >= e.difficulty && e.rank >= 4 {
        (e, Frame { do_try_extra_act: false, ..f }, true)
    } else {
        (e, f, false)
    }
}

/// Moves by a displacement, then clips.
pub open spec fn move_by(e: EnemyModel, f: Frame, h: HostView, dx: int, dy: int) -> (
    EnemyModel,
    Frame,
    Tick,
) {
    let m = EnemyModel { x: wrap_add(e.x, dx), y: wrap_add(e.y, dy), ..e };
    let (m2, f2, again) = clip_spec(m, f, h);
    (m2, f2, Tick { end: !again, effect: Effect::Nothing })
}

/// The aimed-shot parameters `(speed_mask, force_homing)`.
pub open spec fn shoot_aim_param_spec(e: EnemyModel, h: HostView) -> (u8, bool) {
    if e.homing_shot_with_rank && h.second_round && e.rank == 7 {
        (0, true)
    } else if e.accel_shot_with_rank {
        ((e.rank << 3) & 0x30, false)
    } else {
        (0, false)
    }
}

/// A step after which the frame goes on.
pub open spec fn go_on() -> Tick {
    Tick { end: false, effect: Effect::Nothing }
}

/// A step that ends the frame.
pub open spec fn stop() -> Tick {
    Tick { end: true, effect: Effect::Nothing }
}

/// Runs one fetched instruction (`e.pc` already past it). `rnd` is the host's
/// random byte, read only by `randomize_x` and `randomize_y`.
pub open spec fn exec_spec(e: EnemyModel, op: Op, f: Frame, h: HostView, rnd: u8) -> (
    EnemyModel,
    Frame,
    Tick,
) {
    match op {
        Op::Move(d) => {
            let od = object_displacement(effective_dir(e, h, d.idx()) as int);
            let dx = if e.inv_x { -od.0 } else { od.0 };
            let dy = if e.inv_y { -od.1 } else { od.1 };
            move_by(e, f, h, dx, dy)
        },
        Op::Jump(a) => (EnemyModel { pc: a as usize, ..e }, f, go_on()),
        Op::SetSleepTimer(n) => (EnemyModel { sleep_timer: (4 * n) as u8, ..e }, f, stop()),
        Op::LoopBegin(n) => (
            EnemyModel { loop_start_addr: e.pc, loop_counter: n, ..e },
            f,
            go_on(),
        ),
        Op::LoopEnd => (loop_end_spec(e), f, go_on()),
        Op::ShootDirection(_) => (e, f, go_on()),
        Op::SetSprite(n) => (EnemyModel { sprite_idx: n, ..e }, f, go_on()),
        Op::SetHomingTimer(n) => (
            EnemyModel { homing_timer: if n == 0 { 252 } else { (4 * n) as u8 }, ..e },
            Frame { do_try_homing: true, ..f },
            go_on(),
        ),
        Op::SetInversion(ix, iy) => (EnemyModel { inv_x: ix, inv_y: iy, ..e }, f, go_on()),
        Op::SetPosition(x, y) => (EnemyModel { x, y, ..e }, f, go_on()),
        Op::SetJumpOnDamage(a) => if e.boss {
            (EnemyModel { health: a, ..e }, f, stop())
        } else {
            (EnemyModel { jump_on_damage: a, ..e }, f, stop())
        },
        Op::IncrementSprite => (
            EnemyModel { sprite_idx: wrap_add(e.sprite_idx, 1), ..e },
            f,
            go_on(),
        ),
        Op::DecrementSprite => (
            EnemyModel { sprite_idx: wrap_add(e.sprite_idx, -1), ..e },
            f,
            go_on(),
        ),
        Op::SetPart(p) => (EnemyModel { part: p, ..e }, f, go_on()),
        Op::RandomizeX(m) => (EnemyModel { x: (e.x & !m) | (rnd & m), ..e }, f, go_on()),
        Op::RandomizeY(m) => (EnemyModel { y: (e.y & !m) | (rnd & m), ..e }, f, go_on()),
        Op::BccX(a) => (if e.x < h.hero_x { EnemyModel { pc: a as usize, ..e } } else { e }, f, go_on()),
        Op::BcsX(a) => (if e.x >= h.hero_x { EnemyModel { pc: a as usize, ..e } } else { e }, f, go_on()),
        Op::BccY(a) => (if e.y < h.hero_y { EnemyModel { pc: a as usize, ..e } } else { e }, f, go_on()),
        Op::BcsY(a) => (if e.y >= h.hero_y { EnemyModel { pc: a as usize, ..e } } else { e }, f, go_on()),
        Op::ShootAim(_) => if e.shot_with_rank && e.rank < 4 {
            (e, f, go_on())
        } else {
            let (mask, homing) = shoot_aim_param_spec(e, h);
            (
                e,
                f,
                Tick {
                    end: false,
                    effect: Effect::ShootAim { x: e.x, y: e.y, speed_mask: mask, force_homing: homing },
                },
            )
        },
        Op::ChangeMusic(m) => (
            e,
            f,
            Tick {
                end: false,
                effect: if m == 0 { Effect::RestoreMusic } else { Effect::PlaySound(m) },
            },
        ),
    }
}

/// `loop_end`: counts down, and goes back to the start of the body while
/// the count is not used up.
pub open spec fn loop_end_spec(e: EnemyModel) -> EnemyModel {
    let c = wrap_add(e.loop_counter, -1);
    EnemyModel { loop_counter: c, pc: if c > 0 { e.loop_start_addr } else { e.pc }, ..e }
}

/// The instruction at the program counter.
pub open spec fn fetch_spec(e: EnemyModel) -> Result<Op, InterpretError> {
    if e.pc >= e.program.len() {
        Err(InterpretError::EndOfProgram { addr: e.pc })
    } else {
        match decode_spec(e.program.skip(e.pc as int)) {
            Ok(op) => Ok(op),
            Err(err) => Err(InterpretError::Decode { addr: e.pc, source: err }),
        }
    }
}

/// The homing move: one step toward the hero, then the bounds check.
pub open spec fn homing_spec(e: EnemyModel, f: Frame, h: HostView, dir: u8) -> (
    EnemyModel,
    Frame,
    Tick,
) {
    let od = object_displacement(dir as int);
    let e1 = EnemyModel { homing_timer: (e.homing_timer - 1) as u8, ..e };
    move_by(e1, Frame { do_try_homing: false, ..f }, h, od.0, od.1)
}

/// The direction of a homing move from the enemy toward the hero.
pub open spec fn is_homing_dir(e: EnemyModel, h: HostView, dir: u8) -> bool {
    exists|d: Direction|
        #![trigger d.idx()]
        d.idx() == dir && aim_ensures((e.x, e.y), (h.hero_x, h.hero_y), d)
}

/// What [`Direction::aim`] promises of its result.
pub open spec fn aim_ensures(src: (u8, u8), dst: (u8, u8), r: Direction) -> bool {
    &&& r.idx() < 16
    &&& forall|k: int|
        0 <= k < 16 ==> #[trigger] crate::direction::aim_score(dst.0 - src.0, dst.1 - src.1, k)
            <= crate::direction::aim_score(dst.0 - src.0, dst.1 - src.1, r.idx() as int)
    &&& forall|k: int|
        0 <= k < r.idx() ==> #[trigger] crate::direction::aim_score(
            dst.0 - src.0,
            dst.1 - src.1,
            k,
        ) < crate::direction::aim_score(dst.0 - src.0, dst.1 - src.1, r.idx() as int)
}

/// The aimed direction; [`Direction::aim`] picks it uniquely.
pub open spec fn homing_dir(e: EnemyModel, h: HostView) -> u8 {
    choose|dir: u8| is_homing_dir(e, h, dir)
}

/// One step of a frame's inner loop: a homing move when one is due, else one instruction.
pub open spec fn tick_spec(e: EnemyModel, f: Frame, h: HostView, rnd: u8) -> Result<
    (EnemyModel, Frame, Tick),
    InterpretError,
> {
    if f.do_try_homing && e.homing_timer > 0 {
        Ok(homing_spec(e, f, h, homing_dir(e, h)))
    } else {
        match fetch_spec(e) {
            Err(err) => Err(err),
            Ok(op) => Ok(
                exec_spec(
                    EnemyModel { pc: (e.pc + op.spec_len()) as usize, ..e },
                    op,
                    Frame { do_try_homing: false, ..f },
                    h,
                    rnd,
                ),
            ),
        }
    }
}

/// The next step of the frame runs `randomize_x` or `randomize_y`, and so
/// needs a random byte from the host.
pub open spec fn wants_rand_spec(e: EnemyModel, f: Frame) -> bool {
    &&& !(f.do_try_homing && e.homing_timer > 0)
    &&& fetch_spec(e) matches Ok(op)
    &&& (op is RandomizeX || op is RandomizeY)
}

/// Runs steps of a frame, one per entry of `rands` (the random byte the host
/// gave at that step, where one was asked for), until the frame ends or fails.
pub open spec fn frame_run(e: EnemyModel, f: Frame, h: HostView, rands: Seq<u8>) -> FrameRun
    decreases rands.len(),
{
    if rands.len() == 0 {
        FrameRun::Running(e, f)
    } else {
        match frame_run(e, f, h, rands.drop_last()) {
            FrameRun::Running(e1, f1) => match tick_spec(e1, f1, h, rands.last()) {
                Err(err) => FrameRun::Failed(err, e1),
                Ok((e2, f2, t)) => if t.end {
                    FrameRun::Ended(e2)
                } else {
                    FrameRun::Running(e2, f2)
                },
            },
            other => other,
        }
    }
}

/// The flags a frame starts with.
pub open spec fn frame_start(e: EnemyModel) -> Frame {
    Frame { do_try_homing: true, do_try_extra_act: e.extra_act_with_rank }
}

/// One frame: a sleeping enemy only counts down; otherwise the inner loop runs.
pub open spec fn step_spec(e: EnemyModel, h: HostView, rands: Seq<u8>) -> FrameRun {
    if e.sleep_timer > 0 {
        FrameRun::Ended(EnemyModel { sleep_timer: (e.sleep_timer - 1) as u8, ..e })
    } else {
        frame_run(e, frame_start(e), h, rands)
    }
}

/// The configuration that stays fixed for an enemy's life.
pub open spec fn same_config(a: EnemyModel, b: EnemyModel) -> bool {
    &&& a.program == b.program
    &&& a.boss == b.boss
    &&& a.difficulty == b.difficulty
    &&& a.shot_with_rank == b.shot_with_rank
    &&& a.accel_shot_with_rank == b.accel_shot_with_rank
    &&& a.homing_shot_with_rank == b.homing_shot_with_rank
    &&& a.extra_act_with_rank == b.extra_act_with_rank
    &&& a.accel_with_rank == b.accel_with_rank
    &&& a.rank == b.rank
}

/// What a hit does.
pub open spec fn damage_spec(e: EnemyModel) -> EnemyModel {
    if e.boss {
        if e.health == 0 {
            EnemyModel { state: EnemyState::Dying, ..e }
        } else {
            EnemyModel { health: (e.health - 1) as u8, ..e }
        }
    } else {
        if e.jump_on_damage == 0 {
            EnemyModel { state: EnemyState::Dying, ..e }
        } else {
            EnemyModel { pc: e.jump_on_damage as usize, ..e }
        }
    }
}

impl View for Interpreter {
    type V = EnemyModel;

    closed spec fn view(&self) -> EnemyModel {
        EnemyModel {
            program: self.program@,
            pc: self.pc,
            boss: self.boss,
            difficulty: self.difficulty,
            shot_with_rank: self.shot_with_rank,
            accel_shot_with_rank: self.accel_shot_with_rank,
            homing_shot_with_rank: self.homing_shot_with_rank,
            extra_act_with_rank: self.extra_act_with_rank,
            accel_with_rank: self.accel_with_rank,
            rank: self.rank,
            state: self.state,
            x: self.x,
            y: self.y,
            inv_x: self.inv_x,
            inv_y: self.inv_y,
            health: self.health,
            sprite_idx: self.sprite_idx,
            part: self.part,
            sleep_timer: self.sleep_timer,
            homing_timer: self.homing_timer,
            loop_start_addr: self.loop_start_addr,
            loop_counter: self.loop_counter,
            jump_on_damage: self.jump_on_damage,
        }
    }
}

impl InterpreterInit {
    /// The model of the enemy that `init` starts.
    pub open spec fn start(&self) -> EnemyModel {
        EnemyModel {
            program: self.program@,
            pc: self.pc,
            boss: self.boss,
            difficulty: self.difficulty,
            shot_with_rank: self.shot_with_rank,
            accel_shot_with_rank: self.accel_shot_with_rank,
            homing_shot_with_rank: self.homing_shot_with_rank,
            extra_act_with_rank: self.extra_act_with_rank,
            accel_with_rank: self.accel_with_rank,
            rank: self.rank,
            state: EnemyState::Alive,
            x: self.x,
            y: self.y,
            inv_x: false,
            inv_y: false,
            health: 0,
            sprite_idx: 0,
            part: 0,
            sleep_timer: 0,
            homing_timer: 0,
            loop_start_addr: self.pc,
            loop_counter: 0,
            jump_on_damage: 0,
        }
    }

    pub fn init(self) -> (r: Interpreter)
        requires
            self.rank <= 7,
        ensures
            r@ == self.start(),
    {
        Interpreter {
            program: self.program,
            pc: self.pc,
            boss: self.boss,
            difficulty: self.difficulty,
            shot_with_rank: self.shot_with_rank,
            accel_shot_with_rank: self.accel_shot_with_rank,
            homing_shot_with_rank: self.homing_shot_with_rank,
            extra_act_with_rank: self.extra_act_with_rank,
            accel_with_rank: self.accel_with_rank,
            rank: self.rank,
            state: EnemyState::Alive,
            x: self.x,
            y: self.y,
            inv_x: false,
            inv_y: false,
            health: 0,
            sprite_idx: 0,
            part: 0,
            sleep_timer: 0,
            homing_timer: 0,
            loop_start_addr: self.pc,
            loop_counter: 0,
            jump_on_damage: 0,
        }
    }
}

impl HostView {
    /// Reads what the host reports for this frame.
    fn observe<G: Game>(game: &G) -> (r: HostView) {
        HostView {
            second_round: game.is_second_round(),
            stage: game.stage(),
            hero_x: game.hero_x(),
            hero_y: game.hero_y(),
        }
    }
}


/// `v + d`, wrapping around.
fn wrapping_add_i8(v: u8, d: i8) -> (r: u8)
    ensures
        r == wrap_add(v, d as int),
{
    ((v as i16 + d as i16 + 256) % 256) as u8
}

/// Two directions that both meet [`aim_ensures`] for the same points are the same angle.
proof fn lemma_aim_unique(src: (u8, u8), dst: (u8, u8), a: Direction, b: Direction)
    requires
        aim_ensures(src, dst, a),
        aim_ensures(src, dst, b),
    ensures
        a.idx() == b.idx(),
{
    let dx = dst.0 - src.0;
    let dy = dst.1 - src.1;
    if a.idx() < b.idx() {
        assert(crate::direction::aim_score(dx, dy, a.idx() as int) < crate::direction::aim_score(
            dx,
            dy,
            b.idx() as int,
        ));
    } else if b.idx() < a.idx() {
        assert(crate::direction::aim_score(dx, dy, b.idx() as int) < crate::direction::aim_score(
            dx,
            dy,
            a.idx() as int,
        ));
    }
}

impl Interpreter {
    pub fn x(&self) -> (r: u8)
        ensures
            r == self@.x,
    {
        self.x
    }

    pub fn y(&self) -> (r: u8)
        ensures
            r == self@.y,
    {
        self.y
    }

    pub fn state(&self) -> (r: EnemyState)
        ensures
            r == self@.state,
    {
        self.state
    }

    /// Signals a hit. A boss loses one point of health, or dies at zero; a
    /// minion jumps to its damage handler, or dies when it has none.
    pub fn damage<G: Game>(&mut self, _game: &mut G)
        requires
            old(self)@.state == EnemyState::Alive,
        ensures
            final(self)@ == damage_spec(old(self)@),
            final(self)@.state == EnemyState::Alive || final(self)@.state == EnemyState::Dying,
    {
        if self.boss {
            if self.health == 0 {
                self.state = EnemyState::Dying;
            } else {
                self.health = self.health - 1;
            }
        } else {
            if self.jump_on_damage == 0 {
                self.state = EnemyState::Dying;
            } else {
                self.pc = self.jump_on_damage as usize;
            }
        }
    }

    /// Decodes the instruction at the program counter and moves past it.
    fn fetch(&mut self) -> (r: InterpretResult<Op>)
        ensures
            r == fetch_spec(old(self)@),
            r is Ok ==> r->Ok_0.wf() && final(self)@ == (EnemyModel {
                pc: (old(self)@.pc + r->Ok_0.spec_len()) as usize,
                ..old(self)@
            }),
            r is Err ==> final(self)@ == old(self)@,
    {
        if self.pc >= self.program.len() {
            return Err(InterpretError::EndOfProgram { addr: self.pc });
        }
        let slice = self.program.as_slice();
        let rest = slice_from(slice, self.pc);
        match Op::decode(rest) {
            Ok(op) => {
                proof {
                    crate::op::lemma_decoded_prefix(rest@);
                }
                self.pc = self.pc + op.len();
                Ok(op)
            },
            Err(e) => Err(InterpretError::Decode { addr: self.pc, source: e }),
        }
    }

    /// Leaves the screen at the bottom, or grants one extra action; returns
    /// whether to act again.
    fn clip(&mut self, frame: &mut Frame, h: &HostView) -> (r: bool)
        ensures
            (final(self)@, *final(frame), r) == clip_spec(old(self)@, *old(frame), *h),
    {
        if self.y >= CLIP_Y_MIN {
            self.state = EnemyState::Leaving;
            return false;
        }
        if frame.do_try_extra_act && h.stage >= self.difficulty && self.rank >= 4 {
            frame.do_try_extra_act = false;
            return true;
        }
        false
    }

    fn move_by(&mut self, frame: &mut Frame, h: &HostView, dx: i8, dy: i8) -> (t: Tick)
        ensures
            (final(self)@, *final(frame), t) == move_by(
                old(self)@,
                *old(frame),
                *h,
                dx as int,
                dy as int,
            ),
    {
        self.x = wrapping_add_i8(self.x, dx);
        self.y = wrapping_add_i8(self.y, dy);
        let again = self.clip(frame, h);
        Tick { end: !again, effect: Effect::Nothing }
    }

    /// Whether an aimed shot is allowed at this rank.
    fn cond_shoot_aim(&self) -> (r: bool)
        ensures
            r == !(self@.shot_with_rank && self@.rank < 4),
    {
        !(self.shot_with_rank && self.rank < 4)
    }

    /// The aimed-shot parameters `(speed_mask, force_homing)`.
    fn shoot_aim_param(&self, h: &HostView) -> (r: (u8, bool))
        ensures
            r == shoot_aim_param_spec(self@, *h),
    {
        if self.homing_shot_with_rank && h.second_round && self.rank == 7 {
            (0, true)
        } else if self.accel_shot_with_rank {
            ((self.rank << 3) & 0x30, false)
        } else {
            (0, false)
        }
    }

    fn cond_accel1(&self, h: &HostView) -> (r: bool)
        ensures
            r == cond_accel1_spec(self@, *h),
    {
        self.accel_with_rank && h.stage >= self.difficulty && 4 <= self.rank && self.rank <= 6
    }

    fn cond_accel2(&self, h: &HostView) -> (r: bool)
        ensures
            r == cond_accel2_spec(self@, *h),
    {
        self.accel_with_rank && h.stage >= self.difficulty && self.rank == 7
    }

    /// `move d`, sped up by rank, mirrored by the inversion flags.
    fn exec_move(&mut self, dir: Direction, frame: &mut Frame, h: &HostView) -> (t: Tick)
        ensures
            (final(self)@, *final(frame), t) == exec_spec(
                old(self)@,
                Op::Move(dir),
                *old(frame),
                *h,
                0,
            ),
    {
            let i = dir.index();
            let d = if i <= 0x1F {
                if self.cond_accel1(h) {
                    Direction::new(i + 0x10)
                } else if self.cond_accel2(h) {
                    Direction::new(i + 0x20)
                } else {
                    dir
                }
            } else {
                dir
            };
            let (dx, dy) = d.displacement_object();
            let dx = if self.inv_x { -dx } else { dx };
            let dy = if self.inv_y { -dy } else { dy };
            self.move_by(frame, h, dx, dy)
    }

    /// Runs an instruction that moves, branches or ends the frame.
    fn exec_control(&mut self, op: Op, frame: &mut Frame, h: &HostView, rnd: u8) -> (t: Tick)
        requires
            op.wf(),
            is_control(op),
        ensures
            (final(self)@, *final(frame), t) == exec_spec(old(self)@, op, *old(frame), *h, rnd),
    {
        match op {
            Op::Move(dir) => self.exec_move(dir, frame, h),
            Op::Jump(addr) => {
                self.pc = addr as usize;
                Tick { end: false, effect: Effect::Nothing }
            },
            Op::SetSleepTimer(idx) => {
                self.sleep_timer = 4 * idx;
                Tick { end: true, effect: Effect::Nothing }
            },
            Op::LoopBegin(idx) => {
                self.loop_start_addr = self.pc;
                self.loop_counter = idx;
                Tick { end: false, effect: Effect::Nothing }
            },
            Op::LoopEnd => {
                self.loop_counter = self.loop_counter.wrapping_sub(1);
                if self.loop_counter > 0 {
                    self.pc = self.loop_start_addr;
                }
                Tick { end: false, effect: Effect::Nothing }
            },
            Op::SetJumpOnDamage(addr) => {
                // A boss reads the operand as its health.
                if self.boss {
                    self.health = addr;
                } else {
                    self.jump_on_damage = addr;
                }
                Tick { end: true, effect: Effect::Nothing }
            },
            Op::BccX(addr) => {
                if self.x < h.hero_x {
                    self.pc = addr as usize;
                }
                Tick { end: false, effect: Effect::Nothing }
            },
            Op::BcsX(addr) => {
                if self.x >= h.hero_x {
                    self.pc = addr as usize;
                }
                Tick { end: false, effect: Effect::Nothing }
            },
            Op::BccY(addr) => {
                if self.y < h.hero_y {
                    self.pc = addr as usize;
                }
                Tick { end: false, effect: Effect::Nothing }
            },
            Op::BcsY(addr) => {
                if self.y >= h.hero_y {
                    self.pc = addr as usize;
                }
                Tick { end: false, effect: Effect::Nothing }
            },
            // Excluded by the precondition.
            _ => Tick { end: false, effect: Effect::Nothing },
        }
    }

    /// Runs an instruction that changes the enemy's look or asks the host for something.
    fn exec_other(&mut self, op: Op, frame: &mut Frame, h: &HostView, rnd: u8) -> (t: Tick)
        requires
            op.wf(),
            !is_control(op),
        ensures
            (final(self)@, *final(frame), t) == exec_spec(old(self)@, op, *old(frame), *h, rnd),
    {
        match op {
            // The host has no hook for shots in a fixed direction: nothing happens.
            Op::ShootDirection(_) => Tick { end: false, effect: Effect::Nothing },
            Op::SetSprite(idx) => {
                self.sprite_idx = idx;
                Tick { end: false, effect: Effect::Nothing }
            },
            Op::SetHomingTimer(idx) => {
                self.homing_timer = if idx == 0 { 252 } else { 4 * idx };
                frame.do_try_homing = true;
                Tick { end: false, effect: Effect::Nothing }
            },
            Op::SetInversion(inv_x, inv_y) => {
                self.inv_x = inv_x;
                self.inv_y = inv_y;
                Tick { end: false, effect: Effect::Nothing }
            },
            Op::SetPosition(x, y) => {
                self.x = x;
                self.y = y;
                Tick { end: false, effect: Effect::Nothing }
            },
            Op::IncrementSprite => {
                self.sprite_idx = self.sprite_idx.wrapping_add(1);
                Tick { end: false, effect: Effect::Nothing }
            },
            Op::DecrementSprite => {
                self.sprite_idx = self.sprite_idx.wrapping_sub(1);
                Tick { end: false, effect: Effect::Nothing }
            },
            Op::SetPart(part) => {
                self.part = part;
                Tick { end: false, effect: Effect::Nothing }
            },
            Op::RandomizeX(mask) => {
                self.x = (self.x & !mask) | (rnd & mask);
                Tick { end: false, effect: Effect::Nothing }
            },
            Op::RandomizeY(mask) => {
                self.y = (self.y & !mask) | (rnd & mask);
                Tick { end: false, effect: Effect::Nothing }
            },
            Op::ShootAim(_) => {
                if !self.cond_shoot_aim() {
                    return Tick { end: false, effect: Effect::Nothing };
                }
                let (speed_mask, force_homing) = self.shoot_aim_param(h);
                Tick {
                    end: false,
                    effect: Effect::ShootAim { x: self.x, y: self.y, speed_mask, force_homing },
                }
            },
            Op::ChangeMusic(music) => {
                // Music slot 0 brings the stage music back; the others play a sound.
                let effect = if music == 0 {
                    Effect::RestoreMusic
                } else {
                    Effect::PlaySound(music)
                };
                Tick { end: false, effect }
            },
            // Excluded by the precondition.
            _ => Tick { end: false, effect: Effect::Nothing },
        }
    }

    /// Runs one fetched instruction.
    fn exec(&mut self, op: Op, frame: &mut Frame, h: &HostView, rnd: u8) -> (t: Tick)
        requires
            op.wf(),
        ensures
            (final(self)@, *final(frame), t) == exec_spec(old(self)@, op, *old(frame), *h, rnd),
    {
        if is_control_exec(op) {
            self.exec_control(op, frame, h, rnd)
        } else {
            self.exec_other(op, frame, h, rnd)
        }
    }
}

/// Instructions that move, branch or end the frame.
pub open spec fn is_control(op: Op) -> bool {
    match op {
        Op::Move(_) | Op::Jump(_) | Op::SetSleepTimer(_) | Op::LoopBegin(_) | Op::LoopEnd
        | Op::SetJumpOnDamage(_) | Op::BccX(_) | Op::BcsX(_) | Op::BccY(_) | Op::BcsY(_) => true,
        _ => false,
    }
}

fn is_control_exec(op: Op) -> (r: bool)
    ensures
        r == is_control(op),
{
    match op {
        Op::Move(_) | Op::Jump(_) | Op::SetSleepTimer(_) | Op::LoopBegin(_) | Op::LoopEnd
        | Op::SetJumpOnDamage(_) | Op::BccX(_) | Op::BcsX(_) | Op::BccY(_) | Op::BcsY(_) => true,
        _ => false,
    }
}

impl Interpreter {
    /// The homing move toward the hero.
    fn home(&mut self, frame: &mut Frame, h: &HostView) -> (t: Tick)
        requires
            old(self)@.homing_timer > 0,
        ensures
            (final(self)@, *final(frame), t) == homing_spec(
                old(self)@,
                *old(frame),
                *h,
                homing_dir(old(self)@, *h),
            ),
    {
        let dir = Direction::aim((self.x, self.y), (h.hero_x, h.hero_y));
        proof {
            let e = self@;
            assert(aim_ensures((e.x, e.y), (h.hero_x, h.hero_y), dir));
            assert(is_homing_dir(e, *h, dir.idx()));
            let c = homing_dir(e, *h);
            assert(is_homing_dir(e, *h, c));
            let d2 = choose|d: Direction|
                #![trigger d.idx()]
                d.idx() == c && aim_ensures((e.x, e.y), (h.hero_x, h.hero_y), d);
            lemma_aim_unique((e.x, e.y), (h.hero_x, h.hero_y), dir, d2);
        }
        self.homing_timer = self.homing_timer - 1;
        frame.do_try_homing = false;
        let (dx, dy) = dir.displacement_object();
        self.move_by(frame, h, dx, dy)
    }

    /// Whether the next step of the frame needs a random byte from the host.
    pub fn wants_rand(&self, frame: &Frame) -> (r: bool)
        ensures
            r == wants_rand_spec(self@, *frame),
    {
        if frame.do_try_homing && self.homing_timer > 0 {
            return false;
        }
        if self.pc >= self.program.len() {
            return false;
        }
        let rest = slice_from(self.program.as_slice(), self.pc);
        match Op::decode(rest) {
            Ok(Op::RandomizeX(_)) | Ok(Op::RandomizeY(_)) => true,
            _ => false,
        }
    }

    /// One step of a frame's inner loop on given host values: a homing move
    /// when one is due, else one instruction. `rnd` is the host's random byte,
    /// read only by `randomize_x` and `randomize_y`. Returns whether the frame
    /// is over and the host call that the step asks for; a failing step
    /// changes nothing.
    pub fn tick(&mut self, frame: &mut Frame, h: &HostView, rnd: u8) -> (r: InterpretResult<Tick>)
        ensures
            match tick_spec(old(self)@, *old(frame), *h, rnd) {
                Err(err) => r == Err::<Tick, InterpretError>(err) && final(self)@ == old(self)@,
                Ok((e2, f2, t)) => r == Ok::<Tick, InterpretError>(t) && final(self)@ == e2
                    && *final(frame) == f2,
            },
    {
        if frame.do_try_homing && self.homing_timer > 0 {
            return Ok(self.home(frame, h));
        }
        frame.do_try_homing = false;
        let op = match self.fetch() {
            Ok(op) => op,
            Err(err) => return Err(err),
        };
        Ok(self.exec(op, frame, h, rnd))
    }

    /// Advances one frame.
    ///
    /// A sleeping enemy only counts its sleep down. Otherwise the host is read
    /// once for the frame, and the enemy runs instructions until one ends the
    /// frame, one [`Interpreter::tick`] at a time, making the host calls that
    /// each step asks for. The new state is the frame's outcome, [`step_spec`],
    /// for what the host reported and the random bytes it gave; a failing
    /// frame leaves the enemy alive, in the state where the failing step found it.
    pub fn step<G: Game>(&mut self, game: &mut G) -> (r: InterpretResult<()>)
        requires
            old(self)@.state == EnemyState::Alive,
        ensures
            same_config(old(self)@, final(self)@),
            r is Ok ==> exists|h: HostView, rands: Seq<u8>|
                #[trigger] step_spec(old(self)@, h, rands) == FrameRun::Ended(final(self)@),
            r is Ok ==> final(self)@.state == EnemyState::Alive || final(self)@.state
                == EnemyState::Leaving,
            r is Err ==> final(self)@.state == EnemyState::Alive,
            r == Err::<(), InterpretError>(InterpretError::FrameLimit) ==> exists|
                h: HostView,
                rands: Seq<u8>,
            |
                rands.len() == FRAME_OP_LIMIT && #[trigger] step_spec(old(self)@, h, rands) is Running,
            r is Err && r != Err::<(), InterpretError>(InterpretError::FrameLimit) ==> exists|
                h: HostView,
                rands: Seq<u8>,
            | #[trigger] step_spec(old(self)@, h, rands) == FrameRun::Failed(
                r->Err_0,
                final(self)@,
            ),
    {
        if self.sleep_timer > 0 {
            self.sleep_timer = self.sleep_timer - 1;
            proof {
                assert(step_spec(old(self)@, arbitrary(), Seq::empty()) == FrameRun::Ended(self@));
            }
            return Ok(());
        }
        let h = HostView::observe(game);
        let mut frame = Frame { do_try_homing: true, do_try_extra_act: self.extra_act_with_rank };
        let ghost e0 = self@;
        let ghost mut rands: Seq<u8> = Seq::empty();
        let mut n: u32 = 0;
        while n < FRAME_OP_LIMIT
            invariant
                n == rands.len(),
                n <= FRAME_OP_LIMIT,
                e0 == old(self)@,
                e0.sleep_timer == 0,
                same_config(e0, self@),
                self@.state == EnemyState::Alive,
                frame_run(e0, frame_start(e0), h, rands) == FrameRun::Running(self@, frame),
            decreases FRAME_OP_LIMIT - n,
        {
            let ghost before = self@;
            let ghost fbefore = frame;
            let rnd: u8 = if self.wants_rand(&frame) {
                game.rand()
            } else {
                0
            };
            let res = self.tick(&mut frame, &h, rnd);
            let ghost next = rands.push(rnd);
            proof {
                assert(next.drop_last() =~= rands);
                lemma_tick_keeps(before, fbefore, h, rnd);
            }
            match res {
                Err(err) => {
                    proof {
                        assert(step_spec(e0, h, next) == FrameRun::Failed(err, self@));
                    }
                    return Err(err);
                },
                Ok(t) => {
                    match t.effect {
                        Effect::Nothing => {},
                        Effect::ShootAim { x, y, speed_mask, force_homing } => {
                            game.try_shoot_aim(x, y, speed_mask, force_homing);
                        },
                        Effect::RestoreMusic => game.restore_music(),
                        Effect::PlaySound(sound) => game.play_sound(sound),
                    }
                    if t.end {
                        proof {
                            assert(step_spec(e0, h, next) == FrameRun::Ended(self@));
                        }
                        return Ok(());
                    }
                },
            }
            proof {
                rands = next;
            }
            n = n + 1;
        }
        proof {
            assert(step_spec(e0, h, rands) is Running);
        }
        Err(InterpretError::FrameLimit)
    }
}

/// A step keeps the enemy's configuration, and leaves it alive unless it ends
/// the frame by leaving the screen.
proof fn lemma_tick_keeps(e: EnemyModel, f: Frame, h: HostView, rnd: u8)
    requires
        e.state == EnemyState::Alive,
    ensures
        tick_spec(e, f, h, rnd) matches Ok((e2, f2, t)) ==> same_config(e, e2) && (e2.state
            == EnemyState::Alive || (e2.state == EnemyState::Leaving && t.end)),
{
}

/// The part of a byte slice from `start` on.
fn slice_from(s: &[u8], start: usize) -> (r: &[u8])
    requires
        start <= s@.len(),
    ensures
        r@ == s@.skip(start as int),
{
    let r = &s[start..s.len()];
    proof {
        assert(r@ =~= s@.skip(start as int));
    }
    r
}

/// How many times the body of `loop_begin n` runs: `n`, and 256 for `n == 0`.
pub open spec fn loop_trips(n: u8) -> nat {
    if n == 0 {
        256
    } else {
        n as nat
    }
}

/// `k` runs of `loop_end`, where the loop body in between leaves the loop frame alone.
pub open spec fn loop_ends(e: EnemyModel, k: nat) -> EnemyModel
    decreases k,
{
    if k == 0 {
        e
    } else {
        loop_end_spec(loop_ends(e, (k - 1) as nat))
    }
}

proof fn lemma_loop_ends(e: EnemyModel, k: nat)
    ensures
        loop_ends(e, k).loop_counter == ((e.loop_counter - k) % 256) as u8,
        loop_ends(e, k).loop_start_addr == e.loop_start_addr,
    decreases k,
{
    if k > 0 {
        lemma_loop_ends(e, (k - 1) as nat);
        let c = e.loop_counter - (k - 1);
        assert(((c % 256) - 1) % 256 == (c - 1) % 256) by {
            vstd::arithmetic::div_mod::lemma_add_mod_noop(c, -1, 256);
            vstd::arithmetic::div_mod::lemma_mod_twice(-1, 256);
            vstd::arithmetic::div_mod::lemma_add_mod_noop(c % 256, -1, 256);
        }
    }
}

/// After `loop_begin n` (`n != 1`), the `loop_end` closing the loop sends
/// control back to the start of the body on each of its first
/// `loop_trips(n) - 1` runs and lets it fall through on run `loop_trips(n)`:
/// the body runs exactly `n` times, and 256 times for `n == 0`.
pub proof fn lemma_loop_count(e: EnemyModel, f: Frame, h: HostView, rnd: u8, n: u8, k: nat)
    requires
        n != 1,
        1 <= k <= loop_trips(n),
    ensures
        ({
            let b = exec_spec(e, Op::LoopBegin(n), f, h, rnd).0;
            let after = loop_end_spec(loop_ends(b, (k - 1) as nat));
            &&& b.loop_start_addr == e.pc
            &&& (after.loop_counter > 0) == (k < loop_trips(n))
            &&& k < loop_trips(n) ==> after.pc == e.pc
        }),
{
    let b = exec_spec(e, Op::LoopBegin(n), f, h, rnd).0;
    lemma_loop_ends(b, (k - 1) as nat);
    lemma_loop_ends(b, k);
    assert(loop_ends(b, k) == loop_end_spec(loop_ends(b, (k - 1) as nat)));
    let c = n - k;
    if n == 0 {
        assert(c % 256 == 256 - k) by {
            vstd::arithmetic::div_mod::lemma_mod_multiples_vanish(1, c, 256);
            vstd::arithmetic::div_mod::lemma_small_mod((256 - k) as nat, 256);
        }
    } else {
        vstd::arithmetic::div_mod::lemma_small_mod((n - k) as nat, 256);
    }
}

} // verus!
