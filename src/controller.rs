//! The frame controller: one call per pass of the main loop. It counts ticks,
//! advances the world every eleventh frame, escapes stagnation, and applies
//! the two buttons with their ignore windows. Reading the buttons and the
//! random source, waiting, and driving the display are left to the caller.

use vstd::prelude::*;
use crate::world::{
    Board, grid, empty_grid, is_binary, next_generation, inverted, low_bits, life, complement, reseed,
    same_board, lemma_life_binary, lemma_complement_binary,
};

verus! {

/// A generation is computed on the frame whose tick count exceeds this.
pub const GENERATION_TICKS: u8 = 10;

/// The board is re-randomized once it has stayed unchanged for more
/// generations than this.
pub const STAGNATION_LIMIT: u64 = 50;

/// The number of frames the B button stays locked after it acted.
pub const B_COOLDOWN: u8 = 100;

/// What the caller observed at the start of a frame.
#[derive(Clone, Copy, Debug)]
pub struct FrameInput {
    /// Button A reads low.
    pub a_pressed: bool,
    /// Button A reads high, sampled after the A press was handled.
    pub a_released: bool,
    /// Button B reads low.
    pub b_pressed: bool,
    /// Fresh random bytes; the lowest bit of each fills its cell whenever the
    /// board is re-randomized in this frame.
    pub bits: Board,
}

/// What the caller has to do after a frame.
#[derive(Clone, Copy, Debug, PartialEq, Eq)]
pub struct FrameOutput {
    /// A generation was computed.
    pub generation: bool,
    /// The generation found the board stagnant and re-randomized it.
    pub reseeded: bool,
    /// Button A re-randomized the board (wait out the debounce delay).
    pub randomized: bool,
    /// Button B complemented the board (wait out the debounce delay).
    pub complemented: bool,
    /// How many terminal clear codes to send before painting.
    pub clears: u8,
    /// Paint the board on the serial echo during this frame's sweep.
    pub emit_serial: bool,
}

/// The abstract state of the controller.
pub ghost struct ControllerState {
    pub world: Seq<Seq<u8>>,
    pub last_world: Seq<Seq<u8>>,
    pub tick_count: int,
    pub same_board_count: int,
    pub a_ignore: bool,
    pub b_ignore: bool,
    pub b_ignore_count: int,
    pub update_serial: bool,
}

/// The states that the controller can be in between frames.
pub open spec fn state_wf(s: ControllerState) -> bool {
    &&& s.world.len() == 5
    &&& forall|r: int| 0 <= r < 5 ==> (#[trigger] s.world[r]).len() == 5
    &&& is_binary(s.world)
    &&& 0 <= s.tick_count <= GENERATION_TICKS
    &&& 0 <= s.same_board_count <= u64::MAX
    &&& 0 <= s.b_ignore_count <= B_COOLDOWN
    &&& (s.b_ignore <==> s.b_ignore_count > 0)
}

/// A counter that stops at the largest `u64`.
pub open spec fn saturating_inc(n: int) -> int {
    if n < u64::MAX {
        n + 1
    } else {
        n
    }
}

/// Step the world, compare it with the snapshot and re-randomize it when it
/// has stagnated too long.
pub open spec fn generation_phase(s: ControllerState, bits: Seq<Seq<u8>>) -> ControllerState {
    let stepped = next_generation(s.world);
    let same = stepped == s.last_world;
    let count = if same {
        saturating_inc(s.same_board_count)
    } else {
        0
    };
    ControllerState {
        world: if count > STAGNATION_LIMIT {
            low_bits(bits)
        } else {
            stepped
        },
        last_world: if same {
            s.last_world
        } else {
            stepped
        },
        tick_count: 0,
        same_board_count: count,
        update_serial: true,
        ..s
    }
}

/// The tick counter advances; past the generation bound a generation runs.
pub open spec fn tick_phase(s: ControllerState, i: FrameInput) -> ControllerState {
    if s.tick_count + 1 > GENERATION_TICKS {
        generation_phase(s, grid(i.bits))
    } else {
        ControllerState { tick_count: s.tick_count + 1, ..s }
    }
}

/// A press of A re-randomizes the board and latches the A flag; a release
/// clears the flag.
pub open spec fn a_phase(s: ControllerState, i: FrameInput) -> ControllerState {
    let pressed = if i.a_pressed {
        ControllerState { world: low_bits(grid(i.bits)), a_ignore: true, update_serial: true, ..s }
    } else {
        s
    };
    if pressed.a_ignore && i.a_released {
        ControllerState { a_ignore: false, ..pressed }
    } else {
        pressed
    }
}

/// A press of B takes effect only while neither ignore flag is set.
pub open spec fn b_fires(s: ControllerState, i: FrameInput) -> bool {
    !s.a_ignore && !s.b_ignore && i.b_pressed
}

/// A press of B that takes effect complements the board and starts the
/// cooldown; the cooldown then counts up to its bound and ends.
pub open spec fn b_phase(s: ControllerState, i: FrameInput) -> ControllerState {
    let pressed = if b_fires(s, i) {
        ControllerState { world: inverted(s.world), b_ignore: true, update_serial: true, ..s }
    } else {
        s
    };
    if pressed.b_ignore && pressed.b_ignore_count < B_COOLDOWN {
        ControllerState { b_ignore_count: pressed.b_ignore_count + 1, ..pressed }
    } else {
        ControllerState { b_ignore_count: 0, b_ignore: false, ..pressed }
    }
}

/// 1 for `true`, 0 for `false`.
pub open spec fn count_of(b: bool) -> int {
    if b {
        1
    } else {
        0
    }
}

/// One whole frame: the state after it and the actions it asks for.
pub open spec fn frame_result(s: ControllerState, i: FrameInput) -> (ControllerState, FrameOutput) {
    let t = tick_phase(s, i);
    let a = a_phase(t, i);
    let b = b_phase(a, i);
    let generation = s.tick_count + 1 > GENERATION_TICKS;
    let fired = b_fires(a, i);
    let out = FrameOutput {
        generation,
        reseeded: generation && t.same_board_count > STAGNATION_LIMIT,
        randomized: i.a_pressed,
        complemented: fired,
        clears: (count_of(generation) + count_of(i.a_pressed) + count_of(fired)) as u8,
        emit_serial: b.update_serial,
    };
    (ControllerState { update_serial: false, ..b }, out)
}

/// The state after running the frames `ins` in order from `s`.
pub open spec fn run(s: ControllerState, ins: Seq<FrameInput>) -> ControllerState
    decreases ins.len(),
{
    if ins.len() == 0 {
        s
    } else {
        frame_result(run(s, ins.drop_last()), ins.last()).0
    }
}

/// Every frame keeps the controller's state well formed; in particular every
/// cell stays 0 or 1 in every frame.
pub proof fn lemma_frame_keeps_wf(s: ControllerState, i: FrameInput)
    requires
        state_wf(s),
    ensures
        state_wf(frame_result(s, i).0),
{
    lemma_life_binary(s.world);
    let t = tick_phase(s, i);
    let a = a_phase(t, i);
    lemma_complement_binary(a.world);
}

/// Every cell stays 0 or 1, and the state well formed, after any run of
/// frames.
pub proof fn lemma_run_keeps_wf(s: ControllerState, ins: Seq<FrameInput>)
    requires
        state_wf(s),
    ensures
        state_wf(run(s, ins)),
        is_binary(run(s, ins).world),
    decreases ins.len(),
{
    if ins.len() > 0 {
        lemma_run_keeps_wf(s, ins.drop_last());
        lemma_frame_keeps_wf(run(s, ins.drop_last()), ins.last());
    }
}

/// While the A flag is set at the B check, a press of B does nothing in that
/// frame.
pub proof fn lemma_a_ignore_blocks_b(s: ControllerState, i: FrameInput)
    ensures
        a_phase(tick_phase(s, i), i).a_ignore ==> !frame_result(s, i).1.complemented,
        frame_result(s, i).0.a_ignore ==> !frame_result(s, i).1.complemented,
{
}

proof fn lemma_cooldown_counts(s: ControllerState, ins: Seq<FrameInput>, k: int)
    requires
        state_wf(s),
        1 <= k <= B_COOLDOWN,
        k <= ins.len(),
        frame_result(s, ins[0]).1.complemented,
    ensures
        run(s, ins.take(k)).b_ignore,
        run(s, ins.take(k)).b_ignore_count == k,
    decreases k,
{
    let prefix = ins.take(k);
    if k == 1 {
        assert(prefix.drop_last() =~= ins.take(0));
        assert(run(s, ins.take(0)) == s);
    } else {
        lemma_cooldown_counts(s, ins, k - 1);
        assert(prefix.drop_last() =~= ins.take(k - 1));
    }
}

/// Once B has acted, it does nothing in any of the next hundred frames,
/// whatever the buttons do.
pub proof fn lemma_b_cooldown(s: ControllerState, ins: Seq<FrameInput>)
    requires
        state_wf(s),
        ins.len() >= 1,
        frame_result(s, ins[0]).1.complemented,
    ensures
        forall|k: int|
            1 <= k <= B_COOLDOWN && k < ins.len() ==> !(#[trigger] frame_result(run(s, ins.take(k)), ins[k]).1.complemented),
{
    assert forall|k: int|
        1 <= k <= B_COOLDOWN && k < ins.len() implies !(#[trigger] frame_result(run(s, ins.take(k)), ins[k]).1.complemented) by {
        lemma_cooldown_counts(s, ins, k);
    }
}

/// The stagnation counter moves only on generations, and a generation that
/// leaves it above the limit re-randomizes the board in the same frame.
pub proof fn lemma_stagnation_reseeds(s: ControllerState, i: FrameInput)
    requires
        state_wf(s),
    ensures
        ({
            let t = tick_phase(s, i);
            let (next, out) = frame_result(s, i);
            &&& out.generation ==> (out.reseeded <==> next.same_board_count > STAGNATION_LIMIT)
            &&& out.reseeded ==> t.world == low_bits(grid(i.bits))
            &&& !out.generation ==> next.same_board_count == s.same_board_count
        }),
{
}

/// The random bytes are read only on a frame where A is pressed or a
/// generation runs: on any other frame two inputs that differ in their bytes
/// alone give the same state and the same actions.
pub proof fn lemma_bits_unused(s: ControllerState, i: FrameInput, j: FrameInput)
    requires
        !i.a_pressed,
        s.tick_count + 1 <= GENERATION_TICKS,
        j.a_pressed == i.a_pressed,
        j.a_released == i.a_released,
        j.b_pressed == i.b_pressed,
    ensures
        frame_result(s, i) == frame_result(s, j),
{
}

/// The owner of the world and of every flag and counter of the main loop.
pub struct Controller {
    world: Board,
    last_world: Board,
    tick_count: u8,
    same_board_count: u64,
    a_ignore: bool,
    b_ignore: bool,
    b_ignore_count: u8,
    update_serial: bool,
}

impl View for Controller {
    type V = ControllerState;

    closed spec fn view(&self) -> ControllerState {
        ControllerState {
            world: grid(self.world),
            last_world: grid(self.last_world),
            tick_count: self.tick_count as int,
            same_board_count: self.same_board_count as int,
            a_ignore: self.a_ignore,
            b_ignore: self.b_ignore,
            b_ignore_count: self.b_ignore_count as int,
            update_serial: self.update_serial,
        }
    }
}

impl Controller {
    /// The controller's state is well formed.
    pub open spec fn wf(&self) -> bool {
        state_wf(self@)
    }

    /// The state at boot: the board filled from `bits`, an empty snapshot,
    /// every counter at zero, both flags clear, and a serial repaint pending.
    pub fn new(bits: &Board) -> (r: Controller)
        ensures
            r.wf(),
            r@.world == low_bits(grid(*bits)),
            r@.last_world == empty_grid(),
            r@.tick_count == 0,
            r@.same_board_count == 0,
            !r@.a_ignore,
            !r@.b_ignore,
            r@.b_ignore_count == 0,
            r@.update_serial,
    {
        let mut world: Board = [[0u8; 5]; 5];
        reseed(&mut world, bits);
        let last_world: Board = [[0u8; 5]; 5];
        assert(grid(last_world) =~~= empty_grid());
        Controller {
            world,
            last_world,
            tick_count: 0,
            same_board_count: 0,
            a_ignore: false,
            b_ignore: false,
            b_ignore_count: 0,
            update_serial: true,
        }
    }


    /// The board.
    pub fn world(&self) -> (r: Board)
        ensures
            grid(r) == self@.world,
    {
        self.world
    }

    /// The snapshot taken at the last generation that changed the board.
    pub fn last_world(&self) -> (r: Board)
        ensures
            grid(r) == self@.last_world,
    {
        self.last_world
    }

    /// Frames since the last generation.
    pub fn tick_count(&self) -> (r: u8)
        ensures
            r == self@.tick_count,
    {
        self.tick_count
    }

    /// Consecutive generations that left the board unchanged.
    pub fn same_board_count(&self) -> (r: u64)
        ensures
            r == self@.same_board_count,
    {
        self.same_board_count
    }

    /// Whether A is being held.
    pub fn a_ignore(&self) -> (r: bool)
        ensures
            r == self@.a_ignore,
    {
        self.a_ignore
    }

    /// Whether B is in its cooldown.
    pub fn b_ignore(&self) -> (r: bool)
        ensures
            r == self@.b_ignore,
    {
        self.b_ignore
    }

    /// Frames counted so far in B's cooldown.
    pub fn b_ignore_count(&self) -> (r: u8)
        ensures
            r == self@.b_ignore_count,
    {
        self.b_ignore_count
    }

    /// Whether the next sweep repaints the serial echo.
    pub fn update_serial(&self) -> (r: bool)
        ensures
            r == self@.update_serial,
    {
        self.update_serial
    }

    /// Whether the coming frame may re-randomize the board, and so needs
    /// fresh random bytes: when A is pressed or a generation is due.
    pub fn needs_bits(&self, a_pressed: bool) -> (r: bool)
        requires
            self.wf(),
        ensures
            r == (a_pressed || self@.tick_count + 1 > GENERATION_TICKS),
    {
        a_pressed || self.tick_count + 1 > GENERATION_TICKS
    }

    /// Runs one frame on what the caller observed, and says what to do next.
    pub fn frame(&mut self, input: &FrameInput) -> (out: FrameOutput)
        requires
            old(self).wf(),
        ensures
            final(self).wf(),
            final(self)@ == frame_result(old(self)@, *input).0,
            out == frame_result(old(self)@, *input).1,
    {
        proof {
            lemma_frame_keeps_wf(self@, *input);
        }
        let mut clears: u8 = 0;
        let mut generation = false;
        let mut reseeded = false;
        self.tick_count = self.tick_count + 1;
        if self.tick_count > GENERATION_TICKS {
            generation = true;
            life(&mut self.world);
            clears = clears + 1;
            self.update_serial = true;
            if same_board(&self.world, &self.last_world) {
                if self.same_board_count < u64::MAX {
                    self.same_board_count = self.same_board_count + 1;
                }
            } else {
                self.last_world = self.world;
                self.same_board_count = 0;
            }
            if self.same_board_count > STAGNATION_LIMIT {
                reseed(&mut self.world, &input.bits);
                reseeded = true;
            }
            self.tick_count = 0;
        }
        if input.a_pressed {
            reseed(&mut self.world, &input.bits);
            self.a_ignore = true;
            self.update_serial = true;
            clears = clears + 1;
        }
        if self.a_ignore && input.a_released {
            self.a_ignore = false;
        }
        let complemented = !self.a_ignore && !self.b_ignore && input.b_pressed;
        if complemented {
            complement(&mut self.world);
            self.b_ignore = true;
            self.update_serial = true;
            clears = clears + 1;
        }
        if self.b_ignore && self.b_ignore_count < B_COOLDOWN {
            self.b_ignore_count = self.b_ignore_count + 1;
        } else {
            self.b_ignore_count = 0;
            self.b_ignore = false;
        }
        let emit_serial = self.update_serial;
        self.update_serial = false;
        FrameOutput {
            generation,
            reseeded,
            randomized: input.a_pressed,
            complemented,
            clears,
            emit_serial,
        }
    }
}

} // verus!
