//! The mathematical semantics of program execution: a small-step machine
//! over a ghost state, together with the invariants it preserves.
//!
//! The executor is proved to return exactly what `spec_run` computes from
//! the initial state of the puzzle and program.

use vstd::prelude::*;

use crate::puzzle::{
    color_at, grid_wf, lemma_grid_stars_elem, lemma_grid_stars_update, lemma_row_stars_elem,
    lemma_row_stars_update, slot_of, spec_count_instructions, spec_count_stars, spec_delta,
    spec_function_index, spec_should_execute, spec_turn_left, spec_turn_right,
    star1, tile_at, Instruction, InstructionType, Direction, Position, PuzzleV, Tile, TileColor,
};

verus! {

/// The terminal label of one execution.
#[derive(Clone, Copy, Debug, PartialEq, Eq, Structural)]
pub enum ExecutionStatus {
    /// All stars collected.
    Solved,
    /// The robot stepped off the grid.
    Fell,
    /// The step budget ran out, or the main function never did any work.
    Timeout,
    /// The sampled state repeated: an infinite loop.
    Cycle,
    /// The call stack grew past its cap.
    StackOverflow,
}

/// The execution counters, as unbounded naturals.
#[verifier::ext_equal]
pub ghost struct SpecMetrics {
    pub steps: nat,
    pub instructions: nat,
    pub max_stack_depth: nat,
    pub conditionals_executed: nat,
    pub functions_called: nat,
    pub tiles_visited: nat,
    pub stars_collected: nat,
    pub total_stars: nat,
    pub paints_executed: nat,
}

/// One call-stack entry of the sampled state: a function index and a slot
/// index.
#[derive(Clone, Copy, Debug, PartialEq, Eq, Structural)]
pub struct Frame {
    pub func: usize,
    pub slot: usize,
}

/// The sampled machine state used for cycle detection: robot pose, stars
/// remaining, the top four stack frames and the stack depth.  Tile colours
/// and the visited set are deliberately left out.
#[derive(Clone, Copy, Debug, PartialEq, Eq, Structural)]
pub struct StateKey {
    pub x: i32,
    pub y: i32,
    pub dir: Direction,
    pub stars: usize,
    pub depth: usize,
    pub top0: Option<Frame>,
    pub top1: Option<Frame>,
    pub top2: Option<Frame>,
    pub top3: Option<Frame>,
}

/// The full machine state.
#[verifier::ext_equal]
pub ghost struct MState {
    /// The grid tiles, mutable during execution (stars and paint).
    pub grid: Seq<Seq<Option<Tile>>>,
    /// The robot position.
    pub pos: Position,
    /// The robot heading.
    pub dir: Direction,
    /// Stars still on the grid.
    pub stars: nat,
    /// The call stack; the last element is the top.
    pub stack: Seq<(usize, usize)>,
    /// Positions the robot has stood on.
    pub visited: Seq<Position>,
    /// State keys sampled so far for cycle detection.
    pub seen: Seq<StateKey>,
    /// The counters.
    pub m: SpecMetrics,
}

/// The outcome of one machine step: a terminal status with final counters,
/// or the next state.
pub ghost enum StepOut {
    Done(ExecutionStatus, SpecMetrics),
    Next(MState),
}

/// The stack after pushing slots `len-1, ..., 0` of function `f`, so that
/// slot 0 ends on top.
pub open spec fn push_rev(stack: Seq<(usize, usize)>, f: usize, len: nat) -> Seq<(usize, usize)> {
    stack + Seq::new(len, |k: int| (f, (len - 1 - k) as usize))
}

/// The frame `back` entries below the top of the stack, if the stack is
/// that deep.
pub open spec fn frame_opt(stack: Seq<(usize, usize)>, back: int) -> Option<Frame> {
    if stack.len() >= back {
        let fr = stack[stack.len() - back];
        Some(Frame { func: fr.0, slot: fr.1 })
    } else {
        None
    }
}

/// The sampled key built from a robot pose, the stars remaining and the
/// stack.
pub open spec fn key_parts(
    pos: Position,
    dir: Direction,
    stars: nat,
    stack: Seq<(usize, usize)>,
) -> StateKey {
    StateKey {
        x: pos.x,
        y: pos.y,
        dir,
        stars: stars as usize,
        depth: stack.len() as usize,
        top0: frame_opt(stack, 1),
        top1: frame_opt(stack, 2),
        top2: frame_opt(stack, 3),
        top3: frame_opt(stack, 4),
    }
}

/// The sampled key of a state (taken after the current frame is popped).
pub open spec fn key_of(s: MState) -> StateKey {
    key_parts(s.pos, s.dir, s.stars, s.stack)
}

/// Re-push the main function when the stack has drained; the machine's
/// implicit outer loop.
pub open spec fn restart_if_empty(prog: Seq<Seq<Option<Instruction>>>, s: MState) -> MState {
    if s.stack.len() == 0 && prog[0].len() > 0 {
        MState { stack: push_rev(s.stack, 0, prog[0].len()), ..s }
    } else {
        s
    }
}

/// Apply a paint instruction: recolour the tile under the robot, if any.
/// The star on the tile is kept.
pub open spec fn spec_paint(prog: Seq<Seq<Option<Instruction>>>, s: MState, c: TileColor) -> StepOut {
    match tile_at(s.grid, s.pos.x as int, s.pos.y as int) {
        Some(t) => {
            let grid2 = s.grid.update(
                s.pos.y as int,
                s.grid[s.pos.y as int].update(
                    s.pos.x as int,
                    Some(Tile { color: Some(c), has_star: t.has_star }),
                ),
            );
            let m2 = SpecMetrics { paints_executed: s.m.paints_executed + 1, ..s.m };
            StepOut::Next(restart_if_empty(prog, MState { grid: grid2, m: m2, ..s }))
        },
        None => StepOut::Next(restart_if_empty(prog, s)),
    }
}

/// Apply a charged instruction to the state: movement, star collection,
/// turning, function calls, painting.
pub open spec fn spec_dispatch(
    prog: Seq<Seq<Option<Instruction>>>,
    s: MState,
    inst: Instruction,
) -> StepOut {
    match inst.instruction_type {
        InstructionType::Forward => {
            let d = spec_delta(s.dir);
            let nx = s.pos.x + d.0;
            let ny = s.pos.y + d.1;
            match tile_at(s.grid, nx, ny) {
                None => StepOut::Done(ExecutionStatus::Fell, s.m),
                Some(t) => {
                    let pos2 = Position { x: nx as i32, y: ny as i32 };
                    let visited2 = if s.visited.contains(pos2) {
                        s.visited
                    } else {
                        s.visited.push(pos2)
                    };
                    let m2 = if s.visited.contains(pos2) {
                        s.m
                    } else {
                        SpecMetrics { tiles_visited: s.m.tiles_visited + 1, ..s.m }
                    };
                    if t.has_star {
                        let grid2 = s.grid.update(
                            ny,
                            s.grid[ny].update(nx, Some(Tile { color: t.color, has_star: false })),
                        );
                        let stars2: nat = if s.stars >= 1 {
                            (s.stars - 1) as nat
                        } else {
                            0
                        };
                        let m3 = SpecMetrics { stars_collected: m2.stars_collected + 1, ..m2 };
                        if stars2 == 0 {
                            StepOut::Done(ExecutionStatus::Solved, m3)
                        } else {
                            StepOut::Next(
                                restart_if_empty(
                                    prog,
                                    MState {
                                        grid: grid2,
                                        pos: pos2,
                                        stars: stars2,
                                        visited: visited2,
                                        m: m3,
                                        ..s
                                    },
                                ),
                            )
                        }
                    } else {
                        StepOut::Next(
                            restart_if_empty(
                                prog,
                                MState { pos: pos2, visited: visited2, m: m2, ..s },
                            ),
                        )
                    }
                },
            }
        },
        InstructionType::Left => StepOut::Next(
            restart_if_empty(prog, MState { dir: spec_turn_left(s.dir), ..s }),
        ),
        InstructionType::Right => StepOut::Next(
            restart_if_empty(prog, MState { dir: spec_turn_right(s.dir), ..s }),
        ),
        InstructionType::F1
        | InstructionType::F2
        | InstructionType::F3
        | InstructionType::F4
        | InstructionType::F5 => {
            match spec_function_index(inst.instruction_type) {
                Some(target) => {
                    let len = prog[target as int].len();
                    if len > 0 {
                        StepOut::Next(
                            restart_if_empty(
                                prog,
                                MState {
                                    stack: push_rev(s.stack, target, len),
                                    m: SpecMetrics {
                                        functions_called: s.m.functions_called + 1,
                                        ..s.m
                                    },
                                    ..s
                                },
                            ),
                        )
                    } else {
                        StepOut::Next(restart_if_empty(prog, s))
                    }
                },
                None => StepOut::Next(restart_if_empty(prog, s)),
            }
        },
        InstructionType::PaintRed => spec_paint(prog, s, TileColor::Red),
        InstructionType::PaintGreen => spec_paint(prog, s, TileColor::Green),
        InstructionType::PaintBlue => spec_paint(prog, s, TileColor::Blue),
        InstructionType::Noop => StepOut::Next(restart_if_empty(prog, s)),
    }
}

/// One machine step: check the budget and the stack cap, pop a frame, skip
/// empty slots and unmet conditions without charge, sample for cycles every
/// sixteenth charged step, then dispatch.
pub open spec fn spec_step(prog: Seq<Seq<Option<Instruction>>>, max_steps: nat, s: MState) -> StepOut {
    if s.stack.len() == 0 {
        StepOut::Done(ExecutionStatus::Timeout, s.m)
    } else if s.m.steps >= max_steps {
        StepOut::Done(ExecutionStatus::Timeout, s.m)
    } else if s.stack.len() > 256 {
        StepOut::Done(ExecutionStatus::StackOverflow, s.m)
    } else {
        let depth = s.stack.len();
        let m0 = SpecMetrics {
            max_stack_depth: if depth > s.m.max_stack_depth {
                depth
            } else {
                s.m.max_stack_depth
            },
            ..s.m
        };
        let frame = s.stack.last();
        let s1 = MState { stack: s.stack.drop_last(), m: m0, ..s };
        match slot_of(prog, frame.0, frame.1) {
            None => StepOut::Next(s1),
            Some(inst) => {
                let color = color_at(s.grid, s.pos.x as int, s.pos.y as int);
                if !spec_should_execute(inst, color) {
                    StepOut::Next(s1)
                } else {
                    let m1 = if inst.condition is Some {
                        SpecMetrics { conditionals_executed: m0.conditionals_executed + 1, ..m0 }
                    } else {
                        m0
                    };
                    let s2 = MState { m: m1, ..s1 };
                    if m1.steps % 16 == 0 && s2.seen.contains(key_of(s2)) {
                        StepOut::Done(ExecutionStatus::Cycle, m1)
                    } else {
                        let seen2 = if m1.steps % 16 == 0 {
                            s2.seen.push(key_of(s2))
                        } else {
                            s2.seen
                        };
                        let s3 = MState {
                            seen: seen2,
                            m: SpecMetrics { steps: m1.steps + 1, ..m1 },
                            ..s2
                        };
                        spec_dispatch(prog, s3, inst)
                    }
                }
            },
        }
    }
}

/// Every `Next` state keeps the step count and shrinks the stack, or charges
/// exactly one step within the budget.
pub proof fn lemma_step_shape(prog: Seq<Seq<Option<Instruction>>>, max_steps: nat, s: MState)
    ensures
        spec_step(prog, max_steps, s) matches StepOut::Next(s2) ==> (s2.m.steps == s.m.steps
            && s2.stack.len() < s.stack.len()) || (s.m.steps < max_steps && s2.m.steps == s.m.steps
            + 1),
{
}

/// Step accounting.  An iteration that charges a step can halt only with
/// `Solved` or `Fell`; every other halt leaves the step count alone.  An
/// iteration that continues either charged exactly one step or, uncharged,
/// only discarded a frame.
pub proof fn lemma_step_accounting(prog: Seq<Seq<Option<Instruction>>>, max_steps: nat, s: MState)
    ensures
        (match spec_step(prog, max_steps, s) {
            StepOut::Done(st, m) => (m.steps == s.m.steps + 1 ==> st == ExecutionStatus::Solved
                || st == ExecutionStatus::Fell) && (m.steps == s.m.steps + 1 || m.steps
                == s.m.steps),
            StepOut::Next(s2) => s2.m.steps == s.m.steps + 1 || (s2.m.steps == s.m.steps
                && s2.stack.len() < s.stack.len()),
        }),
{
}

/// Run the machine to its terminal status and final counters.
pub open spec fn spec_run(prog: Seq<Seq<Option<Instruction>>>, max_steps: nat, s: MState) -> (
    ExecutionStatus,
    SpecMetrics,
)
    decreases max_steps - s.m.steps, s.stack.len(),
        via spec_run_decreases
{
    match spec_step(prog, max_steps, s) {
        StepOut::Done(st, m) => (st, m),
        StepOut::Next(s2) => spec_run(prog, max_steps, s2),
    }
}

#[via_fn]
proof fn spec_run_decreases(prog: Seq<Seq<Option<Instruction>>>, max_steps: nat, s: MState) {
    lemma_step_shape(prog, max_steps, s);
}

/// The number of frame pops a run performs: one per machine step taken,
/// charged or not.
pub open spec fn spec_run_pops(prog: Seq<Seq<Option<Instruction>>>, max_steps: nat, s: MState) -> nat
    decreases max_steps - s.m.steps, s.stack.len(),
        via spec_run_pops_decreases
{
    match spec_step(prog, max_steps, s) {
        StepOut::Done(st, m) => 0,
        StepOut::Next(s2) => 1 + spec_run_pops(prog, max_steps, s2),
    }
}

#[via_fn]
proof fn spec_run_pops_decreases(prog: Seq<Seq<Option<Instruction>>>, max_steps: nat, s: MState) {
    lemma_step_shape(prog, max_steps, s);
}

/// Once the step budget is consumed the machine pops nothing more: it
/// halts at once.
pub proof fn lemma_budget_exhausted_pops(
    prog: Seq<Seq<Option<Instruction>>>,
    max_steps: nat,
    s: MState,
)
    requires
        s.m.steps >= max_steps,
    ensures
        spec_run_pops(prog, max_steps, s) == 0,
{
}

/// The longest function body of the program.
pub open spec fn max_func_len(p: Seq<Seq<Option<Instruction>>>) -> nat {
    let a = if p[0].len() > p[1].len() {
        p[0].len()
    } else {
        p[1].len()
    };
    let b = if a > p[2].len() {
        a
    } else {
        p[2].len()
    };
    let c = if b > p[3].len() {
        b
    } else {
        p[3].len()
    };
    if c > p[4].len() {
        c
    } else {
        p[4].len()
    }
}

/// One step pops a frame and grows the stack by at most the longest
/// function body.
pub proof fn lemma_step_stack_growth(
    prog: Seq<Seq<Option<Instruction>>>,
    max_steps: nat,
    s: MState,
)
    ensures
        spec_step(prog, max_steps, s) matches StepOut::Next(s2) ==> s2.stack.len() + 1
            <= s.stack.len() + max_func_len(prog),
{
}

/// A whole run performs at most `(budget left) * (longest function) +
/// (stack depth)` pops of work; together with `lemma_budget_exhausted_pops`
/// this bounds the work of an execution by its step budget.
pub proof fn lemma_run_pops_bounded(
    prog: Seq<Seq<Option<Instruction>>>,
    max_steps: nat,
    s: MState,
)
    requires
        state_wf(s, max_steps),
    ensures
        spec_run_pops(prog, max_steps, s) <= (max_steps - s.m.steps) * max_func_len(prog)
            + s.stack.len(),
    decreases max_steps - s.m.steps, s.stack.len(),
{
    lemma_step_preserves_wf(prog, max_steps, s);
    lemma_step_shape(prog, max_steps, s);
    lemma_step_stack_growth(prog, max_steps, s);
    let l = max_func_len(prog);
    match spec_step(prog, max_steps, s) {
        StepOut::Done(st, m) => {
            assert((max_steps - s.m.steps) * l >= 0) by (nonlinear_arith)
                requires
                    max_steps - s.m.steps >= 0,
                    l >= 0,
            ;
        },
        StepOut::Next(s2) => {
            lemma_run_pops_bounded(prog, max_steps, s2);
            if s2.m.steps == s.m.steps + 1 {
                let a = max_steps - s.m.steps;
                assert((a - 1) * l + l == a * l) by (nonlinear_arith);
            }
        },
    }
}

/// The counters at the start of a run.
pub open spec fn init_metrics(
    prog: Seq<Seq<Option<Instruction>>>,
    grid: Seq<Seq<Option<Tile>>>,
) -> SpecMetrics {
    SpecMetrics {
        steps: 0,
        instructions: spec_count_instructions(prog),
        max_stack_depth: 0,
        conditionals_executed: 0,
        functions_called: 0,
        tiles_visited: 1,
        stars_collected: 0,
        total_stars: spec_count_stars(grid),
        paints_executed: 0,
    }
}

/// The machine state at the start of a run: the puzzle's grid and robot
/// pose, the main function pushed in reverse, the start position visited.
pub open spec fn init_state(p: PuzzleV, prog: Seq<Seq<Option<Instruction>>>) -> MState {
    MState {
        grid: p.grid,
        pos: p.start,
        dir: p.dir,
        stars: spec_count_stars(p.grid),
        stack: push_rev(Seq::empty(), 0, prog[0].len()),
        visited: seq![p.start],
        seen: Seq::empty(),
        m: init_metrics(prog, p.grid),
    }
}

/// What executing `prog` on puzzle `p` under a step budget returns.
pub open spec fn spec_execute(p: PuzzleV, prog: Seq<Seq<Option<Instruction>>>, max_steps: nat) -> (
    ExecutionStatus,
    SpecMetrics,
) {
    spec_run(prog, max_steps, init_state(p, prog))
}

/// A program whose five bodies exist and whose slots, all together, leave
/// room for the frame stack.
pub open spec fn prog_bounded(p: Seq<Seq<Option<Instruction>>>) -> bool {
    &&& p.len() == 5
    &&& p[0].len() + p[1].len() + p[2].len() + p[3].len() + p[4].len() <= usize::MAX - 257
}

/// The invariant every reachable machine state satisfies.
pub open spec fn state_wf(s: MState, max_steps: nat) -> bool {
    &&& grid_wf(s.grid)
    &&& s.stars == spec_count_stars(s.grid)
    &&& s.m.stars_collected + s.stars == s.m.total_stars
    &&& s.m.total_stars <= usize::MAX
    &&& s.m.steps <= max_steps
    &&& s.m.max_stack_depth <= 256
    &&& s.m.conditionals_executed <= s.m.steps
    &&& s.m.functions_called <= s.m.steps
    &&& s.m.paints_executed <= s.m.steps
    &&& s.m.tiles_visited == s.visited.len()
    &&& s.visited.len() >= 1
    &&& s.seen.len() * 16 <= s.m.steps + 15
}

/// The cycle-detection set of a reachable state holds at most
/// `steps / 16 + 1` sampled keys: one per sampling period.
pub proof fn lemma_seen_set_bounded(s: MState, max_steps: nat)
    requires
        state_wf(s, max_steps),
    ensures
        s.seen.len() <= s.m.steps / 16 + 1,
{
}

/// The bounds that hold of the final counters of a run started from a
/// well-formed state.
pub open spec fn metrics_bounded(m: SpecMetrics, max_steps: nat, instructions0: nat) -> bool {
    &&& m.steps <= max_steps
    &&& m.max_stack_depth <= 256
    &&& m.stars_collected <= m.total_stars
    &&& m.tiles_visited >= 1
    &&& m.instructions == instructions0
}

/// One step from a well-formed state either halts with bounded counters or
/// reaches a well-formed state.
pub proof fn lemma_step_preserves_wf(prog: Seq<Seq<Option<Instruction>>>, max_steps: nat, s: MState)
    requires
        state_wf(s, max_steps),
    ensures
        spec_step(prog, max_steps, s) matches StepOut::Next(s2) ==> state_wf(s2, max_steps)
            && s2.m.instructions == s.m.instructions,
        spec_step(prog, max_steps, s) matches StepOut::Done(st, m) ==> metrics_bounded(
            m,
            max_steps,
            s.m.instructions,
        ),
{
    if s.stack.len() == 0 || s.m.steps >= max_steps || s.stack.len() > 256 {
    } else {
        let depth = s.stack.len();
        let m0 = SpecMetrics {
            max_stack_depth: if depth > s.m.max_stack_depth {
                depth
            } else {
                s.m.max_stack_depth
            },
            ..s.m
        };
        let frame = s.stack.last();
        let s1 = MState { stack: s.stack.drop_last(), m: m0, ..s };
        match slot_of(prog, frame.0, frame.1) {
            None => {},
            Some(inst) => {
                let color = color_at(s.grid, s.pos.x as int, s.pos.y as int);
                if spec_should_execute(inst, color) {
                    let m1 = if inst.condition is Some {
                        SpecMetrics { conditionals_executed: m0.conditionals_executed + 1, ..m0 }
                    } else {
                        m0
                    };
                    let s2 = MState { m: m1, ..s1 };
                    if m1.steps % 16 == 0 && s2.seen.contains(key_of(s2)) {
                    } else {
                        let seen2 = if m1.steps % 16 == 0 {
                            s2.seen.push(key_of(s2))
                        } else {
                            s2.seen
                        };
                        let s3 = MState {
                            seen: seen2,
                            m: SpecMetrics { steps: m1.steps + 1, ..m1 },
                            ..s2
                        };
                        assert(state_wf(s3, max_steps));
                        lemma_dispatch_preserves_wf(prog, max_steps, s3, inst);
                    }
                }
            },
        }
    }
}

/// Dispatching a charged instruction from a well-formed state either halts
/// with bounded counters or reaches a well-formed state.
proof fn lemma_dispatch_preserves_wf(
    prog: Seq<Seq<Option<Instruction>>>,
    max_steps: nat,
    s: MState,
    inst: Instruction,
)
    requires
        state_wf(s, max_steps),
        s.m.functions_called + 1 <= s.m.steps,
        s.m.paints_executed + 1 <= s.m.steps,
    ensures
        spec_dispatch(prog, s, inst) matches StepOut::Next(s2) ==> state_wf(s2, max_steps)
            && s2.m.instructions == s.m.instructions,
        spec_dispatch(prog, s, inst) matches StepOut::Done(st, m) ==> metrics_bounded(
            m,
            max_steps,
            s.m.instructions,
        ),
{
    match inst.instruction_type {
        InstructionType::Forward => {
            let d = spec_delta(s.dir);
            let nx = s.pos.x + d.0;
            let ny = s.pos.y + d.1;
            match tile_at(s.grid, nx, ny) {
                None => {},
                Some(t) => {
                    let pos2 = Position { x: nx as i32, y: ny as i32 };
                    let visited2 = if s.visited.contains(pos2) {
                        s.visited
                    } else {
                        s.visited.push(pos2)
                    };
                    let m2 = if s.visited.contains(pos2) {
                        s.m
                    } else {
                        SpecMetrics { tiles_visited: s.m.tiles_visited + 1, ..s.m }
                    };
                    if t.has_star {
                        let row = s.grid[ny];
                        let t2 = Tile { color: t.color, has_star: false };
                        let row2 = row.update(nx, Some(t2));
                        let grid2 = s.grid.update(ny, row2);
                        lemma_row_stars_elem(row, nx);
                        lemma_grid_stars_elem(s.grid, ny);
                        lemma_row_stars_update(row, nx, Some(t2));
                        lemma_grid_stars_update(s.grid, ny, row2);
                        assert(star1(row[nx]) == 1);
                        assert(spec_count_stars(grid2) + 1 == spec_count_stars(s.grid));
                        assert(s.stars >= 1);
                        assert forall|y2: int| 0 <= y2 < grid2.len() implies grid2[y2].len()
                            <= i32::MAX by {
                            if y2 == ny {
                                assert(grid2[y2] == row2);
                            } else {
                                assert(grid2[y2] == s.grid[y2]);
                            }
                        }
                        let stars2: nat = (s.stars - 1) as nat;
                        let m3 = SpecMetrics { stars_collected: m2.stars_collected + 1, ..m2 };
                        if stars2 == 0 {
                        } else {
                            let snext = MState {
                                grid: grid2,
                                pos: pos2,
                                stars: stars2,
                                visited: visited2,
                                m: m3,
                                ..s
                            };
                            assert(state_wf(snext, max_steps));
                            assert(state_wf(restart_if_empty(prog, snext), max_steps));
                        }
                    } else {
                        let snext = MState { pos: pos2, visited: visited2, m: m2, ..s };
                        assert(state_wf(snext, max_steps));
                        assert(state_wf(restart_if_empty(prog, snext), max_steps));
                    }
                },
            }
        },
        InstructionType::PaintRed => {
            lemma_paint_preserves_wf(prog, max_steps, s, TileColor::Red);
        },
        InstructionType::PaintGreen => {
            lemma_paint_preserves_wf(prog, max_steps, s, TileColor::Green);
        },
        InstructionType::PaintBlue => {
            lemma_paint_preserves_wf(prog, max_steps, s, TileColor::Blue);
        },
        _ => {},
    }
}

proof fn lemma_paint_preserves_wf(
    prog: Seq<Seq<Option<Instruction>>>,
    max_steps: nat,
    s: MState,
    c: TileColor,
)
    requires
        state_wf(s, max_steps),
        s.m.paints_executed + 1 <= s.m.steps,
    ensures
        spec_paint(prog, s, c) matches StepOut::Next(s2) ==> state_wf(s2, max_steps)
            && s2.m.instructions == s.m.instructions,
{
    match tile_at(s.grid, s.pos.x as int, s.pos.y as int) {
        Some(t) => {
            let x = s.pos.x as int;
            let y = s.pos.y as int;
            let row = s.grid[y];
            let t2 = Tile { color: Some(c), has_star: t.has_star };
            let row2 = row.update(x, Some(t2));
            let grid2 = s.grid.update(y, row2);
            lemma_row_stars_update(row, x, Some(t2));
            lemma_grid_stars_update(s.grid, y, row2);
            assert(star1(row[x]) == star1(Some(t2)));
            assert(spec_count_stars(grid2) == spec_count_stars(s.grid));
            assert forall|y2: int| 0 <= y2 < grid2.len() implies grid2[y2].len() <= i32::MAX by {
                if y2 == y {
                    assert(grid2[y2] == row2);
                } else {
                    assert(grid2[y2] == s.grid[y2]);
                }
            }
            let m2 = SpecMetrics { paints_executed: s.m.paints_executed + 1, ..s.m };
            let snext = MState { grid: grid2, m: m2, ..s };
            assert(state_wf(snext, max_steps));
            assert(state_wf(restart_if_empty(prog, snext), max_steps));
        },
        None => {},
    }
}

/// A run from a well-formed state ends with bounded counters, and never
/// changes the static instruction count.
pub proof fn lemma_run_bounds(prog: Seq<Seq<Option<Instruction>>>, max_steps: nat, s: MState)
    requires
        state_wf(s, max_steps),
    ensures
        metrics_bounded(spec_run(prog, max_steps, s).1, max_steps, s.m.instructions),
    decreases max_steps - s.m.steps, s.stack.len(),
{
    lemma_step_preserves_wf(prog, max_steps, s);
    lemma_step_shape(prog, max_steps, s);
    match spec_step(prog, max_steps, s) {
        StepOut::Done(st, m) => {},
        StepOut::Next(s2) => {
            lemma_run_bounds(prog, max_steps, s2);
        },
    }
}

/// Once the step budget is consumed, the machine halts at once with status
/// `Timeout` and the counters unchanged.
pub proof fn lemma_budget_exhausted(prog: Seq<Seq<Option<Instruction>>>, max_steps: nat, s: MState)
    requires
        s.m.steps >= max_steps,
    ensures
        spec_run(prog, max_steps, s) == (ExecutionStatus::Timeout, s.m),
{
}

/// The initial state of any puzzle and program is well-formed.
pub proof fn lemma_init_wf(p: PuzzleV, prog: Seq<Seq<Option<Instruction>>>, max_steps: nat)
    requires
        p.wf(),
    ensures
        state_wf(init_state(p, prog), max_steps),
{
}

} // verus!
