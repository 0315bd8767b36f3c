//! The bounded program executor, proved to return exactly what the machine
//! semantics in `machine` compute.

use vstd::prelude::*;
use vstd::pervasive::VecAdditionalExecFns;

use crate::machine::{
    init_state, key_of, key_parts, lemma_init_wf, lemma_run_bounds, lemma_run_pops_bounded,
    lemma_step_preserves_wf, lemma_step_shape, max_func_len, prog_bounded, push_rev,
    restart_if_empty, spec_dispatch, spec_execute, spec_paint, spec_run, spec_run_pops, spec_step,
    state_wf, ExecutionStatus, Frame, MState, SpecMetrics, StateKey, StepOut,
};
use crate::puzzle::{
    color_at, grid_view, grid_wf, lemma_grid_stars_elem, lemma_row_stars_elem,
    spec_count_instructions, spec_count_stars, star1, tile_at, Direction, Instruction,
    InstructionType, Position, Program, PuzzleConfig, PuzzleV, Tile, TileColor,
};
use crate::stack::{stack_get, stack_len, stack_model, stack_new, stack_pop, stack_push, FrameStack};

verus! {

/// The counters collected during one execution.
#[derive(Clone, Copy, Debug, PartialEq, Eq, Structural)]
pub struct ExecutionMetrics {
    /// Charged steps.
    pub steps: usize,
    /// Filled instruction slots of the program (a static count).
    pub instructions: usize,
    /// Peak call-stack depth.
    pub max_stack_depth: usize,
    /// Conditional instructions whose condition matched and fired.
    pub conditionals_executed: usize,
    /// Calls of a non-empty function.
    pub functions_called: usize,
    /// Distinct tiles the robot has stood on.
    pub tiles_visited: usize,
    /// Stars collected.
    pub stars_collected: usize,
    /// Stars on the grid at the start.
    pub total_stars: usize,
    /// Paint instructions that painted a tile.
    pub paints_executed: usize,
}

impl View for ExecutionMetrics {
    type V = SpecMetrics;

    open spec fn view(&self) -> SpecMetrics {
        SpecMetrics {
            steps: self.steps as nat,
            instructions: self.instructions as nat,
            max_stack_depth: self.max_stack_depth as nat,
            conditionals_executed: self.conditionals_executed as nat,
            functions_called: self.functions_called as nat,
            tiles_visited: self.tiles_visited as nat,
            stars_collected: self.stars_collected as nat,
            total_stars: self.total_stars as nat,
            paints_executed: self.paints_executed as nat,
        }
    }
}

impl Default for ExecutionMetrics {
    /// All counters zero.
    fn default() -> (r: Self)
        ensures
            r == (ExecutionMetrics {
                steps: 0,
                instructions: 0,
                max_stack_depth: 0,
                conditionals_executed: 0,
                functions_called: 0,
                tiles_visited: 0,
                stars_collected: 0,
                total_stars: 0,
                paints_executed: 0,
            }),
    {
        ExecutionMetrics {
            steps: 0,
            instructions: 0,
            max_stack_depth: 0,
            conditionals_executed: 0,
            functions_called: 0,
            tiles_visited: 0,
            stars_collected: 0,
            total_stars: 0,
            paints_executed: 0,
        }
    }
}

/// The outcome of running a program: a terminal status, the counters, and
/// whether the puzzle was solved.
#[derive(Clone, Copy, Debug)]
pub struct ExecutionResult {
    pub status: ExecutionStatus,
    pub metrics: ExecutionMetrics,
    pub solved: bool,
}

/// What `execute` promises: its result is exactly what the machine
/// semantics compute, and `solved` agrees with the status.
pub open spec fn execute_post(
    p: PuzzleV,
    prog: Seq<Seq<Option<Instruction>>>,
    max_steps: nat,
    r: ExecutionResult,
) -> bool {
    &&& r.status == spec_execute(p, prog, max_steps).0
    &&& r.metrics@ == spec_execute(p, prog, max_steps).1
    &&& r.solved == (r.status == ExecutionStatus::Solved)
}

/// Two executions of the same program on the same puzzle under the same
/// budget return the same result.
pub proof fn lemma_execute_deterministic(
    p: PuzzleV,
    prog: Seq<Seq<Option<Instruction>>>,
    max_steps: nat,
    r1: ExecutionResult,
    r2: ExecutionResult,
)
    requires
        execute_post(p, prog, max_steps, r1),
        execute_post(p, prog, max_steps, r2),
    ensures
        r1.status == r2.status,
        r1.metrics@ == r2.metrics@,
        r1.solved == r2.solved,
{
}

/// The counters of any execution are bounded: steps by the budget, the peak
/// stack depth by the cap of 256, stars collected by the stars present; at
/// least the start tile is visited, and the instruction count is the static
/// count of filled slots.
pub proof fn lemma_execute_bounds(
    p: PuzzleV,
    prog: Seq<Seq<Option<Instruction>>>,
    max_steps: nat,
    r: ExecutionResult,
)
    requires
        p.wf(),
        execute_post(p, prog, max_steps, r),
    ensures
        r.metrics@.steps <= max_steps,
        r.metrics@.max_stack_depth <= 256,
        r.metrics@.stars_collected <= r.metrics@.total_stars,
        r.metrics@.tiles_visited >= 1,
        r.metrics@.instructions == spec_count_instructions(prog),
{
    lemma_init_wf(p, prog, max_steps);
    lemma_run_bounds(prog, max_steps, init_state(p, prog));
}

/// The work of an execution is bounded by its budget: the run from the
/// initial state performs at most `max_steps` times the longest function
/// body, plus the main function's length, frame pops in all.  Once the
/// budget is consumed the machine pops nothing more
/// (`lemma_budget_exhausted_pops`), and the cycle-detection set never
/// holds more than `steps / 16 + 1` sampled keys (`lemma_seen_set_bounded`).
pub proof fn lemma_execute_work_bounded(
    p: PuzzleV,
    prog: Seq<Seq<Option<Instruction>>>,
    max_steps: nat,
)
    requires
        p.wf(),
    ensures
        spec_run_pops(prog, max_steps, init_state(p, prog)) <= max_steps * max_func_len(prog)
            + prog[0].len(),
{
    lemma_init_wf(p, prog, max_steps);
    lemma_run_pops_bounded(prog, max_steps, init_state(p, prog));
}

/// The mutable grid state owned by one execution.
struct GridState {
    tiles: Vec<Vec<Option<Tile>>>,
    position: Position,
    direction: Direction,
    stars_remaining: usize,
}

/// The mathematical view of a `GridState`.
#[verifier::ext_equal]
pub ghost struct GridStateV {
    pub grid: Seq<Seq<Option<Tile>>>,
    pub pos: Position,
    pub dir: Direction,
    pub stars: nat,
}

impl View for GridState {
    type V = GridStateV;

    closed spec fn view(&self) -> GridStateV {
        GridStateV {
            grid: grid_view(self.tiles@),
            pos: self.position,
            dir: self.direction,
            stars: self.stars_remaining as nat,
        }
    }
}

/// The machine state that the executor's concrete pieces stand for.
pub open spec fn abs_state(
    g: GridStateV,
    stackm: Seq<(usize, usize)>,
    visited: Seq<Position>,
    seen: Seq<StateKey>,
    m: SpecMetrics,
) -> MState {
    MState {
        grid: g.grid,
        pos: g.pos,
        dir: g.dir,
        stars: g.stars,
        stack: stackm,
        visited,
        seen,
        m,
    }
}

/// A copy of a vector of copyable elements.
fn copy_vec<T: Copy>(src: &Vec<T>) -> (v: Vec<T>)
    ensures
        v@ == src@,
{
    let mut v: Vec<T> = Vec::new();
    let mut k: usize = 0;
    while k < src.len()
        invariant
            k <= src.len(),
            v@ =~= src@.take(k as int),
        decreases src.len() - k,
    {
        v.push(src[k]);
        k = k + 1;
    }
    proof {
        assert(v@ =~= src@);
    }
    v
}

impl GridState {
    /// The puzzle's grid and robot pose, copied for one execution.
    fn from_puzzle(puzzle: &PuzzleConfig) -> (s: GridState)
        requires
            spec_count_stars(puzzle@.grid) <= usize::MAX,
        ensures
            s@.grid == puzzle@.grid,
            s@.pos == puzzle@.start,
            s@.dir == puzzle@.dir,
            s@.stars == spec_count_stars(puzzle@.grid),
    {
        let mut tiles: Vec<Vec<Option<Tile>>> = Vec::new();
        let mut y: usize = 0;
        while y < puzzle.grid.len()
            invariant
                y <= puzzle.grid@.len(),
                tiles@.len() == y,
                forall|k: int| 0 <= k < y ==> #[trigger] tiles@[k]@ == puzzle.grid@[k]@,
            decreases puzzle.grid.len() - y,
        {
            let row = copy_vec(&puzzle.grid[y]);
            tiles.push(row);
            y = y + 1;
        }
        let stars_remaining = puzzle.count_stars();
        let s = GridState {
            tiles,
            position: puzzle.robot_start.position,
            direction: puzzle.robot_start.direction,
            stars_remaining,
        };
        proof {
            assert(s@.grid =~= puzzle@.grid);
        }
        s
    }

    /// The tile at wide coordinates, or `None` off the grid.
    fn tile_i64(&self, x: i64, y: i64) -> (r: Option<Tile>)
        requires
            grid_wf(self@.grid),
        ensures
            r == tile_at(self@.grid, x as int, y as int),
    {
        if x < 0 || y < 0 {
            return None;
        }
        let yy = y as u64;
        let xx = x as u64;
        if yy < self.tiles.len() as u64 {
            let row = &self.tiles[yy as usize];
            if xx < row.len() as u64 {
                return row[xx as usize];
            }
        }
        None
    }

    /// The colour of the tile under the robot, if any.
    fn current_color(&self) -> (r: Option<TileColor>)
        requires
            grid_wf(self@.grid),
        ensures
            r == color_at(self@.grid, self@.pos.x as int, self@.pos.y as int),
    {
        match self.tile_i64(self.position.x as i64, self.position.y as i64) {
            Some(t) => t.color,
            None => None,
        }
    }

    /// Overwrite one tile.
    fn set_tile(&mut self, x: usize, y: usize, t: Tile)
        requires
            y < old(self)@.grid.len(),
            x < old(self)@.grid[y as int].len(),
        ensures
            final(self)@.grid =~= old(self)@.grid.update(
                y as int,
                old(self)@.grid[y as int].update(x as int, Some(t)),
            ),
            final(self)@.pos == old(self)@.pos,
            final(self)@.dir == old(self)@.dir,
            final(self)@.stars == old(self)@.stars,
    {
        let row = &mut self.tiles[y];
        row.set(x, Some(t));
    }
}

/// Whether a position is among those already visited.
fn contains_pos(v: &Vec<Position>, p: Position) -> (r: bool)
    ensures
        r == v@.contains(p),
{
    let mut k: usize = 0;
    while k < v.len()
        invariant
            k <= v@.len(),
            forall|j: int| 0 <= j < k ==> v@[j] != p,
        decreases v.len() - k,
    {
        if v[k] == p {
            proof {
                assert(v@[k as int] == p);
            }
            return true;
        }
        k = k + 1;
    }
    false
}

/// Whether a state key is among those already sampled.
fn seen_contains(v: &Vec<StateKey>, key: &StateKey) -> (r: bool)
    ensures
        r == v@.contains(*key),
{
    let mut k: usize = 0;
    while k < v.len()
        invariant
            k <= v@.len(),
            forall|j: int| 0 <= j < k ==> v@[j] != *key,
        decreases v.len() - k,
    {
        if v[k] == *key {
            proof {
                assert(v@[k as int] == *key);
            }
            return true;
        }
        k = k + 1;
    }
    false
}

/// The sampled key of the current state: robot pose, stars remaining, the
/// top four stack frames and the stack depth.
fn make_key(state: &GridState, stack: &FrameStack) -> (k: StateKey)
    ensures
        k == key_parts(state@.pos, state@.dir, state@.stars, stack_model(*stack)),
{
    let depth = stack_len(stack);
    let top0 = if depth >= 1 {
        let f = stack_get(stack, depth - 1);
        Some(Frame { func: f.0, slot: f.1 })
    } else {
        None
    };
    let top1 = if depth >= 2 {
        let f = stack_get(stack, depth - 2);
        Some(Frame { func: f.0, slot: f.1 })
    } else {
        None
    };
    let top2 = if depth >= 3 {
        let f = stack_get(stack, depth - 3);
        Some(Frame { func: f.0, slot: f.1 })
    } else {
        None
    };
    let top3 = if depth >= 4 {
        let f = stack_get(stack, depth - 4);
        Some(Frame { func: f.0, slot: f.1 })
    } else {
        None
    };
    StateKey {
        x: state.position.x,
        y: state.position.y,
        dir: state.direction,
        stars: state.stars_remaining,
        depth,
        top0,
        top1,
        top2,
        top3,
    }
}

/// Push the slots of function `func`, highest slot first, so that slot 0
/// ends on top.
#[verifier::loop_isolation(false)]
fn push_frames(stack: &mut FrameStack, func: usize, len: usize)
    requires
        stack_model(*old(stack)).len() + len <= usize::MAX,
    ensures
        stack_model(*final(stack)) == push_rev(stack_model(*old(stack)), func, len as nat),
{
    let mut i = len;
    while i > 0
        invariant
            i <= len,
            stack_model(*stack) =~= stack_model(*old(stack)) + Seq::new(
                (len - i) as nat,
                |k: int| (func, (len - 1 - k) as usize),
            ),
        decreases i,
    {
        i = i - 1;
        stack_push(stack, (func, i));
        proof {
            assert(stack_model(*stack) =~= stack_model(*old(stack)) + Seq::new(
                (len - i) as nat,
                |k: int| (func, (len - 1 - k) as usize),
            ));
        }
    }
    proof {
        assert(stack_model(*stack) =~= push_rev(stack_model(*old(stack)), func, len as nat));
    }
}

/// Apply one charged instruction to the concrete state, then re-push the
/// main function if the stack has drained.  Returns the terminal result if
/// the instruction halts execution.  The effect is exactly the machine's
/// `spec_dispatch` on the abstracted state.
#[verifier::loop_isolation(false)]
#[verifier::rlimit(100)]
fn apply_instruction(
    program: &Program,
    state: &mut GridState,
    metrics: &mut ExecutionMetrics,
    stack: &mut FrameStack,
    visited: &mut Vec<Position>,
    instruction: Instruction,
    max_steps: usize,
    Ghost(seen): Ghost<Seq<StateKey>>,
) -> (done: Option<ExecutionResult>)
    requires
        prog_bounded(program@),
        state_wf(
            abs_state(
                old(state)@,
                stack_model(*old(stack)),
                old(visited)@,
                seen,
                old(metrics)@,
            ),
            max_steps as nat,
        ),
        old(metrics)@.functions_called + 1 <= old(metrics)@.steps,
        old(metrics)@.paints_executed + 1 <= old(metrics)@.steps,
        stack_model(*old(stack)).len() <= 255,
    ensures
        ({
            let s3 = abs_state(
                old(state)@,
                stack_model(*old(stack)),
                old(visited)@,
                seen,
                old(metrics)@,
            );
            let s_end = abs_state(
                final(state)@,
                stack_model(*final(stack)),
                final(visited)@,
                seen,
                final(metrics)@,
            );
            match done {
                Some(r) => spec_dispatch(program@, s3, instruction) == StepOut::Done(
                    r.status,
                    r.metrics@,
                ) && r.metrics == *final(metrics) && r.solved == (r.status
                    == ExecutionStatus::Solved),
                None => spec_dispatch(program@, s3, instruction) == StepOut::Next(s_end),
            }
        }),
{
    let ghost progv = program@;
    let ghost s3 = abs_state(state@, stack_model(*stack), visited@, seen, metrics@);

    match instruction.instruction_type {
        InstructionType::Forward => {
            let (dx, dy) = state.direction.delta();
            let nx = state.position.x as i64 + dx as i64;
            let ny = state.position.y as i64 + dy as i64;
            let t_opt = state.tile_i64(nx, ny);
            match t_opt {
                None => {
                    proof {
                        assert(spec_dispatch(progv, s3, instruction) == StepOut::Done(
                            ExecutionStatus::Fell,
                            metrics@,
                        ));
                    }
                    return Some(
                        ExecutionResult { status: ExecutionStatus::Fell, metrics: *metrics, solved: false },
                    );
                },
                Some(tile) => {
                    proof {
                        assert(0 <= (ny as int) && (ny as int) < s3.grid.len());
                        assert(0 <= (nx as int) && (nx as int) < s3.grid[ny as int].len());
                        assert(s3.grid.len() <= i32::MAX);
                        assert(s3.grid[ny as int].len() <= i32::MAX);
                    }
                    let new_pos = Position::new(nx as i32, ny as i32);
                    state.position = new_pos;
                    if !contains_pos(visited, new_pos) {
                        visited.push(new_pos);
                        metrics.tiles_visited = visited.len();
                    }
                    if tile.has_star {
                        proof {
                            lemma_row_stars_elem(s3.grid[ny as int], nx as int);
                            lemma_grid_stars_elem(s3.grid, ny as int);
                            assert(star1(s3.grid[ny as int][nx as int]) == 1);
                            assert(s3.stars >= 1);
                        }
                        state.set_tile(
                            nx as usize,
                            ny as usize,
                            Tile { color: tile.color, has_star: false },
                        );
                        state.stars_remaining = state.stars_remaining - 1;
                        metrics.stars_collected = metrics.stars_collected + 1;
                        if state.stars_remaining == 0 {
                            proof {
                                assert(spec_dispatch(progv, s3, instruction) == StepOut::Done(
                                    ExecutionStatus::Solved,
                                    metrics@,
                                ));
                            }
                            return Some(
                                ExecutionResult {
                                    status: ExecutionStatus::Solved,
                                    metrics: *metrics,
                                    solved: true,
                                },
                            );
                        }
                    }
                },
            }
        },
        InstructionType::Left => {
            state.direction = state.direction.turn_left();
        },
        InstructionType::Right => {
            state.direction = state.direction.turn_right();
        },
        InstructionType::F1
        | InstructionType::F2
        | InstructionType::F3
        | InstructionType::F4
        | InstructionType::F5 => {
            let target = match instruction.instruction_type.function_index() {
                Some(t) => t,
                None => {
                    proof {
                        assert(false);
                    }
                    0usize
                },
            };
            let func_len = program.get_function(target).len();
            if func_len > 0 {
                proof {
                    assert(metrics.functions_called < metrics.steps);
                    assert(func_len <= usize::MAX - 257);
                }
                metrics.functions_called = metrics.functions_called + 1;
                push_frames(stack, target, func_len);
                proof {
                    assert(abs_state(state@, stack_model(*stack), visited@, seen, metrics@)
                        =~= MState {
                        stack: push_rev(s3.stack, target, progv[target as int].len()),
                        m: SpecMetrics { functions_called: s3.m.functions_called + 1, ..s3.m },
                        ..s3
                    });
                }
            }
        },
        InstructionType::PaintRed => {
            paint_current(state, metrics, TileColor::Red);
            proof {
                assert(spec_dispatch(progv, s3, instruction) == spec_paint(
                    progv,
                    s3,
                    TileColor::Red,
                ));
            }
        },
        InstructionType::PaintGreen => {
            paint_current(state, metrics, TileColor::Green);
        },
        InstructionType::PaintBlue => {
            paint_current(state, metrics, TileColor::Blue);
        },
        InstructionType::Noop => {},
    }

    let ghost s4 = abs_state(state@, stack_model(*stack), visited@, seen, metrics@);
    proof {
        assert(spec_dispatch(progv, s3, instruction) == StepOut::Next(restart_if_empty(progv, s4)));
    }

    let after_depth = stack_len(stack);
    if after_depth == 0 {
        let l1 = program.f1.len();
        if l1 > 0 {
            push_frames(stack, 0, l1);
        }
    }
    proof {
        assert(abs_state(state@, stack_model(*stack), visited@, seen, metrics@)
            =~= restart_if_empty(progv, s4));
    }
    None
}

/// Execute a program on a puzzle with a bounded step budget.
///
/// The interpreter inlines function calls onto a frame stack; the main
/// function is re-pushed whenever the stack drains after a charged step.
/// Execution halts only with one of the five terminal statuses, and the
/// result is exactly what the machine semantics `spec_execute` compute.
#[verifier::loop_isolation(false)]
#[verifier::rlimit(100)]
pub fn execute(puzzle: &PuzzleConfig, program: &Program, max_steps: usize) -> (r: ExecutionResult)
    requires
        puzzle@.wf(),
        prog_bounded(program@),
    ensures
        execute_post(puzzle@, program@, max_steps as nat, r),
{
    let ghost pv = puzzle@;
    let ghost progv = program@;
    let ghost maxn = max_steps as nat;

    let mut state = GridState::from_puzzle(puzzle);
    let total_stars = state.stars_remaining;

    let mut metrics = ExecutionMetrics {
        steps: 0,
        instructions: program.count_instructions(),
        max_stack_depth: 0,
        conditionals_executed: 0,
        functions_called: 0,
        tiles_visited: 1,
        stars_collected: 0,
        total_stars,
        paints_executed: 0,
    };

    let mut visited: Vec<Position> = Vec::new();
    visited.push(state.position);

    let mut stack = stack_new();
    let f1_len = program.f1.len();
    if f1_len > 0 {
        push_frames(&mut stack, 0, f1_len);
    }
    let mut seen: Vec<StateKey> = Vec::new();

    proof {
        if f1_len == 0 {
            assert(stack_model(stack) =~= push_rev(Seq::empty(), 0, progv[0].len()));
        }
        assert(abs_state(state@, stack_model(stack), visited@, seen@, metrics@) =~= init_state(
            pv,
            progv,
        ));
        lemma_init_wf(pv, progv, maxn);
    }

    loop
        invariant
            state_wf(abs_state(state@, stack_model(stack), visited@, seen@, metrics@), maxn),
            spec_run(
                progv,
                maxn,
                abs_state(state@, stack_model(stack), visited@, seen@, metrics@),
            ) == spec_run(progv, maxn, init_state(pv, progv)),
        decreases maxn - metrics.steps, stack_model(stack).len(),
    {
        let ghost s0 = abs_state(state@, stack_model(stack), visited@, seen@, metrics@);
        proof {
            lemma_step_preserves_wf(progv, maxn, s0);
            lemma_step_shape(progv, maxn, s0);
        }

        let depth = stack_len(&stack);
        if depth == 0 {
            proof {
                assert(spec_run(progv, maxn, s0) == (ExecutionStatus::Timeout, metrics@));
            }
            return ExecutionResult { status: ExecutionStatus::Timeout, metrics, solved: false };
        }
        if metrics.steps >= max_steps {
            proof {
                assert(spec_run(progv, maxn, s0) == (ExecutionStatus::Timeout, metrics@));
            }
            return ExecutionResult { status: ExecutionStatus::Timeout, metrics, solved: false };
        }
        if depth > 256 {
            proof {
                assert(spec_run(progv, maxn, s0) == (ExecutionStatus::StackOverflow, metrics@));
            }
            return ExecutionResult {
                status: ExecutionStatus::StackOverflow,
                metrics,
                solved: false,
            };
        }

        if depth > metrics.max_stack_depth {
            metrics.max_stack_depth = depth;
        }

        let fr = match stack_pop(&mut stack) {
            Some(f) => f,
            None => {
                proof {
                    assert(false);
                }
                (0usize, 0usize)
            },
        };
        let ghost s1 = MState { stack: s0.stack.drop_last(), m: metrics@, ..s0 };
        proof {
            assert(abs_state(state@, stack_model(stack), visited@, seen@, metrics@) =~= s1);
        }

        let instruction = match program.get(fr.0, fr.1) {
            Some(inst) => inst,
            None => {
                proof {
                    assert(spec_step(progv, maxn, s0) == StepOut::Next(s1));
                    assert(spec_run(progv, maxn, s1) == spec_run(progv, maxn, init_state(
                        pv,
                        progv,
                    )));
                }
                continue;
            },
        };

        let current_color = state.current_color();
        if !instruction.should_execute(current_color) {
            proof {
                assert(spec_step(progv, maxn, s0) == StepOut::Next(s1));
                assert(spec_run(progv, maxn, s1) == spec_run(progv, maxn, init_state(pv, progv)));
            }
            continue;
        }

        if instruction.condition.is_some() {
            proof {
                assert(metrics.conditionals_executed <= metrics.steps < max_steps);
            }
            metrics.conditionals_executed = metrics.conditionals_executed + 1;
        }
        let ghost s2 = MState { m: metrics@, ..s1 };
        proof {
            assert(abs_state(state@, stack_model(stack), visited@, seen@, metrics@) =~= s2);
        }

        if metrics.steps % 16 == 0 {
            let key = make_key(&state, &stack);
            proof {
                assert(key == key_of(s2));
            }
            if seen_contains(&seen, &key) {
                proof {
                    assert(spec_step(progv, maxn, s0) == StepOut::Done(
                        ExecutionStatus::Cycle,
                        metrics@,
                    ));
                    assert(spec_run(progv, maxn, s0) == (ExecutionStatus::Cycle, metrics@));
                }
                return ExecutionResult { status: ExecutionStatus::Cycle, metrics, solved: false };
            }
            seen.push(key);
        }
        metrics.steps = metrics.steps + 1;
        let ghost s3 = abs_state(state@, stack_model(stack), visited@, seen@, metrics@);
        proof {
            let key_g = key_of(s2);
            let seen2 = if s2.m.steps % 16 == 0 {
                s2.seen.push(key_g)
            } else {
                s2.seen
            };
            let s3spec = MState {
                seen: seen2,
                m: SpecMetrics { steps: s2.m.steps + 1, ..s2.m },
                ..s2
            };
            assert(s3 =~= s3spec);
            assert(spec_step(progv, maxn, s0) == spec_dispatch(progv, s3spec, instruction));
            assert(spec_step(progv, maxn, s0) == spec_dispatch(progv, s3, instruction));
            assert(state_wf(s3, maxn)) by {
                assert(s3.m.conditionals_executed <= s3.m.steps);
            }
        }

        let done = apply_instruction(
            program,
            &mut state,
            &mut metrics,
            &mut stack,
            &mut visited,
            instruction,
            max_steps,
            Ghost(seen@),
        );
        match done {
            Some(r) => {
                proof {
                    assert(spec_step(progv, maxn, s0) == StepOut::Done(r.status, r.metrics@));
                    assert(spec_run(progv, maxn, s0) == (r.status, r.metrics@));
                }
                return r;
            },
            None => {
                proof {
                    let s_end = abs_state(state@, stack_model(stack), visited@, seen@, metrics@);
                    assert(spec_step(progv, maxn, s0) == StepOut::Next(s_end));
                    assert(spec_run(progv, maxn, s_end) == spec_run(progv, maxn, init_state(
                        pv,
                        progv,
                    )));
                }
            },
        }
    }
}

/// Whether the program solves the puzzle within the standard budget of 500
/// steps.
pub fn verify_solution(puzzle: &PuzzleConfig, program: &Program) -> (r: bool)
    requires
        puzzle@.wf(),
        prog_bounded(program@),
    ensures
        r == (spec_execute(puzzle@, program@, 500).0 == ExecutionStatus::Solved),
{
    execute(puzzle, program, 500).solved
}

/// Paint the tile under the robot, if there is one, and count the paint.
#[verifier::loop_isolation(false)]
fn paint_current(state: &mut GridState, metrics: &mut ExecutionMetrics, c: TileColor)
    requires
        grid_wf(old(state)@.grid),
        old(metrics).paints_executed < usize::MAX,
    ensures
        ({
            let g = old(state)@.grid;
            let x = old(state)@.pos.x as int;
            let y = old(state)@.pos.y as int;
            match tile_at(g, x, y) {
                Some(t) => final(state)@.grid == g.update(
                    y,
                    g[y].update(x, Some(Tile { color: Some(c), has_star: t.has_star })),
                ) && final(metrics)@ == (SpecMetrics {
                    paints_executed: old(metrics)@.paints_executed + 1,
                    ..old(metrics)@
                }),
                None => final(state)@.grid == g && *final(metrics) == *old(metrics),
            }
        }),
        final(state)@.pos == old(state)@.pos,
        final(state)@.dir == old(state)@.dir,
        final(state)@.stars == old(state)@.stars,
{
    let x64 = state.position.x as i64;
    let y64 = state.position.y as i64;
    match state.tile_i64(x64, y64) {
        Some(tile) => {
            state.set_tile(
                state.position.x as usize,
                state.position.y as usize,
                Tile { color: Some(c), has_star: tile.has_star },
            );
            metrics.paints_executed = metrics.paints_executed + 1;
        },
        None => {},
    }
}

} // verus!
