//! The bounded backtracking search for trivial solutions, and the packaging
//! of its outcome.

use vstd::prelude::*;
use vstd::string::StringExecFns;

use crate::clock::{clock_elapsed_ms, clock_now};
use crate::executor::{execute, ExecutionMetrics};
use crate::machine::{prog_bounded, spec_execute, ExecutionStatus, SpecMetrics};
use crate::pruning::{get_valid_instructions_for_slot, should_reject_program, spec_should_reject};
use crate::puzzle::{
    blank_program, lemma_next_empty_in_range, spec_next_empty, FunctionLengths, Instruction,
    MinConstraints, Program, PuzzleConfig, PuzzleV, StepRatio,
};

verus! {

/// Configuration of one search run.
#[derive(Clone, Copy, Debug)]
pub struct SolverConfig {
    /// Wall-clock budget for the whole search, in milliseconds.
    pub timeout_ms: u64,
    /// Step budget of each program execution.
    pub max_steps: usize,
    /// The largest number of filled slots a candidate may grow to.
    pub max_instructions: usize,
    /// Thresholds below which a solved candidate counts as trivial.
    pub min_constraints: MinConstraints,
}

impl Default for SolverConfig {
    /// The default search budget: 15 seconds, 200 steps, 16 instructions,
    /// and the default triviality thresholds.
    fn default() -> (r: Self)
        ensures
            r.timeout_ms == 15000,
            r.max_steps == 200,
            r.max_instructions == 16,
            r.min_constraints == (MinConstraints {
                instructions: 4,
                steps: 16,
                recursion_depth: 3,
                conditionals: 2,
                step_ratio: StepRatio { num: 3, den: 1 },
            }),
    {
        Self {
            timeout_ms: 15000,
            max_steps: 200,
            max_instructions: 16,
            min_constraints: MinConstraints::default(),
        }
    }
}

/// The outcome of one search run.
#[derive(Clone, Debug)]
pub struct SolverResult {
    /// Whether the puzzle passed: no trivial solution was found.
    pub valid: bool,
    /// Whether the whole candidate space was searched.
    pub search_exhausted: bool,
    /// How many completed candidates were tested.
    pub programs_tested: usize,
    /// Wall-clock time spent, in milliseconds.
    pub time_elapsed_ms: u64,
    /// The trivial solution, when one was found.
    pub trivial_solution: Option<Program>,
    /// The metrics of the trivial solution, when one was found.
    pub trivial_metrics: Option<ExecutionMetrics>,
    /// The thresholds the trivial solution fell below, as text.
    pub reason: Option<String>,
}

/// Whether `steps / instructions` is below the exact rational threshold
/// `r`; a run of zero instructions has ratio zero.
pub open spec fn ratio_below(steps: nat, instructions: nat, r: StepRatio) -> bool {
    if instructions == 0 {
        r.num > 0
    } else {
        steps * r.den < instructions * r.num
    }
}

/// Whether the counters fall below any of the thresholds: such a solution
/// is trivial.
pub open spec fn spec_below_minimums(m: SpecMetrics, c: MinConstraints) -> bool {
    ||| m.instructions < c.instructions
    ||| m.steps < c.steps
    ||| m.max_stack_depth < c.recursion_depth
    ||| m.conditionals_executed < c.conditionals
    ||| ratio_below(m.steps, m.instructions, c.step_ratio)
}

/// Check whether the counters fall below any threshold.
pub fn is_below_minimums(metrics: &ExecutionMetrics, min: &MinConstraints) -> (r: bool)
    ensures
        r == spec_below_minimums(metrics@, *min),
{
    if metrics.instructions < min.instructions {
        return true;
    }
    if metrics.steps < min.steps {
        return true;
    }
    if metrics.max_stack_depth < min.recursion_depth {
        return true;
    }
    if metrics.conditionals_executed < min.conditionals {
        return true;
    }
    if metrics.instructions == 0 {
        return min.step_ratio.num > 0;
    }
    proof {
        assert((metrics.steps as int) * (min.step_ratio.den as int) <= (u64::MAX as int) * (
        u64::MAX as int)) by (nonlinear_arith)
            requires
                metrics.steps as int <= u64::MAX as int,
                min.step_ratio.den as int <= u64::MAX as int,
                metrics.steps >= 0,
                min.step_ratio.den >= 0,
        ;
        assert((metrics.instructions as int) * (min.step_ratio.num as int) <= (u64::MAX as int) * (
        u64::MAX as int)) by (nonlinear_arith)
            requires
                metrics.instructions as int <= u64::MAX as int,
                min.step_ratio.num as int <= u64::MAX as int,
                metrics.instructions >= 0,
                min.step_ratio.num >= 0,
        ;
    }
    let lhs = (metrics.steps as u128) * (min.step_ratio.den as u128);
    let rhs = (metrics.instructions as u128) * (min.step_ratio.num as u128);
    lhs < rhs
}

/// The decimal digit as a character.
pub open spec fn digit_char(d: nat) -> char {
    if d == 0 {
        '0'
    } else if d == 1 {
        '1'
    } else if d == 2 {
        '2'
    } else if d == 3 {
        '3'
    } else if d == 4 {
        '4'
    } else if d == 5 {
        '5'
    } else if d == 6 {
        '6'
    } else if d == 7 {
        '7'
    } else if d == 8 {
        '8'
    } else {
        '9'
    }
}

/// The decimal digits of a number, most significant first.
pub open spec fn spec_decimal(n: nat) -> Seq<char>
    decreases n,
{
    if n < 10 {
        seq![digit_char(n)]
    } else {
        spec_decimal(n / 10) + seq![digit_char(n % 10)]
    }
}

/// One decimal digit as text.
fn digit_str(d: u64) -> (s: &'static str)
    requires
        d < 10,
    ensures
        s@ == seq![digit_char(d as nat)],
{
    let s: &'static str = match d {
        0 => "0",
        1 => "1",
        2 => "2",
        3 => "3",
        4 => "4",
        5 => "5",
        6 => "6",
        7 => "7",
        8 => "8",
        _ => "9",
    };
    proof {
        reveal_strlit("0");
        reveal_strlit("1");
        reveal_strlit("2");
        reveal_strlit("3");
        reveal_strlit("4");
        reveal_strlit("5");
        reveal_strlit("6");
        reveal_strlit("7");
        reveal_strlit("8");
        reveal_strlit("9");
        assert(s@ =~= seq![digit_char(d as nat)]);
    }
    s
}

/// A number in decimal.
fn decimal_string(n: u64) -> (s: String)
    ensures
        s@ == spec_decimal(n as nat),
    decreases n,
{
    if n < 10 {
        String::from_str(digit_str(n))
    } else {
        let rest = decimal_string(n / 10);
        rest.concat(digit_str(n % 10))
    }
}

/// Append one more failed threshold to the reason text, with a separating
/// comma when something already stands there.
pub open spec fn join_part(acc: Seq<char>, any: bool, part: Seq<char>) -> Seq<char> {
    if any {
        acc + ", "@ + part
    } else {
        part
    }
}

/// One failed count threshold as text: the label, the value, `<`, the
/// minimum.
pub open spec fn part_count(label: Seq<char>, got: nat, min: nat) -> Seq<char> {
    label + spec_decimal(got) + " < "@ + spec_decimal(min)
}

/// The failed ratio threshold as text: both sides as exact fractions.
pub open spec fn part_ratio(m: SpecMetrics, c: MinConstraints) -> Seq<char> {
    "step_ratio "@ + spec_decimal(m.steps) + "/"@ + spec_decimal(m.instructions) + " < "@
        + spec_decimal(c.step_ratio.num as nat) + "/"@ + spec_decimal(c.step_ratio.den as nat)
}

/// The reason text for a trivial solution: every threshold it fell below,
/// comma-separated, or `unknown` if none actually failed.
pub open spec fn spec_reason(m: SpecMetrics, c: MinConstraints) -> Seq<char> {
    let s0 = Seq::<char>::empty();
    let c1 = m.instructions < c.instructions;
    let s1 = if c1 {
        join_part(s0, false, part_count("instructions "@, m.instructions, c.instructions as nat))
    } else {
        s0
    };
    let a1 = c1;
    let c2 = m.steps < c.steps;
    let s2 = if c2 {
        join_part(s1, a1, part_count("steps "@, m.steps, c.steps as nat))
    } else {
        s1
    };
    let a2 = a1 || c2;
    let c3 = m.max_stack_depth < c.recursion_depth;
    let s3 = if c3 {
        join_part(s2, a2, part_count("recursion_depth "@, m.max_stack_depth, c.recursion_depth as nat))
    } else {
        s2
    };
    let a3 = a2 || c3;
    let c4 = m.conditionals_executed < c.conditionals;
    let s4 = if c4 {
        join_part(s3, a3, part_count("conditionals "@, m.conditionals_executed, c.conditionals as nat))
    } else {
        s3
    };
    let a4 = a3 || c4;
    let c5 = ratio_below(m.steps, m.instructions, c.step_ratio);
    let s5 = if c5 {
        join_part(s4, a4, part_ratio(m, c))
    } else {
        s4
    };
    let a5 = a4 || c5;
    if a5 {
        s5
    } else {
        "unknown"@
    }
}

/// Join one more part onto the reason text.
fn append_part(acc: String, any: bool, part: String) -> (s: String)
    ensures
        s@ == join_part(acc@, any, part@),
{
    if any {
        acc.concat(", ").concat(part.as_str())
    } else {
        part
    }
}

/// One failed count threshold as text.
fn format_count(label: &str, got: usize, min_v: usize) -> (s: String)
    ensures
        s@ == part_count(label@, got as nat, min_v as nat),
{
    let a = String::from_str(label);
    let b = a.concat(decimal_string(got as u64).as_str());
    let c = b.concat(" < ");
    c.concat(decimal_string(min_v as u64).as_str())
}

/// The text naming every threshold a trivial solution fell below.
fn format_trivial_reason(metrics: &ExecutionMetrics, min: &MinConstraints) -> (s: String)
    ensures
        s@ == spec_reason(metrics@, *min),
{
    let mut reason = String::new();
    let mut any = false;

    if metrics.instructions < min.instructions {
        reason = append_part(reason, any, format_count(
            "instructions ",
            metrics.instructions,
            min.instructions,
        ));
        any = true;
    }
    if metrics.steps < min.steps {
        reason = append_part(reason, any, format_count("steps ", metrics.steps, min.steps));
        any = true;
    }
    if metrics.max_stack_depth < min.recursion_depth {
        reason = append_part(reason, any, format_count(
            "recursion_depth ",
            metrics.max_stack_depth,
            min.recursion_depth,
        ));
        any = true;
    }
    if metrics.conditionals_executed < min.conditionals {
        reason = append_part(reason, any, format_count(
            "conditionals ",
            metrics.conditionals_executed,
            min.conditionals,
        ));
        any = true;
    }

    let ratio_is_below: bool = if metrics.instructions == 0 {
        min.step_ratio.num > 0
    } else {
        proof {
            assert((metrics.steps as int) * (min.step_ratio.den as int) <= (u64::MAX as int) * (
            u64::MAX as int)) by (nonlinear_arith)
                requires
                    metrics.steps as int <= u64::MAX as int,
                    min.step_ratio.den as int <= u64::MAX as int,
                    metrics.steps >= 0,
                    min.step_ratio.den >= 0,
            ;
            assert((metrics.instructions as int) * (min.step_ratio.num as int) <= (u64::MAX
                as int) * (u64::MAX as int)) by (nonlinear_arith)
                requires
                    metrics.instructions as int <= u64::MAX as int,
                    min.step_ratio.num as int <= u64::MAX as int,
                    metrics.instructions >= 0,
                    min.step_ratio.num >= 0,
            ;
        }
        let lhs = (metrics.steps as u128) * (min.step_ratio.den as u128);
        let rhs = (metrics.instructions as u128) * (min.step_ratio.num as u128);
        lhs < rhs
    };
    proof {
        assert(ratio_is_below == ratio_below(metrics@.steps, metrics@.instructions, min.step_ratio));
    }
    if ratio_is_below {
        let a = String::from_str("step_ratio ");
        let b = a.concat(decimal_string(metrics.steps as u64).as_str());
        let c = b.concat("/");
        let d = c.concat(decimal_string(metrics.instructions as u64).as_str());
        let e = d.concat(" < ");
        let f = e.concat(decimal_string(min.step_ratio.num).as_str());
        let g = f.concat("/");
        let part = g.concat(decimal_string(min.step_ratio.den).as_str());
        reason = append_part(reason, any, part);
        any = true;
    }

    if !any {
        return String::from_str("unknown");
    }
    reason
}

/// A search node: a partial program and the next slot the search will
/// decide, when one is left.
struct SearchFrame {
    program: Program,
    next_slot: Option<(usize, usize)>,
}

impl SearchFrame {
    /// The root node: a blank program shaped to the puzzle's budgets.
    fn new(puzzle: &PuzzleConfig) -> (r: Self)
        ensures
            r.program@ == blank_program(puzzle@.lengths),
            r.next_slot == spec_next_empty(r.program@, 0, 0),
    {
        let program = Program::with_lengths(&puzzle.function_lengths);
        let next_slot = program.find_empty_slot();
        SearchFrame { program, next_slot }
    }

    /// A node for a freshly written program, pointed at its first empty
    /// slot.
    fn with_program(program: Program) -> (r: Self)
        ensures
            r.program == program,
            r.next_slot == spec_next_empty(program@, 0, 0),
    {
        let next_slot = program.find_empty_slot();
        SearchFrame { program, next_slot }
    }
}

/// Function budgets that, all together, leave room for the executor's frame
/// stack.
pub open spec fn lengths_bounded(l: FunctionLengths) -> bool {
    l.f1 + l.f2 + l.f3 + l.f4 + l.f5 <= usize::MAX - 257
}

/// Whether a program is shaped to the given budgets.
pub open spec fn prog_shape(q: Seq<Seq<Option<Instruction>>>, l: FunctionLengths) -> bool {
    &&& q.len() == 5
    &&& forall|k: int| 0 <= k < 5 ==> (#[trigger] q[k].len()) == l.spec_get(k)
}

/// What `find_trivial_solution` promises.  When the verdict is `invalid`,
/// the reported program really is shaped to the puzzle with every slot
/// decided (no empty slot is left), survives the pruner, solves the puzzle
/// under the configured step budget with exactly the reported counters,
/// falls below the thresholds, and the reason text names the thresholds it
/// fell below.  A `valid` verdict carries no
/// program; exhaustion is only ever reported with a `valid` verdict.
pub open spec fn find_post(p: PuzzleV, config: SolverConfig, r: SolverResult) -> bool {
    &&& (r.search_exhausted ==> r.valid)
    &&& (r.valid ==> r.trivial_solution is None && r.trivial_metrics is None && r.reason is None)
    &&& (!r.valid ==> {
        &&& !r.search_exhausted
        &&& r.programs_tested >= 1
        &&& r.trivial_solution matches Some(q) && prog_shape(q@, p.lengths)
            && spec_next_empty(q@, 0, 0) is None && !spec_should_reject(q@, p)
            && spec_execute(p, q@, config.max_steps as nat).0
            == ExecutionStatus::Solved && (r.trivial_metrics matches Some(m) && m@ == spec_execute(
            p,
            q@,
            config.max_steps as nat,
        ).1 && spec_below_minimums(m@, config.min_constraints) && (r.reason matches Some(why)
            && why@ == spec_reason(m@, config.min_constraints)))
    })
}

/// A structurally rejected program is never the one a search reports as a
/// trivial solution.
pub proof fn lemma_reject_never_reported(
    p: PuzzleV,
    config: SolverConfig,
    r: SolverResult,
    q: Program,
)
    requires
        find_post(p, config, r),
        spec_should_reject(q@, p),
    ensures
        r.trivial_solution matches Some(sol) ==> sol@ != q@,
{
}

/// Search for a trivial solution by depth-first backtracking over the next
/// empty slot of a partial program, pruning structurally rejected
/// candidates, and stopping at the first solved candidate whose counters
/// fall below the thresholds.
///
/// A wall-clock timeout ends the search with a `valid` verdict; a hard
/// iteration budget, far beyond anything the timeout admits, makes
/// termination provable.
#[verifier::loop_isolation(false)]
#[verifier::rlimit(60)]
pub fn find_trivial_solution(puzzle: &PuzzleConfig, config: &SolverConfig) -> (r: SolverResult)
    requires
        puzzle@.wf(),
        lengths_bounded(puzzle@.lengths),
    ensures
        find_post(puzzle@, *config, r),
{
    let start_time = clock_now();
    let mut programs_tested: usize = 0;

    let mut queue: Vec<SearchFrame> = Vec::new();
    let root = SearchFrame::new(puzzle);
    proof {
        lemma_next_empty_in_range(root.program@, 0, 0);
        assert(prog_shape(root.program@, puzzle@.lengths));
    }
    queue.push(root);

    let mut fuel: u64 = u64::MAX;

    loop
        invariant
            forall|j: int|
                0 <= j < queue@.len() ==> prog_shape(
                    (#[trigger] queue@[j]).program@,
                    puzzle@.lengths,
                ),
            forall|j: int|
                0 <= j < queue@.len() ==> ((#[trigger] queue@[j]).next_slot matches Some(s)
                    ==> s.0 < 5 && s.1 < queue@[j].program@[s.0 as int].len()),
            forall|j: int|
                0 <= j < queue@.len() ==> ((#[trigger] queue@[j]).next_slot is None
                    ==> spec_next_empty(queue@[j].program@, 0, 0) is None),
        decreases fuel,
    {
        if fuel == 0 {
            return SolverResult {
                valid: true,
                search_exhausted: false,
                programs_tested,
                time_elapsed_ms: clock_elapsed_ms(&start_time),
                trivial_solution: None,
                trivial_metrics: None,
                reason: None,
            };
        }
        fuel = fuel - 1;

        let frame = match queue.pop() {
            Some(f) => f,
            None => { break; },
        };

        if clock_elapsed_ms(&start_time) > config.timeout_ms {
            return SolverResult {
                valid: true,
                search_exhausted: false,
                programs_tested,
                time_elapsed_ms: clock_elapsed_ms(&start_time),
                trivial_solution: None,
                trivial_metrics: None,
                reason: None,
            };
        }

        match frame.next_slot {
            None => {
                // The program has no empty slot left to decide: test it.
                if programs_tested < usize::MAX {
                    programs_tested = programs_tested + 1;
                }

                if should_reject_program(&frame.program, puzzle) {
                    continue;
                }

                proof {
                    assert(prog_bounded(frame.program@));
                }
                let result = execute(puzzle, &frame.program, config.max_steps);

                if result.solved {
                    if is_below_minimums(&result.metrics, &config.min_constraints) {
                        let reason = format_trivial_reason(&result.metrics, &config.min_constraints);
                        return SolverResult {
                            valid: false,
                            search_exhausted: false,
                            programs_tested,
                            time_elapsed_ms: clock_elapsed_ms(&start_time),
                            trivial_solution: Some(frame.program),
                            trivial_metrics: Some(result.metrics),
                            reason: Some(reason),
                        };
                    }
                }
            },
            Some((func_idx, inst_idx)) => {
                // The program can still grow; stop a branch that is already
                // at the instruction cap.
                let count = frame.program.count_instructions();
                if count >= config.max_instructions {
                    continue;
                }

                // One child leaves this slot empty and moves to the next
                // empty slot after it, when there is one.
                let next_next = frame.program.next_empty_from(func_idx, inst_idx + 1);
                match next_next {
                    Some(slot) => {
                        proof {
                            lemma_next_empty_in_range(frame.program@, func_idx, (inst_idx + 1) as usize);
                        }
                        let skip = SearchFrame {
                            program: frame.program.duplicate(),
                            next_slot: Some(slot),
                        };
                        queue.push(skip);
                    },
                    None => {},
                }

                // One child per admissible instruction in this slot, unless
                // the grown program is structurally rejected.
                let valid_instructions = get_valid_instructions_for_slot(
                    &frame.program,
                    func_idx,
                    inst_idx,
                    puzzle,
                );
                let mut k: usize = 0;
                while k < valid_instructions.len()
                    invariant
                        forall|j: int|
                            0 <= j < queue@.len() ==> prog_shape(
                                (#[trigger] queue@[j]).program@,
                                puzzle@.lengths,
                            ),
                        forall|j: int|
                            0 <= j < queue@.len() ==> ((#[trigger] queue@[j]).next_slot
                                matches Some(s) ==> s.0 < 5 && s.1
                                < queue@[j].program@[s.0 as int].len()),
                        forall|j: int|
                            0 <= j < queue@.len() ==> ((#[trigger] queue@[j]).next_slot is None
                                ==> spec_next_empty(queue@[j].program@, 0, 0) is None),
                    decreases valid_instructions.len() - k,
                {
                    let instruction = valid_instructions[k];
                    let new_program = frame.program.with_instruction(
                        func_idx,
                        inst_idx,
                        Some(instruction),
                    );
                    proof {
                        assert(prog_shape(new_program@, puzzle@.lengths));
                    }
                    if !should_reject_program(&new_program, puzzle) {
                        let child = SearchFrame::with_program(new_program);
                        proof {
                            lemma_next_empty_in_range(child.program@, 0, 0);
                        }
                        queue.push(child);
                    }
                    k = k + 1;
                }
            },
        }
    }

    // Every branch was explored without finding a trivial solution.
    SolverResult {
        valid: true,
        search_exhausted: true,
        programs_tested,
        time_elapsed_ms: clock_elapsed_ms(&start_time),
        trivial_solution: None,
        trivial_metrics: None,
        reason: None,
    }
}

/// Search for any solution at all, for diagnostic use: the first fully
/// filled, unrejected candidate that solves the puzzle within the step
/// budget.
#[verifier::loop_isolation(false)]
#[verifier::rlimit(60)]
pub fn find_any_solution(puzzle: &PuzzleConfig, timeout_ms: u64, max_steps: usize) -> (r: Option<
    (Program, ExecutionMetrics),
>)
    requires
        puzzle@.wf(),
        lengths_bounded(puzzle@.lengths),
    ensures
        r matches Some(pm) ==> {
            &&& prog_shape(pm.0@, puzzle@.lengths)
            &&& spec_next_empty(pm.0@, 0, 0) is None
            &&& !spec_should_reject(pm.0@, puzzle@)
            &&& spec_execute(puzzle@, pm.0@, max_steps as nat).0 == ExecutionStatus::Solved
            &&& pm.1@ == spec_execute(puzzle@, pm.0@, max_steps as nat).1
        },
{
    let start_time = clock_now();

    let mut queue: Vec<SearchFrame> = Vec::new();
    let root = SearchFrame::new(puzzle);
    proof {
        lemma_next_empty_in_range(root.program@, 0, 0);
        assert(prog_shape(root.program@, puzzle@.lengths));
    }
    queue.push(root);

    let mut fuel: u64 = u64::MAX;

    loop
        invariant
            forall|j: int|
                0 <= j < queue@.len() ==> prog_shape(
                    (#[trigger] queue@[j]).program@,
                    puzzle@.lengths,
                ),
            forall|j: int|
                0 <= j < queue@.len() ==> ((#[trigger] queue@[j]).next_slot matches Some(s)
                    ==> s.0 < 5 && s.1 < queue@[j].program@[s.0 as int].len()),
            forall|j: int|
                0 <= j < queue@.len() ==> ((#[trigger] queue@[j]).next_slot is None
                    ==> spec_next_empty(queue@[j].program@, 0, 0) is None),
        decreases fuel,
    {
        if fuel == 0 {
            return None;
        }
        fuel = fuel - 1;

        let frame = match queue.pop() {
            Some(f) => f,
            None => { break; },
        };

        if clock_elapsed_ms(&start_time) > timeout_ms {
            return None;
        }

        match frame.next_slot {
            None => {
                if should_reject_program(&frame.program, puzzle) {
                    continue;
                }
                proof {
                    assert(prog_bounded(frame.program@));
                }
                let result = execute(puzzle, &frame.program, max_steps);
                if result.solved {
                    return Some((frame.program, result.metrics));
                }
            },
            Some((func_idx, inst_idx)) => {
                let next_next = frame.program.next_empty_from(func_idx, inst_idx + 1);
                match next_next {
                    Some(slot) => {
                        proof {
                            lemma_next_empty_in_range(frame.program@, func_idx, (inst_idx + 1) as usize);
                        }
                        let skip = SearchFrame {
                            program: frame.program.duplicate(),
                            next_slot: Some(slot),
                        };
                        queue.push(skip);
                    },
                    None => {},
                }

                let valid_instructions = get_valid_instructions_for_slot(
                    &frame.program,
                    func_idx,
                    inst_idx,
                    puzzle,
                );
                let mut k: usize = 0;
                while k < valid_instructions.len()
                    invariant
                        forall|j: int|
                            0 <= j < queue@.len() ==> prog_shape(
                                (#[trigger] queue@[j]).program@,
                                puzzle@.lengths,
                            ),
                        forall|j: int|
                            0 <= j < queue@.len() ==> ((#[trigger] queue@[j]).next_slot
                                matches Some(s) ==> s.0 < 5 && s.1
                                < queue@[j].program@[s.0 as int].len()),
                        forall|j: int|
                            0 <= j < queue@.len() ==> ((#[trigger] queue@[j]).next_slot is None
                                ==> spec_next_empty(queue@[j].program@, 0, 0) is None),
                    decreases valid_instructions.len() - k,
                {
                    let instruction = valid_instructions[k];
                    let new_program = frame.program.with_instruction(
                        func_idx,
                        inst_idx,
                        Some(instruction),
                    );
                    proof {
                        assert(prog_shape(new_program@, puzzle@.lengths));
                    }
                    if !should_reject_program(&new_program, puzzle) {
                        let child = SearchFrame::with_program(new_program);
                        proof {
                            lemma_next_empty_in_range(child.program@, 0, 0);
                        }
                        queue.push(child);
                    }
                    k = k + 1;
                }
            },
        }
    }

    None
}

} // verus!
