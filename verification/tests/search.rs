//! Tests of the backtracking search and the triviality thresholds.

use puzzle_verifier::solver::is_below_minimums;
use puzzle_verifier::{
    find_any_solution, find_trivial_solution, Direction, ExecutionMetrics, FunctionLengths,
    Instruction, InstructionType, MinConstraints, Position, Program, PuzzleConfig, RobotStart,
    SolverConfig, StepRatio, Tile, TileColor,
};

fn create_trivial_puzzle() -> PuzzleConfig {
    // A puzzle solvable by a single Forward.
    PuzzleConfig {
        id: "trivial".to_string(),
        title: "Trivial".to_string(),
        grid: vec![vec![
            Some(Tile { color: Some(TileColor::Red), has_star: false }),
            Some(Tile { color: Some(TileColor::Red), has_star: true }),
        ]],
        robot_start: RobotStart {
            position: Position::new(0, 0),
            direction: Direction::Right,
        },
        function_lengths: FunctionLengths { f1: 5, f2: 0, f3: 0, f4: 0, f5: 0 },
        allowed_instructions: vec![InstructionType::Forward],
        solution: None,
    }
}

#[test]
fn test_find_trivial_solution() {
    let puzzle = create_trivial_puzzle();
    let config = SolverConfig {
        timeout_ms: 5000,
        max_steps: 100,
        max_instructions: 10,
        min_constraints: MinConstraints {
            instructions: 4,
            steps: 16,
            recursion_depth: 3,
            conditionals: 2,
            step_ratio: StepRatio { num: 3, den: 1 },
        },
    };

    let result = find_trivial_solution(&puzzle, &config);

    // This puzzle has a trivial solution: just walking forward.
    assert!(!result.valid);
    assert!(result.trivial_solution.is_some());
}

#[test]
fn test_is_below_minimums() {
    let metrics = ExecutionMetrics {
        steps: 10,
        instructions: 3,
        max_stack_depth: 2,
        conditionals_executed: 1,
        ..Default::default()
    };

    let min = MinConstraints {
        instructions: 4,
        steps: 16,
        recursion_depth: 3,
        conditionals: 2,
        step_ratio: StepRatio { num: 3, den: 1 },
    };

    assert!(is_below_minimums(&metrics, &min));
}

#[test]
fn test_meeting_every_minimum_is_not_below() {
    let metrics = ExecutionMetrics {
        steps: 16,
        instructions: 4,
        max_stack_depth: 3,
        conditionals_executed: 2,
        ..Default::default()
    };
    let min = MinConstraints::default();
    // 16 steps over 4 instructions is exactly ratio 4, above the threshold
    // of 3; nothing is below.
    assert!(!is_below_minimums(&metrics, &min));
}

#[test]
fn test_ratio_threshold_is_exact() {
    // 18 steps over 6 instructions is exactly the threshold ratio of 3,
    // which does not count as below it.
    let at_threshold = ExecutionMetrics {
        steps: 18,
        instructions: 6,
        max_stack_depth: 3,
        conditionals_executed: 2,
        ..Default::default()
    };
    let min = MinConstraints::default();
    assert!(!is_below_minimums(&at_threshold, &min));

    let just_under = ExecutionMetrics {
        steps: 17,
        instructions: 6,
        max_stack_depth: 3,
        conditionals_executed: 2,
        ..Default::default()
    };
    assert!(is_below_minimums(&just_under, &min));
}

#[test]
fn test_trivial_reason_names_failed_thresholds() {
    let puzzle = create_trivial_puzzle();
    let config = SolverConfig::default();
    let result = find_trivial_solution(&puzzle, &config);

    assert!(!result.valid);
    assert!(!result.search_exhausted);
    assert!(result.programs_tested >= 1);
    assert!(result.trivial_metrics.is_some());
    let reason = result.reason.expect("a trivial verdict carries a reason");
    // Every candidate fills all five slots with a walk that solves in one
    // step, so the step count and the step ratio always fall short.
    assert!(reason.contains("steps 1 < 16"));
    assert!(reason.contains("step_ratio 1/5 < 3/1"));
    assert!(reason.contains("conditionals"));
}

#[test]
fn test_unsolvable_puzzle_is_valid_and_exhausted() {
    // A starless one-tile puzzle: nothing can ever be solved, and the
    // candidate space is tiny.
    let puzzle = PuzzleConfig {
        id: "starless".to_string(),
        title: "Starless".to_string(),
        grid: vec![vec![Some(Tile { color: Some(TileColor::Red), has_star: false })]],
        robot_start: RobotStart {
            position: Position::new(0, 0),
            direction: Direction::Right,
        },
        function_lengths: FunctionLengths { f1: 1, f2: 0, f3: 0, f4: 0, f5: 0 },
        allowed_instructions: vec![InstructionType::Forward],
        solution: None,
    };
    let config = SolverConfig::default();
    let result = find_trivial_solution(&puzzle, &config);

    assert!(result.valid);
    assert!(result.search_exhausted);
    assert!(result.trivial_solution.is_none());
    assert!(result.trivial_metrics.is_none());
    assert!(result.reason.is_none());
}

#[test]
fn test_reported_solution_solves_the_puzzle() {
    let puzzle = create_trivial_puzzle();
    let config = SolverConfig::default();
    let result = find_trivial_solution(&puzzle, &config);

    assert!(!result.valid);
    let solution = result.trivial_solution.expect("an invalid verdict carries a program");
    // The reported program is complete: no slot was left undecided.
    assert!(solution.find_empty_slot().is_none());
    let run = puzzle_verifier::execute(&puzzle, &solution, config.max_steps);
    assert!(run.solved);
    let metrics = result.trivial_metrics.expect("an invalid verdict carries metrics");
    assert_eq!(run.metrics, metrics);
}

#[test]
fn test_find_any_solution_on_trivial_puzzle() {
    let puzzle = create_trivial_puzzle();
    let found = find_any_solution(&puzzle, 5000, 100);
    let (program, metrics) = found.expect("the trivial puzzle has a solution");
    assert!(puzzle_verifier::verify_solution(&puzzle, &program));
    assert!(metrics.stars_collected == 1);
}

#[test]
fn test_solver_config_default() {
    let config = SolverConfig::default();
    assert_eq!(config.timeout_ms, 15000);
    assert_eq!(config.max_steps, 200);
    assert_eq!(config.max_instructions, 16);
    assert_eq!(config.min_constraints, MinConstraints::default());
}

#[test]
fn test_zero_instruction_metrics_count_as_below() {
    // A run that never charged a step has ratio zero, below any positive
    // threshold.
    let metrics = ExecutionMetrics {
        steps: 100,
        instructions: 0,
        max_stack_depth: 300,
        conditionals_executed: 5,
        ..Default::default()
    };
    let min = MinConstraints {
        instructions: 0,
        steps: 16,
        recursion_depth: 3,
        conditionals: 2,
        step_ratio: StepRatio { num: 3, den: 1 },
    };
    assert!(is_below_minimums(&metrics, &min));
}

#[test]
fn test_program_duplicate_is_independent() {
    let mut program = Program::new();
    program.f1 = vec![Some(Instruction::new(InstructionType::Forward)), None];
    let mut copy = program.duplicate();
    copy.set(0, 1, Some(Instruction::new(InstructionType::Left)));
    assert_eq!(program.count_instructions(), 1);
    assert_eq!(copy.count_instructions(), 2);
}
