//! Tests of the bounded executor: the terminal statuses and the counters.

use puzzle_verifier::{
    execute, verify_solution, Direction, ExecutionStatus, FunctionLengths, Instruction,
    InstructionType, Position, Program, PuzzleConfig, RobotStart, Tile, TileColor,
};

fn create_simple_puzzle() -> PuzzleConfig {
    // A one-row puzzle: the start tile, then a starred tile to its right.
    PuzzleConfig {
        id: "test".to_string(),
        title: "Test".to_string(),
        grid: vec![vec![
            Some(Tile { color: Some(TileColor::Red), has_star: false }),
            Some(Tile { color: Some(TileColor::Red), has_star: true }),
        ]],
        robot_start: RobotStart {
            position: Position::new(0, 0),
            direction: Direction::Right,
        },
        function_lengths: FunctionLengths { f1: 5, f2: 0, f3: 0, f4: 0, f5: 0 },
        allowed_instructions: vec![InstructionType::Forward],
        solution: None,
    }
}

#[test]
fn test_simple_execution() {
    let puzzle = create_simple_puzzle();
    let mut program = Program::new();
    program.f1 = vec![Some(Instruction::new(InstructionType::Forward))];

    let result = execute(&puzzle, &program, 100);
    assert!(result.solved);
    assert_eq!(result.metrics.stars_collected, 1);
    assert_eq!(result.metrics.steps, 1);
}

#[test]
fn test_conditional_execution() {
    let puzzle = create_simple_puzzle();
    let mut program = Program::new();
    program.f1 = vec![
        // The blue condition does not fire: the tile is red.
        Some(Instruction::with_condition(InstructionType::Left, TileColor::Blue)),
        // The red condition fires.
        Some(Instruction::with_condition(InstructionType::Forward, TileColor::Red)),
    ];

    let result = execute(&puzzle, &program, 100);
    assert!(result.solved);
    // Only the red conditional fires; the blue one is skipped without charge.
    assert_eq!(result.metrics.conditionals_executed, 1);
    assert_eq!(result.metrics.steps, 1);
}

#[test]
fn test_timeout_or_cycle() {
    let puzzle = create_simple_puzzle();
    let mut program = Program::new();
    // An infinite loop: turn right forever.
    program.f1 = vec![Some(Instruction::new(InstructionType::Right))];

    let result = execute(&puzzle, &program, 100);
    assert!(!result.solved);
    assert!(
        result.status == ExecutionStatus::Timeout || result.status == ExecutionStatus::Cycle
    );
}

#[test]
fn test_forward_solves_and_visits_two_tiles() {
    let puzzle = create_simple_puzzle();
    let mut program = Program::new();
    program.f1 = vec![Some(Instruction::new(InstructionType::Forward))];

    let result = execute(&puzzle, &program, 100);
    assert_eq!(result.status, ExecutionStatus::Solved);
    assert_eq!(result.metrics.steps, 1);
    assert_eq!(result.metrics.stars_collected, 1);
    assert_eq!(result.metrics.total_stars, 1);
    assert_eq!(result.metrics.tiles_visited, 2);
    assert_eq!(result.metrics.instructions, 1);
}

#[test]
fn test_execute_is_deterministic() {
    let puzzle = create_simple_puzzle();
    let mut program = Program::new();
    program.f1 = vec![
        Some(Instruction::new(InstructionType::Right)),
        Some(Instruction::new(InstructionType::Left)),
        Some(Instruction::new(InstructionType::Forward)),
    ];

    let first = execute(&puzzle, &program, 50);
    let second = execute(&puzzle, &program, 50);
    assert_eq!(first.status, second.status);
    assert_eq!(first.metrics, second.metrics);
    assert_eq!(first.solved, second.solved);
}

#[test]
fn test_cycle_detected_by_step_sixteen() {
    let puzzle = create_simple_puzzle();
    let mut program = Program::new();
    program.f1 = vec![Some(Instruction::new(InstructionType::Right))];

    // Turning in place repeats the sampled state every four steps, so the
    // detector fires at the second sample.
    let result = execute(&puzzle, &program, 100);
    assert_eq!(result.status, ExecutionStatus::Cycle);
    assert_eq!(result.metrics.steps, 16);
    assert!(!result.solved);
}

#[test]
fn test_fell_off_grid() {
    let mut puzzle = create_simple_puzzle();
    puzzle.grid = vec![vec![Some(Tile { color: Some(TileColor::Red), has_star: false })]];
    let mut program = Program::new();
    program.f1 = vec![Some(Instruction::new(InstructionType::Forward))];

    let result = execute(&puzzle, &program, 100);
    assert_eq!(result.status, ExecutionStatus::Fell);
    assert_eq!(result.metrics.steps, 1);
    assert!(!result.solved);
}

#[test]
fn test_stack_overflow_on_unbounded_recursion() {
    let mut puzzle = create_simple_puzzle();
    puzzle.function_lengths = FunctionLengths { f1: 2, f2: 0, f3: 0, f4: 0, f5: 0 };
    puzzle.allowed_instructions = vec![InstructionType::F1, InstructionType::Noop];
    let mut program = Program::new();
    program.f1 = vec![
        Some(Instruction::new(InstructionType::F1)),
        Some(Instruction::new(InstructionType::Noop)),
    ];

    let result = execute(&puzzle, &program, 10000);
    assert_eq!(result.status, ExecutionStatus::StackOverflow);
    assert_eq!(result.metrics.max_stack_depth, 256);
    assert!(!result.solved);
}

#[test]
fn test_empty_main_function_times_out_at_once() {
    let puzzle = create_simple_puzzle();
    let program = Program::new();

    let result = execute(&puzzle, &program, 100);
    assert_eq!(result.status, ExecutionStatus::Timeout);
    assert_eq!(result.metrics.steps, 0);
    assert_eq!(result.metrics.tiles_visited, 1);
    assert!(!result.solved);
}

#[test]
fn test_unmatched_condition_drains_stack_to_timeout() {
    // No star anywhere; the robot walks onto a blue tile, after which its
    // red-conditioned instruction never fires again and the stack drains.
    let puzzle = PuzzleConfig {
        id: "drain".to_string(),
        title: "Drain".to_string(),
        grid: vec![vec![
            Some(Tile { color: Some(TileColor::Red), has_star: false }),
            Some(Tile { color: Some(TileColor::Blue), has_star: false }),
        ]],
        robot_start: RobotStart {
            position: Position::new(0, 0),
            direction: Direction::Right,
        },
        function_lengths: FunctionLengths { f1: 1, f2: 0, f3: 0, f4: 0, f5: 0 },
        allowed_instructions: vec![InstructionType::Forward],
        solution: None,
    };
    let mut program = Program::new();
    program.f1 = vec![Some(Instruction::with_condition(
        InstructionType::Forward,
        TileColor::Red,
    ))];

    let result = execute(&puzzle, &program, 100);
    assert_eq!(result.status, ExecutionStatus::Timeout);
    assert_eq!(result.metrics.steps, 1);
    assert!(!result.solved);
}

#[test]
fn test_stack_order_runs_slots_in_sequence() {
    // The star is below the start; the program must first turn, then move.
    // If the frame stack handed the slots back in the wrong order the robot
    // would fall off the single-column grid instead.
    let puzzle = PuzzleConfig {
        id: "order".to_string(),
        title: "Order".to_string(),
        grid: vec![
            vec![Some(Tile { color: Some(TileColor::Red), has_star: false })],
            vec![Some(Tile { color: Some(TileColor::Red), has_star: true })],
        ],
        robot_start: RobotStart {
            position: Position::new(0, 0),
            direction: Direction::Right,
        },
        function_lengths: FunctionLengths { f1: 2, f2: 0, f3: 0, f4: 0, f5: 0 },
        allowed_instructions: vec![InstructionType::Forward, InstructionType::Right],
        solution: None,
    };
    let mut program = Program::new();
    program.f1 = vec![
        Some(Instruction::new(InstructionType::Right)),
        Some(Instruction::new(InstructionType::Forward)),
    ];

    let result = execute(&puzzle, &program, 100);
    assert_eq!(result.status, ExecutionStatus::Solved);
    assert_eq!(result.metrics.steps, 2);
}

#[test]
fn test_paint_then_condition_on_new_color() {
    let puzzle = PuzzleConfig {
        id: "paint".to_string(),
        title: "Paint".to_string(),
        grid: vec![vec![
            Some(Tile { color: Some(TileColor::Red), has_star: false }),
            Some(Tile { color: Some(TileColor::Red), has_star: true }),
        ]],
        robot_start: RobotStart {
            position: Position::new(0, 0),
            direction: Direction::Right,
        },
        function_lengths: FunctionLengths { f1: 2, f2: 0, f3: 0, f4: 0, f5: 0 },
        allowed_instructions: vec![InstructionType::Forward, InstructionType::PaintBlue],
        solution: None,
    };
    let mut program = Program::new();
    program.f1 = vec![
        Some(Instruction::new(InstructionType::PaintBlue)),
        Some(Instruction::with_condition(InstructionType::Forward, TileColor::Blue)),
    ];

    // Painting recolours the tile under the robot, so the blue condition
    // fires right after.
    let result = execute(&puzzle, &program, 100);
    assert_eq!(result.status, ExecutionStatus::Solved);
    assert_eq!(result.metrics.steps, 2);
    assert_eq!(result.metrics.paints_executed, 1);
    assert_eq!(result.metrics.conditionals_executed, 1);
}

#[test]
fn test_function_call_runs_callee() {
    let puzzle = PuzzleConfig {
        id: "call".to_string(),
        title: "Call".to_string(),
        grid: vec![vec![
            Some(Tile { color: Some(TileColor::Red), has_star: false }),
            Some(Tile { color: Some(TileColor::Red), has_star: true }),
        ]],
        robot_start: RobotStart {
            position: Position::new(0, 0),
            direction: Direction::Right,
        },
        function_lengths: FunctionLengths { f1: 1, f2: 1, f3: 0, f4: 0, f5: 0 },
        allowed_instructions: vec![InstructionType::Forward, InstructionType::F2],
        solution: None,
    };
    let mut program = Program::new();
    program.f1 = vec![Some(Instruction::new(InstructionType::F2))];
    program.f2 = vec![Some(Instruction::new(InstructionType::Forward))];

    let result = execute(&puzzle, &program, 100);
    assert_eq!(result.status, ExecutionStatus::Solved);
    assert_eq!(result.metrics.functions_called, 1);
    assert_eq!(result.metrics.steps, 2);
}

#[test]
fn test_ragged_rows_are_bounds_checked_per_row() {
    // The first row is shorter than the second; position (1, 1) exists
    // while (1, 0) does not.
    let puzzle = PuzzleConfig {
        id: "ragged".to_string(),
        title: "Ragged".to_string(),
        grid: vec![
            vec![Some(Tile { color: Some(TileColor::Red), has_star: false })],
            vec![
                Some(Tile { color: Some(TileColor::Red), has_star: false }),
                Some(Tile { color: Some(TileColor::Red), has_star: true }),
            ],
        ],
        robot_start: RobotStart {
            position: Position::new(0, 0),
            direction: Direction::Down,
        },
        function_lengths: FunctionLengths { f1: 3, f2: 0, f3: 0, f4: 0, f5: 0 },
        allowed_instructions: vec![InstructionType::Forward, InstructionType::Left],
        solution: None,
    };
    let mut program = Program::new();
    program.f1 = vec![
        Some(Instruction::new(InstructionType::Forward)),
        Some(Instruction::new(InstructionType::Left)),
        Some(Instruction::new(InstructionType::Forward)),
    ];

    let result = execute(&puzzle, &program, 100);
    assert_eq!(result.status, ExecutionStatus::Solved);
    assert_eq!(result.metrics.steps, 3);
    assert_eq!(result.metrics.tiles_visited, 3);
}

#[test]
fn test_robot_starting_off_grid_falls_on_forward() {
    let mut puzzle = create_simple_puzzle();
    puzzle.robot_start.position = Position::new(5, 0);
    let mut program = Program::new();
    program.f1 = vec![Some(Instruction::new(InstructionType::Forward))];

    // Only the starting position counts as visited; the first move falls.
    let result = execute(&puzzle, &program, 100);
    assert_eq!(result.status, ExecutionStatus::Fell);
    assert_eq!(result.metrics.tiles_visited, 1);
    assert!(!result.solved);
}

#[test]
fn test_verify_solution() {
    let puzzle = create_simple_puzzle();
    let mut program = Program::new();
    program.f1 = vec![Some(Instruction::new(InstructionType::Forward))];
    assert!(verify_solution(&puzzle, &program));

    let mut loops = Program::new();
    loops.f1 = vec![Some(Instruction::new(InstructionType::Right))];
    assert!(!verify_solution(&puzzle, &loops));
}
