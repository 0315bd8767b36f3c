//! Tests of the structural pruning rules.

use puzzle_verifier::pruning::{
    get_valid_instructions_for_slot, is_banned_pair, is_banned_trio, should_reject_program,
};
use puzzle_verifier::{
    Direction, FunctionLengths, Instruction, InstructionType, Position, Program, PuzzleConfig,
    RobotStart, Tile, TileColor,
};

fn create_test_puzzle() -> PuzzleConfig {
    PuzzleConfig {
        id: "test".to_string(),
        title: "Test".to_string(),
        grid: vec![vec![Some(Tile { color: Some(TileColor::Red), has_star: false })]],
        robot_start: RobotStart {
            position: Position::new(0, 0),
            direction: Direction::Right,
        },
        function_lengths: FunctionLengths { f1: 5, f2: 5, f3: 0, f4: 0, f5: 0 },
        allowed_instructions: vec![
            InstructionType::Forward,
            InstructionType::Left,
            InstructionType::Right,
            InstructionType::F1,
            InstructionType::F2,
        ],
        solution: None,
    }
}

#[test]
fn test_left_right_banned() {
    let puzzle = create_test_puzzle();
    let left = Instruction::new(InstructionType::Left);
    let right = Instruction::new(InstructionType::Right);

    assert!(is_banned_pair(&left, &right, &puzzle));
    assert!(is_banned_pair(&right, &left, &puzzle));
}

#[test]
fn test_conditional_left_right_different_conditions_not_banned() {
    let puzzle = create_test_puzzle();
    let red_left = Instruction::with_condition(InstructionType::Left, TileColor::Red);
    let blue_right = Instruction::with_condition(InstructionType::Right, TileColor::Blue);

    assert!(!is_banned_pair(&red_left, &blue_right, &puzzle));
}

#[test]
fn test_triple_turn_banned() {
    let puzzle = create_test_puzzle();
    let left1 = Instruction::new(InstructionType::Left);
    let left2 = Instruction::new(InstructionType::Left);
    let left3 = Instruction::new(InstructionType::Left);

    assert!(is_banned_trio(&left1, &left2, &left3, &puzzle));
}

#[test]
fn test_reject_unreachable_function() {
    let puzzle = create_test_puzzle();
    let mut program = Program::new();
    program.f1 = vec![Some(Instruction::new(InstructionType::Forward))];
    // The second function has instructions but is never called.
    program.f2 = vec![Some(Instruction::new(InstructionType::Left))];

    assert!(should_reject_program(&program, &puzzle));
}

#[test]
fn test_accept_valid_program() {
    let puzzle = create_test_puzzle();
    let mut program = Program::new();
    program.f1 = vec![
        Some(Instruction::new(InstructionType::Forward)),
        Some(Instruction::new(InstructionType::F2)),
    ];
    program.f2 = vec![Some(Instruction::new(InstructionType::Left))];

    assert!(!should_reject_program(&program, &puzzle));
}

#[test]
fn test_double_paint_banned() {
    let puzzle = create_test_puzzle();
    let paint_red = Instruction::new(InstructionType::PaintRed);
    let paint_green = Instruction::new(InstructionType::PaintGreen);
    assert!(is_banned_pair(&paint_red, &paint_green, &puzzle));

    // An unconditional paint followed by a paint conditioned on the colour
    // just painted is banned too: the condition is guaranteed true.
    let green_paint_blue =
        Instruction::with_condition(InstructionType::PaintBlue, TileColor::Green);
    let paint_green_uncond = Instruction::new(InstructionType::PaintGreen);
    assert!(is_banned_pair(&paint_green_uncond, &green_paint_blue, &puzzle));
}

#[test]
fn test_noop_neighbour_never_bans() {
    let puzzle = create_test_puzzle();
    let noop = Instruction::new(InstructionType::Noop);
    let left = Instruction::new(InstructionType::Left);
    assert!(!is_banned_pair(&noop, &left, &puzzle));
    assert!(!is_banned_pair(&left, &noop, &puzzle));
}

#[test]
fn test_paint_turn_condition_trio_banned() {
    let puzzle = create_test_puzzle();
    let paint_red = Instruction::new(InstructionType::PaintRed);
    let turn = Instruction::new(InstructionType::Left);
    let blue_forward = Instruction::with_condition(InstructionType::Forward, TileColor::Blue);
    // The robot does not move between the paint and the test, so a
    // condition on another colour can never hold.
    assert!(is_banned_trio(&paint_red, &turn, &blue_forward, &puzzle));

    let red_forward = Instruction::with_condition(InstructionType::Forward, TileColor::Red);
    assert!(!is_banned_trio(&paint_red, &turn, &red_forward, &puzzle));
}

#[test]
fn test_reject_condition_on_absent_color() {
    let puzzle = create_test_puzzle();
    let mut program = Program::new();
    // The grid has only red tiles: a green condition can never fire.
    program.f1 = vec![Some(Instruction::with_condition(
        InstructionType::Forward,
        TileColor::Green,
    ))];
    assert!(should_reject_program(&program, &puzzle));
}

#[test]
fn test_reject_call_to_empty_function() {
    let puzzle = create_test_puzzle();
    let mut program = Program::new();
    program.f1 = vec![Some(Instruction::new(InstructionType::F2))];
    program.f2 = vec![None, None];
    assert!(should_reject_program(&program, &puzzle));
}

#[test]
fn test_banned_pairs_checked_across_gaps() {
    let puzzle = create_test_puzzle();
    let mut program = Program::new();
    // Left and Right are adjacent once the empty slot between them is
    // collapsed.
    program.f1 = vec![
        Some(Instruction::new(InstructionType::Left)),
        None,
        Some(Instruction::new(InstructionType::Right)),
    ];
    assert!(should_reject_program(&program, &puzzle));
}

#[test]
fn test_valid_instructions_for_slot_filters_banned() {
    let puzzle = create_test_puzzle();
    let mut program = Program::with_lengths(&puzzle.function_lengths);
    program.set(0, 0, Some(Instruction::new(InstructionType::Left)));

    let candidates = get_valid_instructions_for_slot(&program, 0, 1, &puzzle);
    // Everything the puzzle allows, unconditionally and conditioned on the
    // one available colour, except the unconditional Right that would
    // cancel the Left before it.
    assert_eq!(
        candidates,
        vec![
            Instruction::new(InstructionType::Forward),
            Instruction::with_condition(InstructionType::Forward, TileColor::Red),
            Instruction::new(InstructionType::Left),
            Instruction::with_condition(InstructionType::Left, TileColor::Red),
            Instruction::with_condition(InstructionType::Right, TileColor::Red),
            Instruction::new(InstructionType::F1),
            Instruction::with_condition(InstructionType::F1, TileColor::Red),
            Instruction::new(InstructionType::F2),
            Instruction::with_condition(InstructionType::F2, TileColor::Red),
        ]
    );
}
