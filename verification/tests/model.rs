//! Tests of the domain model: directions, instructions, programs, grids.

use puzzle_verifier::{
    Direction, FunctionLengths, Instruction, InstructionType, MinConstraints, Position, Program,
    PuzzleConfig, RobotStart, StepRatio, Tile, TileColor,
};

fn sample_puzzle() -> PuzzleConfig {
    PuzzleConfig {
        id: "sample".to_string(),
        title: "Sample".to_string(),
        grid: vec![vec![
            Some(Tile { color: Some(TileColor::Red), has_star: false }),
            Some(Tile { color: Some(TileColor::Blue), has_star: true }),
            None,
        ]],
        robot_start: RobotStart {
            position: Position::new(0, 0),
            direction: Direction::Right,
        },
        function_lengths: FunctionLengths { f1: 3, f2: 2, f3: 0, f4: 0, f5: 0 },
        allowed_instructions: vec![InstructionType::Forward, InstructionType::Left],
        solution: None,
    }
}

#[test]
fn test_direction_turns() {
    assert_eq!(Direction::Up.turn_left(), Direction::Left);
    assert_eq!(Direction::Left.turn_left(), Direction::Down);
    assert_eq!(Direction::Down.turn_left(), Direction::Right);
    assert_eq!(Direction::Right.turn_left(), Direction::Up);

    assert_eq!(Direction::Up.turn_right(), Direction::Right);
    assert_eq!(Direction::Right.turn_right(), Direction::Down);
    assert_eq!(Direction::Down.turn_right(), Direction::Left);
    assert_eq!(Direction::Left.turn_right(), Direction::Up);
}

#[test]
fn test_instruction_should_execute() {
    let unconditional = Instruction::new(InstructionType::Forward);
    assert!(unconditional.should_execute(Some(TileColor::Red)));
    assert!(unconditional.should_execute(Some(TileColor::Blue)));
    assert!(unconditional.should_execute(None));

    let red_only = Instruction::with_condition(InstructionType::Forward, TileColor::Red);
    assert!(red_only.should_execute(Some(TileColor::Red)));
    assert!(!red_only.should_execute(Some(TileColor::Blue)));
    assert!(!red_only.should_execute(None));
}

#[test]
fn test_program_count_instructions() {
    let mut program = Program::new();
    program.f1 = vec![
        Some(Instruction::new(InstructionType::Forward)),
        Some(Instruction::new(InstructionType::Left)),
        None,
    ];
    program.f2 = vec![Some(Instruction::new(InstructionType::F1)), None];

    assert_eq!(program.count_instructions(), 3);
}

#[test]
fn test_direction_deltas() {
    assert_eq!(Direction::Up.delta(), (0, -1));
    assert_eq!(Direction::Down.delta(), (0, 1));
    assert_eq!(Direction::Left.delta(), (-1, 0));
    assert_eq!(Direction::Right.delta(), (1, 0));
}

#[test]
fn test_condition_masks() {
    assert_eq!(TileColor::Red.to_condition_mask(), 0b001);
    assert_eq!(TileColor::Green.to_condition_mask(), 0b010);
    assert_eq!(TileColor::Blue.to_condition_mask(), 0b100);
}

#[test]
fn test_instruction_kind_helpers() {
    assert!(InstructionType::F3.is_function_call());
    assert!(!InstructionType::Forward.is_function_call());
    assert!(InstructionType::Left.is_turn());
    assert!(InstructionType::Right.is_turn());
    assert!(!InstructionType::Noop.is_turn());
    assert!(InstructionType::PaintGreen.is_paint());
    assert!(!InstructionType::F1.is_paint());
    assert_eq!(InstructionType::F1.function_index(), Some(0));
    assert_eq!(InstructionType::F5.function_index(), Some(4));
    assert_eq!(InstructionType::Forward.function_index(), None);
    assert_eq!(InstructionType::PaintRed.paint_color(), Some(TileColor::Red));
    assert_eq!(InstructionType::Left.paint_color(), None);
    assert!(Instruction::new(InstructionType::Noop).is_noop());
    assert!(!Instruction::new(InstructionType::Forward).is_noop());
}

#[test]
fn test_function_lengths() {
    let lengths = FunctionLengths { f1: 3, f2: 2, f3: 1, f4: 0, f5: 4 };
    assert_eq!(lengths.get(0), 3);
    assert_eq!(lengths.get(2), 1);
    assert_eq!(lengths.get(4), 4);
    assert_eq!(lengths.get(9), 0);
    assert_eq!(lengths.total_slots(), 10);
}

#[test]
fn test_program_with_lengths_and_slots() {
    let lengths = FunctionLengths { f1: 2, f2: 1, f3: 0, f4: 0, f5: 0 };
    let mut program = Program::with_lengths(&lengths);
    assert_eq!(program.f1.len(), 2);
    assert_eq!(program.f2.len(), 1);
    assert!(program.has_empty_slots());
    assert_eq!(program.find_empty_slot(), Some((0, 0)));

    program.set(0, 0, Some(Instruction::new(InstructionType::Forward)));
    assert_eq!(program.find_empty_slot(), Some((0, 1)));
    assert_eq!(
        program.get(0, 0),
        Some(Instruction::new(InstructionType::Forward))
    );
    assert_eq!(program.get(0, 1), None);
    assert_eq!(program.get(3, 0), None);

    let full = program
        .with_instruction(0, 1, Some(Instruction::new(InstructionType::Left)))
        .with_instruction(1, 0, Some(Instruction::new(InstructionType::F1)));
    assert_eq!(full.find_empty_slot(), None);
    assert!(!full.has_empty_slots());
    assert_eq!(full.count_instructions(), 3);
    // The original program is unchanged by `with_instruction`.
    assert_eq!(program.count_instructions(), 1);
}

#[test]
fn test_program_get_function() {
    let mut program = Program::new();
    program.f2 = vec![Some(Instruction::new(InstructionType::Right))];
    assert_eq!(program.get_function(1).len(), 1);
    assert_eq!(program.get_function(0).len(), 0);
    program.get_function_mut(1)[0] = Some(Instruction::new(InstructionType::Left));
    assert_eq!(
        program.get(1, 0),
        Some(Instruction::new(InstructionType::Left))
    );
}

#[test]
fn test_puzzle_accessors() {
    let puzzle = sample_puzzle();
    assert_eq!(puzzle.count_stars(), 1);
    assert_eq!(
        puzzle.get_tile(0, 0),
        Some(Tile { color: Some(TileColor::Red), has_star: false })
    );
    assert_eq!(puzzle.get_tile(2, 0), None);
    assert_eq!(puzzle.get_tile(-1, 0), None);
    assert_eq!(puzzle.get_tile(0, 5), None);
    assert_eq!(
        puzzle.available_colors(),
        vec![TileColor::Red, TileColor::Blue]
    );
    assert!(!puzzle.allows_paint(TileColor::Red));
}

#[test]
fn test_get_valid_instructions() {
    let puzzle = sample_puzzle();
    let variants = puzzle.get_valid_instructions(None);
    assert_eq!(
        variants,
        vec![
            Instruction::new(InstructionType::Forward),
            Instruction::with_condition(InstructionType::Forward, TileColor::Red),
            Instruction::with_condition(InstructionType::Forward, TileColor::Blue),
            Instruction::new(InstructionType::Left),
            Instruction::with_condition(InstructionType::Left, TileColor::Red),
            Instruction::with_condition(InstructionType::Left, TileColor::Blue),
        ]
    );
}

#[test]
fn test_min_constraints_default() {
    let min = MinConstraints::default();
    assert_eq!(min.instructions, 4);
    assert_eq!(min.steps, 16);
    assert_eq!(min.recursion_depth, 3);
    assert_eq!(min.conditionals, 2);
    assert_eq!(min.step_ratio, StepRatio { num: 3, den: 1 });
}
