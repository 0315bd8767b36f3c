//! Verified core of a Robozzle-style puzzle verifier.
//!
//! A puzzle is a small grid of coloured tiles with stars, a robot pose, and
//! per-function instruction-slot budgets.  The crate provides a bounded
//! executor for the puzzle's stack-machine language, structural pruning rules
//! over candidate programs, and a backtracking search that looks for a
//! "trivial" solution: one whose execution metrics fall below the configured
//! thresholds.

pub mod puzzle;
mod clock;
mod stack;
pub mod machine;
pub mod executor;
pub mod pruning;
pub mod solver;

pub use executor::{execute, verify_solution, ExecutionMetrics, ExecutionResult};
pub use solver::{find_trivial_solution, find_any_solution, SolverConfig, SolverResult};
pub use machine::ExecutionStatus;
pub use puzzle::{
    Direction, FunctionLengths, Instruction, InstructionType, MinConstraints, Position, Program,
    PuzzleConfig, RobotStart, StepRatio, Tile, TileColor,
};
