//! Domain model: colours, directions, instructions, programs, grids and the
//! thresholds that decide whether a solution counts as trivial.

use vstd::prelude::*;

verus! {

/// A tile colour.
#[derive(Clone, Copy, Debug, PartialEq, Eq, Hash, Structural)]
pub enum TileColor {
    Red,
    Green,
    Blue,
}

impl TileColor {
    /// Bitmask encoding of the colour, used for fast condition tests.
    pub open spec fn spec_condition_mask(self) -> u8 {
        match self {
            TileColor::Red => 0b001,
            TileColor::Green => 0b010,
            TileColor::Blue => 0b100,
        }
    }

    /// Convert to a condition mask for instruction matching.
    pub fn to_condition_mask(self) -> (r: u8)
        ensures
            r == self.spec_condition_mask(),
    {
        match self {
            TileColor::Red => 0b001,
            TileColor::Green => 0b010,
            TileColor::Blue => 0b100,
        }
    }
}

/// A robot heading.  `+y` points down the grid.
#[derive(Clone, Copy, Debug, PartialEq, Eq, Hash, Structural)]
pub enum Direction {
    Up,
    Down,
    Left,
    Right,
}

/// The heading after a 90-degree turn to the left.
pub open spec fn spec_turn_left(d: Direction) -> Direction {
    match d {
        Direction::Up => Direction::Left,
        Direction::Left => Direction::Down,
        Direction::Down => Direction::Right,
        Direction::Right => Direction::Up,
    }
}

/// The heading after a 90-degree turn to the right.
pub open spec fn spec_turn_right(d: Direction) -> Direction {
    match d {
        Direction::Up => Direction::Right,
        Direction::Right => Direction::Down,
        Direction::Down => Direction::Left,
        Direction::Left => Direction::Up,
    }
}

/// The unit step for a heading, as mathematical integers.
pub open spec fn spec_delta(d: Direction) -> (int, int) {
    match d {
        Direction::Up => (0, -1),
        Direction::Down => (0, 1),
        Direction::Left => (-1, 0),
        Direction::Right => (1, 0),
    }
}

impl Direction {
    pub fn turn_left(self) -> (r: Direction)
        ensures
            r == spec_turn_left(self),
    {
        match self {
            Direction::Up => Direction::Left,
            Direction::Left => Direction::Down,
            Direction::Down => Direction::Right,
            Direction::Right => Direction::Up,
        }
    }

    pub fn turn_right(self) -> (r: Direction)
        ensures
            r == spec_turn_right(self),
    {
        match self {
            Direction::Up => Direction::Right,
            Direction::Right => Direction::Down,
            Direction::Down => Direction::Left,
            Direction::Left => Direction::Up,
        }
    }

    pub fn delta(self) -> (r: (i32, i32))
        ensures
            r.0 == spec_delta(self).0,
            r.1 == spec_delta(self).1,
    {
        match self {
            Direction::Up => (0, -1),
            Direction::Down => (0, 1),
            Direction::Left => (-1, 0),
            Direction::Right => (1, 0),
        }
    }
}

/// Four left turns bring a heading back to itself, and a right turn
/// undoes a left turn.
pub proof fn lemma_turn_group(d: Direction)
    ensures
        spec_turn_left(spec_turn_left(spec_turn_left(spec_turn_left(d)))) == d,
        spec_turn_right(spec_turn_right(spec_turn_right(spec_turn_right(d)))) == d,
        spec_turn_left(spec_turn_right(d)) == d,
        spec_turn_right(spec_turn_left(d)) == d,
{
}

/// An instruction kind.
#[derive(Clone, Copy, Debug, PartialEq, Eq, Hash, Structural)]
pub enum InstructionType {
    Forward,
    Left,
    Right,
    F1,
    F2,
    F3,
    F4,
    F5,
    PaintRed,
    PaintGreen,
    PaintBlue,
    Noop,
}

/// Whether the kind calls one of the five functions.
pub open spec fn spec_is_function_call(t: InstructionType) -> bool {
    t == InstructionType::F1 || t == InstructionType::F2 || t == InstructionType::F3
        || t == InstructionType::F4 || t == InstructionType::F5
}

/// Whether the kind is a turn.
pub open spec fn spec_is_turn(t: InstructionType) -> bool {
    t == InstructionType::Left || t == InstructionType::Right
}

/// Whether the kind paints the current tile.
pub open spec fn spec_is_paint(t: InstructionType) -> bool {
    t == InstructionType::PaintRed || t == InstructionType::PaintGreen
        || t == InstructionType::PaintBlue
}

/// The index of the called function, for call kinds.
pub open spec fn spec_function_index(t: InstructionType) -> Option<usize> {
    match t {
        InstructionType::F1 => Some(0usize),
        InstructionType::F2 => Some(1usize),
        InstructionType::F3 => Some(2usize),
        InstructionType::F4 => Some(3usize),
        InstructionType::F5 => Some(4usize),
        _ => None,
    }
}

/// The colour painted, for paint kinds.
pub open spec fn spec_paint_color(t: InstructionType) -> Option<TileColor> {
    match t {
        InstructionType::PaintRed => Some(TileColor::Red),
        InstructionType::PaintGreen => Some(TileColor::Green),
        InstructionType::PaintBlue => Some(TileColor::Blue),
        _ => None,
    }
}

impl InstructionType {
    /// Check whether this kind is a function call.
    pub fn is_function_call(self) -> (r: bool)
        ensures
            r == spec_is_function_call(self),
    {
        matches!(
            self,
            InstructionType::F1
                | InstructionType::F2
                | InstructionType::F3
                | InstructionType::F4
                | InstructionType::F5
        )
    }

    /// Check whether this kind is a turn.
    pub fn is_turn(self) -> (r: bool)
        ensures
            r == spec_is_turn(self),
    {
        matches!(self, InstructionType::Left | InstructionType::Right)
    }

    /// Check whether this kind is a paint.
    pub fn is_paint(self) -> (r: bool)
        ensures
            r == spec_is_paint(self),
    {
        matches!(
            self,
            InstructionType::PaintRed | InstructionType::PaintGreen | InstructionType::PaintBlue
        )
    }

    /// The function index (0-4) if this kind is a function call.
    pub fn function_index(self) -> (r: Option<usize>)
        ensures
            r == spec_function_index(self),
            r matches Some(k) ==> k < 5,
    {
        match self {
            InstructionType::F1 => Some(0),
            InstructionType::F2 => Some(1),
            InstructionType::F3 => Some(2),
            InstructionType::F4 => Some(3),
            InstructionType::F5 => Some(4),
            _ => None,
        }
    }

    /// The painted colour if this kind is a paint.
    pub fn paint_color(self) -> (r: Option<TileColor>)
        ensures
            r == spec_paint_color(self),
    {
        match self {
            InstructionType::PaintRed => Some(TileColor::Red),
            InstructionType::PaintGreen => Some(TileColor::Green),
            InstructionType::PaintBlue => Some(TileColor::Blue),
            _ => None,
        }
    }
}

/// A single instruction with an optional colour condition.
#[derive(Clone, Copy, Debug, PartialEq, Eq, Hash, Structural)]
pub struct Instruction {
    pub instruction_type: InstructionType,
    pub condition: Option<TileColor>,
}

/// Whether an instruction fires on a tile of the given colour: an absent
/// condition always fires, a present one only on a matching tile colour.
pub open spec fn spec_should_execute(i: Instruction, tile_color: Option<TileColor>) -> bool {
    match i.condition {
        None => true,
        Some(c) => tile_color == Some(c),
    }
}

impl Instruction {
    /// An unconditional instruction of the given kind.
    pub fn new(instruction_type: InstructionType) -> (r: Self)
        ensures
            r.instruction_type == instruction_type,
            r.condition is None,
    {
        Self { instruction_type, condition: None }
    }

    /// An instruction guarded by a colour condition.
    pub fn with_condition(instruction_type: InstructionType, condition: TileColor) -> (r: Self)
        ensures
            r.instruction_type == instruction_type,
            r.condition == Some(condition),
    {
        Self { instruction_type, condition: Some(condition) }
    }

    /// Check whether this instruction fires given the current tile colour.
    pub fn should_execute(&self, tile_color: Option<TileColor>) -> (r: bool)
        ensures
            r == spec_should_execute(*self, tile_color),
    {
        match self.condition {
            None => true,
            Some(cond) => match tile_color {
                Some(c) => c == cond,
                None => false,
            },
        }
    }

    /// Check whether this instruction does nothing.
    pub fn is_noop(&self) -> (r: bool)
        ensures
            r == (self.instruction_type == InstructionType::Noop),
    {
        matches!(self.instruction_type, InstructionType::Noop)
    }
}

/// An unconditional instruction fires on any tile; a conditional one fires
/// exactly on a matching colour and never on a colourless tile.
pub proof fn lemma_condition_semantics(t: InstructionType, c: TileColor, c2: TileColor)
    ensures
        spec_should_execute(Instruction { instruction_type: t, condition: None }, Some(c2)),
        spec_should_execute(Instruction { instruction_type: t, condition: None }, None),
        spec_should_execute(Instruction { instruction_type: t, condition: Some(c) }, Some(c2))
            == (c == c2),
        !spec_should_execute(Instruction { instruction_type: t, condition: Some(c) }, None),
{
}

/// One grid cell: an optional colour and a star flag.
#[derive(Clone, Copy, Debug, PartialEq, Eq, Structural)]
pub struct Tile {
    pub color: Option<TileColor>,
    pub has_star: bool,
}

impl Tile {
    /// A coloured tile.
    pub fn new(color: TileColor, has_star: bool) -> (r: Self)
        ensures
            r.color == Some(color),
            r.has_star == has_star,
    {
        Self { color: Some(color), has_star }
    }
}

/// A grid position.  Signed so that a step off the grid can be computed
/// before the bounds check rejects it.
#[derive(Clone, Copy, Debug, PartialEq, Eq, Hash, Structural)]
pub struct Position {
    pub x: i32,
    pub y: i32,
}

impl Position {
    pub fn new(x: i32, y: i32) -> (r: Self)
        ensures
            r.x == x,
            r.y == y,
    {
        Self { x, y }
    }
}

/// The robot's starting pose.
#[derive(Clone, Copy, Debug, PartialEq, Eq, Structural)]
pub struct RobotStart {
    pub position: Position,
    pub direction: Direction,
}

/// The instruction-slot budget of each of the five functions.
#[derive(Clone, Copy, Debug, PartialEq, Eq, Structural)]
pub struct FunctionLengths {
    pub f1: usize,
    pub f2: usize,
    pub f3: usize,
    pub f4: usize,
    pub f5: usize,
}

impl FunctionLengths {
    /// The budget of function `index`, or 0 for an index past the last one.
    pub open spec fn spec_get(self, index: int) -> usize {
        if index == 0 {
            self.f1
        } else if index == 1 {
            self.f2
        } else if index == 2 {
            self.f3
        } else if index == 3 {
            self.f4
        } else if index == 4 {
            self.f5
        } else {
            0
        }
    }

    pub fn get(&self, index: usize) -> (r: usize)
        ensures
            r == self.spec_get(index as int),
    {
        match index {
            0 => self.f1,
            1 => self.f2,
            2 => self.f3,
            3 => self.f4,
            4 => self.f5,
            _ => 0,
        }
    }

    /// The combined budget of all five functions.
    pub fn total_slots(&self) -> (r: usize)
        requires
            self.f1 + self.f2 + self.f3 + self.f4 + self.f5 <= usize::MAX,
        ensures
            r == self.f1 + self.f2 + self.f3 + self.f4 + self.f5,
    {
        self.f1 + self.f2 + self.f3 + self.f4 + self.f5
    }
}

/// A program: five function bodies, each a vector of optional instructions.
/// `None` in a slot means the slot is empty.
#[derive(Clone, Debug)]
pub struct Program {
    pub f1: Vec<Option<Instruction>>,
    pub f2: Vec<Option<Instruction>>,
    pub f3: Vec<Option<Instruction>>,
    pub f4: Vec<Option<Instruction>>,
    pub f5: Vec<Option<Instruction>>,
}

impl View for Program {
    type V = Seq<Seq<Option<Instruction>>>;

    open spec fn view(&self) -> Seq<Seq<Option<Instruction>>> {
        seq![self.f1@, self.f2@, self.f3@, self.f4@, self.f5@]
    }
}

/// The instruction in slot `i` of function `f`, or `None` when the slot is
/// empty or out of range.
pub open spec fn slot_of(p: Seq<Seq<Option<Instruction>>>, f: usize, i: usize) -> Option<
    Instruction,
> {
    if f < 5 && i < p[f as int].len() {
        p[f as int][i as int]
    } else {
        None
    }
}

/// The number of filled slots in one function body.
pub open spec fn count_some(f: Seq<Option<Instruction>>) -> nat
    decreases f.len(),
{
    if f.len() == 0 {
        0
    } else {
        count_some(f.drop_last()) + (if f.last() is Some {
            1nat
        } else {
            0
        })
    }
}

/// The number of filled slots in a whole program.
pub open spec fn spec_count_instructions(p: Seq<Seq<Option<Instruction>>>) -> nat {
    count_some(p[0]) + count_some(p[1]) + count_some(p[2]) + count_some(p[3]) + count_some(p[4])
}

/// The first empty slot at or after `(f, i)` in function/slot order, or
/// `None` when every later slot is filled.
pub open spec fn spec_next_empty(p: Seq<Seq<Option<Instruction>>>, f: usize, i: usize) -> Option<
    (usize, usize),
>
    decreases 5 - f, p[f as int].len() - i,
{
    if f >= 5 {
        None
    } else if i >= p[f as int].len() {
        if f + 1 < 5 {
            spec_next_empty(p, (f + 1) as usize, 0)
        } else {
            None
        }
    } else if p[f as int][i as int] is None {
        Some((f, i))
    } else if i == usize::MAX {
        None
    } else {
        spec_next_empty(p, f, (i + 1) as usize)
    }
}

/// A next-empty result always names an in-range empty slot.
pub proof fn lemma_next_empty_in_range(p: Seq<Seq<Option<Instruction>>>, f: usize, i: usize)
    ensures
        spec_next_empty(p, f, i) matches Some(slot) ==> slot.0 < 5 && slot.1
            < p[slot.0 as int].len() && p[slot.0 as int][slot.1 as int] is None,
    decreases 5 - f, p[f as int].len() - i,
{
    if f >= 5 {
    } else if i >= p[f as int].len() {
        if f + 1 < 5 {
            lemma_next_empty_in_range(p, (f + 1) as usize, 0);
        }
    } else if p[f as int][i as int] is None {
    } else if i == usize::MAX {
    } else {
        lemma_next_empty_in_range(p, f, (i + 1) as usize);
    }
}

/// A blank program shaped to the given budgets.
pub open spec fn blank_program(lengths: FunctionLengths) -> Seq<Seq<Option<Instruction>>> {
    Seq::new(5, |k: int| Seq::new(lengths.spec_get(k) as nat, |i: int| None::<Instruction>))
}

/// The program after writing `inst` into slot `(f, i)`: function indices past
/// the last one fall through to the fifth function, and an out-of-range slot
/// index leaves the program unchanged.
pub open spec fn spec_with_slot(
    p: Seq<Seq<Option<Instruction>>>,
    f: usize,
    i: usize,
    inst: Option<Instruction>,
) -> Seq<Seq<Option<Instruction>>> {
    let k: int = if f < 4 {
        f as int
    } else {
        4
    };
    if i < p[k].len() {
        p.update(k, p[k].update(i as int, inst))
    } else {
        p
    }
}

/// A vector of `n` empty slots.
fn none_slots(n: usize) -> (v: Vec<Option<Instruction>>)
    ensures
        v@ =~= Seq::new(n as nat, |i: int| None::<Instruction>),
{
    let mut v: Vec<Option<Instruction>> = Vec::new();
    let mut k: usize = 0;
    while k < n
        invariant
            k <= n,
            v@ =~= Seq::new(k as nat, |i: int| None::<Instruction>),
        decreases n - k,
    {
        v.push(None);
        k = k + 1;
    }
    v
}

/// A copy of one function body.
fn copy_slots(src: &Vec<Option<Instruction>>) -> (v: Vec<Option<Instruction>>)
    ensures
        v@ == src@,
{
    let mut v: Vec<Option<Instruction>> = Vec::new();
    let mut k: usize = 0;
    while k < src.len()
        invariant
            k <= src.len(),
            v@ =~= src@.take(k as int),
        decreases src.len() - k,
    {
        v.push(src[k]);
        k = k + 1;
    }
    proof {
        assert(v@ =~= src@);
    }
    v
}

/// The number of filled slots among the first `k` of one function body.
fn count_some_in(f: &Vec<Option<Instruction>>) -> (n: usize)
    ensures
        n == count_some(f@),
        n <= f@.len(),
{
    let mut n: usize = 0;
    let mut k: usize = 0;
    while k < f.len()
        invariant
            k <= f@.len(),
            n == count_some(f@.take(k as int)),
            n <= k,
        decreases f.len() - k,
    {
        proof {
            assert(f@.take(k + 1).drop_last() =~= f@.take(k as int));
            assert(f@.take(k + 1).last() == f@[k as int]);
        }
        if f[k].is_some() {
            n = n + 1;
        }
        k = k + 1;
    }
    proof {
        assert(f@.take(f@.len() as int) =~= f@);
    }
    n
}

impl Program {
    /// A program with five empty function bodies.
    pub fn new() -> (r: Self)
        ensures
            r@ =~= seq![
                Seq::<Option<Instruction>>::empty(),
                Seq::<Option<Instruction>>::empty(),
                Seq::<Option<Instruction>>::empty(),
                Seq::<Option<Instruction>>::empty(),
                Seq::<Option<Instruction>>::empty(),
            ],
    {
        Self {
            f1: Vec::new(),
            f2: Vec::new(),
            f3: Vec::new(),
            f4: Vec::new(),
            f5: Vec::new(),
        }
    }

    /// A program sized to the given budgets, with every slot empty.
    pub fn with_lengths(lengths: &FunctionLengths) -> (r: Self)
        ensures
            r@ =~= blank_program(*lengths),
    {
        let r = Self {
            f1: none_slots(lengths.f1),
            f2: none_slots(lengths.f2),
            f3: none_slots(lengths.f3),
            f4: none_slots(lengths.f4),
            f5: none_slots(lengths.f5),
        };
        proof {
            assert(r@ =~~= blank_program(*lengths));
        }
        r
    }

    /// The body of function `index`.
    pub fn get_function(&self, index: usize) -> (f: &Vec<Option<Instruction>>)
        requires
            index < 5,
        ensures
            f@ == self@[index as int],
    {
        match index {
            0 => &self.f1,
            1 => &self.f2,
            2 => &self.f3,
            3 => &self.f4,
            _ => &self.f5,
        }
    }

    /// The body of function `index`, mutably; indices past the last function
    /// fall through to the fifth body.
    pub fn get_function_mut(&mut self, index: usize) -> (f: &mut Vec<Option<Instruction>>)
        ensures
            f@ == old(self)@[if index < 4 {
                index as int
            } else {
                4
            }],
            final(self)@ =~= old(self)@.update(
                if index < 4 {
                    index as int
                } else {
                    4
                },
                final(f)@,
            ),
    {
        match index {
            0 => &mut self.f1,
            1 => &mut self.f2,
            2 => &mut self.f3,
            3 => &mut self.f4,
            _ => &mut self.f5,
        }
    }

    /// Count the filled slots.
    pub fn count_instructions(&self) -> (n: usize)
        requires
            self@[0].len() + self@[1].len() + self@[2].len() + self@[3].len() + self@[4].len()
                <= usize::MAX,
        ensures
            n == spec_count_instructions(self@),
    {
        let a = count_some_in(&self.f1);
        let b = count_some_in(&self.f2);
        let c = count_some_in(&self.f3);
        let d = count_some_in(&self.f4);
        let e = count_some_in(&self.f5);
        a + b + c + d + e
    }

    /// The instruction in a slot, or `None` when the slot is empty or out of
    /// range.
    pub fn get(&self, func_index: usize, inst_index: usize) -> (r: Option<Instruction>)
        ensures
            r == slot_of(self@, func_index, inst_index),
    {
        if func_index >= 5 {
            None
        } else {
            let func = self.get_function(func_index);
            if inst_index < func.len() {
                func[inst_index]
            } else {
                None
            }
        }
    }

    /// Write a slot; an out-of-range slot index is ignored.
    pub fn set(&mut self, func_index: usize, inst_index: usize, instruction: Option<Instruction>)
        ensures
            final(self)@ =~= spec_with_slot(old(self)@, func_index, inst_index, instruction),
    {
        let func = self.get_function_mut(func_index);
        if inst_index < func.len() {
            func.set(inst_index, instruction);
        }
    }

    /// An element-for-element copy of the program.
    pub fn duplicate(&self) -> (r: Self)
        ensures
            r@ =~= self@,
    {
        Self {
            f1: copy_slots(&self.f1),
            f2: copy_slots(&self.f2),
            f3: copy_slots(&self.f3),
            f4: copy_slots(&self.f4),
            f5: copy_slots(&self.f5),
        }
    }

    /// The first empty slot at or after `(f, i)` in function/slot order.
    pub(crate) fn next_empty_from(&self, f0: usize, i0: usize) -> (r: Option<(usize, usize)>)
        requires
            f0 < 5,
        ensures
            r == spec_next_empty(self@, f0, i0),
    {
        let mut f: usize = f0;
        let mut i: usize = i0;
        loop
            invariant
                f < 5,
                spec_next_empty(self@, f0, i0) == spec_next_empty(self@, f, i),
            decreases 5 - f, if i <= self@[f as int].len() {
                self@[f as int].len() - i
            } else {
                0
            },
        {
            let func = self.get_function(f);
            if i >= func.len() {
                if f + 1 < 5 {
                    f = f + 1;
                    i = 0;
                } else {
                    return None;
                }
            } else if func[i].is_none() {
                return Some((f, i));
            } else {
                i = i + 1;
            }
        }
    }

    /// The first empty slot of the program, or `None` when it is full.
    pub fn find_empty_slot(&self) -> (r: Option<(usize, usize)>)
        ensures
            r == spec_next_empty(self@, 0, 0),
    {
        self.next_empty_from(0, 0)
    }

    /// Whether any slot is still empty.
    pub fn has_empty_slots(&self) -> (r: bool)
        ensures
            r == (spec_next_empty(self@, 0, 0) is Some),
    {
        self.find_empty_slot().is_some()
    }

    /// A copy of the program with one slot rewritten.
    pub fn with_instruction(
        &self,
        func_index: usize,
        inst_index: usize,
        instruction: Option<Instruction>,
    ) -> (r: Self)
        ensures
            r@ =~= spec_with_slot(self@, func_index, inst_index, instruction),
    {
        let mut new_program = Self {
            f1: copy_slots(&self.f1),
            f2: copy_slots(&self.f2),
            f3: copy_slots(&self.f3),
            f4: copy_slots(&self.f4),
            f5: copy_slots(&self.f5),
        };
        proof {
            assert(new_program@ =~= self@);
        }
        new_program.set(func_index, inst_index, instruction);
        new_program
    }
}

/// The mathematical view of a grid: one sequence of optional tiles per row.
pub open spec fn grid_view(g: Seq<Vec<Option<Tile>>>) -> Seq<Seq<Option<Tile>>> {
    Seq::new(g.len(), |y: int| g[y]@)
}

/// The tile at `(x, y)`, or `None` off the grid.  Bounds are per row, so
/// rows of different lengths are handled.
pub open spec fn tile_at(grid: Seq<Seq<Option<Tile>>>, x: int, y: int) -> Option<Tile> {
    if 0 <= y < grid.len() && 0 <= x < grid[y].len() {
        grid[y][x]
    } else {
        None
    }
}

/// The colour of the tile at `(x, y)`, if there is a coloured tile.
pub open spec fn color_at(grid: Seq<Seq<Option<Tile>>>, x: int, y: int) -> Option<TileColor> {
    match tile_at(grid, x, y) {
        Some(t) => t.color,
        None => None,
    }
}

/// 1 when the cell holds a starred tile, else 0.
pub open spec fn star1(t: Option<Tile>) -> nat {
    if t matches Some(tile) && tile.has_star {
        1
    } else {
        0
    }
}

/// The number of stars in one row.
pub open spec fn row_stars(row: Seq<Option<Tile>>) -> nat
    decreases row.len(),
{
    if row.len() == 0 {
        0
    } else {
        row_stars(row.drop_last()) + star1(row.last())
    }
}

/// The number of stars on the whole grid.
pub open spec fn spec_count_stars(grid: Seq<Seq<Option<Tile>>>) -> nat
    decreases grid.len(),
{
    if grid.len() == 0 {
        0
    } else {
        spec_count_stars(grid.drop_last()) + row_stars(grid.last())
    }
}

pub proof fn lemma_row_stars_update(row: Seq<Option<Tile>>, x: int, t: Option<Tile>)
    requires
        0 <= x < row.len(),
    ensures
        row_stars(row.update(x, t)) + star1(row[x]) == row_stars(row) + star1(t),
    decreases row.len(),
{
    let r2 = row.update(x, t);
    if x == row.len() - 1 {
        assert(r2.drop_last() =~= row.drop_last());
    } else {
        assert(r2.drop_last() =~= row.drop_last().update(x, t));
        lemma_row_stars_update(row.drop_last(), x, t);
    }
}

pub proof fn lemma_row_stars_elem(row: Seq<Option<Tile>>, x: int)
    requires
        0 <= x < row.len(),
    ensures
        row_stars(row) >= star1(row[x]),
    decreases row.len(),
{
    if x < row.len() - 1 {
        lemma_row_stars_elem(row.drop_last(), x);
    }
}

pub proof fn lemma_grid_stars_update(grid: Seq<Seq<Option<Tile>>>, y: int, row2: Seq<Option<Tile>>)
    requires
        0 <= y < grid.len(),
    ensures
        spec_count_stars(grid.update(y, row2)) + row_stars(grid[y]) == spec_count_stars(grid)
            + row_stars(row2),
    decreases grid.len(),
{
    let g2 = grid.update(y, row2);
    if y == grid.len() - 1 {
        assert(g2.drop_last() =~= grid.drop_last());
    } else {
        assert(g2.drop_last() =~= grid.drop_last().update(y, row2));
        lemma_grid_stars_update(grid.drop_last(), y, row2);
    }
}

pub proof fn lemma_grid_stars_elem(grid: Seq<Seq<Option<Tile>>>, y: int)
    requires
        0 <= y < grid.len(),
    ensures
        spec_count_stars(grid) >= row_stars(grid[y]),
    decreases grid.len(),
{
    if y < grid.len() - 1 {
        lemma_grid_stars_elem(grid.drop_last(), y);
    }
}

pub proof fn lemma_row_stars_prefix_le(row: Seq<Option<Tile>>, k: int)
    requires
        0 <= k <= row.len(),
    ensures
        row_stars(row.take(k)) <= row_stars(row),
    decreases row.len() - k,
{
    if k == row.len() {
        assert(row.take(k) =~= row);
    } else {
        assert(row.take(k + 1).drop_last() =~= row.take(k));
        lemma_row_stars_prefix_le(row, k + 1);
    }
}

pub proof fn lemma_grid_stars_prefix_le(grid: Seq<Seq<Option<Tile>>>, k: int)
    requires
        0 <= k <= grid.len(),
    ensures
        spec_count_stars(grid.take(k)) <= spec_count_stars(grid),
    decreases grid.len() - k,
{
    if k == grid.len() {
        assert(grid.take(k) =~= grid);
    } else {
        assert(grid.take(k + 1).drop_last() =~= grid.take(k));
        lemma_grid_stars_prefix_le(grid, k + 1);
    }
}

/// Whether some tile of the row has the given colour.
pub open spec fn row_has_color(row: Seq<Option<Tile>>, c: TileColor) -> bool {
    exists|x: int|
        0 <= x < row.len() && (#[trigger] row[x] matches Some(t) && t.color == Some(c))
}

/// Whether some tile of the grid has the given colour.
pub open spec fn has_color(grid: Seq<Seq<Option<Tile>>>, c: TileColor) -> bool {
    exists|y: int| 0 <= y < grid.len() && row_has_color(grid[y], c)
}

/// The colours that appear on the grid, in the fixed order red, green, blue.
pub open spec fn spec_available_colors(grid: Seq<Seq<Option<Tile>>>) -> Seq<TileColor> {
    (if has_color(grid, TileColor::Red) {
        seq![TileColor::Red]
    } else {
        Seq::<TileColor>::empty()
    }) + (if has_color(grid, TileColor::Green) {
        seq![TileColor::Green]
    } else {
        Seq::<TileColor>::empty()
    }) + (if has_color(grid, TileColor::Blue) {
        seq![TileColor::Blue]
    } else {
        Seq::<TileColor>::empty()
    })
}

/// A grid whose rows and columns are addressable by `i32` positions.
pub open spec fn grid_wf(grid: Seq<Seq<Option<Tile>>>) -> bool {
    &&& grid.len() <= i32::MAX
    &&& forall|y: int| 0 <= y < grid.len() ==> grid[y].len() <= i32::MAX
}

/// The mathematical view of a puzzle: everything execution depends on.
#[verifier::ext_equal]
pub ghost struct PuzzleV {
    pub grid: Seq<Seq<Option<Tile>>>,
    pub start: Position,
    pub dir: Direction,
    pub lengths: FunctionLengths,
    pub allowed: Seq<InstructionType>,
}

impl PuzzleV {
    /// Well-formedness: the grid is addressable and its star count fits the
    /// machine word.
    pub open spec fn wf(self) -> bool {
        &&& grid_wf(self.grid)
        &&& spec_count_stars(self.grid) <= usize::MAX
    }
}

/// The complete puzzle configuration.
#[derive(Clone, Debug)]
pub struct PuzzleConfig {
    pub id: String,
    pub title: String,
    pub grid: Vec<Vec<Option<Tile>>>,
    pub robot_start: RobotStart,
    pub function_lengths: FunctionLengths,
    pub allowed_instructions: Vec<InstructionType>,
    pub solution: Option<Program>,
}

impl View for PuzzleConfig {
    type V = PuzzleV;

    open spec fn view(&self) -> PuzzleV {
        PuzzleV {
            grid: grid_view(self.grid@),
            start: self.robot_start.position,
            dir: self.robot_start.direction,
            lengths: self.function_lengths,
            allowed: self.allowed_instructions@,
        }
    }
}

/// The number of stars in one row vector.
fn row_star_count(row: &Vec<Option<Tile>>) -> (n: usize)
    requires
        row_stars(row@) <= usize::MAX,
    ensures
        n == row_stars(row@),
{
    let mut n: usize = 0;
    let mut x: usize = 0;
    while x < row.len()
        invariant
            x <= row@.len(),
            n == row_stars(row@.take(x as int)),
            row_stars(row@) <= usize::MAX,
        decreases row.len() - x,
    {
        proof {
            assert(row@.take(x + 1).drop_last() =~= row@.take(x as int));
            assert(row@.take(x + 1).last() == row@[x as int]);
            lemma_row_stars_prefix_le(row@, x + 1);
        }
        match row[x] {
            Some(t) => {
                if t.has_star {
                    n = n + 1;
                }
            },
            None => {},
        }
        x = x + 1;
    }
    proof {
        assert(row@.take(row@.len() as int) =~= row@);
    }
    n
}

impl PuzzleConfig {
    /// The tile at a position, bounds-checked per row.
    pub fn get_tile(&self, x: i32, y: i32) -> (r: Option<Tile>)
        ensures
            r == tile_at(self@.grid, x as int, y as int),
    {
        if y < 0 || x < 0 {
            return None;
        }
        let yy = y as usize;
        let xx = x as usize;
        if yy < self.grid.len() {
            let row = &self.grid[yy];
            if xx < row.len() {
                return row[xx];
            }
        }
        None
    }

    /// Count the stars on the grid.
    pub fn count_stars(&self) -> (n: usize)
        requires
            spec_count_stars(self@.grid) <= usize::MAX,
        ensures
            n == spec_count_stars(self@.grid),
    {
        let ghost g = self@.grid;
        let mut n: usize = 0;
        let mut y: usize = 0;
        while y < self.grid.len()
            invariant
                y <= g.len(),
                g == grid_view(self.grid@),
                spec_count_stars(g) <= usize::MAX,
                n == spec_count_stars(g.take(y as int)),
            decreases self.grid.len() - y,
        {
            proof {
                assert(g.take(y + 1).drop_last() =~= g.take(y as int));
                assert(g.take(y + 1).last() == g[y as int]);
                lemma_grid_stars_prefix_le(g, y + 1);
                lemma_grid_stars_elem(g, y as int);
                assert(g[y as int] == self.grid@[y as int]@);
            }
            let row_n = row_star_count(&self.grid[y]);
            n = n + row_n;
            y = y + 1;
        }
        proof {
            assert(g.take(g.len() as int) =~= g);
        }
        n
    }

    /// Whether some tile of row `y` has colour `c`.
    fn row_has(&self, y: usize, c: TileColor) -> (r: bool)
        requires
            y < self.grid@.len(),
        ensures
            r == row_has_color(self@.grid[y as int], c),
    {
        let row = &self.grid[y];
        let ghost rv = self@.grid[y as int];
        let mut x: usize = 0;
        while x < row.len()
            invariant
                x <= rv.len(),
                rv == row@,
                y < self.grid@.len(),
                rv == self@.grid[y as int],
                forall|xx: int|
                    0 <= xx < x ==> !(#[trigger] rv[xx] matches Some(t) && t.color == Some(c)),
            decreases row.len() - x,
        {
            match row[x] {
                Some(t) => {
                    match t.color {
                        Some(tc) => {
                            if tc == c {
                                proof {
                                    assert((x as int) < rv.len());
                                    assert(rv[x as int] matches Some(t2) && t2.color == Some(c));
                                    assert(row_has_color(rv, c));
                                }
                                return true;
                            }
                        },
                        None => {},
                    }
                },
                None => {},
            }
            x = x + 1;
        }
        false
    }

    /// Whether some tile of the grid has colour `c`.
    pub(crate) fn grid_has_color(&self, c: TileColor) -> (r: bool)
        ensures
            r == has_color(self@.grid, c),
    {
        let ghost g = self@.grid;
        let mut y: usize = 0;
        while y < self.grid.len()
            invariant
                y <= g.len(),
                g == self@.grid,
                forall|yy: int| 0 <= yy < y ==> !row_has_color(g[yy], c),
            decreases self.grid.len() - y,
        {
            if self.row_has(y, c) {
                return true;
            }
            y = y + 1;
        }
        false
    }

    /// The colours that appear on the grid, in the fixed order red, green,
    /// blue.
    pub fn available_colors(&self) -> (r: Vec<TileColor>)
        ensures
            r@ == spec_available_colors(self@.grid),
    {
        let mut r: Vec<TileColor> = Vec::new();
        if self.grid_has_color(TileColor::Red) {
            r.push(TileColor::Red);
        }
        if self.grid_has_color(TileColor::Green) {
            r.push(TileColor::Green);
        }
        if self.grid_has_color(TileColor::Blue) {
            r.push(TileColor::Blue);
        }
        proof {
            assert(r@ =~= spec_available_colors(self@.grid));
        }
        r
    }

    /// The paint kind for a colour.
    pub open spec fn spec_paint_type(c: TileColor) -> InstructionType {
        match c {
            TileColor::Red => InstructionType::PaintRed,
            TileColor::Green => InstructionType::PaintGreen,
            TileColor::Blue => InstructionType::PaintBlue,
        }
    }

    /// Whether painting the given colour is among the allowed instructions.
    pub fn allows_paint(&self, color: TileColor) -> (r: bool)
        ensures
            r == self@.allowed.contains(Self::spec_paint_type(color)),
    {
        let paint_type = match color {
            TileColor::Red => InstructionType::PaintRed,
            TileColor::Green => InstructionType::PaintGreen,
            TileColor::Blue => InstructionType::PaintBlue,
        };
        let ghost a = self@.allowed;
        let mut k: usize = 0;
        while k < self.allowed_instructions.len()
            invariant
                k <= a.len(),
                a == self@.allowed,
                paint_type == Self::spec_paint_type(color),
                forall|kk: int| 0 <= kk < k ==> a[kk] != Self::spec_paint_type(color),
            decreases self.allowed_instructions.len() - k,
        {
            if self.allowed_instructions[k] == paint_type {
                proof {
                    assert(a[k as int] == Self::spec_paint_type(color));
                    assert(a.contains(Self::spec_paint_type(color)));
                }
                return true;
            }
            proof {
                assert(a[k as int] != Self::spec_paint_type(color));
            }
            k = k + 1;
        }
        false
    }
}

/// The conditional variants of one instruction kind, one per colour in
/// order, skipping the condition that matches a paint kind's own colour.
pub open spec fn cond_variants(t: InstructionType, colors: Seq<TileColor>) -> Seq<Instruction>
    decreases colors.len(),
{
    if colors.len() == 0 {
        Seq::empty()
    } else {
        cond_variants(t, colors.drop_last()) + (if spec_paint_color(t) == Some(colors.last()) {
            Seq::<Instruction>::empty()
        } else {
            seq![Instruction { instruction_type: t, condition: Some(colors.last()) }]
        })
    }
}

/// Every variant of the allowed kinds: for each kind the unconditional form,
/// then one conditional form per available colour.
pub open spec fn spec_variants(allowed: Seq<InstructionType>, colors: Seq<TileColor>) -> Seq<
    Instruction,
>
    decreases allowed.len(),
{
    if allowed.len() == 0 {
        Seq::empty()
    } else {
        spec_variants(allowed.drop_last(), colors) + seq![
            Instruction { instruction_type: allowed.last(), condition: None },
        ] + cond_variants(allowed.last(), colors)
    }
}

/// Build every variant of the allowed kinds over the given colours.
pub(crate) fn build_variants(allowed: &Vec<InstructionType>, colors: &Vec<TileColor>) -> (r: Vec<
    Instruction,
>)
    ensures
        r@ == spec_variants(allowed@, colors@),
{
    let mut r: Vec<Instruction> = Vec::new();
    let mut i: usize = 0;
    while i < allowed.len()
        invariant
            i <= allowed@.len(),
            r@ == spec_variants(allowed@.take(i as int), colors@),
        decreases allowed.len() - i,
    {
        let t = allowed[i];
        r.push(Instruction::new(t));
        let ghost base = r@;
        let mut j: usize = 0;
        while j < colors.len()
            invariant
                j <= colors@.len(),
                t == allowed@[i as int],
                base == spec_variants(allowed@.take(i as int), colors@) + seq![
                    Instruction { instruction_type: t, condition: None },
                ],
                r@ == base + cond_variants(t, colors@.take(j as int)),
            decreases colors.len() - j,
        {
            let color = colors[j];
            proof {
                assert(colors@.take(j + 1).drop_last() =~= colors@.take(j as int));
                assert(colors@.take(j + 1).last() == colors@[j as int]);
            }
            let skip = match t.paint_color() {
                Some(pc) => pc == color,
                None => false,
            };
            if !skip {
                r.push(Instruction::with_condition(t, color));
                proof {
                    assert(r@ =~= base + cond_variants(t, colors@.take(j + 1)));
                }
            } else {
                proof {
                    assert(r@ =~= base + cond_variants(t, colors@.take(j + 1)));
                }
            }
            j = j + 1;
        }
        proof {
            assert(colors@.take(colors@.len() as int) =~= colors@);
            assert(allowed@.take(i + 1).drop_last() =~= allowed@.take(i as int));
            assert(allowed@.take(i + 1).last() == allowed@[i as int]);
            assert(r@ =~= spec_variants(allowed@.take(i + 1), colors@));
        }
        i = i + 1;
    }
    proof {
        assert(allowed@.take(allowed@.len() as int) =~= allowed@);
    }
    r
}

impl PuzzleConfig {
    /// Every candidate instruction for this puzzle: for each allowed kind the
    /// unconditional form, then one conditional form per available colour,
    /// except a paint conditioned on its own colour.
    pub fn get_valid_instructions(&self, _for_color: Option<TileColor>) -> (r: Vec<Instruction>)
        ensures
            r@ == spec_variants(self@.allowed, spec_available_colors(self@.grid)),
    {
        let colors = self.available_colors();
        build_variants(&self.allowed_instructions, &colors)
    }
}

/// An exact step-to-instruction ratio threshold, as the fraction
/// `num / den`.
#[derive(Clone, Copy, Debug, PartialEq, Eq, Structural)]
pub struct StepRatio {
    pub num: u64,
    pub den: u64,
}

/// The thresholds below which a solved execution counts as trivial.
#[derive(Clone, Copy, Debug, PartialEq, Eq, Structural)]
pub struct MinConstraints {
    /// Minimum number of filled instruction slots.
    pub instructions: usize,
    /// Minimum number of charged execution steps.
    pub steps: usize,
    /// Minimum peak call-stack depth.
    pub recursion_depth: usize,
    /// Minimum number of conditional instructions executed.
    pub conditionals: usize,
    /// Minimum ratio of steps to instructions.
    pub step_ratio: StepRatio,
}

impl Default for MinConstraints {
    /// The default thresholds: 4 instructions, 16 steps, stack depth 3,
    /// 2 conditionals, a step ratio of 3.
    fn default() -> (r: Self)
        ensures
            r == (MinConstraints {
                instructions: 4,
                steps: 16,
                recursion_depth: 3,
                conditionals: 2,
                step_ratio: StepRatio { num: 3, den: 1 },
            }),
    {
        Self {
            instructions: 4,
            steps: 16,
            recursion_depth: 3,
            conditionals: 2,
            step_ratio: StepRatio { num: 3, den: 1 },
        }
    }
}

} // verus!
