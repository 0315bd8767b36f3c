//! Structural pruning rules: instruction sequences that can never be part
//! of a useful solution, and program-level rejection.

use vstd::prelude::*;

use crate::puzzle::{
    build_variants, has_color, slot_of, spec_available_colors, spec_function_index, spec_is_paint,
    spec_is_turn, spec_paint_color, spec_variants, Instruction, InstructionType, Program,
    PuzzleConfig, PuzzleV, TileColor,
};

verus! {

/// Whether the ordered pair `(a, b)` of adjacent instructions is banned:
/// a turn cancelled or duplicated by its neighbour, a paint overridden by
/// the next paint, or a paint condition made vacuous by the paint before it.
/// A `Noop` neighbour never bans.
pub open spec fn spec_banned_pair(a: Instruction, b: Instruction) -> bool {
    if a.instruction_type == InstructionType::Noop || b.instruction_type == InstructionType::Noop {
        false
    } else {
        ||| (a.condition == b.condition && spec_is_turn(a.instruction_type) && spec_is_turn(
            b.instruction_type,
        ) && ((a.instruction_type == InstructionType::Left && b.instruction_type
            == InstructionType::Right) || (a.instruction_type == InstructionType::Right
            && b.instruction_type == InstructionType::Left)))
        ||| (a.condition == b.condition && spec_is_paint(a.instruction_type) && spec_is_paint(
            b.instruction_type,
        ))
        ||| (a.condition is None && spec_is_paint(a.instruction_type) && spec_is_paint(
            b.instruction_type,
        ) && b.condition == spec_paint_color(a.instruction_type))
        ||| (spec_is_paint(a.instruction_type) && b.instruction_type == a.instruction_type
            && b.condition == spec_paint_color(a.instruction_type))
    }
}

/// Whether the ordered trio `(a, b, c)` is banned: it embeds a banned pair,
/// triples one turn, or tests a colour right after painting another one
/// without moving in between.
pub open spec fn spec_banned_trio(a: Instruction, b: Instruction, c: Instruction) -> bool {
    ||| spec_banned_pair(a, b)
    ||| spec_banned_pair(b, c)
    ||| (a.condition == b.condition && b.condition == c.condition && spec_is_turn(
        a.instruction_type,
    ) && spec_is_turn(b.instruction_type) && spec_is_turn(c.instruction_type)
        && a.instruction_type == b.instruction_type && b.instruction_type == c.instruction_type)
    ||| (spec_is_paint(a.instruction_type) && a.condition is None && (spec_is_turn(
        b.instruction_type,
    ) || b.instruction_type == InstructionType::Noop) && c.condition is Some && c.condition
        != spec_paint_color(a.instruction_type))
}

/// The filled instructions of one function body, gaps collapsed.
pub open spec fn compact(f: Seq<Option<Instruction>>) -> Seq<Instruction>
    decreases f.len(),
{
    if f.len() == 0 {
        Seq::empty()
    } else {
        compact(f.drop_last()) + (match f.last() {
            Some(inst) => seq![inst],
            None => Seq::<Instruction>::empty(),
        })
    }
}

/// Whether two adjacent instructions of the sequence form a banned pair.
pub open spec fn has_banned_pair_in(c: Seq<Instruction>) -> bool {
    exists|i: int| 0 <= i && i + 1 < c.len() && spec_banned_pair(#[trigger] c[i], c[i + 1])
}

/// Whether three adjacent instructions of the sequence form a banned trio.
pub open spec fn has_banned_trio_in(c: Seq<Instruction>) -> bool {
    exists|i: int|
        0 <= i && i + 2 < c.len() && spec_banned_trio(#[trigger] c[i], c[i + 1], c[i + 2])
}

/// The function a slot calls, if the slot is filled with a call.
pub open spec fn call_target(slot: Option<Instruction>) -> Option<usize> {
    match slot {
        Some(inst) => spec_function_index(inst.instruction_type),
        None => None,
    }
}

/// The condition of a slot, if the slot is filled with a conditional
/// instruction.
pub open spec fn cond_of(slot: Option<Instruction>) -> Option<TileColor> {
    match slot {
        Some(inst) => inst.condition,
        None => None,
    }
}

/// Whether any filled slot of the program calls function `target`.
pub open spec fn spec_calls(p: Seq<Seq<Option<Instruction>>>, target: usize) -> bool {
    exists|f: int, i: int|
        0 <= f < 5 && 0 <= i < p[f].len() && #[trigger] call_target(p[f][i]) == Some(target)
}

/// Whether function `k` is reachable: the main function always is, and any
/// function called from any filled slot is.
pub open spec fn spec_reachable(p: Seq<Seq<Option<Instruction>>>, k: usize) -> bool {
    k == 0 || spec_calls(p, k)
}

/// Whether one function body has any filled slot.
pub open spec fn func_nonempty(f: Seq<Option<Instruction>>) -> bool {
    exists|i: int| 0 <= i < f.len() && f[i] is Some
}

/// Whether some non-empty function of the program is unreachable.
pub open spec fn has_unreachable(p: Seq<Seq<Option<Instruction>>>) -> bool {
    exists|k: int| 0 <= k < 5 && func_nonempty(#[trigger] p[k]) && !spec_reachable(p, k as usize)
}

/// Whether some instruction is conditioned on a colour that no tile of the
/// puzzle has.
pub open spec fn has_invalid_condition(p: Seq<Seq<Option<Instruction>>>, pz: PuzzleV) -> bool {
    exists|f: int, i: int|
        0 <= f < 5 && 0 <= i < p[f].len() && (#[trigger] cond_of(p[f][i]) matches Some(c)
            && !has_color(pz.grid, c))
}

/// Whether some instruction calls a function with no filled slot.
pub open spec fn has_empty_call(p: Seq<Seq<Option<Instruction>>>) -> bool {
    exists|f: int, i: int|
        0 <= f < 5 && 0 <= i < p[f].len() && (#[trigger] call_target(p[f][i]) matches Some(t)
            && !func_nonempty(p[t as int]))
}

/// Whether the program is structurally rejected: a banned pair or trio in
/// some function (gaps collapsed), an unreachable non-empty function, a
/// condition on an absent colour, or a call to an empty function.
pub open spec fn spec_should_reject(p: Seq<Seq<Option<Instruction>>>, pz: PuzzleV) -> bool {
    ||| (exists|f: int|
        0 <= f < 5 && (has_banned_pair_in(compact(#[trigger] p[f])) || has_banned_trio_in(
            compact(p[f]),
        )))
    ||| has_unreachable(p)
    ||| has_invalid_condition(p, pz)
    ||| has_empty_call(p)
}

/// Check whether an adjacent instruction pair is banned.
pub fn is_banned_pair(a: &Instruction, b: &Instruction, _puzzle: &PuzzleConfig) -> (r: bool)
    ensures
        r == spec_banned_pair(*a, *b),
{
    if matches!(a.instruction_type, InstructionType::Noop)
        || matches!(b.instruction_type, InstructionType::Noop) {
        return false;
    }

    let conds_equal = match (a.condition, b.condition) {
        (None, None) => true,
        (Some(x), Some(y)) => x == y,
        _ => false,
    };

    if conds_equal && a.instruction_type.is_turn() && b.instruction_type.is_turn() {
        if (matches!(a.instruction_type, InstructionType::Left) && matches!(
            b.instruction_type,
            InstructionType::Right,
        )) || (matches!(a.instruction_type, InstructionType::Right) && matches!(
            b.instruction_type,
            InstructionType::Left,
        )) {
            return true;
        }
    }

    if conds_equal && a.instruction_type.is_paint() && b.instruction_type.is_paint() {
        return true;
    }

    if a.condition.is_none() && a.instruction_type.is_paint() {
        match a.instruction_type.paint_color() {
            Some(paint_color) => {
                let b_cond_matches = match b.condition {
                    Some(c) => c == paint_color,
                    None => false,
                };
                if b_cond_matches && b.instruction_type.is_paint() {
                    return true;
                }
            },
            None => {},
        }
    }

    if a.instruction_type.is_paint() {
        match a.instruction_type.paint_color() {
            Some(paint_color) => {
                let b_cond_matches = match b.condition {
                    Some(c) => c == paint_color,
                    None => false,
                };
                if b_cond_matches && b.instruction_type == a.instruction_type {
                    return true;
                }
            },
            None => {},
        }
    }

    false
}

/// Check whether an adjacent instruction trio is banned.
pub fn is_banned_trio(
    a: &Instruction,
    b: &Instruction,
    c: &Instruction,
    puzzle: &PuzzleConfig,
) -> (r: bool)
    ensures
        r == spec_banned_trio(*a, *b, *c),
{
    if is_banned_pair(a, b, puzzle) || is_banned_pair(b, c, puzzle) {
        return true;
    }

    let ab_conds_equal = match (a.condition, b.condition) {
        (None, None) => true,
        (Some(x), Some(y)) => x == y,
        _ => false,
    };
    let bc_conds_equal = match (b.condition, c.condition) {
        (None, None) => true,
        (Some(x), Some(y)) => x == y,
        _ => false,
    };

    if ab_conds_equal && bc_conds_equal && a.instruction_type.is_turn()
        && b.instruction_type.is_turn() && c.instruction_type.is_turn() {
        if a.instruction_type == b.instruction_type && b.instruction_type == c.instruction_type {
            return true;
        }
    }

    if a.instruction_type.is_paint() && a.condition.is_none() {
        match a.instruction_type.paint_color() {
            Some(paint_color) => {
                if b.instruction_type.is_turn() || matches!(
                    b.instruction_type,
                    InstructionType::Noop,
                ) {
                    match c.condition {
                        Some(cond) => {
                            if cond != paint_color {
                                return true;
                            }
                        },
                        None => {},
                    }
                }
            },
            None => {},
        }
    }

    false
}

/// The filled instructions of one function body, gaps collapsed.
fn non_empty_instructions(f: &Vec<Option<Instruction>>) -> (v: Vec<Instruction>)
    ensures
        v@ == compact(f@),
{
    let mut v: Vec<Instruction> = Vec::new();
    let mut k: usize = 0;
    while k < f.len()
        invariant
            k <= f@.len(),
            v@ == compact(f@.take(k as int)),
        decreases f.len() - k,
    {
        proof {
            assert(f@.take(k + 1).drop_last() =~= f@.take(k as int));
            assert(f@.take(k + 1).last() == f@[k as int]);
        }
        match f[k] {
            Some(inst) => {
                v.push(inst);
                proof {
                    assert(v@ =~= compact(f@.take(k + 1)));
                }
            },
            None => {
                proof {
                    assert(v@ =~= compact(f@.take(k + 1)));
                }
            },
        }
        k = k + 1;
    }
    proof {
        assert(f@.take(f@.len() as int) =~= f@);
    }
    v
}

/// Whether one function body has any filled slot.
fn has_filled_slot(f: &Vec<Option<Instruction>>) -> (r: bool)
    ensures
        r == func_nonempty(f@),
{
    let mut k: usize = 0;
    while k < f.len()
        invariant
            k <= f@.len(),
            forall|j: int| 0 <= j < k ==> f@[j] is None,
        decreases f.len() - k,
    {
        if f[k].is_some() {
            proof {
                assert(f@[k as int] is Some);
            }
            return true;
        }
        k = k + 1;
    }
    false
}

/// Whether adjacent instructions of the vector form a banned pair.
fn has_banned_pair(v: &Vec<Instruction>, puzzle: &PuzzleConfig) -> (r: bool)
    ensures
        r == has_banned_pair_in(v@),
{
    if v.len() < 2 {
        return false;
    }
    let mut k: usize = 0;
    while k + 1 < v.len()
        invariant
            k + 1 <= v@.len(),
            forall|j: int| 0 <= j && j + 1 < k + 1 ==> !spec_banned_pair(#[trigger] v@[j], v@[j + 1]),
        decreases v.len() - k,
    {
        if is_banned_pair(&v[k], &v[k + 1], puzzle) {
            proof {
                assert(spec_banned_pair(v@[k as int], v@[k as int + 1]));
            }
            return true;
        }
        k = k + 1;
    }
    false
}

/// Whether adjacent instructions of the vector form a banned trio.
fn has_banned_trio(v: &Vec<Instruction>, puzzle: &PuzzleConfig) -> (r: bool)
    ensures
        r == has_banned_trio_in(v@),
{
    if v.len() < 3 {
        return false;
    }
    let mut k: usize = 0;
    while k + 2 < v.len()
        invariant
            k + 2 <= v@.len(),
            forall|j: int|
                0 <= j && j + 2 < k + 2 ==> !spec_banned_trio(
                    #[trigger] v@[j],
                    v@[j + 1],
                    v@[j + 2],
                ),
        decreases v.len() - k,
    {
        if is_banned_trio(&v[k], &v[k + 1], &v[k + 2], puzzle) {
            proof {
                assert(spec_banned_trio(v@[k as int], v@[k as int + 1], v@[k as int + 2]));
            }
            return true;
        }
        k = k + 1;
    }
    false
}

/// Whether any function holds a banned pair or trio among its filled
/// instructions, gaps collapsed.
fn any_banned_sequence(program: &Program, puzzle: &PuzzleConfig) -> (r: bool)
    ensures
        r == exists|f: int|
            0 <= f < 5 && (has_banned_pair_in(compact(#[trigger] program@[f]))
                || has_banned_trio_in(compact(program@[f]))),
{
    let ghost progv = program@;
    let mut func_idx: usize = 0;
    while func_idx < 5
        invariant
            func_idx <= 5,
            progv == program@,
            forall|f: int|
                0 <= f < func_idx ==> !has_banned_pair_in(compact(#[trigger] progv[f]))
                    && !has_banned_trio_in(compact(progv[f])),
        decreases 5 - func_idx,
    {
        let func = program.get_function(func_idx);
        let instructions = non_empty_instructions(func);
        if has_banned_pair(&instructions, puzzle) {
            return true;
        }
        if has_banned_trio(&instructions, puzzle) {
            return true;
        }
        func_idx = func_idx + 1;
    }
    false
}

/// Which functions are called from any filled slot; the main function
/// counts as called.
fn compute_called(program: &Program) -> (called: Vec<bool>)
    ensures
        called@.len() == 5,
        called@[0] == true,
        forall|k: int|
            1 <= k < 5 ==> #[trigger] called@[k] == spec_calls(program@, k as usize),
{
    let ghost progv = program@;
    let mut called: Vec<bool> = Vec::new();
    called.push(true);
    called.push(false);
    called.push(false);
    called.push(false);
    called.push(false);
    let mut func_idx: usize = 0;
    while func_idx < 5
        invariant
            func_idx <= 5,
            progv == program@,
            called@.len() == 5,
            called@[0] == true,
            forall|k: int| 1 <= k < 5 && #[trigger] called@[k] ==> spec_calls(progv, k as usize),
            forall|f: int, j: int|
                0 <= f < func_idx && 0 <= j < progv[f].len() ==> (#[trigger] call_target(
                    progv[f][j],
                ) matches Some(t) ==> called@[t as int]),
        decreases 5 - func_idx,
    {
        let func = program.get_function(func_idx);
        let mut i: usize = 0;
        while i < func.len()
            invariant
                i <= func@.len(),
                progv == program@,
                func@ == progv[func_idx as int],
                func_idx < 5,
                called@.len() == 5,
                called@[0] == true,
                forall|k: int| 1 <= k < 5 && #[trigger] called@[k] ==> spec_calls(progv, k as usize),
                forall|f: int, j: int|
                    0 <= f < func_idx && 0 <= j < progv[f].len() ==> (#[trigger] call_target(
                        progv[f][j],
                    ) matches Some(t) ==> called@[t as int]),
                forall|j: int|
                    0 <= j < i ==> (#[trigger] call_target(progv[func_idx as int][j])
                        matches Some(t) ==> called@[t as int]),
            decreases func.len() - i,
        {
            match func[i] {
                Some(inst) => {
                    match inst.instruction_type.function_index() {
                        Some(target) => {
                            proof {
                                assert(call_target(progv[func_idx as int][i as int]) == Some(
                                    target,
                                ));
                                assert(spec_calls(progv, target));
                            }
                            called.set(target, true);
                        },
                        None => {},
                    }
                },
                None => {},
            }
            i = i + 1;
        }
        func_idx = func_idx + 1;
    }
    proof {
        assert forall|k: int| 1 <= k < 5 implies #[trigger] called@[k] == spec_calls(
            progv,
            k as usize,
        ) by {
            if spec_calls(progv, k as usize) {
                let (f, j) = choose|f: int, j: int|
                    0 <= f < 5 && 0 <= j < progv[f].len() && #[trigger] call_target(progv[f][j])
                        == Some(k as usize);
                assert(called@[k]);
            }
        }
    }
    called
}

/// Whether some non-empty function of the program is never called.
fn any_unreachable(program: &Program) -> (r: bool)
    ensures
        r == has_unreachable(program@),
{
    let ghost progv = program@;
    let called = compute_called(program);
    let mut k: usize = 0;
    while k < 5
        invariant
            k <= 5,
            progv == program@,
            called@.len() == 5,
            called@[0] == true,
            forall|k2: int|
                1 <= k2 < 5 ==> #[trigger] called@[k2] == spec_calls(progv, k2 as usize),
            forall|k2: int|
                0 <= k2 < k ==> !(func_nonempty(#[trigger] progv[k2]) && !spec_reachable(
                    progv,
                    k2 as usize,
                )),
        decreases 5 - k,
    {
        let func = program.get_function(k);
        let has_instructions = has_filled_slot(func);
        let is_called = called[k];
        if has_instructions && !is_called {
            proof {
                assert(func_nonempty(progv[k as int]) && !spec_reachable(progv, k));
                assert(has_unreachable(progv));
            }
            return true;
        }
        k = k + 1;
    }
    false
}

/// Whether some instruction is conditioned on a colour that no tile of the
/// puzzle has.
fn any_invalid_condition(program: &Program, puzzle: &PuzzleConfig) -> (r: bool)
    ensures
        r == has_invalid_condition(program@, puzzle@),
{
    let ghost progv = program@;
    let ghost pz = puzzle@;
    let mut func_idx: usize = 0;
    while func_idx < 5
        invariant
            func_idx <= 5,
            progv == program@,
            pz == puzzle@,
            forall|f: int, i: int|
                0 <= f < func_idx && 0 <= i < progv[f].len() ==> !(#[trigger] cond_of(progv[f][i])
                    matches Some(c) && !has_color(pz.grid, c)),
        decreases 5 - func_idx,
    {
        let func = program.get_function(func_idx);
        let mut i: usize = 0;
        while i < func.len()
            invariant
                i <= func@.len(),
                progv == program@,
                pz == puzzle@,
                func@ == progv[func_idx as int],
                func_idx < 5,
                forall|j: int|
                    0 <= j < i ==> !(#[trigger] cond_of(progv[func_idx as int][j]) matches Some(c)
                        && !has_color(pz.grid, c)),
        decreases func.len() - i,
        {
            match func[i] {
                Some(inst) => {
                    match inst.condition {
                        Some(cond) => {
                            if !puzzle.grid_has_color(cond) {
                                proof {
                                    assert(cond_of(progv[func_idx as int][i as int]) == Some(cond));
                                    assert(has_invalid_condition(progv, pz));
                                }
                                return true;
                            }
                        },
                        None => {},
                    }
                },
                None => {},
            }
            i = i + 1;
        }
        func_idx = func_idx + 1;
    }
    false
}

/// Whether some instruction calls a function with no filled slot.
fn any_empty_call(program: &Program) -> (r: bool)
    ensures
        r == has_empty_call(program@),
{
    let ghost progv = program@;
    let mut func_idx: usize = 0;
    while func_idx < 5
        invariant
            func_idx <= 5,
            progv == program@,
            forall|f: int, i: int|
                0 <= f < func_idx && 0 <= i < progv[f].len() ==> !(#[trigger] call_target(
                    progv[f][i],
                ) matches Some(t) && !func_nonempty(progv[t as int])),
        decreases 5 - func_idx,
    {
        let func = program.get_function(func_idx);
        let mut i: usize = 0;
        while i < func.len()
            invariant
                i <= func@.len(),
                progv == program@,
                func@ == progv[func_idx as int],
                func_idx < 5,
                forall|j: int|
                    0 <= j < i ==> !(#[trigger] call_target(progv[func_idx as int][j])
                        matches Some(t) && !func_nonempty(progv[t as int])),
            decreases func.len() - i,
        {
            match func[i] {
                Some(inst) => {
                    match inst.instruction_type.function_index() {
                        Some(target) => {
                            let target_func = program.get_function(target);
                            if !has_filled_slot(target_func) {
                                proof {
                                    assert(call_target(progv[func_idx as int][i as int]) == Some(
                                        target,
                                    ));
                                    assert(has_empty_call(progv));
                                }
                                return true;
                            }
                        },
                        None => {},
                    }
                },
                None => {},
            }
            i = i + 1;
        }
        func_idx = func_idx + 1;
    }
    false
}

/// Check whether a program is structurally rejected: a banned pair or trio
/// within a function, an unreachable non-empty function, a condition on an
/// absent colour, or a call to a function with no instructions.
pub fn should_reject_program(program: &Program, puzzle: &PuzzleConfig) -> (r: bool)
    ensures
        r == spec_should_reject(program@, puzzle@),
{
    if any_banned_sequence(program, puzzle) {
        return true;
    }
    if any_unreachable(program) {
        return true;
    }
    if any_invalid_condition(program, puzzle) {
        return true;
    }
    if any_empty_call(program) {
        return true;
    }
    false
}

/// Which of `prev` and a candidate form a banned pair; no predecessor bans
/// nothing.
pub open spec fn banned_with(prev: Option<Instruction>, cand: Instruction) -> bool {
    match prev {
        Some(p) => spec_banned_pair(p, cand),
        None => false,
    }
}

/// The candidates that survive the banned-pair filter against `prev`, in
/// order.
pub open spec fn keep_allowed(prev: Option<Instruction>, s: Seq<Instruction>) -> Seq<Instruction>
    decreases s.len(),
{
    if s.len() == 0 {
        Seq::empty()
    } else {
        keep_allowed(prev, s.drop_last()) + (if banned_with(prev, s.last()) {
            Seq::<Instruction>::empty()
        } else {
            seq![s.last()]
        })
    }
}

/// The instructions admissible in slot `(f, i)`: every variant of the
/// puzzle's allowed kinds over its available colours, filtered against the
/// filled slot directly before, if any.
pub open spec fn spec_valid_for_slot(
    p: Seq<Seq<Option<Instruction>>>,
    f: usize,
    i: usize,
    pz: PuzzleV,
) -> Seq<Instruction> {
    let prev = if i > 0 {
        slot_of(p, f, (i - 1) as usize)
    } else {
        None
    };
    keep_allowed(prev, spec_variants(pz.allowed, spec_available_colors(pz.grid)))
}

/// The instructions that can be placed in slot `(func_index, inst_index)`
/// without forming a banned pair with the instruction directly before it.
pub fn get_valid_instructions_for_slot(
    program: &Program,
    func_index: usize,
    inst_index: usize,
    puzzle: &PuzzleConfig,
) -> (r: Vec<Instruction>)
    ensures
        r@ == spec_valid_for_slot(program@, func_index, inst_index, puzzle@),
{
    let prev = if inst_index > 0 {
        program.get(func_index, inst_index - 1)
    } else {
        None
    };
    let ghost prevg = prev;
    let colors = puzzle.available_colors();
    let candidates = build_variants(&puzzle.allowed_instructions, &colors);
    let mut r: Vec<Instruction> = Vec::new();
    let mut k: usize = 0;
    while k < candidates.len()
        invariant
            k <= candidates@.len(),
            candidates@ == spec_variants(puzzle@.allowed, spec_available_colors(puzzle@.grid)),
            prev == prevg,
            prevg == (if inst_index > 0 {
                slot_of(program@, func_index, (inst_index - 1) as usize)
            } else {
                None::<Instruction>
            }),
            r@ == keep_allowed(prevg, candidates@.take(k as int)),
        decreases candidates.len() - k,
    {
        proof {
            assert(candidates@.take(k + 1).drop_last() =~= candidates@.take(k as int));
            assert(candidates@.take(k + 1).last() == candidates@[k as int]);
        }
        let cand = candidates[k];
        let banned = match &prev {
            Some(p) => is_banned_pair(p, &cand, puzzle),
            None => false,
        };
        if !banned {
            r.push(cand);
            proof {
                assert(r@ =~= keep_allowed(prevg, candidates@.take(k + 1)));
            }
        } else {
            proof {
                assert(r@ =~= keep_allowed(prevg, candidates@.take(k + 1)));
            }
        }
        k = k + 1;
    }
    proof {
        assert(candidates@.take(candidates@.len() as int) =~= candidates@);
    }
    r
}

} // verus!
