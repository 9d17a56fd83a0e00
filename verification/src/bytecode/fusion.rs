//! What fusing instruction pairs keeps.

use vstd::prelude::*;

use super::{Chunk, Op};

verus! {

/// Whether an opcode byte is that of a jump.
pub open spec fn is_jump(opcode: u8) -> bool {
    match Op::spec_from_byte(opcode) {
        Some(Op::Jump) | Some(Op::JumpIf) | Some(Op::And) | Some(Op::Or) | Some(Op::Loop) => true,
        _ => false,
    }
}

/// Whether every instruction from `at` on that can jump, or take part in a
/// pair, has the length the compiler gives it.
pub open spec fn regular(code: Seq<u16>, at: int) -> bool
    decreases code.len() - at,
{
    match super::span_at(code, at) {
        Some(units) => {
            &&& match Op::spec_from_byte(super::unit_opcode(code[at])) {
                Some(Op::LoadLocal)
                | Some(Op::StoreFieldThis)
                | Some(Op::LoadFieldThis)
                | Some(Op::Return)
                | Some(Op::Pop) => units == 1,
                Some(Op::Constant)
                | Some(Op::Jump)
                | Some(Op::JumpIf)
                | Some(Op::And)
                | Some(Op::Or)
                | Some(Op::Loop)
                | Some(Op::LoadLocalPair)
                | Some(Op::LoadLocalReturn)
                | Some(Op::StoreFieldThisPop)
                | Some(Op::LoadFieldThisReturn) => units == 2,
                Some(Op::LoadLocalConstant) => units == 3,
                _ => true,
            }
            &&& regular(code, at + units)
        },
        None => at == code.len(),
    }
}

/// Whether an instruction starts at `place`, walking from `at`.
pub open spec fn starts(code: Seq<u16>, at: int, place: int) -> bool
    decreases code.len() - at,
{
    at == place || match super::span_at(code, at) {
        Some(units) => starts(code, at + units, place),
        None => false,
    }
}

/// The parts of a unit put together come apart again.
pub proof fn lemma_unit_parts(opcode: u8, length: int, operand: u8)
    requires
        opcode < 64,
        0 <= length < 4,
    ensures
        super::unit_opcode(super::make_unit(opcode, length, operand)) == opcode,
        super::unit_length(super::make_unit(opcode, length, operand)) == length,
        super::unit_operand(super::make_unit(opcode, length, operand)) == operand,
{
}

/// Fusing keeps the length of the code and the inline operand of every unit,
/// rewrites nothing before where it starts, and leaves every unit as it is
/// whose opcode is not the first of a pair.
pub proof fn law_fusing_moves_nothing(code: Seq<u16>, targets: Set<int>, at: int)
    ensures
        super::fuse_from(code, targets, at).len() == code.len(),
        forall|i: int|
            0 <= i < code.len() ==> super::unit_operand(
                #[trigger] super::fuse_from(code, targets, at)[i],
            ) == super::unit_operand(code[i]),
        forall|i: int|
            0 <= i < at && i < code.len() ==> #[trigger] super::fuse_from(code, targets, at)[i]
                == code[i],
        forall|i: int|
            0 <= i < code.len() ==> #[trigger] super::fuse_from(code, targets, at)[i] == code[i]
                || {
                ||| Op::spec_from_byte(super::unit_opcode(code[i])) == Some(Op::LoadLocal)
                ||| Op::spec_from_byte(super::unit_opcode(code[i])) == Some(Op::StoreFieldThis)
                ||| Op::spec_from_byte(super::unit_opcode(code[i])) == Some(Op::LoadFieldThis)
            },
    decreases code.len() - at,
{
    match super::span_at(code, at) {
        None => {},
        Some(units) => {
            let second = at + units;
            if second < code.len() && super::fused_pair(code[at], code[second]) is Some
                && !targets.contains(second) {
                let rest = match super::span_at(code, second) {
                    Some(n) => n,
                    None => 1,
                };
                let op = super::fused_pair(code[at], code[second])->0;
                super::law_opcode_round_trip(op);
                let field = super::length_field(units + rest);
                lemma_unit_parts(op.spec_byte(), field, super::unit_operand(code[at]));
                let next = code.update(
                    at,
                    super::make_unit(op.spec_byte(), field, super::unit_operand(code[at])),
                );
                law_fusing_moves_nothing(next, targets, second + rest);
                let fused = super::fuse_from(code, targets, at);
                assert forall|i: int| 0 <= i < code.len() implies super::unit_operand(
                    #[trigger] fused[i],
                ) == super::unit_operand(code[i]) by {
                    assert(super::unit_operand(fused[i]) == super::unit_operand(next[i]));
                }
            } else {
                law_fusing_moves_nothing(code, targets, second);
            }
        },
    }
}

/// The second half of the pair at `at`, if there is a pair and no jump lands
/// between its halves.
pub open spec fn pair_at(code: Seq<u16>, targets: Set<int>, at: int) -> Option<Op> {
    match super::span_at(code, at) {
        None => None,
        Some(units) => if at + units < code.len() && !targets.contains(at + units) {
            super::fused_pair(code[at], code[at + units])
        } else {
            None
        },
    }
}

/// The code with the pair at `at` fused.
pub open spec fn fuse_one(code: Seq<u16>, at: int, op: Op) -> Seq<u16> {
    let units = super::unit_span(code[at]);
    let rest = super::unit_span(code[at + units]);
    code.update(
        at,
        super::make_unit(
            op.spec_byte(),
            super::length_field(units + rest),
            super::unit_operand(code[at]),
        ),
    )
}

/// What a pair in regular code looks like, and what it looks like fused.
proof fn lemma_pair_shape(code: Seq<u16>, targets: Set<int>, at: int)
    requires
        0 <= at,
        regular(code, at),
        pair_at(code, targets, at) is Some,
    ensures
        ({
            let op = pair_at(code, targets, at)->0;
            let next = fuse_one(code, at, op);
            let second = at + 1;
            let after = second + super::unit_span(code[second]);
            &&& super::span_at(code, at) == Some(1int)
            &&& super::span_at(code, second) == Some(after - second)
            &&& after <= code.len()
            &&& at + 2 <= after <= at + 3
            &&& regular(code, second)
            &&& regular(code, after)
            &&& !is_jump(super::unit_opcode(code[at]))
            &&& !is_jump(super::unit_opcode(code[second]))
            &&& super::span_at(next, at) == Some(after - at)
            &&& super::unit_opcode(next[at]) == op.spec_byte()
            &&& !is_jump(super::unit_opcode(next[at]))
            &&& forall|unit: u16| #[trigger] super::fused_pair(next[at], unit) is None
            &&& super::fuse_from(code, targets, at) == super::fuse_from(next, targets, after)
            &&& op != Op::LoadLocalConstant ==> after == at + 2
            &&& op == Op::LoadLocalConstant ==> after == at + 3
            &&& op == Op::LoadLocalConstant || op == Op::LoadLocalPair || op == Op::LoadLocalReturn
                || op == Op::StoreFieldThisPop || op == Op::LoadFieldThisReturn
        }),
{
    let op = pair_at(code, targets, at)->0;
    let units = super::unit_span(code[at]);
    assert(super::span_at(code, at) == Some(units));
    let second = at + units;
    assert(regular(code, second));
    assert(units == 1);
    let rest = super::unit_span(code[second]);
    super::law_opcode_round_trip(op);
    match super::span_at(code, second) {
        Some(n) => {
            assert(n == rest);
        },
        None => {
            assert(second == code.len());
        },
    }
    lemma_unit_parts(
        op.spec_byte(),
        super::length_field(units + rest),
        super::unit_operand(code[at]),
    );
}

/// Fusing goes on past an instruction that is not fused.
proof fn lemma_no_pair(code: Seq<u16>, targets: Set<int>, at: int)
    requires
        pair_at(code, targets, at) is None,
    ensures
        super::fuse_from(code, targets, at) == match super::span_at(code, at) {
            Some(units) => super::fuse_from(code, targets, at + units),
            None => code,
        },
{
}

/// Fused code is regular, and has no pair left to fuse.
proof fn lemma_fused_once(code: Seq<u16>, targets: Set<int>, at: int)
    requires
        0 <= at <= code.len(),
        regular(code, at),
    ensures
        regular(super::fuse_from(code, targets, at), at),
        super::fuse_from(super::fuse_from(code, targets, at), targets, at) == super::fuse_from(
            code,
            targets,
            at,
        ),
    decreases code.len() - at,
{
    let fused = super::fuse_from(code, targets, at);
    law_fusing_moves_nothing(code, targets, at);
    if pair_at(code, targets, at) is Some {
        lemma_pair_shape(code, targets, at);
        let op = pair_at(code, targets, at)->0;
        super::law_opcode_round_trip(op);
        let next = fuse_one(code, at, op);
        let after = at + 1 + super::unit_span(code[at + 1]);
        lemma_later(code, next, after, at);
        lemma_fused_once(next, targets, after);
        law_fusing_moves_nothing(next, targets, after);
        assert(fused[at] == next[at]);
        assert(super::span_at(fused, at) == Some(after - at));
        assert(pair_at(fused, targets, at) is None);
        lemma_no_pair(fused, targets, at);
    } else {
        lemma_no_pair(code, targets, at);
        match super::span_at(code, at) {
            None => {},
            Some(units) => {
                let second = at + units;
                lemma_fused_once(code, targets, second);
                law_fusing_moves_nothing(code, targets, second);
                assert(fused[at] == code[at]);
                assert(super::span_at(fused, at) == Some(units));
                if second < code.len() && !targets.contains(second) {
                    lemma_pair_stays(code, targets, at, second);
                }
                assert(pair_at(fused, targets, at) is None);
                lemma_no_pair(fused, targets, at);
            },
        }
    }
}

/// Fusing changes no jump.
proof fn lemma_fused_lands(code: Seq<u16>, targets: Set<int>, at: int, t: int)
    requires
        0 <= at <= code.len(),
        regular(code, at),
    ensures
        super::lands_from(super::fuse_from(code, targets, at), at, t) == super::lands_from(
            code,
            at,
            t,
        ),
    decreases code.len() - at,
{
    let fused = super::fuse_from(code, targets, at);
    law_fusing_moves_nothing(code, targets, at);
    if pair_at(code, targets, at) is Some {
        lemma_pair_shape(code, targets, at);
        let op = pair_at(code, targets, at)->0;
        let next = fuse_one(code, at, op);
        let second = at + 1;
        let after = second + super::unit_span(code[second]);
        lemma_later(code, next, after, at);
        lemma_fused_lands(next, targets, after, t);
        law_fusing_moves_nothing(next, targets, after);
        assert(fused[at] == next[at]);
        assert(super::lands_from(code, at, t) == super::lands_from(code, second, t));
        assert(super::lands_from(code, second, t) == super::lands_from(code, after, t));
        assert(super::lands_from(fused, at, t) == super::lands_from(fused, after, t));
    } else {
        lemma_no_pair(code, targets, at);
        match super::span_at(code, at) {
            None => {},
            Some(units) => {
                let second = at + units;
                lemma_fused_lands(code, targets, second, t);
                law_fusing_moves_nothing(code, targets, second);
                assert(fused[at] == code[at]);
                assert(super::span_at(fused, at) == Some(units));
                if is_jump(super::unit_opcode(code[at])) {
                    assert(units == 2);
                    assert(fused[at + 1] == code[at + 1]);
                }
                assert(super::jump_target(fused, at) == super::jump_target(code, at));
            },
        }
    }
}

/// Fusing takes away no start that a jump lands on, and none of a jump.
proof fn lemma_fused_starts(code: Seq<u16>, targets: Set<int>, at: int, p: int)
    requires
        0 <= at <= code.len(),
        regular(code, at),
        starts(code, at, p),
    ensures
        targets.contains(p) ==> starts(super::fuse_from(code, targets, at), at, p),
        p < code.len() && is_jump(super::unit_opcode(code[p])) ==> starts(
            super::fuse_from(code, targets, at),
            at,
            p,
        ) && super::fuse_from(code, targets, at)[p] == code[p],
    decreases code.len() - at,
{
    let fused = super::fuse_from(code, targets, at);
    law_fusing_moves_nothing(code, targets, at);
    lemma_starts_at(code, at, p);
    if pair_at(code, targets, at) is Some {
        lemma_pair_shape(code, targets, at);
        let op = pair_at(code, targets, at)->0;
        let next = fuse_one(code, at, op);
        let second = at + 1;
        let after = second + super::unit_span(code[second]);
        lemma_later(code, next, after, at);
        law_fusing_moves_nothing(next, targets, after);
        assert(fused[at] == next[at]);
        if p != at {
            assert(starts(code, second, p));
            if p != second {
                assert(starts(code, after, p));
                lemma_starts_at(code, after, p);
                lemma_fused_starts(next, targets, after, p);
                if p < code.len() {
                    assert(next[p] == code[p]);
                }
                assert(super::span_at(fused, at) == Some(after - at));
            }
        }
    } else {
        lemma_no_pair(code, targets, at);
        if p != at {
            let units = super::span_at(code, at)->0;
            let second = at + units;
            assert(starts(code, second, p));
            lemma_fused_starts(code, targets, second, p);
            law_fusing_moves_nothing(code, targets, second);
            assert(fused[at] == code[at]);
            assert(super::span_at(fused, at) == Some(units));
        } else {
            match super::span_at(code, at) {
                Some(units) => {
                    law_fusing_moves_nothing(code, targets, at + units);
                },
                None => {},
            }
        }
    }
}

/// A walk never goes back.
proof fn lemma_starts_at(code: Seq<u16>, at: int, place: int)
    requires
        starts(code, at, place),
    ensures
        at <= place,
    decreases code.len() - at,
{
    if at != place {
        match super::span_at(code, at) {
            Some(units) => lemma_starts_at(code, at + units, place),
            None => {},
        }
    }
}

/// Rewriting a unit does not change the walk past it.
proof fn lemma_later(code: Seq<u16>, next: Seq<u16>, from: int, changed: int)
    requires
        next.len() == code.len(),
        0 <= changed < from,
        forall|i: int| 0 <= i < code.len() && i != changed ==> next[i] == code[i],
    ensures
        regular(next, from) == regular(code, from),
        super::jumps_whole(next, from) == super::jumps_whole(code, from),
        forall|t: int| #[trigger] super::lands_from(next, from, t) == super::lands_from(code, from, t),
        forall|p: int| #[trigger] starts(next, from, p) == starts(code, from, p),
    decreases code.len() - from,
{
    match super::span_at(code, from) {
        Some(units) => {
            lemma_later(code, next, from + units, changed);
            assert forall|t: int| #[trigger]
                super::lands_from(next, from, t) == super::lands_from(code, from, t) by {
                assert(super::jump_target(next, from) == super::jump_target(code, from));
                assert(super::lands_from(next, from + units, t) == super::lands_from(
                    code,
                    from + units,
                    t,
                ));
            }
            assert forall|p: int| #[trigger] starts(next, from, p) == starts(code, from, p) by {
                assert(starts(next, from + units, p) == starts(code, from + units, p));
            }
        },
        None => {},
    }
}

/// Two instructions that are no pair are none after the second is fused with
/// what follows it.
proof fn lemma_pair_stays(code: Seq<u16>, targets: Set<int>, at: int, second: int)
    requires
        0 <= at < second < code.len(),
        super::fused_pair(code[at], code[second]) is None,
    ensures
        super::fused_pair(
            super::fuse_from(code, targets, second)[at],
            super::fuse_from(code, targets, second)[second],
        ) is None,
{
    let fused = super::fuse_from(code, targets, second);
    law_fusing_moves_nothing(code, targets, second);
    assert(fused[at] == code[at]);
    match super::span_at(code, second) {
        None => {},
        Some(units) => {
            let third = second + units;
            if third < code.len() && super::fused_pair(code[second], code[third]) is Some
                && !targets.contains(third) {
                let rest = match super::span_at(code, third) {
                    Some(n) => n,
                    None => 1,
                };
                let op = super::fused_pair(code[second], code[third])->0;
                super::law_opcode_round_trip(op);
                let field = super::length_field(units + rest);
                lemma_unit_parts(op.spec_byte(), field, super::unit_operand(code[second]));
                let next = code.update(
                    second,
                    super::make_unit(op.spec_byte(), field, super::unit_operand(code[second])),
                );
                law_fusing_moves_nothing(next, targets, third + rest);
                assert(fused[second] == next[second]);
            } else {
                law_fusing_moves_nothing(code, targets, third);
                assert(fused[second] == code[second]);
            }
        },
    }
}

/// Fusing regular code twice does what fusing it once does: the pass can run
/// again on code that is already fused.
pub proof fn law_fusing_is_idempotent(code: Seq<u16>)
    requires
        regular(code, 0),
    ensures
        ({
            let fused = super::fuse_from(code, super::landings(code), 0);
            &&& regular(fused, 0)
            &&& super::landings(fused) == super::landings(code)
            &&& super::fuse_from(fused, super::landings(fused), 0) == fused
        }),
{
    let fused = super::fuse_from(code, super::landings(code), 0);
    lemma_fused_once(code, super::landings(code), 0);
    assert forall|t: int| #[trigger] super::landings(fused).contains(t) == super::landings(
        code,
    ).contains(t) by {
        lemma_fused_lands(code, super::landings(code), 0, t);
    }
    assert(super::landings(fused) =~= super::landings(code));
}

/// No jump is left without a landing: where a jump lands on the start of an
/// instruction, an instruction still starts there once the pairs are fused,
/// and the jump itself is still there unchanged.
pub proof fn law_fusing_keeps_landings(code: Seq<u16>, place: int)
    requires
        regular(code, 0),
        starts(code, 0, place),
    ensures
        ({
            let fused = super::fuse_from(code, super::landings(code), 0);
            &&& super::lands_from(code, 0, place) ==> starts(fused, 0, place)
            &&& 0 <= place < code.len() && is_jump(super::unit_opcode(code[place])) ==> starts(
                fused,
                0,
                place,
            ) && fused[place] == code[place]
        }),
{
    lemma_fused_starts(code, super::landings(code), 0, place);
}

/// A walk over regular code ends exactly where the code does.
proof fn lemma_regular_ends(code: Seq<u16>, at: int)
    requires
        0 <= at <= code.len(),
        regular(code, at),
    ensures
        starts(code, at, code.len() as int),
    decreases code.len() - at,
{
    match super::span_at(code, at) {
        Some(units) => lemma_regular_ends(code, at + units),
        None => {},
    }
}

/// A walk over finished code, instruction by instruction, ends exactly where the
/// code does.
pub proof fn law_finished_code_is_walked_to_its_end(code: Seq<u16>)
    requires
        regular(code, 0),
    ensures
        ({
            let finished = super::fuse_from(code, super::landings(code), 0);
            &&& finished.len() == code.len()
            &&& starts(finished, 0, finished.len() as int)
        }),
{
    let finished = super::fuse_from(code, super::landings(code), 0);
    law_fusing_moves_nothing(code, super::landings(code), 0);
    lemma_fused_once(code, super::landings(code), 0);
    lemma_regular_ends(finished, 0);
}

/// A walk goes the same way as far as the code is the same.
proof fn lemma_same_walk(code: Seq<u16>, longer: Seq<u16>, at: int, place: int)
    requires
        0 <= at <= place <= code.len() <= longer.len(),
        starts(code, at, place),
        forall|i: int| 0 <= i < place ==> code[i] == longer[i],
    ensures
        starts(longer, at, place),
    decreases code.len() - at,
{
    if at != place {
        match super::span_at(code, at) {
            Some(units) => {
                lemma_starts_at(code, at + units, place);
                lemma_same_walk(code, longer, at + units, place);
            },
            None => {},
        }
    }
}

/// A walk can go on from where another one got to.
proof fn lemma_walk_on(code: Seq<u16>, at: int, between: int, place: int)
    requires
        starts(code, at, between),
        starts(code, between, place),
    ensures
        starts(code, at, place),
    decreases code.len() - at,
{
    if at != between {
        match super::span_at(code, at) {
            Some(units) => lemma_walk_on(code, at + units, between, place),
            None => {},
        }
    }
}

/// Closing an instruction makes it whole: where the walk reaches its start, and
/// it has at most two operand units, or as many more than one as its inline
/// operand says, the walk then ends exactly where the code does.
pub proof fn law_closed_instruction_is_whole(chunk: &Chunk)
    requires
        chunk.wf(),
        chunk.open_at() matches Some(start) && {
            &&& starts(chunk.code@, 0, start)
            &&& chunk.code@.len() - start <= 3 || super::unit_operand(chunk.code@[start])
                == chunk.code@.len() - start - 2
        },
    ensures
        starts(chunk.sealed(), 0, chunk.code@.len() as int),
{
    let start = chunk.open_at()->0;
    let units = chunk.code@.len() - start;
    let unit = chunk.code@[start];
    let sealed = chunk.sealed();
    lemma_unit_parts(
        super::unit_opcode(unit),
        super::length_field(units),
        super::unit_operand(unit),
    );
    lemma_same_walk(chunk.code@, sealed, 0, start);
    assert(super::span_at(sealed, start) == Some(units));
    assert(starts(sealed, start + units, chunk.code@.len() as int));
    lemma_walk_on(sealed, 0, start, chunk.code@.len() as int);
}

} // verus!
