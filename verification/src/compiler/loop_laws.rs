//! What a loop over a list does, from its start to its end.

use vstd::prelude::*;

use super::flow_laws;
use super::flow_laws::{Step, Turn};
use super::frame;
use super::grammar;
use super::grammar::{Source, State};
use crate::corelib::list_laws;
use crate::corelib::primitive::Primitive;
use crate::value::Value;

verus! {

/// Where a loop keeps how far it has got.
pub open spec fn iterator_place(x: Source, s: State, limit: nat, step: Step) -> int {
    step.run.base + flow_laws::for_sequence(x, s, limit).locals.len() + 1
}

/// Whether a machine goes round a loop over a list with these elements once:
/// from when the loop keeps something of how far it has got, `iterate(_)` was
/// called with what the loop left on top of the stack, and `iteratorValue(_)`
/// gave what was read.
pub open spec fn goes_round_list(
    x: Source,
    s: State,
    limit: nat,
    turn: Turn,
    kept: Value,
    elements: Seq<Value>,
    read: Value,
) -> bool {
    &&& frame::follows(grammar::for_statement(x, s, limit), turn.first.code)
    &&& turn.goes_round(
        turn.first.code,
        flow_laws::for_sequence(x, s, limit).code.units.len() as int + 1,
    )
    &&& turn.first.before.stack@.len() == iterator_place(x, s, limit, turn.first) + 1
    &&& turn.first.before.stack@.last() == kept
    &&& list_laws::answers(
        Primitive::ListIterate,
        elements,
        turn.second.after.stack@.last(),
        turn.iterator,
    )
    &&& list_laws::answers(
        Primitive::ListIteratorValue,
        elements,
        turn.sixth.after.stack@.last(),
        read,
    )
}

/// What a loop keeps of how far it has got, before a turn: null before the first,
/// and then what `iterate(_)` gave the time before.
pub open spec fn kept(turns: Seq<Turn>, k: int) -> Value {
    if k == 0 {
        Value::null()
    } else {
        turns[k - 1].iterator
    }
}

/// What a turn reads: `iteratorValue(_)` is called with what `iterate(_)` gave,
/// and that with what was kept.
proof fn lemma_turn(
    x: Source,
    s: State,
    limit: nat,
    turn: Turn,
    kept: Value,
    elements: Seq<Value>,
    read: Value,
)
    requires
        frame::orderly(s.code),
        grammar::for_statement(x, s, limit).fault is None,
        goes_round_list(x, s, limit, turn, kept, elements, read),
    ensures
        !turn.iterator.spec_is_falsy(),
        list_laws::answers(Primitive::ListIterate, elements, kept, turn.iterator),
        list_laws::answers(Primitive::ListIteratorValue, elements, turn.iterator, read),
{
    flow_laws::law_for_binds_what_iterating_gives(x, s, limit, turn);
}

/// A loop over a list runs its body once for each element, in order, with the
/// element as its variable: where what it keeps for itself stays as it is while
/// the body runs, what is read at each turn is the element of that place, and
/// once `iterate(_)` gives false or null all of them were read.
pub proof fn law_for_over_a_list_reads_each_element(
    x: Source,
    s: State,
    limit: nat,
    turns: Seq<Turn>,
    elements: Seq<Value>,
    read: Seq<Value>,
    last: Value,
)
    requires
        frame::orderly(s.code),
        grammar::for_statement(x, s, limit).fault is None,
        elements.len() < crate::number::MAX_COUNT,
        elements.len() <= usize::MAX,
        read.len() == turns.len(),
        forall|k: int|
            0 <= k < turns.len() ==> goes_round_list(
                x,
                s,
                limit,
                turns[k],
                #[trigger] kept(turns, k),
                elements,
                read[k],
            ),
        list_laws::answers(
            Primitive::ListIterate,
            elements,
            kept(turns, turns.len() as int),
            last,
        ),
        last.spec_is_falsy(),
    ensures
        turns.len() == elements.len(),
        forall|k: int| 0 <= k < turns.len() ==> #[trigger] read[k] == elements[k],
{
    let iterators = Seq::new(turns.len(), |k: int| turns[k].iterator);
    assert forall|k: int| 0 <= k < iterators.len() implies list_laws::answers(
        Primitive::ListIterate,
        elements,
        #[trigger] list_laws::reached(iterators, k),
        iterators[k],
    ) && !iterators[k].spec_is_falsy() by {
        let before = kept(turns, k);
        lemma_turn(x, s, limit, turns[k], before, elements, read[k]);
        assert(list_laws::reached(iterators, k) == before);
    }
    assert forall|k: int| 0 <= k < read.len() implies list_laws::answers(
        Primitive::ListIteratorValue,
        elements,
        iterators[k],
        #[trigger] read[k],
    ) by {
        let before = kept(turns, k);
        lemma_turn(x, s, limit, turns[k], before, elements, read[k]);
    }
    assert(list_laws::reached(iterators, iterators.len() as int) == kept(
        turns,
        turns.len() as int,
    ));
    list_laws::law_iterating_a_list_gives_each_element_once(elements, iterators, read, last);
}

} // verus!
