//! What holds of random number generators.

use vstd::prelude::*;

use super::object_laws::Call;
use super::primitive::Primitive;
use super::random;
use super::reply::{Chance, Drawing, ReplyModel};
use crate::value::Value;

verus! {

/// Two generators made of the same seed are alike: they hold the same.
pub proof fn law_same_seed_makes_the_same_generator(a: Call, b: Call)
    requires
        a.of(Primitive::RandomNewSeeded, 1),
        b.of(Primitive::RandomNewSeeded, 1),
        a.argument(1) == b.argument(1),
        a.argument(1).spec_is_num(),
    ensures
        random::fields_under(&a.after, a.value()) is Some,
        random::fields_under(&a.after, a.value()) == random::fields_under(&b.after, b.value()),
{
    broadcast use crate::value::law_object_round_trip;

}

/// Generators that hold the same draw the same number, and hold the same
/// afterwards; drawing changes no other object.
pub proof fn law_alike_generators_draw_alike(a: Call, b: Call)
    requires
        a.of(Primitive::RandomInt, 0),
        b.of(Primitive::RandomInt, 0),
        random::fields_under(&a.before, a.argument(0)) matches Some(fields) && fields.len() >= 4,
        random::fields_under(&a.before, a.argument(0)) == random::fields_under(
            &b.before,
            b.argument(0),
        ),
    ensures
        a.reply is Done && a.reply == b.reply,
        random::fields_under(&a.after, a.argument(0)) == random::fields_under(
            &b.after,
            b.argument(0),
        ),
{
}

/// A random number is chosen between the bounds that are given, the first of
/// them below, or up to the one that is given; a whole one where a whole one is
/// asked for.
pub proof fn law_chance_has_the_bounds_given(call: Call)
    requires
        call.argument(1).spec_is_num(),
        call.reply is Chance,
    ensures
        call.of(Primitive::RandomFloatTo, 1) ==> call.reply->of == (Chance::UpTo {
            end: call.argument(1).0,
        }),
        call.of(Primitive::RandomIntTo, 1) ==> call.reply->of == (Chance::WholeUpTo {
            end: call.argument(1).0,
        }),
        call.of(Primitive::RandomFloatBetween, 2) && call.argument(2).spec_is_num()
            ==> call.reply->of == (Chance::Between {
            start: call.argument(1).0,
            end: call.argument(2).0,
        }),
        call.of(Primitive::RandomIntBetween, 2) && call.argument(2).spec_is_num()
            ==> call.reply->of == (Chance::WholeBetween {
            start: call.argument(1).0,
            end: call.argument(2).0,
        }),
{
}

/// Whether so much is to be drawn from the list that is given, by the generator
/// whose method it is.
pub open spec fn draws(call: Call, wanted: Drawing) -> bool {
    call.reply == (ReplyModel::Draw {
        list: call.argument(1),
        from: call.argument(0),
        drawing: wanted,
    })
}

/// Sampling draws one element, or as many as are asked for; shuffling puts the
/// list in another order.
pub proof fn law_draws_are_from_the_list_given(call: Call, elements: Seq<Value>, n: nat)
    requires
        super::lists::spec_elements(&call.before, call.argument(1)) == Some(elements),
        elements.len() > 0,
        n <= elements.len(),
        n <= usize::MAX,
    ensures
        call.of(Primitive::RandomSample, 1) ==> draws(call, Drawing::One),
        call.of(Primitive::RandomShuffle, 1) ==> draws(call, Drawing::Order),
        call.of(Primitive::RandomSampleMany, 2) && n < crate::number::MAX_COUNT && call.argument(2)
            == super::list_laws::index(n) ==> draws(call, Drawing::Many(n as usize)),
{
    if n < crate::number::MAX_COUNT {
        super::list_laws::lemma_index(n);
    }
}

} // verus!
