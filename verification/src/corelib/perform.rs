//! Carrying out the methods of the core library.

use vstd::prelude::*;

use super::arguments;
use super::arguments::receiver;
use super::family::Family;
use super::fiber_methods;
use super::fiber_methods::{reply_of_fiber_move, reply_of_fiber_query};
use super::list_methods;
use super::list_methods::{
    make_list, make_listing, reply_of_list_change, reply_of_list_query,
};
use super::lists;
use super::lists::new_list;
use super::maps;
use super::maps::{
    map_listing, new_map, reply_of_map_change, reply_of_map_entry, reply_of_map_query,
};
use super::numbers;
use super::numbers::{reply_of_number, reply_of_rounding};
use super::objects;
use super::objects::reply_of_object;
use super::primitive::Primitive;
use super::random;
use super::random::{
    reply_of_list_draw, reply_of_random_draw, reply_of_random_int, reply_of_seed,
};
use super::ranges;
use super::ranges::{reply_of_range_maker, reply_of_range_query};
use super::reply::{give, Reply, ReplyModel};
use super::sequences;
use super::sequences::{end_line, reply_of_take, reply_of_view_maker, reply_of_work};
use super::string_methods;
use super::string_methods::{
    reply_of_string_lister, reply_of_string_maker, reply_of_string_query,
};
use crate::value::Value;
use crate::vm::Vm;

verus! {

/// Whether a reply leaves the machine as it was.
pub open spec fn answered(before: &Vm, after: &Vm, reply: ReplyModel, expected: ReplyModel) -> bool {
    *after == *before && reply == expected
}

/// Whether a machine is an earlier one after what a map holds was listed.
pub open spec fn map_listed(
    before: &Vm,
    after: &Vm,
    p: Primitive,
    at: usize,
    reply: ReplyModel,
) -> bool {
    let entries = maps::entries_or_none(before, arguments::given(before, at, 0));
    &&& reply matches ReplyModel::Done(Ok(value))
    &&& lists::made_list(
        before,
        after,
        value,
        if p is MapKeys {
            maps::keys_of(entries)
        } else {
            maps::values_of(entries)
        },
    )
}

/// Whether a machine is an earlier one after a method that there was room for
/// was called with what it takes.
pub open spec fn carried_out(
    before: &Vm,
    after: &Vm,
    p: Primitive,
    at: usize,
    reply: ReplyModel,
) -> bool {
    match p.spec_family() {
        Family::Objects => answered(before, after, reply, objects::object_reply(before, p, at)),
        Family::Numbers => answered(before, after, reply, numbers::number_reply(before, p, at)),
        Family::Rounding => *after == *before && (reply matches ReplyModel::Done(Ok(value))
            && numbers::rounds(
            p,
            arguments::num_or_nan(arguments::given(before, at, 0)),
            value.0,
        )),
        Family::StringQueries => answered(
            before,
            after,
            reply,
            string_methods::query_reply(before, p, at),
        ),
        Family::StringMakers => string_methods::made(before, after, p, at, reply),
        Family::StringListers => string_methods::listed(before, after, p, at, reply),
        Family::ListQueries => answered(
            before,
            after,
            reply,
            list_methods::list_reply(before, p, at),
        ),
        Family::ListMakers => list_methods::listed(
            before,
            after,
            list_methods::spec_listing(before, p, at),
            reply,
        ),
        Family::ListChanges => list_methods::list_changed(
            before,
            after,
            arguments::given(before, at, 0),
            list_methods::list_change(before, p, at),
            reply,
        ),
        Family::MapQueries => answered(before, after, reply, maps::map_reply(before, p, at)),
        Family::MapChanges => maps::map_changed(before, after, p, at, reply),
        Family::MapListers => map_listed(before, after, p, at, reply),
        Family::MapNew => maps::made_map(before, after, reply),
        Family::MapEntry => maps::read_entry(before, after, at, reply),
        Family::RangeMakers => ranges::ranged(before, after, p, at, reply),
        Family::RangeQueries => answered(before, after, reply, ranges::range_reply(before, p, at)),
        Family::FiberQueries => answered(
            before,
            after,
            reply,
            fiber_methods::fiber_reply(before, p, at),
        ),
        Family::FiberMoves => fiber_methods::moved(before, after, p, at, reply),
        Family::Work => answered(before, after, reply, sequences::work_reply(before, p, at)),
        Family::ViewMakers => sequences::viewed(before, after, p, at, reply),
        Family::Take => sequences::took(before, after, at, reply),
        Family::Line => sequences::line_ended(before, after, reply),
        Family::RandomNew => answered(before, after, reply, ReplyModel::Seed),
        Family::RandomSeed => random::sown(before, after, at, reply),
        Family::RandomDraws => random::chanced(before, after, p, at, reply),
        Family::RandomInt => random::drew_whole(before, after, at, reply),
        Family::ListDraws => answered(before, after, reply, random::draw_reply(before, p, at)),
    }
}

/// Whether a method makes an object, or writes to one that may have to grow.
pub open spec fn makes(p: Primitive) -> bool {
    match p.spec_family() {
        Family::StringMakers | Family::StringListers | Family::ListMakers | Family::MapListers
        | Family::MapNew | Family::MapEntry | Family::RangeMakers | Family::ViewMakers
        | Family::Take | Family::RandomSeed | Family::RandomDraws | Family::RandomInt => true,
        Family::FiberMoves => p is FiberNew,
        _ => false,
    }
}

/// Whether a method makes an object, or writes to one that may have to grow.
fn makes_more(p: Primitive) -> (r: bool)
    ensures
        r == makes(p),
{
    match p.family() {
        Family::StringMakers | Family::StringListers | Family::ListMakers | Family::MapListers
        | Family::MapNew | Family::MapEntry | Family::RangeMakers | Family::ViewMakers
        | Family::Take | Family::RandomSeed | Family::RandomDraws | Family::RandomInt => true,
        Family::FiberMoves => matches!(p, Primitive::FiberNew),
        _ => false,
    }
}

/// Whether a machine is an earlier one after a method was called.
pub open spec fn performed(
    before: &Vm,
    after: &Vm,
    p: Primitive,
    at: usize,
    reply: ReplyModel,
) -> bool {
    if !arguments::called_with(before, at, p.spec_arity()) {
        answered(before, after, reply, ReplyModel::Stuck)
    } else if makes(p) && !before.heap.has_room(1) {
        answered(before, after, reply, ReplyModel::Full)
    } else {
        carried_out(before, after, p, at, reply)
    }
}

/// Carry out a method of the core library, with its receiver and arguments on
/// the stack from a place on.
#[verifier::rlimit(60)]
pub fn perform(vm: &mut Vm, p: Primitive, at: usize) -> (reply: Reply)
    requires
        old(vm).wf(),
    ensures
        final(vm).wf(),
        performed(old(vm), final(vm), p, at, reply.model()),
{
    let size: usize = vm.stack.len();
    let arity: usize = p.arity();
    if at >= size || size - at <= arity {
        return Reply::Stuck;
    }
    if makes_more(p) && !vm.heap.fits_more(1) {
        return Reply::Full;
    }
    match p.family() {
        Family::Objects => reply_of_object(vm, p, at),
        Family::Numbers => reply_of_number(vm, p, at),
        Family::Rounding => reply_of_rounding(vm, p, at),
        Family::StringQueries => reply_of_string_query(vm, p, at),
        Family::StringMakers => reply_of_string_maker(vm, p, at),
        Family::StringListers => reply_of_string_lister(vm, p, at),
        Family::ListQueries => reply_of_list_query(vm, p, at),
        Family::ListMakers => {
            let listing = make_listing(vm, p, at);
            make_list(vm, listing)
        },
        Family::ListChanges => reply_of_list_change(vm, p, at),
        Family::MapQueries => reply_of_map_query(vm, p, at),
        Family::MapChanges => reply_of_map_change(vm, p, at),
        Family::MapListers => {
            let keys: bool = matches!(p, Primitive::MapKeys);
            let values: Vec<Value> = map_listing(vm, receiver(vm, at), keys);
            give(new_list(vm, values))
        },
        Family::MapNew => new_map(vm),
        Family::MapEntry => reply_of_map_entry(vm, at),
        Family::RangeMakers => reply_of_range_maker(vm, p, at),
        Family::RangeQueries => reply_of_range_query(vm, p, at),
        Family::FiberQueries => reply_of_fiber_query(vm, p, at),
        Family::FiberMoves => reply_of_fiber_move(vm, p, at),
        Family::Work => reply_of_work(vm, p, at),
        Family::ViewMakers => reply_of_view_maker(vm, p, at),
        Family::Take => reply_of_take(vm, at),
        Family::Line => end_line(vm),
        Family::RandomNew => Reply::Seed,
        Family::RandomSeed => reply_of_seed(vm, at),
        Family::RandomDraws => reply_of_random_draw(vm, p, at),
        Family::RandomInt => reply_of_random_int(vm, at),
        Family::ListDraws => reply_of_list_draw(vm, p, at),
    }
}

} // verus!
