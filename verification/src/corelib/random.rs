//! Random numbers.

use vstd::prelude::*;

use super::arguments;
use super::arguments::{argument, number_argument, receiver};
use super::list_methods;
use super::list_methods::set_elements;
use super::lists;
use super::lists::{list_elements, list_length, new_list};
use super::primitive::Primitive;
use super::reply;
use super::reply::{deny, give, Chance, Drawing, Reply, ReplyModel};
use super::views;
use super::views::new_view;
use crate::handle::ObjectId;
use crate::heap::{HeapModel, InstanceModel};
use crate::number::{counted_word, less, to_i64, to_u32, to_usize};
use crate::value::Value;
use crate::vm::Vm;

verus! {

/// What a random number generator remembers.
#[derive(Clone, Copy, PartialEq, Eq, Structural, Debug)]
pub struct Words {
    pub a: u32,
    pub b: u32,
    pub c: u32,
    pub d: u32,
}

impl Words {
    /// What the generator remembers after one more number, which is the last
    /// word of it.
    pub open spec fn spec_step(self) -> Words {
        let t = self.a ^ (self.a << 11u32);
        let t = t ^ (t >> 8u32);
        Words { a: self.b, b: self.c, c: self.d, d: self.d ^ (self.d >> 19u32) ^ t }
    }

    /// Whether there is anything to go on from.
    pub open spec fn alive(self) -> bool {
        self.a != 0 || self.b != 0 || self.c != 0 || self.d != 0
    }

    /// So many steps.
    pub open spec fn spec_steps(self, count: nat) -> Words
        decreases count,
    {
        if count == 0 {
            self
        } else {
            self.spec_step().spec_steps((count - 1) as nat)
        }
    }

    /// What a seed makes, before any step.
    pub open spec fn spec_planted(seed: u32) -> Words {
        Words {
            a: seed ^ 0x9e37_79b9,
            b: seed.wrapping_mul(0x85eb_ca6b) | 1,
            c: seed.wrapping_mul(0xc2b2_ae35) ^ 0x1234_5678,
            d: ((seed << 16u32) | (seed >> 16u32)) | 0x8000_0000,
        }
    }

    /// What a generator with a seed remembers to begin with.
    pub open spec fn spec_seeded(seed: u32) -> Words {
        Words::spec_planted(seed).spec_steps(8)
    }

    /// Step on, and give the number.
    pub fn step(&mut self) -> (number: u32)
        ensures
            *final(self) == old(self).spec_step(),
            number == final(self).d,
    {
        let first: u32 = self.a ^ (self.a << 11u32);
        let second: u32 = first ^ (first >> 8u32);
        let last: u32 = self.d ^ (self.d >> 19u32) ^ second;
        *self = Words { a: self.b, b: self.c, c: self.d, d: last };
        last
    }

    /// What a generator with a seed remembers to begin with.
    pub fn seeded(seed: u32) -> (words: Words)
        ensures
            words == Words::spec_seeded(seed),
            words.alive(),
    {
        let mut words = Words {
            a: seed ^ 0x9e37_79b9,
            b: seed.wrapping_mul(0x85eb_ca6b) | 1,
            c: seed.wrapping_mul(0xc2b2_ae35) ^ 0x1234_5678,
            d: ((seed << 16u32) | (seed >> 16u32)) | 0x8000_0000,
        };
        let ghost planted = words;
        let mut left: u8 = 8;
        while left > 0
            invariant
                left <= 8,
                planted == Words::spec_planted(seed),
                words.spec_steps(left as nat) == planted.spec_steps(8),
            decreases left,
        {
            words.step();
            left = left - 1;
        }
        proof {
            law_seeded_generator_is_alive(seed);
        }
        words
    }
}

/// A generator that has anything to go on from always has.
pub proof fn law_step_keeps_alive(words: Words)
    requires
        words.alive(),
    ensures
        words.spec_step().alive(),
{
    let a = words.a;
    let d = words.d;
    assert(a != 0 && d == 0 ==> {
        let t = a ^ (a << 11u32);
        let u = t ^ (t >> 8u32);
        (d ^ (d >> 19u32) ^ u) != 0
    }) by (bit_vector);
}

/// However many steps it takes, a generator has something to go on from.
pub proof fn law_steps_keep_alive(words: Words, count: nat)
    requires
        words.alive(),
    ensures
        words.spec_steps(count).alive(),
    decreases count,
{
    if count > 0 {
        law_step_keeps_alive(words);
        law_steps_keep_alive(words.spec_step(), (count - 1) as nat);
    }
}

/// Whatever the seed, there is something to go on from.
pub proof fn law_seeded_generator_is_alive(seed: u32)
    ensures
        Words::spec_seeded(seed).alive(),
{
    let product = seed.wrapping_mul(0x85eb_ca6b);
    assert(product | 1 != 0) by (bit_vector);
    law_steps_keep_alive(Words::spec_planted(seed), 8);
}

/// The fields that words are kept in.
pub open spec fn word_fields(words: Words) -> Seq<Value> {
    seq![
        Value::num(crate::number::tally(words.a as nat)),
        Value::num(crate::number::tally(words.b as nat)),
        Value::num(crate::number::tally(words.c as nat)),
        Value::num(crate::number::tally(words.d as nat)),
    ]
}

/// The fields that words are kept in.
fn fields_of(words: Words) -> (fields: Vec<Value>)
    ensures
        fields@ == word_fields(words),
{
    let mut fields: Vec<Value> = Vec::new();
    fields.push(Value::num(counted_word(words.a as u64)));
    fields.push(Value::num(counted_word(words.b as u64)));
    fields.push(Value::num(counted_word(words.c as u64)));
    fields.push(Value::num(counted_word(words.d as u64)));
    proof {
        assert(fields@ =~= word_fields(words));
    }
    fields
}

/// The word that a field holds.
pub open spec fn word_in(field: Value) -> u32 {
    if field.spec_is_num() {
        crate::number::pressed(field.0, 0, u32::MAX as int) as u32
    } else {
        0
    }
}

/// The word that a field holds.
fn word_of(field: Value) -> (word: u32)
    ensures
        word == word_in(field),
{
    match field.as_num() {
        Some(bits) => to_u32(bits),
        None => 0,
    }
}

/// The words that fields hold.
pub open spec fn words_in(fields: Seq<Value>) -> Words {
    Words {
        a: word_in(fields[0]),
        b: word_in(fields[1]),
        c: word_in(fields[2]),
        d: word_in(fields[3]),
    }
}

/// Words that are put in fields are read back.
pub proof fn law_words_are_read_back(words: Words)
    ensures
        words_in(word_fields(words)) == words,
{
    lemma_word_is_read_back(words.a);
    lemma_word_is_read_back(words.b);
    lemma_word_is_read_back(words.c);
    lemma_word_is_read_back(words.d);
}

/// A word that is put in a field is read back.
proof fn lemma_word_is_read_back(word: u32)
    ensures
        word_in(Value::num(crate::number::tally(word as nat))) == word,
{
    crate::number::lemma_tally(word as nat);
    crate::value::law_finite_number_is_a_value(crate::number::tally(word as nat));
}

/// What words are kept in is no handle.
proof fn lemma_word_fields(words: Words, slot: int)
    requires
        0 <= slot < 4,
    ensures
        word_fields(words)[slot].spec_as_object() is None,
{
    let word = if slot == 0 {
        words.a
    } else if slot == 1 {
        words.b
    } else if slot == 2 {
        words.c
    } else {
        words.d
    };
    crate::number::lemma_tally(word as nat);
    crate::value::law_finite_number_is_a_value(crate::number::tally(word as nat));
    crate::value::law_kinds_exclusive(Value::num(crate::number::tally(word as nat)));
}

/// Make a generator with a seed.
pub fn new_random(vm: &mut Vm, class: ObjectId, seed: u32) -> (value: Value)
    requires
        old(vm).wf(),
        old(vm).heap.has_room(1),
    ensures
        final(vm).wf(),
        views::made_instance(
            old(vm),
            final(vm),
            value,
            class,
            word_fields(Words::spec_seeded(seed)),
        ),
{
    new_view(vm, class, fields_of(Words::seeded(seed)))
}

/// The fields of an instance; none for anything else.
pub open spec fn fields_under(vm: &Vm, value: Value) -> Option<Seq<Value>> {
    match value.spec_as_object() {
        Some(id) => match vm.heap@.instance(id) {
            Some(instance) => Some(instance.fields),
            None => None,
        },
        None => None,
    }
}

/// Fields with others put over the first of them.
pub open spec fn overlaid(fields: Seq<Value>, words: Words) -> Seq<Value> {
    word_fields(words) + fields.skip(4)
}

/// Whether a machine is an earlier one after a generator gave a number. What
/// is not an instance gives zero and stays as it is; an instance without the
/// fields for it gives none.
pub open spec fn drew(before: &Vm, after: &Vm, generator: Value, number: Option<u32>) -> bool {
    match fields_under(before, generator) {
        None => number == Some(0u32) && *after == *before,
        Some(fields) => if fields.len() < 4 {
            number is None && *after == *before
        } else {
            let words = words_in(fields).spec_step();
            let id = generator.spec_as_object()->0;
            &&& number == Some(words.d)
            &&& *after == (Vm { heap: after.heap, ..*before })
            &&& after.heap@ == (HeapModel {
                instances: before.heap@.instances.insert(
                    id.spec_index(),
                    (InstanceModel {
                        fields: overlaid(fields, words),
                        ..before.heap@.instance(id)->0
                    }),
                ),
                ..before.heap@
            })
            &&& after.heap.same_books(&before.heap)
        },
    }
}

/// Take the next number of a generator.
pub fn next_u32(vm: &mut Vm, generator: Value) -> (number: Option<u32>)
    requires
        old(vm).wf(),
        old(vm).heap.has_room(1),
    ensures
        final(vm).wf(),
        drew(old(vm), final(vm), generator, number),
        final(vm).heap.has_room(1),
{
    let id = match generator.as_object() {
        None => {
            return Some(0);
        },
        Some(id) => id,
    };
    if vm.heap.instance(id).is_none() {
        return Some(0);
    }
    let ghost before = *vm;
    let fields: Vec<Value> = vm.heap.instance_fields(id);
    if fields.len() < 4 {
        return None;
    }
    let mut words = Words {
        a: word_of(fields[0]),
        b: word_of(fields[1]),
        c: word_of(fields[2]),
        d: word_of(fields[3]),
    };
    let number: u32 = words.step();
    let kept: Vec<Value> = fields_of(words);
    let mut slot: usize = 0;
    proof {
        assert(kept@.take(0) + fields@.skip(0) =~= fields@);
        assert(before.heap@.instances.insert(
            id.spec_index(),
            before.heap@.instance(id)->0,
        ) =~= before.heap@.instances);
    }
    while slot < 4
        invariant
            slot <= 4,
            vm.wf(),
            before.wf(),
            fields@ == fields_under(&before, generator)->0,
            fields@.len() >= 4,
            kept@ == word_fields(words),
            generator.spec_as_object() == Some(id),
            before.heap@.instance(id) is Some,
            before.heap.has_room(1),
            vm.heap.same_books(&before.heap),
            *vm == (Vm { heap: vm.heap, ..before }),
            vm.heap@ == (HeapModel {
                instances: before.heap@.instances.insert(
                    id.spec_index(),
                    (InstanceModel {
                        fields: kept@.take(slot as int) + fields@.skip(slot as int),
                        ..before.heap@.instance(id)->0
                    }),
                ),
                ..before.heap@
            }),
        decreases 4 - slot,
    {
        let ghost was = kept@.take(slot as int) + fields@.skip(slot as int);
        proof {
            lemma_word_fields(words, slot as int);
        }
        let stored: bool = vm.heap.set_instance_field(id, slot, kept[slot]);
        proof {
            assert(crate::heap::instances::stored(was, slot as int, kept@[slot as int])
                =~= kept@.take(slot as int + 1) + fields@.skip(slot as int + 1));
            assert(vm.heap@.instances =~= before.heap@.instances.insert(
                id.spec_index(),
                (InstanceModel {
                    fields: kept@.take(slot as int + 1) + fields@.skip(slot as int + 1),
                    ..before.heap@.instance(id)->0
                }),
            ));
        }
        slot = slot + 1;
    }
    proof {
        assert(kept@.take(4) + fields@.skip(4) =~= overlaid(fields@, words));
    }
    Some(number)
}

/// The fraction that two numbers make, in units of two to the minus
/// fifty-third.
pub open spec fn units_of(high: u32, low: u32) -> u64 {
    (((high as u64) << 21u64) ^ ((low as u64) >> 11u64)) & 0x1f_ffff_ffff_ffff
}

/// A fraction is less than one.
pub proof fn law_fraction_is_less_than_one(high: u32, low: u32)
    ensures
        units_of(high, low) < 0x20_0000_0000_0000,
{
    let wide = ((high as u64) << 21u64) ^ ((low as u64) >> 11u64);
    assert(wide & 0x1f_ffff_ffff_ffff < 0x20_0000_0000_0000) by (bit_vector);
}

/// Whether a machine is an earlier one after a generator gave a fraction by way
/// of another machine.
pub open spec fn drew_twice(
    before: &Vm,
    between: &Vm,
    after: &Vm,
    generator: Value,
    units: Option<u64>,
) -> bool {
    match units {
        None => drew(before, after, generator, None),
        Some(units) => exists|high: u32, low: u32| #[trigger]
            units_of(high, low) == units && drew(before, between, generator, Some(high)) && drew(
                between,
                after,
                generator,
                Some(low),
            ),
    }
}

/// Whether a machine is an earlier one after a generator gave a fraction.
pub open spec fn drew_fraction(before: &Vm, after: &Vm, generator: Value, units: Option<u64>) -> bool {
    exists|between: Vm| #[trigger] drew_twice(before, &between, after, generator, units)
}

/// Take the next fraction of a generator.
pub fn next_units(vm: &mut Vm, generator: Value) -> (units: Option<u64>)
    requires
        old(vm).wf(),
        old(vm).heap.has_room(1),
    ensures
        final(vm).wf(),
        drew_fraction(old(vm), final(vm), generator, units),
        final(vm).heap.has_room(1),
        units matches Some(n) ==> n < 0x20_0000_0000_0000,
{
    let ghost before = *vm;
    match next_u32(vm, generator) {
        None => {
            proof {
                assert(drew_twice(&before, &before, vm, generator, None));
            }
            None
        },
        Some(high) => {
            let ghost between = *vm;
            match next_u32(vm, generator) {
                None => {
                    proof {
                        lemma_draws_again(&before, &between, generator, high);
                    }
                    None
                },
                Some(low) => {
                    let units: u64 = (((high as u64) << 21u64) ^ ((low as u64) >> 11u64))
                        & 0x1f_ffff_ffff_ffff;
                    proof {
                        law_fraction_is_less_than_one(high, low);
                        assert(units_of(high, low) == units);
                        assert(drew_twice(&before, &between, vm, generator, Some(units)));
                    }
                    Some(units)
                },
            }
        },
    }
}

/// A generator that gave a number can give another.
proof fn lemma_draws_again(before: &Vm, between: &Vm, generator: Value, number: u32)
    requires
        drew(before, between, generator, Some(number)),
    ensures
        fields_under(between, generator) matches Some(fields) ==> fields.len() >= 4,
{
}

/// Whether a method draws one number.
pub open spec fn is_random_draw(p: Primitive) -> bool {
    match p {
        Primitive::RandomFloat | Primitive::RandomFloatTo | Primitive::RandomFloatBetween
        | Primitive::RandomIntTo | Primitive::RandomIntBetween => true,
        _ => false,
    }
}

/// What a method makes of a fraction, or why it is not asked for one.
pub open spec fn spec_chance(vm: &Vm, p: Primitive, at: usize) -> Result<Chance, Seq<char>> {
    let first = arguments::spec_number(arguments::given(vm, at, 1));
    let second = arguments::spec_number(arguments::given(vm, at, 2));
    match p {
        Primitive::RandomFloat => Ok(Chance::Fraction),
        Primitive::RandomFloatTo => match first {
            Err(message) => Err(message),
            Ok(end) => Ok(Chance::UpTo { end }),
        },
        Primitive::RandomIntTo => match first {
            Err(message) => Err(message),
            Ok(end) => Ok(Chance::WholeUpTo { end }),
        },
        _ => match first {
            Err(message) => Err(message),
            Ok(start) => match second {
                Err(message) => Err(message),
                Ok(end) => if p is RandomFloatBetween {
                    Ok(Chance::Between { start, end })
                } else {
                    Ok(Chance::WholeBetween { start, end })
                },
            },
        },
    }
}

/// Whether a machine is an earlier one after a method that draws a fraction.
pub open spec fn chanced(
    before: &Vm,
    after: &Vm,
    p: Primitive,
    at: usize,
    reply: ReplyModel,
) -> bool {
    match spec_chance(before, p, at) {
        Err(message) => reply == reply::denies(message) && *after == *before,
        Ok(of) => match reply {
            ReplyModel::Chance { units, of: made } => made == of && drew_fraction(
                before,
                after,
                arguments::given(before, at, 0),
                Some(units),
            ),
            ReplyModel::Stuck => drew_fraction(
                before,
                after,
                arguments::given(before, at, 0),
                None,
            ),
            _ => false,
        },
    }
}

/// What a method makes of a fraction.
fn chance_for(vm: &Vm, p: Primitive, at: usize) -> (r: Result<Chance, crate::vm::RuntimeError>)
    requires
        is_random_draw(p),
        arguments::called_with(vm, at, p.spec_arity()),
    ensures
        crate::vm::agrees(r, spec_chance(vm, p, at)),
{
    match p {
        Primitive::RandomFloat => Ok(Chance::Fraction),
        Primitive::RandomFloatTo => match number_argument(vm, at, 1) {
            Err(error) => Err(error),
            Ok(end) => Ok(Chance::UpTo { end }),
        },
        Primitive::RandomIntTo => match number_argument(vm, at, 1) {
            Err(error) => Err(error),
            Ok(end) => Ok(Chance::WholeUpTo { end }),
        },
        _ => match number_argument(vm, at, 1) {
            Err(error) => Err(error),
            Ok(start) => match number_argument(vm, at, 2) {
                Err(error) => Err(error),
                Ok(end) => match p {
                    Primitive::RandomFloatBetween => Ok(Chance::Between { start, end }),
                    _ => Ok(Chance::WholeBetween { start, end }),
                },
            },
        },
    }
}

/// Carry out a method that draws a fraction.
pub fn reply_of_random_draw(vm: &mut Vm, p: Primitive, at: usize) -> (reply: Reply)
    requires
        old(vm).wf(),
        is_random_draw(p),
        arguments::called_with(old(vm), at, p.spec_arity()),
        old(vm).heap.has_room(1),
    ensures
        final(vm).wf(),
        chanced(old(vm), final(vm), p, at, reply.model()),
{
    match chance_for(vm, p, at) {
        Err(error) => Reply::Done(Err(error)),
        Ok(of) => {
            let generator = receiver(vm, at);
            match next_units(vm, generator) {
                None => Reply::Stuck,
                Some(units) => Reply::Chance { units, of },
            }
        },
    }
}

/// Whether a machine is an earlier one after a whole number was drawn.
pub open spec fn drew_whole(before: &Vm, after: &Vm, at: usize, reply: ReplyModel) -> bool {
    let generator = arguments::given(before, at, 0);
    match reply {
        ReplyModel::Stuck => drew(before, after, generator, None),
        ReplyModel::Done(Ok(value)) => exists|number: u32|
            value == Value::num(crate::number::tally(number as nat)) && #[trigger] drew(
                before,
                after,
                generator,
                Some(number),
            ),
        _ => false,
    }
}

/// Draw a whole number.
pub fn reply_of_random_int(vm: &mut Vm, at: usize) -> (reply: Reply)
    requires
        old(vm).wf(),
        arguments::called_with(old(vm), at, 0),
        old(vm).heap.has_room(1),
    ensures
        final(vm).wf(),
        drew_whole(old(vm), final(vm), at, reply.model()),
{
    let generator = receiver(vm, at);
    match next_u32(vm, generator) {
        None => Reply::Stuck,
        Some(number) => give(Value::num(counted_word(number as u64))),
    }
}

/// The seed that a number is.
pub open spec fn seed_in(bits: u64) -> u32 {
    crate::number::pressed(bits, i64::MIN as int, i64::MAX as int) as i64 as u32
}

/// Whether a machine is an earlier one after a generator was made with a seed.
pub open spec fn sown(before: &Vm, after: &Vm, at: usize, reply: ReplyModel) -> bool {
    match arguments::spec_number(arguments::given(before, at, 1)) {
        Err(message) => reply == reply::denies(message) && *after == *before,
        Ok(bits) => {
            &&& reply matches ReplyModel::Done(Ok(value))
            &&& views::made_instance(
                before,
                after,
                value,
                before.random_class,
                word_fields(Words::spec_seeded(seed_in(bits))),
            )
        },
    }
}

/// Make a generator with a seed.
pub fn reply_of_seed(vm: &mut Vm, at: usize) -> (reply: Reply)
    requires
        old(vm).wf(),
        arguments::called_with(old(vm), at, 1),
        old(vm).heap.has_room(1),
    ensures
        final(vm).wf(),
        sown(old(vm), final(vm), at, reply.model()),
{
    match number_argument(vm, at, 1) {
        Err(error) => Reply::Done(Err(error)),
        Ok(bits) => {
            let whole: i64 = to_i64(bits);
            #[verifier::truncate]
            let seed: u32 = whole as u32;
            let class = vm.random_class;
            give(new_random(vm, class, seed))
        },
    }
}

/// Whether a method draws from a list.
pub open spec fn is_list_draw(p: Primitive) -> bool {
    p is RandomSample || p is RandomSampleMany || p is RandomShuffle
}

/// What a method that draws from a list comes to.
pub open spec fn draw_reply(vm: &Vm, p: Primitive, at: usize) -> ReplyModel {
    let from = arguments::given(vm, at, 0);
    let list = arguments::given(vm, at, 1);
    let length = lists::elements_or_none(vm, list).len();
    match p {
        Primitive::RandomSample => if length == 0 {
            reply::denies("Not enough elements to sample."@)
        } else {
            ReplyModel::Draw { list, from, drawing: Drawing::One }
        },
        Primitive::RandomSampleMany => match arguments::spec_number(arguments::given(vm, at, 2)) {
            Err(message) => reply::denies(message),
            Ok(bits) => {
                let count = crate::number::pressed(bits, 0, usize::MAX as int);
                if crate::number::below(bits, 0) || count > length {
                    reply::denies("Not enough elements to sample."@)
                } else {
                    ReplyModel::Draw { list, from, drawing: Drawing::Many(count as usize) }
                }
            },
        },
        _ => if length == 0 {
            reply::gives(list)
        } else {
            ReplyModel::Draw { list, from, drawing: Drawing::Order }
        },
    }
}

/// Start a method that draws from a list.
pub fn reply_of_list_draw(vm: &Vm, p: Primitive, at: usize) -> (reply: Reply)
    requires
        vm.wf(),
        is_list_draw(p),
        arguments::called_with(vm, at, p.spec_arity()),
    ensures
        reply.model() == draw_reply(vm, p, at),
{
    let from = receiver(vm, at);
    let list = argument(vm, at, 1);
    let length: usize = list_length(vm, list);
    match p {
        Primitive::RandomSample => if length == 0 {
            deny("Not enough elements to sample.")
        } else {
            Reply::Draw { list, from, drawing: Drawing::One }
        },
        Primitive::RandomSampleMany => match number_argument(vm, at, 2) {
            Err(error) => Reply::Done(Err(error)),
            Ok(bits) => {
                let count: usize = to_usize(bits);
                if less(bits, 0) || count > length {
                    return deny("Not enough elements to sample.");
                }
                Reply::Draw { list, from, drawing: Drawing::Many(count) }
            },
        },
        _ => if length == 0 {
            give(list)
        } else {
            Reply::Draw { list, from, drawing: Drawing::Order }
        },
    }
}

/// How many choices a drawing takes from so many elements.
pub open spec fn choices_for(drawing: Drawing, length: nat) -> nat {
    match drawing {
        Drawing::One => 1,
        Drawing::Many(count) => count as nat,
        Drawing::Order => if length == 0 {
            0
        } else {
            (length - 1) as nat
        },
    }
}

/// The lesser of a place and the last place.
pub open spec fn at_most(place: int, last: int) -> int {
    if place < last {
        place
    } else {
        last
    }
}

/// Values with two of them exchanged.
pub open spec fn exchanged(values: Seq<Value>, i: int, j: int) -> Seq<Value> {
    values.update(i, values[j]).update(j, values[i])
}

/// Values once each of the first places was given one from further on, as far
/// on as a choice says.
pub open spec fn sampled(values: Seq<Value>, choices: Seq<usize>, from: int) -> Seq<Value>
    decreases choices.len() - from,
{
    if from < 0 || from >= choices.len() {
        values
    } else {
        sampled(
            exchanged(values, from, at_most(from + choices[from], values.len() - 1)),
            choices,
            from + 1,
        )
    }
}

/// Values once each of the last places, from the end, was given one from before
/// it, as a choice says.
pub open spec fn shuffled(values: Seq<Value>, choices: Seq<usize>, from: int) -> Seq<Value>
    decreases choices.len() - from,
{
    if from < 0 || from >= choices.len() {
        values
    } else {
        let place = values.len() - 1 - from;
        shuffled(
            exchanged(values, place, at_most(choices[from] as int, place)),
            choices,
            from + 1,
        )
    }
}

/// Exchanging two values loses none and adds none.
proof fn lemma_exchanged(values: Seq<Value>, i: int, j: int)
    requires
        0 <= i < values.len(),
        0 <= j < values.len(),
    ensures
        exchanged(values, i, j).to_multiset() =~= values.to_multiset(),
        exchanged(values, i, j).len() == values.len(),
{
    broadcast use vstd::seq_lib::group_to_multiset_ensures;

    let first = values.update(i, values[j]);
    vstd::seq_lib::to_multiset_update(values, i, values[j]);
    vstd::seq_lib::to_multiset_update(first, j, values[i]);
    assert(values.contains(values[i]));
    assert(values.contains(values[j]));
}

/// A shuffled list has the elements that it had, each as often.
pub proof fn law_shuffling_keeps_the_elements(values: Seq<Value>, choices: Seq<usize>, from: int)
    requires
        0 <= from,
        choices.len() <= values.len(),
    ensures
        shuffled(values, choices, from).to_multiset() =~= values.to_multiset(),
        shuffled(values, choices, from).len() == values.len(),
    decreases choices.len() - from,
{
    if from < choices.len() {
        let place = values.len() - 1 - from;
        let other = at_most(choices[from] as int, place);
        lemma_exchanged(values, place, other);
        law_shuffling_keeps_the_elements(exchanged(values, place, other), choices, from + 1);
    }
}

/// What is sampled from a list comes from it, each element no more often.
pub proof fn law_sampling_keeps_the_elements(values: Seq<Value>, choices: Seq<usize>, from: int)
    requires
        0 <= from,
        choices.len() <= values.len(),
    ensures
        sampled(values, choices, from).to_multiset() =~= values.to_multiset(),
        sampled(values, choices, from).len() == values.len(),
    decreases choices.len() - from,
{
    if from < choices.len() {
        let other = at_most(from + choices[from], values.len() - 1);
        lemma_exchanged(values, from, other);
        law_sampling_keeps_the_elements(exchanged(values, from, other), choices, from + 1);
    }
}

/// Exchange two values.
fn exchange(values: &mut Vec<Value>, i: usize, j: usize)
    requires
        i < old(values)@.len(),
        j < old(values)@.len(),
    ensures
        final(values)@ == exchanged(old(values)@, i as int, j as int),
{
    let first = values[i];
    let second = values[j];
    values.set(i, second);
    values.set(j, first);
}

/// Give the first places values from further on.
fn sample(values: &mut Vec<Value>, choices: &Vec<usize>)
    requires
        choices@.len() <= old(values)@.len(),
    ensures
        final(values)@ == sampled(old(values)@, choices@, 0),
        final(values)@.len() == old(values)@.len(),
{
    let ghost before = values@;
    let size: usize = values.len();
    let mut i: usize = 0;
    while i < choices.len()
        invariant
            i <= choices@.len(),
            choices@.len() <= size,
            size == values@.len(),
            size == before.len(),
            sampled(before, choices@, 0) == sampled(values@, choices@, i as int),
        decreases choices@.len() - i,
    {
        let last: usize = size - 1;
        let choice: usize = if choices[i] < last - i {
            i + choices[i]
        } else {
            last
        };
        exchange(values, i, choice);
        i = i + 1;
    }
}

/// Put values in another order.
fn shuffle(values: &mut Vec<Value>, choices: &Vec<usize>)
    requires
        choices@.len() <= old(values)@.len(),
    ensures
        final(values)@ == shuffled(old(values)@, choices@, 0),
        final(values)@.len() == old(values)@.len(),
{
    let ghost before = values@;
    let size: usize = values.len();
    let mut i: usize = 0;
    while i < choices.len()
        invariant
            i <= choices@.len(),
            choices@.len() <= size,
            size == values@.len(),
            size == before.len(),
            shuffled(before, choices@, 0) == shuffled(values@, choices@, i as int),
        decreases choices@.len() - i,
    {
        let place: usize = size - 1 - i;
        let choice: usize = if choices[i] < place {
            choices[i]
        } else {
            place
        };
        exchange(values, place, choice);
        i = i + 1;
    }
}

/// Among how many elements each choice of a drawing is, in the order in which
/// the choices are made: each time there is one fewer. Nothing, where there are
/// fewer elements than choices.
pub fn spans(drawing: Drawing, length: usize) -> (r: Option<Vec<usize>>)
    ensures
        match r {
            Some(list) => {
                &&& list@.len() == choices_for(drawing, length as nat)
                &&& list@.len() <= length
                &&& forall|i: int| 0 <= i < list@.len() ==> list@[i] == length - i
            },
            None => choices_for(drawing, length as nat) > length,
        },
{
    let wanted: usize = match drawing {
        Drawing::One => 1,
        Drawing::Many(count) => count,
        Drawing::Order => if length == 0 {
            0
        } else {
            length - 1
        },
    };
    if wanted > length {
        return None;
    }
    let mut list: Vec<usize> = Vec::new();
    let mut i: usize = 0;
    while i < wanted
        invariant
            i <= wanted <= length,
            list@.len() == i,
            forall|k: int| 0 <= k < i ==> list@[k] == length - k,
        decreases wanted - i,
    {
        list.push(length - i);
        i = i + 1;
    }
    Some(list)
}

/// Whether a machine is an earlier one after something was drawn from a list.
pub open spec fn drawn(
    before: &Vm,
    after: &Vm,
    list: Value,
    drawing: Drawing,
    choices: Seq<usize>,
    reply: ReplyModel,
) -> bool {
    let elements = lists::elements_or_none(before, list);
    if choices.len() != choices_for(drawing, elements.len()) || choices.len() > elements.len() {
        reply is Stuck && *after == *before
    } else {
        match drawing {
            Drawing::One => reply == reply::gives(
                elements[at_most(choices[0] as int, elements.len() - 1)],
            ) && *after == *before,
            Drawing::Many(count) => {
                &&& reply matches ReplyModel::Done(Ok(value))
                &&& lists::made_list(
                    before,
                    after,
                    value,
                    sampled(elements, choices, 0).take(count as int),
                )
            },
            Drawing::Order => {
                &&& reply == reply::gives(list)
                &&& if lists::spec_elements(before, list) is None {
                    *after == *before
                } else {
                    list_methods::list_set(
                        before,
                        after,
                        list,
                        shuffled(elements, choices, 0),
                        Value::null(),
                    )
                }
            },
        }
    }
}

/// Draw from a list as choices say.
pub fn draw(vm: &mut Vm, list: Value, drawing: Drawing, choices: &Vec<usize>) -> (reply: Reply)
    requires
        old(vm).wf(),
        old(vm).heap.has_room(1),
    ensures
        final(vm).wf(),
        drawn(old(vm), final(vm), list, drawing, choices@, reply.model()),
{
    let mut elements: Vec<Value> = list_elements(vm, list);
    let length: usize = elements.len();
    let wanted: usize = match drawing {
        Drawing::One => 1,
        Drawing::Many(count) => count,
        Drawing::Order => if length == 0 {
            0
        } else {
            length - 1
        },
    };
    if choices.len() != wanted || wanted > length {
        return Reply::Stuck;
    }
    match drawing {
        Drawing::One => {
            let place: usize = if choices[0] < length - 1 {
                choices[0]
            } else {
                length - 1
            };
            give(elements[place])
        },
        Drawing::Many(count) => {
            sample(&mut elements, choices);
            elements.truncate(count);
            give(new_list(vm, elements))
        },
        Drawing::Order => {
            shuffle(&mut elements, choices);
            let is_list: bool = match list.as_object() {
                None => false,
                Some(id) => match vm.heap.list(id) {
                    None => false,
                    Some(_) => true,
                },
            };
            if is_list {
                set_elements(vm, list, elements, Value::null());
            }
            give(list)
        },
    }
}

} // verus!
