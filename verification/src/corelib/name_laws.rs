//! What holds of the names of the core library's methods.

use vstd::prelude::*;

use super::primitive::Primitive;
use super::tables;

verus! {

/// What a method of the core library is called.
pub open spec fn called(p: Primitive) -> Seq<char> {
    match p {
        Primitive::ObjectNot | Primitive::BoolNot | Primitive::NullNot => "!"@,
        Primitive::ObjectUnequal | Primitive::NumUnequal | Primitive::BoolUnequal
        | Primitive::NullUnequal | Primitive::StringUnequal => "!=(_)"@,
        Primitive::NumRemainder => "%(_)"@,
        Primitive::NumAnd => "&(_)"@,
        Primitive::NumMultiply | Primitive::StringRepeat => "*(_)"@,
        Primitive::NumAdd | Primitive::StringAdd | Primitive::ListPlus => "+(_)"@,
        Primitive::NumNegate => "-"@,
        Primitive::NumSubtract => "-(_)"@,
        Primitive::NumRange => "..(_)"@,
        Primitive::NumRangeExclusive => "...(_)"@,
        Primitive::NumDivide => "/(_)"@,
        Primitive::NumLess | Primitive::StringLess => "<(_)"@,
        Primitive::NumShiftLeft => "<<(_)"@,
        Primitive::NumAtMost | Primitive::StringAtMost => "<=(_)"@,
        Primitive::ObjectEqual | Primitive::NumEqual | Primitive::BoolEqual
        | Primitive::NullEqual | Primitive::StringEqual => "==(_)"@,
        Primitive::NumGreater | Primitive::StringGreater => ">(_)"@,
        Primitive::NumAtLeast | Primitive::StringAtLeast => ">=(_)"@,
        Primitive::NumShiftRight => ">>(_)"@,
        Primitive::StringAt | Primitive::ListAt | Primitive::MapAt => "[_]"@,
        Primitive::ListSetAt | Primitive::MapSetAt => "[_]=(_)"@,
        Primitive::NumXor => "^(_)"@,
        Primitive::FiberAbort => "abort(_)"@,
        Primitive::NumAbs => "abs"@,
        Primitive::NumAcos => "acos"@,
        Primitive::ListAdd => "add(_)"@,
        Primitive::ListAddCore => "addCore(_)"@,
        Primitive::MapAddCore => "addCore(_,_)"@,
        Primitive::SequenceAll | Primitive::ListAll => "all(_)"@,
        Primitive::SequenceAny | Primitive::ListAny => "any(_)"@,
        Primitive::FnArity => "arity"@,
        Primitive::NumAsin => "asin"@,
        Primitive::NumAtan => "atan"@,
        Primitive::NumAtan2 => "atan(_)"@,
        Primitive::StringBytes => "bytes"@,
        Primitive::FiberCall => "call()"@,
        Primitive::FiberCallValue => "call(_)"@,
        Primitive::NumCbrt => "cbrt"@,
        Primitive::NumCeil => "ceil"@,
        Primitive::NumClamp => "clamp(_,_)"@,
        Primitive::ListClear | Primitive::MapClear => "clear()"@,
        Primitive::StringCodePoints => "codePoints"@,
        Primitive::StringContains | Primitive::SequenceContains | Primitive::ListContains => "contains(_)"@,
        Primitive::MapContainsKey => "containsKey(_)"@,
        Primitive::NumCos => "cos"@,
        Primitive::StringCount | Primitive::SequenceCount | Primitive::ListCount
        | Primitive::MapCount => "count"@,
        Primitive::FiberCurrent => "current"@,
        Primitive::NumE => "e"@,
        Primitive::SequenceEach | Primitive::ListEach => "each(_)"@,
        Primitive::StringEndsWith => "endsWith(_)"@,
        Primitive::FiberError => "error"@,
        Primitive::NumExp => "exp"@,
        Primitive::ListFilled => "filled(_,_)"@,
        Primitive::RandomFloat => "float()"@,
        Primitive::RandomFloatTo => "float(_)"@,
        Primitive::RandomFloatBetween => "float(_,_)"@,
        Primitive::NumFloor => "floor"@,
        Primitive::NumFraction => "fraction"@,
        Primitive::RangeFrom => "from"@,
        Primitive::StringFromByte => "fromByte(_)"@,
        Primitive::StringFromCodePoint => "fromCodePoint(_)"@,
        Primitive::StringIndexOf | Primitive::ListIndexOf => "indexOf(_)"@,
        Primitive::NumInfinity => "infinity"@,
        Primitive::ListInsert => "insert(_,_)"@,
        Primitive::RandomInt => "int()"@,
        Primitive::RandomIntTo => "int(_)"@,
        Primitive::RandomIntBetween => "int(_,_)"@,
        Primitive::ObjectIs => "is(_)"@,
        Primitive::FiberIsDone => "isDone"@,
        Primitive::StringIsEmpty | Primitive::SequenceIsEmpty | Primitive::ListIsEmpty => "isEmpty"@,
        Primitive::NumIsInfinity => "isInfinity"@,
        Primitive::NumIsInteger => "isInteger"@,
        Primitive::NumIsNan => "isNan"@,
        Primitive::StringIterate | Primitive::MapSequenceIterate
        | Primitive::WhereSequenceIterate | Primitive::TakeSequenceIterate
        | Primitive::SkipSequenceIterate | Primitive::ListIterate | Primitive::MapIterate
        | Primitive::RangeIterate => "iterate(_)"@,
        Primitive::StringIteratorValue | Primitive::MapSequenceIteratorValue
        | Primitive::WhereSequenceIteratorValue | Primitive::TakeSequenceIteratorValue
        | Primitive::SkipSequenceIteratorValue | Primitive::ListIteratorValue
        | Primitive::MapIteratorValue | Primitive::RangeIteratorValue => "iteratorValue(_)"@,
        Primitive::SequenceJoin | Primitive::ListJoin => "join()"@,
        Primitive::SequenceJoinWith | Primitive::ListJoinWith => "join(_)"@,
        Primitive::MapEntryKey => "key"@,
        Primitive::MapKeys => "keys"@,
        Primitive::NumLargest => "largest"@,
        Primitive::NumLog => "log"@,
        Primitive::NumLog2 => "log2"@,
        Primitive::SequenceMap | Primitive::ListMap => "map(_)"@,
        Primitive::RangeMax => "max"@,
        Primitive::NumMax => "max(_)"@,
        Primitive::NumMaxSafeInteger => "maxSafeInteger"@,
        Primitive::RangeMin => "min"@,
        Primitive::NumMin => "min(_)"@,
        Primitive::NumMinSafeInteger => "minSafeInteger"@,
        Primitive::NumNan => "nan"@,
        Primitive::ListNew | Primitive::MapNew | Primitive::RandomNew => "new()"@,
        Primitive::FnNew | Primitive::FiberNew | Primitive::RandomNewSeeded => "new(_)"@,
        Primitive::NumPi => "pi"@,
        Primitive::NumPow => "pow(_)"@,
        Primitive::SystemPrintLine => "print"@,
        Primitive::SystemPrint => "print(_)"@,
        Primitive::SequenceReduce | Primitive::ListReduce => "reduce(_)"@,
        Primitive::SequenceReduceFrom | Primitive::ListReduceFrom => "reduce(_,_)"@,
        Primitive::MapRemove => "remove(_)"@,
        Primitive::ListRemoveAt => "removeAt(_)"@,
        Primitive::NumRound => "round"@,
        Primitive::RandomSample => "sample(_)"@,
        Primitive::RandomSampleMany => "sample(_,_)"@,
        Primitive::RandomShuffle => "shuffle(_)"@,
        Primitive::NumSign => "sign"@,
        Primitive::NumSin => "sin"@,
        Primitive::SequenceSkip => "skip(_)"@,
        Primitive::NumSmallest => "smallest"@,
        Primitive::StringSplit => "split(_)"@,
        Primitive::NumSqrt => "sqrt"@,
        Primitive::StringStartsWith => "startsWith(_)"@,
        Primitive::SequenceTake => "take(_)"@,
        Primitive::NumTan => "tan"@,
        Primitive::RangeTo => "to"@,
        Primitive::SequenceToList | Primitive::ListToList => "toList"@,
        Primitive::ObjectToString | Primitive::NumToString | Primitive::BoolToString
        | Primitive::NullToString | Primitive::StringToString | Primitive::ListToString
        | Primitive::MapToString | Primitive::MapEntryToString | Primitive::RangeToString => "toString"@,
        Primitive::FiberTransfer => "transfer()"@,
        Primitive::FiberTransferValue => "transfer(_)"@,
        Primitive::StringTrim => "trim()"@,
        Primitive::StringTrimEnd => "trimEnd()"@,
        Primitive::StringTrimStart => "trimStart()"@,
        Primitive::NumTruncate => "truncate"@,
        Primitive::FiberTry => "try()"@,
        Primitive::FiberTryValue => "try(_)"@,
        Primitive::ObjectClass => "type"@,
        Primitive::MapEntryValue => "value"@,
        Primitive::MapValues => "values"@,
        Primitive::SequenceWhere | Primitive::ListWhere => "where(_)"@,
        Primitive::SystemWrite => "write(_)"@,
        Primitive::FiberYield => "yield()"@,
        Primitive::FiberYieldValue => "yield(_)"@,
        Primitive::NumOr => "|(_)"@,
        Primitive::NumComplement => "~"@,
        _ => Seq::empty(),
    }
}

/// Whether each row of a table binds a method under its own name.
pub open spec fn rightly_named(rows: Seq<(Seq<char>, Primitive)>) -> bool {
    forall|i: int| 0 <= i < rows.len() ==> called((#[trigger] rows[i]).1) == rows[i].0
}

/// Every method of objects, functions, fibers, truth values and null is bound under
/// its own name.
pub proof fn law_methods_of_values_have_their_names()
    ensures
        rightly_named(tables::object_rows()),
        rightly_named(tables::fn_meta_rows()),
        rightly_named(tables::fn_rows()),
        rightly_named(tables::fiber_meta_rows()),
        rightly_named(tables::fiber_rows()),
        rightly_named(tables::bool_rows()),
        rightly_named(tables::null_rows()),
{
}

/// Every method of numbers is bound under its own name.
pub proof fn law_methods_of_numbers_have_their_names()
    ensures
        rightly_named(tables::num_rows()),
        rightly_named(tables::num_extras_rows()),
        rightly_named(tables::num_meta_rows()),
{
}

/// Every method of strings is bound under its own name.
pub proof fn law_methods_of_strings_have_their_names()
    ensures
        rightly_named(tables::string_rows()),
        rightly_named(tables::string_extras_rows()),
        rightly_named(tables::string_meta_rows()),
{
}

/// Every method of sequences and of their views is bound under its own name.
pub proof fn law_methods_of_sequences_have_their_names()
    ensures
        rightly_named(tables::sequence_rows()),
        rightly_named(tables::map_sequence_rows()),
        rightly_named(tables::where_sequence_rows()),
        rightly_named(tables::take_sequence_rows()),
        rightly_named(tables::skip_sequence_rows()),
{
}

/// Every method of lists, maps and ranges is bound under its own name.
pub proof fn law_methods_of_collections_have_their_names()
    ensures
        rightly_named(tables::list_meta_rows()),
        rightly_named(tables::list_rows()),
        rightly_named(tables::list_extras_rows()),
        rightly_named(tables::list_meta_extras_rows()),
        rightly_named(tables::map_meta_rows()),
        rightly_named(tables::map_rows()),
        rightly_named(tables::map_entry_rows()),
        rightly_named(tables::range_rows()),
{
}

/// Every method of the system and of random number generators is bound under its
/// own name.
pub proof fn law_methods_of_the_system_have_their_names()
    ensures
        rightly_named(tables::system_rows()),
        rightly_named(tables::random_meta_rows()),
        rightly_named(tables::random_rows()),
{
}

} // verus!
