//! Which methods of the core library go together.

use vstd::prelude::*;

use super::primitive::Primitive;

verus! {

/// Methods that go together.
#[derive(Clone, Copy, PartialEq, Eq, Structural, Debug)]
pub enum Family {
    /// Methods of objects, and what answers with its receiver or its argument.
    Objects,
    /// Methods of numbers.
    Numbers,
    /// Methods that round a number.
    Rounding,
    /// Questions about a string.
    StringQueries,
    /// Methods that make a string.
    StringMakers,
    /// Methods that list what a string holds.
    StringListers,
    /// Questions about a list.
    ListQueries,
    /// Methods that make a list.
    ListMakers,
    /// Methods that change a list.
    ListChanges,
    /// Questions about a map.
    MapQueries,
    /// Methods that change a map.
    MapChanges,
    /// Methods that list what a map holds.
    MapListers,
    /// `Map.new`.
    MapNew,
    /// `Map.iteratorValue`.
    MapEntry,
    /// Methods that make a range.
    RangeMakers,
    /// Questions about a range.
    RangeQueries,
    /// Questions about fibers.
    FiberQueries,
    /// Methods that make a fiber or leave the running one.
    FiberMoves,
    /// Methods that work by calling others.
    Work,
    /// Methods that make a lazy view.
    ViewMakers,
    /// `TakeSequence.iterate`.
    Take,
    /// `System.print`, of nothing.
    Line,
    /// `Random.new`, without a seed.
    RandomNew,
    /// `Random.new`, with a seed.
    RandomSeed,
    /// Methods that draw a fraction.
    RandomDraws,
    /// `Random.int`, of any size.
    RandomInt,
    /// Methods that draw from a list.
    ListDraws,
}

impl Primitive {
    /// The methods that a method goes with.
    pub open spec fn spec_family(self) -> Family {
        match self {
            Primitive::ObjectNot | Primitive::ObjectEqual | Primitive::ObjectUnequal
            | Primitive::ObjectToString | Primitive::ObjectIs | Primitive::ObjectClass
            | Primitive::BoolNot | Primitive::BoolToString | Primitive::BoolEqual
            | Primitive::BoolUnequal | Primitive::NullNot | Primitive::NullToString
            | Primitive::NullEqual | Primitive::NullUnequal | Primitive::FnNew
            | Primitive::FnArity | Primitive::FnCall | Primitive::NumToString
            | Primitive::RangeToString | Primitive::StringToString | Primitive::ListToList
            | Primitive::RangeIteratorValue | Primitive::MapEntryKey | Primitive::MapEntryValue
            | Primitive::MapEntryToString => Family::Objects,
            Primitive::NumAdd | Primitive::NumSubtract | Primitive::NumMultiply
            | Primitive::NumDivide | Primitive::NumRemainder | Primitive::NumPow
            | Primitive::NumAtan2 | Primitive::NumLess | Primitive::NumGreater
            | Primitive::NumAtMost | Primitive::NumAtLeast | Primitive::NumMin | Primitive::NumMax
            | Primitive::NumAnd | Primitive::NumOr | Primitive::NumXor | Primitive::NumShiftLeft
            | Primitive::NumShiftRight | Primitive::NumEqual | Primitive::NumUnequal
            | Primitive::NumNegate | Primitive::NumAbs | Primitive::NumSqrt | Primitive::NumClamp
            | Primitive::NumFraction | Primitive::NumSign | Primitive::NumIsInteger
            | Primitive::NumIsNan | Primitive::NumIsInfinity | Primitive::NumComplement
            | Primitive::NumRound | Primitive::NumLog | Primitive::NumLog2 | Primitive::NumExp
            | Primitive::NumCbrt | Primitive::NumSin | Primitive::NumCos | Primitive::NumTan
            | Primitive::NumAsin | Primitive::NumAcos | Primitive::NumAtan | Primitive::NumPi
            | Primitive::NumE | Primitive::NumInfinity | Primitive::NumNan | Primitive::NumLargest
            | Primitive::NumSmallest | Primitive::NumMaxSafeInteger | Primitive::NumMinSafeInteger => Family::Numbers,
            Primitive::NumFloor | Primitive::NumCeil | Primitive::NumTruncate => Family::Rounding,
            Primitive::StringCount | Primitive::StringEqual | Primitive::StringUnequal
            | Primitive::StringContains | Primitive::StringStartsWith | Primitive::StringEndsWith
            | Primitive::StringIndexOf | Primitive::StringIsEmpty | Primitive::StringLess
            | Primitive::StringGreater | Primitive::StringAtMost | Primitive::StringAtLeast
            | Primitive::StringIterate => Family::StringQueries,
            Primitive::StringAdd | Primitive::StringAt | Primitive::StringTrim
            | Primitive::StringTrimStart | Primitive::StringTrimEnd | Primitive::StringRepeat
            | Primitive::StringIteratorValue | Primitive::StringFromCodePoint
            | Primitive::StringFromByte => Family::StringMakers,
            Primitive::StringSplit | Primitive::StringBytes | Primitive::StringCodePoints => Family::StringListers,
            Primitive::ListCount | Primitive::ListIterate | Primitive::ListIteratorValue
            | Primitive::ListContains | Primitive::ListIndexOf | Primitive::ListIsEmpty => Family::ListQueries,
            Primitive::ListNew | Primitive::ListAt | Primitive::ListPlus | Primitive::ListFilled => Family::ListMakers,
            Primitive::ListAddCore | Primitive::ListAdd | Primitive::ListSetAt
            | Primitive::ListInsert | Primitive::ListRemoveAt | Primitive::ListClear => Family::ListChanges,
            Primitive::MapAt | Primitive::MapCount | Primitive::MapContainsKey
            | Primitive::MapIterate => Family::MapQueries,
            Primitive::MapAddCore | Primitive::MapSetAt | Primitive::MapRemove
            | Primitive::MapClear => Family::MapChanges,
            Primitive::MapKeys | Primitive::MapValues => Family::MapListers,
            Primitive::MapNew => Family::MapNew,
            Primitive::MapIteratorValue => Family::MapEntry,
            Primitive::NumRange | Primitive::NumRangeExclusive => Family::RangeMakers,
            Primitive::RangeFrom | Primitive::RangeTo | Primitive::RangeMin | Primitive::RangeMax
            | Primitive::RangeIterate => Family::RangeQueries,
            Primitive::FiberCurrent | Primitive::FiberAbort | Primitive::FiberIsDone
            | Primitive::FiberError => Family::FiberQueries,
            Primitive::FiberNew | Primitive::FiberYield | Primitive::FiberYieldValue
            | Primitive::FiberCall | Primitive::FiberCallValue | Primitive::FiberTry
            | Primitive::FiberTryValue | Primitive::FiberTransfer | Primitive::FiberTransferValue => Family::FiberMoves,
            Primitive::SequenceCount | Primitive::SequenceIsEmpty | Primitive::SequenceEach
            | Primitive::SequenceToList | Primitive::SequenceContains | Primitive::SequenceAll
            | Primitive::SequenceAny | Primitive::SequenceReduce | Primitive::SequenceReduceFrom
            | Primitive::SequenceJoin | Primitive::SequenceJoinWith
            | Primitive::MapSequenceIterate | Primitive::MapSequenceIteratorValue
            | Primitive::WhereSequenceIterate | Primitive::WhereSequenceIteratorValue
            | Primitive::TakeSequenceIteratorValue | Primitive::SkipSequenceIterate
            | Primitive::SkipSequenceIteratorValue | Primitive::ListToString | Primitive::ListEach
            | Primitive::ListMap | Primitive::ListWhere | Primitive::ListAny | Primitive::ListAll
            | Primitive::ListReduce | Primitive::ListReduceFrom | Primitive::ListJoin
            | Primitive::ListJoinWith | Primitive::MapToString | Primitive::SystemPrint
            | Primitive::SystemWrite => Family::Work,
            Primitive::SequenceMap | Primitive::SequenceWhere | Primitive::SequenceTake
            | Primitive::SequenceSkip => Family::ViewMakers,
            Primitive::TakeSequenceIterate => Family::Take,
            Primitive::SystemPrintLine => Family::Line,
            Primitive::RandomNew => Family::RandomNew,
            Primitive::RandomNewSeeded => Family::RandomSeed,
            Primitive::RandomFloat | Primitive::RandomFloatTo | Primitive::RandomFloatBetween
            | Primitive::RandomIntTo | Primitive::RandomIntBetween => Family::RandomDraws,
            Primitive::RandomInt => Family::RandomInt,
            Primitive::RandomSample | Primitive::RandomSampleMany | Primitive::RandomShuffle => Family::ListDraws,
        }
    }

    /// The methods that a method goes with.
    pub fn family(self) -> (family: Family)
        ensures
            family == self.spec_family(),
    {
        match self {
            Primitive::ObjectNot | Primitive::ObjectEqual | Primitive::ObjectUnequal
            | Primitive::ObjectToString | Primitive::ObjectIs | Primitive::ObjectClass
            | Primitive::BoolNot | Primitive::BoolToString | Primitive::BoolEqual
            | Primitive::BoolUnequal | Primitive::NullNot | Primitive::NullToString
            | Primitive::NullEqual | Primitive::NullUnequal | Primitive::FnNew
            | Primitive::FnArity | Primitive::FnCall | Primitive::NumToString
            | Primitive::RangeToString | Primitive::StringToString | Primitive::ListToList
            | Primitive::RangeIteratorValue | Primitive::MapEntryKey | Primitive::MapEntryValue
            | Primitive::MapEntryToString => Family::Objects,
            Primitive::NumAdd | Primitive::NumSubtract | Primitive::NumMultiply
            | Primitive::NumDivide | Primitive::NumRemainder | Primitive::NumPow
            | Primitive::NumAtan2 | Primitive::NumLess | Primitive::NumGreater
            | Primitive::NumAtMost | Primitive::NumAtLeast | Primitive::NumMin | Primitive::NumMax
            | Primitive::NumAnd | Primitive::NumOr | Primitive::NumXor | Primitive::NumShiftLeft
            | Primitive::NumShiftRight | Primitive::NumEqual | Primitive::NumUnequal
            | Primitive::NumNegate | Primitive::NumAbs | Primitive::NumSqrt | Primitive::NumClamp
            | Primitive::NumFraction | Primitive::NumSign | Primitive::NumIsInteger
            | Primitive::NumIsNan | Primitive::NumIsInfinity | Primitive::NumComplement
            | Primitive::NumRound | Primitive::NumLog | Primitive::NumLog2 | Primitive::NumExp
            | Primitive::NumCbrt | Primitive::NumSin | Primitive::NumCos | Primitive::NumTan
            | Primitive::NumAsin | Primitive::NumAcos | Primitive::NumAtan | Primitive::NumPi
            | Primitive::NumE | Primitive::NumInfinity | Primitive::NumNan | Primitive::NumLargest
            | Primitive::NumSmallest | Primitive::NumMaxSafeInteger | Primitive::NumMinSafeInteger => Family::Numbers,
            Primitive::NumFloor | Primitive::NumCeil | Primitive::NumTruncate => Family::Rounding,
            Primitive::StringCount | Primitive::StringEqual | Primitive::StringUnequal
            | Primitive::StringContains | Primitive::StringStartsWith | Primitive::StringEndsWith
            | Primitive::StringIndexOf | Primitive::StringIsEmpty | Primitive::StringLess
            | Primitive::StringGreater | Primitive::StringAtMost | Primitive::StringAtLeast
            | Primitive::StringIterate => Family::StringQueries,
            Primitive::StringAdd | Primitive::StringAt | Primitive::StringTrim
            | Primitive::StringTrimStart | Primitive::StringTrimEnd | Primitive::StringRepeat
            | Primitive::StringIteratorValue | Primitive::StringFromCodePoint
            | Primitive::StringFromByte => Family::StringMakers,
            Primitive::StringSplit | Primitive::StringBytes | Primitive::StringCodePoints => Family::StringListers,
            Primitive::ListCount | Primitive::ListIterate | Primitive::ListIteratorValue
            | Primitive::ListContains | Primitive::ListIndexOf | Primitive::ListIsEmpty => Family::ListQueries,
            Primitive::ListNew | Primitive::ListAt | Primitive::ListPlus | Primitive::ListFilled => Family::ListMakers,
            Primitive::ListAddCore | Primitive::ListAdd | Primitive::ListSetAt
            | Primitive::ListInsert | Primitive::ListRemoveAt | Primitive::ListClear => Family::ListChanges,
            Primitive::MapAt | Primitive::MapCount | Primitive::MapContainsKey
            | Primitive::MapIterate => Family::MapQueries,
            Primitive::MapAddCore | Primitive::MapSetAt | Primitive::MapRemove
            | Primitive::MapClear => Family::MapChanges,
            Primitive::MapKeys | Primitive::MapValues => Family::MapListers,
            Primitive::MapNew => Family::MapNew,
            Primitive::MapIteratorValue => Family::MapEntry,
            Primitive::NumRange | Primitive::NumRangeExclusive => Family::RangeMakers,
            Primitive::RangeFrom | Primitive::RangeTo | Primitive::RangeMin | Primitive::RangeMax
            | Primitive::RangeIterate => Family::RangeQueries,
            Primitive::FiberCurrent | Primitive::FiberAbort | Primitive::FiberIsDone
            | Primitive::FiberError => Family::FiberQueries,
            Primitive::FiberNew | Primitive::FiberYield | Primitive::FiberYieldValue
            | Primitive::FiberCall | Primitive::FiberCallValue | Primitive::FiberTry
            | Primitive::FiberTryValue | Primitive::FiberTransfer | Primitive::FiberTransferValue => Family::FiberMoves,
            Primitive::SequenceCount | Primitive::SequenceIsEmpty | Primitive::SequenceEach
            | Primitive::SequenceToList | Primitive::SequenceContains | Primitive::SequenceAll
            | Primitive::SequenceAny | Primitive::SequenceReduce | Primitive::SequenceReduceFrom
            | Primitive::SequenceJoin | Primitive::SequenceJoinWith
            | Primitive::MapSequenceIterate | Primitive::MapSequenceIteratorValue
            | Primitive::WhereSequenceIterate | Primitive::WhereSequenceIteratorValue
            | Primitive::TakeSequenceIteratorValue | Primitive::SkipSequenceIterate
            | Primitive::SkipSequenceIteratorValue | Primitive::ListToString | Primitive::ListEach
            | Primitive::ListMap | Primitive::ListWhere | Primitive::ListAny | Primitive::ListAll
            | Primitive::ListReduce | Primitive::ListReduceFrom | Primitive::ListJoin
            | Primitive::ListJoinWith | Primitive::MapToString | Primitive::SystemPrint
            | Primitive::SystemWrite => Family::Work,
            Primitive::SequenceMap | Primitive::SequenceWhere | Primitive::SequenceTake
            | Primitive::SequenceSkip => Family::ViewMakers,
            Primitive::TakeSequenceIterate => Family::Take,
            Primitive::SystemPrintLine => Family::Line,
            Primitive::RandomNew => Family::RandomNew,
            Primitive::RandomNewSeeded => Family::RandomSeed,
            Primitive::RandomFloat | Primitive::RandomFloatTo | Primitive::RandomFloatBetween
            | Primitive::RandomIntTo | Primitive::RandomIntBetween => Family::RandomDraws,
            Primitive::RandomInt => Family::RandomInt,
            Primitive::RandomSample | Primitive::RandomSampleMany | Primitive::RandomShuffle => Family::ListDraws,
        }
    }
}

} // verus!
