//! What the library's methods are.

use vstd::prelude::*;

verus! {

/// A method of the core library.
#[derive(Clone, Copy, PartialEq, Eq, Structural, Debug)]
pub enum Primitive {
    /// `Fn.call`, with however many arguments its signature has.
    FnCall,
    ObjectNot,
    ObjectEqual,
    ObjectUnequal,
    ObjectToString,
    ObjectIs,
    ObjectClass,
    FnNew,
    FnArity,
    FiberNew,
    FiberCurrent,
    FiberAbort,
    FiberYield,
    FiberYieldValue,
    FiberCall,
    FiberCallValue,
    FiberTry,
    FiberTryValue,
    FiberTransfer,
    FiberTransferValue,
    FiberIsDone,
    FiberError,
    NumAdd,
    NumSubtract,
    NumMultiply,
    NumDivide,
    NumRemainder,
    NumLess,
    NumGreater,
    NumAtMost,
    NumAtLeast,
    NumRange,
    NumRangeExclusive,
    NumEqual,
    NumUnequal,
    NumNegate,
    NumAbs,
    NumFloor,
    NumCeil,
    NumSqrt,
    NumToString,
    BoolNot,
    BoolToString,
    BoolEqual,
    BoolUnequal,
    NullNot,
    NullToString,
    NullEqual,
    NullUnequal,
    StringAdd,
    StringCount,
    StringToString,
    StringEqual,
    StringUnequal,
    StringAt,
    StringContains,
    StringStartsWith,
    StringEndsWith,
    StringIndexOf,
    StringIsEmpty,
    StringTrim,
    StringTrimStart,
    StringTrimEnd,
    StringSplit,
    StringRepeat,
    StringBytes,
    StringCodePoints,
    StringIterate,
    StringIteratorValue,
    StringLess,
    StringGreater,
    StringAtMost,
    StringAtLeast,
    StringFromCodePoint,
    StringFromByte,
    NumMin,
    NumMax,
    NumClamp,
    NumTruncate,
    NumFraction,
    NumSign,
    NumIsInteger,
    NumIsNan,
    NumIsInfinity,
    NumAnd,
    NumOr,
    NumXor,
    NumShiftLeft,
    NumShiftRight,
    NumComplement,
    NumRound,
    NumPow,
    NumLog,
    NumLog2,
    NumExp,
    NumCbrt,
    NumSin,
    NumCos,
    NumTan,
    NumAsin,
    NumAcos,
    NumAtan,
    NumAtan2,
    NumPi,
    NumE,
    NumInfinity,
    NumNan,
    NumLargest,
    NumSmallest,
    NumMaxSafeInteger,
    NumMinSafeInteger,
    SequenceCount,
    SequenceIsEmpty,
    SequenceEach,
    SequenceToList,
    SequenceContains,
    SequenceAll,
    SequenceAny,
    SequenceReduce,
    SequenceReduceFrom,
    SequenceJoin,
    SequenceJoinWith,
    SequenceMap,
    SequenceWhere,
    SequenceTake,
    SequenceSkip,
    MapSequenceIterate,
    MapSequenceIteratorValue,
    WhereSequenceIterate,
    WhereSequenceIteratorValue,
    TakeSequenceIterate,
    TakeSequenceIteratorValue,
    SkipSequenceIterate,
    SkipSequenceIteratorValue,
    ListNew,
    ListAddCore,
    ListAdd,
    ListCount,
    ListAt,
    ListSetAt,
    ListIterate,
    ListIteratorValue,
    ListToString,
    ListToList,
    ListInsert,
    ListPlus,
    ListRemoveAt,
    ListClear,
    ListContains,
    ListIndexOf,
    ListIsEmpty,
    ListEach,
    ListMap,
    ListWhere,
    ListAny,
    ListAll,
    ListReduce,
    ListReduceFrom,
    ListJoin,
    ListJoinWith,
    ListFilled,
    MapNew,
    MapAddCore,
    MapAt,
    MapSetAt,
    MapCount,
    MapContainsKey,
    MapRemove,
    MapClear,
    MapToString,
    MapKeys,
    MapValues,
    MapIterate,
    MapIteratorValue,
    MapEntryKey,
    MapEntryValue,
    MapEntryToString,
    RangeFrom,
    RangeTo,
    RangeMin,
    RangeMax,
    RangeIterate,
    RangeIteratorValue,
    RangeToString,
    SystemPrint,
    SystemPrintLine,
    SystemWrite,
    RandomNew,
    RandomNewSeeded,
    RandomFloat,
    RandomFloatTo,
    RandomFloatBetween,
    RandomInt,
    RandomIntTo,
    RandomIntBetween,
    RandomSample,
    RandomSampleMany,
    RandomShuffle,
}

impl Primitive {
    /// How many arguments a method takes. `Fn.call` takes whatever it is
    /// given.
    pub open spec fn spec_arity(self) -> int {
        match self {
            Primitive::NumClamp | Primitive::SequenceReduceFrom | Primitive::ListSetAt
            | Primitive::ListInsert | Primitive::ListReduceFrom | Primitive::ListFilled
            | Primitive::MapAddCore | Primitive::MapSetAt | Primitive::RandomFloatBetween
            | Primitive::RandomIntBetween | Primitive::RandomSampleMany => 2,
            Primitive::ObjectEqual | Primitive::ObjectUnequal | Primitive::ObjectIs
            | Primitive::FnNew | Primitive::FiberNew | Primitive::FiberAbort
            | Primitive::FiberYieldValue | Primitive::FiberCallValue | Primitive::FiberTryValue
            | Primitive::FiberTransferValue | Primitive::NumAdd | Primitive::NumSubtract
            | Primitive::NumMultiply | Primitive::NumDivide | Primitive::NumRemainder
            | Primitive::NumLess | Primitive::NumGreater | Primitive::NumAtMost
            | Primitive::NumAtLeast | Primitive::NumRange | Primitive::NumRangeExclusive
            | Primitive::NumEqual | Primitive::NumUnequal | Primitive::BoolEqual
            | Primitive::BoolUnequal | Primitive::NullEqual | Primitive::NullUnequal
            | Primitive::StringAdd | Primitive::StringEqual | Primitive::StringUnequal
            | Primitive::StringAt | Primitive::StringContains | Primitive::StringStartsWith
            | Primitive::StringEndsWith | Primitive::StringIndexOf | Primitive::StringSplit
            | Primitive::StringRepeat | Primitive::StringIterate
            | Primitive::StringIteratorValue | Primitive::StringLess | Primitive::StringGreater
            | Primitive::StringAtMost | Primitive::StringAtLeast
            | Primitive::StringFromCodePoint | Primitive::StringFromByte | Primitive::NumMin
            | Primitive::NumMax | Primitive::NumAnd | Primitive::NumOr | Primitive::NumXor
            | Primitive::NumShiftLeft | Primitive::NumShiftRight | Primitive::NumPow
            | Primitive::NumAtan2 | Primitive::SequenceEach | Primitive::SequenceContains
            | Primitive::SequenceAll | Primitive::SequenceAny | Primitive::SequenceReduce
            | Primitive::SequenceJoinWith | Primitive::SequenceMap | Primitive::SequenceWhere
            | Primitive::SequenceTake | Primitive::SequenceSkip | Primitive::MapSequenceIterate
            | Primitive::MapSequenceIteratorValue | Primitive::WhereSequenceIterate
            | Primitive::WhereSequenceIteratorValue | Primitive::TakeSequenceIterate
            | Primitive::TakeSequenceIteratorValue | Primitive::SkipSequenceIterate
            | Primitive::SkipSequenceIteratorValue | Primitive::ListAddCore | Primitive::ListAdd
            | Primitive::ListAt | Primitive::ListIterate | Primitive::ListIteratorValue
            | Primitive::ListPlus | Primitive::ListRemoveAt | Primitive::ListContains
            | Primitive::ListIndexOf | Primitive::ListEach | Primitive::ListMap
            | Primitive::ListWhere | Primitive::ListAny | Primitive::ListAll
            | Primitive::ListReduce | Primitive::ListJoinWith | Primitive::MapAt
            | Primitive::MapContainsKey | Primitive::MapRemove | Primitive::MapIterate
            | Primitive::MapIteratorValue | Primitive::RangeIterate
            | Primitive::RangeIteratorValue | Primitive::SystemPrint | Primitive::SystemWrite
            | Primitive::RandomNewSeeded | Primitive::RandomFloatTo | Primitive::RandomIntTo
            | Primitive::RandomSample | Primitive::RandomShuffle => 1,
            _ => 0,
        }
    }

    /// How many arguments a method takes. `Fn.call` takes whatever it is
    /// given.
    pub fn arity(self) -> (n: usize)
        ensures
            n == self.spec_arity(),
    {
        match self {
            Primitive::NumClamp | Primitive::SequenceReduceFrom | Primitive::ListSetAt
            | Primitive::ListInsert | Primitive::ListReduceFrom | Primitive::ListFilled
            | Primitive::MapAddCore | Primitive::MapSetAt | Primitive::RandomFloatBetween
            | Primitive::RandomIntBetween | Primitive::RandomSampleMany => 2,
            Primitive::ObjectEqual | Primitive::ObjectUnequal | Primitive::ObjectIs
            | Primitive::FnNew | Primitive::FiberNew | Primitive::FiberAbort
            | Primitive::FiberYieldValue | Primitive::FiberCallValue | Primitive::FiberTryValue
            | Primitive::FiberTransferValue | Primitive::NumAdd | Primitive::NumSubtract
            | Primitive::NumMultiply | Primitive::NumDivide | Primitive::NumRemainder
            | Primitive::NumLess | Primitive::NumGreater | Primitive::NumAtMost
            | Primitive::NumAtLeast | Primitive::NumRange | Primitive::NumRangeExclusive
            | Primitive::NumEqual | Primitive::NumUnequal | Primitive::BoolEqual
            | Primitive::BoolUnequal | Primitive::NullEqual | Primitive::NullUnequal
            | Primitive::StringAdd | Primitive::StringEqual | Primitive::StringUnequal
            | Primitive::StringAt | Primitive::StringContains | Primitive::StringStartsWith
            | Primitive::StringEndsWith | Primitive::StringIndexOf | Primitive::StringSplit
            | Primitive::StringRepeat | Primitive::StringIterate
            | Primitive::StringIteratorValue | Primitive::StringLess | Primitive::StringGreater
            | Primitive::StringAtMost | Primitive::StringAtLeast
            | Primitive::StringFromCodePoint | Primitive::StringFromByte | Primitive::NumMin
            | Primitive::NumMax | Primitive::NumAnd | Primitive::NumOr | Primitive::NumXor
            | Primitive::NumShiftLeft | Primitive::NumShiftRight | Primitive::NumPow
            | Primitive::NumAtan2 | Primitive::SequenceEach | Primitive::SequenceContains
            | Primitive::SequenceAll | Primitive::SequenceAny | Primitive::SequenceReduce
            | Primitive::SequenceJoinWith | Primitive::SequenceMap | Primitive::SequenceWhere
            | Primitive::SequenceTake | Primitive::SequenceSkip | Primitive::MapSequenceIterate
            | Primitive::MapSequenceIteratorValue | Primitive::WhereSequenceIterate
            | Primitive::WhereSequenceIteratorValue | Primitive::TakeSequenceIterate
            | Primitive::TakeSequenceIteratorValue | Primitive::SkipSequenceIterate
            | Primitive::SkipSequenceIteratorValue | Primitive::ListAddCore | Primitive::ListAdd
            | Primitive::ListAt | Primitive::ListIterate | Primitive::ListIteratorValue
            | Primitive::ListPlus | Primitive::ListRemoveAt | Primitive::ListContains
            | Primitive::ListIndexOf | Primitive::ListEach | Primitive::ListMap
            | Primitive::ListWhere | Primitive::ListAny | Primitive::ListAll
            | Primitive::ListReduce | Primitive::ListJoinWith | Primitive::MapAt
            | Primitive::MapContainsKey | Primitive::MapRemove | Primitive::MapIterate
            | Primitive::MapIteratorValue | Primitive::RangeIterate
            | Primitive::RangeIteratorValue | Primitive::SystemPrint | Primitive::SystemWrite
            | Primitive::RandomNewSeeded | Primitive::RandomFloatTo | Primitive::RandomIntTo
            | Primitive::RandomSample | Primitive::RandomShuffle => 1,
            _ => 0,
        }
    }
}

} // verus!
