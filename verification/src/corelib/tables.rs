//! The methods of the core library's classes.

use vstd::prelude::*;

use super::bindings;
use super::bindings::Row;
use super::primitive::Primitive;

verus! {

/// A signature and what answers it.
fn row(signature: &'static str, primitive: Primitive) -> (row: Row)
    ensures
        row.signature@ == signature@,
        row.primitive == primitive,
{
    Row { signature, primitive }
}

/// The methods of an object.
pub open spec fn object_rows() -> Seq<(Seq<char>, Primitive)> {
    seq![
        ("!"@, Primitive::ObjectNot),
        ("==(_)"@, Primitive::ObjectEqual),
        ("!=(_)"@, Primitive::ObjectUnequal),
        ("toString"@, Primitive::ObjectToString),
        ("is(_)"@, Primitive::ObjectIs),
        ("type"@, Primitive::ObjectClass),
    ]
}

/// The methods of an object.
pub fn object_table() -> (rows: Vec<Row>)
    ensures
        bindings::said(rows@) == object_rows(),
{
    let mut rows: Vec<Row> = Vec::new();
    rows.push(row("!", Primitive::ObjectNot));
    rows.push(row("==(_)", Primitive::ObjectEqual));
    rows.push(row("!=(_)", Primitive::ObjectUnequal));
    rows.push(row("toString", Primitive::ObjectToString));
    rows.push(row("is(_)", Primitive::ObjectIs));
    rows.push(row("type", Primitive::ObjectClass));
    proof {
        assert(bindings::said(rows@) =~= object_rows());
    }
    rows
}

/// The methods of `Fn`.
pub open spec fn fn_meta_rows() -> Seq<(Seq<char>, Primitive)> {
    seq![
        ("new(_)"@, Primitive::FnNew),
    ]
}

/// The methods of `Fn`.
pub fn fn_meta_table() -> (rows: Vec<Row>)
    ensures
        bindings::said(rows@) == fn_meta_rows(),
{
    let mut rows: Vec<Row> = Vec::new();
    rows.push(row("new(_)", Primitive::FnNew));
    proof {
        assert(bindings::said(rows@) =~= fn_meta_rows());
    }
    rows
}

/// The methods of a function.
pub open spec fn fn_rows() -> Seq<(Seq<char>, Primitive)> {
    seq![
        ("arity"@, Primitive::FnArity),
    ]
}

/// The methods of a function.
pub fn fn_table() -> (rows: Vec<Row>)
    ensures
        bindings::said(rows@) == fn_rows(),
{
    let mut rows: Vec<Row> = Vec::new();
    rows.push(row("arity", Primitive::FnArity));
    proof {
        assert(bindings::said(rows@) =~= fn_rows());
    }
    rows
}

/// The methods of `Fiber`.
pub open spec fn fiber_meta_rows() -> Seq<(Seq<char>, Primitive)> {
    seq![
        ("new(_)"@, Primitive::FiberNew),
        ("current"@, Primitive::FiberCurrent),
        ("abort(_)"@, Primitive::FiberAbort),
        ("yield()"@, Primitive::FiberYield),
        ("yield(_)"@, Primitive::FiberYieldValue),
    ]
}

/// The methods of `Fiber`.
pub fn fiber_meta_table() -> (rows: Vec<Row>)
    ensures
        bindings::said(rows@) == fiber_meta_rows(),
{
    let mut rows: Vec<Row> = Vec::new();
    rows.push(row("new(_)", Primitive::FiberNew));
    rows.push(row("current", Primitive::FiberCurrent));
    rows.push(row("abort(_)", Primitive::FiberAbort));
    rows.push(row("yield()", Primitive::FiberYield));
    rows.push(row("yield(_)", Primitive::FiberYieldValue));
    proof {
        assert(bindings::said(rows@) =~= fiber_meta_rows());
    }
    rows
}

/// The methods of a fiber.
pub open spec fn fiber_rows() -> Seq<(Seq<char>, Primitive)> {
    seq![
        ("call()"@, Primitive::FiberCall),
        ("call(_)"@, Primitive::FiberCallValue),
        ("try()"@, Primitive::FiberTry),
        ("try(_)"@, Primitive::FiberTryValue),
        ("transfer()"@, Primitive::FiberTransfer),
        ("transfer(_)"@, Primitive::FiberTransferValue),
        ("isDone"@, Primitive::FiberIsDone),
        ("error"@, Primitive::FiberError),
    ]
}

/// The methods of a fiber.
pub fn fiber_table() -> (rows: Vec<Row>)
    ensures
        bindings::said(rows@) == fiber_rows(),
{
    let mut rows: Vec<Row> = Vec::new();
    rows.push(row("call()", Primitive::FiberCall));
    rows.push(row("call(_)", Primitive::FiberCallValue));
    rows.push(row("try()", Primitive::FiberTry));
    rows.push(row("try(_)", Primitive::FiberTryValue));
    rows.push(row("transfer()", Primitive::FiberTransfer));
    rows.push(row("transfer(_)", Primitive::FiberTransferValue));
    rows.push(row("isDone", Primitive::FiberIsDone));
    rows.push(row("error", Primitive::FiberError));
    proof {
        assert(bindings::said(rows@) =~= fiber_rows());
    }
    rows
}

/// The methods of a number.
pub open spec fn num_rows() -> Seq<(Seq<char>, Primitive)> {
    seq![
        ("+(_)"@, Primitive::NumAdd),
        ("-(_)"@, Primitive::NumSubtract),
        ("*(_)"@, Primitive::NumMultiply),
        ("/(_)"@, Primitive::NumDivide),
        ("%(_)"@, Primitive::NumRemainder),
        ("<(_)"@, Primitive::NumLess),
        (">(_)"@, Primitive::NumGreater),
        ("<=(_)"@, Primitive::NumAtMost),
        (">=(_)"@, Primitive::NumAtLeast),
        ("..(_)"@, Primitive::NumRange),
        ("...(_)"@, Primitive::NumRangeExclusive),
        ("==(_)"@, Primitive::NumEqual),
        ("!=(_)"@, Primitive::NumUnequal),
        ("-"@, Primitive::NumNegate),
        ("abs"@, Primitive::NumAbs),
        ("floor"@, Primitive::NumFloor),
        ("ceil"@, Primitive::NumCeil),
        ("sqrt"@, Primitive::NumSqrt),
        ("toString"@, Primitive::NumToString),
    ]
}

/// The methods of a number.
pub fn num_table() -> (rows: Vec<Row>)
    ensures
        bindings::said(rows@) == num_rows(),
{
    let mut rows: Vec<Row> = Vec::new();
    rows.push(row("+(_)", Primitive::NumAdd));
    rows.push(row("-(_)", Primitive::NumSubtract));
    rows.push(row("*(_)", Primitive::NumMultiply));
    rows.push(row("/(_)", Primitive::NumDivide));
    rows.push(row("%(_)", Primitive::NumRemainder));
    rows.push(row("<(_)", Primitive::NumLess));
    rows.push(row(">(_)", Primitive::NumGreater));
    rows.push(row("<=(_)", Primitive::NumAtMost));
    rows.push(row(">=(_)", Primitive::NumAtLeast));
    rows.push(row("..(_)", Primitive::NumRange));
    rows.push(row("...(_)", Primitive::NumRangeExclusive));
    rows.push(row("==(_)", Primitive::NumEqual));
    rows.push(row("!=(_)", Primitive::NumUnequal));
    rows.push(row("-", Primitive::NumNegate));
    rows.push(row("abs", Primitive::NumAbs));
    rows.push(row("floor", Primitive::NumFloor));
    rows.push(row("ceil", Primitive::NumCeil));
    rows.push(row("sqrt", Primitive::NumSqrt));
    rows.push(row("toString", Primitive::NumToString));
    proof {
        assert(bindings::said(rows@) =~= num_rows());
    }
    rows
}

/// The methods of a truth value.
pub open spec fn bool_rows() -> Seq<(Seq<char>, Primitive)> {
    seq![
        ("!"@, Primitive::BoolNot),
        ("toString"@, Primitive::BoolToString),
        ("==(_)"@, Primitive::BoolEqual),
        ("!=(_)"@, Primitive::BoolUnequal),
    ]
}

/// The methods of a truth value.
pub fn bool_table() -> (rows: Vec<Row>)
    ensures
        bindings::said(rows@) == bool_rows(),
{
    let mut rows: Vec<Row> = Vec::new();
    rows.push(row("!", Primitive::BoolNot));
    rows.push(row("toString", Primitive::BoolToString));
    rows.push(row("==(_)", Primitive::BoolEqual));
    rows.push(row("!=(_)", Primitive::BoolUnequal));
    proof {
        assert(bindings::said(rows@) =~= bool_rows());
    }
    rows
}

/// The methods of null.
pub open spec fn null_rows() -> Seq<(Seq<char>, Primitive)> {
    seq![
        ("!"@, Primitive::NullNot),
        ("toString"@, Primitive::NullToString),
        ("==(_)"@, Primitive::NullEqual),
        ("!=(_)"@, Primitive::NullUnequal),
    ]
}

/// The methods of null.
pub fn null_table() -> (rows: Vec<Row>)
    ensures
        bindings::said(rows@) == null_rows(),
{
    let mut rows: Vec<Row> = Vec::new();
    rows.push(row("!", Primitive::NullNot));
    rows.push(row("toString", Primitive::NullToString));
    rows.push(row("==(_)", Primitive::NullEqual));
    rows.push(row("!=(_)", Primitive::NullUnequal));
    proof {
        assert(bindings::said(rows@) =~= null_rows());
    }
    rows
}

/// The methods of a string.
pub open spec fn string_rows() -> Seq<(Seq<char>, Primitive)> {
    seq![
        ("+(_)"@, Primitive::StringAdd),
        ("count"@, Primitive::StringCount),
        ("toString"@, Primitive::StringToString),
        ("==(_)"@, Primitive::StringEqual),
        ("!=(_)"@, Primitive::StringUnequal),
    ]
}

/// The methods of a string.
pub fn string_table() -> (rows: Vec<Row>)
    ensures
        bindings::said(rows@) == string_rows(),
{
    let mut rows: Vec<Row> = Vec::new();
    rows.push(row("+(_)", Primitive::StringAdd));
    rows.push(row("count", Primitive::StringCount));
    rows.push(row("toString", Primitive::StringToString));
    rows.push(row("==(_)", Primitive::StringEqual));
    rows.push(row("!=(_)", Primitive::StringUnequal));
    proof {
        assert(bindings::said(rows@) =~= string_rows());
    }
    rows
}

/// The methods of a string, besides.
pub open spec fn string_extras_rows() -> Seq<(Seq<char>, Primitive)> {
    seq![
        ("[_]"@, Primitive::StringAt),
        ("contains(_)"@, Primitive::StringContains),
        ("startsWith(_)"@, Primitive::StringStartsWith),
        ("endsWith(_)"@, Primitive::StringEndsWith),
        ("indexOf(_)"@, Primitive::StringIndexOf),
        ("isEmpty"@, Primitive::StringIsEmpty),
        ("trim()"@, Primitive::StringTrim),
        ("trimStart()"@, Primitive::StringTrimStart),
        ("trimEnd()"@, Primitive::StringTrimEnd),
        ("split(_)"@, Primitive::StringSplit),
        ("*(_)"@, Primitive::StringRepeat),
        ("bytes"@, Primitive::StringBytes),
        ("codePoints"@, Primitive::StringCodePoints),
        ("iterate(_)"@, Primitive::StringIterate),
        ("iteratorValue(_)"@, Primitive::StringIteratorValue),
        ("<(_)"@, Primitive::StringLess),
        (">(_)"@, Primitive::StringGreater),
        ("<=(_)"@, Primitive::StringAtMost),
        (">=(_)"@, Primitive::StringAtLeast),
    ]
}

/// The methods of a string, besides.
pub fn string_extras_table() -> (rows: Vec<Row>)
    ensures
        bindings::said(rows@) == string_extras_rows(),
{
    let mut rows: Vec<Row> = Vec::new();
    rows.push(row("[_]", Primitive::StringAt));
    rows.push(row("contains(_)", Primitive::StringContains));
    rows.push(row("startsWith(_)", Primitive::StringStartsWith));
    rows.push(row("endsWith(_)", Primitive::StringEndsWith));
    rows.push(row("indexOf(_)", Primitive::StringIndexOf));
    rows.push(row("isEmpty", Primitive::StringIsEmpty));
    rows.push(row("trim()", Primitive::StringTrim));
    rows.push(row("trimStart()", Primitive::StringTrimStart));
    rows.push(row("trimEnd()", Primitive::StringTrimEnd));
    rows.push(row("split(_)", Primitive::StringSplit));
    rows.push(row("*(_)", Primitive::StringRepeat));
    rows.push(row("bytes", Primitive::StringBytes));
    rows.push(row("codePoints", Primitive::StringCodePoints));
    rows.push(row("iterate(_)", Primitive::StringIterate));
    rows.push(row("iteratorValue(_)", Primitive::StringIteratorValue));
    rows.push(row("<(_)", Primitive::StringLess));
    rows.push(row(">(_)", Primitive::StringGreater));
    rows.push(row("<=(_)", Primitive::StringAtMost));
    rows.push(row(">=(_)", Primitive::StringAtLeast));
    proof {
        assert(bindings::said(rows@) =~= string_extras_rows());
    }
    rows
}

/// The methods of `String`.
pub open spec fn string_meta_rows() -> Seq<(Seq<char>, Primitive)> {
    seq![
        ("fromCodePoint(_)"@, Primitive::StringFromCodePoint),
        ("fromByte(_)"@, Primitive::StringFromByte),
    ]
}

/// The methods of `String`.
pub fn string_meta_table() -> (rows: Vec<Row>)
    ensures
        bindings::said(rows@) == string_meta_rows(),
{
    let mut rows: Vec<Row> = Vec::new();
    rows.push(row("fromCodePoint(_)", Primitive::StringFromCodePoint));
    rows.push(row("fromByte(_)", Primitive::StringFromByte));
    proof {
        assert(bindings::said(rows@) =~= string_meta_rows());
    }
    rows
}

/// The methods of a number, besides.
pub open spec fn num_extras_rows() -> Seq<(Seq<char>, Primitive)> {
    seq![
        ("min(_)"@, Primitive::NumMin),
        ("max(_)"@, Primitive::NumMax),
        ("clamp(_,_)"@, Primitive::NumClamp),
        ("truncate"@, Primitive::NumTruncate),
        ("fraction"@, Primitive::NumFraction),
        ("sign"@, Primitive::NumSign),
        ("isInteger"@, Primitive::NumIsInteger),
        ("isNan"@, Primitive::NumIsNan),
        ("isInfinity"@, Primitive::NumIsInfinity),
        ("&(_)"@, Primitive::NumAnd),
        ("|(_)"@, Primitive::NumOr),
        ("^(_)"@, Primitive::NumXor),
        ("<<(_)"@, Primitive::NumShiftLeft),
        (">>(_)"@, Primitive::NumShiftRight),
        ("~"@, Primitive::NumComplement),
        ("round"@, Primitive::NumRound),
        ("pow(_)"@, Primitive::NumPow),
        ("log"@, Primitive::NumLog),
        ("log2"@, Primitive::NumLog2),
        ("exp"@, Primitive::NumExp),
        ("cbrt"@, Primitive::NumCbrt),
        ("sin"@, Primitive::NumSin),
        ("cos"@, Primitive::NumCos),
        ("tan"@, Primitive::NumTan),
        ("asin"@, Primitive::NumAsin),
        ("acos"@, Primitive::NumAcos),
        ("atan"@, Primitive::NumAtan),
        ("atan(_)"@, Primitive::NumAtan2),
    ]
}

/// The methods of a number, besides.
pub fn num_extras_table() -> (rows: Vec<Row>)
    ensures
        bindings::said(rows@) == num_extras_rows(),
{
    let mut rows: Vec<Row> = Vec::new();
    rows.push(row("min(_)", Primitive::NumMin));
    rows.push(row("max(_)", Primitive::NumMax));
    rows.push(row("clamp(_,_)", Primitive::NumClamp));
    rows.push(row("truncate", Primitive::NumTruncate));
    rows.push(row("fraction", Primitive::NumFraction));
    rows.push(row("sign", Primitive::NumSign));
    rows.push(row("isInteger", Primitive::NumIsInteger));
    rows.push(row("isNan", Primitive::NumIsNan));
    rows.push(row("isInfinity", Primitive::NumIsInfinity));
    rows.push(row("&(_)", Primitive::NumAnd));
    rows.push(row("|(_)", Primitive::NumOr));
    rows.push(row("^(_)", Primitive::NumXor));
    rows.push(row("<<(_)", Primitive::NumShiftLeft));
    rows.push(row(">>(_)", Primitive::NumShiftRight));
    rows.push(row("~", Primitive::NumComplement));
    rows.push(row("round", Primitive::NumRound));
    rows.push(row("pow(_)", Primitive::NumPow));
    rows.push(row("log", Primitive::NumLog));
    rows.push(row("log2", Primitive::NumLog2));
    rows.push(row("exp", Primitive::NumExp));
    rows.push(row("cbrt", Primitive::NumCbrt));
    rows.push(row("sin", Primitive::NumSin));
    rows.push(row("cos", Primitive::NumCos));
    rows.push(row("tan", Primitive::NumTan));
    rows.push(row("asin", Primitive::NumAsin));
    rows.push(row("acos", Primitive::NumAcos));
    rows.push(row("atan", Primitive::NumAtan));
    rows.push(row("atan(_)", Primitive::NumAtan2));
    proof {
        assert(bindings::said(rows@) =~= num_extras_rows());
    }
    rows
}

/// The methods of `Num`.
pub open spec fn num_meta_rows() -> Seq<(Seq<char>, Primitive)> {
    seq![
        ("pi"@, Primitive::NumPi),
        ("e"@, Primitive::NumE),
        ("infinity"@, Primitive::NumInfinity),
        ("nan"@, Primitive::NumNan),
        ("largest"@, Primitive::NumLargest),
        ("smallest"@, Primitive::NumSmallest),
        ("maxSafeInteger"@, Primitive::NumMaxSafeInteger),
        ("minSafeInteger"@, Primitive::NumMinSafeInteger),
    ]
}

/// The methods of `Num`.
pub fn num_meta_table() -> (rows: Vec<Row>)
    ensures
        bindings::said(rows@) == num_meta_rows(),
{
    let mut rows: Vec<Row> = Vec::new();
    rows.push(row("pi", Primitive::NumPi));
    rows.push(row("e", Primitive::NumE));
    rows.push(row("infinity", Primitive::NumInfinity));
    rows.push(row("nan", Primitive::NumNan));
    rows.push(row("largest", Primitive::NumLargest));
    rows.push(row("smallest", Primitive::NumSmallest));
    rows.push(row("maxSafeInteger", Primitive::NumMaxSafeInteger));
    rows.push(row("minSafeInteger", Primitive::NumMinSafeInteger));
    proof {
        assert(bindings::said(rows@) =~= num_meta_rows());
    }
    rows
}

/// The methods of a sequence.
pub open spec fn sequence_rows() -> Seq<(Seq<char>, Primitive)> {
    seq![
        ("count"@, Primitive::SequenceCount),
        ("isEmpty"@, Primitive::SequenceIsEmpty),
        ("each(_)"@, Primitive::SequenceEach),
        ("toList"@, Primitive::SequenceToList),
        ("contains(_)"@, Primitive::SequenceContains),
        ("all(_)"@, Primitive::SequenceAll),
        ("any(_)"@, Primitive::SequenceAny),
        ("reduce(_)"@, Primitive::SequenceReduce),
        ("reduce(_,_)"@, Primitive::SequenceReduceFrom),
        ("join()"@, Primitive::SequenceJoin),
        ("join(_)"@, Primitive::SequenceJoinWith),
        ("map(_)"@, Primitive::SequenceMap),
        ("where(_)"@, Primitive::SequenceWhere),
        ("take(_)"@, Primitive::SequenceTake),
        ("skip(_)"@, Primitive::SequenceSkip),
    ]
}

/// The methods of a sequence.
pub fn sequence_table() -> (rows: Vec<Row>)
    ensures
        bindings::said(rows@) == sequence_rows(),
{
    let mut rows: Vec<Row> = Vec::new();
    rows.push(row("count", Primitive::SequenceCount));
    rows.push(row("isEmpty", Primitive::SequenceIsEmpty));
    rows.push(row("each(_)", Primitive::SequenceEach));
    rows.push(row("toList", Primitive::SequenceToList));
    rows.push(row("contains(_)", Primitive::SequenceContains));
    rows.push(row("all(_)", Primitive::SequenceAll));
    rows.push(row("any(_)", Primitive::SequenceAny));
    rows.push(row("reduce(_)", Primitive::SequenceReduce));
    rows.push(row("reduce(_,_)", Primitive::SequenceReduceFrom));
    rows.push(row("join()", Primitive::SequenceJoin));
    rows.push(row("join(_)", Primitive::SequenceJoinWith));
    rows.push(row("map(_)", Primitive::SequenceMap));
    rows.push(row("where(_)", Primitive::SequenceWhere));
    rows.push(row("take(_)", Primitive::SequenceTake));
    rows.push(row("skip(_)", Primitive::SequenceSkip));
    proof {
        assert(bindings::said(rows@) =~= sequence_rows());
    }
    rows
}

/// The methods of a sequence that a function is applied to.
pub open spec fn map_sequence_rows() -> Seq<(Seq<char>, Primitive)> {
    seq![
        ("iterate(_)"@, Primitive::MapSequenceIterate),
        ("iteratorValue(_)"@, Primitive::MapSequenceIteratorValue),
    ]
}

/// The methods of a sequence that a function is applied to.
pub fn map_sequence_table() -> (rows: Vec<Row>)
    ensures
        bindings::said(rows@) == map_sequence_rows(),
{
    let mut rows: Vec<Row> = Vec::new();
    rows.push(row("iterate(_)", Primitive::MapSequenceIterate));
    rows.push(row("iteratorValue(_)", Primitive::MapSequenceIteratorValue));
    proof {
        assert(bindings::said(rows@) =~= map_sequence_rows());
    }
    rows
}

/// The methods of a sequence that a function chooses from.
pub open spec fn where_sequence_rows() -> Seq<(Seq<char>, Primitive)> {
    seq![
        ("iterate(_)"@, Primitive::WhereSequenceIterate),
        ("iteratorValue(_)"@, Primitive::WhereSequenceIteratorValue),
    ]
}

/// The methods of a sequence that a function chooses from.
pub fn where_sequence_table() -> (rows: Vec<Row>)
    ensures
        bindings::said(rows@) == where_sequence_rows(),
{
    let mut rows: Vec<Row> = Vec::new();
    rows.push(row("iterate(_)", Primitive::WhereSequenceIterate));
    rows.push(row("iteratorValue(_)", Primitive::WhereSequenceIteratorValue));
    proof {
        assert(bindings::said(rows@) =~= where_sequence_rows());
    }
    rows
}

/// The methods of the first elements of a sequence.
pub open spec fn take_sequence_rows() -> Seq<(Seq<char>, Primitive)> {
    seq![
        ("iterate(_)"@, Primitive::TakeSequenceIterate),
        ("iteratorValue(_)"@, Primitive::TakeSequenceIteratorValue),
    ]
}

/// The methods of the first elements of a sequence.
pub fn take_sequence_table() -> (rows: Vec<Row>)
    ensures
        bindings::said(rows@) == take_sequence_rows(),
{
    let mut rows: Vec<Row> = Vec::new();
    rows.push(row("iterate(_)", Primitive::TakeSequenceIterate));
    rows.push(row("iteratorValue(_)", Primitive::TakeSequenceIteratorValue));
    proof {
        assert(bindings::said(rows@) =~= take_sequence_rows());
    }
    rows
}

/// The methods of the last elements of a sequence.
pub open spec fn skip_sequence_rows() -> Seq<(Seq<char>, Primitive)> {
    seq![
        ("iterate(_)"@, Primitive::SkipSequenceIterate),
        ("iteratorValue(_)"@, Primitive::SkipSequenceIteratorValue),
    ]
}

/// The methods of the last elements of a sequence.
pub fn skip_sequence_table() -> (rows: Vec<Row>)
    ensures
        bindings::said(rows@) == skip_sequence_rows(),
{
    let mut rows: Vec<Row> = Vec::new();
    rows.push(row("iterate(_)", Primitive::SkipSequenceIterate));
    rows.push(row("iteratorValue(_)", Primitive::SkipSequenceIteratorValue));
    proof {
        assert(bindings::said(rows@) =~= skip_sequence_rows());
    }
    rows
}

/// The methods of `List`.
pub open spec fn list_meta_rows() -> Seq<(Seq<char>, Primitive)> {
    seq![
        ("new()"@, Primitive::ListNew),
    ]
}

/// The methods of `List`.
pub fn list_meta_table() -> (rows: Vec<Row>)
    ensures
        bindings::said(rows@) == list_meta_rows(),
{
    let mut rows: Vec<Row> = Vec::new();
    rows.push(row("new()", Primitive::ListNew));
    proof {
        assert(bindings::said(rows@) =~= list_meta_rows());
    }
    rows
}

/// The methods of a list.
pub open spec fn list_rows() -> Seq<(Seq<char>, Primitive)> {
    seq![
        ("addCore(_)"@, Primitive::ListAddCore),
        ("add(_)"@, Primitive::ListAdd),
        ("count"@, Primitive::ListCount),
        ("[_]"@, Primitive::ListAt),
        ("[_]=(_)"@, Primitive::ListSetAt),
        ("iterate(_)"@, Primitive::ListIterate),
        ("iteratorValue(_)"@, Primitive::ListIteratorValue),
        ("toString"@, Primitive::ListToString),
    ]
}

/// The methods of a list.
pub fn list_table() -> (rows: Vec<Row>)
    ensures
        bindings::said(rows@) == list_rows(),
{
    let mut rows: Vec<Row> = Vec::new();
    rows.push(row("addCore(_)", Primitive::ListAddCore));
    rows.push(row("add(_)", Primitive::ListAdd));
    rows.push(row("count", Primitive::ListCount));
    rows.push(row("[_]", Primitive::ListAt));
    rows.push(row("[_]=(_)", Primitive::ListSetAt));
    rows.push(row("iterate(_)", Primitive::ListIterate));
    rows.push(row("iteratorValue(_)", Primitive::ListIteratorValue));
    rows.push(row("toString", Primitive::ListToString));
    proof {
        assert(bindings::said(rows@) =~= list_rows());
    }
    rows
}

/// The methods of a list, besides.
pub open spec fn list_extras_rows() -> Seq<(Seq<char>, Primitive)> {
    seq![
        ("toList"@, Primitive::ListToList),
        ("insert(_,_)"@, Primitive::ListInsert),
        ("+(_)"@, Primitive::ListPlus),
        ("removeAt(_)"@, Primitive::ListRemoveAt),
        ("clear()"@, Primitive::ListClear),
        ("contains(_)"@, Primitive::ListContains),
        ("indexOf(_)"@, Primitive::ListIndexOf),
        ("isEmpty"@, Primitive::ListIsEmpty),
        ("each(_)"@, Primitive::ListEach),
        ("map(_)"@, Primitive::ListMap),
        ("where(_)"@, Primitive::ListWhere),
        ("any(_)"@, Primitive::ListAny),
        ("all(_)"@, Primitive::ListAll),
        ("reduce(_)"@, Primitive::ListReduce),
        ("reduce(_,_)"@, Primitive::ListReduceFrom),
        ("join()"@, Primitive::ListJoin),
        ("join(_)"@, Primitive::ListJoinWith),
    ]
}

/// The methods of a list, besides.
pub fn list_extras_table() -> (rows: Vec<Row>)
    ensures
        bindings::said(rows@) == list_extras_rows(),
{
    let mut rows: Vec<Row> = Vec::new();
    rows.push(row("toList", Primitive::ListToList));
    rows.push(row("insert(_,_)", Primitive::ListInsert));
    rows.push(row("+(_)", Primitive::ListPlus));
    rows.push(row("removeAt(_)", Primitive::ListRemoveAt));
    rows.push(row("clear()", Primitive::ListClear));
    rows.push(row("contains(_)", Primitive::ListContains));
    rows.push(row("indexOf(_)", Primitive::ListIndexOf));
    rows.push(row("isEmpty", Primitive::ListIsEmpty));
    rows.push(row("each(_)", Primitive::ListEach));
    rows.push(row("map(_)", Primitive::ListMap));
    rows.push(row("where(_)", Primitive::ListWhere));
    rows.push(row("any(_)", Primitive::ListAny));
    rows.push(row("all(_)", Primitive::ListAll));
    rows.push(row("reduce(_)", Primitive::ListReduce));
    rows.push(row("reduce(_,_)", Primitive::ListReduceFrom));
    rows.push(row("join()", Primitive::ListJoin));
    rows.push(row("join(_)", Primitive::ListJoinWith));
    proof {
        assert(bindings::said(rows@) =~= list_extras_rows());
    }
    rows
}

/// The methods of `List`, besides.
pub open spec fn list_meta_extras_rows() -> Seq<(Seq<char>, Primitive)> {
    seq![
        ("filled(_,_)"@, Primitive::ListFilled),
    ]
}

/// The methods of `List`, besides.
pub fn list_meta_extras_table() -> (rows: Vec<Row>)
    ensures
        bindings::said(rows@) == list_meta_extras_rows(),
{
    let mut rows: Vec<Row> = Vec::new();
    rows.push(row("filled(_,_)", Primitive::ListFilled));
    proof {
        assert(bindings::said(rows@) =~= list_meta_extras_rows());
    }
    rows
}

/// The methods of `Map`.
pub open spec fn map_meta_rows() -> Seq<(Seq<char>, Primitive)> {
    seq![
        ("new()"@, Primitive::MapNew),
    ]
}

/// The methods of `Map`.
pub fn map_meta_table() -> (rows: Vec<Row>)
    ensures
        bindings::said(rows@) == map_meta_rows(),
{
    let mut rows: Vec<Row> = Vec::new();
    rows.push(row("new()", Primitive::MapNew));
    proof {
        assert(bindings::said(rows@) =~= map_meta_rows());
    }
    rows
}

/// The methods of a map.
pub open spec fn map_rows() -> Seq<(Seq<char>, Primitive)> {
    seq![
        ("addCore(_,_)"@, Primitive::MapAddCore),
        ("[_]"@, Primitive::MapAt),
        ("[_]=(_)"@, Primitive::MapSetAt),
        ("count"@, Primitive::MapCount),
        ("containsKey(_)"@, Primitive::MapContainsKey),
        ("remove(_)"@, Primitive::MapRemove),
        ("clear()"@, Primitive::MapClear),
        ("toString"@, Primitive::MapToString),
        ("keys"@, Primitive::MapKeys),
        ("values"@, Primitive::MapValues),
        ("iterate(_)"@, Primitive::MapIterate),
        ("iteratorValue(_)"@, Primitive::MapIteratorValue),
    ]
}

/// The methods of a map.
pub fn map_table() -> (rows: Vec<Row>)
    ensures
        bindings::said(rows@) == map_rows(),
{
    let mut rows: Vec<Row> = Vec::new();
    rows.push(row("addCore(_,_)", Primitive::MapAddCore));
    rows.push(row("[_]", Primitive::MapAt));
    rows.push(row("[_]=(_)", Primitive::MapSetAt));
    rows.push(row("count", Primitive::MapCount));
    rows.push(row("containsKey(_)", Primitive::MapContainsKey));
    rows.push(row("remove(_)", Primitive::MapRemove));
    rows.push(row("clear()", Primitive::MapClear));
    rows.push(row("toString", Primitive::MapToString));
    rows.push(row("keys", Primitive::MapKeys));
    rows.push(row("values", Primitive::MapValues));
    rows.push(row("iterate(_)", Primitive::MapIterate));
    rows.push(row("iteratorValue(_)", Primitive::MapIteratorValue));
    proof {
        assert(bindings::said(rows@) =~= map_rows());
    }
    rows
}

/// The methods of an entry of a map.
pub open spec fn map_entry_rows() -> Seq<(Seq<char>, Primitive)> {
    seq![
        ("key"@, Primitive::MapEntryKey),
        ("value"@, Primitive::MapEntryValue),
        ("toString"@, Primitive::MapEntryToString),
    ]
}

/// The methods of an entry of a map.
pub fn map_entry_table() -> (rows: Vec<Row>)
    ensures
        bindings::said(rows@) == map_entry_rows(),
{
    let mut rows: Vec<Row> = Vec::new();
    rows.push(row("key", Primitive::MapEntryKey));
    rows.push(row("value", Primitive::MapEntryValue));
    rows.push(row("toString", Primitive::MapEntryToString));
    proof {
        assert(bindings::said(rows@) =~= map_entry_rows());
    }
    rows
}

/// The methods of a range.
pub open spec fn range_rows() -> Seq<(Seq<char>, Primitive)> {
    seq![
        ("from"@, Primitive::RangeFrom),
        ("to"@, Primitive::RangeTo),
        ("min"@, Primitive::RangeMin),
        ("max"@, Primitive::RangeMax),
        ("iterate(_)"@, Primitive::RangeIterate),
        ("iteratorValue(_)"@, Primitive::RangeIteratorValue),
        ("toString"@, Primitive::RangeToString),
    ]
}

/// The methods of a range.
pub fn range_table() -> (rows: Vec<Row>)
    ensures
        bindings::said(rows@) == range_rows(),
{
    let mut rows: Vec<Row> = Vec::new();
    rows.push(row("from", Primitive::RangeFrom));
    rows.push(row("to", Primitive::RangeTo));
    rows.push(row("min", Primitive::RangeMin));
    rows.push(row("max", Primitive::RangeMax));
    rows.push(row("iterate(_)", Primitive::RangeIterate));
    rows.push(row("iteratorValue(_)", Primitive::RangeIteratorValue));
    rows.push(row("toString", Primitive::RangeToString));
    proof {
        assert(bindings::said(rows@) =~= range_rows());
    }
    rows
}

/// The methods of `System`.
pub open spec fn system_rows() -> Seq<(Seq<char>, Primitive)> {
    seq![
        ("print(_)"@, Primitive::SystemPrint),
        ("print"@, Primitive::SystemPrintLine),
        ("write(_)"@, Primitive::SystemWrite),
    ]
}

/// The methods of `System`.
pub fn system_table() -> (rows: Vec<Row>)
    ensures
        bindings::said(rows@) == system_rows(),
{
    let mut rows: Vec<Row> = Vec::new();
    rows.push(row("print(_)", Primitive::SystemPrint));
    rows.push(row("print", Primitive::SystemPrintLine));
    rows.push(row("write(_)", Primitive::SystemWrite));
    proof {
        assert(bindings::said(rows@) =~= system_rows());
    }
    rows
}

/// The methods of `Random`.
pub open spec fn random_meta_rows() -> Seq<(Seq<char>, Primitive)> {
    seq![
        ("new()"@, Primitive::RandomNew),
        ("new(_)"@, Primitive::RandomNewSeeded),
    ]
}

/// The methods of `Random`.
pub fn random_meta_table() -> (rows: Vec<Row>)
    ensures
        bindings::said(rows@) == random_meta_rows(),
{
    let mut rows: Vec<Row> = Vec::new();
    rows.push(row("new()", Primitive::RandomNew));
    rows.push(row("new(_)", Primitive::RandomNewSeeded));
    proof {
        assert(bindings::said(rows@) =~= random_meta_rows());
    }
    rows
}

/// The methods of a random number generator.
pub open spec fn random_rows() -> Seq<(Seq<char>, Primitive)> {
    seq![
        ("float()"@, Primitive::RandomFloat),
        ("float(_)"@, Primitive::RandomFloatTo),
        ("float(_,_)"@, Primitive::RandomFloatBetween),
        ("int()"@, Primitive::RandomInt),
        ("int(_)"@, Primitive::RandomIntTo),
        ("int(_,_)"@, Primitive::RandomIntBetween),
        ("sample(_)"@, Primitive::RandomSample),
        ("sample(_,_)"@, Primitive::RandomSampleMany),
        ("shuffle(_)"@, Primitive::RandomShuffle),
    ]
}

/// The methods of a random number generator.
pub fn random_table() -> (rows: Vec<Row>)
    ensures
        bindings::said(rows@) == random_rows(),
{
    let mut rows: Vec<Row> = Vec::new();
    rows.push(row("float()", Primitive::RandomFloat));
    rows.push(row("float(_)", Primitive::RandomFloatTo));
    rows.push(row("float(_,_)", Primitive::RandomFloatBetween));
    rows.push(row("int()", Primitive::RandomInt));
    rows.push(row("int(_)", Primitive::RandomIntTo));
    rows.push(row("int(_,_)", Primitive::RandomIntBetween));
    rows.push(row("sample(_)", Primitive::RandomSample));
    rows.push(row("sample(_,_)", Primitive::RandomSampleMany));
    rows.push(row("shuffle(_)", Primitive::RandomShuffle));
    proof {
        assert(bindings::said(rows@) =~= random_rows());
    }
    rows
}

} // verus!
