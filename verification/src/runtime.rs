//! The decisions of the runtime that runs compiled programs: how the input
//! argument is read, how a result word is shown, and what an error code says.
use vstd::prelude::*;

use crate::parser::{MAX_LITERAL, MIN_LITERAL};
use crate::text::{parse_i64, spec_parse_i64, text_is};

verus! {

/// The input argument is neither a boolean nor a number.
#[derive(Debug, Clone, Copy, PartialEq, Eq, Structural)]
pub enum ArgError {
    NotANumber,
}

/// The tagged word of an integer: `n << 1`, which wraps around as a shift
/// of an `i64` does.
pub open spec fn tag_number(n: i64) -> i64 {
    if 2 * n > i64::MAX {
        (2 * n - 0x1_0000_0000_0000_0000) as i64
    } else if 2 * n < i64::MIN {
        (2 * n + 0x1_0000_0000_0000_0000) as i64
    } else {
        (2 * n) as i64
    }
}

/// The tagged word that an argument text stands for.
pub open spec fn spec_parse_arg(s: Seq<char>) -> Result<i64, ArgError> {
    if s == "true"@ {
        Ok(3)
    } else if s == "false"@ {
        Ok(1)
    } else {
        match spec_parse_i64(s) {
            Some(n) => Ok(tag_number(n)),
            None => Err(ArgError::NotANumber),
        }
    }
}

/// The input of a program, from the runtime's command line: `false` where
/// none is given, else the tagged word of `args[1]`, which must be `true`,
/// `false` or a number (`read_arg` says where it is not).
pub fn parse_arg(v: &Vec<String>) -> (r: i64)
    requires
        v.len() >= 2 ==> spec_parse_arg(v@[1]@) is Ok,
    ensures
        v.len() < 2 ==> r == 1,
        v.len() >= 2 ==> spec_parse_arg(v@[1]@) == Ok::<i64, ArgError>(r),
{
    match read_arg(v) {
        Ok(w) => w,
        Err(_) => 1,
    }
}

/// The input of a program, from the runtime's command line, or why
/// `args[1]` is none.
pub fn read_arg(v: &Vec<String>) -> (r: Result<i64, ArgError>)
    ensures
        v.len() < 2 ==> r == Ok::<i64, ArgError>(1),
        v.len() >= 2 ==> r == spec_parse_arg(v@[1]@),
{
    if v.len() < 2 {
        return Ok(1);
    }
    let s = &v[1];
    if text_is(s.as_str(), "true") {
        Ok(3)
    } else if text_is(s.as_str(), "false") {
        Ok(1)
    } else {
        match parse_i64(s.as_str()) {
            Some(n) => Ok(n.wrapping_add(n)),
            None => Err(ArgError::NotANumber),
        }
    }
}

/// What a word of a running program is.
#[derive(Debug, Clone, Copy, PartialEq, Eq, Structural)]
pub enum ValueKind {
    True,
    False,
    /// A pointer to a heap object.
    Pointer,
    /// A number, with its value.
    Number(i64),
    Unknown,
}

/// What a word is: 3 is true, 1 is false, a word with bits 0 and 2 set
/// points to the heap, an even word is the number of half its value.
pub open spec fn spec_value_kind(val: i64) -> ValueKind {
    if val == 3 {
        ValueKind::True
    } else if val == 1 {
        ValueKind::False
    } else if val & 5 == 5 {
        ValueKind::Pointer
    } else if val % 2 == 0 {
        ValueKind::Number(val >> 1)
    } else {
        ValueKind::Unknown
    }
}

/// Classifies a word for printing.
pub fn value_kind(val: i64) -> (k: ValueKind)
    ensures
        k == spec_value_kind(val),
{
    if val == 3 {
        ValueKind::True
    } else if val == 1 {
        ValueKind::False
    } else if val & 5 == 5 {
        ValueKind::Pointer
    } else if val % 2 == 0 {
        ValueKind::Number(val >> 1)
    } else {
        ValueKind::Unknown
    }
}

/// What a heap object is, by its first word.
#[derive(Debug, Clone, Copy, PartialEq, Eq, Structural)]
pub enum HeapKind {
    Array,
    Link,
    /// Any other word, shown as a value.
    Scalar,
}

/// Classifies a heap object by its first word: 19 is an array, 11 a link.
pub fn heap_kind(tag: i64) -> (k: HeapKind)
    ensures
        k == (if tag == 19 {
            HeapKind::Array
        } else if tag == 11 {
            HeapKind::Link
        } else {
            HeapKind::Scalar
        }),
{
    if tag == 19 {
        HeapKind::Array
    } else if tag == 11 {
        HeapKind::Link
    } else {
        HeapKind::Scalar
    }
}

/// The message of a runtime error code.
pub open spec fn spec_error_message(errcode: i64) -> Seq<char> {
    if errcode == 1 {
        "Failed to set up runtime"@
    } else if errcode == 2 {
        "Ran out of memory"@
    } else if errcode == 3 {
        "Type mismatch"@
    } else if errcode == 4 {
        "Bad memory access"@
    } else if errcode == 5 {
        "Truth value expected (invalid argument)"@
    } else if errcode == 6 {
        "Numeric value expected (invalid argument)"@
    } else if errcode == 7 {
        "Arithmetic error (overflow)"@
    } else {
        "An unspecified error occurred"@
    }
}

/// The message of a runtime error code.
pub fn error_message(errcode: i64) -> (s: &'static str)
    ensures
        s@ == spec_error_message(errcode),
{
    if errcode == 1 {
        "Failed to set up runtime"
    } else if errcode == 2 {
        "Ran out of memory"
    } else if errcode == 3 {
        "Type mismatch"
    } else if errcode == 4 {
        "Bad memory access"
    } else if errcode == 5 {
        "Truth value expected (invalid argument)"
    } else if errcode == 6 {
        "Numeric value expected (invalid argument)"
    } else if errcode == 7 {
        "Arithmetic error (overflow)"
    } else {
        "An unspecified error occurred"
    }
}

/// A literal of the language, tagged by the parser, is shown back by the
/// runtime as the same number.
pub proof fn lemma_number_round_trip(n: i64)
    requires
        MIN_LITERAL <= n <= MAX_LITERAL,
    ensures
        spec_value_kind((2 * n) as i64) == ValueKind::Number(n),
{
    let w = (2 * n) as i64;
    assert(w == 2 * n);
    assert(w & 5 != 5 && w % 2 == 0 && w >> 1 == n) by (bit_vector)
        requires
            w == 2 * n,
            -4611686018427387904 <= n <= 4611686018427387903,
    ;
}

/// An argument read by the runtime is tagged as the parser tags a literal:
/// within the literal range, the number `n` becomes the word `2 * n`.
pub proof fn lemma_arg_tagging(n: i64)
    requires
        MIN_LITERAL <= n <= MAX_LITERAL,
    ensures
        tag_number(n) == 2 * n,
        spec_value_kind(tag_number(n)) == ValueKind::Number(n),
{
    lemma_number_round_trip(n);
}

} // verus!
