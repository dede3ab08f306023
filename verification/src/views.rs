//! What optional values, sequences of values and conversions into text stand for.
use vstd::prelude::*;

verus! {

/// `<String as From<&str>>::from`. Claimed: the string holds the characters of the slice.
pub assume_specification<'a>[ <String as From<&str>>::from ](s: &str) -> (text: String)
    ensures
        text@ == s@,
;

/// `<T as From<T>>::from`, the conversion of a type into itself. Claimed: the value comes back
/// unchanged.
pub assume_specification<Any>[ <Any as From<Any>>::from ](thing: Any) -> (same: Any)
    ensures
        same == thing,
;

/// What an optional value stands for.
pub open spec fn viewed<T: View>(value: Option<T>) -> Option<T::V> {
    match value {
        Some(v) => Some(v@),
        None => None,
    }
}

/// What the outcome of a computation stands for.
pub open spec fn viewed_outcome<T: View, E: View>(outcome: Result<T, E>) -> Result<T::V, E::V> {
    match outcome {
        Ok(value) => Ok(value@),
        Err(error) => Err(error@),
    }
}

/// What each value of a sequence stands for.
pub open spec fn views<T: View>(values: Seq<T>) -> Seq<T::V> {
    values.map_values(|value: T| value@)
}

/// Whether `text` is what converting `value` into a string can give.
pub open spec fn converts<T: Into<String>>(value: T, text: String) -> bool {
    call_ensures(<T as Into<String>>::into, (value,), text)
}

} // verus!
