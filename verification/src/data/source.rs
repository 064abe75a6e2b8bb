//! Records as they stand in the labelled URL list, and the rule that turns
//! the list's integer label column into a flag.

use vstd::prelude::*;

use crate::data::preprocessing::label_flag;

verus! {

/// One row of the labelled URL list: the URL and whether it is malicious.
#[derive(Debug, Clone)]
pub struct RawRecord {
    pub url: String,
    /// `true` marks a malicious URL, `false` a benign one.
    pub label: bool,
}

/// A label column holding something other than `0` or `1`.
#[derive(Debug, Clone, Copy, PartialEq, Eq)]
pub struct InvalidLabel {
    /// The value that was found in the label column.
    pub value: i32,
}

/// The flag that a label column value stands for, if it stands for one.
pub open spec fn label_of(value: i32) -> Option<bool> {
    if value == 0 {
        Some(false)
    } else if value == 1 {
        Some(true)
    } else {
        None
    }
}

/// Reads the label column: `0` is a benign URL, `1` a malicious one, and any
/// other value is refused.
pub fn bool_from_u8(value: i32) -> (res: Result<bool, InvalidLabel>)
    ensures
        label_of(value) matches Some(b) ==> res == Ok::<bool, InvalidLabel>(b),
        label_of(value) is None ==> res == Err::<bool, InvalidLabel>(InvalidLabel { value }),
        res == Ok::<bool, InvalidLabel>(false) <==> value == 0,
        res == Ok::<bool, InvalidLabel>(true) <==> value == 1,
        res is Err <==> (value != 0 && value != 1),
{
    match value {
        0 => Ok(false),
        1 => Ok(true),
        other => Err(InvalidLabel { value: other }),
    }
}

/// The label column and the model's flag agree: a column value of `0` or
/// `1` is read as the label whose flag is that same number, and every
/// label's flag reads back as that label.
pub proof fn lemma_label_round_trip(value: i32, label: bool)
    ensures
        (value == 0 || value == 1) ==> (label_of(value) matches Some(b) && label_flag(b) as i32 == value),
        label_of(label_flag(label) as i32) == Some(label),
{
}

/// Only `0` and `1` are labels: `0` reads as benign, `1` as malicious, and
/// every other value of the column is refused.
pub proof fn lemma_only_zero_and_one_are_labels(value: i32)
    ensures
        label_of(value) is Some <==> (value == 0 || value == 1),
        label_of(value) == Some(false) <==> value == 0,
        label_of(value) == Some(true) <==> value == 1,
{
}

} // verus!
