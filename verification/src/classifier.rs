//! The classifier node: integers above a threshold are "high", the others "low".

use crate::arrays::{array_view, int64_array, Cell};
use crate::convert::single;
use crate::data_id::{id_char, slashless_names_are_ids, valid_id};
use crate::data_type::PlainType;
use crate::numerals::{parse_i64, signed_value};
use arrow::array::ArrayData;
use vstd::prelude::*;
use vstd::string::*;

verus! {

/// The output that a value is sent to.
#[derive(Clone, Copy, Debug, PartialEq, Eq, Structural)]
pub enum Label {
    High,
    Low,
}

/// The output ID of a label.
pub open spec fn label_id(label: Label) -> Seq<char> {
    match label {
        Label::High => "high"@,
        Label::Low => "low"@,
    }
}

/// The label of a value.
pub open spec fn label_of(value: i64, threshold: i64) -> Label {
    if value > threshold {
        Label::High
    } else {
        Label::Low
    }
}

/// A value is labelled high if and only if it is above the threshold, and low if and only if
/// it is not.
pub proof fn high_is_above_the_threshold(value: i64, threshold: i64)
    ensures
        label_of(value, threshold) == Label::High <==> value > threshold,
        label_of(value, threshold) == Label::Low <==> value <= threshold,
{
}

/// The label goes by where a value stands to the threshold alone: moving both by the same
/// distance changes nothing, and each threshold parts its own value from the next one.
pub proof fn labels_go_by_the_distance(value: i64, threshold: i64, by: int)
    requires
        i64::MIN <= value + by <= i64::MAX,
        i64::MIN <= threshold + by <= i64::MAX,
    ensures
        label_of((value + by) as i64, (threshold + by) as i64) == label_of(value, threshold),
        label_of(threshold, threshold) == Label::Low,
        threshold < i64::MAX ==> label_of((threshold + 1) as i64, threshold) == Label::High,
{
}

/// A higher value never gets a lower label, and a higher threshold never a higher one.
pub proof fn labels_are_monotone(value: i64, more: i64, threshold: i64, lower: i64)
    requires
        value <= more,
        lower <= threshold,
        label_of(value, threshold) == Label::High,
    ensures
        label_of(more, lower) == Label::High,
{
}

/// The two labels have output IDs of their own: "high" is that of high values alone.
pub proof fn labels_have_their_own_outputs(label: Label)
    ensures
        label_id(label) == "high"@ <==> label == Label::High,
        label_id(label) == "low"@ <==> label == Label::Low,
{
    reveal_strlit("high");
    reveal_strlit("low");
    assert("high"@.len() == 4 && "low"@.len() == 3);
}

/// Every label is an output ID.
pub proof fn labels_are_output_ids(label: Label)
    ensures
        valid_id(label_id(label)),
{
    reveal_strlit("high");
    reveal_strlit("low");
    assert("high"@ =~= seq!['h', 'i', 'g', 'h']);
    assert("low"@ =~= seq!['l', 'o', 'w']);
    assert(forall|i: int| 0 <= i < label_id(label).len() ==> id_char(#[trigger] label_id(label)[i]));
    slashless_names_are_ids(label_id(label));
}

impl Label {
    /// The output ID of the label.
    pub fn as_str(&self) -> (r: &'static str)
        ensures
            r@ == label_id(*self),
            r@ == "high"@ <==> *self == Label::High,
            r@ == "low"@ <==> *self == Label::Low,
            valid_id(r@),
    {
        proof {
            labels_are_output_ids(*self);
            labels_have_their_own_outputs(*self);
        }
        match self {
            Label::High => "high",
            Label::Low => "low",
        }
    }
}

/// The threshold that a setting asks for; 50 where it asks for none.
pub open spec fn threshold_of(setting: Option<Seq<char>>) -> int {
    match setting {
        Some(text) => match signed_value(text) {
            Some(n) => if i64::MIN <= n <= i64::MAX {
                n
            } else {
                50
            },
            None => 50,
        },
        None => 50,
    }
}

/// Every integer of 64 bits can be asked for, whatever the text that stands for it; any other
/// setting, and none, gives 50.
pub proof fn settings_are_followed(text: Seq<char>, n: i64)
    ensures
        signed_value(text) == Some(n as int) ==> threshold_of(Some(text)) == n,
        signed_value(text) is None ==> threshold_of(Some(text)) == 50,
        (signed_value(text) matches Some(m) && !(i64::MIN <= m <= i64::MAX)) ==> threshold_of(
            Some(text),
        ) == 50,
        threshold_of(None) == 50,
{
}

/// Read the threshold from a setting. One that is no integer of 64 bits is ignored.
pub fn parse_threshold(setting: Option<&str>) -> (r: i64)
    ensures
        r == threshold_of(
            match setting {
                Some(text) => Some(text@),
                None => None,
            },
        ),
        setting is None ==> r == 50,
        setting matches Some(text) ==> match signed_value(text@) {
            Some(n) => r == n || (r == 50 && !(i64::MIN <= n <= i64::MAX)),
            None => r == 50,
        },
{
    match setting {
        Some(text) => match parse_i64(text) {
            Some(n) => n,
            None => 50,
        },
        None => 50,
    }
}

/// The label of a value.
pub fn classify(value: i64, threshold: i64) -> (r: Label)
    ensures
        r == label_of(value, threshold),
        r == Label::High <==> value > threshold,
        r == Label::Low <==> value <= threshold,
{
    if value > threshold {
        Label::High
    } else {
        Label::Low
    }
}

/// A value on its way to the output of its label.
#[derive(Debug)]
pub struct Classified {
    pub label: Label,
    pub array: ArrayData,
}

/// Classify each of the values of an input, in order. Each is sent as an array of its own.
pub fn classify_values(values: &Vec<i64>, threshold: i64) -> (r: Vec<Classified>)
    ensures
        r@.len() == values@.len(),
        forall|i: int|
            0 <= i < r@.len() ==> (#[trigger] r@[i]).label == label_of(values@[i], threshold)
                && array_view(r@[i].array) == single(
                PlainType::Int64,
                Cell::Integer(values@[i] as int),
            ),
        forall|i: int|
            0 <= i < values@.len() ==> {
                &&& (#[trigger] r@[i]).label == Label::High <==> values@[i] > threshold
                &&& r@[i].label == Label::Low <==> values@[i] <= threshold
                &&& array_view(r@[i].array).cells == seq![Cell::Integer(values@[i] as int)]
            },
{
    let mut classified: Vec<Classified> = Vec::new();
    let mut i: usize = 0;
    while i < values.len()
        invariant
            i <= values@.len(),
            classified@.len() == i,
            forall|j: int|
                0 <= j < i ==> (#[trigger] classified@[j]).label == label_of(values@[j], threshold)
                    && array_view(classified@[j].array) == single(
                    PlainType::Int64,
                    Cell::Integer(values@[j] as int),
                ),
        decreases values.len() - i,
    {
        classified.push(
            Classified { label: classify(values[i], threshold), array: int64_array(values[i]) },
        );
        i = i + 1;
    }
    classified
}

} // verus!
