//! A programmatic source of test data.
//!
//! [`run_test_source`] checks what is to be emitted and gives a [`SourceRun`], which tells
//! its driver step by step what to do with the node: connect, let the subscribers settle,
//! send each array, and stay until the dataflow stops.

use crate::arrays::{array_view, ArrayView};
use crate::convert::{
    convert_error_text, convert_value, convertible, plain_value_array, shows_hint, value_array,
    ConvertError, ConvertFault,
};
use crate::data_id::{id_complaint, parse_data_id, valid_id};
use crate::data_type::{described_type, parse_data_type, plain_text, DataType, PlainType};
use crate::events::EventKind;
use crate::json::{field_of, json_text, JsonValue};
use arrow::array::ArrayData;
use std::collections::VecDeque;
use vstd::prelude::*;
use vstd::string::*;

verus! {

/// How long subscribers get to settle before anything is sent to them.
pub const SUBSCRIBER_SETTLE_MILLIS: u64 = 500;

/// A single output specification: an output ID and its data.
#[derive(Debug, Clone)]
pub struct OutputSpec {
    /// Output identifier to emit data on.
    pub output_id: String,
    /// JSON payload: `{"data": [...], "data_type": {...}}`.
    pub data: JsonValue,
}

/// Configuration for a test source run.
#[derive(Debug, Clone)]
pub struct SourceConfig {
    /// One or more outputs to emit.
    pub outputs: Vec<OutputSpec>,
}

impl SourceConfig {
    /// The configuration of one output.
    pub fn single(output_id: String, data: JsonValue) -> (r: Self)
        ensures
            r.outputs@ == seq![OutputSpec { output_id, data }],
    {
        let mut outputs: Vec<OutputSpec> = Vec::new();
        outputs.push(OutputSpec { output_id, data });
        SourceConfig { outputs }
    }
}

/// Why the arrays of an output could not be emitted.
#[derive(Debug)]
pub enum EmitError {
    /// The `data_type` does not describe a type.
    InvalidHint { hint: String, reason: String },
    /// A value could not be converted.
    Convert(ConvertError),
    /// The conversion of a value would not stay within what Arrow can hold and read.
    OutOfReach,
    /// The output ID is not an identifier.
    InvalidOutputId { output_id: String, reason: String },
    /// The node could not send an array.
    SendFailed(String),
}

/// Why a run of a test source failed.
#[derive(Debug)]
pub enum SourceError {
    /// A payload has no `data`.
    MissingData,
    /// The `data` of a payload is not an array but this JSON text.
    NotArray(String),
    /// The `data` of a payload is empty.
    EmptyData,
    /// An output ID is not an identifier.
    InvalidOutputId { output_id: String, reason: String },
    /// The node could not be set up.
    ConnectFailed(String),
    /// An output could not be emitted.
    EmitFailed { output_id: String, cause: EmitError },
}

/// What an [`EmitError`] says, but for the complaint of the Arrow reader.
pub ghost enum EmitFault {
    InvalidHint { hint: Seq<char>, reason: Seq<char> },
    Convert(ConvertFault),
    OutOfReach,
    InvalidOutputId { output_id: Seq<char>, reason: Seq<char> },
    SendFailed(Seq<char>),
}

/// What a [`SourceError`] says, but for the complaint of the Arrow reader.
pub ghost enum SourceFault {
    MissingData,
    NotArray(Seq<char>),
    EmptyData,
    InvalidOutputId { output_id: Seq<char>, reason: Seq<char> },
    ConnectFailed(Seq<char>),
    EmitFailed { output_id: Seq<char>, cause: EmitFault },
}

impl EmitError {
    /// What the error says, but for the complaint of the Arrow reader.
    pub open spec fn fault(self) -> EmitFault {
        match self {
            EmitError::InvalidHint { hint, reason } => EmitFault::InvalidHint {
                hint: hint@,
                reason: reason@,
            },
            EmitError::Convert(e) => EmitFault::Convert(e.fault()),
            EmitError::OutOfReach => EmitFault::OutOfReach,
            EmitError::InvalidOutputId { output_id, reason } => EmitFault::InvalidOutputId {
                output_id: output_id@,
                reason: reason@,
            },
            EmitError::SendFailed(reason) => EmitFault::SendFailed(reason@),
        }
    }
}

impl SourceError {
    /// What the error says, but for the complaint of the Arrow reader.
    pub open spec fn fault(self) -> SourceFault {
        match self {
            SourceError::MissingData => SourceFault::MissingData,
            SourceError::NotArray(json) => SourceFault::NotArray(json@),
            SourceError::EmptyData => SourceFault::EmptyData,
            SourceError::InvalidOutputId { output_id, reason } => SourceFault::InvalidOutputId {
                output_id: output_id@,
                reason: reason@,
            },
            SourceError::ConnectFailed(reason) => SourceFault::ConnectFailed(reason@),
            SourceError::EmitFailed { output_id, cause } => SourceFault::EmitFailed {
                output_id: output_id@,
                cause: cause.fault(),
            },
        }
    }
}

/// Errors of an emission that say the same are of one kind, with the same texts and cause.
pub proof fn emit_errors_are_told_apart(a: EmitError, b: EmitError)
    requires
        a.fault() == b.fault(),
    ensures
        a matches EmitError::InvalidHint { hint, reason } ==> (b matches EmitError::InvalidHint {
            hint: h,
            reason: said,
        } && h@ == hint@ && said@ == reason@),
        a matches EmitError::Convert(x) ==> (b matches EmitError::Convert(y) && x.fault()
            == y.fault()),
        a is OutOfReach <==> b is OutOfReach,
        a matches EmitError::InvalidOutputId { output_id, reason } ==> (
        b matches EmitError::InvalidOutputId { output_id: id, reason: said } && id@ == output_id@
            && said@ == reason@),
        a matches EmitError::SendFailed(x) ==> (b matches EmitError::SendFailed(y) && x@ == y@),
{
}

/// Errors of a run that say the same are of one kind, with the same texts and cause.
pub proof fn source_errors_are_told_apart(a: SourceError, b: SourceError)
    requires
        a.fault() == b.fault(),
    ensures
        a is MissingData <==> b is MissingData,
        a matches SourceError::NotArray(x) ==> (b matches SourceError::NotArray(y) && x@ == y@),
        a is EmptyData <==> b is EmptyData,
        a matches SourceError::InvalidOutputId { output_id, reason } ==> (
        b matches SourceError::InvalidOutputId { output_id: id, reason: said } && id@ == output_id@
            && said@ == reason@),
        a matches SourceError::ConnectFailed(x) ==> (b matches SourceError::ConnectFailed(y) && x@
            == y@),
        a matches SourceError::EmitFailed { output_id, cause } ==> (
        b matches SourceError::EmitFailed { output_id: id, cause: own } && id@ == output_id@
            && own.fault() == cause.fault()),
{
}

/// What is wrong with an output specification, if anything.
pub open spec fn spec_fault(spec: OutputSpec) -> Option<SourceFault> {
    match field_of(spec.data, "data"@) {
        None => Some(SourceFault::MissingData),
        Some(JsonValue::Array(items)) => if items@.len() == 0 {
            Some(SourceFault::EmptyData)
        } else {
            match id_complaint(spec.output_id@) {
                Some(reason) => Some(
                    SourceFault::InvalidOutputId { output_id: spec.output_id@, reason },
                ),
                None => None,
            }
        },
        Some(other) => Some(SourceFault::NotArray(json_text(other))),
    }
}

/// An output is valid if and only if its data is an array of at least one value and its ID is
/// an identifier. Of several faults that of the data is named, and each fault says what it is.
pub proof fn what_a_valid_output_is(spec: OutputSpec)
    ensures
        spec_fault(spec) is None <==> valid_id(spec.output_id@) && (field_of(
            spec.data,
            "data"@,
        ) matches Some(JsonValue::Array(items)) && items@.len() > 0),
        field_of(spec.data, "data"@) is None <==> spec_fault(spec) == Some(
            SourceFault::MissingData,
        ),
        field_of(spec.data, "data"@) matches Some(v) ==> (!(v is Array) ==> spec_fault(spec) == Some(
            SourceFault::NotArray(json_text(v)),
        )),
        field_of(spec.data, "data"@) matches Some(JsonValue::Array(items)) ==> {
            &&& items@.len() == 0 ==> spec_fault(spec) == Some(SourceFault::EmptyData)
            &&& items@.len() > 0 && !valid_id(spec.output_id@) ==> (spec_fault(spec) matches Some(
                SourceFault::InvalidOutputId { output_id, reason },
            ) && output_id == spec.output_id@ && id_complaint(spec.output_id@) == Some(reason))
        },
{
}

/// What a check found wrong.
pub open spec fn fault_of(r: Result<(), SourceError>) -> Option<SourceFault> {
    match r {
        Ok(_) => None,
        Err(e) => Some(e.fault()),
    }
}

/// Validate an output specification. Fails early, before any node is touched.
pub fn validate_spec(spec: &OutputSpec) -> (r: Result<(), SourceError>)
    ensures
        fault_of(r) == spec_fault(*spec),
        r is Ok <==> valid_id(spec.output_id@) && (field_of(spec.data, "data"@) matches Some(
            JsonValue::Array(items),
        ) && items@.len() > 0),
        (r matches Err(SourceError::MissingData)) <==> field_of(spec.data, "data"@) is None,
        (r matches Err(SourceError::NotArray(_))) <==> (field_of(spec.data, "data"@) matches Some(
            other,
        ) && !(other is Array)),
        (r matches Err(SourceError::EmptyData)) <==> (field_of(spec.data, "data"@) matches Some(
            JsonValue::Array(items),
        ) && items@.len() == 0),
        r matches Err(SourceError::NotArray(json)) ==> json@ == json_text(
            field_of(spec.data, "data"@)->Some_0,
        ),
        r matches Err(SourceError::InvalidOutputId { output_id, reason }) ==> output_id@
            == spec.output_id@ && id_complaint(spec.output_id@) == Some(reason@),
{
    match spec.data.get("data") {
        None => Err(SourceError::MissingData),
        Some(JsonValue::Array(items)) => {
            if items.len() == 0 {
                return Err(SourceError::EmptyData);
            }
            match parse_data_id(spec.output_id.as_str()) {
                Ok(_) => Ok(()),
                Err(reason) => Err(
                    SourceError::InvalidOutputId { output_id: spec.output_id.clone(), reason },
                ),
            }
        },
        Some(other) => Err(SourceError::NotArray(other.to_text())),
    }
}

/// The array of one value of an output's data.
pub open spec fn element_array(v: JsonValue, hint: Option<&DataType>) -> Result<
    ArrayView,
    EmitFault,
> {
    if !convertible(v, hint) {
        Err(EmitFault::OutOfReach)
    } else {
        match value_array(v, hint) {
            Ok(array) => Ok(array),
            Err(fault) => Err(EmitFault::Convert(fault)),
        }
    }
}

/// The arrays of an output's data, in order, or what is wrong with the first value that
/// has none.
pub open spec fn element_arrays(items: Seq<JsonValue>, hint: Option<&DataType>) -> Result<
    Seq<ArrayView>,
    EmitFault,
>
    decreases items.len(),
{
    if items.len() == 0 {
        Ok(seq![])
    } else {
        match element_arrays(items.drop_last(), hint) {
            Ok(before) => match element_array(items.last(), hint) {
                Ok(array) => Ok(before.push(array)),
                Err(fault) => Err(fault),
            },
            Err(fault) => Err(fault),
        }
    }
}

/// The values of an output's data.
pub open spec fn data_items(spec: OutputSpec) -> Seq<JsonValue> {
    match field_of(spec.data, "data"@) {
        Some(JsonValue::Array(items)) => items@,
        _ => seq![],
    }
}

/// The arrays that an output emits. Nothing is emitted unless the hint describes a type,
/// every value has an array and the output ID is an identifier.
pub open spec fn emission(spec: OutputSpec) -> Result<Seq<ArrayView>, EmitFault> {
    let items = data_items(spec);
    let arrays = match field_of(spec.data, "data_type"@) {
        None => element_arrays(items, None),
        Some(hint) => match described_type(&hint) {
            Ok(t) => element_arrays(items, Some(&t)),
            Err(reason) => Err(EmitFault::InvalidHint { hint: json_text(hint), reason }),
        },
    };
    if items.len() == 0 {
        Ok(seq![])
    } else {
        match arrays {
            Ok(arrays) => match id_complaint(spec.output_id@) {
                Some(reason) => Err(
                    EmitFault::InvalidOutputId { output_id: spec.output_id@, reason },
                ),
                None => Ok(arrays),
            },
            Err(fault) => Err(fault),
        }
    }
}

/// The arrays of an output's data where each value has a plain one.
pub open spec fn plain_arrays(items: Seq<JsonValue>, hint: Option<&DataType>) -> Option<
    Seq<ArrayView>,
> {
    if forall|i: int|
        0 <= i < items.len() ==> convertible(#[trigger] items[i], hint) && plain_value_array(
            items[i],
            hint,
        ) is Some {
        Some(items.map_values(|v: JsonValue| plain_value_array(v, hint)->Some_0))
    } else {
        None
    }
}

/// What each of these arrays holds.
pub open spec fn array_views(arrays: Seq<ArrayData>) -> Seq<ArrayView> {
    arrays.map_values(|a: ArrayData| array_view(a))
}

/// What a result of [`convert_output`] holds.
pub open spec fn emission_outcome(r: Result<VecDeque<ArrayData>, EmitError>) -> Result<
    Seq<ArrayView>,
    EmitFault,
> {
    match r {
        Ok(arrays) => Ok(array_views(arrays@)),
        Err(e) => Err(e.fault()),
    }
}

/// Convert each value of an output's data, up to the first that has no array.
fn convert_elements(items: &Vec<JsonValue>, hint: Option<&DataType>) -> (r: Result<
    VecDeque<ArrayData>,
    EmitError,
>)
    ensures
        emission_outcome(r) == element_arrays(items@, hint),
        r matches Ok(arrays) ==> arrays@.len() == items@.len(),
        plain_arrays(items@, hint) matches Some(views) ==> emission_outcome(r) == Ok::<
            Seq<ArrayView>,
            EmitFault,
        >(views),
{
    let mut arrays: VecDeque<ArrayData> = VecDeque::new();
    let mut i: usize = 0;
    assert(array_views(arrays@) =~= seq![]);
    while i < items.len()
        invariant
            i <= items.len(),
            arrays@.len() == i,
            element_arrays(items@.take(i as int), hint) == Ok::<Seq<ArrayView>, EmitFault>(
                array_views(arrays@),
            ),
            plain_arrays(items@, hint) matches Some(views) ==> array_views(arrays@)
                == views.take(i as int),
        decreases items.len() - i,
    {
        assert(items@.take(i + 1).drop_last() =~= items@.take(i as int));
        let ghost before = arrays@;
        match convert_value(&items[i], hint) {
            Some(Ok(array)) => {
                arrays.push_back(array);
                assert(array_views(arrays@) =~= array_views(before).push(array_view(array)));
                proof {
                    if plain_arrays(items@, hint) is Some {
                        let views = plain_arrays(items@, hint)->Some_0;
                        assert(convertible(items@[i as int], hint));
                        assert(views.take(i + 1) =~= views.take(i as int).push(views[i as int]));
                    }
                }
            },
            Some(Err(e)) => {
                proof {
                    failure_is_kept(items@, hint, i + 1);
                }
                return Err(EmitError::Convert(e));
            },
            None => {
                proof {
                    failure_is_kept(items@, hint, i + 1);
                }
                return Err(EmitError::OutOfReach);
            },
        }
        i = i + 1;
    }
    assert(items@.take(i as int) =~= items@);
    proof {
        if plain_arrays(items@, hint) is Some {
            let views = plain_arrays(items@, hint)->Some_0;
            assert(views.take(i as int) =~= views);
        }
    }
    Ok(arrays)
}

/// What is wrong with some of the values is what is wrong with all of them.
proof fn failure_is_kept(items: Seq<JsonValue>, hint: Option<&DataType>, n: int)
    requires
        0 <= n <= items.len(),
        element_arrays(items.take(n), hint) is Err,
    ensures
        element_arrays(items, hint) == element_arrays(items.take(n), hint),
    decreases items.len() - n,
{
    if n == items.len() {
        assert(items.take(n) =~= items);
    } else {
        assert(items.take(n + 1).drop_last() =~= items.take(n));
        failure_is_kept(items, hint, n + 1);
    }
}

/// Convert all of an output's data: parse the type hint, convert each value, and check the
/// output ID.
pub fn convert_output(spec: &OutputSpec) -> (r: Result<VecDeque<ArrayData>, EmitError>)
    requires
        field_of(spec.data, "data"@) matches Some(JsonValue::Array(_)),
    ensures
        emission_outcome(r) == emission(*spec),
        r is Ok <==> emission(*spec) is Ok,
        r matches Ok(arrays) ==> forall|i: int|
            0 <= i < arrays@.len() ==> array_view(#[trigger] arrays@[i]) == emission(
                *spec,
            )->Ok_0[i],
        r matches Err(e) ==> emission(*spec) == Err::<Seq<ArrayView>, EmitFault>(e.fault()),
        data_items(*spec).len() > 0 && r is Ok ==> valid_id(spec.output_id@),
        r matches Ok(arrays) ==> arrays@.len() == data_items(*spec).len(),
        field_of(spec.data, "data_type"@) is None && id_complaint(spec.output_id@) is None
            && data_items(*spec).len() > 0 ==> (plain_arrays(data_items(*spec), None) matches Some(
            views,
        ) ==> emission_outcome(r) == Ok::<Seq<ArrayView>, EmitFault>(views)),
        forall|p: PlainType|
            field_of(spec.data, "data_type"@) matches Some(hint) ==> (json_text(hint)
                == #[trigger] plain_text(p) && id_complaint(spec.output_id@) is None && data_items(
                *spec,
            ).len() > 0 ==> (plain_arrays(
                data_items(*spec),
                Some(&DataType::Plain(p)),
            ) matches Some(views) ==> emission_outcome(r) == Ok::<Seq<ArrayView>, EmitFault>(
                views,
            ))),
{
    let converted = match spec.data.get("data") {
        Some(JsonValue::Array(items)) => {
            if items.len() == 0 {
                let arrays: VecDeque<ArrayData> = VecDeque::new();
                assert(array_views(arrays@) =~= seq![]);
                return Ok(arrays);
            }
            match spec.data.get("data_type") {
                None => convert_elements(items, None),
                Some(hint) => match parse_data_type(hint) {
                    Ok(t) => convert_elements(items, Some(&t)),
                    Err(reason) => Err(EmitError::InvalidHint { hint: hint.to_text(), reason }),
                },
            }
        },
        _ => Ok(VecDeque::new()),
    };
    match converted {
        Ok(arrays) => match parse_data_id(spec.output_id.as_str()) {
            Ok(_) => Ok(arrays),
            Err(reason) => Err(
                EmitError::InvalidOutputId { output_id: spec.output_id.clone(), reason },
            ),
        },
        Err(e) => Err(e),
    }
}

/// The arrays of an output are those of its values, one for each and in the same order.
pub proof fn arrays_follow_the_data(items: Seq<JsonValue>, hint: Option<&DataType>)
    requires
        element_arrays(items, hint) is Ok,
    ensures
        element_arrays(items, hint)->Ok_0.len() == items.len(),
        forall|i: int|
            #![trigger element_arrays(items, hint)->Ok_0[i]]
            0 <= i < items.len() ==> element_array(items[i], hint) == Ok::<ArrayView, EmitFault>(
                element_arrays(items, hint)->Ok_0[i],
            ),
    decreases items.len(),
{
    if items.len() > 0 {
        arrays_follow_the_data(items.drop_last(), hint);
        let before = element_arrays(items.drop_last(), hint)->Ok_0;
        let all = element_arrays(items, hint)->Ok_0;
        assert forall|i: int| 0 <= i < items.len() implies element_array(items[i], hint) == Ok::<
            ArrayView,
            EmitFault,
        >(#[trigger] all[i]) by {
            if i < items.len() - 1 {
                assert(items.drop_last()[i] == items[i]);
                assert(all[i] == before[i]);
            }
        }
    }
}

/// The first value without an array is what an output is refused for: those before it have one,
/// and those after it make no difference.
pub proof fn first_failing_value_is_named(items: Seq<JsonValue>, hint: Option<&DataType>, n: int)
    requires
        0 <= n < items.len(),
        forall|i: int| 0 <= i < n ==> element_array(#[trigger] items[i], hint) is Ok,
        element_array(items[n], hint) is Err,
    ensures
        element_arrays(items, hint) == Err::<Seq<ArrayView>, EmitFault>(
            element_array(items[n], hint)->Err_0,
        ),
{
    values_with_arrays(items.take(n), hint);
    assert(items.take(n + 1).drop_last() =~= items.take(n));
    assert(items.take(n + 1).last() == items[n]);
    failure_is_kept(items, hint, n + 1);
}

/// Values that all have an array have their arrays.
proof fn values_with_arrays(items: Seq<JsonValue>, hint: Option<&DataType>)
    requires
        forall|i: int| 0 <= i < items.len() ==> element_array(#[trigger] items[i], hint) is Ok,
    ensures
        element_arrays(items, hint) is Ok,
    decreases items.len(),
{
    if items.len() > 0 {
        let before = items.drop_last();
        assert forall|i: int| 0 <= i < before.len() implies element_array(
            #[trigger] before[i],
            hint,
        ) is Ok by {
            assert(before[i] == items[i]);
        }
        values_with_arrays(before, hint);
    }
}

/// A value is emitted as it is converted: it has an array if and only if its conversion stays
/// within reach and succeeds, and then that array is emitted; else the failure is passed on.
pub proof fn values_are_emitted_as_converted(v: JsonValue, hint: Option<&DataType>)
    ensures
        convertible(v, hint) && value_array(v, hint) is Ok <==> element_array(v, hint) is Ok,
        element_array(v, hint) matches Ok(array) ==> value_array(v, hint) == Ok::<
            ArrayView,
            ConvertFault,
        >(array),
        !convertible(v, hint) <==> element_array(v, hint) == Err::<ArrayView, EmitFault>(
            EmitFault::OutOfReach,
        ),
        element_array(v, hint) matches Err(EmitFault::Convert(fault)) ==> value_array(v, hint)
            == Err::<ArrayView, ConvertFault>(fault),
{
}

/// The data of an output is what it has under `data`, value by value.
pub proof fn data_is_what_stands_under_data(spec: OutputSpec)
    ensures
        field_of(spec.data, "data"@) matches Some(JsonValue::Array(items)) ==> data_items(spec)
            == items@,
        !(field_of(spec.data, "data"@) matches Some(JsonValue::Array(_))) ==> data_items(spec).len()
            == 0,
{
}

/// An output without data emits nothing, whatever its type and its ID are.
pub proof fn nothing_is_emitted_of_nothing(spec: OutputSpec)
    requires
        data_items(spec).len() == 0,
    ensures
        emission(spec) matches Ok(arrays) && arrays.len() == 0,
{
}

/// What an output emits is the arrays of its values, one for each and in order, of the type that
/// it has under `data_type`, if it has one there.
pub proof fn outputs_emit_their_values(spec: OutputSpec, i: int)
    requires
        emission(spec) is Ok,
        0 <= i < data_items(spec).len(),
    ensures
        emission(spec)->Ok_0.len() == data_items(spec).len(),
        valid_id(spec.output_id@),
        field_of(spec.data, "data_type"@) is None ==> value_array(data_items(spec)[i], None)
            == Ok::<ArrayView, ConvertFault>(emission(spec)->Ok_0[i]),
        field_of(spec.data, "data_type"@) matches Some(hint) ==> (described_type(
            &hint,
        ) matches Ok(t) && value_array(data_items(spec)[i], Some(&t)) == Ok::<
            ArrayView,
            ConvertFault,
        >(emission(spec)->Ok_0[i])),
{
    match field_of(spec.data, "data_type"@) {
        None => {
            arrays_follow_the_data(data_items(spec), None);
        },
        Some(hint) => {
            arrays_follow_the_data(data_items(spec), Some(&described_type(&hint)->Ok_0));
        },
    }
}

/// An output whose type is none, or of whose values one has no array, or whose ID is no
/// identifier, emits nothing, and the first of these is what it is refused for. Any other emits.
pub proof fn what_an_output_is_refused_for(spec: OutputSpec)
    requires
        data_items(spec).len() > 0,
    ensures
        field_of(spec.data, "data_type"@) matches Some(hint) ==> (described_type(
            &hint,
        ) matches Err(reason) ==> emission(spec) == Err::<Seq<ArrayView>, EmitFault>(
            EmitFault::InvalidHint { hint: json_text(hint), reason },
        )),
        field_of(spec.data, "data_type"@) matches Some(hint) ==> (described_type(
            &hint,
        ) matches Ok(t) ==> {
            &&& element_arrays(data_items(spec), Some(&t)) matches Err(fault) ==> emission(spec)
                == Err::<Seq<ArrayView>, EmitFault>(fault)
            &&& element_arrays(data_items(spec), Some(&t)) is Ok ==> (valid_id(spec.output_id@)
                <==> emission(spec) is Ok)
        }),
        field_of(spec.data, "data_type"@) is None ==> {
            &&& element_arrays(data_items(spec), None) matches Err(fault) ==> emission(spec)
                == Err::<Seq<ArrayView>, EmitFault>(fault)
            &&& element_arrays(data_items(spec), None) is Ok ==> (valid_id(spec.output_id@)
                <==> emission(spec) is Ok)
        },
        !valid_id(spec.output_id@) ==> emission(spec) is Err,
        emission(spec) matches Err(EmitFault::InvalidOutputId { output_id, reason }) ==> output_id
            == spec.output_id@,
{
    if field_of(spec.data, "data_type"@) is Some {
        let hint = field_of(spec.data, "data_type"@)->Some_0;
        if described_type(&hint) is Ok {
            failures_are_of_values(data_items(spec), Some(&described_type(&hint)->Ok_0));
        }
    } else {
        failures_are_of_values(data_items(spec), None);
    }
}

/// What is wrong with values is wrong with one of them.
proof fn failures_are_of_values(items: Seq<JsonValue>, hint: Option<&DataType>)
    ensures
        element_arrays(items, hint) matches Err(fault) ==> fault is OutOfReach || fault is Convert,
    decreases items.len(),
{
    if items.len() > 0 {
        failures_are_of_values(items.drop_last(), hint);
    }
}

/// An array on its way to an output.
pub ghost struct Sending {
    pub output_id: Seq<char>,
    pub array: ArrayView,
}

/// The sendings of these arrays to one output.
pub open spec fn sendings_to(output_id: Seq<char>, arrays: Seq<ArrayView>) -> Seq<Sending> {
    arrays.map_values(|array: ArrayView| Sending { output_id, array })
}

/// What a run sends, in order, and the output that stops it, if one does.
pub ghost struct Script {
    pub sendings: Seq<Sending>,
    pub failure: Option<SourceFault>,
}

/// The script of these outputs: each sends its arrays after those of the outputs before
/// it, up to the first that cannot be converted, which sends none.
pub open spec fn script(outputs: Seq<OutputSpec>) -> Script
    decreases outputs.len(),
{
    if outputs.len() == 0 {
        Script { sendings: seq![], failure: None }
    } else {
        let before = script(outputs.drop_last());
        let spec = outputs.last();
        if before.failure is Some {
            before
        } else {
            match emission(spec) {
                Ok(arrays) => Script {
                    sendings: before.sendings + sendings_to(spec.output_id@, arrays),
                    failure: None,
                },
                Err(cause) => Script {
                    sendings: before.sendings,
                    failure: Some(SourceFault::EmitFailed { output_id: spec.output_id@, cause }),
                },
            }
        }
    }
}

/// A run sends each output's arrays as one block: all that the first `n` outputs send comes
/// before anything that the others send.
pub proof fn earlier_outputs_are_sent_first(outputs: Seq<OutputSpec>, n: int)
    requires
        0 <= n <= outputs.len(),
    ensures
        script(outputs.take(n)).sendings.is_prefix_of(script(outputs).sendings),
        script(outputs.take(n)).failure is Some ==> script(outputs) == script(outputs.take(n)),
    decreases outputs.len() - n,
{
    if n == outputs.len() {
        assert(outputs.take(n) =~= outputs);
    } else {
        assert(outputs.take(n + 1).drop_last() =~= outputs.take(n));
        earlier_outputs_are_sent_first(outputs, n + 1);
        let a = script(outputs.take(n)).sendings;
        let b = script(outputs.take(n + 1)).sendings;
        let c = script(outputs).sendings;
        assert(a.is_prefix_of(b));
        assert(a =~= c.take(a.len() as int)) by {
            assert(forall|i: int| 0 <= i < a.len() ==> a[i] == b[i] && b[i] == c[i]);
        }
    }
}

/// An output that cannot be converted stops the run after all that the outputs before it
/// send, and none of its own arrays is sent.
pub proof fn failing_output_sends_nothing(outputs: Seq<OutputSpec>, n: int)
    requires
        0 <= n < outputs.len(),
        script(outputs.take(n)).failure is None,
        emission(outputs[n]) is Err,
    ensures
        script(outputs).sendings == script(outputs.take(n)).sendings,
        script(outputs).failure == Some(
            SourceFault::EmitFailed {
                output_id: outputs[n].output_id@,
                cause: emission(outputs[n])->Err_0,
            },
        ),
{
    assert(outputs.take(n + 1).drop_last() =~= outputs.take(n));
    assert(outputs.take(n + 1).last() == outputs[n]);
    earlier_outputs_are_sent_first(outputs, n + 1);
}

/// How many values these outputs have in all.
pub open spec fn value_count(outputs: Seq<OutputSpec>) -> nat
    decreases outputs.len(),
{
    if outputs.len() == 0 {
        0
    } else {
        value_count(outputs.drop_last()) + data_items(outputs.last()).len()
    }
}

/// A run that no output stops sends one array for each value.
pub proof fn every_value_is_sent(outputs: Seq<OutputSpec>)
    requires
        script(outputs).failure is None,
    ensures
        script(outputs).sendings.len() == value_count(outputs),
    decreases outputs.len(),
{
    if outputs.len() > 0 {
        every_value_is_sent(outputs.drop_last());
        let spec = outputs.last();
        match field_of(spec.data, "data_type"@) {
            None => {
                if element_arrays(data_items(spec), None) is Ok {
                    arrays_follow_the_data(data_items(spec), None);
                }
            },
            Some(hint) => match described_type(&hint) {
                Ok(t) => {
                    if element_arrays(data_items(spec), Some(&t)) is Ok {
                        arrays_follow_the_data(data_items(spec), Some(&t));
                    }
                },
                Err(_) => {},
            },
        }
    }
}

/// Outputs together have the values of each.
pub proof fn values_are_counted(outputs: Seq<OutputSpec>, spec: OutputSpec)
    ensures
        value_count(Seq::empty()) == 0,
        value_count(outputs.push(spec)) == value_count(outputs) + data_items(spec).len(),
{
    assert(outputs.push(spec).drop_last() =~= outputs);
}

/// A run that no output stops sends the array of each value of each output, to that output,
/// after those of all the values before it.
pub proof fn every_value_is_sent_in_its_place(outputs: Seq<OutputSpec>, n: int, i: int)
    requires
        script(outputs).failure is None,
        0 <= n < outputs.len(),
        0 <= i < data_items(outputs[n]).len(),
    ensures
        value_count(outputs.take(n)) + i < script(outputs).sendings.len(),
        script(outputs).sendings[value_count(outputs.take(n)) + i].output_id
            == outputs[n].output_id@,
        emission(outputs[n]) matches Ok(arrays) && script(outputs).sendings[value_count(
            outputs.take(n),
        ) + i].array == arrays[i],
        field_of(outputs[n].data, "data_type"@) is None ==> value_array(
            data_items(outputs[n])[i],
            None,
        ) == Ok::<ArrayView, ConvertFault>(
            script(outputs).sendings[value_count(outputs.take(n)) + i].array,
        ),
        field_of(outputs[n].data, "data_type"@) matches Some(hint) ==> (described_type(
            &hint,
        ) matches Ok(t) && value_array(data_items(outputs[n])[i], Some(&t)) == Ok::<
            ArrayView,
            ConvertFault,
        >(script(outputs).sendings[value_count(outputs.take(n)) + i].array)),
{
    earlier_outputs_are_sent_first(outputs, n);
    earlier_outputs_are_sent_first(outputs, n + 1);
    assert(outputs.take(n + 1).drop_last() =~= outputs.take(n));
    assert(outputs.take(n + 1).last() == outputs[n]);
    every_value_is_sent(outputs.take(n));
    outputs_emit_their_values(outputs[n], i);
    let arrays = emission(outputs[n])->Ok_0;
    let before = script(outputs.take(n)).sendings;
    let upto = script(outputs.take(n + 1)).sendings;
    let k = value_count(outputs.take(n)) + i;
    assert(upto == before + sendings_to(outputs[n].output_id@, arrays));
    assert(upto[k] == sendings_to(outputs[n].output_id@, arrays)[i]);
    assert(script(outputs).sendings[k] == upto[k]);
}

/// How far a run has come.
#[derive(Clone, Copy, Debug, PartialEq, Eq, Structural)]
pub enum Stage {
    /// The node is being set up.
    Connecting,
    /// Downstream subscribers install their input subscriptions: what is sent before they
    /// have is dropped.
    Settling,
    /// Arrays are being sent.
    Sending,
    /// Everything is sent, and the run stays until the dataflow stops, so that no message
    /// in flight is lost.
    Waiting,
    /// The run is over.
    Over,
}

/// What the driver of a run reports.
#[derive(Debug)]
pub enum Report {
    /// The node is set up.
    Connected,
    /// The node could not be set up.
    ConnectFailed(String),
    /// The subscribers had time to settle.
    Settled,
    /// The array was sent.
    Sent,
    /// The array could not be sent.
    SendFailed(String),
    /// An event was received.
    Received(EventKind),
    /// No more events will be received.
    StreamEnded,
}

/// What the driver of a run is to do next.
#[derive(Debug)]
pub enum Step {
    /// Let the subscribers settle for this long.
    Settle { millis: u64 },
    /// Send the array.
    Send { output_id: String, array: ArrayData },
    /// Receive an event.
    Await,
    /// The run is complete.
    Done,
    /// The run failed.
    Failed(SourceError),
}

/// What a [`Step`] says, but for the complaint of the Arrow reader.
pub ghost enum StepView {
    Settle { millis: u64 },
    Send(Sending),
    Await,
    Done,
    Failed(SourceFault),
}

impl View for Step {
    type V = StepView;

    open spec fn view(&self) -> StepView {
        match *self {
            Step::Settle { millis } => StepView::Settle { millis },
            Step::Send { output_id, array } => StepView::Send(
                Sending { output_id: output_id@, array: array_view(array) },
            ),
            Step::Await => StepView::Await,
            Step::Done => StepView::Done,
            Step::Failed(e) => StepView::Failed(e.fault()),
        }
    }
}

/// Steps that say the same tell the driver the same: to wait as long, or to send an array of the
/// same type and values to the same output.
pub proof fn steps_are_told_apart(a: Step, b: Step)
    requires
        a@ == b@,
    ensures
        a matches Step::Settle { millis } ==> b == (Step::Settle { millis }),
        a matches Step::Send { output_id, array } ==> (b matches Step::Send {
            output_id: id,
            array: other,
        } && id@ == output_id@ && array_view(other) == array_view(array)),
        a is Await <==> b is Await,
        a is Done <==> b is Done,
        a matches Step::Failed(x) ==> (b matches Step::Failed(y) && x.fault() == y.fault()),
{
}

/// How a run goes on: the stage it comes to, how many arrays it has sent by then, and what
/// its driver is to do.
pub ghost struct Progress {
    pub stage: Stage,
    pub sent: nat,
    pub step: StepView,
}

/// How a run goes on after it has sent the first `sent` arrays of its script.
pub open spec fn following(outputs: Seq<OutputSpec>, standalone: bool, sent: nat) -> Progress {
    let all = script(outputs);
    if sent < all.sendings.len() {
        Progress {
            stage: Stage::Sending,
            sent: sent + 1,
            step: StepView::Send(all.sendings[sent as int]),
        }
    } else if all.failure is Some {
        Progress { stage: Stage::Over, sent, step: StepView::Failed(all.failure->Some_0) }
    } else if standalone {
        Progress { stage: Stage::Over, sent, step: StepView::Done }
    } else {
        Progress { stage: Stage::Waiting, sent, step: StepView::Await }
    }
}

/// What a run still sends, after the first `sent` arrays, as long as every array can be sent.
pub open spec fn remaining(outputs: Seq<OutputSpec>, standalone: bool, sent: nat) -> Seq<Sending>
    decreases script(outputs).sendings.len() - sent,
{
    match following(outputs, standalone, sent).step {
        StepView::Send(sending) => if sent < script(outputs).sendings.len() {
            seq![sending] + remaining(outputs, standalone, sent + 1)
        } else {
            seq![]
        },
        _ => seq![],
    }
}

/// A run in which every array can be sent sends its whole script, in order and nothing else,
/// with and without a daemon.
pub proof fn run_sends_its_script(outputs: Seq<OutputSpec>, standalone: bool, sent: nat)
    requires
        sent <= script(outputs).sendings.len(),
    ensures
        remaining(outputs, standalone, sent) == script(outputs).sendings.skip(sent as int),
    decreases script(outputs).sendings.len() - sent,
{
    let all = script(outputs).sendings;
    if sent < all.len() {
        run_sends_its_script(outputs, standalone, sent + 1);
        assert(seq![all[sent as int]] + all.skip(sent as int + 1) =~= all.skip(sent as int));
    } else {
        assert(all.skip(sent as int) =~= seq![]);
    }
}

/// Whether a report can come at a stage.
pub open spec fn expected(stage: Stage, report: Report) -> bool {
    match report {
        Report::Connected | Report::ConnectFailed(_) => stage == Stage::Connecting,
        Report::Settled => stage == Stage::Settling,
        Report::Sent | Report::SendFailed(_) => stage == Stage::Sending,
        Report::Received(_) | Report::StreamEnded => stage == Stage::Waiting,
    }
}

/// How a run goes on after a report.
pub open spec fn response(
    outputs: Seq<OutputSpec>,
    standalone: bool,
    sent: nat,
    report: Report,
) -> Progress {
    match report {
        Report::Connected => if standalone {
            following(outputs, standalone, sent)
        } else {
            Progress {
                stage: Stage::Settling,
                sent,
                step: StepView::Settle { millis: SUBSCRIBER_SETTLE_MILLIS },
            }
        },
        Report::ConnectFailed(reason) => Progress {
            stage: Stage::Over,
            sent,
            step: StepView::Failed(SourceFault::ConnectFailed(reason@)),
        },
        Report::Settled | Report::Sent => following(outputs, standalone, sent),
        Report::SendFailed(reason) => Progress {
            stage: Stage::Over,
            sent,
            step: StepView::Failed(
                SourceFault::EmitFailed {
                    output_id: script(outputs).sendings[sent - 1].output_id,
                    cause: EmitFault::SendFailed(reason@),
                },
            ),
        },
        Report::Received(kind) => if kind.ends_run() {
            Progress { stage: Stage::Over, sent, step: StepView::Done }
        } else {
            Progress { stage: Stage::Waiting, sent, step: StepView::Await }
        },
        Report::StreamEnded => Progress { stage: Stage::Over, sent, step: StepView::Done },
    }
}

/// A run goes on to send the next array of its script as long as there is one, with and without
/// a daemon, and whatever came before: once it is set up, once the subscribers have settled, and
/// after each array. It fails, waits or is done only when all are sent.
pub proof fn reports_lead_to_the_next_array(
    outputs: Seq<OutputSpec>,
    standalone: bool,
    sent: nat,
    report: Report,
)
    requires
        sent <= script(outputs).sendings.len(),
        report is Settled || report is Sent || (report is Connected && standalone),
    ensures
        ({
            let all = script(outputs);
            let next = response(outputs, standalone, sent, report);
            &&& sent < all.sendings.len() ==> next.step == StepView::Send(
                all.sendings[sent as int],
            ) && next.sent == sent + 1 && next.stage == Stage::Sending
            &&& sent == all.sendings.len() ==> next.sent == sent && (match all.failure {
                Some(fault) => next.step == StepView::Failed(fault) && next.stage == Stage::Over,
                None => if standalone {
                    next.step == StepView::Done && next.stage == Stage::Over
                } else {
                    next.step == StepView::Await && next.stage == Stage::Waiting
                },
            })
            &&& next.step is Await || next.step is Done ==> sent == all.sendings.len()
                && all.failure is None
            &&& expected(next.stage, Report::Sent) <==> sent < all.sendings.len()
        }),
{
}

/// With a daemon the subscribers get half a second to settle, before anything is sent; without
/// one there are none to wait for.
pub proof fn subscribers_settle_first(outputs: Seq<OutputSpec>, sent: nat)
    ensures
        response(outputs, false, sent, Report::Connected).step == (StepView::Settle {
            millis: 500,
        }),
        response(outputs, false, sent, Report::Connected).sent == sent,
        expected(response(outputs, false, sent, Report::Connected).stage, Report::Settled),
        response(outputs, true, sent, Report::Connected) == response(
            outputs,
            false,
            sent,
            Report::Settled,
        ) || sent >= script(outputs).sendings.len(),
{
}

/// A run that waits is done when it is told to stop, when an input closes or when no more events
/// come, and goes on waiting at any other event. Nothing more is sent.
pub proof fn waiting_ends_with_the_dataflow(
    outputs: Seq<OutputSpec>,
    standalone: bool,
    sent: nat,
    kind: EventKind,
)
    ensures
        ({
            let next = response(outputs, standalone, sent, Report::Received(kind));
            &&& next.sent == sent
            &&& next.step == StepView::Done <==> kind == EventKind::Stop || kind
                == EventKind::InputClosed
            &&& next.step == StepView::Await <==> kind == EventKind::Input || kind
                == EventKind::Other
            &&& next.stage == (if next.step is Done {
                Stage::Over
            } else {
                Stage::Waiting
            })
        }),
        response(outputs, standalone, sent, Report::StreamEnded) == (Progress {
            stage: Stage::Over,
            sent,
            step: StepView::Done,
        }),
{
}

/// A node that cannot be set up, and an array that cannot be sent, end the run with the reason
/// that was given; the latter names the output of the array.
pub proof fn failures_end_the_run(
    outputs: Seq<OutputSpec>,
    standalone: bool,
    sent: nat,
    reason: String,
)
    ensures
        response(outputs, standalone, sent, Report::ConnectFailed(reason)) == (Progress {
            stage: Stage::Over,
            sent,
            step: StepView::Failed(SourceFault::ConnectFailed(reason@)),
        }),
        response(outputs, standalone, sent, Report::SendFailed(reason)) == (Progress {
            stage: Stage::Over,
            sent,
            step: StepView::Failed(
                SourceFault::EmitFailed {
                    output_id: script(outputs).sendings[sent - 1].output_id,
                    cause: EmitFault::SendFailed(reason@),
                },
            ),
        }),
{
}

/// How a run goes on that is set up, whose subscribers have settled where there is a daemon, and
/// that has then been told `n` times that an array was sent.
pub open spec fn after_sends(outputs: Seq<OutputSpec>, standalone: bool, n: nat) -> Progress
    decreases n,
{
    if n > 0 {
        response(
            outputs,
            standalone,
            after_sends(outputs, standalone, (n - 1) as nat).sent,
            Report::Sent,
        )
    } else if standalone {
        response(outputs, standalone, 0, Report::Connected)
    } else {
        response(
            outputs,
            standalone,
            response(outputs, standalone, 0, Report::Connected).sent,
            Report::Settled,
        )
    }
}

/// A run in which every array can be sent sends its whole script in order, one array after each
/// report, and only then fails, waits or is done.
pub proof fn whole_script_is_sent(outputs: Seq<OutputSpec>, standalone: bool, n: nat)
    requires
        n <= script(outputs).sendings.len(),
    ensures
        n < script(outputs).sendings.len() ==> after_sends(outputs, standalone, n) == (Progress {
            stage: Stage::Sending,
            sent: n + 1,
            step: StepView::Send(script(outputs).sendings[n as int]),
        }),
        n == script(outputs).sendings.len() ==> {
            let end = after_sends(outputs, standalone, n);
            &&& end.sent == n
            &&& !(end.step is Send)
            &&& script(outputs).failure matches Some(fault) ==> end.step == StepView::Failed(fault)
            &&& script(outputs).failure is None ==> end.step == (if standalone {
                StepView::Done
            } else {
                StepView::Await
            })
        },
    decreases n,
{
    if n > 0 {
        whole_script_is_sent(outputs, standalone, (n - 1) as nat);
    }
}

/// A run of a test source, whose driver reports what it did and is told what to do next.
/// One node serves all the outputs.
pub struct SourceRun {
    outputs: Vec<OutputSpec>,
    standalone: bool,
    stage: Stage,
    /// How many outputs have been converted.
    converted: usize,
    /// The arrays of the last of these that are still to be sent.
    ready: VecDeque<ArrayData>,
    /// How many arrays have been sent.
    sent: Ghost<nat>,
}

impl SourceRun {
    /// The outputs of the run.
    pub closed spec fn outputs(self) -> Seq<OutputSpec> {
        self.outputs@
    }

    /// Whether the run has no daemon to wait for.
    pub closed spec fn is_standalone(self) -> bool {
        self.standalone
    }

    /// How far the run has come.
    pub closed spec fn stage(self) -> Stage {
        self.stage
    }

    /// How many arrays have been sent.
    pub closed spec fn sent(self) -> nat {
        self.sent@
    }

    /// What the outputs converted so far send is what has been sent, and then what is ready.
    spec fn keeps_script(self) -> bool {
        let so_far = script(self.outputs@.take(self.converted as int));
        &&& self.converted <= self.outputs@.len()
        &&& so_far.failure is None
        &&& self.sent@ <= so_far.sendings.len()
        &&& self.ready@.len() > 0 ==> self.converted > 0
        &&& so_far.sendings.skip(self.sent@ as int) == if self.converted == 0 {
            seq![]
        } else {
            sendings_to(
                self.outputs@[self.converted - 1].output_id@,
                array_views(self.ready@),
            )
        }
    }

    /// Whether the run is in a state that it can come to.
    pub closed spec fn valid(self) -> bool {
        &&& forall|i: int| 0 <= i < self.outputs@.len() ==> spec_fault(#[trigger] self.outputs@[i]) is None
        &&& self.stage == Stage::Connecting || self.stage == Stage::Settling ==> self.sent@ == 0
        &&& self.stage == Stage::Sending ==> self.sent@ > 0 && self.converted > 0 && script(
            self.outputs@,
        ).sendings[self.sent@ - 1].output_id == self.outputs@[self.converted - 1].output_id@
        &&& self.stage == Stage::Connecting || self.stage == Stage::Settling || self.stage
            == Stage::Sending ==> self.keeps_script()
    }
}

/// What is wrong with the first of these outputs that is not valid.
pub open spec fn first_spec_fault(outputs: Seq<OutputSpec>) -> Option<SourceFault>
    decreases outputs.len(),
{
    if outputs.len() == 0 {
        None
    } else if spec_fault(outputs[0]) is Some {
        spec_fault(outputs[0])
    } else {
        first_spec_fault(outputs.drop_first())
    }
}

/// A run starts if and only if every one of its outputs is valid.
pub proof fn run_needs_every_output_valid(outputs: Seq<OutputSpec>)
    ensures
        first_spec_fault(outputs) is None <==> forall|i: int|
            0 <= i < outputs.len() ==> spec_fault(#[trigger] outputs[i]) is None,
    decreases outputs.len(),
{
    if outputs.len() > 0 {
        let rest = outputs.drop_first();
        run_needs_every_output_valid(rest);
        assert(forall|i: int| 0 <= i < rest.len() ==> #[trigger] rest[i] == outputs[i + 1]);
        assert(forall|i: int| 0 < i < outputs.len() ==> #[trigger] outputs[i] == rest[i - 1]);
        if spec_fault(outputs[0]) is None && first_spec_fault(rest) is None {
            assert forall|i: int| 0 <= i < outputs.len() implies spec_fault(
                #[trigger] outputs[i],
            ) is None by {
                if i > 0 {
                    assert(outputs[i] == rest[i - 1]);
                }
            }
        }
        if forall|i: int| 0 <= i < outputs.len() ==> spec_fault(#[trigger] outputs[i]) is None {
            assert forall|i: int| 0 <= i < rest.len() implies spec_fault(
                #[trigger] rest[i],
            ) is None by {
                assert(rest[i] == outputs[i + 1]);
            }
            assert(spec_fault(outputs[0]) is None);
        }
    }
}

/// What a run is refused for is the fault of the first output that is not valid.
pub proof fn first_invalid_output_is_named(outputs: Seq<OutputSpec>, n: int)
    requires
        0 <= n < outputs.len(),
        forall|i: int| 0 <= i < n ==> spec_fault(#[trigger] outputs[i]) is None,
        spec_fault(outputs[n]) is Some,
    ensures
        first_spec_fault(outputs) == spec_fault(outputs[n]),
    decreases n,
{
    if n > 0 {
        let rest = outputs.drop_first();
        assert forall|i: int| 0 <= i < n - 1 implies spec_fault(#[trigger] rest[i]) is None by {
            assert(rest[i] == outputs[i + 1]);
        }
        assert(spec_fault(outputs[0]) is None);
        first_invalid_output_is_named(rest, n - 1);
    }
}

/// Start a run of a test source, whose driver sets up one node for all outputs and reports
/// whether it could. All specs are validated before any node is touched.
pub fn run_test_source(config: SourceConfig, standalone: bool) -> (r: Result<
    SourceRun,
    SourceError,
>)
    ensures
        match r {
            Ok(run) => {
                &&& first_spec_fault(config.outputs@) is None
                &&& run.valid()
                &&& run.outputs() == config.outputs@
                &&& run.is_standalone() == standalone
                &&& run.stage() == Stage::Connecting
                &&& run.sent() == 0
            },
            Err(e) => first_spec_fault(config.outputs@) == Some(e.fault()),
        },
        r is Ok <==> forall|i: int|
            0 <= i < config.outputs@.len() ==> spec_fault(#[trigger] config.outputs@[i]) is None,
        r matches Err(e) ==> exists|n: int|
            0 <= n < config.outputs@.len() && spec_fault(#[trigger] config.outputs@[n]) == Some(
                e.fault(),
            ) && forall|i: int| 0 <= i < n ==> spec_fault(#[trigger] config.outputs@[i]) is None,
{
    proof {
        run_needs_every_output_valid(config.outputs@);
    }
    let mut i: usize = 0;
    assert(config.outputs@.skip(0) =~= config.outputs@);
    while i < config.outputs.len()
        invariant
            i <= config.outputs@.len(),
            first_spec_fault(config.outputs@) == first_spec_fault(config.outputs@.skip(i as int)),
            forall|k: int| 0 <= k < i ==> spec_fault(#[trigger] config.outputs@[k]) is None,
        decreases config.outputs.len() - i,
    {
        assert(config.outputs@.skip(i as int).drop_first() =~= config.outputs@.skip(i + 1));
        assert(config.outputs@.skip(i as int)[0] == config.outputs@[i as int]);
        match validate_spec(&config.outputs[i]) {
            Ok(_) => {},
            Err(e) => {
                assert(spec_fault(config.outputs@[i as int]) == Some(e.fault()));
                return Err(e);
            },
        }
        i = i + 1;
    }
    let run = SourceRun {
        outputs: config.outputs,
        standalone,
        stage: Stage::Connecting,
        converted: 0,
        ready: VecDeque::new(),
        sent: Ghost(0),
    };
    assert(run.keeps_script()) by {
        assert(run.outputs@.take(0) =~= seq![]);
        assert(script(run.outputs@.take(0)).sendings.skip(0) =~= seq![]);
    }
    Ok(run)
}

impl SourceRun {
    /// Send the next array, converting outputs until there is one.
    fn follow(&mut self) -> (r: Step)
        requires
            old(self).valid(),
            old(self).keeps_script(),
        ensures
            final(self).valid(),
            final(self).outputs() == old(self).outputs(),
            final(self).is_standalone() == old(self).is_standalone(),
            (Progress { stage: final(self).stage(), sent: final(self).sent(), step: r@ })
                == following(old(self).outputs(), old(self).is_standalone(), old(self).sent()),
            old(self).sent() <= script(old(self).outputs()).sendings.len(),
    {
        proof {
            earlier_outputs_are_sent_first(self.outputs@, self.converted as int);
        }
        while self.ready.len() == 0 && self.converted < self.outputs.len()
            invariant
                self.keeps_script(),
                forall|i: int|
                    0 <= i < self.outputs@.len() ==> spec_fault(#[trigger] self.outputs@[i]) is None,
                self.outputs@ == old(self).outputs@,
                self.standalone == old(self).standalone,
                self.sent@ == old(self).sent@,
            decreases self.outputs.len() - self.converted,
        {
            let ghost n = self.converted as int;
            let ghost so_far = script(self.outputs@.take(n)).sendings;
            assert(self.outputs@.take(n + 1).drop_last() =~= self.outputs@.take(n));
            assert(so_far.skip(self.sent@ as int) =~= seq![]);
            match convert_output(&self.outputs[self.converted]) {
                Ok(arrays) => {
                    self.ready = arrays;
                    self.converted = self.converted + 1;
                    assert(script(self.outputs@.take(n + 1)).sendings.skip(self.sent@ as int)
                        =~= sendings_to(
                        self.outputs@[n].output_id@,
                        array_views(self.ready@),
                    ));
                },
                Err(cause) => {
                    proof {
                        failing_output_sends_nothing(self.outputs@, n);
                    }
                    let output_id = self.outputs[self.converted].output_id.clone();
                    self.stage = Stage::Over;
                    return Step::Failed(SourceError::EmitFailed { output_id, cause });
                },
            }
        }
        let ghost n = self.converted as int;
        let ghost so_far = script(self.outputs@.take(n)).sendings;
        let ghost k = self.sent@ as int;
        let ghost waiting = self.ready@;
        proof {
            earlier_outputs_are_sent_first(self.outputs@, n);
        }
        match self.ready.pop_front() {
            Some(array) => {
                let output_id = self.outputs[self.converted - 1].output_id.clone();
                proof {
                    let rest = sendings_to(output_id@, array_views(waiting));
                    assert(rest[0] == so_far.skip(k)[0]);
                    let all = script(self.outputs@).sendings;
                    assert(so_far.skip(k).len() > 0);
                    assert(all.subrange(0, so_far.len() as int)[k] == all[k]);
                    assert(so_far[k] == all[k]);
                    assert(so_far.skip(k + 1) =~= so_far.skip(k).drop_first());
                    assert(sendings_to(output_id@, array_views(self.ready@)) =~= rest.drop_first());
                    self.sent@ = self.sent@ + 1;
                }
                self.stage = Stage::Sending;
                Step::Send { output_id, array }
            },
            None => {
                assert(self.outputs@.take(n) =~= self.outputs@);
                assert(so_far.skip(k) =~= seq![]);
                if self.standalone {
                    self.stage = Stage::Over;
                    Step::Done
                } else {
                    self.stage = Stage::Waiting;
                    Step::Await
                }
            },
        }
    }

    /// Go on after a report.
    pub fn advance(&mut self, report: Report) -> (r: Step)
        requires
            old(self).valid(),
            expected(old(self).stage(), report),
        ensures
            final(self).valid(),
            final(self).outputs() == old(self).outputs(),
            final(self).is_standalone() == old(self).is_standalone(),
            (Progress { stage: final(self).stage(), sent: final(self).sent(), step: r@ })
                == response(
                old(self).outputs(),
                old(self).is_standalone(),
                old(self).sent(),
                report,
            ),
            report is Settled || report is Sent || (report is Connected
                && old(self).is_standalone()) ==> {
                let all = script(old(self).outputs());
                &&& old(self).sent() <= all.sendings.len()
                &&& old(self).sent() < all.sendings.len() ==> r@ == StepView::Send(
                    all.sendings[old(self).sent() as int],
                ) && final(self).sent() == old(self).sent() + 1 && final(self).stage()
                    == Stage::Sending
                &&& old(self).sent() == all.sendings.len() ==> final(self).sent()
                    == old(self).sent() && (match all.failure {
                    Some(fault) => r@ == StepView::Failed(fault),
                    None => r@ == (if old(self).is_standalone() {
                        StepView::Done
                    } else {
                        StepView::Await
                    }),
                })
            },
            report is Connected && !old(self).is_standalone() ==> r@ == (StepView::Settle {
                millis: 500,
            }) && final(self).sent() == old(self).sent() && final(self).stage() == Stage::Settling,
            report matches Report::ConnectFailed(reason) ==> r@ == StepView::Failed(
                SourceFault::ConnectFailed(reason@),
            ),
            report matches Report::SendFailed(reason) ==> r@ == StepView::Failed(
                SourceFault::EmitFailed {
                    output_id: script(old(self).outputs()).sendings[old(self).sent()
                        - 1].output_id,
                    cause: EmitFault::SendFailed(reason@),
                },
            ),
            report matches Report::Received(kind) ==> r@ == (if kind == EventKind::Stop || kind
                == EventKind::InputClosed {
                StepView::Done
            } else {
                StepView::Await
            }),
            report is StreamEnded ==> r@ == StepView::Done,
            final(self).stage() == Stage::Over <==> r is Done || r is Failed,
            final(self).stage() == Stage::Waiting <==> r is Await,
            final(self).stage() == Stage::Sending <==> r is Send,
            final(self).stage() == Stage::Settling <==> r is Settle,
            r matches Step::Send { output_id, array } ==> {
                let next = script(old(self).outputs()).sendings[old(self).sent() as int];
                output_id@ == next.output_id && array_view(array) == next.array
            },
            r matches Step::Settle { millis } ==> millis == 500,
    {
        match report {
            Report::Connected => if self.standalone {
                self.follow()
            } else {
                self.stage = Stage::Settling;
                Step::Settle { millis: SUBSCRIBER_SETTLE_MILLIS }
            },
            Report::ConnectFailed(reason) => {
                self.stage = Stage::Over;
                Step::Failed(SourceError::ConnectFailed(reason))
            },
            Report::Settled | Report::Sent => self.follow(),
            Report::SendFailed(reason) => {
                let output_id = self.outputs[self.converted - 1].output_id.clone();
                self.stage = Stage::Over;
                Step::Failed(
                    SourceError::EmitFailed { output_id, cause: EmitError::SendFailed(reason) },
                )
            },
            Report::Received(kind) => if kind.is_last() {
                self.stage = Stage::Over;
                Step::Done
            } else {
                Step::Await
            },
            Report::StreamEnded => {
                self.stage = Stage::Over;
                Step::Done
            },
        }
    }
}

/// Whether `shown` can stand for the type of an unsupported hint, if the error speaks of
/// one.
pub open spec fn emit_shows_hint(e: EmitError, shown: Seq<char>) -> bool {
    e matches EmitError::Convert(cause) ==> shows_hint(cause, shown)
}

/// Whether `shown` can stand for the type of an unsupported hint, if the error speaks of
/// one.
pub open spec fn source_shows_hint(e: SourceError, shown: Seq<char>) -> bool {
    e matches SourceError::EmitFailed { output_id, cause } ==> emit_shows_hint(cause, shown)
}

/// The text of an error, where `shown` stands for the type of an unsupported hint.
pub open spec fn emit_error_text(e: EmitError, shown: Seq<char>) -> Seq<char> {
    match e {
        EmitError::InvalidHint { hint, reason } => "invalid data_type in input JSON: "@ + hint@
            + ": "@ + reason@,
        EmitError::Convert(cause) => convert_error_text(cause, shown),
        EmitError::OutOfReach => "value is beyond what can be read into an Arrow array"@,
        EmitError::InvalidOutputId { output_id, reason } => "invalid output_id '"@ + output_id@
            + "': "@ + reason@,
        EmitError::SendFailed(reason) => "send_output failed: "@ + reason@,
    }
}

/// The text of an error and its causes, where `shown` stands for the type of an
/// unsupported hint.
pub open spec fn source_error_text(e: SourceError, shown: Seq<char>) -> Seq<char> {
    match e {
        SourceError::MissingData => "missing 'data' field in DORA-format input JSON"@,
        SourceError::NotArray(json) => "'data' field must be a JSON array, got: "@ + json@,
        SourceError::EmptyData => "'data' array is empty — nothing to emit"@,
        SourceError::InvalidOutputId { output_id, reason } => "invalid output_id '"@ + output_id@
            + "': "@ + reason@,
        SourceError::ConnectFailed(reason) => "failed to initialize DORA node: "@ + reason@,
        SourceError::EmitFailed { output_id, cause } => "failed to emit output '"@ + output_id@
            + "': "@ + emit_error_text(cause, shown),
    }
}

/// The text of a refused output ID.
fn invalid_id_text(output_id: &String, reason: &String) -> (r: String)
    ensures
        r@ == "invalid output_id '"@ + output_id@ + "': "@ + reason@,
{
    let mut text = "invalid output_id '".to_owned();
    text.append(output_id.as_str());
    text.append("': ");
    text.append(reason.as_str());
    text
}

impl EmitError {
    /// The text of the error.
    pub fn message(&self) -> (r: String)
        ensures
            exists|shown: Seq<char>|
                emit_shows_hint(*self, shown) && r@ == #[trigger] emit_error_text(*self, shown),
            *self matches EmitError::InvalidHint { hint, reason } ==> r@
                == "invalid data_type in input JSON: "@ + hint@ + ": "@ + reason@,
            *self is OutOfReach ==> r@ == "value is beyond what can be read into an Arrow array"@,
            *self matches EmitError::InvalidOutputId { output_id, reason } ==> r@
                == "invalid output_id '"@ + output_id@ + "': "@ + reason@,
            *self matches EmitError::SendFailed(reason) ==> r@ == "send_output failed: "@ + reason@,
    {
        match self {
            EmitError::InvalidHint { hint, reason } => {
                let mut text = "invalid data_type in input JSON: ".to_owned();
                text.append(hint.as_str());
                text.append(": ");
                text.append(reason.as_str());
                assert(text@ == emit_error_text(*self, seq![]));
                text
            },
            EmitError::Convert(cause) => {
                let text = cause.message();
                let ghost shown = choose|shown: Seq<char>|
                    shows_hint(*cause, shown) && text@ == #[trigger] convert_error_text(
                        *cause,
                        shown,
                    );
                assert(text@ == emit_error_text(*self, shown));
                text
            },
            EmitError::OutOfReach => {
                let text = "value is beyond what can be read into an Arrow array".to_owned();
                assert(text@ == emit_error_text(*self, seq![]));
                text
            },
            EmitError::InvalidOutputId { output_id, reason } => {
                let text = invalid_id_text(output_id, reason);
                assert(text@ == emit_error_text(*self, seq![]));
                text
            },
            EmitError::SendFailed(reason) => {
                let mut text = "send_output failed: ".to_owned();
                text.append(reason.as_str());
                assert(text@ == emit_error_text(*self, seq![]));
                text
            },
        }
    }
}

impl SourceError {
    /// The text of the error and its causes.
    pub fn message(&self) -> (r: String)
        ensures
            exists|shown: Seq<char>|
                source_shows_hint(*self, shown) && r@ == #[trigger] source_error_text(
                    *self,
                    shown,
                ),
            *self is MissingData ==> r@ == "missing 'data' field in DORA-format input JSON"@,
            *self matches SourceError::NotArray(json) ==> r@
                == "'data' field must be a JSON array, got: "@ + json@,
            *self is EmptyData ==> r@ == "'data' array is empty — nothing to emit"@,
            *self matches SourceError::InvalidOutputId { output_id, reason } ==> r@
                == "invalid output_id '"@ + output_id@ + "': "@ + reason@,
            *self matches SourceError::ConnectFailed(reason) ==> r@
                == "failed to initialize DORA node: "@ + reason@,
            *self matches SourceError::EmitFailed { output_id, cause } ==> (("failed to emit output '"@
                + output_id@ + "': "@).is_prefix_of(r@)),
    {
        match self {
            SourceError::MissingData => {
                let text = "missing 'data' field in DORA-format input JSON".to_owned();
                assert(text@ == source_error_text(*self, seq![]));
                text
            },
            SourceError::NotArray(json) => {
                let mut text = "'data' field must be a JSON array, got: ".to_owned();
                text.append(json.as_str());
                assert(text@ == source_error_text(*self, seq![]));
                text
            },
            SourceError::EmptyData => {
                let text = "'data' array is empty — nothing to emit".to_owned();
                assert(text@ == source_error_text(*self, seq![]));
                text
            },
            SourceError::InvalidOutputId { output_id, reason } => {
                let text = invalid_id_text(output_id, reason);
                assert(text@ == source_error_text(*self, seq![]));
                text
            },
            SourceError::ConnectFailed(reason) => {
                let mut text = "failed to initialize DORA node: ".to_owned();
                text.append(reason.as_str());
                assert(text@ == source_error_text(*self, seq![]));
                text
            },
            SourceError::EmitFailed { output_id, cause } => {
                let inner = cause.message();
                let ghost shown = choose|shown: Seq<char>|
                    emit_shows_hint(*cause, shown) && inner@ == #[trigger] emit_error_text(
                        *cause,
                        shown,
                    );
                let mut text = "failed to emit output '".to_owned();
                text.append(output_id.as_str());
                text.append("': ");
                text.append(inner.as_str());
                assert(text@ == source_error_text(*self, shown));
                proof {
                    let front = "failed to emit output '"@ + output_id@ + "': "@;
                    assert(front =~= text@.take(front.len() as int));
                }
                text
            },
        }
    }
}

} // verus!
