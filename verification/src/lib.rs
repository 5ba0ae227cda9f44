//! Testing utilities for dataflow nodes.
//!
//! - [`NodeHarness`] drives one node in a unit test: it buffers the events that the node is
//!   created with and files the outputs that it produces.
//! - [`run_test_source`] emits loaded data on one or more outputs; JSON values are converted
//!   to Arrow arrays on the way ([`json_value_to_arrow_array`]).
//! - [`classify_values`] and [`TrajectoryNode`] are the logic of two example nodes.

pub mod arrays;
pub mod classifier;
pub mod convert;
pub mod data_id;
pub mod data_type;
pub mod decimals;
pub mod events;
pub mod harness;
pub mod json;
pub mod kinds;
pub mod numerals;
pub mod row_types;
pub mod source;
pub mod text;
pub mod trajectory;

pub use arrays::{Batch, DecodeError};
pub use classifier::{classify, classify_values, parse_threshold, Classified, Label};
pub use convert::{
    array_element_type, check_merged, convert_value, is_convertible,
    json_array_to_arrow_struct, json_obj_to_arrow_struct, json_value_to_arrow_array, merge_read,
    number_to_arrow_array, ConvertError, Misfit,
};
pub use data_type::{find_plain, parse_data_type, DataType, PlainType};
pub use events::{react, EventKind, Reaction};
pub use harness::{
    Completion, HarnessError, IncomingEvent, InputData, NodeHarness, OutputMap, Parameter, Startup,
    TimedIncomingEvent,
};
pub use json::{number_text, to_row, to_rows, FiniteDouble, JsonValue, Number};
pub use source::{
    convert_output, run_test_source, validate_spec, EmitError, OutputSpec, Report, SourceConfig,
    SourceError, SourceRun, Stage, Step, SUBSCRIBER_SETTLE_MILLIS,
};
pub use trajectory::{parse_steps, Move, StepsError, TrajectoryNode, Waypoint, JOINTS};
