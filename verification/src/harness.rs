//! The [`NodeHarness`]: a self-contained unit-test driver for dataflow nodes.
//!
//! **Inputs** are buffered as [`TimedIncomingEvent`]s and handed over as one batch, a
//! [`Startup`], when the harness is first driven. With all events known from the start, no
//! node ever blocks on an input that has not been sent yet.
//!
//! **Outputs** are collected into buffers, one for each output ID.

use crate::data_id::{id_complaint, parse_data_id, valid_id};
use crate::events::EventKind;
use crate::json::{find_member, member, JsonValue};
use crate::numerals::unsigned_value;
use crate::text::{natural_digits, natural_text, naturals_are_read_back};
use vstd::prelude::*;
use vstd::string::*;

verus! {

/// A metadata parameter. Doubles are held by their bits.
#[derive(Debug)]
pub enum Parameter {
    Bool(bool),
    Integer(i64),
    String(String),
    ListInt(Vec<i64>),
    Float(u64),
    ListFloat(Vec<u64>),
    ListString(Vec<String>),
    Timestamp { seconds: i64, nanoseconds: u32 },
}

/// The data of an input event.
#[derive(Debug)]
pub enum InputData {
    /// Data given in JSON, with the JSON value that describes its type.
    JsonObject { data: JsonValue, data_type: Option<JsonValue> },
    /// A column of an Arrow file.
    ArrowFile { path: String, batch_index: usize, column: Option<String> },
}

/// An event for the node under test.
#[derive(Debug)]
pub enum IncomingEvent {
    Stop,
    Input {
        id: String,
        metadata: Option<Vec<(String, Parameter)>>,
        data: Option<InputData>,
    },
    InputClosed { id: String },
    AllInputsClosed,
}

/// An event with the time, in seconds from the start of the node, at which it comes. The
/// time is a double, held by its bits.
#[derive(Debug)]
pub struct TimedIncomingEvent {
    pub time_offset_bits: u64,
    pub event: IncomingEvent,
}

/// What a node under test is created with.
#[derive(Debug)]
pub struct Startup {
    /// The ID of the node.
    pub node_id: String,
    /// All the events that the node will receive.
    pub events: Vec<TimedIncomingEvent>,
    /// Whether outputs are captured without the time at which they were sent.
    pub skip_output_time_offsets: bool,
}

/// A captured output: the members of a JSON object.
#[derive(Debug)]
pub struct OutputMap {
    pub members: Vec<(String, JsonValue)>,
}

impl OutputMap {
    /// The value under a key.
    pub fn get(&self, key: &str) -> (r: Option<&JsonValue>)
        ensures
            match r {
                Some(v) => member(self.members@, key@) == Some(*v),
                None => member(self.members@, key@) is None,
            },
            match r {
                Some(v) => exists|i: int|
                    0 <= i < self.members@.len() && (#[trigger] self.members@[i]).0@ == key@
                        && self.members@[i].1 == *v && forall|j: int|
                        0 <= j < i ==> (#[trigger] self.members@[j]).0@ != key@,
                None => forall|i: int|
                    0 <= i < self.members@.len() ==> (#[trigger] self.members@[i]).0@ != key@,
            },
    {
        find_member(&self.members, key)
    }

    /// Whether there is a value under a key.
    pub fn contains_key(&self, key: &str) -> (r: bool)
        ensures
            r == member(self.members@, key@) is Some,
            r <==> exists|i: int|
                0 <= i < self.members@.len() && (#[trigger] self.members@[i]).0@ == key@,
    {
        self.get(key).is_some()
    }
}

/// The output ID that a captured output is filed under. Outputs without one are not
/// dropped, but filed under a sentinel.
pub open spec fn output_key(output: OutputMap) -> Seq<char> {
    match member(output.members@, "id"@) {
        Some(JsonValue::String(id)) => id@,
        _ => "<missing-id>"@,
    }
}

/// The outputs that are filed under a key, in order.
pub open spec fn filed_under(outputs: Seq<OutputMap>, key: Seq<char>) -> Seq<OutputMap>
    decreases outputs.len(),
{
    if outputs.len() == 0 {
        seq![]
    } else if output_key(outputs.last()) == key {
        filed_under(outputs.drop_last(), key).push(outputs.last())
    } else {
        filed_under(outputs.drop_last(), key)
    }
}

/// An output is filed under its `id`, where that is a string, and else under a sentinel.
pub proof fn outputs_are_filed_by_their_id(output: OutputMap)
    ensures
        member(output.members@, "id"@) matches Some(JsonValue::String(id)) ==> output_key(output)
            == id@,
        !(member(output.members@, "id"@) matches Some(JsonValue::String(_))) ==> output_key(output)
            == "<missing-id>"@,
{
}

/// What is filed under a key is every output of that key and no other, in their order.
pub proof fn every_output_of_a_key_is_filed(outputs: Seq<OutputMap>, key: Seq<char>)
    ensures
        filed_under(outputs, key) == outputs.filter(|o: OutputMap| output_key(o) == key),
    decreases outputs.len(),
{
    reveal(Seq::filter);
    if outputs.len() > 0 {
        every_output_of_a_key_is_filed(outputs.drop_last(), key);
    }
}

/// No output is lost, and none overtakes another: an output is filed under its own key behind
/// all those of that key that came before it.
pub proof fn outputs_are_filed_in_their_place(outputs: Seq<OutputMap>, i: int)
    requires
        0 <= i < outputs.len(),
    ensures
        ({
            let key = output_key(outputs[i]);
            let before = filed_under(outputs.take(i), key);
            &&& before.len() < filed_under(outputs, key).len()
            &&& filed_under(outputs, key)[before.len() as int] == outputs[i]
            &&& before.is_prefix_of(filed_under(outputs, key))
        }),
{
    let key = output_key(outputs[i]);
    let upto = outputs.take(i + 1);
    assert(upto.drop_last() =~= outputs.take(i));
    assert(upto.last() == outputs[i]);
    assert(outputs =~= upto + outputs.skip(i + 1));
    portions_do_not_matter(upto, outputs.skip(i + 1), key);
    let before = filed_under(outputs.take(i), key);
    let all = filed_under(outputs, key);
    assert(all == before.push(outputs[i]) + filed_under(outputs.skip(i + 1), key));
    assert(before =~= all.subrange(0, before.len() as int));
}

/// Whether each of these outputs is one that is filed under this key.
pub open spec fn all_bear(outputs: Seq<OutputMap>, key: Seq<char>) -> bool {
    forall|i: int| 0 <= i < outputs.len() ==> output_key(#[trigger] outputs[i]) == key
}

/// It does not matter in what portions outputs are collected: what is filed under a key is
/// the same, in the same order.
pub proof fn portions_do_not_matter(first: Seq<OutputMap>, second: Seq<OutputMap>, key: Seq<char>)
    ensures
        filed_under(first + second, key) == filed_under(first, key) + filed_under(second, key),
    decreases second.len(),
{
    if second.len() == 0 {
        assert(first + second =~= first);
        assert(filed_under(first, key) + filed_under(second, key) =~= filed_under(first, key));
    } else {
        assert((first + second).drop_last() =~= first + second.drop_last());
        portions_do_not_matter(first, second.drop_last(), key);
        let before = filed_under(second.drop_last(), key);
        assert((filed_under(first, key) + before).push(second.last()) =~= filed_under(first, key)
            + before.push(second.last()));
    }
}

/// Why a request to the harness is refused.
#[derive(Debug)]
pub enum HarnessError {
    /// An input ID is not an identifier.
    InvalidInputId { input_id: String, reason: String },
    /// An output ID is not an identifier.
    InvalidOutputId { output_id: String, reason: String },
    /// Events were injected after the node had been created with all that it will receive.
    Undelivered { count: usize },
}

/// The text of a refusal.
pub open spec fn harness_error_text(e: HarnessError) -> Seq<char> {
    match e {
        HarnessError::InvalidInputId { input_id, reason } =>
            "NodeHarness::send_data: invalid input_id '"@ + input_id@ + "': "@ + reason@,
        HarnessError::InvalidOutputId { output_id, reason } => "invalid output_id '"@ + output_id@
            + "': "@ + reason@,
        HarnessError::Undelivered { count } => "NodeHarness: "@ + natural_digits(count as nat)
            + " event(s) injected after the node was already initialized — they can never be delivered.  Call send_data/send_stop BEFORE the first tick/run_to_completion/send_output."@,
    }
}

impl HarnessError {
    /// The text of the refusal.
    pub fn message(&self) -> (r: String)
        ensures
            r@ == harness_error_text(*self),
            match *self {
                HarnessError::InvalidInputId { input_id, reason } => r@
                    == "NodeHarness::send_data: invalid input_id '"@ + input_id@ + "': "@ + reason@,
                HarnessError::InvalidOutputId { output_id, reason } => r@ == "invalid output_id '"@
                    + output_id@ + "': "@ + reason@,
                HarnessError::Undelivered { count } => exists|digits: Seq<char>|
                    #[trigger] unsigned_value(digits) == Some(count as int) && r@
                        == "NodeHarness: "@ + digits
                        + " event(s) injected after the node was already initialized — they can never be delivered.  Call send_data/send_stop BEFORE the first tick/run_to_completion/send_output."@,
            },
    {
        match self {
            HarnessError::InvalidInputId { input_id, reason } => {
                let mut text = "NodeHarness::send_data: invalid input_id '".to_owned();
                text.append(input_id.as_str());
                text.append("': ");
                text.append(reason.as_str());
                text
            },
            HarnessError::InvalidOutputId { output_id, reason } => {
                let mut text = "invalid output_id '".to_owned();
                text.append(output_id.as_str());
                text.append("': ");
                text.append(reason.as_str());
                text
            },
            HarnessError::Undelivered { count } => {
                let mut text = "NodeHarness: ".to_owned();
                text.append(natural_text(*count as u64).as_str());
                text.append(
                    " event(s) injected after the node was already initialized — they can never be delivered.  Call send_data/send_stop BEFORE the first tick/run_to_completion/send_output.",
                );
                proof {
                    naturals_are_read_back(*count as nat);
                }
                text
            },
        }
    }
}

/// The outputs under one output ID.
struct Buffer {
    key: String,
    outputs: Vec<OutputMap>,
}

/// The outputs in the first buffer with this key.
spec fn lookup(buffers: Seq<Buffer>, key: Seq<char>) -> Seq<OutputMap>
    decreases buffers.len(),
{
    if buffers.len() == 0 {
        seq![]
    } else if buffers[0].key@ == key {
        buffers[0].outputs@
    } else {
        lookup(buffers.drop_first(), key)
    }
}

/// Whether no two buffers have the same key.
spec fn distinct_keys(buffers: Seq<Buffer>) -> bool {
    forall|i: int, j: int|
        0 <= i < j < buffers.len() ==> (#[trigger] buffers[i]).key@ != (
        #[trigger] buffers[j]).key@
}

proof fn lookup_at(buffers: Seq<Buffer>, i: int)
    requires
        distinct_keys(buffers),
        0 <= i < buffers.len(),
    ensures
        lookup(buffers, buffers[i].key@) == buffers[i].outputs@,
    decreases buffers.len(),
{
    if i > 0 {
        let rest = buffers.drop_first();
        assert forall|a: int, b: int| 0 <= a < b < rest.len() implies (#[trigger] rest[a]).key@ != (
        #[trigger] rest[b]).key@ by {
            assert(rest[a] == buffers[a + 1] && rest[b] == buffers[b + 1]);
        }
        assert(buffers[0].key@ != buffers[i].key@);
        assert(rest[i - 1] == buffers[i]);
        lookup_at(rest, i - 1);
    }
}

proof fn lookup_nowhere(buffers: Seq<Buffer>, key: Seq<char>)
    requires
        forall|i: int| 0 <= i < buffers.len() ==> (#[trigger] buffers[i]).key@ != key,
    ensures
        lookup(buffers, key) == Seq::<OutputMap>::empty(),
    decreases buffers.len(),
{
    if buffers.len() > 0 {
        let rest = buffers.drop_first();
        assert forall|i: int| 0 <= i < rest.len() implies (#[trigger] rest[i]).key@ != key by {
            assert(rest[i] == buffers[i + 1]);
        }
        assert(buffers[0].key@ != key);
        lookup_nowhere(rest, key);
    }
}

/// Buffers that hold the same under a key in `before` and, at some position, in `after`.
proof fn lookup_is_kept(before: Seq<Buffer>, after: Seq<Buffer>, key: Seq<char>)
    requires
        distinct_keys(before),
        distinct_keys(after),
        forall|i: int|
            0 <= i < before.len() && (#[trigger] before[i]).key@ == key ==> after.contains(before[i]),
        forall|i: int|
            0 <= i < after.len() && (#[trigger] after[i]).key@ == key ==> before.contains(after[i]),
    ensures
        lookup(after, key) == lookup(before, key),
{
    if exists|i: int| 0 <= i < before.len() && (#[trigger] before[i]).key@ == key {
        let i = choose|i: int| 0 <= i < before.len() && (#[trigger] before[i]).key@ == key;
        let j = choose|j: int| 0 <= j < after.len() && after[j] == before[i];
        lookup_at(before, i);
        lookup_at(after, j);
    } else {
        lookup_nowhere(before, key);
        lookup_nowhere(after, key);
    }
}

/// The main unit-test harness for a single node.
pub struct NodeHarness {
    /// Buffered input events, consumed when the node is first driven.
    pending_events: Vec<TimedIncomingEvent>,
    /// Buffered outputs, one buffer for each output ID that has any.
    buffers: Vec<Buffer>,
    /// Whether the node has been created.
    started: bool,
    /// The events that the node was created with and has not been driven through.
    stream: Ghost<Seq<TimedIncomingEvent>>,
}

impl NodeHarness {
    /// The input events that the node has not been given yet.
    pub closed spec fn pending(self) -> Seq<TimedIncomingEvent> {
        self.pending_events@
    }

    /// Whether the node has been created.
    pub closed spec fn is_started(self) -> bool {
        self.started
    }

    /// The events that the node was created with and has not been driven through, in order.
    pub closed spec fn ahead(self) -> Seq<TimedIncomingEvent> {
        self.stream@
    }

    /// The collected outputs under a key, in order.
    pub closed spec fn buffered(self, key: Seq<char>) -> Seq<OutputMap> {
        lookup(self.buffers@, key)
    }

    /// Each output ID has at most one buffer; a buffer is not empty, and holds only outputs
    /// that are filed under its ID.
    pub closed spec fn valid(self) -> bool {
        &&& distinct_keys(self.buffers@)
        &&& forall|i: int|
            0 <= i < self.buffers@.len() ==> (#[trigger] self.buffers@[i]).outputs@.len() > 0
                && all_bear(self.buffers@[i].outputs@, self.buffers@[i].key@)
    }

    /// Create a new harness.
    ///
    /// The node is not created with it. Events are buffered until the harness is first
    /// driven, and the node is then created with all of them.
    pub fn new() -> (r: Result<Self, HarnessError>)
        ensures
            r matches Ok(harness) && harness.valid() && harness.pending() == Seq::<
                TimedIncomingEvent,
            >::empty() && !harness.is_started() && harness.ahead() == Seq::<
                TimedIncomingEvent,
            >::empty() && forall|key: Seq<char>|
                #[trigger] harness.buffered(key) == Seq::<OutputMap>::empty(),
    {
        Ok(
            NodeHarness {
                pending_events: Vec::new(),
                buffers: Vec::new(),
                started: false,
                stream: Ghost(Seq::empty()),
            },
        )
    }

    /// Inject a synthetic input event. It is buffered, not delivered immediately.
    pub fn send_input(&mut self, event: TimedIncomingEvent)
        requires
            old(self).valid(),
        ensures
            final(self).valid(),
            final(self).pending() == old(self).pending().push(event),
            final(self).is_started() == old(self).is_started(),
            final(self).ahead() == old(self).ahead(),
            forall|key: Seq<char>| #[trigger] final(self).buffered(key) == old(self).buffered(key),
    {
        self.pending_events.push(event);
    }

    /// Tell whether a text can be the ID of an input.
    pub fn check_input_id(input_id: &str) -> (r: Result<(), HarnessError>)
        ensures
            match r {
                Ok(_) => valid_id(input_id@),
                Err(e) => e matches HarnessError::InvalidInputId { input_id: id, reason } && id@
                    == input_id@ && id_complaint(input_id@) == Some(reason@),
            },
    {
        match parse_data_id(input_id) {
            Ok(_) => Ok(()),
            Err(reason) => Err(
                HarnessError::InvalidInputId { input_id: input_id.to_owned(), reason },
            ),
        }
    }

    /// Convenience: inject input data by ID, to come at the start of the node.
    pub fn send_data(&mut self, input_id: &str, data: InputData)
        requires
            old(self).valid(),
            valid_id(input_id@),
        ensures
            final(self).valid(),
            final(self).pending().len() == old(self).pending().len() + 1,
            final(self).pending().drop_last() == old(self).pending(),
            final(self).pending().last().time_offset_bits == 0,
            final(self).pending().last().event matches IncomingEvent::Input {
                id,
                metadata,
                data: sent,
            } && id@ == input_id@ && metadata is None && sent == Some(data),
            final(self).is_started() == old(self).is_started(),
            final(self).ahead() == old(self).ahead(),
            forall|key: Seq<char>| #[trigger] final(self).buffered(key) == old(self).buffered(key),
    {
        let event = IncomingEvent::Input {
            id: input_id.to_owned(),
            metadata: None,
            data: Some(data),
        };
        self.send_input(TimedIncomingEvent { time_offset_bits: 0, event });
        assert(self.pending().drop_last() =~= old(self).pending());
    }

    /// Convenience: inject a stop event, to come at the start of the node.
    pub fn send_stop(&mut self)
        requires
            old(self).valid(),
        ensures
            final(self).valid(),
            final(self).pending() == old(self).pending().push(
                (TimedIncomingEvent { time_offset_bits: 0, event: IncomingEvent::Stop }),
            ),
            final(self).is_started() == old(self).is_started(),
            final(self).ahead() == old(self).ahead(),
            forall|key: Seq<char>| #[trigger] final(self).buffered(key) == old(self).buffered(key),
    {
        self.send_input(TimedIncomingEvent { time_offset_bits: 0, event: IncomingEvent::Stop });
    }

    /// Close the input side. All events are known from the start, so there is nothing to
    /// close.
    pub fn close_input(&mut self)
        ensures
            *final(self) == *old(self),
    {
    }

    /// Tell whether the events injected so far can be delivered: none may come after the
    /// node has been created.
    pub fn check_deliverable(&self) -> (r: Result<(), HarnessError>)
        ensures
            r is Err <==> self.is_started() && self.pending().len() > 0,
            match r {
                Ok(_) => self.is_started() ==> self.pending().len() == 0,
                Err(e) => {
                    &&& self.is_started()
                    &&& self.pending().len() > 0
                    &&& e matches HarnessError::Undelivered { count } && count
                        == self.pending().len()
                },
            },
    {
        if self.started && self.pending_events.len() > 0 {
            Err(HarnessError::Undelivered { count: self.pending_events.len() })
        } else {
            Ok(())
        }
    }
}

impl NodeHarness {
    /// The position of the buffer with this key.
    fn find_buffer(&self, key: &String) -> (r: Option<usize>)
        ensures
            match r {
                Some(i) => i < self.buffers@.len() && self.buffers@[i as int].key@ == key@,
                None => forall|i: int|
                    0 <= i < self.buffers@.len() ==> (#[trigger] self.buffers@[i]).key@ != key@,
            },
    {
        let mut i: usize = 0;
        while i < self.buffers.len()
            invariant
                i <= self.buffers@.len(),
                forall|j: int| 0 <= j < i ==> (#[trigger] self.buffers@[j]).key@ != key@,
            decreases self.buffers.len() - i,
        {
            if self.buffers[i].key == *key {
                return Some(i);
            }
            i = i + 1;
        }
        None
    }

    /// File one output.
    fn file(&mut self, output: OutputMap)
        requires
            old(self).valid(),
        ensures
            final(self).valid(),
            final(self).pending_events == old(self).pending_events,
            final(self).started == old(self).started,
            final(self).stream == old(self).stream,
            forall|key: Seq<char>| #[trigger]
                final(self).buffered(key) == if key == output_key(output) {
                    old(self).buffered(key).push(output)
                } else {
                    old(self).buffered(key)
                },
    {
        let key = match output.get("id") {
            Some(JsonValue::String(id)) => id.clone(),
            _ => "<missing-id>".to_owned(),
        };
        let ghost name = output_key(output);
        let ghost before = self.buffers@;
        match self.find_buffer(&key) {
            Some(i) => {
                self.buffers[i].outputs.push(output);
                proof {
                    let after = self.buffers@;
                    assert forall|j: int| 0 <= j < after.len() && j != i implies after[j]
                        == #[trigger] before[j] by {}
                    assert(after[i as int].key == before[i as int].key);
                    assert forall|a: int, b: int| 0 <= a < b < after.len() implies (
                    #[trigger] after[a]).key@ != (#[trigger] after[b]).key@ by {
                        assert(before[a].key@ != before[b].key@);
                    }
                    assert forall|j: int| 0 <= j < after.len() implies (
                    #[trigger] after[j]).outputs@.len() > 0 by {
                        assert(before[j].outputs@.len() > 0 && all_bear(before[j].outputs@, before[j].key@));
                    }
                    lookup_at(before, i as int);
                    lookup_at(after, i as int);
                    assert forall|k: Seq<char>| k != name implies #[trigger] self.buffered(k)
                        == old(self).buffered(k) by {
                        assert forall|j: int|
                            0 <= j < before.len() && (#[trigger] before[j]).key@
                                == k implies after.contains(before[j]) by {
                            assert(after[j] == before[j]);
                        }
                        assert forall|j: int|
                            0 <= j < after.len() && (#[trigger] after[j]).key@
                                == k implies before.contains(after[j]) by {
                            assert(after[j] == before[j]);
                        }
                        lookup_is_kept(before, after, k);
                    }
                }
            },
            None => {
                let mut outputs: Vec<OutputMap> = Vec::new();
                outputs.push(output);
                self.buffers.push(Buffer { key, outputs });
                proof {
                    let after = self.buffers@;
                    let n = before.len() as int;
                    assert forall|a: int, b: int| 0 <= a < b < after.len() implies (
                    #[trigger] after[a]).key@ != (#[trigger] after[b]).key@ by {
                        assert(after[a] == before[a]);
                        if b < n {
                            assert(after[b] == before[b]);
                        }
                    }
                    lookup_nowhere(before, name);
                    lookup_at(after, n);
                    assert(after[n].outputs@ =~= old(self).buffered(name).push(output));
                    assert forall|k: Seq<char>| k != name implies #[trigger] self.buffered(k)
                        == old(self).buffered(k) by {
                        assert forall|j: int|
                            0 <= j < before.len() && (#[trigger] before[j]).key@
                                == k implies after.contains(before[j]) by {
                            assert(after[j] == before[j]);
                        }
                        lookup_is_kept(before, after, k);
                    }
                }
            },
        }
    }

    /// Collect outputs that the node has produced, filing each under its output ID.
    pub fn collect_pending_outputs(&mut self, outputs: Vec<OutputMap>)
        requires
            old(self).valid(),
        ensures
            final(self).valid(),
            final(self).pending() == old(self).pending(),
            final(self).is_started() == old(self).is_started(),
            final(self).ahead() == old(self).ahead(),
            forall|key: Seq<char>| #[trigger]
                final(self).buffered(key) == old(self).buffered(key) + filed_under(outputs@, key),
            forall|key: Seq<char>| #[trigger]
                final(self).buffered(key) == old(self).buffered(key) + outputs@.filter(
                    |o: OutputMap| output_key(o) == key,
                ),
    {
        let ghost all = outputs@;
        for output in it: outputs
            invariant
                it.seq() == all,
                self.valid(),
                self.pending_events == old(self).pending_events,
                self.started == old(self).started,
                self.stream == old(self).stream,
                forall|key: Seq<char>| #[trigger]
                    self.buffered(key) == old(self).buffered(key) + filed_under(
                        all.take(it.index()),
                        key,
                    ),
        {
            let ghost n = it.index();
            let ghost before = *self;
            self.file(output);
            proof {
                assert(all.take(n + 1).drop_last() =~= all.take(n));
                assert forall|key: Seq<char>| #[trigger]
                    self.buffered(key) == old(self).buffered(key) + filed_under(
                        all.take(n + 1),
                        key,
                    ) by {
                    assert(before.buffered(key) == old(self).buffered(key) + filed_under(
                        all.take(n),
                        key,
                    ));
                }
            }
        }
        proof {
            assert(all.take(all.len() as int) =~= all);
            assert forall|key: Seq<char>| #[trigger]
                self.buffered(key) == old(self).buffered(key) + all.filter(
                    |o: OutputMap| output_key(o) == key,
                ) by {
                every_output_of_a_key_is_filed(all, key);
            }
        }
    }

    /// Drain all available outputs for `output_id`, after collecting those that the node
    /// has produced since. `None` if there are none.
    pub fn recv_output(&mut self, output_id: &str, produced: Vec<OutputMap>) -> (r: Option<
        Vec<OutputMap>,
    >)
        requires
            old(self).valid(),
        ensures
            final(self).valid(),
            final(self).pending() == old(self).pending(),
            final(self).is_started() == old(self).is_started(),
            final(self).ahead() == old(self).ahead(),
            match r {
                Some(outputs) => outputs@.len() > 0 && outputs@ == available(
                    *old(self),
                    produced@,
                    output_id@,
                ),
                None => available(*old(self), produced@, output_id@).len() == 0,
            },
            r matches Some(outputs) ==> forall|i: int|
                0 <= i < outputs@.len() ==> output_key(#[trigger] outputs@[i]) == output_id@,
            drained(*old(self), *final(self), produced@, output_id@),
            forall|key: Seq<char>|
                key == output_id@ ==> match r {
                    Some(outputs) => outputs@ == #[trigger] old(self).buffered(key)
                        + produced@.filter(|o: OutputMap| output_key(o) == key),
                    None => old(self).buffered(key).len() == 0 && produced@.filter(
                        |o: OutputMap| output_key(o) == key,
                    ).len() == 0,
                },
            final(self).buffered(output_id@).len() == 0,
            forall|key: Seq<char>|
                key != output_id@ ==> #[trigger] final(self).buffered(key) == old(self).buffered(
                    key,
                ) + produced@.filter(|o: OutputMap| output_key(o) == key),
    {
        proof {
            assert forall|key: Seq<char>| #[trigger]
                filed_under(produced@, key) == produced@.filter(
                    |o: OutputMap| output_key(o) == key,
                ) by {
                every_output_of_a_key_is_filed(produced@, key);
            }
        }
        self.collect_pending_outputs(produced);
        let wanted = output_id.to_owned();
        let ghost collected = *self;
        let ghost before = self.buffers@;
        assert forall|k: Seq<char>| #[trigger] lookup(before, k) == old(self).buffered(k)
            + filed_under(produced@, k) by {
            assert(collected.buffered(k) == lookup(before, k));
        }
        match self.find_buffer(&wanted) {
            Some(i) => {
                proof {
                    lookup_at(before, i as int);
                }
                let buffer = self.buffers.swap_remove(i);
                proof {
                    let after = self.buffers@;
                    let n = after.len() as int;
                    assert forall|a: int, b: int| 0 <= a < b < after.len() implies (
                    #[trigger] after[a]).key@ != (#[trigger] after[b]).key@ by {
                        assert(before[a].key@ != before[b].key@);
                        assert(before[a].key@ != before[n].key@);
                        assert(before[b].key@ != before[n].key@);
                    }
                    assert forall|j: int| 0 <= j < after.len() implies (
                    #[trigger] after[j]).key@ != output_id@ by {
                        assert(before[j].key@ != before[n].key@);
                        if j != i {
                            assert(before[if j < i { j } else { i as int }].key@ != before[if j < i {
                                i as int
                            } else {
                                j
                            }].key@);
                        }
                    }
                    lookup_nowhere(after, output_id@);
                    assert forall|k: Seq<char>| k != output_id@ implies #[trigger] lookup(after, k)
                        == lookup(before, k) by {
                        assert forall|j: int|
                            0 <= j < before.len() && (#[trigger] before[j]).key@
                                == k implies after.contains(before[j]) by {
                            if j < n {
                                assert(after[j] == before[j]);
                            } else {
                                assert(after[i as int] == before[j]);
                            }
                        }
                        lookup_is_kept(before, after, k);
                    }
                    assert(forall|k: Seq<char>| #[trigger]
                        self.buffered(k) == lookup(after, k));
                }
                Some(buffer.outputs)
            },
            None => {
                proof {
                    lookup_nowhere(before, output_id@);
                }
                None
            },
        }
    }
}

/// What is available under an output ID, once these outputs are collected too.
pub open spec fn available(
    harness: NodeHarness,
    produced: Seq<OutputMap>,
    output_id: Seq<char>,
) -> Seq<OutputMap> {
    harness.buffered(output_id) + filed_under(produced, output_id)
}

/// Whether these outputs are collected and those of one output ID are then handed out: the
/// others stay.
pub open spec fn drained(
    before: NodeHarness,
    after: NodeHarness,
    produced: Seq<OutputMap>,
    output_id: Seq<char>,
) -> bool {
    forall|key: Seq<char>| #[trigger]
        after.buffered(key) == if key == output_id {
            seq![]
        } else {
            available(before, produced, key)
        }
}

/// What is filed under a key bears it.
proof fn filed_outputs_bear_the_key(outputs: Seq<OutputMap>, key: Seq<char>)
    ensures
        all_bear(filed_under(outputs, key), key),
    decreases outputs.len(),
{
    if outputs.len() > 0 {
        filed_outputs_bear_the_key(outputs.drop_last(), key);
    }
}

/// What is held in a buffer bears its key.
proof fn held_outputs_bear_the_key(buffers: Seq<Buffer>, key: Seq<char>)
    requires
        forall|i: int|
            0 <= i < buffers.len() ==> all_bear(
                (#[trigger] buffers[i]).outputs@,
                buffers[i].key@,
            ),
    ensures
        all_bear(lookup(buffers, key), key),
    decreases buffers.len(),
{
    if buffers.len() > 0 {
        let rest = buffers.drop_first();
        assert forall|i: int| 0 <= i < rest.len() implies all_bear(
            (#[trigger] rest[i]).outputs@,
            rest[i].key@,
        ) by {
            assert(rest[i] == buffers[i + 1]);
        }
        assert(all_bear(buffers[0].outputs@, buffers[0].key@));
        held_outputs_bear_the_key(rest, key);
    }
}

/// What is available under an output ID is all that is buffered under it and then all that was
/// produced with it since: no output is left out, and they come in the order of their arrival.
pub proof fn every_output_is_available(
    harness: NodeHarness,
    produced: Seq<OutputMap>,
    output_id: Seq<char>,
    i: int,
)
    ensures
        available(harness, produced, output_id).len() == harness.buffered(output_id).len()
            + produced.filter(|o: OutputMap| output_key(o) == output_id).len(),
        0 <= i < harness.buffered(output_id).len() ==> available(harness, produced, output_id)[i]
            == harness.buffered(output_id)[i],
        0 <= i < produced.len() && output_key(produced[i]) == output_id ==> available(
            harness,
            produced,
            output_id,
        )[harness.buffered(output_id).len() as int + produced.take(i).filter(
            |o: OutputMap| output_key(o) == output_id,
        ).len()] == produced[i],
{
    every_output_of_a_key_is_filed(produced, output_id);
    if 0 <= i < produced.len() && output_key(produced[i]) == output_id {
        every_output_of_a_key_is_filed(produced.take(i), output_id);
        outputs_are_filed_in_their_place(produced, i);
    }
}

/// Outputs that are collected first are handed out as if they had been produced at the end:
/// nothing is lost between.
pub proof fn collected_outputs_are_handed_out(
    before: NodeHarness,
    collected: NodeHarness,
    first: Seq<OutputMap>,
    second: Seq<OutputMap>,
    output_id: Seq<char>,
)
    requires
        forall|key: Seq<char>| #[trigger]
            collected.buffered(key) == before.buffered(key) + filed_under(first, key),
    ensures
        available(collected, second, output_id) == available(before, first + second, output_id),
        available(collected, second, output_id) == before.buffered(output_id) + (first
            + second).filter(|o: OutputMap| output_key(o) == output_id),
{
    portions_do_not_matter(first, second, output_id);
    every_output_of_a_key_is_filed(first + second, output_id);
    assert(available(collected, second, output_id) =~= available(
        before,
        first + second,
        output_id,
    ));
}

/// Outputs are handed out once, and to each output ID its own: what is available under an ID
/// bears it; and where it has been handed out and nothing was produced since, nothing is
/// available under that ID, and what is available under any other is what was available
/// before.
pub proof fn outputs_are_handed_out_once(
    before: NodeHarness,
    after: NodeHarness,
    produced: Seq<OutputMap>,
    output_id: Seq<char>,
    other_id: Seq<char>,
)
    requires
        before.valid(),
        drained(before, after, produced, output_id),
        other_id != output_id,
    ensures
        all_bear(available(before, produced, output_id), output_id),
        available(after, Seq::empty(), output_id).len() == 0,
        available(after, Seq::empty(), other_id) == available(before, produced, other_id),
{
    filed_outputs_bear_the_key(produced, output_id);
    held_outputs_bear_the_key(before.buffers@, output_id);
    assert(after.buffered(output_id).len() == 0);
    assert(after.buffered(other_id) == available(before, produced, other_id));
    assert(available(after, Seq::empty(), other_id) =~= after.buffered(other_id));
}

/// Whether the harness, once driven, is started and holds back no event.
pub open spec fn driven(harness: NodeHarness) -> bool {
    harness.is_started() && harness.pending().len() == 0
}

/// Whether a node is created with exactly these events, if it has not been created yet.
pub open spec fn starts_with(
    startup: Option<Startup>,
    was_started: bool,
    events: Seq<TimedIncomingEvent>,
) -> bool {
    match startup {
        Some(s) => !was_started && s.node_id@ == "test-node"@ && s.events@ == events
            && s.skip_output_time_offsets,
        None => was_started,
    }
}

/// The events that the node is still to be driven through, in order: those that it was created
/// with, or else will be.
pub open spec fn upcoming(harness: NodeHarness) -> Seq<TimedIncomingEvent> {
    if harness.is_started() {
        harness.ahead()
    } else {
        harness.pending()
    }
}

/// The event that the next tick processes, if there is one.
pub open spec fn next_event(harness: NodeHarness) -> Option<TimedIncomingEvent> {
    if upcoming(harness).len() > 0 {
        Some(upcoming(harness)[0])
    } else {
        None
    }
}

/// The next event is the first of those that the node was created with and has not been driven
/// through, or, where it is not created yet, the first of those that are buffered for it.
pub proof fn next_event_is_the_first(harness: NodeHarness)
    ensures
        harness.is_started() && harness.ahead().len() > 0 ==> next_event(harness) == Some(
            harness.ahead()[0],
        ),
        !harness.is_started() && harness.pending().len() > 0 ==> next_event(harness) == Some(
            harness.pending()[0],
        ),
        next_event(harness) is None <==> (if harness.is_started() {
            harness.ahead().len() == 0
        } else {
            harness.pending().len() == 0
        }),
{
}

/// A tick drives a node through one event: those behind it stay ahead. One at the end changes
/// nothing, and after a tick the node is created and holds back no event.
pub proof fn ticks_take_one_event(before: NodeHarness, after: NodeHarness)
    requires
        ticked(before, after),
    ensures
        after.is_started(),
        after.pending().len() == 0,
        ({
            let events = if before.is_started() {
                before.ahead()
            } else {
                before.pending()
            };
            &&& events.len() > 0 ==> events == seq![events[0]] + after.ahead() && next_event(before)
                == Some(events[0])
            &&& events.len() == 0 ==> after.ahead().len() == 0
        }),
{
    let events = upcoming(before);
    if events.len() > 0 {
        assert(events =~= seq![events[0]] + after.ahead());
    }
}

/// Whether the node has been driven by one event, or was at the end of its stream.
pub open spec fn ticked(before: NodeHarness, after: NodeHarness) -> bool {
    &&& driven(after)
    &&& after.ahead() == if upcoming(before).len() > 0 {
        upcoming(before).drop_first()
    } else {
        upcoming(before)
    }
}

/// Whether the harness has been ticked from one state to the next.
pub open spec fn ticked_at(harnesses: Seq<NodeHarness>, i: int) -> bool {
    ticked(harnesses[i], harnesses[i + 1])
}

/// Whether each state of a harness comes from the one before it by a tick.
pub open spec fn all_ticked(harnesses: Seq<NodeHarness>) -> bool {
    forall|i: int| 0 <= i < harnesses.len() - 1 ==> #[trigger] ticked_at(harnesses, i)
}

/// Ticks go through the events one by one: each processes exactly one of those that were
/// buffered, in their order, and the others stay ahead. At the end of the stream there are
/// none.
pub proof fn ticks_go_through_the_events(harnesses: Seq<NodeHarness>, n: int)
    requires
        all_ticked(harnesses),
        0 <= n < harnesses.len(),
    ensures
        n <= upcoming(harnesses[0]).len() ==> upcoming(harnesses[n]) == upcoming(
            harnesses[0],
        ).skip(n),
        n < upcoming(harnesses[0]).len() ==> next_event(harnesses[n]) == Some(
            upcoming(harnesses[0])[n],
        ),
        n >= upcoming(harnesses[0]).len() ==> next_event(harnesses[n]) is None,
    decreases n,
{
    let all = upcoming(harnesses[0]);
    if n == 0 {
        assert(all.skip(0) =~= all);
    } else {
        ticks_go_through_the_events(harnesses, n - 1);
        assert(ticked_at(harnesses, n - 1));
        if n <= all.len() {
            assert(all.skip(n - 1).drop_first() =~= all.skip(n));
        }
    }
}

/// Whether an event is the input that [`NodeHarness::send_data`] makes of an ID and data.
pub open spec fn is_input_of(event: TimedIncomingEvent, id: Seq<char>, data: InputData) -> bool {
    &&& event.time_offset_bits == 0
    &&& event.event matches IncomingEvent::Input { id: own, metadata, data: sent } && own@ == id
        && metadata is None && sent == Some(data)
}

/// Whether the events are those of inputs, in order, and then a stop event.
pub open spec fn inputs_and_stop(
    events: Seq<TimedIncomingEvent>,
    inputs: Seq<(Seq<char>, InputData)>,
) -> bool {
    &&& events.len() == inputs.len() + 1
    &&& forall|i: int|
        0 <= i < inputs.len() ==> is_input_of(#[trigger] events[i], inputs[i].0, inputs[i].1)
    &&& events[inputs.len() as int].event is Stop
}

/// Where inputs and then a stop event were buffered for a node that is not created yet, each
/// tick gives one of the inputs, in the order in which they were buffered, and the tick after
/// them gives the stop event. None is lost, repeated or out of order, and no event follows.
pub proof fn buffered_inputs_come_one_by_one(
    harnesses: Seq<NodeHarness>,
    inputs: Seq<(Seq<char>, InputData)>,
)
    requires
        harnesses.len() == inputs.len() + 2,
        !harnesses[0].is_started(),
        inputs_and_stop(harnesses[0].pending(), inputs),
        all_ticked(harnesses),
    ensures
        forall|i: int|
            0 <= i < inputs.len() ==> (next_event(#[trigger] harnesses[i]) matches Some(event)
                && is_input_of(event, inputs[i].0, inputs[i].1)),
        next_event(harnesses[inputs.len() as int]) matches Some(event) && event.event is Stop,
        next_event(harnesses.last()) is None,
{
    assert forall|i: int| 0 <= i < inputs.len() implies (next_event(
        #[trigger] harnesses[i],
    ) matches Some(event) && is_input_of(event, inputs[i].0, inputs[i].1)) by {
        ticks_go_through_the_events(harnesses, i);
        assert(is_input_of(harnesses[0].pending()[i], inputs[i].0, inputs[i].1));
    }
    ticks_go_through_the_events(harnesses, inputs.len() as int);
    ticks_go_through_the_events(harnesses, harnesses.len() - 1);
}

/// What a run to completion leaves of the events: those behind the first that ends it.
pub open spec fn after_last(events: Seq<TimedIncomingEvent>) -> Seq<TimedIncomingEvent>
    decreases events.len(),
{
    if events.len() == 0 {
        seq![]
    } else if events[0].event is Stop || events[0].event is InputClosed {
        events.drop_first()
    } else {
        after_last(events.drop_first())
    }
}

/// A run to completion leaves what is behind the first event that stops it or closes an input,
/// and nothing where there is none.
pub proof fn runs_end_at_the_first_end(events: Seq<TimedIncomingEvent>, n: int)
    requires
        0 <= n <= events.len(),
        forall|i: int|
            0 <= i < n ==> !((#[trigger] events[i]).event is Stop) && !(
            events[i].event is InputClosed),
        n < events.len() ==> events[n].event is Stop || events[n].event is InputClosed,
    ensures
        n < events.len() ==> after_last(events) == events.skip(n + 1),
        n == events.len() ==> after_last(events).len() == 0,
    decreases n,
{
    if n > 0 {
        let rest = events.drop_first();
        assert(forall|i: int| 0 <= i < rest.len() ==> #[trigger] rest[i] == events[i + 1]);
        assert(!(events[0].event is Stop) && !(events[0].event is InputClosed));
        runs_end_at_the_first_end(rest, n - 1);
        if n < events.len() {
            assert(rest.skip(n) =~= events.skip(n + 1));
        }
    } else if events.len() > 0 {
        assert(events.skip(1) =~= events.drop_first());
    }
}

impl NodeHarness {
    /// Give what the node is to be created with, if it has not been created yet: all the
    /// buffered events, none of which will be given again. A node is created once: after
    /// that nothing changes. Events that came later than that could never be delivered, which
    /// [`check_deliverable`](Self::check_deliverable) tells.
    pub fn ensure_init(&mut self) -> (r: Option<Startup>)
        requires
            old(self).valid(),
            old(self).is_started() ==> old(self).pending().len() == 0,
        ensures
            final(self).valid(),
            driven(*final(self)),
            starts_with(r, old(self).is_started(), old(self).pending()),
            final(self).ahead() == upcoming(*old(self)),
            r is Some <==> !old(self).is_started(),
            r matches Some(startup) ==> startup.events@ == old(self).pending()
                && startup.node_id@ == "test-node"@ && startup.skip_output_time_offsets,
            final(self).is_started() && final(self).pending().len() == 0,
            !old(self).is_started() ==> final(self).ahead() == old(self).pending(),
            old(self).is_started() ==> r is None && *final(self) == *old(self),
            forall|key: Seq<char>| #[trigger] final(self).buffered(key) == old(self).buffered(key),
    {
        if self.started {
            return None;
        }
        let mut events: Vec<TimedIncomingEvent> = Vec::new();
        std::mem::swap(&mut events, &mut self.pending_events);
        self.started = true;
        self.stream = Ghost(events@);
        Some(Startup { node_id: "test-node".to_owned(), events, skip_output_time_offsets: true })
    }

    /// Prepare to drive the node by one event: give what it is to be created with, if it
    /// has not been created yet. The driver then receives one event, which is the next of
    /// those that the node was created with, and hands in the outputs that the node produced
    /// with [`collect_pending_outputs`](Self::collect_pending_outputs).
    pub fn tick(&mut self) -> (r: Option<Startup>)
        requires
            old(self).valid(),
            old(self).is_started() ==> old(self).pending().len() == 0,
        ensures
            final(self).valid(),
            driven(*final(self)),
            starts_with(r, old(self).is_started(), old(self).pending()),
            ticked(*old(self), *final(self)),
            r is Some <==> !old(self).is_started(),
            r matches Some(startup) ==> startup.events@ == old(self).pending()
                && startup.node_id@ == "test-node"@ && startup.skip_output_time_offsets,
            final(self).is_started() && final(self).pending().len() == 0,
            ({
                let events = if old(self).is_started() {
                    old(self).ahead()
                } else {
                    old(self).pending()
                };
                final(self).ahead() == events.skip(if events.len() > 0 {
                    1
                } else {
                    0
                })
            }),
            forall|key: Seq<char>| #[trigger] final(self).buffered(key) == old(self).buffered(key),
    {
        let startup = self.ensure_init();
        let ghost events = self.stream@;
        let ghost created = *self;
        self.stream =
        Ghost(
            if events.len() > 0 {
                events.drop_first()
            } else {
                events
            },
        );
        assert(forall|key: Seq<char>| #[trigger] self.buffered(key) == created.buffered(key));
        assert(events.skip(0) =~= events);
        assert(events.len() > 0 ==> events.skip(1) =~= events.drop_first());
        startup
    }

    /// Prepare to send an output from the node under test: check the output ID, and give
    /// what the node is to be created with, if it has not been created yet. A refused
    /// request leaves the harness as it was.
    pub fn send_output(&mut self, output_id: &str) -> (r: Result<Option<Startup>, HarnessError>)
        requires
            old(self).valid(),
            valid_id(output_id@) && old(self).is_started() ==> old(self).pending().len() == 0,
        ensures
            final(self).valid(),
            forall|key: Seq<char>| #[trigger] final(self).buffered(key) == old(self).buffered(key),
            match r {
                Ok(startup) => valid_id(output_id@) && driven(*final(self)) && final(self).ahead()
                    == upcoming(*old(self)) && starts_with(
                    startup,
                    old(self).is_started(),
                    old(self).pending(),
                ) && (startup is Some <==> !old(self).is_started()) && (startup matches Some(s)
                    ==> s.events@ == old(self).pending()),
                Err(e) => {
                    &&& *final(self) == *old(self)
                    &&& e matches HarnessError::InvalidOutputId { output_id: id, reason } && id@
                        == output_id@ && id_complaint(output_id@) == Some(reason@)
                },
            },
            r is Ok <==> valid_id(output_id@),
    {
        match parse_data_id(output_id) {
            Ok(_) => Ok(self.ensure_init()),
            Err(reason) => Err(
                HarnessError::InvalidOutputId { output_id: output_id.to_owned(), reason },
            ),
        }
    }

    /// Prepare to run the node to completion: give what it is to be created with, if it has
    /// not been created yet, with a stop event added at the end. A node that has been
    /// created can be given no further event. The driver then receives events into a
    /// [`Completion`].
    pub fn run_to_completion(&mut self) -> (r: Option<Startup>)
        requires
            old(self).valid(),
            old(self).is_started() ==> old(self).pending().len() == 0,
        ensures
            final(self).valid(),
            driven(*final(self)),
            r is Some <==> !old(self).is_started(),
            r matches Some(startup) ==> {
                &&& startup.node_id@ == "test-node"@
                &&& startup.skip_output_time_offsets
                &&& startup.events@.len() == old(self).pending().len() + 1
                &&& startup.events@.drop_last() == old(self).pending()
                &&& startup.events@.last().event is Stop
                &&& startup.events@.last().time_offset_bits == 0
            },
            final(self).is_started() && final(self).pending().len() == 0,
            starts_with(
                r,
                old(self).is_started(),
                old(self).pending().push(
                    (TimedIncomingEvent { time_offset_bits: 0, event: IncomingEvent::Stop }),
                ),
            ),
            final(self).ahead() == after_last(
                if old(self).is_started() {
                    old(self).ahead()
                } else {
                    old(self).pending().push(
                        (TimedIncomingEvent { time_offset_bits: 0, event: IncomingEvent::Stop }),
                    )
                },
            ),
            forall|key: Seq<char>| #[trigger] final(self).buffered(key) == old(self).buffered(key),
    {
        if !self.started {
            self.send_stop();
        }
        let startup = self.ensure_init();
        let ghost events = self.stream@;
        let ghost created = *self;
        self.stream = Ghost(after_last(events));
        proof {
            if startup is Some {
                assert(startup->Some_0.events@.drop_last() =~= old(self).pending());
            }
        }
        assert(forall|key: Seq<char>| #[trigger] self.buffered(key) == created.buffered(key));
        startup
    }
}

/// The events of a stream up to and with the first that ends a run.
pub open spec fn up_to_last<E>(stream: Seq<(E, EventKind)>) -> Seq<E>
    decreases stream.len(),
{
    if stream.len() == 0 {
        seq![]
    } else if stream[0].1.ends_run() {
        seq![stream[0].0]
    } else {
        seq![stream[0].0] + up_to_last(stream.drop_first())
    }
}

/// Whether a stream holds an event that ends a run.
pub open spec fn has_last<E>(stream: Seq<(E, EventKind)>) -> bool {
    exists|i: int| 0 <= i < stream.len() && (#[trigger] stream[i]).1.ends_run()
}

/// What comes after an event that ends a run makes no difference to it.
pub proof fn events_after_the_last_are_ignored<E>(
    stream: Seq<(E, EventKind)>,
    rest: Seq<(E, EventKind)>,
)
    requires
        has_last(stream),
    ensures
        up_to_last(stream + rest) == up_to_last(stream),
    decreases stream.len(),
{
    assert((stream + rest)[0] == stream[0]);
    if !stream[0].1.ends_run() {
        let i = choose|i: int| 0 <= i < stream.len() && (#[trigger] stream[i]).1.ends_run();
        assert(stream.drop_first()[i - 1] == stream[i]);
        assert((stream + rest).drop_first() =~= stream.drop_first() + rest);
        events_after_the_last_are_ignored(stream.drop_first(), rest);
    }
}

/// A stream without an event that ends a run is processed whole, and one with such an event
/// is processed as far as its first one.
pub proof fn run_covers_the_stream<E>(stream: Seq<(E, EventKind)>)
    ensures
        up_to_last(stream).len() <= stream.len(),
        forall|i: int|
            0 <= i < up_to_last(stream).len() ==> #[trigger] up_to_last(stream)[i] == stream[i].0,
        forall|i: int|
            0 <= i < up_to_last(stream).len() - 1 ==> !(#[trigger] stream[i]).1.ends_run(),
        if has_last(stream) {
            up_to_last(stream).len() > 0 && stream[up_to_last(stream).len() - 1].1.ends_run()
        } else {
            up_to_last(stream).len() == stream.len()
        },
    decreases stream.len(),
{
    if stream.len() > 0 && !stream[0].1.ends_run() {
        let rest = stream.drop_first();
        run_covers_the_stream(rest);
        let inner = up_to_last(rest);
        assert(up_to_last(stream) == seq![stream[0].0] + inner);
        assert forall|i: int| 0 <= i < up_to_last(stream).len() implies #[trigger] up_to_last(
            stream,
        )[i] == stream[i].0 by {
            if i > 0 {
                assert(inner[i - 1] == rest[i - 1].0);
            }
        }
        assert forall|i: int| 0 <= i < up_to_last(stream).len() - 1 implies !(
        #[trigger] stream[i]).1.ends_run() by {
            if i > 0 {
                assert(rest[i - 1] == stream[i]);
            }
        }
        if has_last(stream) {
            let i = choose|i: int| 0 <= i < stream.len() && (#[trigger] stream[i]).1.ends_run();
            assert(rest[i - 1] == stream[i]);
            assert(has_last(rest));
            assert(rest[inner.len() - 1] == stream[inner.len() as int]);
        } else {
            assert(!has_last(rest)) by {
                if has_last(rest) {
                    let i = choose|i: int| 0 <= i < rest.len() && (#[trigger] rest[i]).1.ends_run();
                    assert(stream[i + 1] == rest[i]);
                }
            }
        }
    }
}

/// The events of a run to completion, as they are received.
pub struct Completion<E> {
    events: Vec<E>,
    over: bool,
    stream: Ghost<Seq<(E, EventKind)>>,
}

impl<E> Completion<E> {
    /// The events received so far, with their kinds.
    pub closed spec fn received(self) -> Seq<(E, EventKind)> {
        self.stream@
    }

    /// Whether what is held is what has been received, and nothing after the event that
    /// ends the run.
    pub closed spec fn valid(self) -> bool {
        &&& self.events@ == up_to_last(self.stream@)
        &&& self.over == has_last(self.stream@)
    }

    /// A run that has received nothing yet.
    pub fn new() -> (r: Self)
        ensures
            r.valid(),
            r.received() == Seq::<(E, EventKind)>::empty(),
    {
        Completion { events: Vec::new(), over: false, stream: Ghost(Seq::empty()) }
    }

    /// Whether the run has received the event that ends it.
    pub fn is_over(&self) -> (r: bool)
        requires
            self.valid(),
        ensures
            r == has_last(self.received()),
            r <==> exists|i: int|
                0 <= i < self.received().len() && ((#[trigger] self.received()[i]).1
                    == EventKind::Stop || self.received()[i].1 == EventKind::InputClosed),
    {
        self.over
    }

    /// Take in the next event.
    pub fn receive(&mut self, event: E, kind: EventKind)
        requires
            old(self).valid(),
            !has_last(old(self).received()),
        ensures
            final(self).valid(),
            final(self).received() == old(self).received().push((event, kind)),
    {
        let ghost before = self.stream@;
        proof {
            self.stream@ = before.push((event, kind));
            run_covers_the_stream(before);
            run_covers_the_stream(self.stream@);
            let after = self.stream@;
            assert(after[before.len() as int] == (event, kind));
            assert(has_last(after) ==> kind.ends_run()) by {
                if has_last(after) {
                    let i = choose|i: int|
                        0 <= i < after.len() && (#[trigger] after[i]).1.ends_run();
                    if i < before.len() {
                        assert(before[i] == after[i]);
                    }
                }
            }
            assert(kind.ends_run() ==> has_last(after));
            assert(up_to_last(after).len() == after.len()) by {
                if has_last(after) {
                    let n = up_to_last(after).len() - 1;
                    if n < before.len() {
                        assert(before[n] == after[n]);
                    }
                }
            }
            assert(up_to_last(after) =~= up_to_last(before).push(event)) by {
                assert forall|i: int| 0 <= i < before.len() implies up_to_last(after)[i]
                    == up_to_last(before)[i] by {
                    assert(before[i] == after[i]);
                }
            }
        }
        self.events.push(event);
        if kind.is_last() {
            self.over = true;
        }
    }

    /// All events processed during the run, up to and with the first that ends it.
    pub fn into_events(self) -> (r: Vec<E>)
        requires
            self.valid(),
        ensures
            r@ == up_to_last(self.received()),
            r@.len() <= self.received().len(),
            forall|i: int| 0 <= i < r@.len() ==> #[trigger] r@[i] == self.received()[i].0,
            forall|i: int|
                0 <= i < r@.len() - 1 ==> (#[trigger] self.received()[i]).1 != EventKind::Stop
                    && self.received()[i].1 != EventKind::InputClosed,
            r@.len() < self.received().len() ==> r@.len() > 0 && (self.received()[r@.len() - 1].1
                == EventKind::Stop || self.received()[r@.len() - 1].1 == EventKind::InputClosed),
    {
        proof {
            run_covers_the_stream(self.received());
        }
        self.events
    }
}

} // verus!
