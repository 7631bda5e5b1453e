//! Per-topic batching of telemetry records with ordering-anomaly detection.
//!
//! A [`Stream`] owns the current [`Buffer`] (the batch being filled) for one
//! topic.  Every appended record is checked against the previously seen
//! sequence number and timestamp; regressions are recorded in the batch's
//! anomaly ledger but never rejected.  When the batch reaches the configured
//! size it is swapped out atomically and handed to the outbound channel.

use vstd::prelude::*;
use vstd::string::StrSliceExecFns;
use vstd::string::StringExecFns;

use crate::decimal::{append_dec_u64, dec_chars};
use crate::ANOMALY_TEXT_CAP;

verus! {

/// Advisory idle-flush interval in seconds; the core itself does not enforce
/// it.
pub const DEFAULT_TIMEOUT: u64 = 60;

/// One dynamically typed leaf of a record's payload document.
#[derive(Debug, PartialEq, Eq)]
pub enum FieldValue {
    U64(u64),
    I64(i64),
    Bool(bool),
    Str(String),
}

impl Clone for FieldValue {
    fn clone(&self) -> (res: Self)
        ensures
            res == *self,
    {
        match self {
            FieldValue::U64(n) => FieldValue::U64(*n),
            FieldValue::I64(n) => FieldValue::I64(*n),
            FieldValue::Bool(b) => FieldValue::Bool(*b),
            FieldValue::Str(s) => FieldValue::Str(s.clone()),
        }
    }
}

/// The mathematical shape of one payload leaf: strings become character
/// sequences.
pub enum ValueModel {
    U64(u64),
    I64(i64),
    Bool(bool),
    Str(Seq<char>),
}

/// The mathematical shape of one record as it travels the wire: the `stream`
/// name is excluded, since it is never serialized with the record.
pub struct RecordModel {
    pub sequence: u32,
    pub timestamp: u64,
    pub fields: Seq<(Seq<char>, ValueModel)>,
}

/// One timestamped telemetry reading with an open key/value payload document.
#[derive(Debug, Default, PartialEq, Eq)]
pub struct Payload {
    /// Name of the stream the reading belongs to; not serialized with the
    /// record itself.
    pub stream: String,
    pub sequence: u32,
    pub timestamp: u64,
    /// Open, ordered key/value document carried by the reading.
    pub payload: Vec<(String, FieldValue)>,
}

/// The model of one payload leaf.
pub open spec fn value_model(v: FieldValue) -> ValueModel {
    match v {
        FieldValue::U64(n) => ValueModel::U64(n),
        FieldValue::I64(n) => ValueModel::I64(n),
        FieldValue::Bool(b) => ValueModel::Bool(b),
        FieldValue::Str(s) => ValueModel::Str(s@),
    }
}

/// The model of a payload document.
pub open spec fn fields_model(fs: Seq<(String, FieldValue)>) -> Seq<(Seq<char>, ValueModel)> {
    fs.map(|i: int, kv: (String, FieldValue)| (kv.0@, value_model(kv.1)))
}

impl Payload {
    /// The wire-relevant content of this record, with the `stream` name
    /// dropped.
    pub open spec fn model(&self) -> RecordModel {
        RecordModel {
            sequence: self.sequence,
            timestamp: self.timestamp,
            fields: fields_model(self.payload@),
        }
    }
}

/// The models of a whole batch of records, in order.
pub open spec fn records_model(s: Seq<Payload>) -> Seq<RecordModel> {
    s.map(|i: int, p: Payload| p.model())
}

impl Clone for Payload {
    fn clone(&self) -> (res: Self)
        ensures
            res.stream == self.stream,
            res.sequence == self.sequence,
            res.timestamp == self.timestamp,
            res.payload@ == self.payload@,
    {
        let mut payload: Vec<(String, FieldValue)> = Vec::new();
        let mut i: usize = 0;
        while i < self.payload.len()
            invariant
                i <= self.payload.len(),
                payload@ =~= self.payload@.subrange(0, i as int),
            decreases self.payload.len() - i,
        {
            let kv: &(String, FieldValue) = &self.payload[i];
            payload.push((kv.0.clone(), kv.1.clone()));
            i = i + 1;
        }
        proof {
            assert(payload@ =~= self.payload@);
        }
        Payload {
            stream: self.stream.clone(),
            sequence: self.sequence,
            timestamp: self.timestamp,
            payload,
        }
    }
}

/// Record interface presented to external producers.
pub trait Point {
    fn sequence(&self) -> u32;

    fn timestamp(&self) -> u64;
}

/// Batch interface presented to consumers: enough to route, serialize and
/// report a full batch.
pub trait Package {
    fn topic(&self) -> String;

    fn serialize(&self) -> Result<Vec<u8>, crate::serialization::Error>;

    fn anomalies(&self) -> Option<(String, usize)>;
}

impl Point for Payload {
    /// The record's sequence number.
    fn sequence(&self) -> (r: u32)
        ensures
            r == self.sequence,
    {
        self.sequence
    }

    /// The record's timestamp.
    fn timestamp(&self) -> (r: u64)
        ensures
            r == self.timestamp,
    {
        self.timestamp
    }
}

/// Configuration of the external telemetry producer.
#[derive(Debug, Clone, Default)]
pub struct SimulatorConfig {
    /// Number of devices to be simulated.
    pub num_devices: u32,
    /// Path to the directory of recorded position traces used in simulation.
    pub gps_paths: String,
}

/// An accumulated, ordered group of records for one topic, together with its
/// anomaly ledger.  Flushed as a unit.
#[derive(Debug)]
pub struct Buffer<T> {
    pub stream: String,
    pub topic: String,
    pub buffer: Vec<T>,
    /// Human-readable anomaly descriptions, capped at [`ANOMALY_TEXT_CAP`]
    /// characters.
    pub anomalies: String,
    /// Total number of anomalies seen, including those no longer rendered
    /// into `anomalies`.
    pub anomaly_count: usize,
}

/// The ledger text that results from appending `msg`: once the text has
/// reached the cap it stops growing, though anomalies are still counted.
pub open spec fn ledger_text_after(text: Seq<char>, msg: Seq<char>) -> Seq<char> {
    if text.len() >= ANOMALY_TEXT_CAP {
        text
    } else {
        text + msg
    }
}

/// The description recorded for a sequence-number anomaly.
pub open spec fn seq_anomaly_msg(stream: Seq<char>, last: u32, current: u32) -> Seq<char> {
    stream + ".sequence: "@ + dec_chars(last as nat) + ", "@ + dec_chars(current as nat)
}

/// The description recorded for a timestamp anomaly.
pub open spec fn ts_anomaly_msg(last: u64, current: u64) -> Seq<char> {
    "timestamp: "@ + dec_chars(last as nat) + ", "@ + dec_chars(current as nat)
}

impl<T> Buffer<T> {
    pub fn new(stream: String, topic: String) -> (r: Buffer<T>)
        ensures
            r.stream == stream,
            r.topic == topic,
            r.buffer@ == Seq::<T>::empty(),
            r.anomalies@ == Seq::<char>::empty(),
            r.anomaly_count == 0,
    {
        Buffer {
            stream,
            topic,
            buffer: Vec::new(),
            anomalies: String::new(),
            anomaly_count: 0,
        }
    }

    /// Counts a sequence-number regression and, while the ledger text is
    /// under its cap, renders `last` and `current` into it.
    pub fn add_sequence_anomaly(&mut self, last: u32, current: u32)
        requires
            old(self).anomaly_count < usize::MAX,
        ensures
            final(self).stream == old(self).stream,
            final(self).topic == old(self).topic,
            final(self).buffer == old(self).buffer,
            final(self).anomaly_count == old(self).anomaly_count + 1,
            final(self).anomalies@ == ledger_text_after(
                old(self).anomalies@,
                seq_anomaly_msg(old(self).stream@, last, current),
            ),
    {
        self.anomaly_count = self.anomaly_count + 1;
        if self.anomalies.as_str().unicode_len() >= ANOMALY_TEXT_CAP {
            return ;
        }
        let mut error: String = self.stream.clone();
        error.append(".sequence: ");
        append_dec_u64(&mut error, last as u64);
        error.append(", ");
        append_dec_u64(&mut error, current as u64);
        self.anomalies.append(error.as_str());
        proof {
            assert(final(self).anomalies@ =~= ledger_text_after(
                old(self).anomalies@,
                seq_anomaly_msg(old(self).stream@, last, current),
            ));
        }
    }

    /// Counts a timestamp regression and, while the ledger text is under its
    /// cap, renders `last` and `current` into it.
    pub fn add_timestamp_anomaly(&mut self, last: u64, current: u64)
        requires
            old(self).anomaly_count < usize::MAX,
        ensures
            final(self).stream == old(self).stream,
            final(self).topic == old(self).topic,
            final(self).buffer == old(self).buffer,
            final(self).anomaly_count == old(self).anomaly_count + 1,
            final(self).anomalies@ == ledger_text_after(
                old(self).anomalies@,
                ts_anomaly_msg(last, current),
            ),
    {
        self.anomaly_count = self.anomaly_count + 1;
        if self.anomalies.as_str().unicode_len() >= ANOMALY_TEXT_CAP {
            return ;
        }
        let mut error: String = String::from_str("timestamp: ");
        append_dec_u64(&mut error, last);
        error.append(", ");
        append_dec_u64(&mut error, current);
        self.anomalies.append(error.as_str());
        proof {
            reveal_strlit("timestamp: ");
            assert(final(self).anomalies@ =~= ledger_text_after(
                old(self).anomalies@,
                ts_anomaly_msg(last, current),
            ));
        }
    }

    /// The ledger, if any anomaly text was recorded: the rendered text and
    /// the full count.
    pub fn anomalies(&self) -> (r: Option<(String, usize)>)
        ensures
            self.anomalies@.len() == 0 <==> r is None,
            (r matches Some(p) ==> p.0 == self.anomalies && p.1 == self.anomaly_count),
    {
        if self.anomalies.as_str().unicode_len() == 0 {
            return None;
        }
        Some((self.anomalies.clone(), self.anomaly_count))
    }
}

impl Package for Buffer<Payload> {
    /// The batch's topic.
    fn topic(&self) -> (r: String)
        ensures
            r@ == self.topic@,
    {
        self.topic.clone()
    }

    /// The batch's records in the text wire form: exactly the rendering of
    /// the records, whenever the text format can carry them.
    fn serialize(&self) -> (r: Result<Vec<u8>, crate::serialization::Error>)
        ensures
            crate::serialization::text::valid_records(records_model(self.buffer@)) ==> (r matches
                Ok(v) && v@ == crate::serialization::text::json_of_records(
                records_model(self.buffer@),
            )),
            !crate::serialization::text::valid_records(records_model(self.buffer@)) ==> r is Err,
    {
        crate::serialization::text::serialize_records(&self.buffer)
    }

    /// The batch's anomaly ledger, if any text was recorded: the rendered
    /// text and the full count, exactly when the text is nonempty.
    fn anomalies(&self) -> (r: Option<(String, usize)>)
        ensures
            self.anomalies@.len() == 0 <==> r is None,
            (r matches Some(p) ==> p.0 == self.anomalies && p.1 == self.anomaly_count),
    {
        self.anomalies()
    }
}

#[verifier::external_type_specification]
#[verifier::external_body]
#[verifier::reject_recursive_types(T)]
pub struct ExSender<T>(flume::Sender<T>);

/// Failure to hand a full batch to the outbound channel: every receiver is
/// gone, so the producer for this stream must stop.  Carries the batch back.
#[derive(Debug)]
pub enum Error {
    Send(Buffer<Payload>),
}

/// Relies on flume::Sender::send: the value is delivered to the channel, or
/// handed back inside the error when all receivers have been dropped.  Blocks
/// while a bounded channel is full (backpressure).
#[verifier::external_body]
fn channel_send(tx: &flume::Sender<Buffer<Payload>>, b: Buffer<Payload>) -> (r: Result<
    (),
    Buffer<Payload>,
>)
    ensures
        r matches Err(e) ==> e == b,
{
    match tx.send(b) {
        Ok(()) => Ok(()),
        Err(e) => Err(e.0),
    }
}

/// Relies on flume's `Clone for Sender`: the clone feeds the same channel.
#[verifier::external_body]
fn channel_sender_clone(tx: &flume::Sender<Buffer<Payload>>) -> flume::Sender<Buffer<Payload>> {
    tx.clone()
}

/// The per-topic append/flush state machine: owns the batch being filled and
/// the last-seen sequence number and timestamp used for anomaly detection.
#[derive(Debug)]
pub struct Stream {
    pub name: String,
    pub topic: String,
    pub last_sequence: u32,
    pub last_timestamp: u64,
    pub max_buffer_size: usize,
    pub buffer: Buffer<Payload>,
    pub tx: flume::Sender<Buffer<Payload>>,
    /// Advisory idle-flush interval in seconds, not enforced by the core.
    pub flush_period: u64,
}

impl Stream {
    /// The current batch belongs to this stream, and its length stays under
    /// the flush threshold between calls (it is zero right after a flush).
    pub open spec fn wf(self) -> bool {
        &&& self.buffer.stream == self.name
        &&& self.buffer.topic == self.topic
        &&& (self.buffer.buffer@.len() == 0 || self.buffer.buffer@.len() < self.max_buffer_size)
    }

    /// Whether appending `data` records a sequence anomaly: a sequence number
    /// not above the last one seen.  This fires for a very first record with
    /// sequence 0 as well, since tracking starts at 0.
    pub open spec fn detects_seq_anomaly(self, data: Payload) -> bool {
        data.sequence <= self.last_sequence
    }

    /// Whether appending `data` records a timestamp anomaly: a timestamp
    /// strictly below the last one seen.
    pub open spec fn detects_ts_anomaly(self, data: Payload) -> bool {
        data.timestamp < self.last_timestamp
    }

    /// The anomaly text of the current batch after appending `data`.
    pub open spec fn text_after_add(self, data: Payload) -> Seq<char> {
        let t = if self.detects_seq_anomaly(data) {
            ledger_text_after(
                self.buffer.anomalies@,
                seq_anomaly_msg(self.buffer.stream@, self.last_sequence, data.sequence),
            )
        } else {
            self.buffer.anomalies@
        };
        if self.detects_ts_anomaly(data) {
            ledger_text_after(t, ts_anomaly_msg(self.last_timestamp, data.timestamp))
        } else {
            t
        }
    }

    /// The anomaly count of the current batch after appending `data`.
    pub open spec fn count_after_add(self, data: Payload) -> int {
        self.buffer.anomaly_count + (if self.detects_seq_anomaly(data) {
            1int
        } else {
            0int
        }) + (if self.detects_ts_anomaly(data) {
            1int
        } else {
            0int
        })
    }

    /// Everything of the stream except the batch and the anomaly tracking is
    /// kept as it was.
    pub open spec fn config_unchanged(self, o: Stream) -> bool {
        &&& self.name == o.name
        &&& self.topic == o.topic
        &&& self.max_buffer_size == o.max_buffer_size
        &&& self.tx == o.tx
        &&& self.flush_period == o.flush_period
    }

    pub fn new(stream: String, topic: String, max_buffer_size: usize, tx: flume::Sender<
        Buffer<Payload>,
    >) -> (r: Stream)
        ensures
            r.name == stream,
            r.topic == topic,
            r.last_sequence == 0,
            r.last_timestamp == 0,
            r.max_buffer_size == max_buffer_size,
            r.tx == tx,
            r.flush_period == DEFAULT_TIMEOUT,
            r.buffer.buffer@ == Seq::<Payload>::empty(),
            r.buffer.anomalies@ == Seq::<char>::empty(),
            r.buffer.anomaly_count == 0,
            r.wf(),
    {
        let name: String = stream;
        let topic_moved: String = topic;
        let buffer_name: String = name.clone();
        let buffer_topic: String = topic_moved.clone();
        let buffer: Buffer<Payload> = Buffer::new(buffer_name, buffer_topic);
        Stream {
            name,
            topic: topic_moved,
            last_sequence: 0,
            last_timestamp: 0,
            max_buffer_size,
            buffer,
            tx,
            flush_period: DEFAULT_TIMEOUT,
        }
    }

    /// Appends `data` to the current batch, runs anomaly detection (which
    /// never rejects data), and, when the batch reaches the flush threshold,
    /// swaps it out for a fresh empty one and returns it as ready to flush.
    pub fn add(&mut self, data: Payload) -> (r: Result<Option<Buffer<Payload>>, Error>)
        requires
            old(self).wf(),
            old(self).buffer.buffer@.len() < usize::MAX,
            old(self).buffer.anomaly_count + 2 <= usize::MAX,
        ensures
            final(self).wf(),
            r is Ok,
            final(self).config_unchanged(*old(self)),
            final(self).last_sequence == data.sequence,
            final(self).last_timestamp == data.timestamp,
            old(self).buffer.buffer@.len() + 1 >= old(self).max_buffer_size ==> {
                &&& (r matches Ok(b) && b matches Some(b))
                &&& ({
                    let b = r->Ok_0->Some_0;
                    &&& b.buffer@ == old(self).buffer.buffer@.push(data)
                    &&& b.stream == old(self).name
                    &&& b.topic == old(self).topic
                    &&& b.anomalies@ == old(self).text_after_add(data)
                    &&& b.anomaly_count == old(self).count_after_add(data)
                })
                &&& final(self).buffer.buffer@ == Seq::<Payload>::empty()
                &&& final(self).buffer.anomalies@ == Seq::<char>::empty()
                &&& final(self).buffer.anomaly_count == 0
            },
            old(self).buffer.buffer@.len() + 1 < old(self).max_buffer_size ==> {
                &&& (r matches Ok(b) && b is None)
                &&& final(self).buffer.buffer@ == old(self).buffer.buffer@.push(data)
                &&& final(self).buffer.anomalies@ == old(self).text_after_add(data)
                &&& final(self).buffer.anomaly_count == old(self).count_after_add(data)
            },
    {
        let current_sequence: u32 = data.sequence;
        let current_timestamp: u64 = data.timestamp;

        self.buffer.buffer.push(data);

        if current_sequence <= self.last_sequence {
            let last: u32 = self.last_sequence;
            self.buffer.add_sequence_anomaly(last, current_sequence);
        }

        if current_timestamp < self.last_timestamp {
            let last: u64 = self.last_timestamp;
            self.buffer.add_timestamp_anomaly(last, current_timestamp);
        }

        self.last_sequence = current_sequence;
        self.last_timestamp = current_timestamp;

        let buf: Option<Buffer<Payload>> = if self.buffer.buffer.len() >= self.max_buffer_size {
            Some(self.take_buffer())
        } else {
            None
        };

        Ok(buf)
    }

    /// Swaps the current batch for a fresh empty one in a single move and
    /// returns the old batch, so no append can land in between.
    pub fn take_buffer(&mut self) -> (r: Buffer<Payload>)
        ensures
            r == old(self).buffer,
            final(self).config_unchanged(*old(self)),
            final(self).last_sequence == old(self).last_sequence,
            final(self).last_timestamp == old(self).last_timestamp,
            final(self).buffer.stream == old(self).name,
            final(self).buffer.topic == old(self).topic,
            final(self).buffer.buffer@ == Seq::<Payload>::empty(),
            final(self).buffer.anomalies@ == Seq::<char>::empty(),
            final(self).buffer.anomaly_count == 0,
    {
        let name: String = self.name.clone();
        let topic: String = self.topic.clone();
        let mut fresh: Buffer<Payload> = Buffer::new(name, topic);
        core::mem::swap(&mut self.buffer, &mut fresh);
        fresh
    }

    /// Appends `data` and, when a batch became ready, hands it to the
    /// outbound channel; blocks while the channel is full.  Failure to send
    /// is fatal for this stream: the batch comes back inside the error and
    /// the producer must stop feeding the stream.
    pub fn fill(&mut self, data: Payload) -> (r: Result<(), Error>)
        requires
            old(self).wf(),
            old(self).buffer.buffer@.len() < usize::MAX,
            old(self).buffer.anomaly_count + 2 <= usize::MAX,
        ensures
            final(self).wf(),
            final(self).config_unchanged(*old(self)),
            final(self).last_sequence == data.sequence,
            final(self).last_timestamp == data.timestamp,
            old(self).buffer.buffer@.len() + 1 < old(self).max_buffer_size ==> {
                &&& r is Ok
                &&& final(self).buffer.buffer@ == old(self).buffer.buffer@.push(data)
                &&& final(self).buffer.anomalies@ == old(self).text_after_add(data)
                &&& final(self).buffer.anomaly_count == old(self).count_after_add(data)
            },
            old(self).buffer.buffer@.len() + 1 >= old(self).max_buffer_size ==> {
                &&& final(self).buffer.buffer@ == Seq::<Payload>::empty()
                &&& final(self).buffer.anomalies@ == Seq::<char>::empty()
                &&& final(self).buffer.anomaly_count == 0
                &&& (r matches Err(e) ==> {
                    let Error::Send(b) = e;
                    &&& b.buffer@ == old(self).buffer.buffer@.push(data)
                    &&& b.anomalies@ == old(self).text_after_add(data)
                    &&& b.anomaly_count == old(self).count_after_add(data)
                })
            },
    {
        match self.add(data) {
            Ok(Some(buf)) => {
                match channel_send(&self.tx, buf) {
                    Ok(()) => Ok(()),
                    Err(b) => Err(Error::Send(b)),
                }
            },
            Ok(None) => Ok(()),
            Err(e) => Err(e),
        }
    }
}

impl Clone for Stream {
    /// A clone shares the outbound channel but starts its own anomaly
    /// tracking and a fresh empty batch; used only to fan out configuration.
    fn clone(&self) -> (res: Self)
        ensures
            res.name == self.name,
            res.topic == self.topic,
            res.last_sequence == 0,
            res.last_timestamp == 0,
            res.max_buffer_size == self.max_buffer_size,
            res.flush_period == self.flush_period,
            res.buffer.stream == self.buffer.stream,
            res.buffer.topic == self.buffer.topic,
            res.buffer.buffer@ == Seq::<Payload>::empty(),
            res.buffer.anomalies@ == Seq::<char>::empty(),
            res.buffer.anomaly_count == 0,
    {
        Stream {
            name: self.name.clone(),
            topic: self.topic.clone(),
            last_sequence: 0,
            last_timestamp: 0,
            max_buffer_size: self.max_buffer_size,
            buffer: Buffer::new(self.buffer.stream.clone(), self.buffer.topic.clone()),
            tx: channel_sender_clone(&self.tx),
            flush_period: self.flush_period,
        }
    }
}

} // verus!
