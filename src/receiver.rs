//! The producer stream protocol as a state machine: a descriptor naming the
//! flight, then a schema, then record-batch bodies. Decoding the schema and
//! the bodies is left to the caller; this decides, frame by frame, what the
//! frame means and what to do with it.
use vstd::prelude::*;

use crate::batch::Metadata;

verus! {

/// The IPC message a frame's header holds.
#[derive(Debug, Clone, Copy, PartialEq, Eq, Structural)]
pub enum FrameMessage {
    /// The header is empty.
    NoHeader,
    /// A schema message.
    Schema,
    /// A record-batch message; its body may be empty (a batch of no rows).
    RecordBatch,
    /// A dictionary-batch message, interleaved between record batches.
    DictionaryBatch,
    /// A header that is not a readable IPC message.
    Unreadable,
}

/// What the receiver knows of a frame: the descriptor path it carries, if
/// any, and which message its header holds.
#[derive(Debug, Clone)]
pub struct FrameShape {
    pub descriptor_path: Option<Vec<String>>,
    pub message: FrameMessage,
}

#[derive(Debug, Clone)]
pub enum ReceiverState {
    AwaitDescriptor,
    AwaitSchema { flight: String },
    Rows { flight: String, next_buffer_id: u64 },
}

/// What to do with a frame.
#[derive(Debug, Clone)]
pub enum ReceiverAction {
    /// Nothing to do.
    Skip,
    /// Decode the header as the flight's schema and register the flight.
    RegisterSchema { flight: String },
    /// Decode the header as a schema and reject the stream if it differs from
    /// the one registered for the flight.
    CheckSchema { flight: String },
    /// Decode the frame as a dictionary for the batches that follow.
    AddDictionary,
    /// Decode the frame against the schema and hand the batch on with this metadata.
    EmitBatch { metadata: Metadata },
}

#[derive(Debug, Clone, Copy, PartialEq, Eq, Structural)]
pub enum ProtocolError {
    /// The descriptor's path is empty.
    EmptyDescriptorPath,
    /// The first frame carries no descriptor.
    MissingDescriptor,
    /// A data frame came before the schema.
    DataBeforeSchema,
    /// A frame's header is not a readable IPC message.
    UnreadableHeader,
    /// The stream has handed on as many batches as a buffer id can count.
    BufferIdExhausted,
}

/// Status class reported to the producer.
#[derive(Debug, Clone, Copy, PartialEq, Eq, Structural)]
pub enum StatusCode {
    InvalidArgument,
    FailedPrecondition,
    ResourceExhausted,
}

impl ProtocolError {
    pub fn status_code(&self) -> (r: StatusCode)
        ensures
            (r == StatusCode::FailedPrecondition) == (*self == ProtocolError::DataBeforeSchema),
            (r == StatusCode::ResourceExhausted) == (*self == ProtocolError::BufferIdExhausted),
    {
        match self {
            ProtocolError::EmptyDescriptorPath => StatusCode::InvalidArgument,
            ProtocolError::MissingDescriptor => StatusCode::InvalidArgument,
            ProtocolError::DataBeforeSchema => StatusCode::FailedPrecondition,
            ProtocolError::UnreadableHeader => StatusCode::InvalidArgument,
            ProtocolError::BufferIdExhausted => StatusCode::ResourceExhausted,
        }
    }
}

pub enum StateView {
    AwaitDescriptor,
    AwaitSchema(Seq<char>),
    Rows(Seq<char>, u64),
}

pub enum ActionView {
    Skip,
    Register(Seq<char>),
    CheckSchema(Seq<char>),
    AddDictionary,
    /// A batch handed on: its flight, service id and buffer id.
    Emit(Seq<char>, Seq<char>, u64),
}

/// A frame as (descriptor path, header message).
pub type FrameView = (Option<Seq<Seq<char>>>, FrameMessage);

impl View for FrameShape {
    type V = FrameView;

    open spec fn view(&self) -> FrameView {
        (
            match self.descriptor_path {
                Some(p) => Some(p@.map_values(|s: String| s@)),
                None => None,
            },
            self.message,
        )
    }
}

impl View for ReceiverState {
    type V = StateView;

    open spec fn view(&self) -> StateView {
        match self {
            ReceiverState::AwaitDescriptor => StateView::AwaitDescriptor,
            ReceiverState::AwaitSchema { flight } => StateView::AwaitSchema(flight@),
            ReceiverState::Rows { flight, next_buffer_id } => StateView::Rows(
                flight@,
                *next_buffer_id,
            ),
        }
    }
}

impl View for ReceiverAction {
    type V = ActionView;

    open spec fn view(&self) -> ActionView {
        match self {
            ReceiverAction::Skip => ActionView::Skip,
            ReceiverAction::RegisterSchema { flight } => ActionView::Register(flight@),
            ReceiverAction::CheckSchema { flight } => ActionView::CheckSchema(flight@),
            ReceiverAction::AddDictionary => ActionView::AddDictionary,
            ReceiverAction::EmitBatch { metadata } => ActionView::Emit(
                metadata.flight@,
                metadata.service_id@,
                metadata.buffer_id,
            ),
        }
    }
}

/// Whether a frame carries data: a record batch or a dictionary.
pub open spec fn is_data(m: FrameMessage) -> bool {
    m == FrameMessage::RecordBatch || m == FrameMessage::DictionaryBatch
}

/// State and action after a frame, once the flight is known and before its schema.
pub open spec fn after_descriptor(flight: Seq<char>, m: FrameMessage) -> Result<
    (StateView, ActionView),
    ProtocolError,
> {
    if m == FrameMessage::Schema {
        Ok((StateView::Rows(flight, 0), ActionView::Register(flight)))
    } else if is_data(m) {
        Err(ProtocolError::DataBeforeSchema)
    } else {
        Ok((StateView::AwaitSchema(flight), ActionView::Skip))
    }
}

/// What one frame does in state `s`.
pub open spec fn step_spec(s: StateView, f: FrameView) -> Result<
    (StateView, ActionView),
    ProtocolError,
> {
    let (path, m) = f;
    if m == FrameMessage::Unreadable {
        Err(ProtocolError::UnreadableHeader)
    } else {
        match s {
            StateView::AwaitDescriptor => match path {
                None => if is_data(m) {
                    Err(ProtocolError::DataBeforeSchema)
                } else {
                    Err(ProtocolError::MissingDescriptor)
                },
                Some(p) => if p.len() == 0 {
                    Err(ProtocolError::EmptyDescriptorPath)
                } else {
                    after_descriptor(p[0], m)
                },
            },
            StateView::AwaitSchema(flight) => after_descriptor(flight, m),
            StateView::Rows(flight, next) => if m == FrameMessage::RecordBatch {
                if next == u64::MAX {
                    Err(ProtocolError::BufferIdExhausted)
                } else {
                    Ok(
                        (
                            StateView::Rows(flight, (next + 1) as u64),
                            ActionView::Emit(flight, flight, next),
                        ),
                    )
                }
            } else if m == FrameMessage::DictionaryBatch {
                Ok((StateView::Rows(flight, next), ActionView::AddDictionary))
            } else if m == FrameMessage::Schema {
                Ok((StateView::Rows(flight, next), ActionView::CheckSchema(flight)))
            } else {
                Ok((StateView::Rows(flight, next), ActionView::Skip))
            },
        }
    }
}

/// State and actions after a sequence of frames; the first error ends the stream.
pub open spec fn run_spec(s: StateView, frames: Seq<FrameView>) -> Result<
    (StateView, Seq<ActionView>),
    ProtocolError,
>
    decreases frames.len(),
{
    if frames.len() == 0 {
        Ok((s, Seq::empty()))
    } else {
        match step_spec(s, frames[0]) {
            Err(e) => Err(e),
            Ok((s1, a)) => match run_spec(s1, frames.drop_first()) {
                Err(e) => Err(e),
                Ok((s2, acts)) => Ok((s2, seq![a] + acts)),
            },
        }
    }
}

/// One producer stream's protocol state.
pub struct FlightReceiver {
    state: ReceiverState,
}

impl FlightReceiver {
    pub closed spec fn state(&self) -> StateView {
        self.state@
    }

    pub fn new() -> (r: Self)
        ensures
            r.state() == StateView::AwaitDescriptor,
    {
        FlightReceiver { state: ReceiverState::AwaitDescriptor }
    }

    /// Decides what `frame` means; on a protocol error the state is unchanged
    /// and the stream is to be closed.
    pub fn on_frame(&mut self, frame: &FrameShape) -> (r: Result<ReceiverAction, ProtocolError>)
        ensures
            step_spec(old(self).state(), frame@) matches Ok((s, a)) ==> r is Ok && r->Ok_0@ == a
                && final(self).state() == s,
            step_spec(old(self).state(), frame@) matches Err(e) ==> r == Err::<
                ReceiverAction,
                ProtocolError,
            >(e) && final(self).state() == old(self).state(),
    {
        let m = frame.message;
        if m == FrameMessage::Unreadable {
            return Err(ProtocolError::UnreadableHeader);
        }
        let data = m == FrameMessage::RecordBatch || m == FrameMessage::DictionaryBatch;
        let flight = match &self.state {
            ReceiverState::AwaitDescriptor => match &frame.descriptor_path {
                None => {
                    if data {
                        return Err(ProtocolError::DataBeforeSchema);
                    }
                    return Err(ProtocolError::MissingDescriptor);
                },
                Some(p) => {
                    if p.len() == 0 {
                        return Err(ProtocolError::EmptyDescriptorPath);
                    }
                    p[0].clone()
                },
            },
            ReceiverState::AwaitSchema { flight } => flight.clone(),
            ReceiverState::Rows { flight, next_buffer_id } => {
                let next = *next_buffer_id;
                if m == FrameMessage::DictionaryBatch {
                    return Ok(ReceiverAction::AddDictionary);
                }
                if m == FrameMessage::Schema {
                    return Ok(ReceiverAction::CheckSchema { flight: flight.clone() });
                }
                if m == FrameMessage::NoHeader {
                    return Ok(ReceiverAction::Skip);
                }
                if next == u64::MAX {
                    return Err(ProtocolError::BufferIdExhausted);
                }
                let metadata = Metadata {
                    flight: flight.clone(),
                    buffer_id: next,
                    service_id: flight.clone(),
                };
                self.state = ReceiverState::Rows { flight: flight.clone(), next_buffer_id: next + 1 };
                return Ok(ReceiverAction::EmitBatch { metadata });
            },
        };
        if m == FrameMessage::Schema {
            self.state = ReceiverState::Rows { flight: flight.clone(), next_buffer_id: 0 };
            Ok(ReceiverAction::RegisterSchema { flight })
        } else if data {
            Err(ProtocolError::DataBeforeSchema)
        } else {
            self.state = ReceiverState::AwaitSchema { flight };
            Ok(ReceiverAction::Skip)
        }
    }
}

/// A frame that names `flight` and carries nothing else.
pub open spec fn descriptor_frame(flight: Seq<char>) -> FrameView {
    (Some(seq![flight]), FrameMessage::NoHeader)
}

/// A schema frame: a header and no body.
pub open spec fn schema_frame() -> FrameView {
    (None, FrameMessage::Schema)
}

/// A record-batch frame, whatever its body holds (none for a batch of no rows).
pub open spec fn body_frame() -> FrameView {
    (None, FrameMessage::RecordBatch)
}

/// A descriptor, a schema and one record batch, empty or not, yield exactly
/// one registration and exactly one batch handed on, for the named flight,
/// with the flight as service id and buffer id 0.
pub proof fn lemma_single_batch_stream(flight: Seq<char>)
    ensures
        run_spec(
            StateView::AwaitDescriptor,
            seq![descriptor_frame(flight), schema_frame(), body_frame()],
        ) == Ok::<(StateView, Seq<ActionView>), ProtocolError>(
            (
                StateView::Rows(flight, 1),
                seq![ActionView::Skip, ActionView::Register(flight), ActionView::Emit(flight, flight, 0)],
            ),
        ),
{
    let frames = seq![descriptor_frame(flight), schema_frame(), body_frame()];
    assert(frames.drop_first() =~= seq![schema_frame(), body_frame()]);
    assert(frames.drop_first().drop_first() =~= seq![body_frame()]);
    assert(frames.drop_first().drop_first().drop_first() =~= Seq::<FrameView>::empty());
    assert(seq![flight][0] == flight);
    let s1 = StateView::AwaitSchema(flight);
    let s2 = StateView::Rows(flight, 0);
    let s3 = StateView::Rows(flight, 1);
    assert(step_spec(StateView::AwaitDescriptor, descriptor_frame(flight)) == Ok::<
        (StateView, ActionView),
        ProtocolError,
    >((s1, ActionView::Skip)));
    assert(step_spec(s1, schema_frame()) == Ok::<(StateView, ActionView), ProtocolError>(
        (s2, ActionView::Register(flight)),
    ));
    assert(step_spec(s2, body_frame()) == Ok::<(StateView, ActionView), ProtocolError>(
        (s3, ActionView::Emit(flight, flight, 0)),
    ));
    assert(run_spec(s3, Seq::<FrameView>::empty()) == Ok::<
        (StateView, Seq<ActionView>),
        ProtocolError,
    >((s3, Seq::<ActionView>::empty())));
    let f3 = seq![body_frame()];
    let f23 = seq![schema_frame(), body_frame()];
    assert(f3.drop_first() =~= Seq::<FrameView>::empty());
    assert(f23.drop_first() =~= f3);
    assert(frames.drop_first() == f23);
    assert(run_spec(s2, f3) == Ok::<(StateView, Seq<ActionView>), ProtocolError>(
        (s3, seq![ActionView::Emit(flight, flight, 0)] + Seq::<ActionView>::empty()),
    ));
    assert(run_spec(s1, f23) == Ok::<(StateView, Seq<ActionView>), ProtocolError>(
        (s3, seq![ActionView::Register(flight)] + seq![ActionView::Emit(flight, flight, 0)]),
    ));
    assert(seq![ActionView::Emit(flight, flight, 0)] + Seq::<ActionView>::empty() =~= seq![
        ActionView::Emit(flight, flight, 0),
    ]);
    assert(seq![ActionView::Register(flight)] + seq![ActionView::Emit(flight, flight, 0)] =~= seq![
        ActionView::Register(flight),
        ActionView::Emit(flight, flight, 0),
    ]);
    assert(seq![ActionView::Skip] + seq![
        ActionView::Register(flight),
        ActionView::Emit(flight, flight, 0),
    ] =~= seq![ActionView::Skip, ActionView::Register(flight), ActionView::Emit(flight, flight, 0)]);
}

/// Once the schema is known, a dictionary frame is never handed on as a batch.
pub proof fn lemma_dictionary_not_emitted(flight: Seq<char>, next: u64, path: Option<Seq<Seq<char>>>)
    ensures
        step_spec(StateView::Rows(flight, next), (path, FrameMessage::DictionaryBatch)) == Ok::<
            (StateView, ActionView),
            ProtocolError,
        >((StateView::Rows(flight, next), ActionView::AddDictionary)),
{
}

/// A stream whose first frame is a data frame without descriptor fails with
/// `DataBeforeSchema` before any action: nothing is registered or written.
pub proof fn lemma_data_first_rejected(frames: Seq<FrameView>)
    requires
        frames.len() > 0,
        frames[0].0 is None,
        is_data(frames[0].1),
    ensures
        run_spec(StateView::AwaitDescriptor, frames) == Err::<
            (StateView, Seq<ActionView>),
            ProtocolError,
        >(ProtocolError::DataBeforeSchema),
{
}

} // verus!
