//! The idempotency record: its lifecycle status and the payload it carries.

use vstd::prelude::*;
use vstd::string::StringExecFns;

use crate::error::StoreError;

verus! {

/// Lifecycle status of an idempotency record.
///
/// `Absent` stands for the absence of a record and is never persisted;
/// `InProgress` marks a claimed operation whose result is not yet known;
/// `Completed` marks a finished operation whose response is valid.
#[derive(Clone, Copy, Debug, PartialEq, Eq, Structural)]
pub enum MessageStatusDef {
    Absent,
    InProgress,
    Completed,
}

impl MessageStatusDef {
    /// The integer code of a status on the wire.
    pub open spec fn spec_code(self) -> u8 {
        match self {
            MessageStatusDef::Absent => 0,
            MessageStatusDef::InProgress => 1,
            MessageStatusDef::Completed => 2,
        }
    }

    /// The status that a wire code stands for, if it stands for one.
    pub open spec fn spec_from_code(code: u8) -> Option<MessageStatusDef> {
        if code == 0 {
            Some(MessageStatusDef::Absent)
        } else if code == 1 {
            Some(MessageStatusDef::InProgress)
        } else if code == 2 {
            Some(MessageStatusDef::Completed)
        } else {
            None
        }
    }

    /// Returns the wire code: 0 for `Absent`, 1 for `InProgress`, 2 for `Completed`.
    #[verifier::when_used_as_spec(spec_code)]
    pub fn code(self) -> (c: u8)
        ensures
            c == self.spec_code(),
    {
        match self {
            MessageStatusDef::Absent => 0,
            MessageStatusDef::InProgress => 1,
            MessageStatusDef::Completed => 2,
        }
    }

    /// Reads a wire code back; codes other than 0, 1 and 2 stand for no status.
    pub fn from_code(code: u8) -> (s: Option<MessageStatusDef>)
        ensures
            s == Self::spec_from_code(code),
    {
        if code == 0 {
            Some(MessageStatusDef::Absent)
        } else if code == 1 {
            Some(MessageStatusDef::InProgress)
        } else if code == 2 {
            Some(MessageStatusDef::Completed)
        } else {
            None
        }
    }
}

/// The mathematical value of a record: its status and the characters of its
/// response.
pub struct RecordView {
    pub status: MessageStatusDef,
    pub response: Seq<char>,
}

impl RecordView {
    /// The value that stands for "no record": status `Absent`, empty response.
    pub open spec fn absent() -> RecordView {
        RecordView { status: MessageStatusDef::Absent, response: Seq::empty() }
    }

    /// The marker that a claim creates: status `InProgress`, empty response.
    pub open spec fn in_progress() -> RecordView {
        RecordView { status: MessageStatusDef::InProgress, response: Seq::empty() }
    }

    /// The response is empty unless the status is `Completed`.
    pub open spec fn wf(self) -> bool {
        self.status != MessageStatusDef::Completed ==> self.response.len() == 0
    }

    /// The value may be kept by a store: `Absent` stands for no record and is
    /// never persisted.
    pub open spec fn persistable(self) -> bool {
        self.status != MessageStatusDef::Absent
    }
}

/// The state stored per composite key: the lifecycle status and, once the
/// operation has completed, its serialized outcome.
#[derive(Debug)]
pub struct IdempotencyTransaction {
    pub status: MessageStatusDef,
    pub response: String,
}

impl View for IdempotencyTransaction {
    type V = RecordView;

    open spec fn view(&self) -> RecordView {
        RecordView { status: self.status, response: self.response@ }
    }
}

impl IdempotencyTransaction {
    /// A record of the given status with an empty response.
    pub fn new_from_status(status: MessageStatusDef) -> (record: IdempotencyTransaction)
        ensures
            record@ == (RecordView { status, response: Seq::empty() }),
            record@.wf(),
    {
        IdempotencyTransaction { status, response: String::new() }
    }

    /// The record that stands for "no record": status `Absent`, empty response.
    pub fn new_default_none() -> (record: IdempotencyTransaction)
        ensures
            record@ == RecordView::absent(),
            record@.wf(),
    {
        IdempotencyTransaction { status: MessageStatusDef::Absent, response: String::new() }
    }

    /// A record of the given status and response, both taken as they are.
    pub fn new(status: MessageStatusDef, response: String) -> (record: IdempotencyTransaction)
        ensures
            record.status == status,
            record.response == response,
            record@ == (RecordView { status, response: response@ }),
            record@.wf() <==> (status == MessageStatusDef::Completed || response@.len() == 0),
    {
        IdempotencyTransaction { status, response }
    }

    /// An owned copy of the record, equal to it in status and response.
    pub fn snapshot(&self) -> (copy: IdempotencyTransaction)
        ensures
            copy == *self,
            copy@ == self@,
    {
        IdempotencyTransaction { status: self.status, response: self.response.clone() }
    }

    /// Whether this record tells its receiver that no record existed before
    /// the claim, so that the receiver now owns the execution.
    pub fn is_claimed_by_caller(&self) -> (owned: bool)
        ensures
            owned == (self.status == MessageStatusDef::Absent),
    {
        self.status == MessageStatusDef::Absent
    }
}

/// The shape of a record where a backend stores it as one opaque value: the
/// status as its integer code, and the response.
#[derive(Debug)]
pub struct WireRecord {
    pub status: u8,
    pub response: String,
}

/// The mathematical value of a wire record.
pub struct WireShape {
    pub status: u8,
    pub response: Seq<char>,
}

impl View for WireRecord {
    type V = WireShape;

    open spec fn view(&self) -> WireShape {
        WireShape { status: self.status, response: self.response@ }
    }
}

/// The wire shape of a record value.
pub open spec fn encode(record: RecordView) -> WireShape {
    WireShape { status: record.status.spec_code(), response: record.response }
}

/// The record that a wire value stands for; none where the status code is
/// not one of the three known codes.
pub open spec fn decode(wire: WireShape) -> Option<RecordView> {
    match MessageStatusDef::spec_from_code(wire.status) {
        Some(status) => Some(RecordView { status, response: wire.response }),
        None => None,
    }
}

impl IdempotencyTransaction {
    /// Encodes the record in its wire shape. Every record can be encoded,
    /// whatever its status and response.
    pub fn to_wire(&self) -> (wire: WireRecord)
        ensures
            wire@ == encode(self@),
    {
        WireRecord { status: self.status.code(), response: self.response.clone() }
    }

    /// Decodes a wire record. A status code other than 0, 1 and 2 is a
    /// serialization error: it is never read as some default record.
    pub fn from_wire(wire: &WireRecord) -> (decoded: Result<IdempotencyTransaction, StoreError>)
        ensures
            match decoded {
                Ok(record) => decode(wire@) == Some(record@),
                Err(error) => {
                    &&& decode(wire@) is None
                    &&& error is Serialization
                    &&& error.detail() == "unknown status code"@
                },
            },
    {
        match MessageStatusDef::from_code(wire.status) {
            Some(status) => Ok(IdempotencyTransaction { status, response: wire.response.clone() }),
            None => Err(StoreError::Serialization(String::from_str("unknown status code"))),
        }
    }
}

/// Encoding a record and decoding the result gives the record back, for
/// each of the three statuses and for every response.
pub proof fn lemma_wire_round_trip(record: RecordView)
    ensures
        decode(encode(record)) == Some(record),
{
}

/// A wire value that decodes to a record is the encoding of that record, so
/// decoding and encoding again changes nothing.
pub proof fn lemma_decode_then_encode(wire: WireShape)
    requires
        decode(wire) is Some,
    ensures
        encode(decode(wire)->0) == wire,
{
}

} // verus!
