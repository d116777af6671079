//! The two messages that validators send each other through the anchored
//! chain, and the bytes they travel as.
//!
//! A message body is a header of fixed size followed by the bytes of its
//! variable fields. The header holds each fixed field in place and, for
//! each variable field, a segment: the position of the field's bytes in the
//! body and their number, both as 32-bit numbers. All numbers are written
//! least significant byte first. The variable fields follow the header in
//! the order of their segments, without gaps, and end the body.

use crate::btc::{tx_of_bytes, BitcoinTx, TxView};
use crate::bytes::{
    append_bytes, copy_bytes, copy_range, le_u32_bytes, le_u32_value, le_u64_bytes, le_u64_value,
    lemma_le_u32_bytes_of_value, lemma_le_u32_value_of_bytes, lemma_le_u64_bytes_of_value,
    lemma_le_u64_value_of_bytes, push_u32_le, push_u64_le, read_u32_le, read_u64_le,
};
use crate::crypto::{PublicKey, PUBLIC_KEY_LENGTH};
use crate::transactions::{has_anchoring_shape, AnchoringTx};
use vstd::prelude::*;

verus! {

/// The number by which the anchored chain knows the anchoring service.
pub const ANCHORING_SERVICE: u16 = 3;

/// The message type of a signature for an anchoring transaction.
pub const ANCHORING_TRANSACTION_SIGNATURE: u16 = 0;

/// The message type of an update of a validator's latest transaction.
pub const ANCHORING_TRANSACTION_LATEST: u16 = 1;

/// The size of the header of a signature message.
pub const SIGNATURE_HEADER_SIZE: u32 = 56;

/// The size of the header of an update message.
pub const UPDATE_LATEST_HEADER_SIZE: u32 = 52;

/// Where in a header the validator index stands.
pub const VALIDATOR_OFFSET: u32 = 32;

/// Where in a header the segment of the transaction stands.
pub const TX_SEGMENT_OFFSET: u32 = 36;

/// Where in the header of a signature message the input index stands.
pub const INPUT_OFFSET: u32 = 44;

/// Where in the header of a signature message the segment of the signature stands.
pub const SIGNATURE_SEGMENT_OFFSET: u32 = 48;

/// Where in the header of an update message the count stands.
pub const LECT_COUNT_OFFSET: u32 = 44;

/// Why bytes were not taken as a message.
#[derive(Clone, Copy, Debug, PartialEq, Eq, Structural)]
pub enum MessageError {
    /// The message belongs to another service.
    IncorrectServiceId { service_id: u16 },
    /// The service has no message of this type.
    IncorrectMessageType { message_type: u16 },
    /// The body is shorter than the header.
    UnexpectedlyShortPayload { actual_size: u32, minimum_size: u32 },
    /// The segment at `position` does not start where its field has to start.
    IncorrectSegmentReference { position: u32, value: u32 },
    /// The segment at `position` does not end where its field has to end.
    IncorrectSegmentSize { position: u32, value: u32 },
    /// The field of the segment at `position` holds no transaction of the kind asked for.
    IncorrectTransaction { position: u32 },
}

/// A message as the anchored chain hands it over: the service and the type
/// it names, and its body.
#[derive(Debug, PartialEq, Eq)]
pub struct RawTransaction {
    pub service_id: u16,
    pub message_type: u16,
    pub body: Vec<u8>,
}

/// `RawTransaction` as a mathematical value.
pub struct RawView {
    pub service_id: u16,
    pub message_type: u16,
    pub body: Seq<u8>,
}

impl View for RawTransaction {
    type V = RawView;

    open spec fn view(&self) -> RawView {
        RawView { service_id: self.service_id, message_type: self.message_type, body: self.body@ }
    }
}

/// The 32-bit number at `at` in `body`.
pub open spec fn u32_at(body: Seq<u8>, at: int) -> u32 {
    le_u32_value(body.subrange(at, at + 4)) as u32
}

/// The 64-bit number at `at` in `body`.
pub open spec fn u64_at(body: Seq<u8>, at: int) -> u64 {
    le_u64_value(body.subrange(at, at + 8)) as u64
}

/// The eight bytes of a segment.
pub open spec fn segment(position: int, length: int) -> Seq<u8> {
    le_u32_bytes(position as u32) + le_u32_bytes(length as u32)
}

/// A signature message as a mathematical value.
pub struct SignatureView {
    pub from: Seq<u8>,
    pub validator: u32,
    pub tx: TxView,
    pub input: u32,
    pub signature: Seq<u8>,
}

/// An update message as a mathematical value.
pub struct UpdateLatestView {
    pub from: Seq<u8>,
    pub validator: u32,
    pub tx: TxView,
    pub lect_count: u64,
}

/// Whether the value is one of a signature message: the sender's key has
/// its length, the transaction is what its bytes hold and has the shape of
/// an anchoring transaction, and the segments can name the variable fields.
pub open spec fn signature_well_formed(m: SignatureView) -> bool {
    &&& m.from.len() == PUBLIC_KEY_LENGTH
    &&& tx_of_bytes(m.tx.raw) == Some(m.tx)
    &&& has_anchoring_shape(m.tx)
    &&& SIGNATURE_HEADER_SIZE + m.tx.raw.len() <= u32::MAX
    &&& m.signature.len() <= u32::MAX
}

/// Whether the value is one of an update message: the sender's key has its
/// length, the transaction is what its bytes hold, and the segment can name it.
pub open spec fn update_latest_well_formed(m: UpdateLatestView) -> bool {
    &&& m.from.len() == PUBLIC_KEY_LENGTH
    &&& tx_of_bytes(m.tx.raw) == Some(m.tx)
    &&& m.tx.raw.len() <= u32::MAX
}

/// The body of a signature message.
pub open spec fn signature_body(m: SignatureView) -> Seq<u8> {
    m.from + le_u32_bytes(m.validator) + segment(
        SIGNATURE_HEADER_SIZE as int,
        m.tx.raw.len() as int,
    ) + le_u32_bytes(m.input) + segment(
        SIGNATURE_HEADER_SIZE + m.tx.raw.len(),
        m.signature.len() as int,
    ) + m.tx.raw + m.signature
}

/// The body of an update message.
pub open spec fn update_latest_body(m: UpdateLatestView) -> Seq<u8> {
    m.from + le_u32_bytes(m.validator) + segment(
        UPDATE_LATEST_HEADER_SIZE as int,
        m.tx.raw.len() as int,
    ) + le_u64_bytes(m.lect_count) + m.tx.raw
}

/// The signature message that a body holds, or why it holds none.
pub open spec fn decode_signature_body(body: Seq<u8>) -> Result<SignatureView, MessageError> {
    let tx_position = u32_at(body, TX_SEGMENT_OFFSET as int);
    let tx_length = u32_at(body, TX_SEGMENT_OFFSET + 4);
    let signature_position = u32_at(body, SIGNATURE_SEGMENT_OFFSET as int);
    let signature_length = u32_at(body, SIGNATURE_SEGMENT_OFFSET + 4);
    if body.len() < SIGNATURE_HEADER_SIZE {
        Err(
            MessageError::UnexpectedlyShortPayload {
                actual_size: body.len() as u32,
                minimum_size: SIGNATURE_HEADER_SIZE,
            },
        )
    } else if tx_position != SIGNATURE_HEADER_SIZE {
        Err(
            MessageError::IncorrectSegmentReference {
                position: TX_SEGMENT_OFFSET,
                value: tx_position,
            },
        )
    } else if tx_position + tx_length > body.len() {
        Err(MessageError::IncorrectSegmentSize { position: TX_SEGMENT_OFFSET, value: tx_length })
    } else if signature_position != tx_position + tx_length {
        Err(
            MessageError::IncorrectSegmentReference {
                position: SIGNATURE_SEGMENT_OFFSET,
                value: signature_position,
            },
        )
    } else if signature_position + signature_length != body.len() {
        Err(
            MessageError::IncorrectSegmentSize {
                position: SIGNATURE_SEGMENT_OFFSET,
                value: signature_length,
            },
        )
    } else {
        match tx_of_bytes(body.subrange(tx_position as int, tx_position + tx_length)) {
            Some(tx) => if has_anchoring_shape(tx) {
                Ok(
                    SignatureView {
                        from: body.subrange(0, PUBLIC_KEY_LENGTH as int),
                        validator: u32_at(body, VALIDATOR_OFFSET as int),
                        tx,
                        input: u32_at(body, INPUT_OFFSET as int),
                        signature: body.subrange(
                            signature_position as int,
                            signature_position + signature_length,
                        ),
                    },
                )
            } else {
                Err(MessageError::IncorrectTransaction { position: TX_SEGMENT_OFFSET })
            },
            None => Err(MessageError::IncorrectTransaction { position: TX_SEGMENT_OFFSET }),
        }
    }
}

/// The update message that a body holds, or why it holds none.
pub open spec fn decode_update_latest_body(body: Seq<u8>) -> Result<
    UpdateLatestView,
    MessageError,
> {
    let tx_position = u32_at(body, TX_SEGMENT_OFFSET as int);
    let tx_length = u32_at(body, TX_SEGMENT_OFFSET + 4);
    if body.len() < UPDATE_LATEST_HEADER_SIZE {
        Err(
            MessageError::UnexpectedlyShortPayload {
                actual_size: body.len() as u32,
                minimum_size: UPDATE_LATEST_HEADER_SIZE,
            },
        )
    } else if tx_position != UPDATE_LATEST_HEADER_SIZE {
        Err(
            MessageError::IncorrectSegmentReference {
                position: TX_SEGMENT_OFFSET,
                value: tx_position,
            },
        )
    } else if tx_position + tx_length != body.len() {
        Err(MessageError::IncorrectSegmentSize { position: TX_SEGMENT_OFFSET, value: tx_length })
    } else {
        match tx_of_bytes(body.subrange(tx_position as int, tx_position + tx_length)) {
            Some(tx) => Ok(
                UpdateLatestView {
                    from: body.subrange(0, PUBLIC_KEY_LENGTH as int),
                    validator: u32_at(body, VALIDATOR_OFFSET as int),
                    tx,
                    lect_count: u64_at(body, LECT_COUNT_OFFSET as int),
                },
            ),
            None => Err(MessageError::IncorrectTransaction { position: TX_SEGMENT_OFFSET }),
        }
    }
}

/// A message of either kind as a mathematical value.
pub enum MessageView {
    Signature(SignatureView),
    UpdateLatest(UpdateLatestView),
}

/// Whether the value is one of a message.
pub open spec fn message_well_formed(m: MessageView) -> bool {
    match m {
        MessageView::Signature(s) => signature_well_formed(s),
        MessageView::UpdateLatest(u) => update_latest_well_formed(u),
    }
}

/// The message as the anchored chain carries it.
pub open spec fn encode_message(m: MessageView) -> RawView {
    match m {
        MessageView::Signature(s) => RawView {
            service_id: ANCHORING_SERVICE,
            message_type: ANCHORING_TRANSACTION_SIGNATURE,
            body: signature_body(s),
        },
        MessageView::UpdateLatest(u) => RawView {
            service_id: ANCHORING_SERVICE,
            message_type: ANCHORING_TRANSACTION_LATEST,
            body: update_latest_body(u),
        },
    }
}

/// The message that the anchored chain handed over, or why it is none.
/// The message type is looked at first, then the service, then the body.
pub open spec fn decode_message(raw: RawView) -> Result<MessageView, MessageError> {
    if raw.message_type != ANCHORING_TRANSACTION_SIGNATURE && raw.message_type
        != ANCHORING_TRANSACTION_LATEST {
        Err(MessageError::IncorrectMessageType { message_type: raw.message_type })
    } else if raw.service_id != ANCHORING_SERVICE {
        Err(MessageError::IncorrectServiceId { service_id: raw.service_id })
    } else if raw.message_type == ANCHORING_TRANSACTION_SIGNATURE {
        match decode_signature_body(raw.body) {
            Ok(s) => Ok(MessageView::Signature(s)),
            Err(e) => Err(e),
        }
    } else {
        match decode_update_latest_body(raw.body) {
            Ok(u) => Ok(MessageView::UpdateLatest(u)),
            Err(e) => Err(e),
        }
    }
}

/// The header fields of a signature body are read back as they were written.
proof fn lemma_signature_header(m: SignatureView)
    requires
        signature_well_formed(m),
    ensures
        ({
            let body = signature_body(m);
            &&& body.len() == SIGNATURE_HEADER_SIZE + m.tx.raw.len() + m.signature.len()
            &&& body.subrange(0, PUBLIC_KEY_LENGTH as int) == m.from
            &&& u32_at(body, VALIDATOR_OFFSET as int) == m.validator
            &&& u32_at(body, TX_SEGMENT_OFFSET as int) == SIGNATURE_HEADER_SIZE
            &&& u32_at(body, TX_SEGMENT_OFFSET + 4) == m.tx.raw.len()
            &&& u32_at(body, INPUT_OFFSET as int) == m.input
            &&& u32_at(body, SIGNATURE_SEGMENT_OFFSET as int) == SIGNATURE_HEADER_SIZE
                + m.tx.raw.len()
            &&& u32_at(body, SIGNATURE_SEGMENT_OFFSET + 4) == m.signature.len()
            &&& body.subrange(
                SIGNATURE_HEADER_SIZE as int,
                SIGNATURE_HEADER_SIZE + m.tx.raw.len(),
            ) == m.tx.raw
            &&& body.subrange(SIGNATURE_HEADER_SIZE + m.tx.raw.len(), body.len() as int)
                == m.signature
        }),
{
    let body = signature_body(m);
    let tx_length = m.tx.raw.len() as u32;
    let signature_position = (SIGNATURE_HEADER_SIZE + m.tx.raw.len()) as u32;
    let signature_length = m.signature.len() as u32;
    lemma_le_u32_value_of_bytes(m.validator);
    lemma_le_u32_value_of_bytes(SIGNATURE_HEADER_SIZE);
    lemma_le_u32_value_of_bytes(tx_length);
    lemma_le_u32_value_of_bytes(m.input);
    lemma_le_u32_value_of_bytes(signature_position);
    lemma_le_u32_value_of_bytes(signature_length);
    assert(body.subrange(0, 32) =~= m.from);
    assert(body.subrange(32, 36) =~= le_u32_bytes(m.validator));
    assert(body.subrange(36, 40) =~= le_u32_bytes(SIGNATURE_HEADER_SIZE));
    assert(body.subrange(40, 44) =~= le_u32_bytes(tx_length));
    assert(body.subrange(44, 48) =~= le_u32_bytes(m.input));
    assert(body.subrange(48, 52) =~= le_u32_bytes(signature_position));
    assert(body.subrange(52, 56) =~= le_u32_bytes(signature_length));
    assert(body.subrange(56, 56 + m.tx.raw.len() as int) =~= m.tx.raw);
    assert(body.subrange(56 + m.tx.raw.len() as int, body.len() as int) =~= m.signature);
}

/// A signature message is read back from its body.
pub proof fn lemma_signature_round_trip(m: SignatureView)
    requires
        signature_well_formed(m),
    ensures
        decode_signature_body(signature_body(m)) == Ok::<SignatureView, MessageError>(m),
{
    lemma_signature_header(m);
}

/// A body that holds a signature message is the body of that message.
pub proof fn lemma_signature_body_unique(body: Seq<u8>)
    requires
        decode_signature_body(body) is Ok,
    ensures
        signature_well_formed(decode_signature_body(body)->Ok_0),
        signature_body(decode_signature_body(body)->Ok_0) == body,
{
    let m = decode_signature_body(body)->Ok_0;
    let tx_length = u32_at(body, TX_SEGMENT_OFFSET + 4);
    assert(m.tx.raw == body.subrange(56, 56 + tx_length));
    lemma_le_u32_bytes_of_value(body.subrange(32, 36));
    lemma_le_u32_bytes_of_value(body.subrange(36, 40));
    lemma_le_u32_bytes_of_value(body.subrange(40, 44));
    lemma_le_u32_bytes_of_value(body.subrange(44, 48));
    lemma_le_u32_bytes_of_value(body.subrange(48, 52));
    lemma_le_u32_bytes_of_value(body.subrange(52, 56));
    assert(signature_body(m) =~= body);
}

/// The header fields of an update body are read back as they were written.
proof fn lemma_update_latest_header(m: UpdateLatestView)
    requires
        update_latest_well_formed(m),
    ensures
        ({
            let body = update_latest_body(m);
            &&& body.len() == UPDATE_LATEST_HEADER_SIZE + m.tx.raw.len()
            &&& body.subrange(0, PUBLIC_KEY_LENGTH as int) == m.from
            &&& u32_at(body, VALIDATOR_OFFSET as int) == m.validator
            &&& u32_at(body, TX_SEGMENT_OFFSET as int) == UPDATE_LATEST_HEADER_SIZE
            &&& u32_at(body, TX_SEGMENT_OFFSET + 4) == m.tx.raw.len()
            &&& u64_at(body, LECT_COUNT_OFFSET as int) == m.lect_count
            &&& body.subrange(UPDATE_LATEST_HEADER_SIZE as int, body.len() as int) == m.tx.raw
        }),
{
    let body = update_latest_body(m);
    let tx_length = m.tx.raw.len() as u32;
    lemma_le_u32_value_of_bytes(m.validator);
    lemma_le_u32_value_of_bytes(UPDATE_LATEST_HEADER_SIZE);
    lemma_le_u32_value_of_bytes(tx_length);
    lemma_le_u64_value_of_bytes(m.lect_count);
    assert(body.subrange(0, 32) =~= m.from);
    assert(body.subrange(32, 36) =~= le_u32_bytes(m.validator));
    assert(body.subrange(36, 40) =~= le_u32_bytes(UPDATE_LATEST_HEADER_SIZE));
    assert(body.subrange(40, 44) =~= le_u32_bytes(tx_length));
    assert(body.subrange(44, 52) =~= le_u64_bytes(m.lect_count));
    assert(body.subrange(52, body.len() as int) =~= m.tx.raw);
}

/// An update message is read back from its body.
pub proof fn lemma_update_latest_round_trip(m: UpdateLatestView)
    requires
        update_latest_well_formed(m),
    ensures
        decode_update_latest_body(update_latest_body(m)) == Ok::<UpdateLatestView, MessageError>(
            m,
        ),
{
    lemma_update_latest_header(m);
}

/// A body that holds an update message is the body of that message.
pub proof fn lemma_update_latest_body_unique(body: Seq<u8>)
    requires
        decode_update_latest_body(body) is Ok,
    ensures
        update_latest_well_formed(decode_update_latest_body(body)->Ok_0),
        update_latest_body(decode_update_latest_body(body)->Ok_0) == body,
{
    let m = decode_update_latest_body(body)->Ok_0;
    let tx_length = u32_at(body, TX_SEGMENT_OFFSET + 4);
    assert(m.tx.raw == body.subrange(52, 52 + tx_length));
    lemma_le_u32_bytes_of_value(body.subrange(32, 36));
    lemma_le_u32_bytes_of_value(body.subrange(36, 40));
    lemma_le_u32_bytes_of_value(body.subrange(40, 44));
    lemma_le_u64_bytes_of_value(body.subrange(44, 52));
    assert(update_latest_body(m) =~= body);
}

/// Written out and read again, a message of either kind is what it was.
pub proof fn lemma_message_round_trip(m: MessageView)
    requires
        message_well_formed(m),
    ensures
        decode_message(encode_message(m)) == Ok::<MessageView, MessageError>(m),
{
    match m {
        MessageView::Signature(s) => lemma_signature_round_trip(s),
        MessageView::UpdateLatest(u) => lemma_update_latest_round_trip(u),
    }
}

/// Read and written out again, the bytes of a message are what they were:
/// no two byte strings hold the same message.
pub proof fn lemma_message_bytes_round_trip(raw: RawView)
    requires
        decode_message(raw) is Ok,
    ensures
        message_well_formed(decode_message(raw)->Ok_0),
        encode_message(decode_message(raw)->Ok_0) == raw,
{
    if raw.message_type == ANCHORING_TRANSACTION_SIGNATURE {
        lemma_signature_body_unique(raw.body);
    } else {
        lemma_update_latest_body_unique(raw.body);
    }
}

/// A validator's signature for one input of an anchoring transaction.
#[derive(Debug, PartialEq, Eq)]
pub struct TxAnchoringSignature {
    from: PublicKey,
    validator: u32,
    tx: AnchoringTx,
    input: u32,
    signature: Vec<u8>,
}

impl View for TxAnchoringSignature {
    type V = SignatureView;

    closed spec fn view(&self) -> SignatureView {
        SignatureView {
            from: self.from@,
            validator: self.validator,
            tx: self.tx@,
            input: self.input,
            signature: self.signature@,
        }
    }
}

impl TxAnchoringSignature {
    #[verifier::type_invariant]
    spec fn fits(self) -> bool {
        &&& SIGNATURE_HEADER_SIZE + self.tx@.raw.len() <= u32::MAX
        &&& self.signature@.len() <= u32::MAX
    }

    /// The message with the given fields; `None` where the transaction or
    /// the signature is too long for a segment to name it.
    pub fn new(
        from: &PublicKey,
        validator: u32,
        tx: AnchoringTx,
        input: u32,
        signature: &[u8],
    ) -> (message: Option<TxAnchoringSignature>)
        ensures
            match message {
                Some(m) => m@ == (SignatureView {
                    from: from@,
                    validator,
                    tx: tx@,
                    input,
                    signature: signature@,
                }) && signature_well_formed(m@),
                None => SIGNATURE_HEADER_SIZE + tx@.raw.len() > u32::MAX || signature@.len()
                    > u32::MAX,
            },
    {
        let tx_length: usize = tx.as_tx().as_bytes().len();
        if tx_length > (u32::MAX - SIGNATURE_HEADER_SIZE) as usize || signature.len()
            > u32::MAX as usize {
            return None;
        }
        Some(
            TxAnchoringSignature {
                from: from.clone(),
                validator,
                tx,
                input,
                signature: copy_bytes(signature),
            },
        )
    }

    /// The key of the sender.
    pub fn from(&self) -> (from: &PublicKey)
        ensures
            from@ == self@.from,
    {
        &self.from
    }

    /// The index of the validator that signed.
    pub fn validator(&self) -> (validator: u32)
        ensures
            validator == self@.validator,
    {
        self.validator
    }

    /// The anchoring transaction that is signed.
    pub fn tx(&self) -> (tx: &AnchoringTx)
        ensures
            tx@ == self@.tx,
    {
        &self.tx
    }

    /// The index of the input that is signed.
    pub fn input(&self) -> (input: u32)
        ensures
            input == self@.input,
    {
        self.input
    }

    /// The bytes of the signature.
    pub fn signature(&self) -> (signature: &[u8])
        ensures
            signature@ == self@.signature,
    {
        self.signature.as_slice()
    }

    /// The message, which is well formed, as the anchored chain carries it.
    pub fn raw(&self) -> (raw: RawTransaction)
        ensures
            raw@ == encode_message(MessageView::Signature(self@)),
            signature_well_formed(self@),
    {
        proof {
            use_type_invariant(self);
        }
        let tx_bytes = self.tx.as_tx().as_bytes();
        let tx_length: u32 = tx_bytes.len() as u32;
        let mut body: Vec<u8> = Vec::new();
        append_bytes(&mut body, self.from.as_bytes());
        push_u32_le(&mut body, self.validator);
        push_u32_le(&mut body, SIGNATURE_HEADER_SIZE);
        push_u32_le(&mut body, tx_length);
        push_u32_le(&mut body, self.input);
        push_u32_le(&mut body, SIGNATURE_HEADER_SIZE + tx_length);
        push_u32_le(&mut body, self.signature.len() as u32);
        append_bytes(&mut body, tx_bytes);
        append_bytes(&mut body, self.signature.as_slice());
        assert(body@ =~= signature_body(self@));
        RawTransaction {
            service_id: ANCHORING_SERVICE,
            message_type: ANCHORING_TRANSACTION_SIGNATURE,
            body,
        }
    }

    /// Reads a signature message from a body.
    pub fn from_body(body: &[u8]) -> (message: Result<TxAnchoringSignature, MessageError>)
        ensures
            match message {
                Ok(m) => decode_signature_body(body@) == Ok::<SignatureView, MessageError>(m@),
                Err(e) => decode_signature_body(body@) == Err::<SignatureView, MessageError>(e),
            },
    {
        if body.len() < SIGNATURE_HEADER_SIZE as usize {
            return Err(
                MessageError::UnexpectedlyShortPayload {
                    actual_size: body.len() as u32,
                    minimum_size: SIGNATURE_HEADER_SIZE,
                },
            );
        }
        let tx_position: u32 = read_u32_le(body, TX_SEGMENT_OFFSET as usize);
        let tx_length: u32 = read_u32_le(body, TX_SEGMENT_OFFSET as usize + 4);
        let signature_position: u32 = read_u32_le(body, SIGNATURE_SEGMENT_OFFSET as usize);
        let signature_length: u32 = read_u32_le(body, SIGNATURE_SEGMENT_OFFSET as usize + 4);
        if tx_position != SIGNATURE_HEADER_SIZE {
            return Err(
                MessageError::IncorrectSegmentReference {
                    position: TX_SEGMENT_OFFSET,
                    value: tx_position,
                },
            );
        }
        if tx_position as u64 + tx_length as u64 > body.len() as u64 {
            return Err(
                MessageError::IncorrectSegmentSize { position: TX_SEGMENT_OFFSET, value: tx_length },
            );
        }
        if signature_position as u64 != tx_position as u64 + tx_length as u64 {
            return Err(
                MessageError::IncorrectSegmentReference {
                    position: SIGNATURE_SEGMENT_OFFSET,
                    value: signature_position,
                },
            );
        }
        if signature_position as u64 + signature_length as u64 != body.len() as u64 {
            return Err(
                MessageError::IncorrectSegmentSize {
                    position: SIGNATURE_SEGMENT_OFFSET,
                    value: signature_length,
                },
            );
        }
        let tx_end: usize = signature_position as usize;
        let raw_tx = copy_range(body, tx_position as usize, tx_end);
        let tx = match BitcoinTx::from_bytes(raw_tx) {
            Some(tx) => tx,
            None => {
                return Err(MessageError::IncorrectTransaction { position: TX_SEGMENT_OFFSET });
            },
        };
        let tx = match AnchoringTx::from_tx(tx) {
            Some(tx) => tx,
            None => {
                return Err(MessageError::IncorrectTransaction { position: TX_SEGMENT_OFFSET });
            },
        };
        let from = PublicKey::from_slice(copy_range(body, 0, PUBLIC_KEY_LENGTH).as_slice());
        let validator: u32 = read_u32_le(body, VALIDATOR_OFFSET as usize);
        let input: u32 = read_u32_le(body, INPUT_OFFSET as usize);
        let signature = copy_range(body, tx_end, body.len());
        Ok(TxAnchoringSignature { from, validator, tx, input, signature })
    }
}

impl Clone for TxAnchoringSignature {
    fn clone(&self) -> (copy: TxAnchoringSignature)
        ensures
            copy@ == self@,
    {
        proof {
            use_type_invariant(self);
        }
        TxAnchoringSignature {
            from: self.from.clone(),
            validator: self.validator,
            tx: self.tx.clone(),
            input: self.input,
            signature: copy_bytes(self.signature.as_slice()),
        }
    }
}

/// A validator's announcement of the transaction that it now takes for the
/// latest confirmed one.
#[derive(Debug, PartialEq, Eq)]
pub struct TxAnchoringUpdateLatest {
    from: PublicKey,
    validator: u32,
    tx: BitcoinTx,
    lect_count: u64,
}

impl View for TxAnchoringUpdateLatest {
    type V = UpdateLatestView;

    closed spec fn view(&self) -> UpdateLatestView {
        UpdateLatestView {
            from: self.from@,
            validator: self.validator,
            tx: self.tx@,
            lect_count: self.lect_count,
        }
    }
}

impl TxAnchoringUpdateLatest {
    #[verifier::type_invariant]
    spec fn fits(self) -> bool {
        self.tx@.raw.len() <= u32::MAX
    }

    /// The message with the given fields; `None` where the transaction is
    /// too long for a segment to name it.
    pub fn new(from: &PublicKey, validator: u32, tx: BitcoinTx, lect_count: u64) -> (message:
        Option<TxAnchoringUpdateLatest>)
        ensures
            match message {
                Some(m) => m@ == (UpdateLatestView { from: from@, validator, tx: tx@, lect_count })
                    && update_latest_well_formed(m@),
                None => tx@.raw.len() > u32::MAX,
            },
    {
        let tx_length: usize = tx.as_bytes().len();
        if tx_length > u32::MAX as usize {
            return None;
        }
        Some(TxAnchoringUpdateLatest { from: from.clone(), validator, tx, lect_count })
    }

    /// The key of the sender.
    pub fn from(&self) -> (from: &PublicKey)
        ensures
            from@ == self@.from,
    {
        &self.from
    }

    /// The index of the validator that announces.
    pub fn validator(&self) -> (validator: u32)
        ensures
            validator == self@.validator,
    {
        self.validator
    }

    /// The transaction that is announced.
    pub fn tx(&self) -> (tx: &BitcoinTx)
        ensures
            tx@ == self@.tx,
    {
        &self.tx
    }

    /// The number of transactions that the validator has announced, this
    /// one included.
    pub fn lect_count(&self) -> (lect_count: u64)
        ensures
            lect_count == self@.lect_count,
    {
        self.lect_count
    }

    /// The message, which is well formed, as the anchored chain carries it.
    pub fn raw(&self) -> (raw: RawTransaction)
        ensures
            raw@ == encode_message(MessageView::UpdateLatest(self@)),
            update_latest_well_formed(self@),
    {
        proof {
            use_type_invariant(self);
        }
        let tx_bytes = self.tx.as_bytes();
        let mut body: Vec<u8> = Vec::new();
        append_bytes(&mut body, self.from.as_bytes());
        push_u32_le(&mut body, self.validator);
        push_u32_le(&mut body, UPDATE_LATEST_HEADER_SIZE);
        push_u32_le(&mut body, tx_bytes.len() as u32);
        push_u64_le(&mut body, self.lect_count);
        append_bytes(&mut body, tx_bytes);
        assert(body@ =~= update_latest_body(self@));
        RawTransaction {
            service_id: ANCHORING_SERVICE,
            message_type: ANCHORING_TRANSACTION_LATEST,
            body,
        }
    }

    /// Reads an update message from a body.
    pub fn from_body(body: &[u8]) -> (message: Result<TxAnchoringUpdateLatest, MessageError>)
        ensures
            match message {
                Ok(m) => decode_update_latest_body(body@) == Ok::<UpdateLatestView, MessageError>(
                    m@,
                ),
                Err(e) => decode_update_latest_body(body@) == Err::<UpdateLatestView, MessageError>(
                    e,
                ),
            },
    {
        if body.len() < UPDATE_LATEST_HEADER_SIZE as usize {
            return Err(
                MessageError::UnexpectedlyShortPayload {
                    actual_size: body.len() as u32,
                    minimum_size: UPDATE_LATEST_HEADER_SIZE,
                },
            );
        }
        let tx_position: u32 = read_u32_le(body, TX_SEGMENT_OFFSET as usize);
        let tx_length: u32 = read_u32_le(body, TX_SEGMENT_OFFSET as usize + 4);
        if tx_position != UPDATE_LATEST_HEADER_SIZE {
            return Err(
                MessageError::IncorrectSegmentReference {
                    position: TX_SEGMENT_OFFSET,
                    value: tx_position,
                },
            );
        }
        if tx_position as u64 + tx_length as u64 != body.len() as u64 {
            return Err(
                MessageError::IncorrectSegmentSize { position: TX_SEGMENT_OFFSET, value: tx_length },
            );
        }
        let raw_tx = copy_range(body, tx_position as usize, body.len());
        let tx = match BitcoinTx::from_bytes(raw_tx) {
            Some(tx) => tx,
            None => {
                return Err(MessageError::IncorrectTransaction { position: TX_SEGMENT_OFFSET });
            },
        };
        let from = PublicKey::from_slice(copy_range(body, 0, PUBLIC_KEY_LENGTH).as_slice());
        let validator: u32 = read_u32_le(body, VALIDATOR_OFFSET as usize);
        let lect_count: u64 = read_u64_le(body, LECT_COUNT_OFFSET as usize);
        Ok(TxAnchoringUpdateLatest { from, validator, tx, lect_count })
    }
}

impl Clone for TxAnchoringUpdateLatest {
    fn clone(&self) -> (copy: TxAnchoringUpdateLatest)
        ensures
            copy@ == self@,
    {
        proof {
            use_type_invariant(self);
        }
        TxAnchoringUpdateLatest {
            from: self.from.clone(),
            validator: self.validator,
            tx: self.tx.clone(),
            lect_count: self.lect_count,
        }
    }
}

/// A message of the anchoring service.
#[derive(Debug, PartialEq, Eq)]
pub enum AnchoringTransaction {
    Signature(TxAnchoringSignature),
    UpdateLatest(TxAnchoringUpdateLatest),
}

impl View for AnchoringTransaction {
    type V = MessageView;

    open spec fn view(&self) -> MessageView {
        match self {
            AnchoringTransaction::Signature(m) => MessageView::Signature(m@),
            AnchoringTransaction::UpdateLatest(m) => MessageView::UpdateLatest(m@),
        }
    }
}

/// The key of the sender of a message.
pub open spec fn sender(m: MessageView) -> Seq<u8> {
    match m {
        MessageView::Signature(s) => s.from,
        MessageView::UpdateLatest(u) => u.from,
    }
}

impl AnchoringTransaction {
    /// The key of the sender.
    pub fn from(&self) -> (from: &PublicKey)
        ensures
            from@ == sender(self@),
    {
        match self {
            AnchoringTransaction::UpdateLatest(message) => message.from(),
            AnchoringTransaction::Signature(message) => message.from(),
        }
    }

    /// The message, which is well formed, as the anchored chain carries it.
    pub fn raw(&self) -> (raw: RawTransaction)
        ensures
            raw@ == encode_message(self@),
            message_well_formed(self@),
    {
        match self {
            AnchoringTransaction::UpdateLatest(message) => message.raw(),
            AnchoringTransaction::Signature(message) => message.raw(),
        }
    }

    /// Reads the message that the anchored chain handed over. The message
    /// has to name one of the two message types, whatever else it holds;
    /// then it has to name this service, and its body has to hold a message
    /// of that type.
    pub fn from_raw(raw: RawTransaction) -> (message: Result<AnchoringTransaction, MessageError>)
        ensures
            match message {
                Ok(m) => decode_message(raw@) == Ok::<MessageView, MessageError>(m@),
                Err(e) => decode_message(raw@) == Err::<MessageView, MessageError>(e),
            },
    {
        if raw.message_type != ANCHORING_TRANSACTION_SIGNATURE && raw.message_type
            != ANCHORING_TRANSACTION_LATEST {
            return Err(MessageError::IncorrectMessageType { message_type: raw.message_type });
        }
        if raw.service_id != ANCHORING_SERVICE {
            return Err(MessageError::IncorrectServiceId { service_id: raw.service_id });
        }
        if raw.message_type == ANCHORING_TRANSACTION_SIGNATURE {
            match TxAnchoringSignature::from_body(raw.body.as_slice()) {
                Ok(message) => Ok(AnchoringTransaction::Signature(message)),
                Err(e) => Err(e),
            }
        } else {
            match TxAnchoringUpdateLatest::from_body(raw.body.as_slice()) {
                Ok(message) => Ok(AnchoringTransaction::UpdateLatest(message)),
                Err(e) => Err(e),
            }
        }
    }
}

impl From<TxAnchoringSignature> for AnchoringTransaction {
    fn from(message: TxAnchoringSignature) -> (wrapped: AnchoringTransaction) {
        AnchoringTransaction::Signature(message)
    }
}

impl vstd::std_specs::convert::FromSpecImpl<TxAnchoringSignature> for AnchoringTransaction {
    open spec fn obeys_from_spec() -> bool {
        true
    }

    open spec fn from_spec(message: TxAnchoringSignature) -> AnchoringTransaction {
        AnchoringTransaction::Signature(message)
    }
}

impl From<TxAnchoringUpdateLatest> for AnchoringTransaction {
    fn from(message: TxAnchoringUpdateLatest) -> (wrapped: AnchoringTransaction) {
        AnchoringTransaction::UpdateLatest(message)
    }
}

impl vstd::std_specs::convert::FromSpecImpl<TxAnchoringUpdateLatest> for AnchoringTransaction {
    open spec fn obeys_from_spec() -> bool {
        true
    }

    open spec fn from_spec(message: TxAnchoringUpdateLatest) -> AnchoringTransaction {
        AnchoringTransaction::UpdateLatest(message)
    }
}

impl Clone for AnchoringTransaction {
    fn clone(&self) -> (copy: AnchoringTransaction)
        ensures
            copy@ == self@,
    {
        match self {
            AnchoringTransaction::Signature(message) => AnchoringTransaction::Signature(
                message.clone(),
            ),
            AnchoringTransaction::UpdateLatest(message) => AnchoringTransaction::UpdateLatest(
                message.clone(),
            ),
        }
    }
}

} // verus!
