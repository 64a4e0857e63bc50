//! The wire protocol: the serialized envelope exchanged over the broadcast
//! substrate and its deterministic, lossless byte encoding.
//!
//! Layout: 16 bytes of outer nonce, one tag byte, the 32-byte sender
//! identifier, then the variant's payload.  The only variable-length field
//! of each variant comes last, so no length prefix is needed.

use vstd::prelude::*;

verus! {

use crate::ids::PeerId;
use crate::ids::ID_LEN;
use crate::util::append_bytes;
use crate::util::read_range;
use crate::util::string_from_utf8;
use vstd::bytes::lemma_auto_spec_u64_to_from_le_bytes;
use vstd::bytes::spec_u64_from_le_bytes;
use vstd::bytes::spec_u64_to_le_bytes;
use vstd::bytes::u64_from_le_bytes;
use vstd::bytes::u64_to_le_bytes;
use vstd::utf8::decode_utf8;
use vstd::utf8::encode_utf8;
use vstd::utf8::valid_utf8;

/// Length of the outer anti-replay nonce.
pub const OUTER_NONCE_LEN: usize = 16;

/// Length of the authenticated-encryption nonce.
pub const CHAT_NONCE_LEN: usize = 12;

/// Offset of the tag byte: right after the outer nonce.
pub const TAG_POS: usize = 16;

/// Offset of the sender identifier.
pub const FROM_POS: usize = 17;

/// Offset of the first variant-specific byte.
pub const PAYLOAD_POS: usize = 49;

/// Tag byte of the `AboutMe` variant.
pub const TAG_ABOUT_ME: u8 = 1;

/// Tag byte of the `EncryptedMessage` variant.
pub const TAG_ENCRYPTED: u8 = 2;

/// Tag byte of the `DeleteMessage` variant.
pub const TAG_DELETE: u8 = 3;

/// Decoding failed: the input is malformed or truncated.
#[derive(Debug, Clone, Copy, PartialEq, Eq, Structural)]
pub struct DecodeError;

/// The body of an envelope.
#[derive(Debug)]
pub enum MessageBody {
    /// Presence and identity broadcast.
    AboutMe { from: PeerId, name: String },
    /// An authenticated chat payload; `id` stays outside the ciphertext so
    /// peers can reference the message for deletion without decrypting.
    EncryptedMessage { from: PeerId, id: u64, ciphertext: Vec<u8>, nonce: Vec<u8> },
    /// Cooperative delete request, honoured only when `from` matches the
    /// recorded sender of `id`.
    DeleteMessage { from: PeerId, id: u64 },
}

/// The envelope exchanged over the substrate: a body plus 16 random bytes
/// of outer padding that make every envelope unique on the wire.
#[derive(Debug)]
pub struct Message {
    pub body: MessageBody,
    pub nonce: Vec<u8>,
}

/// The mathematical value of a body.
pub enum BodyV {
    AboutMe { from: Seq<u8>, name: Seq<char> },
    EncryptedMessage { from: Seq<u8>, id: u64, ciphertext: Seq<u8>, nonce: Seq<u8> },
    DeleteMessage { from: Seq<u8>, id: u64 },
}

/// The mathematical value of an envelope.
pub struct MessageV {
    pub body: BodyV,
    pub nonce: Seq<u8>,
}

impl BodyV {
    /// Field lengths every well-formed body obeys.
    pub open spec fn wf(self) -> bool {
        match self {
            BodyV::AboutMe { from, name } => from.len() == ID_LEN,
            BodyV::EncryptedMessage { from, id, ciphertext, nonce } => from.len() == ID_LEN
                && nonce.len() == CHAT_NONCE_LEN,
            BodyV::DeleteMessage { from, id } => from.len() == ID_LEN,
        }
    }
}

impl MessageV {
    /// Field lengths every well-formed envelope obeys.
    pub open spec fn wf(self) -> bool {
        self.nonce.len() == OUTER_NONCE_LEN && self.body.wf()
    }
}

impl View for MessageBody {
    type V = BodyV;

    open spec fn view(&self) -> BodyV {
        match self {
            MessageBody::AboutMe { from, name } => BodyV::AboutMe {
                from: from@,
                name: name@,
            },
            MessageBody::EncryptedMessage { from, id, ciphertext, nonce } => {
                BodyV::EncryptedMessage {
                    from: from@,
                    id: *id,
                    ciphertext: ciphertext@,
                    nonce: nonce@,
                }
            },
            MessageBody::DeleteMessage { from, id } => BodyV::DeleteMessage {
                from: from@,
                id: *id,
            },
        }
    }
}

impl View for Message {
    type V = MessageV;

    open spec fn view(&self) -> MessageV {
        MessageV { body: self.body@, nonce: self.nonce@ }
    }
}

/// The encoding of a body: tag byte, sender, then the variant payload.
pub open spec fn spec_encode_body(b: BodyV) -> Seq<u8> {
    match b {
        BodyV::AboutMe { from, name } => seq![TAG_ABOUT_ME] + from + encode_utf8(name),
        BodyV::EncryptedMessage { from, id, ciphertext, nonce } => seq![TAG_ENCRYPTED] + from
            + spec_u64_to_le_bytes(id) + nonce + ciphertext,
        BodyV::DeleteMessage { from, id } => seq![TAG_DELETE] + from + spec_u64_to_le_bytes(id),
    }
}

/// The encoding of an envelope: outer nonce, then the encoded body.
pub open spec fn spec_encode(m: MessageV) -> Seq<u8> {
    m.nonce + spec_encode_body(m.body)
}

/// The envelope a byte string decodes to, or nothing when it is malformed.
pub open spec fn spec_decode(b: Seq<u8>) -> Option<MessageV> {
    if b.len() < PAYLOAD_POS {
        None
    } else {
        let nonce = b.subrange(0, OUTER_NONCE_LEN as int);
        let tag = b[TAG_POS as int];
        let from = b.subrange(FROM_POS as int, PAYLOAD_POS as int);
        if tag == TAG_ABOUT_ME {
            let name_bytes = b.subrange(PAYLOAD_POS as int, b.len() as int);
            if valid_utf8(name_bytes) {
                Some(
                    MessageV {
                        nonce,
                        body: BodyV::AboutMe { from, name: decode_utf8(name_bytes) },
                    },
                )
            } else {
                None
            }
        } else if tag == TAG_ENCRYPTED {
            if b.len() >= PAYLOAD_POS + 8 + CHAT_NONCE_LEN {
                Some(
                    MessageV {
                        nonce,
                        body: BodyV::EncryptedMessage {
                            from,
                            id: spec_u64_from_le_bytes(
                                b.subrange(PAYLOAD_POS as int, PAYLOAD_POS as int + 8),
                            ),
                            nonce: b.subrange(
                                PAYLOAD_POS as int + 8,
                                PAYLOAD_POS as int + 8 + CHAT_NONCE_LEN as int,
                            ),
                            ciphertext: b.subrange(
                                PAYLOAD_POS as int + 8 + CHAT_NONCE_LEN as int,
                                b.len() as int,
                            ),
                        },
                    },
                )
            } else {
                None
            }
        } else if tag == TAG_DELETE {
            if b.len() == PAYLOAD_POS + 8 {
                Some(
                    MessageV {
                        nonce,
                        body: BodyV::DeleteMessage {
                            from,
                            id: spec_u64_from_le_bytes(
                                b.subrange(PAYLOAD_POS as int, PAYLOAD_POS as int + 8),
                            ),
                        },
                    },
                )
            } else {
                None
            }
        } else {
            None
        }
    }
}

/// Decoding inverts encoding: every well-formed envelope survives the trip
/// to bytes and back unchanged.
pub proof fn lemma_wire_round_trip(m: MessageV)
    requires
        m.wf(),
    ensures
        spec_decode(spec_encode(m)) == Some(m),
{
    lemma_auto_spec_u64_to_from_le_bytes();
    let e = spec_encode(m);
    let eb = spec_encode_body(m.body);
    assert(e.subrange(0, OUTER_NONCE_LEN as int) =~= m.nonce);
    match m.body {
        BodyV::AboutMe { from, name } => {
            let nb = encode_utf8(name);
            assert(e[TAG_POS as int] == TAG_ABOUT_ME);
            assert(e.subrange(FROM_POS as int, PAYLOAD_POS as int) =~= from);
            assert(e.subrange(PAYLOAD_POS as int, e.len() as int) =~= nb);
            vstd::utf8::encode_utf8_valid_utf8(name);
            vstd::utf8::encode_utf8_decode_utf8(name);
            assert(spec_decode(e) == Some(m));
        },
        BodyV::EncryptedMessage { from, id, ciphertext, nonce } => {
            let idb = spec_u64_to_le_bytes(id);
            assert(e[TAG_POS as int] == TAG_ENCRYPTED);
            assert(e.subrange(FROM_POS as int, PAYLOAD_POS as int) =~= from);
            assert(e.subrange(PAYLOAD_POS as int, PAYLOAD_POS as int + 8) =~= idb);
            assert(e.subrange(
                PAYLOAD_POS as int + 8,
                PAYLOAD_POS as int + 8 + CHAT_NONCE_LEN as int,
            ) =~= nonce);
            assert(e.subrange(PAYLOAD_POS as int + 8 + CHAT_NONCE_LEN as int, e.len() as int)
                =~= ciphertext);
            assert(spec_decode(e) == Some(m));
        },
        BodyV::DeleteMessage { from, id } => {
            let idb = spec_u64_to_le_bytes(id);
            assert(e[TAG_POS as int] == TAG_DELETE);
            assert(e.subrange(FROM_POS as int, PAYLOAD_POS as int) =~= from);
            assert(e.subrange(PAYLOAD_POS as int, PAYLOAD_POS as int + 8) =~= idb);
            assert(e.len() == PAYLOAD_POS + 8);
            assert(spec_decode(e) == Some(m));
        },
    }
}

impl Message {
    /// Wraps a body in an envelope with 16 fresh random outer-nonce bytes.
    pub fn new(body: MessageBody) -> (r: Message)
        ensures
            r@.body == body@,
            r@.nonce.len() == OUTER_NONCE_LEN,
            body@.wf() ==> r@.wf(),
    {
        Message { body, nonce: crate::util::random_bytes16() }
    }

    /// Serializes this envelope to its deterministic byte encoding.
    pub fn to_vec(&self) -> (r: Vec<u8>)
        requires
            self@.wf(),
        ensures
            r@ == spec_encode(self@),
    {
        let mut out: Vec<u8> = Vec::new();
        append_bytes(&mut out, self.nonce.as_slice());
        match &self.body {
            MessageBody::AboutMe { from, name } => {
                out.push(TAG_ABOUT_ME);
                append_bytes(&mut out, from.bytes.as_slice());
                append_bytes(&mut out, name.as_str().as_bytes());
                proof {
                    assert(out@ =~= spec_encode(self@));
                }
            },
            MessageBody::EncryptedMessage { from, id, ciphertext, nonce } => {
                out.push(TAG_ENCRYPTED);
                append_bytes(&mut out, from.bytes.as_slice());
                let idb = u64_to_le_bytes(*id);
                append_bytes(&mut out, idb.as_slice());
                append_bytes(&mut out, nonce.as_slice());
                append_bytes(&mut out, ciphertext.as_slice());
                proof {
                    assert(out@ =~= spec_encode(self@));
                }
            },
            MessageBody::DeleteMessage { from, id } => {
                out.push(TAG_DELETE);
                append_bytes(&mut out, from.bytes.as_slice());
                let idb = u64_to_le_bytes(*id);
                append_bytes(&mut out, idb.as_slice());
                proof {
                    assert(out@ =~= spec_encode(self@));
                }
            },
        }
        out
    }

    /// Parses an envelope from bytes; fails exactly on inputs that no
    /// well-formed envelope encodes to.
    pub fn from_bytes(bytes: &[u8]) -> (r: Result<Message, DecodeError>)
        ensures
            match r {
                Ok(m) => m@.wf() && spec_decode(bytes@) == Some(m@),
                Err(_) => spec_decode(bytes@) is None,
            },
    {
        if bytes.len() < PAYLOAD_POS {
            return Err(DecodeError);
        }
        let nonce = read_range(bytes, 0, OUTER_NONCE_LEN);
        let tag = *vstd::slice::slice_index_get(bytes, TAG_POS);
        let from = PeerId::new(read_range(bytes, FROM_POS, PAYLOAD_POS));
        if tag == TAG_ABOUT_ME {
            let name_bytes = read_range(bytes, PAYLOAD_POS, bytes.len());
            match string_from_utf8(name_bytes) {
                Some(name) => Ok(Message { body: MessageBody::AboutMe { from, name }, nonce }),
                None => Err(DecodeError),
            }
        } else if tag == TAG_ENCRYPTED {
            if bytes.len() < PAYLOAD_POS + 8 + CHAT_NONCE_LEN {
                return Err(DecodeError);
            }
            let id = u64_from_le_bytes(
                vstd::slice::slice_subrange(bytes, PAYLOAD_POS, PAYLOAD_POS + 8),
            );
            let chat_nonce = read_range(bytes, PAYLOAD_POS + 8, PAYLOAD_POS + 8 + CHAT_NONCE_LEN);
            let ciphertext = read_range(bytes, PAYLOAD_POS + 8 + CHAT_NONCE_LEN, bytes.len());
            Ok(
                Message {
                    body: MessageBody::EncryptedMessage {
                        from,
                        id,
                        ciphertext,
                        nonce: chat_nonce,
                    },
                    nonce,
                },
            )
        } else if tag == TAG_DELETE {
            if bytes.len() != PAYLOAD_POS + 8 {
                return Err(DecodeError);
            }
            let id = u64_from_le_bytes(
                vstd::slice::slice_subrange(bytes, PAYLOAD_POS, PAYLOAD_POS + 8),
            );
            Ok(Message { body: MessageBody::DeleteMessage { from, id }, nonce })
        } else {
            Err(DecodeError)
        }
    }
}

} // verus!
