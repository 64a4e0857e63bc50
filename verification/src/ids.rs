//! Peer and topic identifiers, modelled as their raw 32-byte values.

use vstd::prelude::*;

verus! {

use crate::util::bytes_eq;
use crate::util::lemma_ascii_valid_utf8;
use crate::util::read_range;
use crate::util::string_from_utf8;
use vstd::utf8::decode_utf8;

/// Length in bytes of a peer or topic identifier.
pub const ID_LEN: usize = 32;

/// How many leading bytes of an identifier its short rendering shows.
pub const SHORT_LEN: usize = 5;

/// The identity of a peer: 32 raw bytes (the peer's public key).
#[derive(Debug)]
pub struct PeerId {
    pub bytes: Vec<u8>,
}

/// The identifier of one chat room; also the sole input of key derivation.
#[derive(Debug)]
pub struct TopicId {
    pub bytes: Vec<u8>,
}

impl View for PeerId {
    type V = Seq<u8>;

    open spec fn view(&self) -> Seq<u8> {
        self.bytes@
    }
}

impl View for TopicId {
    type V = Seq<u8>;

    open spec fn view(&self) -> Seq<u8> {
        self.bytes@
    }
}

/// The lower-case hex digit for a value below 16, as an ASCII byte.
pub open spec fn hex_digit(n: u8) -> u8
    recommends
        n < 16,
{
    if n < 10 {
        (48 + n) as u8
    } else {
        (87 + n) as u8
    }
}

/// The lower-case hex rendering of a byte string, as ASCII bytes.
pub open spec fn spec_hex(b: Seq<u8>) -> Seq<u8>
    decreases b.len(),
{
    if b.len() == 0 {
        Seq::empty()
    } else {
        seq![hex_digit(b.first() / 16), hex_digit(b.first() % 16)] + spec_hex(b.drop_first())
    }
}

/// The short rendering of an identifier: lower-case hex of its first
/// `SHORT_LEN` bytes.
pub open spec fn spec_short_label(id: Seq<u8>) -> Seq<char>
    recommends
        id.len() == ID_LEN,
{
    decode_utf8(spec_hex(id.subrange(0, SHORT_LEN as int)))
}

/// Every byte of a hex rendering is an ASCII digit or lower-case letter.
pub proof fn lemma_hex_ascii(b: Seq<u8>)
    ensures
        spec_hex(b).len() == 2 * b.len(),
        forall|i: int| 0 <= i < spec_hex(b).len() ==> #[trigger] spec_hex(b)[i] < 128,
    decreases b.len(),
{
    if b.len() != 0 {
        lemma_hex_ascii(b.drop_first());
    }
}

/// Turns lower-case hex ASCII bytes into a `String`.
fn hex_string(bytes: &[u8]) -> (r: String)
    ensures
        r@ == decode_utf8(spec_hex(bytes@)),
{
    let mut out: Vec<u8> = Vec::new();
    let mut k: usize = 0;
    while k < bytes.len()
        invariant
            k <= bytes@.len(),
            out@ == spec_hex(bytes@.subrange(0, k as int)),
        decreases bytes@.len() - k,
    {
        let b = *vstd::slice::slice_index_get(bytes, k);
        let hi: u8 = b / 16;
        let lo: u8 = b % 16;
        let hi_d: u8 = if hi < 10 {
            48 + hi
        } else {
            87 + hi
        };
        let lo_d: u8 = if lo < 10 {
            48 + lo
        } else {
            87 + lo
        };
        out.push(hi_d);
        out.push(lo_d);
        proof {
            let pre = bytes@.subrange(0, k as int);
            let cur = bytes@.subrange(0, k as int + 1);
            lemma_spec_hex_push(pre, bytes@[k as int]);
            assert(cur =~= pre.push(bytes@[k as int]));
            assert(out@ =~= spec_hex(pre) + seq![
                hex_digit(bytes@[k as int] / 16),
                hex_digit(bytes@[k as int] % 16),
            ]);
        }
        k += 1;
    }
    proof {
        assert(bytes@.subrange(0, bytes@.len() as int) =~= bytes@);
        lemma_hex_ascii(bytes@);
        lemma_ascii_valid_utf8(out@);
    }
    match string_from_utf8(out) {
        Some(s) => s,
        None => {
            proof {
                assert(false);
            }
            String::new()
        },
    }
}

/// Hex rendering distributes over appending one byte.
proof fn lemma_spec_hex_push(b: Seq<u8>, x: u8)
    ensures
        spec_hex(b.push(x)) == spec_hex(b) + seq![hex_digit(x / 16), hex_digit(x % 16)],
    decreases b.len(),
{
    if b.len() == 0 {
        assert(b.push(x).drop_first() =~= b);
        assert(b.push(x).first() == x);
        assert(spec_hex(b.push(x)) =~= spec_hex(b) + seq![hex_digit(x / 16), hex_digit(x % 16)]);
    } else {
        assert(b.push(x).drop_first() =~= b.drop_first().push(x));
        assert(b.push(x).first() == b.first());
        lemma_spec_hex_push(b.drop_first(), x);
        assert(spec_hex(b.push(x)) =~= spec_hex(b) + seq![hex_digit(x / 16), hex_digit(x % 16)]);
    }
}

impl PeerId {
    /// Whether this value is a well-formed identifier.
    pub open spec fn wf(&self) -> bool {
        self@.len() == ID_LEN
    }

    /// Wraps 32 raw bytes as a peer identifier.
    pub fn new(bytes: Vec<u8>) -> (r: PeerId)
        requires
            bytes@.len() == ID_LEN,
        ensures
            r@ == bytes@,
            r.wf(),
    {
        PeerId { bytes }
    }

    /// Whether two peer identifiers name the same peer.
    pub fn same_as(&self, other: &PeerId) -> (r: bool)
        ensures
            r == (self@ == other@),
    {
        bytes_eq(self.bytes.as_slice(), other.bytes.as_slice())
    }

    /// A copy of this identifier.
    pub fn duplicate(&self) -> (r: PeerId)
        ensures
            r@ == self@,
    {
        PeerId { bytes: read_range(self.bytes.as_slice(), 0, self.bytes.len()) }
    }

    /// The short rendering used to name a peer whose display name is
    /// unknown: lower-case hex of the first `SHORT_LEN` bytes.
    pub fn short_label(&self) -> (r: String)
        requires
            self.wf(),
        ensures
            r@ == spec_short_label(self@),
    {
        let prefix = read_range(self.bytes.as_slice(), 0, SHORT_LEN);
        hex_string(prefix.as_slice())
    }
}

impl TopicId {
    /// Whether this value is a well-formed identifier.
    pub open spec fn wf(&self) -> bool {
        self@.len() == ID_LEN
    }

    /// Wraps 32 raw bytes as a topic identifier.
    pub fn new(bytes: Vec<u8>) -> (r: TopicId)
        requires
            bytes@.len() == ID_LEN,
        ensures
            r@ == bytes@,
            r.wf(),
    {
        TopicId { bytes }
    }

    /// A copy of this identifier.
    pub fn duplicate(&self) -> (r: TopicId)
        ensures
            r@ == self@,
    {
        TopicId { bytes: read_range(self.bytes.as_slice(), 0, self.bytes.len()) }
    }
}

} // verus!
