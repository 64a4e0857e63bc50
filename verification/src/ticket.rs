//! The join ticket: a topic identifier plus an ordered list of opaque
//! bootstrap peer addresses, serialized to bytes and then to a lower-case,
//! unpadded base-32 text token that round-trips exactly.

use vstd::prelude::*;

use data_encoding::BASE32_NOPAD;

verus! {

use crate::ids::TopicId;
use crate::ids::ID_LEN;
use crate::util::append_bytes;
use crate::util::lemma_ascii_valid_utf8;
use crate::util::read_range;
use crate::util::string_from_utf8;
use vstd::bytes::lemma_auto_spec_u64_to_from_le_bytes;
use vstd::bytes::spec_u64_from_le_bytes;
use vstd::bytes::spec_u64_to_le_bytes;
use vstd::bytes::u64_from_le_bytes;
use vstd::bytes::u64_to_le_bytes;
use vstd::utf8::encode_utf8;

/// Offset of the address count in the serialized ticket.
pub const COUNT_POS: usize = 32;

/// Offset of the first address record.
pub const ADDRS_POS: usize = 40;

/// Ticket decoding failed: invalid base 32, or a malformed payload.
#[derive(Debug, Clone, Copy, PartialEq, Eq, Structural)]
pub struct TicketFormatError;

/// Whether a byte is in the unpadded base-32 alphabet: `A`-`Z` or `2`-`7`.
pub open spec fn is_b32_byte(x: u8) -> bool {
    (65 <= x <= 90) || (50 <= x <= 55)
}

/// ASCII lower-casing of a byte string: `A`-`Z` mapped down, the rest kept.
pub open spec fn spec_lower(s: Seq<u8>) -> Seq<u8> {
    Seq::new(
        s.len(),
        |i: int|
            if 65 <= s[i] <= 90 {
                (s[i] + 32) as u8
            } else {
                s[i]
            },
    )
}

/// ASCII upper-casing of a byte string: `a`-`z` mapped up, the rest kept.
pub open spec fn spec_upper(s: Seq<u8>) -> Seq<u8> {
    Seq::new(
        s.len(),
        |i: int|
            if 97 <= s[i] <= 122 {
                (s[i] - 32) as u8
            } else {
                s[i]
            },
    )
}

/// Upper-casing cancels lower-casing.
proof fn lemma_upper_lower(s: Seq<u8>)
    ensures
        spec_upper(spec_lower(s)) == spec_upper(s),
{
    assert(spec_upper(spec_lower(s)) =~= spec_upper(s));
}

/// The base-32 text (without padding, upper case) that the encoder
/// produces; a function of the input bytes alone.
pub uninterp spec fn b32_of(b: Seq<u8>) -> Seq<u8>;

/// Relies on `data_encoding::BASE32_NOPAD.encode`: unpadded base 32 over
/// the upper-case alphabet `A`-`Z`, `2`-`7`.
#[verifier::external_body]
fn b32_encode(b: &[u8]) -> (r: Vec<u8>)
    ensures
        r@ == b32_of(b@),
        forall|i: int| 0 <= i < r@.len() ==> is_b32_byte(#[trigger] r@[i]),
{
    BASE32_NOPAD.encode(b).into_bytes()
}

/// Relies on `data_encoding::BASE32_NOPAD.decode`: it accepts exactly the
/// canonical upper-case encodings, and inverts the encoder on them.
#[verifier::external_body]
fn b32_decode(s: &[u8]) -> (r: Option<Vec<u8>>)
    ensures
        forall|b: Seq<u8>| s@ == spec_upper(b32_of(b)) ==> r is Some && r.unwrap()@ == b,
        r is Some ==> s@ == b32_of(r.unwrap()@),
{
    BASE32_NOPAD.decode(s).ok()
}

/// Lower-cases ASCII letters in a byte string.
fn to_lower_ascii(v: &[u8]) -> (r: Vec<u8>)
    ensures
        r@ == spec_lower(v@),
{
    let mut out: Vec<u8> = Vec::new();
    let mut k: usize = 0;
    while k < v.len()
        invariant
            k <= v@.len(),
            out@.len() == k,
            forall|i: int| 0 <= i < k ==> out@[i] == spec_lower(v@)[i],
        decreases v@.len() - k,
    {
        let b = *vstd::slice::slice_index_get(v, k);
        if 65 <= b && b <= 90 {
            out.push(b + 32);
        } else {
            out.push(b);
        }
        k += 1;
    }
    proof {
        assert(out@ =~= spec_lower(v@));
    }
    out
}

/// Upper-cases ASCII letters in a byte string.
fn to_upper_ascii(v: &[u8]) -> (r: Vec<u8>)
    ensures
        r@ == spec_upper(v@),
{
    let mut out: Vec<u8> = Vec::new();
    let mut k: usize = 0;
    while k < v.len()
        invariant
            k <= v@.len(),
            out@.len() == k,
            forall|i: int| 0 <= i < k ==> out@[i] == spec_upper(v@)[i],
        decreases v@.len() - k,
    {
        let b = *vstd::slice::slice_index_get(v, k);
        if 97 <= b && b <= 122 {
            out.push(b - 32);
        } else {
            out.push(b);
        }
        k += 1;
    }
    proof {
        assert(out@ =~= spec_upper(v@));
    }
    out
}

/// A join ticket: the topic to subscribe to and the addresses of peers
/// to contact first.  Addresses are opaque byte strings here; what they
/// mean is the transport's business.
#[derive(Debug)]
pub struct Ticket {
    pub topic: TopicId,
    pub endpoints: Vec<Vec<u8>>,
}

/// The mathematical value of a ticket.
pub struct TicketV {
    pub topic: Seq<u8>,
    pub endpoints: Seq<Seq<u8>>,
}

impl TicketV {
    /// Shape every encodable ticket obeys: a full-length topic id, and
    /// counts and lengths that fit their 8-byte fields.
    pub open spec fn wf(self) -> bool {
        &&& self.topic.len() == ID_LEN
        &&& self.endpoints.len() <= u64::MAX
        &&& forall|i: int| 0 <= i < self.endpoints.len() ==> #[trigger] self.endpoints[i].len()
            <= u64::MAX
    }
}

impl View for Ticket {
    type V = TicketV;

    open spec fn view(&self) -> TicketV {
        TicketV { topic: self.topic@, endpoints: self.endpoints.deep_view() }
    }
}

/// The serialized address list: each address as an 8-byte length followed
/// by its bytes.
pub open spec fn spec_addrs_bytes(addrs: Seq<Seq<u8>>) -> Seq<u8>
    decreases addrs.len(),
{
    if addrs.len() == 0 {
        Seq::empty()
    } else {
        spec_u64_to_le_bytes(addrs.first().len() as u64) + addrs.first() + spec_addrs_bytes(
            addrs.drop_first(),
        )
    }
}

/// The serialized ticket: topic id, address count, then the address list.
pub open spec fn spec_ticket_bytes(t: TicketV) -> Seq<u8> {
    t.topic + spec_u64_to_le_bytes(t.endpoints.len() as u64) + spec_addrs_bytes(t.endpoints)
}

/// Parses exactly `n` address records, requiring the input to be fully
/// consumed.
pub open spec fn spec_parse_addrs(b: Seq<u8>, n: nat) -> Option<Seq<Seq<u8>>>
    decreases n,
{
    if n == 0 {
        if b.len() == 0 {
            Some(Seq::empty())
        } else {
            None
        }
    } else if b.len() < 8 {
        None
    } else {
        let l = spec_u64_from_le_bytes(b.subrange(0, 8));
        if b.len() - 8 < l {
            None
        } else {
            match spec_parse_addrs(b.subrange(8 + l, b.len() as int), (n - 1) as nat) {
                Some(rest) => Some(seq![b.subrange(8, 8 + l)] + rest),
                None => None,
            }
        }
    }
}

/// The ticket a byte string parses to, or nothing when it is malformed.
pub open spec fn spec_ticket_from_bytes(b: Seq<u8>) -> Option<TicketV> {
    if b.len() < ADDRS_POS {
        None
    } else {
        let topic = b.subrange(0, ID_LEN as int);
        let n = spec_u64_from_le_bytes(b.subrange(COUNT_POS as int, ADDRS_POS as int));
        match spec_parse_addrs(b.subrange(ADDRS_POS as int, b.len() as int), n as nat) {
            Some(addrs) => Some(TicketV { topic, endpoints: addrs }),
            None => None,
        }
    }
}

/// Parsing inverts serialization of the address list.
proof fn lemma_addrs_round_trip(addrs: Seq<Seq<u8>>)
    requires
        forall|i: int| 0 <= i < addrs.len() ==> #[trigger] addrs[i].len() <= u64::MAX,
    ensures
        spec_parse_addrs(spec_addrs_bytes(addrs), addrs.len()) == Some(addrs),
    decreases addrs.len(),
{
    lemma_auto_spec_u64_to_from_le_bytes();
    if addrs.len() == 0 {
        assert(spec_addrs_bytes(addrs) =~= Seq::<u8>::empty());
    } else {
        let a0 = addrs.first();
        let l = a0.len() as u64;
        let e = spec_addrs_bytes(addrs);
        let tail_bytes = spec_addrs_bytes(addrs.drop_first());
        assert(e.subrange(0, 8) =~= spec_u64_to_le_bytes(l));
        assert(e.len() - 8 >= l);
        assert(e.subrange(8, 8 + l as int) =~= a0);
        assert(e.subrange(8 + l as int, e.len() as int) =~= tail_bytes);
        assert forall|i: int| 0 <= i < addrs.drop_first().len() implies #[trigger] addrs
            .drop_first()[i].len() <= u64::MAX by {
            assert(addrs.drop_first()[i] == addrs[i + 1]);
        }
        lemma_addrs_round_trip(addrs.drop_first());
        assert(seq![a0] + addrs.drop_first() =~= addrs);
    }
}

/// Parsing inverts serialization: every well-formed ticket survives the
/// trip to bytes and back unchanged.
pub proof fn lemma_ticket_round_trip(t: TicketV)
    requires
        t.wf(),
    ensures
        spec_ticket_from_bytes(spec_ticket_bytes(t)) == Some(t),
{
    lemma_auto_spec_u64_to_from_le_bytes();
    let e = spec_ticket_bytes(t);
    assert(e.subrange(0, ID_LEN as int) =~= t.topic);
    assert(e.subrange(COUNT_POS as int, ADDRS_POS as int) =~= spec_u64_to_le_bytes(
        t.endpoints.len() as u64,
    ));
    assert(e.subrange(ADDRS_POS as int, e.len() as int) =~= spec_addrs_bytes(t.endpoints));
    lemma_addrs_round_trip(t.endpoints);
}

impl Ticket {
    /// Serializes this ticket to its deterministic byte encoding.
    pub fn to_bytes(&self) -> (r: Vec<u8>)
        requires
            self@.wf(),
        ensures
            r@ == spec_ticket_bytes(self@),
    {
        let ghost dv = self.endpoints.deep_view();
        let mut out: Vec<u8> = Vec::new();
        append_bytes(&mut out, self.topic.bytes.as_slice());
        let count_bytes = u64_to_le_bytes(self.endpoints.len() as u64);
        append_bytes(&mut out, count_bytes.as_slice());
        let ghost base: Seq<u8> = out@;
        proof {
            assert(dv.subrange(0, dv.len() as int) =~= dv);
        }
        let mut i: usize = 0;
        while i < self.endpoints.len()
            invariant
                i <= dv.len(),
                self.endpoints.deep_view() == dv,
                self@.wf(),
                out@ + spec_addrs_bytes(dv.subrange(i as int, dv.len() as int)) == base
                    + spec_addrs_bytes(dv),
            decreases dv.len() - i,
        {
            let addr = vstd::slice::slice_index_get(self.endpoints.as_slice(), i);
            let len_bytes = u64_to_le_bytes(addr.len() as u64);
            append_bytes(&mut out, len_bytes.as_slice());
            append_bytes(&mut out, addr.as_slice());
            proof {
                let suf = dv.subrange(i as int, dv.len() as int);
                assert(suf.first() == dv[i as int]);
                assert(addr@ =~~= dv[i as int]);
                assert(suf.drop_first() =~= dv.subrange(i as int + 1, dv.len() as int));
                assert(out@ + spec_addrs_bytes(dv.subrange(i as int + 1, dv.len() as int))
                    =~= (out@ + spec_addrs_bytes(dv.subrange(i as int + 1, dv.len() as int))));
                assert((base + spec_addrs_bytes(dv)).len() == out@.len() + spec_addrs_bytes(
                    dv.subrange(i as int + 1, dv.len() as int),
                ).len()) by {
                    assert(spec_addrs_bytes(suf) == spec_u64_to_le_bytes(suf.first().len() as u64)
                        + suf.first() + spec_addrs_bytes(suf.drop_first()));
                    lemma_auto_spec_u64_to_from_le_bytes();
                }
                assert(out@ + spec_addrs_bytes(dv.subrange(i as int + 1, dv.len() as int)) =~= base
                    + spec_addrs_bytes(dv));
            }
            i += 1;
        }
        proof {
            assert(dv.subrange(dv.len() as int, dv.len() as int) =~= Seq::<Seq<u8>>::empty());
            assert(spec_addrs_bytes(Seq::<Seq<u8>>::empty()) =~= Seq::<u8>::empty());
            assert(out@ =~= base + spec_addrs_bytes(dv));
            assert(out@ =~= spec_ticket_bytes(self@));
        }
        out
    }

    /// Parses a ticket from bytes; fails exactly on inputs that no
    /// well-formed ticket encodes to.
    pub fn from_bytes(bytes: &[u8]) -> (r: Result<Ticket, TicketFormatError>)
        ensures
            match r {
                Ok(t) => t@.wf() && spec_ticket_from_bytes(bytes@) == Some(t@),
                Err(_) => spec_ticket_from_bytes(bytes@) is None,
            },
    {
        if bytes.len() < ADDRS_POS {
            return Err(TicketFormatError);
        }
        let topic = TopicId::new(read_range(bytes, 0, ID_LEN));
        let count = u64_from_le_bytes(vstd::slice::slice_subrange(bytes, COUNT_POS, ADDRS_POS));
        let ghost n = count as nat;
        let ghost whole = bytes@.subrange(ADDRS_POS as int, bytes@.len() as int);
        let mut endpoints: Vec<Vec<u8>> = Vec::new();
        let mut pos: usize = ADDRS_POS;
        let mut k: u64 = 0;
        while k < count
            invariant
                ADDRS_POS <= pos <= bytes@.len(),
                k <= count,
                n == count,
                n == spec_u64_from_le_bytes(
                    bytes@.subrange(COUNT_POS as int, ADDRS_POS as int),
                ),
                endpoints.deep_view().len() == k,
                forall|i: int| 0 <= i < endpoints.deep_view().len() ==> #[trigger] endpoints
                    .deep_view()[i].len() <= u64::MAX,
                whole == bytes@.subrange(ADDRS_POS as int, bytes@.len() as int),
                forall|x: Seq<Seq<u8>>|
                    spec_parse_addrs(
                        bytes@.subrange(pos as int, bytes@.len() as int),
                        (count - k) as nat,
                    ) == Some(x) ==> spec_parse_addrs(whole, n) == Some(
                        endpoints.deep_view() + x,
                    ),
                spec_parse_addrs(
                    bytes@.subrange(pos as int, bytes@.len() as int),
                    (count - k) as nat,
                ) is None ==> spec_parse_addrs(whole, n) is None,
            decreases count - k,
        {
            let ghost rem = bytes@.subrange(pos as int, bytes@.len() as int);
            let ghost dv0 = endpoints.deep_view();
            if bytes.len() - pos < 8 {
                proof {
                    assert(spec_parse_addrs(rem, (count - k) as nat) is None);
                }
                return Err(TicketFormatError);
            }
            let l = u64_from_le_bytes(vstd::slice::slice_subrange(bytes, pos, pos + 8));
            proof {
                assert(rem.subrange(0, 8) =~= bytes@.subrange(pos as int, pos as int + 8));
            }
            if l > (bytes.len() - pos - 8) as u64 {
                proof {
                    assert(spec_parse_addrs(rem, (count - k) as nat) is None);
                }
                return Err(TicketFormatError);
            }
            let lu: usize = l as usize;
            let addr = read_range(bytes, pos + 8, pos + 8 + lu);
            proof {
                assert(addr@ =~= rem.subrange(8, 8 + l as int));
                assert(bytes@.subrange(pos as int + 8 + l as int, bytes@.len() as int)
                    =~= rem.subrange(8 + l as int, rem.len() as int));
            }
            endpoints.push(addr);
            proof {
                assert(endpoints.deep_view() =~~= dv0.push(addr@));
                assert forall|x: Seq<Seq<u8>>|
                    spec_parse_addrs(
                        rem.subrange(8 + l as int, rem.len() as int),
                        (count - k - 1) as nat,
                    ) == Some(x) implies spec_parse_addrs(whole, n) == Some(
                    endpoints.deep_view() + x,
                ) by {
                    assert(spec_parse_addrs(rem, (count - k) as nat) == Some(
                        seq![rem.subrange(8, 8 + l as int)] + x,
                    ));
                    assert(dv0 + (seq![rem.subrange(8, 8 + l as int)] + x) =~= dv0.push(addr@)
                        + x);
                }
                assert(spec_parse_addrs(
                    rem.subrange(8 + l as int, rem.len() as int),
                    (count - k - 1) as nat,
                ) is None ==> spec_parse_addrs(rem, (count - k) as nat) is None);
            }
            pos = pos + 8 + lu;
            k = k + 1;
        }
        let ghost tail = bytes@.subrange(pos as int, bytes@.len() as int);
        if pos != bytes.len() {
            proof {
                assert(tail.len() != 0);
                assert(spec_parse_addrs(tail, 0) is None);
            }
            return Err(TicketFormatError);
        }
        proof {
            assert(tail.len() == 0);
            assert(spec_parse_addrs(tail, 0) == Some(Seq::<Seq<u8>>::empty()));
            assert(endpoints.deep_view() + Seq::<Seq<u8>>::empty() =~= endpoints.deep_view());
            assert(spec_parse_addrs(whole, n) == Some(endpoints.deep_view()));
        }
        Ok(Ticket { topic, endpoints })
    }

    /// Serializes this ticket to its shareable text token: the byte
    /// encoding, base-32 encoded without padding and lower-cased.
    pub fn encode(&self) -> (r: String)
        requires
            self@.wf(),
        ensures
            encode_utf8(r@) == spec_lower(b32_of(spec_ticket_bytes(self@))),
    {
        let bytes = self.to_bytes();
        let enc = b32_encode(bytes.as_slice());
        let low = to_lower_ascii(enc.as_slice());
        proof {
            assert forall|i: int| 0 <= i < low@.len() implies low@[i] < 128 by {
                assert(is_b32_byte(enc@[i]));
            }
            lemma_ascii_valid_utf8(low@);
            vstd::utf8::decode_utf8_encode_utf8(low@);
        }
        match string_from_utf8(low) {
            Some(s) => s,
            None => {
                proof {
                    assert(false);
                }
                String::new()
            },
        }
    }

    /// Parses a ticket from a text token, accepting either letter case;
    /// fails on invalid base 32 and on malformed payloads.  Every token
    /// that `encode` produces decodes back to the ticket it came from.
    pub fn decode(s: &str) -> (r: Result<Ticket, TicketFormatError>)
        ensures
            forall|tv: TicketV|
                (tv.wf() && encode_utf8(s@) == spec_lower(b32_of(spec_ticket_bytes(tv)))) ==> (
                r is Ok && r.unwrap()@ == tv),
            r is Ok ==> r.unwrap()@.wf(),
    {
        let sb = s.as_bytes();
        let up = to_upper_ascii(sb);
        match b32_decode(up.as_slice()) {
            Some(payload) => {
                match Ticket::from_bytes(payload.as_slice()) {
                    Ok(t) => {
                        proof {
                            assert forall|tv: TicketV|
                                (tv.wf() && encode_utf8(s@) == spec_lower(
                                    b32_of(spec_ticket_bytes(tv)),
                                )) implies t@ == tv by {
                                lemma_upper_lower(b32_of(spec_ticket_bytes(tv)));
                                assert(up@ == spec_upper(b32_of(spec_ticket_bytes(tv))));
                                assert(payload@ == spec_ticket_bytes(tv));
                                lemma_ticket_round_trip(tv);
                            }
                        }
                        Ok(t)
                    },
                    Err(_) => {
                        proof {
                            assert forall|tv: TicketV|
                                (tv.wf() && encode_utf8(s@) == spec_lower(
                                    b32_of(spec_ticket_bytes(tv)),
                                )) implies false by {
                                lemma_upper_lower(b32_of(spec_ticket_bytes(tv)));
                                assert(payload@ == spec_ticket_bytes(tv));
                                lemma_ticket_round_trip(tv);
                            }
                        }
                        Err(TicketFormatError)
                    },
                }
            },
            None => {
                proof {
                    assert forall|tv: TicketV|
                        (tv.wf() && encode_utf8(s@) == spec_lower(
                            b32_of(spec_ticket_bytes(tv)),
                        )) implies false by {
                        lemma_upper_lower(b32_of(spec_ticket_bytes(tv)));
                        assert(up@ == spec_upper(b32_of(spec_ticket_bytes(tv))));
                    }
                }
                Err(TicketFormatError)
            },
        }
    }
}

} // verus!
