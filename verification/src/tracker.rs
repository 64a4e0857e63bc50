//! The ownership and session tracker: consumes decoded envelopes one at a
//! time, in whatever order the substrate delivers them, and maintains the
//! peer directory (peer id to display name, last write wins) and the
//! ownership table (message id to originating peer id).  It decides whether
//! to decrypt, emit display events, or authorize a cooperative deletion:
//! a delete request is honoured exactly when the ownership table records
//! the requesting peer as the sender of that message id.

use vstd::prelude::*;

verus! {

use crate::crypto::aead_seal;
use crate::crypto::decrypt_message;
use crate::crypto::sha256_of;
use crate::crypto::CryptoError;
use crate::crypto::MAX_PLAINTEXT_LEN;
use crate::crypto::TAG_LEN;
use crate::history::ChatMessage;
use crate::history::UiMessage;
use crate::ids::spec_short_label;
use crate::ids::PeerId;
use crate::ids::TopicId;
use crate::wire::BodyV;
use crate::wire::Message;
use crate::wire::MessageBody;
use vstd::string::StringExecFns;
use vstd::utf8::encode_utf8;

/// The peer directory as a map: the value of an association list, where a
/// later entry for the same key wins.
pub open spec fn names_view(s: Seq<(PeerId, String)>) -> Map<Seq<u8>, Seq<char>>
    decreases s.len(),
{
    if s.len() == 0 {
        Map::empty()
    } else {
        names_view(s.drop_last()).insert(s.last().0@, s.last().1@)
    }
}

/// The ownership table as a map, likewise.
pub open spec fn owners_view(s: Seq<(u64, PeerId)>) -> Map<u64, Seq<u8>>
    decreases s.len(),
{
    if s.len() == 0 {
        Map::empty()
    } else {
        owners_view(s.drop_last()).insert(s.last().0, s.last().1@)
    }
}

/// No two entries of the directory share a key.
pub open spec fn names_unique(s: Seq<(PeerId, String)>) -> bool {
    forall|i: int, j: int| 0 <= i < j < s.len() ==> s[i].0@ != s[j].0@
}

/// No two entries of the ownership table share a key.
pub open spec fn owners_unique(s: Seq<(u64, PeerId)>) -> bool {
    forall|i: int, j: int| 0 <= i < j < s.len() ==> s[i].0 != s[j].0
}

proof fn lemma_names_view_contains(s: Seq<(PeerId, String)>, k: Seq<u8>)
    ensures
        names_view(s).contains_key(k) <==> exists|i: int| 0 <= i < s.len() && s[i].0@ == k,
    decreases s.len(),
{
    if s.len() > 0 {
        lemma_names_view_contains(s.drop_last(), k);
        if names_view(s).contains_key(k) {
            if s.last().0@ == k {
                assert(s[s.len() - 1].0@ == k);
            } else {
                let i = choose|i: int| 0 <= i < s.drop_last().len() && s.drop_last()[i].0@ == k;
                assert(s[i].0@ == k);
            }
        }
        if exists|i: int| 0 <= i < s.len() && s[i].0@ == k {
            let i = choose|i: int| 0 <= i < s.len() && s[i].0@ == k;
            if i < s.len() - 1 {
                assert(s.drop_last()[i].0@ == k);
            }
        }
    }
}

proof fn lemma_owners_view_contains(s: Seq<(u64, PeerId)>, k: u64)
    ensures
        owners_view(s).contains_key(k) <==> exists|i: int| 0 <= i < s.len() && s[i].0 == k,
    decreases s.len(),
{
    if s.len() > 0 {
        lemma_owners_view_contains(s.drop_last(), k);
        if owners_view(s).contains_key(k) {
            if s.last().0 == k {
                assert(s[s.len() - 1].0 == k);
            } else {
                let i = choose|i: int| 0 <= i < s.drop_last().len() && s.drop_last()[i].0 == k;
                assert(s[i].0 == k);
            }
        }
        if exists|i: int| 0 <= i < s.len() && s[i].0 == k {
            let i = choose|i: int| 0 <= i < s.len() && s[i].0 == k;
            if i < s.len() - 1 {
                assert(s.drop_last()[i].0 == k);
            }
        }
    }
}

proof fn lemma_names_view_lookup(s: Seq<(PeerId, String)>, i: int)
    requires
        names_unique(s),
        0 <= i < s.len(),
    ensures
        names_view(s).contains_key(s[i].0@),
        names_view(s)[s[i].0@] == s[i].1@,
    decreases s.len(),
{
    if i == s.len() - 1 {
    } else {
        assert(s.drop_last()[i] == s[i]);
        lemma_names_view_lookup(s.drop_last(), i);
        assert(s.last().0@ != s[i].0@);
    }
}

proof fn lemma_owners_view_lookup(s: Seq<(u64, PeerId)>, i: int)
    requires
        owners_unique(s),
        0 <= i < s.len(),
    ensures
        owners_view(s).contains_key(s[i].0),
        owners_view(s)[s[i].0] == s[i].1@,
    decreases s.len(),
{
    if i == s.len() - 1 {
    } else {
        assert(s.drop_last()[i] == s[i]);
        lemma_owners_view_lookup(s.drop_last(), i);
        assert(s.last().0 != s[i].0);
    }
}

proof fn lemma_names_view_remove(s: Seq<(PeerId, String)>, i: int)
    requires
        names_unique(s),
        0 <= i < s.len(),
    ensures
        names_view(s.remove(i)) == names_view(s).remove(s[i].0@),
        names_unique(s.remove(i)),
    decreases s.len(),
{
    let k = s[i].0@;
    lemma_names_view_contains(s.drop_last(), k);
    if i == s.len() - 1 {
        assert(s.remove(i) =~= s.drop_last());
        assert(!names_view(s.drop_last()).contains_key(k));
        assert(names_view(s.drop_last()).insert(k, s.last().1@).remove(k) =~= names_view(
            s.drop_last(),
        ));
    } else {
        assert(s.remove(i).drop_last() =~= s.drop_last().remove(i));
        assert(s.remove(i).last() == s.last());
        assert(s.drop_last()[i] == s[i]);
        lemma_names_view_remove(s.drop_last(), i);
        assert(s.last().0@ != k);
        assert(names_view(s.drop_last()).remove(k).insert(s.last().0@, s.last().1@)
            =~= names_view(s.drop_last()).insert(s.last().0@, s.last().1@).remove(k));
        assert forall|a: int, b: int| 0 <= a < b < s.remove(i).len() implies s.remove(i)[a].0@
            != s.remove(i)[b].0@ by {
            let a2 = if a < i {
                a
            } else {
                a + 1
            };
            let b2 = if b < i {
                b
            } else {
                b + 1
            };
            assert(s.remove(i)[a] == s[a2]);
            assert(s.remove(i)[b] == s[b2]);
        }
    }
}

proof fn lemma_owners_view_remove(s: Seq<(u64, PeerId)>, i: int)
    requires
        owners_unique(s),
        0 <= i < s.len(),
    ensures
        owners_view(s.remove(i)) == owners_view(s).remove(s[i].0),
        owners_unique(s.remove(i)),
    decreases s.len(),
{
    let k = s[i].0;
    lemma_owners_view_contains(s.drop_last(), k);
    if i == s.len() - 1 {
        assert(s.remove(i) =~= s.drop_last());
        assert(!owners_view(s.drop_last()).contains_key(k));
        assert(owners_view(s.drop_last()).insert(k, s.last().1@).remove(k) =~= owners_view(
            s.drop_last(),
        ));
    } else {
        assert(s.remove(i).drop_last() =~= s.drop_last().remove(i));
        assert(s.remove(i).last() == s.last());
        assert(s.drop_last()[i] == s[i]);
        lemma_owners_view_remove(s.drop_last(), i);
        assert(s.last().0 != k);
        assert(owners_view(s.drop_last()).remove(k).insert(s.last().0, s.last().1@)
            =~= owners_view(s.drop_last()).insert(s.last().0, s.last().1@).remove(k));
        assert forall|a: int, b: int| 0 <= a < b < s.remove(i).len() implies s.remove(i)[a].0
            != s.remove(i)[b].0 by {
            let a2 = if a < i {
                a
            } else {
                a + 1
            };
            let b2 = if b < i {
                b
            } else {
                b + 1
            };
            assert(s.remove(i)[a] == s[a2]);
            assert(s.remove(i)[b] == s[b2]);
        }
    }
}

/// The display name used for a peer: its directory entry, or, for a peer
/// never announced, the short rendering of its raw identifier.
pub open spec fn spec_display_name(names: Map<Seq<u8>, Seq<char>>, from: Seq<u8>) -> Seq<char> {
    if names.contains_key(from) {
        names[from]
    } else {
        spec_short_label(from)
    }
}

/// The text of the notice shown when an envelope fails to decrypt.
pub open spec fn spec_decrypt_fail_text(disp: Seq<char>, e: CryptoError) -> Seq<char> {
    "Failed to decrypt message from "@ + disp + ": "@ + (match e {
        CryptoError::Encoding => "invalid text"@,
        _ => "authentication failed"@,
    })
}

/// The text of the notice shown when a peer announces itself.
pub open spec fn spec_joined_text(name: Seq<char>) -> Seq<char> {
    name + " joined the chat"@
}

/// Writing twice to the same id keeps only the later owner: ownership is
/// last write wins, whatever was recorded before.
pub proof fn lemma_owner_last_write_wins(
    m: Map<u64, Seq<u8>>,
    id: u64,
    p1: Seq<u8>,
    p2: Seq<u8>,
)
    ensures
        m.insert(id, p1).insert(id, p2) == m.insert(id, p2),
{
    assert(m.insert(id, p1).insert(id, p2) =~= m.insert(id, p2));
}

/// The per-topic session state.
pub struct Tracker {
    my_id: PeerId,
    topic: TopicId,
    names: Vec<(PeerId, String)>,
    owners: Vec<(u64, PeerId)>,
}

impl Tracker {
    /// The peer directory of this tracker.
    pub closed spec fn names_map(&self) -> Map<Seq<u8>, Seq<char>> {
        names_view(self.names@)
    }

    /// The ownership table of this tracker.
    pub closed spec fn owners_map(&self) -> Map<u64, Seq<u8>> {
        owners_view(self.owners@)
    }

    /// The local peer's identifier.
    pub closed spec fn my_id_view(&self) -> Seq<u8> {
        self.my_id@
    }

    /// The topic this tracker serves.
    pub closed spec fn topic_view(&self) -> Seq<u8> {
        self.topic@
    }

    /// Internal validity: identifiers well-formed, table keys unique.
    pub closed spec fn wf(&self) -> bool {
        &&& self.my_id.wf()
        &&& self.topic.wf()
        &&& names_unique(self.names@)
        &&& owners_unique(self.owners@)
    }

    /// A fresh tracker for one topic.  The local peer pre-registers itself
    /// in the peer directory under its own name.
    pub fn new(my_id: PeerId, my_name: String, topic: TopicId) -> (r: Tracker)
        requires
            my_id.wf(),
            topic.wf(),
        ensures
            r.wf(),
            r.my_id_view() == my_id@,
            r.topic_view() == topic@,
            r.names_map() == Map::<Seq<u8>, Seq<char>>::empty().insert(my_id@, my_name@),
            r.owners_map() == Map::<u64, Seq<u8>>::empty(),
    {
        let ghost my_id_v = my_id@;
        let ghost my_name_v = my_name@;
        let mut names: Vec<(PeerId, String)> = Vec::new();
        names.push((my_id, my_name));
        proof {
            assert(names@.drop_last() =~= Seq::<(PeerId, String)>::empty());
            assert(names_view(Seq::<(PeerId, String)>::empty()) =~= Map::<
                Seq<u8>,
                Seq<char>,
            >::empty());
            assert(names_view(names@) =~= Map::<Seq<u8>, Seq<char>>::empty().insert(
                my_id_v,
                my_name_v,
            ));
        }
        Tracker { my_id: names[0].0.duplicate(), topic, names, owners: Vec::new() }
    }

    /// Replaces (or adds) the directory entry for `from`.
    fn upsert_name(&mut self, from: PeerId, name: String)
        requires
            old(self).wf(),
        ensures
            final(self).wf(),
            final(self).names_map() == old(self).names_map().insert(from@, name@),
            final(self).owners_map() == old(self).owners_map(),
            final(self).my_id_view() == old(self).my_id_view(),
            final(self).topic_view() == old(self).topic_view(),
            final(self).my_id == old(self).my_id,
            final(self).topic == old(self).topic,
    {
        let ghost orig = self.names@;
        let mut i: usize = 0;
        let mut found: bool = false;
        while i < self.names.len() && !found
            invariant
                i <= self.names@.len(),
                self.names@ == orig,
                !found ==> forall|j: int| 0 <= j < i ==> orig[j].0@ != from@,
                found ==> i < orig.len() && orig[i as int].0@ == from@,
            decreases orig.len() - i + (if found {
                0int
            } else {
                1int
            }),
        {
            let pair = vstd::slice::slice_index_get(self.names.as_slice(), i);
            if pair.0.same_as(&from) {
                found = true;
            } else {
                i += 1;
            }
        }
        if found {
            proof {
                lemma_names_view_remove(orig, i as int);
            }
            self.names.remove(i);
            proof {
                lemma_names_view_contains(self.names@, from@);
            }
            self.names.push((from, name));
            proof {
                assert(self.names@.drop_last() =~= orig.remove(i as int));
                assert(names_view(self.names@) =~= names_view(orig).insert(
                    self.names@.last().0@,
                    self.names@.last().1@,
                ));
                let s = self.names@;
                assert forall|a: int, b: int| 0 <= a < b < s.len() implies s[a].0@ != s[b].0@ by {
                    if b < s.len() - 1 {
                        assert(s[a] == orig.remove(i as int)[a]);
                        assert(s[b] == orig.remove(i as int)[b]);
                    } else {
                        assert(s[a] == orig.remove(i as int)[a]);
                        lemma_names_view_contains(orig.remove(i as int), from@);
                        assert(!names_view(orig.remove(i as int)).contains_key(from@));
                    }
                }
            }
        } else {
            proof {
                lemma_names_view_contains(orig, from@);
                assert(!names_view(orig).contains_key(from@));
            }
            self.names.push((from, name));
            proof {
                assert(self.names@.drop_last() =~= orig);
                let s = self.names@;
                assert forall|a: int, b: int| 0 <= a < b < s.len() implies s[a].0@ != s[b].0@ by {
                    if b == s.len() - 1 {
                        assert(s[a] == orig[a]);
                    }
                }
            }
        }
    }

    /// Records (or overwrites) the owner of message `id`.
    fn upsert_owner(&mut self, id: u64, peer: PeerId)
        requires
            old(self).wf(),
        ensures
            final(self).wf(),
            final(self).owners_map() == old(self).owners_map().insert(id, peer@),
            final(self).names_map() == old(self).names_map(),
            final(self).my_id_view() == old(self).my_id_view(),
            final(self).topic_view() == old(self).topic_view(),
            final(self).my_id == old(self).my_id,
            final(self).topic == old(self).topic,
    {
        let ghost orig = self.owners@;
        let mut i: usize = 0;
        let mut found: bool = false;
        while i < self.owners.len() && !found
            invariant
                i <= self.owners@.len(),
                self.owners@ == orig,
                !found ==> forall|j: int| 0 <= j < i ==> orig[j].0 != id,
                found ==> i < orig.len() && orig[i as int].0 == id,
            decreases orig.len() - i + (if found {
                0int
            } else {
                1int
            }),
        {
            let pair = vstd::slice::slice_index_get(self.owners.as_slice(), i);
            if pair.0 == id {
                found = true;
            } else {
                i += 1;
            }
        }
        if found {
            proof {
                lemma_owners_view_remove(orig, i as int);
            }
            self.owners.remove(i);
            self.owners.push((id, peer));
            proof {
                assert(self.owners@.drop_last() =~= orig.remove(i as int));
                assert(owners_view(self.owners@) =~= owners_view(orig).insert(
                    self.owners@.last().0,
                    self.owners@.last().1@,
                ));
                let s = self.owners@;
                assert forall|a: int, b: int| 0 <= a < b < s.len() implies s[a].0 != s[b].0 by {
                    if b < s.len() - 1 {
                        assert(s[a] == orig.remove(i as int)[a]);
                        assert(s[b] == orig.remove(i as int)[b]);
                    } else {
                        assert(s[a] == orig.remove(i as int)[a]);
                        lemma_owners_view_contains(orig.remove(i as int), id);
                        assert(!owners_view(orig.remove(i as int)).contains_key(id));
                    }
                }
            }
        } else {
            proof {
                lemma_owners_view_contains(orig, id);
                assert(!owners_view(orig).contains_key(id));
            }
            self.owners.push((id, peer));
            proof {
                assert(self.owners@.drop_last() =~= orig);
                let s = self.owners@;
                assert forall|a: int, b: int| 0 <= a < b < s.len() implies s[a].0 != s[b].0 by {
                    if b == s.len() - 1 {
                        assert(s[a] == orig[a]);
                    }
                }
            }
        }
    }

    /// The display name for `from`: the directory entry, or the short
    /// rendering of the identifier when the peer was never announced.
    fn display_name(&self, from: &PeerId) -> (r: String)
        requires
            self.wf(),
            from.wf(),
        ensures
            r@ == spec_display_name(self.names_map(), from@),
    {
        let ghost s = self.names@;
        let mut i: usize = 0;
        while i < self.names.len()
            invariant
                i <= s.len(),
                self.names@ == s,
                self.wf(),
                from.wf(),
                forall|j: int| 0 <= j < i ==> s[j].0@ != from@,
            decreases s.len() - i,
        {
            let pair = vstd::slice::slice_index_get(self.names.as_slice(), i);
            if pair.0.same_as(from) {
                proof {
                    lemma_names_view_lookup(s, i as int);
                }
                return pair.1.clone();
            }
            i += 1;
        }
        proof {
            lemma_names_view_contains(s, from@);
            assert(!names_view(s).contains_key(from@));
        }
        from.short_label()
    }

    /// Processes one decoded envelope, in delivery order, and returns the
    /// display events it gives rise to.
    ///
    /// An announcement upserts the peer directory (and is echoed as a
    /// joined notice unless it is the local peer's own).  A chat payload
    /// unconditionally re-asserts ownership of its id (last write wins) and,
    /// unless the local peer sent it, is decrypted and shown, or reported as
    /// undecryptable.  A delete request is honoured exactly when its sender
    /// matches the recorded owner; an unauthorized one changes nothing and
    /// is dropped without any event.
    pub fn handle_message(&mut self, msg: Message) -> (evs: Vec<UiMessage>)
        requires
            old(self).wf(),
            msg@.wf(),
        ensures
            final(self).wf(),
            final(self).my_id_view() == old(self).my_id_view(),
            final(self).topic_view() == old(self).topic_view(),
            match msg@.body {
                BodyV::AboutMe { from, name } => {
                    &&& final(self).names_map() == old(self).names_map().insert(from, name)
                    &&& final(self).owners_map() == old(self).owners_map()
                    &&& (from == old(self).my_id_view() ==> evs@.len() == 0)
                    &&& (from != old(self).my_id_view() ==> evs@.len() == 1 && match evs@[0] {
                        UiMessage::System(s) => s@ == spec_joined_text(name),
                        _ => false,
                    })
                },
                BodyV::EncryptedMessage { from, id, ciphertext, nonce } => {
                    &&& final(self).names_map() == old(self).names_map()
                    &&& final(self).owners_map() == old(self).owners_map().insert(id, from)
                    &&& (from == old(self).my_id_view() ==> evs@.len() == 0)
                    &&& (from != old(self).my_id_view() ==> {
                        let key = sha256_of(old(self).topic_view());
                        let disp = spec_display_name(old(self).names_map(), from);
                        &&& evs@.len() == 1
                        &&& (forall|t: Seq<char>|
                            (encode_utf8(t).len() + TAG_LEN == ciphertext.len() && encode_utf8(
                                t,
                            ).len() < MAX_PLAINTEXT_LEN && ciphertext == aead_seal(
                                key,
                                nonce,
                                encode_utf8(t),
                            )) ==> match evs@[0] {
                                UiMessage::Chat(c) => c.id == id && c.sender@ == disp
                                    && c.content@ == t && c.encrypted,
                                _ => false,
                            })
                        &&& match evs@[0] {
                            UiMessage::Chat(c) => c.id == id && c.sender@ == disp && c.encrypted
                                && ciphertext == aead_seal(key, nonce, encode_utf8(c.content@)),
                            UiMessage::System(s) => exists|e: CryptoError| s@
                                == spec_decrypt_fail_text(disp, e),
                            UiMessage::Delete(_) => false,
                        }
                        &&& ((forall|pt: Seq<u8>|
                            (pt.len() + TAG_LEN == ciphertext.len() && pt.len()
                                < MAX_PLAINTEXT_LEN) ==> ciphertext != aead_seal(
                                key,
                                nonce,
                                pt,
                            )) ==> match evs@[0] {
                            UiMessage::System(s) => s@ == spec_decrypt_fail_text(
                                disp,
                                CryptoError::Authentication,
                            ),
                            _ => false,
                        })
                    })
                },
                BodyV::DeleteMessage { from, id } => {
                    &&& final(self).names_map() == old(self).names_map()
                    &&& if old(self).owners_map().contains_key(id) && old(self).owners_map()[id]
                        == from {
                        final(self).owners_map() == old(self).owners_map().remove(id) && evs@
                            =~= seq![UiMessage::Delete(id)]
                    } else {
                        final(self).owners_map() == old(self).owners_map() && evs@.len() == 0
                    }
                },
            },
    {
        let mut evs: Vec<UiMessage> = Vec::new();
        match msg.body {
            MessageBody::AboutMe { from, name } => {
                let is_me = from.same_as(&self.my_id);
                if is_me {
                    self.upsert_name(from, name);
                } else {
                    let notice = name.clone().concat(" joined the chat");
                    self.upsert_name(from, name);
                    evs.push(UiMessage::System(notice));
                }
            },
            MessageBody::EncryptedMessage { from, id, ciphertext, nonce } => {
                let sender = from.duplicate();
                self.upsert_owner(id, from);
                if !sender.same_as(&self.my_id) {
                    let disp = self.display_name(&sender);
                    match decrypt_message(ciphertext.as_slice(), nonce.as_slice(), &self.topic) {
                        Ok(content) => {
                            evs.push(
                                UiMessage::Chat(
                                    ChatMessage { id, sender: disp, content, encrypted: true },
                                ),
                            );
                        },
                        Err(e) => {
                            let reason: &str = match e {
                                CryptoError::Encoding => "invalid text",
                                _ => "authentication failed",
                            };
                            let notice = String::from_str("Failed to decrypt message from ")
                                .concat(disp.as_str()).concat(": ").concat(reason);
                            proof {
                                assert(notice@ == spec_decrypt_fail_text(disp@, e));
                            }
                            evs.push(UiMessage::System(notice));
                        },
                    }
                }
            },
            MessageBody::DeleteMessage { from, id } => {
                let ghost orig = self.owners@;
                let mut i: usize = 0;
                let mut found: bool = false;
                while i < self.owners.len() && !found
                    invariant
                        i <= self.owners@.len(),
                        self.owners@ == orig,
                        self.wf(),
                        !found ==> forall|j: int| 0 <= j < i ==> orig[j].0 != id,
                        found ==> i < orig.len() && orig[i as int].0 == id,
                    decreases orig.len() - i + (if found {
                        0int
                    } else {
                        1int
                    }),
                {
                    let pair = vstd::slice::slice_index_get(self.owners.as_slice(), i);
                    if pair.0 == id {
                        found = true;
                    } else {
                        i += 1;
                    }
                }
                if found {
                    let authorised = vstd::slice::slice_index_get(self.owners.as_slice(), i)
                        .1.same_as(&from);
                    proof {
                        lemma_owners_view_lookup(orig, i as int);
                    }
                    if authorised {
                        proof {
                            lemma_owners_view_remove(orig, i as int);
                        }
                        self.owners.remove(i);
                        evs.push(UiMessage::Delete(id));
                    }
                } else {
                    proof {
                        lemma_owners_view_contains(orig, id);
                        assert(!owners_view(orig).contains_key(id));
                    }
                }
            },
        }
        evs
    }
}

} // verus!
