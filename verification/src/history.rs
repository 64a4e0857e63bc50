//! Bounded local chat history and the local user's view state.
//!
//! The history is an ordered sequence of display entries, soft-capped at
//! [`HISTORY_CAP`] entries: each time an insertion pushes the length past the
//! cap, the oldest [`TRIM_BATCH`] entries are dropped in one batch.  The
//! sent-id queue records, oldest first, the ids of messages the local peer
//! authored, so that "delete my most recent message" needs no history scan.

use vstd::prelude::*;

verus! {

/// Soft cap on the number of history entries.
pub const HISTORY_CAP: usize = 1000;

/// How many of the oldest entries one trim removes.
pub const TRIM_BATCH: usize = 100;

/// A single chat message as shown to the user.
#[derive(Debug, Clone)]
pub struct ChatMessage {
    /// Unique id used for cooperative deletion across peers.
    pub id: u64,
    pub sender: String,
    pub content: String,
    /// Whether the message arrived in encrypted form.
    pub encrypted: bool,
}

/// An entry of the display stream: a chat line, a system notice, or an
/// instruction to remove the chat message with the given id.
#[derive(Debug, Clone)]
pub enum UiMessage {
    Chat(ChatMessage),
    System(String),
    /// Instructs the history to remove the chat message with this id.
    Delete(u64),
}

/// Input mode of the user interface.
#[derive(PartialEq, Eq, Structural)]
pub enum Mode {
    /// Typing mode: keys go into the input buffer.
    Insert,
    /// Command mode: control keys trigger actions.
    Normal,
}

/// The local view state: input buffer, bounded history, mode, the queue of
/// ids the local peer sent, and the scroll position.
pub struct App {
    pub input: String,
    pub messages: Vec<UiMessage>,
    pub mode: Mode,
    /// Ids of messages the local peer sent, oldest first.
    pub my_sent_ids: Vec<u64>,
    /// How many lines up from the newest entry the view is scrolled;
    /// 0 means pinned to the newest entry.
    pub scroll_offset: usize,
}

/// Whether `m` is a chat entry carrying the id `id`.
pub open spec fn is_chat_with_id(m: UiMessage, id: u64) -> bool {
    match m {
        UiMessage::Chat(c) => c.id == id,
        _ => false,
    }
}

/// The history after appending `m`: push, then, if the cap is exceeded,
/// drop the oldest `TRIM_BATCH` entries in one batch.
pub open spec fn spec_insert(msgs: Seq<UiMessage>, m: UiMessage) -> Seq<UiMessage> {
    let pushed = msgs.push(m);
    if pushed.len() > HISTORY_CAP {
        pushed.subrange(TRIM_BATCH as int, pushed.len() as int)
    } else {
        pushed
    }
}

/// The history after a deletion of `id`, before the generic notice is
/// appended: every chat entry with that id is removed, order kept.
pub open spec fn spec_purge(msgs: Seq<UiMessage>, id: u64) -> Seq<UiMessage>
    decreases msgs.len(),
{
    if msgs.len() == 0 {
        Seq::empty()
    } else if is_chat_with_id(msgs.first(), id) {
        spec_purge(msgs.drop_first(), id)
    } else {
        seq![msgs.first()] + spec_purge(msgs.drop_first(), id)
    }
}

/// The sent-id queue after a deletion of `id`: every occurrence removed.
pub open spec fn spec_remove_id(ids: Seq<u64>, id: u64) -> Seq<u64>
    decreases ids.len(),
{
    if ids.len() == 0 {
        Seq::empty()
    } else if ids.first() == id {
        spec_remove_id(ids.drop_first(), id)
    } else {
        seq![ids.first()] + spec_remove_id(ids.drop_first(), id)
    }
}

/// Whether `m` is the generic notice appended after a deletion.
pub open spec fn is_deleted_notice(m: UiMessage) -> bool {
    match m {
        UiMessage::System(s) => s@ == "A message was deleted."@,
        _ => false,
    }
}

/// Whether `m` is the local-only notice shown when there is nothing to delete.
pub open spec fn is_nothing_to_delete_notice(m: UiMessage) -> bool {
    match m {
        UiMessage::System(s) => s@ == "No messages to delete."@,
        _ => false,
    }
}

/// Inserting into a history that respects the soft cap keeps it within the
/// cap, and a trim removes exactly the `TRIM_BATCH` oldest entries at once.
pub proof fn lemma_history_bound(msgs: Seq<UiMessage>, m: UiMessage)
    requires
        msgs.len() <= HISTORY_CAP,
    ensures
        spec_insert(msgs, m).len() <= HISTORY_CAP,
        msgs.len() + 1 > HISTORY_CAP ==> spec_insert(msgs, m) == msgs.push(m).subrange(
            TRIM_BATCH as int,
            msgs.len() as int + 1,
        ),
{
}

impl App {
    /// A fresh view state: empty buffers, typing mode, pinned to the newest entry.
    pub fn new() -> (r: App)
        ensures
            r.input@.len() == 0,
            r.messages@.len() == 0,
            r.mode == Mode::Insert,
            r.my_sent_ids@.len() == 0,
            r.scroll_offset == 0,
    {
        App {
            input: String::new(),
            messages: Vec::new(),
            mode: Mode::Insert,
            my_sent_ids: Vec::new(),
            scroll_offset: 0,
        }
    }

    /// Applies one display event.  A `Delete(id)` removes every chat entry
    /// with that id, drops `id` from the sent-id queue, and appends the
    /// generic deletion notice, with no other change.  Any other event is
    /// appended; if the history then exceeds the cap, the oldest
    /// `TRIM_BATCH` entries are dropped in one batch.
    pub fn add_message(&mut self, msg: UiMessage)
        ensures
            final(self).input == old(self).input,
            final(self).mode == old(self).mode,
            final(self).scroll_offset == old(self).scroll_offset,
            match msg {
                UiMessage::Delete(id) => {
                    &&& final(self).messages@.len() == spec_purge(old(self).messages@, id).len()
                        + 1
                    &&& final(self).messages@.drop_last() == spec_purge(old(self).messages@, id)
                    &&& is_deleted_notice(final(self).messages@.last())
                    &&& final(self).my_sent_ids@ == spec_remove_id(old(self).my_sent_ids@, id)
                },
                _ => {
                    &&& final(self).messages@ == spec_insert(old(self).messages@, msg)
                    &&& final(self).my_sent_ids == old(self).my_sent_ids
                },
            },
    {
        if let UiMessage::Delete(id) = msg {
            let ghost orig: Seq<UiMessage> = self.messages@;
            let mut rest = self.messages.split_off(0);
            let mut kept: Vec<UiMessage> = Vec::new();
            proof {
                assert(rest@ =~= orig);
            }
            while rest.len() > 0
                invariant
                    kept@ + spec_purge(rest@, id) == spec_purge(orig, id),
                decreases rest@.len(),
            {
                let ghost rest_before: Seq<UiMessage> = rest@;
                let m = rest.remove(0);
                proof {
                    assert(m == rest_before.first());
                    assert(rest@ =~= rest_before.drop_first());
                }
                let keep = match &m {
                    UiMessage::Chat(c) => c.id != id,
                    _ => true,
                };
                if keep {
                    kept.push(m);
                    proof {
                        assert(kept@ + spec_purge(rest@, id) =~= kept@.drop_last() + (seq![
                            rest_before.first(),
                        ] + spec_purge(rest_before.drop_first(), id)));
                    }
                } else {
                    proof {
                        assert(spec_purge(rest_before, id) == spec_purge(rest@, id));
                    }
                }
            }
            proof {
                assert(kept@ + spec_purge(rest@, id) =~= kept@);
            }
            self.messages = kept;
            let ghost orig_ids: Seq<u64> = self.my_sent_ids@;
            let mut rest_ids = self.my_sent_ids.split_off(0);
            let mut kept_ids: Vec<u64> = Vec::new();
            proof {
                assert(rest_ids@ =~= orig_ids);
            }
            while rest_ids.len() > 0
                invariant
                    kept_ids@ + spec_remove_id(rest_ids@, id) == spec_remove_id(orig_ids, id),
                decreases rest_ids@.len(),
            {
                let ghost ids_before: Seq<u64> = rest_ids@;
                let v = rest_ids.remove(0);
                proof {
                    assert(v == ids_before.first());
                    assert(rest_ids@ =~= ids_before.drop_first());
                }
                if v != id {
                    kept_ids.push(v);
                    proof {
                        assert(kept_ids@ + spec_remove_id(rest_ids@, id) =~= kept_ids@
                            .drop_last() + (seq![ids_before.first()] + spec_remove_id(
                            ids_before.drop_first(),
                            id,
                        )));
                    }
                }
            }
            proof {
                assert(kept_ids@ + spec_remove_id(rest_ids@, id) =~= kept_ids@);
            }
            self.my_sent_ids = kept_ids;
            self.messages.push(UiMessage::System("A message was deleted.".to_owned()));
            return;
        }
        self.messages.push(msg);
        if self.messages.len() > HISTORY_CAP {
            let tail = self.messages.split_off(TRIM_BATCH);
            self.messages = tail;
        }
    }

    /// Scrolls the view up by `n` lines, clamped so the offset never exceeds
    /// the index of the oldest entry (and stays 0 on an empty history).
    pub fn scroll_up(&mut self, n: usize)
        ensures
            final(self).scroll_offset == vstd::math::min(
                old(self).scroll_offset + n,
                if old(self).messages@.len() == 0 {
                    0
                } else {
                    old(self).messages@.len() - 1
                },
            ),
            final(self).input == old(self).input,
            final(self).messages == old(self).messages,
            final(self).mode == old(self).mode,
            final(self).my_sent_ids == old(self).my_sent_ids,
    {
        let limit: usize = if self.messages.len() == 0 {
            0
        } else {
            self.messages.len() - 1
        };
        let raised = self.scroll_offset.saturating_add(n);
        self.scroll_offset = if raised < limit {
            raised
        } else {
            limit
        };
    }

    /// Scrolls the view down by `n` lines, clamped at 0 (pinned to newest).
    pub fn scroll_down(&mut self, n: usize)
        ensures
            final(self).scroll_offset == vstd::math::max(
                old(self).scroll_offset - n,
                0,
            ),
            final(self).input == old(self).input,
            final(self).messages == old(self).messages,
            final(self).mode == old(self).mode,
            final(self).my_sent_ids == old(self).my_sent_ids,
    {
        self.scroll_offset = self.scroll_offset.saturating_sub(n);
    }

    /// Records that the local peer sent the message with this id, at send
    /// time, so it can later be deleted with `delete_most_recent_own`.
    pub fn record_sent(&mut self, id: u64)
        ensures
            final(self).my_sent_ids@ == old(self).my_sent_ids@.push(id),
            final(self).input == old(self).input,
            final(self).messages == old(self).messages,
            final(self).mode == old(self).mode,
            final(self).scroll_offset == old(self).scroll_offset,
    {
        self.my_sent_ids.push(id);
    }

    /// Deletes the local peer's most recent message, if any: pops the newest
    /// sent id, applies the deletion locally, and returns the id so the
    /// caller can broadcast the delete request.  With an empty queue it only
    /// appends a local notice and returns nothing.
    pub fn delete_most_recent_own(&mut self) -> (r: Option<u64>)
        ensures
            final(self).input == old(self).input,
            final(self).mode == old(self).mode,
            final(self).scroll_offset == old(self).scroll_offset,
            match r {
                Some(id) => {
                    &&& old(self).my_sent_ids@.len() > 0
                    &&& id == old(self).my_sent_ids@.last()
                    &&& final(self).my_sent_ids@ == spec_remove_id(
                        old(self).my_sent_ids@.drop_last(),
                        id,
                    )
                    &&& final(self).messages@.drop_last() == spec_purge(
                        old(self).messages@,
                        id,
                    )
                    &&& is_deleted_notice(final(self).messages@.last())
                },
                None => {
                    &&& old(self).my_sent_ids@.len() == 0
                    &&& final(self).my_sent_ids@ == old(self).my_sent_ids@
                    &&& final(self).messages@ == spec_insert(
                        old(self).messages@,
                        final(self).messages@.last(),
                    )
                    &&& is_nothing_to_delete_notice(final(self).messages@.last())
                },
            },
    {
        match self.my_sent_ids.pop() {
            Some(id) => {
                self.add_message(UiMessage::Delete(id));
                Some(id)
            },
            None => {
                self.add_message(
                    UiMessage::System("No messages to delete.".to_owned()),
                );
                None
            },
        }
    }
}

} // verus!
