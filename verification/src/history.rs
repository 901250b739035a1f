//! The messages on screen: the most recent notifications, oldest first,
//! never more than a fixed number of them.

use crate::session::{notification_views, Notification, NotificationView};
use vstd::prelude::*;

verus! {

/// How many messages a log keeps unless told otherwise.
pub const DEFAULT_LIMIT: usize = 1000;

/// The last `limit` entries of `entries`, or all of them when there are
/// no more than `limit`.
pub open spec fn keep_last<T>(entries: Seq<T>, limit: nat) -> Seq<T> {
    if entries.len() > limit {
        entries.skip(entries.len() - limit)
    } else {
        entries
    }
}

/// The mathematical value of a [`MessageLog`].
pub struct LogView {
    /// The messages kept, oldest first.
    pub entries: Seq<NotificationView>,
    /// The largest number of messages kept.
    pub limit: nat,
}

/// A bounded list of notifications in order of arrival.
pub struct MessageLog {
    messages: Vec<Notification>,
    max_messages: usize,
}

impl View for MessageLog {
    type V = LogView;

    closed spec fn view(&self) -> LogView {
        LogView { entries: notification_views(self.messages@), limit: self.max_messages as nat }
    }
}

impl MessageLog {
    /// An empty log that keeps the last thousand messages.
    pub fn new() -> (log: MessageLog)
        ensures
            log@.entries == Seq::<NotificationView>::empty(),
            log@.limit == DEFAULT_LIMIT,
    {
        MessageLog::with_limit(DEFAULT_LIMIT)
    }

    /// An empty log that keeps the last `limit` messages.
    pub fn with_limit(limit: usize) -> (log: MessageLog)
        ensures
            log@.entries == Seq::<NotificationView>::empty(),
            log@.limit == limit,
    {
        let log = MessageLog { messages: Vec::new(), max_messages: limit };
        proof {
            assert(notification_views(log.messages@) =~= Seq::<NotificationView>::empty());
        }
        log
    }

    /// Adds a message at the end. If the log then holds more than its
    /// limit, the oldest messages go, so that the most recent ones stay,
    /// in their order.
    pub fn add_message(&mut self, message: Notification)
        ensures
            final(self)@.limit == old(self)@.limit,
            final(self)@.entries == keep_last(old(self)@.entries.push(message@), old(self)@.limit),
            final(self)@.entries.len() <= old(self)@.limit,
    {
        let ghost before = self.messages@;
        self.messages.push(message);
        let ghost grown = self.messages@;
        proof {
            assert(notification_views(grown) =~= notification_views(before).push(message@));
        }
        if self.messages.len() > self.max_messages {
            let excess = self.messages.len() - self.max_messages;
            let kept = self.messages.split_off(excess);
            proof {
                assert(kept@ == grown.skip(excess as int));
                assert(notification_views(kept@) =~= notification_views(grown).skip(excess as int));
            }
            self.messages = kept;
        }
    }

    /// Removes every message.
    pub fn clear(&mut self)
        ensures
            final(self)@.limit == old(self)@.limit,
            final(self)@.entries == Seq::<NotificationView>::empty(),
    {
        self.messages.clear();
        proof {
            assert(notification_views(self.messages@) =~= Seq::<NotificationView>::empty());
        }
    }

    /// Number of messages kept.
    pub fn len(&self) -> (n: usize)
        ensures
            n == self@.entries.len(),
    {
        self.messages.len()
    }

    /// The message at position `index`, counted from the oldest.
    pub fn get(&self, index: usize) -> (r: Option<&Notification>)
        ensures
            index < self@.entries.len() <==> r is Some,
            r matches Some(m) ==> m@ == self@.entries[index as int],
    {
        if index < self.messages.len() {
            Some(&self.messages[index])
        } else {
            None
        }
    }
}

} // verus!
