//! The list of notifications shown to the user.

use vstd::prelude::*;
use vstd::string::*;

verus! {

#[derive(Debug, Clone)]
pub struct Notification {
    pub id: u64,
    pub title: String,
    pub body: String,
    /// Milliseconds since the Unix epoch at which the notification was made.
    pub created_at_ms: u128,
    pub read: bool,
}

#[derive(Debug, Clone)]
pub struct NotificationStore {
    next_id: u64,
    items: Vec<Notification>,
}

/// The time by the system clock, in milliseconds since the Unix epoch, from
/// `SystemTime::now`; zero where the clock is set before the epoch. Nothing
/// is claimed of the value.
#[verifier::external_body]
fn now_ms() -> (ms: u128) {
    std::time::SystemTime::now().duration_since(std::time::UNIX_EPOCH).map(|d| d.as_millis()).unwrap_or(
        0,
    )
}

/// How many of the notifications are unread.
pub open spec fn unread_in(items: Seq<Notification>) -> nat
    decreases items.len(),
{
    if items.len() == 0 {
        0
    } else {
        unread_in(items.drop_last()) + if items.last().read {
            0nat
        } else {
            1nat
        }
    }
}

/// The notifications, each marked as read.
pub open spec fn all_read(items: Seq<Notification>) -> Seq<Notification> {
    items.map_values(
        |n: Notification|
            Notification {
                id: n.id,
                title: n.title,
                body: n.body,
                created_at_ms: n.created_at_ms,
                read: true,
            },
    )
}

/// Once all are marked as read, none is unread.
pub proof fn lemma_all_read_none_unread(items: Seq<Notification>)
    ensures
        unread_in(all_read(items)) == 0,
    decreases items.len(),
{
    if items.len() > 0 {
        lemma_all_read_none_unread(items.drop_last());
        assert(all_read(items).drop_last() =~= all_read(items.drop_last()));
    }
}

impl NotificationStore {
    /// The notifications, oldest first.
    pub closed spec fn entries(&self) -> Seq<Notification> {
        self.items@
    }

    /// The id that the next notification gets.
    pub closed spec fn upcoming_id(&self) -> u64 {
        self.next_id
    }

    /// An empty store; the first notification gets id 1.
    pub fn new() -> (s: Self)
        ensures
            s.entries().len() == 0,
            s.upcoming_id() == 1,
    {
        NotificationStore { next_id: 1, items: Vec::new() }
    }

    /// Adds an unread notification with the next id and returns a copy.
    pub fn push(&mut self, title: &str, body: &str) -> (n: Notification)
        requires
            old(self).upcoming_id() < u64::MAX,
        ensures
            n.id == old(self).upcoming_id(),
            n.title@ == title@,
            n.body@ == body@,
            !n.read,
            final(self).upcoming_id() == old(self).upcoming_id() + 1,
            final(self).entries() == old(self).entries().push(n),
    {
        let created_at_ms = now_ms();
        let stored = Notification {
            id: self.next_id,
            title: String::from_str(title),
            body: String::from_str(body),
            created_at_ms,
            read: false,
        };
        let copy = Notification {
            id: stored.id,
            title: stored.title.clone(),
            body: stored.body.clone(),
            created_at_ms,
            read: false,
        };
        self.next_id += 1;
        self.items.push(stored);
        copy
    }

    pub fn list(&self) -> (items: &[Notification])
        ensures
            items@ == self.entries(),
    {
        self.items.as_slice()
    }

    pub fn clear(&mut self)
        ensures
            final(self).entries().len() == 0,
            final(self).upcoming_id() == old(self).upcoming_id(),
    {
        self.items.clear();
    }

    pub fn mark_all_read(&mut self)
        ensures
            final(self).entries() == all_read(old(self).entries()),
            final(self).upcoming_id() == old(self).upcoming_id(),
    {
        let mut marked: Vec<Notification> = Vec::new();
        let mut i: usize = 0;
        while i < self.items.len()
            invariant
                i <= self.items@.len(),
                self.items@ == old(self).items@,
                self.next_id == old(self).next_id,
                marked@ == all_read(self.items@.take(i as int)),
            decreases self.items@.len() - i,
        {
            let item = &self.items[i];
            marked.push(
                Notification {
                    id: item.id,
                    title: item.title.clone(),
                    body: item.body.clone(),
                    created_at_ms: item.created_at_ms,
                    read: true,
                },
            );
            assert(marked@ =~= all_read(self.items@.take(i + 1)));
            i += 1;
        }
        assert(self.items@.take(i as int) =~= self.items@);
        self.items = marked;
    }

    pub fn unread_count(&self) -> (n: usize)
        ensures
            n == unread_in(self.entries()),
    {
        let mut n: usize = 0;
        let mut i: usize = 0;
        while i < self.items.len()
            invariant
                i <= self.items@.len(),
                n <= i,
                n == unread_in(self.items@.take(i as int)),
            decreases self.items@.len() - i,
        {
            assert(self.items@.take(i + 1).drop_last() =~= self.items@.take(i as int));
            if !self.items[i].read {
                n += 1;
            }
            i += 1;
        }
        assert(self.items@.take(i as int) =~= self.items@);
        n
    }
}

} // verus!
