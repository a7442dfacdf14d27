//! Short-lived notifications: each message is kept for a few seconds after
//! it was posted.
use vstd::prelude::*;

verus! {

/// How long a message stays, in milliseconds.
pub const MESSAGE_TIMEOUT_MS: u64 = 5000;

/// A notification for the user.
pub enum Message {
    Success(String),
    Error(String),
}

/// The messages on show, each with the instant (milliseconds since the
/// epoch) it was posted, oldest first.
pub struct Messages {
    messages: Vec<(Message, u64)>,
}

/// Whether a message posted at `posted` is still shown at `now`. A posting
/// instant later than `now` counts as no time elapsed.
pub open spec fn is_fresh(posted: u64, now: u64) -> bool {
    posted >= now || now - posted < MESSAGE_TIMEOUT_MS
}

/// The messages of `s` still shown at `now`, in order.
pub open spec fn fresh_only(s: Seq<(Message, u64)>, now: u64) -> Seq<(Message, u64)>
    decreases s.len(),
{
    if s.len() == 0 {
        Seq::empty()
    } else if is_fresh(s.last().1, now) {
        fresh_only(s.drop_last(), now).push(s.last())
    } else {
        fresh_only(s.drop_last(), now)
    }
}

proof fn lemma_fresh_only_len(s: Seq<(Message, u64)>, now: u64)
    ensures
        fresh_only(s, now).len() <= s.len(),
    decreases s.len(),
{
    if s.len() > 0 {
        lemma_fresh_only_len(s.drop_last(), now);
    }
}

impl Messages {
    pub closed spec fn view_messages(&self) -> Seq<(Message, u64)> {
        self.messages@
    }

    /// No messages.
    pub fn new() -> (r: Self)
        ensures
            r.view_messages() == Seq::<(Message, u64)>::empty(),
    {
        Messages { messages: Vec::new() }
    }

    /// Posts a success message at `now`.
    pub fn success(&mut self, message: String, now: u64)
        ensures
            final(self).view_messages() == old(self).view_messages().push((Message::Success(message), now)),
    {
        self.messages.push((Message::Success(message), now));
    }

    /// Posts an error message at `now`.
    pub fn error(&mut self, message: String, now: u64)
        ensures
            final(self).view_messages() == old(self).view_messages().push((Message::Error(message), now)),
    {
        self.messages.push((Message::Error(message), now));
    }

    /// Drops the messages posted `MESSAGE_TIMEOUT_MS` or more before `now`,
    /// keeping the others in order.
    pub fn remove_old_messages(&mut self, now: u64)
        ensures
            final(self).view_messages() == fresh_only(old(self).view_messages(), now),
    {
        let ghost s = self.messages@;
        let n = self.messages.len();
        let mut i: usize = 0;
        let mut j: usize = 0;
        while j < n
            invariant
                n == s.len(),
                j <= s.len(),
                i as int == fresh_only(s.take(j as int), now).len(),
                self.messages@ == fresh_only(s.take(j as int), now) + s.skip(j as int),
            decreases s.len() - j,
        {
            proof {
                lemma_fresh_only_len(s.take(j as int), now);
            }
            assert(s.take(j + 1).drop_last() =~= s.take(j as int));
            assert(s.take(j + 1).last() == s[j as int]);
            assert(self.messages@[i as int] == s[j as int]);
            let posted = self.messages[i].1;
            if posted >= now || now - posted < MESSAGE_TIMEOUT_MS {
                i = i + 1;
                assert(self.messages@ =~= fresh_only(s.take(j + 1), now) + s.skip(j + 1));
            } else {
                self.messages.remove(i);
                assert(self.messages@ =~= fresh_only(s.take(j + 1), now) + s.skip(j + 1));
            }
            j = j + 1;
        }
        assert(s.take(j as int) =~= s);
        assert(self.messages@ =~= fresh_only(s, now));
    }

    /// The messages on show, oldest first.
    pub fn get_messages(&self) -> (r: &Vec<(Message, u64)>)
        ensures
            r@ == self.view_messages(),
    {
        &self.messages
    }
}

} // verus!
