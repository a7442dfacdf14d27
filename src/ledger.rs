use vstd::prelude::*;

verus! {

/// One recorded span of time attributed to a named activity.
/// `end_time` is `None` while the activity is still running.
pub struct Interval {
    pub id: u64,
    pub name: String,
    pub start_time: i64,
    pub end_time: Option<i64>,
}

/// The mathematical value of an [`Interval`].
pub ghost struct IntervalView {
    pub id: u64,
    pub name: Seq<char>,
    pub start_time: i64,
    pub end_time: Option<i64>,
}

impl View for Interval {
    type V = IntervalView;

    open spec fn view(&self) -> IntervalView {
        IntervalView {
            id: self.id,
            name: self.name@,
            start_time: self.start_time,
            end_time: self.end_time,
        }
    }
}

/// The moment a soft clear was issued.
#[derive(Clone, Copy, Debug, PartialEq, Eq, Structural)]
pub struct ClearMarker {
    pub id: u64,
    pub time: i64,
}

/// Why a mutation of the ledger was refused.
#[derive(Clone, Copy, Debug, PartialEq, Eq, Structural)]
pub enum LedgerError {
    /// No fresh identifier is left for a new record.
    Full,
}

/// The ledger of activity intervals and clear markers.
pub struct Activities {
    intervals: Vec<Interval>,
    clears: Vec<ClearMarker>,
    next_interval_id: u64,
    next_clear_id: u64,
}

// ---------------------------------------------------------------------------
// Model
// ---------------------------------------------------------------------------

pub open spec fn is_open(iv: IntervalView) -> bool {
    iv.end_time is None
}

/// The open interval with the greatest start time (the earliest stored one
/// among equal start times), if any interval is open.
pub open spec fn latest_open(s: Seq<IntervalView>) -> Option<IntervalView>
    decreases s.len(),
{
    if s.len() == 0 {
        None
    } else {
        let prev = latest_open(s.drop_last());
        let x = s.last();
        if is_open(x) && (prev is None || x.start_time > prev->Some_0.start_time) {
            Some(x)
        } else {
            prev
        }
    }
}

/// The instant `requested` moved forward, if needed, so that it does not
/// precede the start of the running interval.
pub open spec fn clamp_to_open(s: Seq<IntervalView>, requested: int) -> int {
    match latest_open(s) {
        Some(iv) => if requested < iv.start_time { iv.start_time as int } else { requested },
        None => requested,
    }
}

/// `iv`, ended at `t` if it was open.
pub open spec fn close_at(iv: IntervalView, t: i64) -> IntervalView {
    if is_open(iv) {
        IntervalView { end_time: Some(t), ..iv }
    } else {
        iv
    }
}

/// Every open interval of `s` ended at `t`.
pub open spec fn close_open(s: Seq<IntervalView>, t: i64) -> Seq<IntervalView> {
    Seq::new(s.len(), |i: int| close_at(s[i], t))
}

/// How many intervals of `s` are open.
pub open spec fn open_count(s: Seq<IntervalView>) -> nat
    decreases s.len(),
{
    if s.len() == 0 {
        0
    } else {
        open_count(s.drop_last()) + if is_open(s.last()) { 1nat } else { 0nat }
    }
}

pub open spec fn views(v: Seq<Interval>) -> Seq<IntervalView> {
    Seq::new(v.len(), |i: int| v[i]@)
}

/// The intervals after a start of `name` requested for `requested`: the
/// running ones ended at the clamped instant, and a new open interval with
/// identifier `id` that starts there.
pub open spec fn after_start(s: Seq<IntervalView>, id: u64, name: Seq<char>, requested: int) -> Seq<
    IntervalView,
> {
    let t = clamp_to_open(s, requested) as i64;
    close_open(s, t).push(IntervalView { id, name, start_time: t, end_time: None })
}

pub open spec fn has_clear_id(c: Seq<ClearMarker>, id: u64) -> bool {
    exists|j: int| 0 <= j < c.len() && c[j].id == id
}

/// Whether some interval of `s` is named `n`.
pub open spec fn has_name(s: Seq<IntervalView>, n: Seq<char>) -> bool {
    exists|j: int| 0 <= j < s.len() && s[j].name == n
}

/// The time of the latest clear marker, if there is one.
pub open spec fn latest_clear(c: Seq<ClearMarker>) -> Option<i64>
    decreases c.len(),
{
    if c.len() == 0 {
        None
    } else {
        let prev = latest_clear(c.drop_last());
        if prev is None || c.last().time > prev->Some_0 {
            Some(c.last().time)
        } else {
            prev
        }
    }
}

/// Whether `iv` counts toward the totals: it starts at or after the latest
/// clear marker, and a marker exists.
pub open spec fn counts(iv: IntervalView, since: Option<i64>) -> bool {
    since is Some && iv.start_time >= since->Some_0
}

/// The length of `iv` in seconds, taking `now` as the end of an open one.
/// An interval that ends before it starts lasts zero seconds.
pub open spec fn duration(iv: IntervalView, now: int) -> int {
    let e = match iv.end_time {
        Some(e) => e as int,
        None => now,
    };
    if e >= iv.start_time {
        e - iv.start_time
    } else {
        0
    }
}

/// The summed length of the counted intervals of `s` named `n`.
pub open spec fn total_of(s: Seq<IntervalView>, n: Seq<char>, since: Option<i64>, now: int) -> int
    decreases s.len(),
{
    if s.len() == 0 {
        0
    } else {
        total_of(s.drop_last(), n, since, now) + if s.last().name == n && counts(s.last(), since) {
            duration(s.last(), now)
        } else {
            0
        }
    }
}

/// Whether some counted interval of `s` is named `n`.
pub open spec fn has_counted(s: Seq<IntervalView>, n: Seq<char>, since: Option<i64>) -> bool {
    exists|j: int| 0 <= j < s.len() && s[j].name == n && counts(s[j], since)
}

/// `x`, cut down to the largest `u64`.
pub open spec fn capped(x: int) -> int {
    if x > u64::MAX {
        u64::MAX as int
    } else {
        x
    }
}

/// The first second of the day (counted from the epoch in whole days) that
/// holds `now`.
pub open spec fn day_start(now: int) -> int {
    now - now % 86400
}

/// The intervals of `s` that start at or after `day`, in stored order.
pub open spec fn started_since(s: Seq<IntervalView>, day: int) -> Seq<IntervalView>
    decreases s.len(),
{
    if s.len() == 0 {
        Seq::empty()
    } else if s.last().start_time >= day {
        started_since(s.drop_last(), day).push(s.last())
    } else {
        started_since(s.drop_last(), day)
    }
}

pub proof fn lemma_total_of_absent(s: Seq<IntervalView>, n: Seq<char>, since: Option<i64>, now: int)
    requires
        !has_counted(s, n, since),
    ensures
        total_of(s, n, since, now) == 0,
    decreases s.len(),
{
    if s.len() > 0 {
        assert(!has_counted(s.drop_last(), n, since)) by {
            if has_counted(s.drop_last(), n, since) {
                let j = choose|j: int| 0 <= j < s.drop_last().len() && s.drop_last()[j].name == n && counts(s.drop_last()[j], since);
                assert(s[j] == s.drop_last()[j]);
            }
        }
        lemma_total_of_absent(s.drop_last(), n, since, now);
        assert(!(s.last().name == n && counts(s.last(), since))) by {
            if s.last().name == n && counts(s.last(), since) {
                assert(s[s.len() - 1] == s.last());
            }
        }
    }
}

/// After every open interval is ended, none is open.
pub proof fn lemma_close_open_none_open(s: Seq<IntervalView>, t: i64)
    ensures
        open_count(close_open(s, t)) == 0,
    decreases s.len(),
{
    if s.len() > 0 {
        lemma_close_open_none_open(s.drop_last(), t);
        assert(close_open(s, t).drop_last() =~= close_open(s.drop_last(), t));
    }
}

fn find_name(names: &Vec<String>, name: &String) -> (r: Option<usize>)
    ensures
        match r {
            Some(i) => i < names@.len() && names@[i as int]@ == name@,
            None => forall|i: int| 0 <= i < names@.len() ==> names@[i]@ != name@,
        },
{
    let mut i: usize = 0;
    while i < names.len()
        invariant
            i <= names@.len(),
            forall|k: int| 0 <= k < i ==> names@[k]@ != name@,
        decreases names@.len() - i,
    {
        if names[i] == *name {
            return Some(i);
        }
        i = i + 1;
    }
    None
}

fn pair_up(names: &Vec<String>, totals: &Vec<u64>) -> (r: Vec<(String, u64)>)
    requires
        names@.len() == totals@.len(),
    ensures
        r@.len() == names@.len(),
        forall|k: int| 0 <= k < r@.len() ==> r@[k].0 == names@[k],
        forall|k: int| 0 <= k < r@.len() ==> r@[k].1 == totals@[k],
{
    let mut r: Vec<(String, u64)> = Vec::new();
    let mut i: usize = 0;
    while i < names.len()
        invariant
            i <= names@.len(),
            names@.len() == totals@.len(),
            r@.len() == i,
            forall|k: int| 0 <= k < i ==> r@[k].0 == names@[k],
            forall|k: int| 0 <= k < i ==> r@[k].1 == totals@[k],
        decreases names@.len() - i,
    {
        r.push((names[i].clone(), totals[i]));
        i = i + 1;
    }
    r
}

impl Activities {
    pub closed spec fn intervals_view(&self) -> Seq<IntervalView> {
        views(self.intervals@)
    }

    pub closed spec fn clears_view(&self) -> Seq<ClearMarker> {
        self.clears@
    }

    pub closed spec fn next_interval_id(&self) -> u64 {
        self.next_interval_id
    }

    pub closed spec fn next_clear_id(&self) -> u64 {
        self.next_clear_id
    }

    /// Every stored identifier is below the next one to be handed out, so
    /// that new records get identifiers no stored record has.
    pub closed spec fn wf(&self) -> bool {
        &&& forall|i: int| 0 <= i < self.intervals@.len() ==> self.intervals@[i].id < self.next_interval_id
        &&& forall|i: int| 0 <= i < self.clears@.len() ==> self.clears@[i].id < self.next_clear_id
    }

    /// An empty ledger.
    pub fn new() -> (r: Self)
        ensures
            r.wf(),
            r.intervals_view() == Seq::<IntervalView>::empty(),
            r.clears_view() == Seq::<ClearMarker>::empty(),
            r.next_interval_id() == 1,
            r.next_clear_id() == 1,
    {
        let r = Activities { intervals: Vec::new(), clears: Vec::new(), next_interval_id: 1, next_clear_id: 1 };
        assert(r.intervals_view() =~= Seq::<IntervalView>::empty());
        r
    }

    /// The running activity: its name and start time.
    pub fn currrent_activity(&self) -> (r: Option<(String, i64)>)
        ensures
            match latest_open(self.intervals_view()) {
                Some(iv) => r is Some && (r->Some_0.0)@ == iv.name && r->Some_0.1 == iv.start_time,
                None => r is None,
            },
    {
        match self.latest_open_index() {
            Some(i) => Some((self.intervals[i].name.clone(), self.intervals[i].start_time)),
            None => None,
        }
    }

    /// Seeds the clear marker with identifier 1 at time 0 unless a marker
    /// with that identifier is already stored, so that totals always have a
    /// lower bound. Calling it again changes nothing.
    pub fn init_db(&mut self)
        requires
            old(self).wf(),
        ensures
            final(self).wf(),
            final(self).intervals_view() == old(self).intervals_view(),
            final(self).next_interval_id() == old(self).next_interval_id(),
            has_clear_id(old(self).clears_view(), 1) ==> final(self).clears_view() == old(self).clears_view()
                && final(self).next_clear_id() == old(self).next_clear_id(),
            !has_clear_id(old(self).clears_view(), 1) ==> final(self).clears_view()
                == old(self).clears_view().push(ClearMarker { id: 1, time: 0 })
                && final(self).next_clear_id() == if old(self).next_clear_id() < 2 { 2 } else {
                old(self).next_clear_id()
            },
            has_clear_id(final(self).clears_view(), 1),
    {
        let mut i: usize = 0;
        while i < self.clears.len()
            invariant
                *self == *old(self),
                self.wf(),
                i <= self.clears@.len(),
                forall|j: int| 0 <= j < i ==> self.clears@[j].id != 1,
            decreases self.clears@.len() - i,
        {
            if self.clears[i].id == 1 {
                return;
            }
            i = i + 1;
        }
        self.clears.push(ClearMarker { id: 1, time: 0 });
        if self.next_clear_id < 2 {
            self.next_clear_id = 2;
        }
        assert(self.clears@.last().id == 1);
    }

    /// Ends the running interval (see [`Activities::stop_activity`], with the
    /// same offset) and opens a new interval for `name`. The new interval
    /// starts at `now + offset`, moved forward to the start of the interval
    /// that was running where it would precede it, which is also where that
    /// interval now ends.
    pub fn start_activity(&mut self, name: &str, offset: i64, now: i64) -> (r: Result<(), LedgerError>)
        requires
            old(self).wf(),
            0 <= now,
            i64::MIN <= now + offset <= i64::MAX,
        ensures
            final(self).wf(),
            r is Err <==> old(self).next_interval_id() == u64::MAX,
            r is Err ==> final(self).intervals_view() == old(self).intervals_view()
                && final(self).next_interval_id() == old(self).next_interval_id(),
            r is Ok ==> final(self).intervals_view() == after_start(
                old(self).intervals_view(),
                old(self).next_interval_id(),
                name@,
                now + offset,
            ) && final(self).next_interval_id() == old(self).next_interval_id() + 1
                && open_count(final(self).intervals_view()) == 1,
            final(self).clears_view() == old(self).clears_view(),
            final(self).next_clear_id() == old(self).next_clear_id(),
    {
        if self.next_interval_id == u64::MAX {
            return Err(LedgerError::Full);
        }
        let start_time = self.clamped(now + offset);
        self.stop_activity(offset, now);
        let ghost closed = self.intervals_view();
        let id = self.next_interval_id;
        self.intervals.push(Interval { id, name: name.to_string(), start_time, end_time: None });
        self.next_interval_id = id + 1;
        assert(self.intervals_view() =~= closed.push(
            IntervalView { id, name: name@, start_time, end_time: None },
        ));
        assert(self.intervals_view().drop_last() =~= closed);
        Ok(())
    }

    /// Ends the running interval now and records a clear marker at `now`:
    /// totals then count only intervals that start at or after the latest
    /// marker. No interval is removed.
    pub fn clear_activities(&mut self, now: i64) -> (r: Result<(), LedgerError>)
        requires
            old(self).wf(),
            0 <= now,
        ensures
            final(self).wf(),
            r is Err <==> old(self).next_clear_id() == u64::MAX,
            r is Err ==> final(self).intervals_view() == old(self).intervals_view()
                && final(self).clears_view() == old(self).clears_view()
                && final(self).next_clear_id() == old(self).next_clear_id(),
            r is Ok ==> final(self).intervals_view() == close_open(
                old(self).intervals_view(),
                clamp_to_open(old(self).intervals_view(), now as int) as i64,
            ) && final(self).clears_view() == old(self).clears_view().push(
                ClearMarker { id: old(self).next_clear_id(), time: now },
            ) && final(self).next_clear_id() == old(self).next_clear_id() + 1
                && open_count(final(self).intervals_view()) == 0,
            final(self).next_interval_id() == old(self).next_interval_id(),
    {
        if self.next_clear_id == u64::MAX {
            return Err(LedgerError::Full);
        }
        self.stop_activity(0, now);
        let id = self.next_clear_id;
        self.clears.push(ClearMarker { id, time: now });
        self.next_clear_id = id + 1;
        Ok(())
    }

    /// Removes every interval and every clear marker.
    pub fn hard_clear_activities(&mut self)
        requires
            old(self).wf(),
        ensures
            final(self).wf(),
            final(self).intervals_view() == Seq::<IntervalView>::empty(),
            final(self).clears_view() == Seq::<ClearMarker>::empty(),
            final(self).next_interval_id() == old(self).next_interval_id(),
            final(self).next_clear_id() == old(self).next_clear_id(),
    {
        self.intervals = Vec::new();
        self.clears = Vec::new();
        assert(self.intervals_view() =~= Seq::<IntervalView>::empty());
    }

    /// Ends every open interval at `now + offset`, moved forward to the start
    /// of the running interval where it would precede it. With no interval
    /// open nothing changes.
    pub fn stop_activity(&mut self, offset: i64, now: i64)
        requires
            old(self).wf(),
            0 <= now,
            i64::MIN <= now + offset <= i64::MAX,
        ensures
            final(self).wf(),
            final(self).intervals_view() == close_open(
                old(self).intervals_view(),
                clamp_to_open(old(self).intervals_view(), now + offset) as i64,
            ),
            final(self).clears_view() == old(self).clears_view(),
            final(self).next_interval_id() == old(self).next_interval_id(),
            final(self).next_clear_id() == old(self).next_clear_id(),
            open_count(final(self).intervals_view()) == 0,
    {
        let end = self.clamped(now + offset);
        self.close_all_open(end);
    }

    /// `requested`, moved forward to the start of the running interval where
    /// it would precede it.
    fn clamped(&self, requested: i64) -> (r: i64)
        ensures
            r == clamp_to_open(self.intervals_view(), requested as int),
    {
        match self.latest_open_index() {
            Some(i) => {
                if requested < self.intervals[i].start_time {
                    self.intervals[i].start_time
                } else {
                    requested
                }
            },
            None => requested,
        }
    }

    fn close_all_open(&mut self, t: i64)
        requires
            old(self).wf(),
        ensures
            final(self).wf(),
            final(self).intervals_view() == close_open(old(self).intervals_view(), t),
            final(self).clears_view() == old(self).clears_view(),
            final(self).next_interval_id() == old(self).next_interval_id(),
            final(self).next_clear_id() == old(self).next_clear_id(),
            open_count(final(self).intervals_view()) == 0,
    {
        let ghost s0 = self.intervals_view();
        let mut i: usize = 0;
        while i < self.intervals.len()
            invariant
                self.wf(),
                i <= self.intervals@.len(),
                self.intervals@.len() == s0.len(),
                forall|j: int| 0 <= j < i ==> self.intervals@[j]@ == close_at(s0[j], t),
                forall|j: int| i <= j < s0.len() ==> self.intervals@[j]@ == s0[j],
                self.clears_view() == old(self).clears_view(),
                self.next_interval_id() == old(self).next_interval_id(),
                self.next_clear_id() == old(self).next_clear_id(),
            decreases s0.len() - i,
        {
            if self.intervals[i].end_time.is_none() {
                self.intervals[i].end_time = Some(t);
            }
            i = i + 1;
        }
        assert(self.intervals_view() =~= close_open(s0, t));
        proof { lemma_close_open_none_open(s0, t); }
    }

    /// The distinct names of all recorded intervals, cleared ones included,
    /// in order of first appearance.
    pub fn list_activities(&self) -> (r: Vec<String>)
        ensures
            forall|i: int, k: int| 0 <= i < k < r@.len() ==> r@[i]@ != r@[k]@,
            forall|n: Seq<char>| has_name(self.intervals_view(), n) <==> exists|i: int| 0 <= i < r@.len() && r@[i]@ == n,
    {
        let ghost s = self.intervals_view();
        let mut names: Vec<String> = Vec::new();
        let mut j: usize = 0;
        while j < self.intervals.len()
            invariant
                j <= s.len(),
                s == self.intervals_view(),
                forall|i: int, k: int| 0 <= i < k < names@.len() ==> names@[i]@ != names@[k]@,
                forall|n: Seq<char>| has_name(s.take(j as int), n) <==> exists|i: int| 0 <= i < names@.len() && names@[i]@ == n,
            decreases s.len() - j,
        {
            let ghost prev = names@;
            let name = &self.intervals[j].name;
            let found = find_name(&names, name);
            if found.is_none() {
                names.push(name.clone());
            }
            proof {
                let t = s.take(j + 1);
                assert forall|n: Seq<char>| has_name(t, n) <==> exists|i: int| 0 <= i < names@.len() && names@[i]@ == n by {
                    if has_name(t, n) {
                        let k = choose|k: int| 0 <= k < t.len() && t[k].name == n;
                        if k < j {
                            assert(s.take(j as int)[k] == t[k]);
                            assert(has_name(s.take(j as int), n));
                            let i = choose|i: int| 0 <= i < prev.len() && prev[i]@ == n;
                            assert(names@[i] == prev[i]);
                        } else {
                            assert(t[k] == s[j as int]);
                            match found {
                                Some(i) => assert(names@[i as int]@ == n),
                                None => assert(names@[names@.len() - 1]@ == n),
                            }
                        }
                    }
                    if exists|i: int| 0 <= i < names@.len() && names@[i]@ == n {
                        let i = choose|i: int| 0 <= i < names@.len() && names@[i]@ == n;
                        if found.is_none() && i == names@.len() - 1 {
                            assert(t[j as int] == s[j as int]);
                            assert(t[j as int].name == n);
                        } else {
                            assert(names@[i] == prev[i]);
                            assert(has_name(s.take(j as int), n));
                            let k = choose|k: int| 0 <= k < j && s.take(j as int)[k].name == n;
                            assert(t[k] == s.take(j as int)[k]);
                        }
                    }
                }
            }
            j = j + 1;
        }
        assert(s.take(j as int) =~= s);
        names
    }

    /// The time of the latest clear marker.
    fn latest_clear_time(&self) -> (r: Option<i64>)
        ensures
            r == latest_clear(self.clears_view()),
    {
        let ghost c = self.clears_view();
        let mut best: Option<i64> = None;
        let mut i: usize = 0;
        while i < self.clears.len()
            invariant
                i <= c.len(),
                c == self.clears_view(),
                best == latest_clear(c.take(i as int)),
            decreases c.len() - i,
        {
            assert(c.take(i + 1).drop_last() =~= c.take(i as int));
            let t = self.clears[i].time;
            match best {
                Some(b) => {
                    if t > b {
                        best = Some(t);
                    }
                },
                None => {
                    best = Some(t);
                },
            }
            i = i + 1;
        }
        assert(c.take(i as int) =~= c);
        best
    }

    /// The total seconds of each activity, over the intervals that start at
    /// or after the latest clear marker, an open one counted up to `now`. Each
    /// counted name appears once, in order of first appearance; a total too
    /// large for a `u64` is reported as `u64::MAX`.
    pub fn activities_times(&self, now: i64) -> (r: Vec<(String, u64)>)
        requires
            0 <= now,
        ensures
            forall|i: int, k: int| 0 <= i < k < r@.len() ==> (r@[i].0)@ != (r@[k].0)@,
            forall|i: int| 0 <= i < r@.len() ==> r@[i].1 == capped(total_of(
                self.intervals_view(),
                (r@[i].0)@,
                latest_clear(self.clears_view()),
                now as int,
            )),
            forall|n: Seq<char>| has_counted(self.intervals_view(), n, latest_clear(self.clears_view()))
                <==> exists|i: int| 0 <= i < r@.len() && (r@[i].0)@ == n,
    {
        let ghost s = self.intervals_view();
        let since = self.latest_clear_time();
        let mut names: Vec<String> = Vec::new();
        let mut totals: Vec<u64> = Vec::new();
        let mut j: usize = 0;
        while j < self.intervals.len()
            invariant
                j <= s.len(),
                s == self.intervals_view(),
                since == latest_clear(self.clears_view()),
                names@.len() == totals@.len(),
                forall|i: int, k: int| 0 <= i < k < names@.len() ==> names@[i]@ != names@[k]@,
                forall|i: int| 0 <= i < names@.len() ==> totals@[i] == capped(total_of(s.take(j as int), names@[i]@, since, now as int)),
                forall|n: Seq<char>| has_counted(s.take(j as int), n, since) <==> exists|i: int| 0 <= i < names@.len() && names@[i]@ == n,
            decreases s.len() - j,
        {
            let ghost prev = names@;
            let ghost prev_totals = totals@;
            let ghost t = s.take(j + 1);
            assert(t.drop_last() =~= s.take(j as int));
            assert(t.last() == s[j as int]);
            let iv = &self.intervals[j];
            let counted = match since {
                Some(c) => iv.start_time >= c,
                None => false,
            };
            if counted {
                let end = match iv.end_time {
                    Some(e) => e,
                    None => now,
                };
                let d: u64 = if end >= iv.start_time {
                    (end as i128 - iv.start_time as i128) as u64
                } else {
                    0
                };
                assert(d == duration(s[j as int], now as int));
                match find_name(&names, &iv.name) {
                    Some(i) => {
                        let cur = totals[i];
                        totals.set(i, cur.saturating_add(d));
                    },
                    None => {
                        proof {
                            lemma_total_of_absent(s.take(j as int), iv.name@, since, now as int);
                        }
                        names.push(iv.name.clone());
                        totals.push(d);
                    },
                }
            }
            proof {
                assert forall|i: int| 0 <= i < names@.len() implies totals@[i] == capped(total_of(t, names@[i]@, since, now as int)) by {
                    if i < prev.len() {
                        assert(names@[i] == prev[i]);
                    }
                }
                assert forall|n: Seq<char>| has_counted(t, n, since) <==> exists|i: int| 0 <= i < names@.len() && names@[i]@ == n by {
                    if has_counted(t, n, since) {
                        let k = choose|k: int| 0 <= k < t.len() && t[k].name == n && counts(t[k], since);
                        if k < j {
                            assert(s.take(j as int)[k] == t[k]);
                            assert(has_counted(s.take(j as int), n, since));
                            let i = choose|i: int| 0 <= i < prev.len() && prev[i]@ == n;
                            assert(names@[i] == prev[i]);
                        } else {
                            assert(t[k] == s[j as int]);
                            assert(names@.len() > 0);
                            if prev.len() == names@.len() {
                                let i = choose|i: int| 0 <= i < prev.len() && prev[i]@ == n;
                                assert(names@[i] == prev[i]);
                            } else {
                                assert(names@[names@.len() - 1]@ == n);
                            }
                        }
                    }
                    if exists|i: int| 0 <= i < names@.len() && names@[i]@ == n {
                        let i = choose|i: int| 0 <= i < names@.len() && names@[i]@ == n;
                        if i == prev.len() {
                            assert(t[j as int] == s[j as int]);
                            assert(t[j as int].name == n);
                        } else {
                            assert(names@[i] == prev[i]);
                            assert(has_counted(s.take(j as int), n, since));
                            let k = choose|k: int| 0 <= k < j && s.take(j as int)[k].name == n && counts(s.take(j as int)[k], since);
                            assert(t[k] == s.take(j as int)[k]);
                        }
                    }
                }
            }
            j = j + 1;
        }
        assert(s.take(j as int) =~= s);
        assert(since == latest_clear(self.clears_view()));
        let r = pair_up(&names, &totals);
        proof {
            assert forall|n: Seq<char>| has_counted(s, n, since) <==> exists|i: int| 0 <= i < r@.len() && (r@[i].0)@ == n by {
                if has_counted(s, n, since) {
                    let k = choose|k: int| 0 <= k < names@.len() && names@[k]@ == n;
                    assert(r@[k].0 == names@[k]);
                }
                if exists|i: int| 0 <= i < r@.len() && (r@[i].0)@ == n {
                    let i = choose|i: int| 0 <= i < r@.len() && (r@[i].0)@ == n;
                    assert(r@[i].0 == names@[i]);
                }
            }
            assert forall|i: int, k: int| 0 <= i < k < r@.len() implies (r@[i].0)@ != (r@[k].0)@ by {
                assert(r@[i].0 == names@[i]);
                assert(r@[k].0 == names@[k]);
            }
            assert forall|i: int| 0 <= i < r@.len() implies r@[i].1 == capped(total_of(s, (r@[i].0)@, since, now as int)) by {
                assert(r@[i].0 == names@[i]);
                assert(r@[i].1 == totals@[i]);
                assert(totals@[i] == capped(total_of(s.take(j as int), names@[i]@, since, now as int)));
            }
        }
        r
    }

    /// The intervals that start on the day of `now` or later, in stored
    /// order, each as name, start time and end time. Clear markers play no
    /// part.
    pub fn todays_activities(&self, now: i64) -> (r: Vec<(String, i64, Option<i64>)>)
        requires
            0 <= now,
        ensures
            r@.len() == started_since(self.intervals_view(), day_start(now as int)).len(),
            forall|i: int| 0 <= i < r@.len() ==> {
                let iv = #[trigger] started_since(self.intervals_view(), day_start(now as int))[i];
                (r@[i].0)@ == iv.name && r@[i].1 == iv.start_time && r@[i].2 == iv.end_time
            },
    {
        let ghost s = self.intervals_view();
        let today = now - now % 86400;
        let mut r: Vec<(String, i64, Option<i64>)> = Vec::new();
        let mut j: usize = 0;
        while j < self.intervals.len()
            invariant
                j <= s.len(),
                s == self.intervals_view(),
                today == day_start(now as int),
                r@.len() == started_since(s.take(j as int), today as int).len(),
                forall|i: int| 0 <= i < r@.len() ==> {
                    let iv = #[trigger] started_since(s.take(j as int), today as int)[i];
                    (r@[i].0)@ == iv.name && r@[i].1 == iv.start_time && r@[i].2 == iv.end_time
                },
            decreases s.len() - j,
        {
            assert(s.take(j + 1).drop_last() =~= s.take(j as int));
            assert(s.take(j + 1).last() == s[j as int]);
            let iv = &self.intervals[j];
            if iv.start_time >= today {
                r.push((iv.name.clone(), iv.start_time, iv.end_time));
            }
            j = j + 1;
        }
        assert(s.take(j as int) =~= s);
        r
    }

    /// A ledger holding the given records, as read back from storage. There
    /// is none when a stored identifier is `u64::MAX`, since no fresh
    /// identifier could follow it.
    pub fn from_records(intervals: Vec<Interval>, clears: Vec<ClearMarker>) -> (r: Option<Activities>)
        ensures
            r is Some <==> (forall|i: int| 0 <= i < intervals@.len() ==> intervals@[i].id < u64::MAX)
                && (forall|i: int| 0 <= i < clears@.len() ==> clears@[i].id < u64::MAX),
            r is Some ==> r->Some_0.wf() && r->Some_0.intervals_view() == views(intervals@)
                && r->Some_0.clears_view() == clears@,
    {
        let mut next_interval_id: u64 = 1;
        let mut i: usize = 0;
        while i < intervals.len()
            invariant
                i <= intervals@.len(),
                next_interval_id >= 1,
                forall|k: int| 0 <= k < i ==> intervals@[k].id < next_interval_id,
            decreases intervals@.len() - i,
        {
            let id = intervals[i].id;
            if id == u64::MAX {
                return None;
            }
            if id >= next_interval_id {
                next_interval_id = id + 1;
            }
            i = i + 1;
        }
        let mut next_clear_id: u64 = 1;
        let mut i: usize = 0;
        while i < clears.len()
            invariant
                i <= clears@.len(),
                next_clear_id >= 1,
                forall|k: int| 0 <= k < i ==> clears@[k].id < next_clear_id,
            decreases clears@.len() - i,
        {
            let id = clears[i].id;
            if id == u64::MAX {
                return None;
            }
            if id >= next_clear_id {
                next_clear_id = id + 1;
            }
            i = i + 1;
        }
        Some(Activities { intervals, clears, next_interval_id, next_clear_id })
    }

    /// The stored intervals, in order of insertion.
    pub fn intervals(&self) -> (r: &Vec<Interval>)
        ensures
            views(r@) == self.intervals_view(),
    {
        &self.intervals
    }

    /// The stored clear markers, in order of insertion.
    pub fn clears(&self) -> (r: &Vec<ClearMarker>)
        ensures
            r@ == self.clears_view(),
    {
        &self.clears
    }

    /// The position of the open interval with the greatest start time.
    fn latest_open_index(&self) -> (r: Option<usize>)
        ensures
            match latest_open(self.intervals_view()) {
                Some(iv) => r is Some && r->Some_0 < self.intervals@.len()
                    && self.intervals@[r->Some_0 as int]@ == iv,
                None => r is None,
            },
    {
        let ghost s = self.intervals_view();
        let mut best: Option<usize> = None;
        let mut i: usize = 0;
        while i < self.intervals.len()
            invariant
                i <= self.intervals@.len(),
                s == self.intervals_view(),
                match latest_open(s.take(i as int)) {
                    Some(iv) => best is Some && best->Some_0 < i && self.intervals@[best->Some_0 as int]@ == iv,
                    None => best is None,
                },
            decreases self.intervals@.len() - i,
        {
            assert(s.take(i + 1).drop_last() =~= s.take(i as int));
            let iv = &self.intervals[i];
            if iv.end_time.is_none() {
                match best {
                    Some(b) => {
                        if iv.start_time > self.intervals[b].start_time {
                            best = Some(i);
                        }
                    },
                    None => {
                        best = Some(i);
                    },
                }
            }
            i = i + 1;
        }
        assert(s.take(i as int) =~= s);
        best
    }
}

} // verus!
