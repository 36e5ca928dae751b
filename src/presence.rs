use vstd::prelude::*;

verus! {

/// Length of the presence window: 24 hours, in seconds.
pub const PRESENCE_WINDOW_SECONDS: u64 = 86400;

/// A presence event at second `t` still counts at second `now`: it lies
/// strictly inside the trailing window, `t > now - window`. An event exactly
/// one window old no longer counts.
pub open spec fn is_active(t: u64, now: u64) -> bool {
    t + PRESENCE_WINDOW_SECONDS > now
}

/// How many of the events `s` count at `now`.
pub open spec fn count_active(s: Seq<u64>, now: u64) -> nat
    decreases s.len(),
{
    if s.len() == 0 {
        0
    } else {
        count_active(s.drop_last(), now) + if is_active(s.last(), now) {
            1nat
        } else {
            0nat
        }
    }
}

/// The events of `s` that count at `now`, in their order.
pub open spec fn keep_active(s: Seq<u64>, now: u64) -> Seq<u64>
    decreases s.len(),
{
    if s.len() == 0 {
        s
    } else if is_active(s.last(), now) {
        keep_active(s.drop_last(), now).push(s.last())
    } else {
        keep_active(s.drop_last(), now)
    }
}

/// No more events count than there are.
pub proof fn lemma_count_bound(s: Seq<u64>, now: u64)
    ensures
        count_active(s, now) <= s.len(),
    decreases s.len(),
{
    if s.len() > 0 {
        lemma_count_bound(s.drop_last(), now);
    }
}

/// Dropping the events that no longer count leaves the count unchanged.
pub proof fn lemma_keep_active_count(s: Seq<u64>, now: u64)
    ensures
        count_active(keep_active(s, now), now) == count_active(s, now),
        forall|i: int| 0 <= i < keep_active(s, now).len() ==> is_active(#[trigger] keep_active(s, now)[i], now),
    decreases s.len(),
{
    if s.len() > 0 {
        lemma_keep_active_count(s.drop_last(), now);
        if is_active(s.last(), now) {
            let k = keep_active(s.drop_last(), now);
            assert(k.push(s.last()).drop_last() =~= k);
        }
    }
}

/// Window: an event recorded at `t` is counted one second later, and is no
/// longer counted once a full window has passed (at `t + window`, and so at
/// `t + window + 1`), whatever other events there are.
pub proof fn lemma_window(s: Seq<u64>, t: u64)
    requires
        t + PRESENCE_WINDOW_SECONDS + 1 <= u64::MAX,
    ensures
        count_active(s.push(t), (t + 1) as u64) == count_active(s, (t + 1) as u64) + 1,
        count_active(s.push(t), (t + PRESENCE_WINDOW_SECONDS) as u64) == count_active(
            s,
            (t + PRESENCE_WINDOW_SECONDS) as u64,
        ),
        count_active(s.push(t), (t + PRESENCE_WINDOW_SECONDS + 1) as u64) == count_active(
            s,
            (t + PRESENCE_WINDOW_SECONDS + 1) as u64,
        ),
{
    assert(s.push(t).drop_last() =~= s);
}

/// Whether an event at `t` counts at `now`.
pub fn event_is_active(t: u64, now: u64) -> (r: bool)
    ensures
        r == is_active(t, now),
{
    if now < PRESENCE_WINDOW_SECONDS {
        true
    } else {
        t > now - PRESENCE_WINDOW_SECONDS
    }
}

/// The presence events of one namespace, as seconds since the Unix epoch.
pub struct PresenceLog {
    timestamps: Vec<u64>,
}

impl View for PresenceLog {
    type V = Seq<u64>;

    closed spec fn view(&self) -> Seq<u64> {
        self.timestamps@
    }
}

impl PresenceLog {
    /// No events.
    pub fn new() -> (r: PresenceLog)
        ensures
            r@ == Seq::<u64>::empty(),
    {
        PresenceLog { timestamps: Vec::new() }
    }

    /// How many events count at `now`.
    pub fn get_active_count(&self, now: u64) -> (r: usize)
        ensures
            r == count_active(self@, now),
    {
        let ghost s = self@;
        let mut count: usize = 0;
        let mut i: usize = 0;
        while i < self.timestamps.len()
            invariant
                i <= s.len(),
                s == self@,
                count == count_active(s.take(i as int), now),
            decreases s.len() - i,
        {
            proof {
                assert(s.take(i + 1).drop_last() =~= s.take(i as int));
                lemma_count_bound(s.take(i as int), now);
            }
            if event_is_active(self.timestamps[i], now) {
                count = count + 1;
            }
            i = i + 1;
        }
        assert(s.take(i as int) =~= s);
        count
    }

    /// Drops the events that no longer count at `now`.
    pub fn cleanup_old_entries(&mut self, now: u64)
        ensures
            final(self)@ == keep_active(old(self)@, now),
    {
        let ghost s = self@;
        let mut kept: Vec<u64> = Vec::new();
        let mut i: usize = 0;
        while i < self.timestamps.len()
            invariant
                i <= s.len(),
                s == self@,
                kept@ == keep_active(s.take(i as int), now),
            decreases s.len() - i,
        {
            assert(s.take(i + 1).drop_last() =~= s.take(i as int));
            let t = self.timestamps[i];
            if event_is_active(t, now) {
                kept.push(t);
            }
            i = i + 1;
        }
        assert(s.take(i as int) =~= s);
        self.timestamps = kept;
    }

    /// Records an event at `now`, dropping those that no longer count, and
    /// returns how many count at `now`, the new one included.
    pub fn record_presence(&mut self, now: u64) -> (r: usize)
        ensures
            final(self)@ == keep_active(old(self)@, now).push(now),
            r == count_active(old(self)@, now) + 1,
    {
        self.cleanup_old_entries(now);
        self.timestamps.push(now);
        proof {
            lemma_keep_active_count(old(self)@, now);
            assert(self@.drop_last() =~= keep_active(old(self)@, now));
        }
        self.get_active_count(now)
    }
}

} // verus!
