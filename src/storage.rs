use vstd::prelude::*;
use crate::coupon::{redeemed, refusal, Coupon, CouponView, RedemptionError};
use crate::error::RepositoryError;
use crate::keyed::Keyed;
use crate::leaderboard::{accepts, after_submit, alike_with, is_ranked, sort_ranked, Leaderboard, PERFORMANCE_RECORDS_LIMIT};
use crate::presence::{count_active, keep_active, PresenceLog};
use crate::profile::{PlayerProfile, ProfileView};
use crate::record::{records_view, PerformanceRecord, RecordView};
use crate::review::{filter_reviews, rating_total, reviews_for, reviews_view, summarize_ratings, RatingSummary, Review, ReviewView};

verus! {

/// Every store of the service in process memory: profiles by id,
/// leaderboards and presence events by namespace, reviews in the order they
/// came, coupons by code.
pub struct MemoryRepository {
    profiles: Keyed<PlayerProfile>,
    leaderboards: Keyed<Leaderboard>,
    reviews: Vec<Review>,
    active_users: Keyed<PresenceLog>,
    coupons: Keyed<Coupon>,
}

impl MemoryRepository {
    /// The stores are consistent: keys unique, every leaderboard within its
    /// limit, every coupon and profile stored under its own code or id.
    pub closed spec fn wf(&self) -> bool {
        &&& self.profiles.wf()
        &&& self.leaderboards.wf()
        &&& self.active_users.wf()
        &&& self.coupons.wf()
        &&& forall|k: Seq<char>| #[trigger] self.leaderboards@.contains_key(k) ==> self.leaderboards@[k].wf()
        &&& forall|k: Seq<char>| #[trigger] self.coupons@.contains_key(k) ==> self.coupons@[k].code@ == k
        &&& forall|k: Seq<char>| #[trigger] self.profiles@.contains_key(k) ==> self.profiles@[k].id@ == k
    }

    /// The records retained for `namespace`; none if it never had any.
    pub closed spec fn leaderboard_of(&self, namespace: Seq<char>) -> Seq<RecordView> {
        if self.leaderboards@.contains_key(namespace) {
            self.leaderboards@[namespace]@
        } else {
            Seq::empty()
        }
    }

    /// The presence events kept for `namespace`.
    pub closed spec fn presence_of(&self, namespace: Seq<char>) -> Seq<u64> {
        if self.active_users@.contains_key(namespace) {
            self.active_users@[namespace]@
        } else {
            Seq::empty()
        }
    }

    /// The coupon with `code`, if any.
    pub closed spec fn coupon_of(&self, code: Seq<char>) -> Option<CouponView> {
        if self.coupons@.contains_key(code) {
            Some(self.coupons@[code]@)
        } else {
            None
        }
    }

    /// The profile with `id`, if any.
    pub closed spec fn profile_of(&self, id: Seq<char>) -> Option<ProfileView> {
        if self.profiles@.contains_key(id) {
            Some(self.profiles@[id]@)
        } else {
            None
        }
    }

    /// Every stored review, in the order they were stored.
    pub closed spec fn reviews_view(&self) -> Seq<ReviewView> {
        reviews_view(self.reviews@)
    }

    /// No namespace's leaderboard holds more than the limit.
    pub proof fn lemma_leaderboards_within_limit(&self)
        requires
            self.wf(),
        ensures
            forall|ns: Seq<char>| #[trigger] self.leaderboard_of(ns).len() <= PERFORMANCE_RECORDS_LIMIT,
    {
        assert forall|ns: Seq<char>| #[trigger] self.leaderboard_of(ns).len() <= PERFORMANCE_RECORDS_LIMIT by {
            if self.leaderboards@.contains_key(ns) {
                assert(self.leaderboards@[ns].wf());
            }
        }
    }

    /// Empty stores.
    pub fn new() -> (r: MemoryRepository)
        ensures
            r.wf(),
            forall|ns: Seq<char>| #[trigger] r.leaderboard_of(ns) == Seq::<RecordView>::empty(),
            forall|ns: Seq<char>| #[trigger] r.presence_of(ns) == Seq::<u64>::empty(),
            forall|code: Seq<char>| #[trigger] r.coupon_of(code) is None,
            forall|id: Seq<char>| #[trigger] r.profile_of(id) is None,
            r.reviews_view().len() == 0,
    {
        MemoryRepository {
            profiles: Keyed::new(),
            leaderboards: Keyed::new(),
            reviews: Vec::new(),
            active_users: Keyed::new(),
            coupons: Keyed::new(),
        }
    }

    // ---- presence ----

    /// How many presence events of `namespace` count at `now` (seconds).
    pub fn get_active_count(&self, namespace: &str, now: u64) -> (r: Result<usize, RepositoryError>)
        requires
            self.wf(),
        ensures
            r is Ok,
            r->Ok_0 == count_active(self.presence_of(namespace@), now),
    {
        let key = namespace.to_owned();
        match self.active_users.get(&key) {
            Some(log) => Ok(log.get_active_count(now)),
            None => Ok(0),
        }
    }

    /// Records a presence event of `namespace` at `now` (seconds), dropping
    /// the events of `namespace` that no longer count, and returns how many
    /// count at `now`, the new one included. Other namespaces are untouched.
    pub fn record_presence(&mut self, namespace: &str, now: u64) -> (r: Result<usize, RepositoryError>)
        requires
            old(self).wf(),
        ensures
            final(self).wf(),
            final(self).presence_of(namespace@) == keep_active(old(self).presence_of(namespace@), now).push(now),
            r is Ok,
            r->Ok_0 == count_active(old(self).presence_of(namespace@), now) + 1,
            forall|ns: Seq<char>| ns != namespace@ ==> #[trigger] final(self).presence_of(ns) == old(self).presence_of(ns),
            forall|ns: Seq<char>| #[trigger] final(self).leaderboard_of(ns) == old(self).leaderboard_of(ns),
            forall|c: Seq<char>| #[trigger] final(self).coupon_of(c) == old(self).coupon_of(c),
            forall|id: Seq<char>| #[trigger] final(self).profile_of(id) == old(self).profile_of(id),
            final(self).reviews_view() == old(self).reviews_view(),
    {
        let key = namespace.to_owned();
        let mut log = match self.active_users.take(&key) {
            Some(l) => l,
            None => PresenceLog::new(),
        };
        let count = log.record_presence(now);
        self.active_users.put(key, log);
        Ok(count)
    }

    // ---- reviews ----

    /// Appends `review` to the stored reviews.
    pub fn store_review(&mut self, review: Review) -> (r: Result<(), RepositoryError>)
        requires
            old(self).wf(),
        ensures
            final(self).wf(),
            r is Ok,
            final(self).reviews_view() == old(self).reviews_view().push(review@),
    {
        self.reviews.push(review);
        assert(self.reviews_view() =~= old(self).reviews_view().push(review@));
        Ok(())
    }

    /// The reviews of `challenge_id`, in the order they were stored.
    pub fn fetch_reviews(&self, challenge_id: &str) -> (r: Result<Vec<Review>, RepositoryError>)
        requires
            self.wf(),
        ensures
            r is Ok,
            reviews_view(r->Ok_0@) == reviews_for(self.reviews_view(), challenge_id@),
    {
        let key = challenge_id.to_owned();
        Ok(filter_reviews(&self.reviews, &key))
    }

    /// The sum and number of the ratings of `challenge_id`.
    pub fn fetch_average_rating(&self, challenge_id: &str) -> (r: Result<RatingSummary, RepositoryError>)
        requires
            self.wf(),
        ensures
            r is Ok,
            r->Ok_0.total == rating_total(reviews_for(self.reviews_view(), challenge_id@)),
            r->Ok_0.count == reviews_for(self.reviews_view(), challenge_id@).len(),
    {
        let key = challenge_id.to_owned();
        let mine = filter_reviews(&self.reviews, &key);
        assert(reviews_view(mine@).len() == mine@.len());
        Ok(summarize_ratings(&mine))
    }

    /// Every stored review, in the order they were stored.
    pub fn fetch_all_reviews(&self) -> (r: Result<Vec<Review>, RepositoryError>)
        requires
            self.wf(),
        ensures
            r is Ok,
            reviews_view(r->Ok_0@) == self.reviews_view(),
    {
        let mut out: Vec<Review> = Vec::new();
        let mut i: usize = 0;
        while i < self.reviews.len()
            invariant
                i <= self.reviews@.len(),
                out@.len() == i,
                forall|k: int| 0 <= k < i ==> (#[trigger] out@[k])@ == self.reviews@[k]@,
            decreases self.reviews@.len() - i,
        {
            out.push(self.reviews[i].duplicate());
            i = i + 1;
        }
        assert(reviews_view(out@) =~= self.reviews_view());
        Ok(out)
    }

    // ---- profiles ----

    /// The profile with `profile_id`; `NotFound` naming the id if there is none.
    pub fn fetch_profile(&self, profile_id: &str) -> (r: Result<PlayerProfile, RepositoryError>)
        requires
            self.wf(),
        ensures
            r is Ok <==> self.profile_of(profile_id@) is Some,
            r is Ok ==> Some(r->Ok_0@) == self.profile_of(profile_id@),
            r is Err ==> r->Err_0 is NotFound && r->Err_0->NotFound_0@ == profile_id@,
    {
        let key = profile_id.to_owned();
        match self.profiles.get(&key) {
            Some(p) => Ok(p.duplicate()),
            None => Err(RepositoryError::NotFound(key)),
        }
    }

    /// Every stored profile, each once.
    pub fn fetch_all_profiles(&self) -> (r: Result<Vec<PlayerProfile>, RepositoryError>)
        requires
            self.wf(),
        ensures
            r is Ok,
            forall|i: int| 0 <= i < r->Ok_0@.len() ==> self.profile_of((#[trigger] r->Ok_0@[i]).id@) == Some(r->Ok_0@[i]@),
            forall|i: int, j: int| 0 <= i < j < r->Ok_0@.len() ==> (#[trigger] r->Ok_0@[i]).id@ != (#[trigger] r->Ok_0@[j]).id@,
            forall|id: Seq<char>| #[trigger] self.profile_of(id) is Some ==> exists|i: int| 0 <= i < r->Ok_0@.len() && r->Ok_0@[i].id@ == id,
    {
        proof {
            self.profiles.lemma_values();
        }
        let vals = self.profiles.values();
        let mut out: Vec<PlayerProfile> = Vec::new();
        let mut i: usize = 0;
        while i < vals.len()
            invariant
                i <= vals@.len(),
                vals@ == self.profiles.values_view(),
                self.wf(),
                out@.len() == i,
                forall|k: int| 0 <= k < i ==> (#[trigger] out@[k])@ == vals@[k]@,
            decreases vals@.len() - i,
        {
            out.push(vals[i].duplicate());
            i = i + 1;
        }
        proof {
            let ks = self.profiles.keys_view();
            assert forall|a: int| 0 <= a < out@.len() implies ks[a] == (#[trigger] out@[a]).id@ by {
                assert(self.profiles@.contains_key(ks[a]));
            }
            assert forall|a: int, b: int| 0 <= a < b < out@.len() implies (#[trigger] out@[a]).id@ != (#[trigger] out@[b]).id@ by {
                assert(self.profiles@.contains_key(ks[a]));
                assert(self.profiles@.contains_key(ks[b]));
                self.profiles.lemma_keys_unique();
            }
            assert forall|id: Seq<char>| #[trigger] self.profile_of(id) is Some implies exists|a: int| 0 <= a < out@.len() && out@[a].id@ == id by {
                assert(self.profiles@.contains_key(id));
                let a = choose|a: int| 0 <= a < ks.len() && ks[a] == id;
                assert(self.profiles@.contains_key(ks[a]));
                assert(out@[a].id@ == id);
            }
        }
        Ok(out)
    }

    /// Stores `profile` under its id, in place of any profile with that id.
    pub fn save_profile(&mut self, profile: PlayerProfile) -> (r: Result<PlayerProfile, RepositoryError>)
        requires
            old(self).wf(),
        ensures
            final(self).wf(),
            r is Ok,
            r->Ok_0@ == profile@,
            final(self).profile_of(profile.id@) == Some(profile@),
            forall|id: Seq<char>| id != profile.id@ ==> #[trigger] final(self).profile_of(id) == old(self).profile_of(id),
    {
        let copy = profile.duplicate();
        let key = profile.id.clone();
        self.profiles.put(key, profile);
        Ok(copy)
    }

    // ---- coupons ----

    /// Stores `coupon` under its code, in place of any coupon with that code.
    pub fn save_coupon(&mut self, coupon: Coupon) -> (r: Result<Coupon, RepositoryError>)
        requires
            old(self).wf(),
        ensures
            final(self).wf(),
            r is Ok,
            r->Ok_0@ == coupon@,
            final(self).coupon_of(coupon.code@) == Some(coupon@),
            forall|code: Seq<char>| code != coupon.code@ ==> #[trigger] final(self).coupon_of(code) == old(self).coupon_of(code),
    {
        let copy = coupon.duplicate();
        let key = coupon.code.clone();
        self.coupons.put(key, coupon);
        Ok(copy)
    }

    /// The coupon with `code`, if any.
    pub fn fetch_coupon(&self, code: &str) -> (r: Result<Option<Coupon>, RepositoryError>)
        requires
            self.wf(),
        ensures
            r is Ok,
            r->Ok_0 is Some <==> self.coupon_of(code@) is Some,
            r->Ok_0 is Some ==> Some(r->Ok_0->Some_0@) == self.coupon_of(code@),
    {
        let key = code.to_owned();
        match self.coupons.get(&key) {
            Some(c) => Ok(Some(c.duplicate())),
            None => Ok(None),
        }
    }

    /// Every stored coupon, each once.
    pub fn fetch_all_coupons(&self) -> (r: Result<Vec<Coupon>, RepositoryError>)
        requires
            self.wf(),
        ensures
            r is Ok,
            forall|i: int| 0 <= i < r->Ok_0@.len() ==> self.coupon_of((#[trigger] r->Ok_0@[i]).code@) == Some(r->Ok_0@[i]@),
            forall|i: int, j: int| 0 <= i < j < r->Ok_0@.len() ==> (#[trigger] r->Ok_0@[i]).code@ != (#[trigger] r->Ok_0@[j]).code@,
            forall|code: Seq<char>| #[trigger] self.coupon_of(code) is Some ==> exists|i: int| 0 <= i < r->Ok_0@.len() && r->Ok_0@[i].code@ == code,
    {
        proof {
            self.coupons.lemma_values();
        }
        let vals = self.coupons.values();
        let mut out: Vec<Coupon> = Vec::new();
        let mut i: usize = 0;
        while i < vals.len()
            invariant
                i <= vals@.len(),
                vals@ == self.coupons.values_view(),
                self.wf(),
                out@.len() == i,
                forall|k: int| 0 <= k < i ==> (#[trigger] out@[k])@ == vals@[k]@,
            decreases vals@.len() - i,
        {
            out.push(vals[i].duplicate());
            i = i + 1;
        }
        proof {
            let ks = self.coupons.keys_view();
            assert forall|a: int| 0 <= a < out@.len() implies ks[a] == (#[trigger] out@[a]).code@ by {
                assert(self.coupons@.contains_key(ks[a]));
            }
            assert forall|a: int, b: int| 0 <= a < b < out@.len() implies (#[trigger] out@[a]).code@ != (#[trigger] out@[b]).code@ by {
                assert(self.coupons@.contains_key(ks[a]));
                assert(self.coupons@.contains_key(ks[b]));
                self.coupons.lemma_keys_unique();
            }
            assert forall|code: Seq<char>| #[trigger] self.coupon_of(code) is Some implies exists|a: int| 0 <= a < out@.len() && out@[a].code@ == code by {
                assert(self.coupons@.contains_key(code));
                let a = choose|a: int| 0 <= a < ks.len() && ks[a] == code;
                assert(self.coupons@.contains_key(ks[a]));
                assert(out@[a].code@ == code);
            }
        }
        Ok(out)
    }

    /// Redeems the coupon `code` once for `challenge_id` at `now`
    /// (milliseconds): on success the stored coupon has one use fewer and is
    /// returned; else the reason, with every coupon unchanged. The check and
    /// the decrement happen under one exclusive borrow of the store, so no
    /// other redemption can come between them.
    pub fn redeem(&mut self, code: &str, challenge_id: &str, now: i64) -> (r: Result<Coupon, RedemptionError>)
        requires
            old(self).wf(),
        ensures
            final(self).wf(),
            old(self).coupon_of(code@) is None ==> r == Err::<Coupon, RedemptionError>(RedemptionError::NotFound),
            old(self).coupon_of(code@) is Some ==> match refusal(old(self).coupon_of(code@)->Some_0, challenge_id@, now) {
                Some(e) => r == Err::<Coupon, RedemptionError>(e),
                None => r is Ok && r->Ok_0@ == redeemed(old(self).coupon_of(code@)->Some_0),
            },
            r is Ok ==> final(self).coupon_of(code@) == Some(r->Ok_0@),
            r is Err ==> final(self).coupon_of(code@) == old(self).coupon_of(code@),
            forall|c: Seq<char>| c != code@ ==> #[trigger] final(self).coupon_of(c) == old(self).coupon_of(c),
            forall|ns: Seq<char>| #[trigger] final(self).leaderboard_of(ns) == old(self).leaderboard_of(ns),
    {
        let key = code.to_owned();
        let challenge = challenge_id.to_owned();
        match self.coupons.take(&key) {
            None => Err(RedemptionError::NotFound),
            Some(mut coupon) => {
                let outcome = coupon.redeem(&challenge, now);
                let result = match outcome {
                    Ok(()) => Ok(coupon.duplicate()),
                    Err(e) => Err(e),
                };
                self.coupons.put(key, coupon);
                result
            },
        }
    }

    // ---- leaderboards ----

    /// The records retained for `namespace`, in storage order.
    pub fn fetch_performance_records(&self, namespace: &str) -> (r: Result<Vec<PerformanceRecord>, RepositoryError>)
        requires
            self.wf(),
        ensures
            r is Ok,
            records_view(r->Ok_0@) == self.leaderboard_of(namespace@),
            r->Ok_0@.len() <= PERFORMANCE_RECORDS_LIMIT,
    {
        proof {
            self.lemma_leaderboards_within_limit();
        }
        let key = namespace.to_owned();
        match self.leaderboards.get(&key) {
            Some(board) => Ok(board.fetch_performance_records()),
            None => {
                let v: Vec<PerformanceRecord> = Vec::new();
                assert(records_view(v@) =~= Seq::<RecordView>::empty());
                Ok(v)
            },
        }
    }

    /// The records retained for `namespace`, best first; records that rank
    /// alike keep their storage order.
    pub fn get_leaderboard(&self, namespace: &str) -> (r: Vec<PerformanceRecord>)
        requires
            self.wf(),
        ensures
            records_view(r@) == sort_ranked(self.leaderboard_of(namespace@)),
            is_ranked(records_view(r@)),
            records_view(r@).to_multiset() == self.leaderboard_of(namespace@).to_multiset(),
            forall|c: RecordView| #[trigger] alike_with(records_view(r@), c) == alike_with(self.leaderboard_of(namespace@), c),
            r@.len() <= PERFORMANCE_RECORDS_LIMIT,
    {
        proof {
            self.lemma_leaderboards_within_limit();
            crate::leaderboard::lemma_sort_ranked(self.leaderboard_of(namespace@));
        }
        let key = namespace.to_owned();
        match self.leaderboards.get(&key) {
            Some(board) => board.get_leaderboard(),
            None => {
                let v: Vec<PerformanceRecord> = Vec::new();
                assert(records_view(v@) =~= Seq::<RecordView>::empty());
                assert(sort_ranked(Seq::<RecordView>::empty()) == Seq::<RecordView>::empty());
                v
            },
        }
    }

    /// The leaderboard of `key`, taken out of the store (a new one if none).
    fn take_board(&mut self, key: &String) -> (r: Leaderboard)
        requires
            old(self).wf(),
        ensures
            r.wf(),
            r@ == old(self).leaderboard_of(key@),
            final(self).leaderboards.wf(),
            final(self).leaderboards@ == old(self).leaderboards@.remove(key@),
            final(self).profiles == old(self).profiles,
            final(self).reviews == old(self).reviews,
            final(self).active_users == old(self).active_users,
            final(self).coupons == old(self).coupons,
    {
        match self.leaderboards.take(key) {
            Some(b) => b,
            None => Leaderboard::new(key.clone()),
        }
    }

    /// Puts `board` back as the leaderboard of `key`.
    fn put_board(&mut self, key: String, board: Leaderboard)
        requires
            old(self).leaderboards.wf(),
            board.wf(),
            old(self).profiles.wf(),
            old(self).active_users.wf(),
            old(self).coupons.wf(),
            forall|k: Seq<char>| #[trigger] old(self).leaderboards@.contains_key(k) ==> old(self).leaderboards@[k].wf(),
            forall|k: Seq<char>| #[trigger] old(self).coupons@.contains_key(k) ==> old(self).coupons@[k].code@ == k,
            forall|k: Seq<char>| #[trigger] old(self).profiles@.contains_key(k) ==> old(self).profiles@[k].id@ == k,
        ensures
            final(self).wf(),
            final(self).leaderboards@ == old(self).leaderboards@.insert(key@, board),
            final(self).profiles == old(self).profiles,
            final(self).reviews == old(self).reviews,
            final(self).active_users == old(self).active_users,
            final(self).coupons == old(self).coupons,
    {
        self.leaderboards.put(key, board);
    }

    /// Stores `rec` in `namespace` if it is below its limit; else refuses it
    /// with `LimitReached`.
    pub fn add_performance_record(&mut self, namespace: &str, rec: PerformanceRecord) -> (r: Result<PerformanceRecord, RepositoryError>)
        requires
            old(self).wf(),
        ensures
            final(self).wf(),
            old(self).leaderboard_of(namespace@).len() < PERFORMANCE_RECORDS_LIMIT ==> r is Ok && r->Ok_0@ == rec@
                && final(self).leaderboard_of(namespace@) == old(self).leaderboard_of(namespace@).push(rec@),
            old(self).leaderboard_of(namespace@).len() >= PERFORMANCE_RECORDS_LIMIT ==> r == Err::<PerformanceRecord, RepositoryError>(
                RepositoryError::LimitReached(PERFORMANCE_RECORDS_LIMIT),
            ) && final(self).leaderboard_of(namespace@) == old(self).leaderboard_of(namespace@),
            forall|ns: Seq<char>| ns != namespace@ ==> #[trigger] final(self).leaderboard_of(ns) == old(self).leaderboard_of(ns),
    {
        let key = namespace.to_owned();
        let mut board = self.take_board(&key);
        let r = board.add_performance_record(rec);
        self.put_board(key, board);
        r
    }

    /// Removes the first record of `namespace` equal to `rec`; `NotFound`
    /// when there is none.
    pub fn remove_performance_record(&mut self, namespace: &str, rec: PerformanceRecord) -> (r: Result<PerformanceRecord, RepositoryError>)
        requires
            old(self).wf(),
        ensures
            final(self).wf(),
            r is Ok <==> old(self).leaderboard_of(namespace@).contains(rec@),
            r is Ok ==> r->Ok_0@ == rec@ && exists|i: int|
                0 <= i < old(self).leaderboard_of(namespace@).len() && old(self).leaderboard_of(namespace@)[i] == rec@
                    && (forall|k: int| 0 <= k < i ==> old(self).leaderboard_of(namespace@)[k] != rec@)
                    && final(self).leaderboard_of(namespace@) == old(self).leaderboard_of(namespace@).remove(i),
            r is Err ==> r->Err_0 is NotFound && final(self).leaderboard_of(namespace@) == old(self).leaderboard_of(namespace@),
            forall|ns: Seq<char>| ns != namespace@ ==> #[trigger] final(self).leaderboard_of(ns) == old(self).leaderboard_of(ns),
    {
        let key = namespace.to_owned();
        let mut board = self.take_board(&key);
        let r = board.remove_performance_record(rec);
        self.put_board(key, board);
        r
    }

    /// Submits `rec` to `namespace`: stored while there is room; at the limit
    /// it replaces the worst record if it ranks strictly better, and is
    /// refused with `LimitReached` otherwise. Other namespaces are untouched.
    pub fn submit_performance_record(&mut self, namespace: &str, rec: PerformanceRecord) -> (r: Result<PerformanceRecord, RepositoryError>)
        requires
            old(self).wf(),
        ensures
            final(self).wf(),
            final(self).leaderboard_of(namespace@) == after_submit(old(self).leaderboard_of(namespace@), rec@),
            accepts(old(self).leaderboard_of(namespace@), rec@) ==> r is Ok && r->Ok_0@ == rec@,
            !accepts(old(self).leaderboard_of(namespace@), rec@) ==> r == Err::<PerformanceRecord, RepositoryError>(
                RepositoryError::LimitReached(PERFORMANCE_RECORDS_LIMIT),
            ),
            forall|ns: Seq<char>| ns != namespace@ ==> #[trigger] final(self).leaderboard_of(ns) == old(self).leaderboard_of(ns),
    {
        let key = namespace.to_owned();
        let mut board = self.take_board(&key);
        let r = board.submit(rec);
        self.put_board(key, board);
        r
    }
}


/// A store that counts presence events per namespace over a trailing window.
pub trait WindowedCounterRepository {
    /// The store is in a usable state.
    spec fn ready(&self) -> bool;

    /// How many presence events of `namespace` count at second `now`.
    fn get_active_count(&self, namespace: &str, now: u64) -> (r: Result<usize, RepositoryError>)
        requires
            self.ready(),
    ;

    /// Records a presence event of `namespace` at second `now` and returns
    /// how many count at `now`.
    fn record_presence(&mut self, namespace: &str, now: u64) -> (r: Result<usize, RepositoryError>)
        requires
            old(self).ready(),
        ensures
            final(self).ready(),
    ;
}

/// Everything the services need of a store.
pub trait Storage: WindowedCounterRepository {
}

impl WindowedCounterRepository for MemoryRepository {
    open spec fn ready(&self) -> bool {
        self.wf()
    }

    fn get_active_count(&self, namespace: &str, now: u64) -> (r: Result<usize, RepositoryError>) {
        MemoryRepository::get_active_count(self, namespace, now)
    }

    fn record_presence(&mut self, namespace: &str, now: u64) -> (r: Result<usize, RepositoryError>) {
        MemoryRepository::record_presence(self, namespace, now)
    }
}

impl Storage for MemoryRepository {
}

} // verus!
