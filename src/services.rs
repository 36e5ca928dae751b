use vstd::prelude::*;
use crate::clock::{epoch_seconds, now_millis};
use crate::coupon::{is_redeemable, present_and_redeemable, redeemed, refusal, Coupon, CouponError, RedemptionError};
use crate::error::RepositoryError;
use crate::leaderboard::{accepts, after_submit, alike_with, is_ranked, sort_ranked, PERFORMANCE_RECORDS_LIMIT};
use crate::presence::{count_active, keep_active, lemma_count_bound};
use crate::profile::PlayerProfile;
use crate::record::{records_view, PerformanceRecord, RecordView};
use crate::review::{rating_total, reviews_for, reviews_view, RatingSummary, Review};
use crate::storage::MemoryRepository;

verus! {

// ---- leaderboard ----

/// Submits `performance_record` to the leaderboard of `namespace`: stored
/// while there is room; at the limit it replaces the worst record if it ranks
/// strictly better, else it is refused with `LimitReached`.
pub fn add_performance_record(
    namespace: &str,
    performance_record: PerformanceRecord,
    repository: &mut MemoryRepository,
) -> (r: Result<PerformanceRecord, RepositoryError>)
    requires
        old(repository).wf(),
    ensures
        final(repository).wf(),
        final(repository).leaderboard_of(namespace@) == after_submit(
            old(repository).leaderboard_of(namespace@),
            performance_record@,
        ),
        accepts(old(repository).leaderboard_of(namespace@), performance_record@) ==> r is Ok
            && r->Ok_0@ == performance_record@,
        !accepts(old(repository).leaderboard_of(namespace@), performance_record@) ==> r == Err::<
            PerformanceRecord,
            RepositoryError,
        >(RepositoryError::LimitReached(PERFORMANCE_RECORDS_LIMIT)),
        forall|ns: Seq<char>| ns != namespace@ ==> #[trigger] final(repository).leaderboard_of(ns)
            == old(repository).leaderboard_of(ns),
{
    repository.submit_performance_record(namespace, performance_record)
}

/// The records retained for `namespace`, in storage order.
pub fn fetch_all_performance_records(namespace: &str, repository: &MemoryRepository) -> (r: Result<
    Vec<PerformanceRecord>,
    RepositoryError,
>)
    requires
        repository.wf(),
    ensures
        r is Ok,
        records_view(r->Ok_0@) == repository.leaderboard_of(namespace@),
        r->Ok_0@.len() <= PERFORMANCE_RECORDS_LIMIT,
{
    repository.fetch_performance_records(namespace)
}

/// The records retained for `namespace`, best first; records that rank
/// alike keep their storage order.
pub fn get_leaderboard(namespace: &str, repository: &MemoryRepository) -> (r: Vec<PerformanceRecord>)
    requires
        repository.wf(),
    ensures
        records_view(r@) == sort_ranked(repository.leaderboard_of(namespace@)),
        is_ranked(records_view(r@)),
        records_view(r@).to_multiset() == repository.leaderboard_of(namespace@).to_multiset(),
        forall|c: RecordView| #[trigger] alike_with(records_view(r@), c) == alike_with(repository.leaderboard_of(namespace@), c),
        r@.len() <= PERFORMANCE_RECORDS_LIMIT,
{
    repository.get_leaderboard(namespace)
}

// ---- presence ----

/// Records a presence event of `namespace` at second `now` and returns how
/// many events of `namespace` count at `now`.
pub fn record_presence_at(namespace: &str, now: u64, repository: &mut MemoryRepository) -> (r: Result<usize, RepositoryError>)
    requires
        old(repository).wf(),
    ensures
        final(repository).wf(),
        final(repository).presence_of(namespace@) == keep_active(old(repository).presence_of(namespace@), now).push(now),
        r is Ok,
        r->Ok_0 == count_active(old(repository).presence_of(namespace@), now) + 1,
        forall|ns: Seq<char>| ns != namespace@ ==> #[trigger] final(repository).presence_of(ns)
            == old(repository).presence_of(ns),
        forall|ns: Seq<char>| #[trigger] final(repository).leaderboard_of(ns) == old(repository).leaderboard_of(ns),
        forall|c: Seq<char>| #[trigger] final(repository).coupon_of(c) == old(repository).coupon_of(c),
        forall|id: Seq<char>| #[trigger] final(repository).profile_of(id) == old(repository).profile_of(id),
        final(repository).reviews_view() == old(repository).reviews_view(),
{
    repository.record_presence(namespace, now)
}

/// Records a presence event of `namespace` now and returns how many events
/// of `namespace` count now, the new one included. Whatever second the clock
/// gave, the log is the events still counting then plus the new one, and the
/// answer is their number.
pub fn record_presence(namespace: &str, repository: &mut MemoryRepository) -> (r: Result<usize, RepositoryError>)
    requires
        old(repository).wf(),
    ensures
        final(repository).wf(),
        r is Ok,
        exists|t: u64|
            #[trigger] keep_active(old(repository).presence_of(namespace@), t).push(t)
                == final(repository).presence_of(namespace@) && r->Ok_0 == count_active(
                old(repository).presence_of(namespace@),
                t,
            ) + 1,
        forall|ns: Seq<char>| ns != namespace@ ==> #[trigger] final(repository).presence_of(ns)
            == old(repository).presence_of(ns),
        forall|ns: Seq<char>| #[trigger] final(repository).leaderboard_of(ns) == old(repository).leaderboard_of(ns),
        forall|c: Seq<char>| #[trigger] final(repository).coupon_of(c) == old(repository).coupon_of(c),
        forall|id: Seq<char>| #[trigger] final(repository).profile_of(id) == old(repository).profile_of(id),
        final(repository).reviews_view() == old(repository).reviews_view(),
{
    let now = epoch_seconds(now_millis());
    let r = record_presence_at(namespace, now, repository);
    assert(keep_active(old(repository).presence_of(namespace@), now).push(now)
        == final(repository).presence_of(namespace@));
    r
}

/// How many presence events of `namespace` count at second `now`.
pub fn get_active_count_at(namespace: &str, now: u64, repository: &MemoryRepository) -> (r: Result<usize, RepositoryError>)
    requires
        repository.wf(),
    ensures
        r is Ok,
        r->Ok_0 == count_active(repository.presence_of(namespace@), now),
{
    repository.get_active_count(namespace, now)
}

/// How many presence events of `namespace` count now: no more than are kept.
pub fn get_active_count(namespace: &str, repository: &MemoryRepository) -> (r: Result<usize, RepositoryError>)
    requires
        repository.wf(),
    ensures
        r is Ok,
        exists|t: u64| r->Ok_0 == #[trigger] count_active(repository.presence_of(namespace@), t),
        r->Ok_0 <= repository.presence_of(namespace@).len(),
{
    let now = epoch_seconds(now_millis());
    proof {
        lemma_count_bound(repository.presence_of(namespace@), now);
    }
    get_active_count_at(namespace, now, repository)
}

// ---- coupons ----

/// Stores `coupon` under its code.
pub fn create_coupon(coupon: Coupon, repository: &mut MemoryRepository) -> (r: Result<Coupon, CouponError>)
    requires
        old(repository).wf(),
    ensures
        final(repository).wf(),
        r is Ok,
        r->Ok_0@ == coupon@,
        final(repository).coupon_of(coupon.code@) == Some(coupon@),
        forall|code: Seq<char>| code != coupon.code@ ==> #[trigger] final(repository).coupon_of(code)
            == old(repository).coupon_of(code),
{
    match repository.save_coupon(coupon) {
        Ok(c) => Ok(c),
        Err(e) => Err(CouponError::Repository(e)),
    }
}

/// The coupon with `code`, if any.
pub fn get_coupon(code: String, repository: &MemoryRepository) -> (r: Result<Option<Coupon>, CouponError>)
    requires
        repository.wf(),
    ensures
        r is Ok,
        r->Ok_0 is Some <==> repository.coupon_of(code@) is Some,
        r->Ok_0 is Some ==> Some(r->Ok_0->Some_0@) == repository.coupon_of(code@),
{
    match repository.fetch_coupon(code.as_str()) {
        Ok(c) => Ok(c),
        Err(e) => Err(CouponError::Repository(e)),
    }
}

/// Every stored coupon, each once.
pub fn list_coupons(repository: &MemoryRepository) -> (r: Result<Vec<Coupon>, CouponError>)
    requires
        repository.wf(),
    ensures
        r is Ok,
        forall|i: int| 0 <= i < r->Ok_0@.len() ==> repository.coupon_of((#[trigger] r->Ok_0@[i]).code@)
            == Some(r->Ok_0@[i]@),
        forall|i: int, j: int| 0 <= i < j < r->Ok_0@.len() ==> (#[trigger] r->Ok_0@[i]).code@
            != (#[trigger] r->Ok_0@[j]).code@,
        forall|code: Seq<char>| #[trigger] repository.coupon_of(code) is Some ==> exists|i: int|
            0 <= i < r->Ok_0@.len() && r->Ok_0@[i].code@ == code,
{
    match repository.fetch_all_coupons() {
        Ok(v) => Ok(v),
        Err(e) => Err(CouponError::Repository(e)),
    }
}

/// Whether the coupon `code` exists and can be redeemed for `challenge_id`
/// at `now` (milliseconds).
pub fn validate_coupon_at(code: String, challenge_id: String, now: i64, repository: &MemoryRepository) -> (r: Result<bool, CouponError>)
    requires
        repository.wf(),
    ensures
        r is Ok,
        r->Ok_0 == (repository.coupon_of(code@) is Some && is_redeemable(
            repository.coupon_of(code@)->Some_0,
            challenge_id@,
            now,
        )),
{
    match repository.fetch_coupon(code.as_str()) {
        Ok(Some(coupon)) => Ok(coupon.is_valid_for(&challenge_id, now)),
        Ok(None) => Ok(false),
        Err(e) => Err(CouponError::Repository(e)),
    }
}

/// Whether the coupon `code` exists and can be redeemed for `challenge_id`
/// now. A true answer means the coupon lists the challenge and has a use left.
pub fn validate_coupon(code: String, challenge_id: String, repository: &MemoryRepository) -> (r: Result<bool, CouponError>)
    requires
        repository.wf(),
    ensures
        r is Ok,
        exists|t: i64| r->Ok_0 == #[trigger] present_and_redeemable(repository.coupon_of(code@), challenge_id@, t),
        repository.coupon_of(code@) is None ==> !r->Ok_0,
        r->Ok_0 ==> repository.coupon_of(code@)->Some_0.challenge_ids.contains(challenge_id@)
            && repository.coupon_of(code@)->Some_0.uses_remaining > 0,
{
    let ghost cv = code@;
    let ghost chv = challenge_id@;
    let now = now_millis();
    let r = validate_coupon_at(code, challenge_id, now, repository);
    assert(r->Ok_0 == present_and_redeemable(repository.coupon_of(cv), chv, now));
    r
}

/// Redeems the coupon `code` once for `challenge_id` at `now`
/// (milliseconds), saying why when it cannot: `NotFound`, then
/// `InvalidChallenge`, `Expired`, `Exhausted`.
pub fn redeem_coupon_checked_at(
    code: String,
    challenge_id: String,
    now: i64,
    repository: &mut MemoryRepository,
) -> (r: Result<Coupon, CouponError>)
    requires
        old(repository).wf(),
    ensures
        final(repository).wf(),
        old(repository).coupon_of(code@) is None ==> r == Err::<Coupon, CouponError>(
            CouponError::Redemption(RedemptionError::NotFound),
        ),
        old(repository).coupon_of(code@) is Some ==> match refusal(
            old(repository).coupon_of(code@)->Some_0,
            challenge_id@,
            now,
        ) {
            Some(e) => r == Err::<Coupon, CouponError>(CouponError::Redemption(e)),
            None => r is Ok && r->Ok_0@ == redeemed(old(repository).coupon_of(code@)->Some_0),
        },
        r is Ok ==> final(repository).coupon_of(code@) == Some(r->Ok_0@),
        r is Err ==> final(repository).coupon_of(code@) == old(repository).coupon_of(code@),
        forall|c: Seq<char>| c != code@ ==> #[trigger] final(repository).coupon_of(c) == old(repository).coupon_of(c),
{
    match repository.redeem(code.as_str(), challenge_id.as_str(), now) {
        Ok(c) => Ok(c),
        Err(e) => Err(CouponError::Redemption(e)),
    }
}

/// Redeems the coupon `code` once for `challenge_id` at `now`
/// (milliseconds): true when a use was taken; false when there is no such
/// coupon or it cannot be redeemed (wrong challenge, expired, no uses left),
/// in which case nothing changes.
pub fn redeem_coupon_at(
    code: String,
    challenge_id: String,
    now: i64,
    repository: &mut MemoryRepository,
) -> (r: Result<bool, CouponError>)
    requires
        old(repository).wf(),
    ensures
        final(repository).wf(),
        r is Ok,
        r->Ok_0 == (old(repository).coupon_of(code@) is Some && is_redeemable(
            old(repository).coupon_of(code@)->Some_0,
            challenge_id@,
            now,
        )),
        r->Ok_0 ==> final(repository).coupon_of(code@) == Some(
            redeemed(old(repository).coupon_of(code@)->Some_0),
        ),
        !r->Ok_0 ==> final(repository).coupon_of(code@) == old(repository).coupon_of(code@),
        forall|c: Seq<char>| c != code@ ==> #[trigger] final(repository).coupon_of(c) == old(repository).coupon_of(c),
{
    match repository.redeem(code.as_str(), challenge_id.as_str(), now) {
        Ok(_) => Ok(true),
        Err(_) => Ok(false),
    }
}

/// Redeems the coupon `code` once for `challenge_id` now. A true answer
/// means a use was taken from a coupon that listed the challenge and had one
/// left; on false nothing changed.
pub fn redeem_coupon(code: String, challenge_id: String, repository: &mut MemoryRepository) -> (r: Result<bool, CouponError>)
    requires
        old(repository).wf(),
    ensures
        final(repository).wf(),
        r is Ok,
        exists|t: i64| r->Ok_0 == #[trigger] present_and_redeemable(old(repository).coupon_of(code@), challenge_id@, t),
        old(repository).coupon_of(code@) is None ==> !r->Ok_0,
        r->Ok_0 ==> old(repository).coupon_of(code@)->Some_0.challenge_ids.contains(challenge_id@)
            && old(repository).coupon_of(code@)->Some_0.uses_remaining > 0
            && final(repository).coupon_of(code@) == Some(redeemed(old(repository).coupon_of(code@)->Some_0)),
        !r->Ok_0 ==> final(repository).coupon_of(code@) == old(repository).coupon_of(code@),
        forall|c: Seq<char>| c != code@ ==> #[trigger] final(repository).coupon_of(c) == old(repository).coupon_of(c),
{
    let ghost before = *repository;
    let ghost cv = code@;
    let ghost chv = challenge_id@;
    let now = now_millis();
    let r = redeem_coupon_at(code, challenge_id, now, repository);
    assert(r->Ok_0 == present_and_redeemable(before.coupon_of(cv), chv, now));
    r
}

// ---- profiles ----

/// The profile with `profile_id`; `NotFound` naming the id if there is none.
pub fn fetch_profile(profile_id: String, repository: &MemoryRepository) -> (r: Result<PlayerProfile, RepositoryError>)
    requires
        repository.wf(),
    ensures
        r is Ok <==> repository.profile_of(profile_id@) is Some,
        r is Ok ==> Some(r->Ok_0@) == repository.profile_of(profile_id@),
        r is Err ==> r->Err_0 is NotFound && r->Err_0->NotFound_0@ == profile_id@,
{
    repository.fetch_profile(profile_id.as_str())
}

/// Every stored profile, each once.
pub fn fetch_all_profiles(repository: &MemoryRepository) -> (r: Result<Vec<PlayerProfile>, RepositoryError>)
    requires
        repository.wf(),
    ensures
        r is Ok,
        forall|i: int| 0 <= i < r->Ok_0@.len() ==> repository.profile_of((#[trigger] r->Ok_0@[i]).id@)
            == Some(r->Ok_0@[i]@),
        forall|i: int, j: int| 0 <= i < j < r->Ok_0@.len() ==> (#[trigger] r->Ok_0@[i]).id@
            != (#[trigger] r->Ok_0@[j]).id@,
        forall|id: Seq<char>| #[trigger] repository.profile_of(id) is Some ==> exists|i: int|
            0 <= i < r->Ok_0@.len() && r->Ok_0@[i].id@ == id,
{
    repository.fetch_all_profiles()
}

/// Stores `profile` under its id and returns it.
pub fn save_profile(profile: PlayerProfile, repository: &mut MemoryRepository) -> (r: Result<PlayerProfile, RepositoryError>)
    requires
        old(repository).wf(),
    ensures
        final(repository).wf(),
        r is Ok,
        r->Ok_0@ == profile@,
        final(repository).profile_of(profile.id@) == Some(profile@),
        forall|id: Seq<char>| id != profile.id@ ==> #[trigger] final(repository).profile_of(id)
            == old(repository).profile_of(id),
{
    repository.save_profile(profile)
}

// ---- reviews ----

/// The reviews of `challenge_id`, in the order they were stored.
pub fn fetch_reviews(challenge_id: String, repository: &MemoryRepository) -> (r: Result<Vec<Review>, RepositoryError>)
    requires
        repository.wf(),
    ensures
        r is Ok,
        reviews_view(r->Ok_0@) == reviews_for(repository.reviews_view(), challenge_id@),
{
    repository.fetch_reviews(challenge_id.as_str())
}

/// The sum and number of the ratings of `challenge_id`: their mean is the
/// average rating, 0 when there are none.
pub fn fetch_average_rating(challenge_id: String, repository: &MemoryRepository) -> (r: Result<RatingSummary, RepositoryError>)
    requires
        repository.wf(),
    ensures
        r is Ok,
        r->Ok_0.total == rating_total(reviews_for(repository.reviews_view(), challenge_id@)),
        r->Ok_0.count == reviews_for(repository.reviews_view(), challenge_id@).len(),
{
    repository.fetch_average_rating(challenge_id.as_str())
}

/// Stores `review`.
pub fn store_review(review: Review, repository: &mut MemoryRepository) -> (r: Result<(), RepositoryError>)
    requires
        old(repository).wf(),
    ensures
        final(repository).wf(),
        r is Ok,
        final(repository).reviews_view() == old(repository).reviews_view().push(review@),
{
    repository.store_review(review)
}

/// Every stored review, in the order they were stored.
pub fn fetch_all_reviews(repository: &MemoryRepository) -> (r: Result<Vec<Review>, RepositoryError>)
    requires
        repository.wf(),
    ensures
        r is Ok,
        reviews_view(r->Ok_0@) == repository.reviews_view(),
{
    repository.fetch_all_reviews()
}

} // verus!
