use vstd::prelude::*;
use crate::error::RepositoryError;
use crate::keyed::key_views;
use crate::record::copy_string;

verus! {

/// A redeemable grant, valid for some challenges until it expires or its
/// uses run out.
#[derive(Debug, Clone, PartialEq)]
pub struct Coupon {
    pub code: String,
    pub challenge_ids: Vec<String>,
    pub uses_remaining: u32,
    /// The coupon is invalid from this instant on, in milliseconds since the
    /// Unix epoch.
    pub expiration_date: i64,
}

/// A coupon as plain values.
pub struct CouponView {
    pub code: Seq<char>,
    pub challenge_ids: Seq<Seq<char>>,
    pub uses_remaining: u32,
    pub expiration_date: i64,
}

impl View for Coupon {
    type V = CouponView;

    open spec fn view(&self) -> CouponView {
        CouponView {
            code: self.code@,
            challenge_ids: key_views(self.challenge_ids@),
            uses_remaining: self.uses_remaining,
            expiration_date: self.expiration_date,
        }
    }
}

/// Why a coupon cannot be redeemed.
#[derive(Debug, Clone, Copy, PartialEq, Eq, Structural)]
pub enum RedemptionError {
    /// No coupon has the code.
    NotFound,
    /// The coupon is not valid for the challenge.
    InvalidChallenge,
    /// The coupon's expiration date has been reached.
    Expired,
    /// The coupon has no uses left.
    Exhausted,
}

/// What a coupon service call can fail with.
#[derive(Debug, Clone, PartialEq)]
pub enum CouponError {
    Repository(RepositoryError),
    Redemption(RedemptionError),
}

/// Why `c` cannot be redeemed for `challenge` at `now`, if it can't. The
/// challenge is checked first, so a coupon for another challenge is refused
/// as such whatever its uses and date; then the date; then the uses.
pub open spec fn refusal(c: CouponView, challenge: Seq<char>, now: i64) -> Option<RedemptionError> {
    if !c.challenge_ids.contains(challenge) {
        Some(RedemptionError::InvalidChallenge)
    } else if now >= c.expiration_date {
        Some(RedemptionError::Expired)
    } else if c.uses_remaining == 0 {
        Some(RedemptionError::Exhausted)
    } else {
        None
    }
}

/// `c` can be redeemed for `challenge` at `now`.
pub open spec fn is_redeemable(c: CouponView, challenge: Seq<char>, now: i64) -> bool {
    refusal(c, challenge, now) is None
}

/// A coupon is present and can be redeemed for `challenge` at `now`.
pub open spec fn present_and_redeemable(c: Option<CouponView>, challenge: Seq<char>, now: i64) -> bool {
    c is Some && is_redeemable(c->Some_0, challenge, now)
}

/// `c` after one redemption: one use fewer, all else kept.
pub open spec fn redeemed(c: CouponView) -> CouponView {
    CouponView { uses_remaining: (c.uses_remaining - 1) as u32, ..c }
}

/// Whether `ids` holds `id`.
pub fn contains_id(ids: &Vec<String>, id: &String) -> (r: bool)
    ensures
        r == key_views(ids@).contains(id@),
{
    let mut i: usize = 0;
    while i < ids.len()
        invariant
            i <= ids@.len(),
            forall|k: int| 0 <= k < i ==> ids@[k]@ != id@,
        decreases ids@.len() - i,
    {
        if ids[i] == *id {
            assert(key_views(ids@)[i as int] == id@);
            return true;
        }
        i = i + 1;
    }
    assert(!key_views(ids@).contains(id@)) by {
        if key_views(ids@).contains(id@) {
            let k = choose|k: int| 0 <= k < key_views(ids@).len() && key_views(ids@)[k] == id@;
            assert(ids@[k]@ == id@);
        }
    }
    false
}

/// Copies a list of strings.
pub fn copy_strings(v: &Vec<String>) -> (r: Vec<String>)
    ensures
        key_views(r@) == key_views(v@),
{
    let mut r: Vec<String> = Vec::new();
    let mut i: usize = 0;
    while i < v.len()
        invariant
            i <= v@.len(),
            r@.len() == i,
            forall|k: int| 0 <= k < i ==> (#[trigger] r@[k])@ == v@[k]@,
        decreases v@.len() - i,
    {
        r.push(copy_string(&v[i]));
        i = i + 1;
    }
    assert(key_views(r@) =~= key_views(v@));
    r
}

impl Coupon {
    /// A coupon with the given code, challenges, uses and expiration date.
    pub fn new(code: String, challenge_ids: Vec<String>, uses_remaining: u32, expiration_date: i64) -> (r: Coupon)
        ensures
            r.code@ == code@,
            key_views(r.challenge_ids@) == key_views(challenge_ids@),
            r.uses_remaining == uses_remaining,
            r.expiration_date == expiration_date,
    {
        Coupon { code, challenge_ids, uses_remaining, expiration_date }
    }

    /// A copy of the coupon with the same values.
    pub fn duplicate(&self) -> (r: Coupon)
        ensures
            r@ == self@,
    {
        Coupon {
            code: copy_string(&self.code),
            challenge_ids: copy_strings(&self.challenge_ids),
            uses_remaining: self.uses_remaining,
            expiration_date: self.expiration_date,
        }
    }

    /// Why the coupon cannot be redeemed for `challenge` at `now`, or `Ok`
    /// when it can.
    pub fn check_redemption(&self, challenge: &String, now: i64) -> (r: Result<(), RedemptionError>)
        ensures
            r is Ok <==> refusal(self@, challenge@, now) is None,
            r is Err ==> refusal(self@, challenge@, now) == Some(r->Err_0),
    {
        if !contains_id(&self.challenge_ids, challenge) {
            Err(RedemptionError::InvalidChallenge)
        } else if now >= self.expiration_date {
            Err(RedemptionError::Expired)
        } else if self.uses_remaining == 0 {
            Err(RedemptionError::Exhausted)
        } else {
            Ok(())
        }
    }

    /// Whether the coupon can be redeemed for `challenge` at `now`.
    pub fn is_valid_for(&self, challenge: &String, now: i64) -> (r: bool)
        ensures
            r == is_redeemable(self@, challenge@, now),
    {
        self.check_redemption(challenge, now).is_ok()
    }

    /// Uses the coupon once for `challenge` at `now`: on success one use
    /// fewer; on refusal the coupon is unchanged and the reason is returned.
    pub fn redeem(&mut self, challenge: &String, now: i64) -> (r: Result<(), RedemptionError>)
        ensures
            r is Ok <==> is_redeemable(old(self)@, challenge@, now),
            r is Ok ==> final(self)@ == redeemed(old(self)@),
            r is Err ==> refusal(old(self)@, challenge@, now) == Some(r->Err_0) && final(self)@ == old(self)@,
    {
        match self.check_redemption(challenge, now) {
            Ok(()) => {
                self.uses_remaining = self.uses_remaining - 1;
                Ok(())
            },
            Err(e) => Err(e),
        }
    }
}

/// Scoping: a coupon that does not list a challenge is refused for it as
/// `InvalidChallenge`, whatever its uses and expiration date.
pub proof fn lemma_coupon_scoping(c: CouponView, challenge: Seq<char>, now: i64)
    requires
        !c.challenge_ids.contains(challenge),
    ensures
        forall|uses: u32, exp: i64|
            refusal(CouponView { uses_remaining: uses, expiration_date: exp, ..c }, challenge, now)
                == Some(RedemptionError::InvalidChallenge),
{
}

/// Exclusivity: a coupon with one use left that can be redeemed for a
/// challenge is redeemed once, after which the next attempt for it, at any
/// time before expiry, is refused as `Exhausted`; uses never go below zero.
pub proof fn lemma_last_use(c: CouponView, challenge: Seq<char>, now: i64, later: i64)
    requires
        c.uses_remaining == 1,
        is_redeemable(c, challenge, now),
        later < c.expiration_date,
    ensures
        redeemed(c).uses_remaining == 0,
        refusal(redeemed(c), challenge, later) == Some(RedemptionError::Exhausted),
{
}

} // verus!
