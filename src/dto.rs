use vstd::prelude::*;
use crate::review::Review;

verus! {

/// Answer of the liveness probe.
pub struct HealthResponse {
    pub status: String,
    pub version: String,
    pub timestamp: String,
}

/// Answer of the readiness probe.
pub struct ReadinessResponse {
    pub status: String,
    pub checks: HealthChecks,
}

/// State of each dependency the service needs.
pub struct HealthChecks {
    pub database: String,
}

/// How many players are active on a challenge.
pub struct ChallengePresenceStats {
    pub count: u32,
}

/// One review, if found.
pub struct ReviewResponse {
    pub review: Option<Review>,
}

/// A list of reviews.
pub struct ReviewsResponse {
    pub reviews: Vec<Review>,
}

/// A request to claim tokens.
pub struct ClaimV2Request {
    pub id: i64,
    pub user: String,
    pub request_type: String,
    pub address: String,
    pub amount: u32,
}

/// The outcome of a token claim.
pub struct ClaimV2Response {
    pub success: bool,
    pub raw_transaction: String,
    pub destination: String,
}

} // verus!
