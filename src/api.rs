use vstd::prelude::*;

verus! {

/// HTTP method of an endpoint.
#[derive(Debug, Clone, Copy, PartialEq, Eq, Structural)]
pub enum Method {
    Get,
    Post,
}

/// One documented endpoint of the HTTP API.
pub struct Endpoint {
    pub method: Method,
    pub path: String,
    pub operation_id: String,
}

/// The documented endpoints, in the order of the document.
pub struct Paths {
    entries: Vec<Endpoint>,
}

/// The paths of the documented endpoints, in the order of the document.
pub open spec fn documented_paths() -> Seq<Seq<char>> {
    seq![
            "/api/v1/profiles/{profile_id}"@,
            "/api/v1/profiles"@,
            "/api/v1/profiles"@,
            "/api/v1/leaderboard"@,
            "/api/v1/leaderboard/{challenge_id}"@,
            "/api/v1/performance-record"@,
            "/api/v1/performance-record/{challenge_id}"@,
            "/api/v1/reviews/{challenge_id}"@,
            "/api/v1/reviews"@,
            "/api/v1/reviews"@,
            "/api/v1/reviews/{challenge_id}/average"@,
            "/api/v1/challenges/{challenge_id}/presence"@,
            "/api/v1/challenges/{challenge_id}/presence/record"@,
            "/api/v1/coupons"@,
            "/api/v1/coupons/{code}"@,
            "/api/v1/coupons"@,
            "/api/v1/coupons/{code}/validate/{challenge_id}"@,
            "/api/v1/coupons/{code}/redeem/{challenge_id}"@,
    ]
}

impl Paths {
    /// The path of each endpoint.
    pub closed spec fn paths_view(&self) -> Seq<Seq<char>> {
        Seq::new(self.entries@.len(), |i: int| self.entries@[i].path@)
    }

    /// Whether some endpoint has `path`.
    pub fn contains_key(&self, path: &str) -> (r: bool)
        ensures
            r == self.paths_view().contains(path@),
    {
        let wanted = path.to_owned();
        let mut i: usize = 0;
        while i < self.entries.len()
            invariant
                i <= self.entries@.len(),
                wanted@ == path@,
                forall|k: int| 0 <= k < i ==> self.entries@[k].path@ != path@,
            decreases self.entries@.len() - i,
        {
            if self.entries[i].path == wanted {
                assert(self.paths_view()[i as int] == path@);
                return true;
            }
            i = i + 1;
        }
        assert(!self.paths_view().contains(path@)) by {
            if self.paths_view().contains(path@) {
                let k = choose|k: int| 0 <= k < self.paths_view().len() && self.paths_view()[k] == path@;
                assert(self.entries@[k].path@ == path@);
            }
        }
        false
    }

    /// The endpoints, in the order of the document.
    pub fn endpoints(&self) -> (r: &Vec<Endpoint>)
        ensures
            r@.len() == self.paths_view().len(),
            forall|i: int| 0 <= i < r@.len() ==> (#[trigger] r@[i]).path@ == self.paths_view()[i],
    {
        &self.entries
    }
}

/// The API's documentation: every endpoint it serves.
pub struct ApiDoc {
    pub paths: Paths,
}

impl ApiDoc {
    /// The document of the API.
    pub fn openapi() -> (r: ApiDoc)
        ensures
            r.paths.paths_view() == documented_paths(),
    {
        let mut entries: Vec<Endpoint> = Vec::new();
        entries.push(Endpoint { method: Method::Get, path: String::from_str("/api/v1/profiles/{profile_id}"), operation_id: String::from_str("get_profile") });
        entries.push(Endpoint { method: Method::Get, path: String::from_str("/api/v1/profiles"), operation_id: String::from_str("get_all_profiles") });
        entries.push(Endpoint { method: Method::Post, path: String::from_str("/api/v1/profiles"), operation_id: String::from_str("post_profile") });
        entries.push(Endpoint { method: Method::Get, path: String::from_str("/api/v1/leaderboard"), operation_id: String::from_str("get_leaderboard") });
        entries.push(Endpoint { method: Method::Get, path: String::from_str("/api/v1/leaderboard/{challenge_id}"), operation_id: String::from_str("get_challenge_leaderboard") });
        entries.push(Endpoint { method: Method::Post, path: String::from_str("/api/v1/performance-record"), operation_id: String::from_str("post_performance_record") });
        entries.push(Endpoint { method: Method::Post, path: String::from_str("/api/v1/performance-record/{challenge_id}"), operation_id: String::from_str("post_challenge_performance_record") });
        entries.push(Endpoint { method: Method::Get, path: String::from_str("/api/v1/reviews/{challenge_id}"), operation_id: String::from_str("get_review") });
        entries.push(Endpoint { method: Method::Post, path: String::from_str("/api/v1/reviews"), operation_id: String::from_str("post_review") });
        entries.push(Endpoint { method: Method::Get, path: String::from_str("/api/v1/reviews"), operation_id: String::from_str("get_all_reviews") });
        entries.push(Endpoint { method: Method::Get, path: String::from_str("/api/v1/reviews/{challenge_id}/average"), operation_id: String::from_str("get_average_rating") });
        entries.push(Endpoint { method: Method::Get, path: String::from_str("/api/v1/challenges/{challenge_id}/presence"), operation_id: String::from_str("get_challenge_presence") });
        entries.push(Endpoint { method: Method::Post, path: String::from_str("/api/v1/challenges/{challenge_id}/presence/record"), operation_id: String::from_str("record_challenge_presence") });
        entries.push(Endpoint { method: Method::Post, path: String::from_str("/api/v1/coupons"), operation_id: String::from_str("create_coupon") });
        entries.push(Endpoint { method: Method::Get, path: String::from_str("/api/v1/coupons/{code}"), operation_id: String::from_str("get_coupon") });
        entries.push(Endpoint { method: Method::Get, path: String::from_str("/api/v1/coupons"), operation_id: String::from_str("list_coupons") });
        entries.push(Endpoint { method: Method::Get, path: String::from_str("/api/v1/coupons/{code}/validate/{challenge_id}"), operation_id: String::from_str("validate_coupon") });
        entries.push(Endpoint { method: Method::Post, path: String::from_str("/api/v1/coupons/{code}/redeem/{challenge_id}"), operation_id: String::from_str("redeem_coupon") });
        let r = ApiDoc { paths: Paths { entries } };
        assert(r.paths.paths_view() =~= documented_paths());
        r
    }
}

} // verus!
