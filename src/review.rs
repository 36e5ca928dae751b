use vstd::prelude::*;
use crate::record::copy_string;

verus! {

/// A player's rating of a challenge, with an optional comment.
#[derive(Debug, Clone, PartialEq)]
pub struct Review {
    pub challenge_id: String,
    pub rating: u8,
    pub comment: Option<String>,
}

/// A review as plain values.
pub struct ReviewView {
    pub challenge_id: Seq<char>,
    pub rating: u8,
    pub comment: Option<Seq<char>>,
}

impl View for Review {
    type V = ReviewView;

    open spec fn view(&self) -> ReviewView {
        ReviewView {
            challenge_id: self.challenge_id@,
            rating: self.rating,
            comment: match self.comment {
                Some(c) => Some(c@),
                None => None,
            },
        }
    }
}

/// The views of a sequence of reviews.
pub open spec fn reviews_view(s: Seq<Review>) -> Seq<ReviewView> {
    Seq::new(s.len(), |i: int| s[i]@)
}

/// The reviews of `s` for `challenge`, in their order.
pub open spec fn reviews_for(s: Seq<ReviewView>, challenge: Seq<char>) -> Seq<ReviewView>
    decreases s.len(),
{
    if s.len() == 0 {
        s
    } else if s.last().challenge_id == challenge {
        reviews_for(s.drop_last(), challenge).push(s.last())
    } else {
        reviews_for(s.drop_last(), challenge)
    }
}

/// The sum of the ratings of `s`.
pub open spec fn rating_total(s: Seq<ReviewView>) -> nat
    decreases s.len(),
{
    if s.len() == 0 {
        0
    } else {
        rating_total(s.drop_last()) + s.last().rating as nat
    }
}

/// The sum and the number of the ratings of a challenge; their mean is the
/// average rating, taken as 0 when there are none.
#[derive(Debug, Clone, Copy, PartialEq, Eq)]
pub struct RatingSummary {
    pub total: u128,
    pub count: usize,
}

proof fn lemma_rating_total_bound(s: Seq<ReviewView>)
    ensures
        rating_total(s) <= 255 * s.len(),
    decreases s.len(),
{
    if s.len() > 0 {
        lemma_rating_total_bound(s.drop_last());
    }
}

impl Review {
    /// A copy of the review with the same values.
    pub fn duplicate(&self) -> (r: Review)
        ensures
            r@ == self@,
    {
        let comment = match &self.comment {
            Some(c) => Some(copy_string(c)),
            None => None,
        };
        Review { challenge_id: copy_string(&self.challenge_id), rating: self.rating, comment }
    }
}

/// The example review shown in the API documentation.
pub fn review_example() -> (r: Review)
    ensures
        r.challenge_id@ == "example_challenge_id"@,
        r.rating == 5,
        r.comment is Some,
        r.comment->Some_0@ == "Great challenge!"@,
{
    Review {
        challenge_id: String::from_str("example_challenge_id"),
        rating: 5,
        comment: Some(String::from_str("Great challenge!")),
    }
}

/// Copies of the reviews of `s` for `challenge`, in their order.
pub fn filter_reviews(s: &Vec<Review>, challenge: &String) -> (r: Vec<Review>)
    ensures
        reviews_view(r@) == reviews_for(reviews_view(s@), challenge@),
{
    let ghost sv = reviews_view(s@);
    let mut r: Vec<Review> = Vec::new();
    let mut i: usize = 0;
    assert(sv.take(0) =~= Seq::<ReviewView>::empty());
    assert(reviews_view(r@) =~= Seq::<ReviewView>::empty());
    while i < s.len()
        invariant
            i <= s@.len(),
            sv == reviews_view(s@),
            reviews_view(r@) == reviews_for(sv.take(i as int), challenge@),
        decreases s@.len() - i,
    {
        assert(sv.take(i + 1).drop_last() =~= sv.take(i as int));
        if s[i].challenge_id == *challenge {
            let ghost before = reviews_view(r@);
            let c = s[i].duplicate();
            r.push(c);
            assert(reviews_view(r@) =~= before.push(sv[i as int]));
        }
        i = i + 1;
    }
    assert(sv.take(i as int) =~= sv);
    r
}

/// The sum and number of the ratings in `s`.
pub fn summarize_ratings(s: &Vec<Review>) -> (r: RatingSummary)
    ensures
        r.total == rating_total(reviews_view(s@)),
        r.count == s@.len(),
{
    let ghost sv = reviews_view(s@);
    let mut total: u128 = 0;
    let mut i: usize = 0;
    while i < s.len()
        invariant
            i <= s@.len(),
            sv == reviews_view(s@),
            total == rating_total(sv.take(i as int)),
        decreases s@.len() - i,
    {
        proof {
            assert(sv.take(i + 1).drop_last() =~= sv.take(i as int));
            lemma_rating_total_bound(sv.take(i as int));
            assert(255 * i + 255 < u128::MAX) by (nonlinear_arith)
                requires i <= usize::MAX;
        }
        total = total + s[i].rating as u128;
        i = i + 1;
    }
    assert(sv.take(i as int) =~= sv);
    RatingSummary { total, count: s.len() }
}

} // verus!
