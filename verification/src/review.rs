//! Reviews: the rating+text records that drive each camp's mean rating,
//! and the aggregator that keeps the two consistent.
//!
//! Every mutation of the review set — creating a review (which first
//! drops the author's earlier review of the same camp), deleting one by
//! id, deleting an author's reviews for a camp, or clearing a camp — is
//! one atomic transition that ends by recomputing the affected camp's
//! stored rating from the rows that remain. The spec-level transitions
//! (`spec_create_review` and friends) say exactly what each operation
//! does to the store; the well-formedness lemmas show each of them keeps
//! [`StoreView::wf`], rating consistency included.

use vstd::prelude::*;

use crate::auth::UserCtx;
use crate::camp::CampView;
use crate::errors::Error;
use crate::rating::count_for;
use crate::rating::lemma_count_sum_bounds;
use crate::rating::mean_of;
use crate::rating::sum_for;
use crate::rating::MeanRating;
use crate::store::distinct_keys;
use crate::store::has_camp;
use crate::store::has_review;
use crate::store::has_user;
use crate::store::lemma_filter_distinct;
use crate::store::lemma_filter_elems;
use crate::store::review_index;
use crate::store::user_index;
use crate::store::Store;
use crate::store::StoreView;
use crate::user::UserView;

verus! {

/// One review row. `ctime` is the creation instant in whole seconds since
/// the Unix epoch, as the storage layer records it.
#[derive(Debug)]
pub struct Review {
    pub id: i64,
    pub author_id: String,
    pub camp_id: i64,
    pub ctime: i64,
    pub body: String,
    pub rating: i32,
}

/// Mathematical image of a [`Review`] row.
#[verifier::ext_equal]
pub ghost struct ReviewView {
    pub id: i64,
    pub author_id: Seq<char>,
    pub camp_id: i64,
    pub ctime: i64,
    pub body: Seq<char>,
    pub rating: i32,
}

impl View for Review {
    type V = ReviewView;

    open spec fn view(&self) -> ReviewView {
        ReviewView {
            id: self.id,
            author_id: self.author_id@,
            camp_id: self.camp_id,
            ctime: self.ctime,
            body: self.body@,
            rating: self.rating,
        }
    }
}

impl DeepView for Review {
    type V = ReviewView;

    open spec fn deep_view(&self) -> ReviewView {
        self.view()
    }
}

impl Clone for Review {
    fn clone(&self) -> (res: Self)
        ensures
            res@ == self@,
    {
        Review {
            id: self.id,
            author_id: self.author_id.clone(),
            camp_id: self.camp_id,
            ctime: self.ctime,
            body: self.body.clone(),
            rating: self.rating,
        }
    }
}

impl Default for Review {
    /// The all-empty review: zero identifiers, the epoch instant, an empty
    /// body and a zero rating.
    fn default() -> (res: Self)
        ensures
            res.id == 0,
            res.author_id@ == Seq::<char>::empty(),
            res.camp_id == 0,
            res.ctime == 0,
            res.body@ == Seq::<char>::empty(),
            res.rating == 0,
    {
        Review {
            id: 0,
            author_id: String::new(),
            camp_id: 0,
            ctime: 0,
            body: String::new(),
            rating: 0,
        }
    }
}

/// A review joined with its author's profile, as the review listing
/// endpoint returns it.
#[derive(Debug)]
pub struct ReviewWithUser {
    pub id: i64,
    pub author_id: String,
    pub camp_id: i64,
    pub ctime: i64,
    pub body: String,
    pub rating: i32,
    pub first_name: String,
    pub last_name: String,
    pub email: String,
    pub username: String,
}

/// Mathematical image of a [`ReviewWithUser`] record.
#[verifier::ext_equal]
pub ghost struct ReviewWithUserView {
    pub id: i64,
    pub author_id: Seq<char>,
    pub camp_id: i64,
    pub ctime: i64,
    pub body: Seq<char>,
    pub rating: i32,
    pub first_name: Seq<char>,
    pub last_name: Seq<char>,
    pub email: Seq<char>,
    pub username: Seq<char>,
}

impl View for ReviewWithUser {
    type V = ReviewWithUserView;

    open spec fn view(&self) -> ReviewWithUserView {
        ReviewWithUserView {
            id: self.id,
            author_id: self.author_id@,
            camp_id: self.camp_id,
            ctime: self.ctime,
            body: self.body@,
            rating: self.rating,
            first_name: self.first_name@,
            last_name: self.last_name@,
            email: self.email@,
            username: self.username@,
        }
    }
}

impl DeepView for ReviewWithUser {
    type V = ReviewWithUserView;

    open spec fn deep_view(&self) -> ReviewWithUserView {
        self.view()
    }
}

/// The caller-supplied part of a review: its text and integer rating.
/// `photos` is carried for the wire format but ignored by the store.
#[derive(Debug)]
pub struct ReviewPatch {
    pub body: String,
    pub rating: i32,
    pub photos: Option<Vec<String>>,
}

/// The reviews that remain once review `id` is gone.
pub open spec fn reviews_without_id(rs: Seq<ReviewView>, id: i64) -> Seq<ReviewView> {
    rs.filter(|r: ReviewView| r.id != id)
}

/// The reviews that remain once `author`'s reviews of camp `camp_id` are
/// gone.
pub open spec fn reviews_without_author_camp(
    rs: Seq<ReviewView>,
    author: Seq<char>,
    camp_id: i64,
) -> Seq<ReviewView> {
    rs.filter(|r: ReviewView| !(r.camp_id == camp_id && r.author_id == author))
}

/// The reviews that remain once camp `camp_id`'s reviews are gone.
pub open spec fn reviews_without_camp(rs: Seq<ReviewView>, camp_id: i64) -> Seq<ReviewView> {
    rs.filter(|r: ReviewView| r.camp_id != camp_id)
}

/// Appending a review adds its rating to its own camp's count and sum and
/// to no other camp's.
pub proof fn lemma_counts_push(rs: Seq<ReviewView>, r: ReviewView, camp_id: i64)
    ensures
        count_for(rs.push(r), camp_id) == count_for(rs, camp_id) + if r.camp_id == camp_id {
            1int
        } else {
            0int
        },
        sum_for(rs.push(r), camp_id) == sum_for(rs, camp_id) + if r.camp_id == camp_id {
            r.rating as int
        } else {
            0int
        },
{
    assert(rs.push(r).drop_last() =~= rs);
    assert(rs.push(r).last() == r);
}

/// A review set none of whose members belong to camp `camp_id` contributes
/// nothing to that camp's count and sum.
pub proof fn lemma_counts_none(rs: Seq<ReviewView>, camp_id: i64)
    requires
        forall|i: int| 0 <= i < rs.len() ==> (#[trigger] rs[i]).camp_id != camp_id,
    ensures
        count_for(rs, camp_id) == 0,
        sum_for(rs, camp_id) == 0,
    decreases rs.len(),
{
    if rs.len() > 0 {
        let s0 = rs.drop_last();
        assert forall|i: int| 0 <= i < s0.len() implies (#[trigger] s0[i]).camp_id != camp_id by {
            assert(s0[i] == rs[i]);
        }
        lemma_counts_none(s0, camp_id);
        assert(rs.last() == rs[rs.len() - 1]);
    }
}

/// Removing only reviews of camp `camp_id` leaves every other camp's
/// count and sum unchanged.
pub proof fn lemma_counts_filter_off_camp(
    rs: Seq<ReviewView>,
    p: spec_fn(ReviewView) -> bool,
    camp_id: i64,
    other: i64,
)
    requires
        other != camp_id,
        forall|i: int| 0 <= i < rs.len() && !p(#[trigger] rs[i]) ==> rs[i].camp_id == camp_id,
    ensures
        count_for(rs.filter(p), other) == count_for(rs, other),
        sum_for(rs.filter(p), other) == sum_for(rs, other),
    decreases rs.len(),
{
    reveal(Seq::filter);
    if rs.len() > 0 {
        let s0 = rs.drop_last();
        assert forall|i: int| 0 <= i < s0.len() && !p(#[trigger] s0[i]) implies s0[i].camp_id
            == camp_id by {
            assert(s0[i] == rs[i]);
        }
        lemma_counts_filter_off_camp(s0, p, camp_id, other);
        if p(rs.last()) {
            assert(rs.filter(p) == s0.filter(p).push(rs.last()));
            lemma_counts_push(s0.filter(p), rs.last(), other);
        } else {
            assert(rs.last() == rs[rs.len() - 1]);
            assert(rs.last().camp_id == camp_id);
            assert(rs.filter(p) == s0.filter(p));
        }
    }
}

/// The aggregator's transition: camp `camp_id`'s stored rating becomes
/// the mean over the store's current reviews of that camp (or absent when
/// there are none); everything else is untouched.
pub open spec fn spec_recompute_rating(s: StoreView, camp_id: i64) -> StoreView {
    StoreView {
        camps: s.camps.map_values(
            |c: CampView|
                if c.id == camp_id {
                    CampView { rating: mean_of(s.reviews, camp_id), ..c }
                } else {
                    c
                },
        ),
        ..s
    }
}

/// Creating a review for camp `camp_id`: the author's earlier review of
/// that camp (if any) is dropped, the new row is appended under the next
/// review id, and the camp's rating is recomputed — all in one unit.
pub open spec fn spec_create_review(
    s: StoreView,
    author: Seq<char>,
    body: Seq<char>,
    rating: i32,
    camp_id: i64,
    ctime: i64,
) -> StoreView {
    let pruned = reviews_without_author_camp(s.reviews, author, camp_id);
    let r = ReviewView {
        id: s.next_review_id as i64,
        author_id: author,
        camp_id: camp_id,
        ctime: ctime,
        body: body,
        rating: rating,
    };
    let mid = StoreView {
        reviews: pruned.push(r),
        next_review_id: s.next_review_id + 1,
        ..s
    };
    spec_recompute_rating(mid, camp_id)
}

/// Deleting review `review_id`: the row goes away and its camp's rating
/// is recomputed; a store without such a row is left as it is.
pub open spec fn spec_delete_review(s: StoreView, review_id: i64) -> StoreView {
    if !has_review(s.reviews, review_id) {
        s
    } else {
        let camp_id = s.reviews[review_index(s.reviews, review_id)].camp_id;
        let mid = StoreView { reviews: reviews_without_id(s.reviews, review_id), ..s };
        spec_recompute_rating(mid, camp_id)
    }
}

/// Deleting `author`'s reviews of camp `camp_id`, then recomputing that
/// camp's rating.
pub open spec fn spec_delete_user_reviews_for_camp(
    s: StoreView,
    author: Seq<char>,
    camp_id: i64,
) -> StoreView {
    let mid = StoreView {
        reviews: reviews_without_author_camp(s.reviews, author, camp_id),
        ..s
    };
    spec_recompute_rating(mid, camp_id)
}

/// Deleting every review of camp `camp_id`, then recomputing that camp's
/// rating (to absent, since no review of the camp remains).
pub open spec fn spec_delete_all_camp_reviews(s: StoreView, camp_id: i64) -> StoreView {
    let mid = StoreView { reviews: reviews_without_camp(s.reviews, camp_id), ..s };
    spec_recompute_rating(mid, camp_id)
}

/// Recomputing camp `camp_id`'s rating restores full well-formedness of a
/// store whose every other camp is already consistent with the review
/// set.
pub proof fn lemma_recompute_rating_wf(s: StoreView, camp_id: i64)
    requires
        s.camp_ids_ok(),
        s.request_ids_ok(),
        s.reviews_ok(),
        s.users_ok(),
        s.favorites_ok(),
        forall|i: int|
            0 <= i < s.camps.len() && (#[trigger] s.camps[i]).id != camp_id ==> s.camps[i].rating
                == mean_of(s.reviews, s.camps[i].id),
    ensures
        spec_recompute_rating(s, camp_id).wf(),
        spec_recompute_rating(s, camp_id).camps.len() == s.camps.len(),
        forall|i: int|
            0 <= i < s.camps.len() ==> (#[trigger] spec_recompute_rating(s, camp_id).camps[i]).id
                == s.camps[i].id,
{
    let t = spec_recompute_rating(s, camp_id);
    assert forall|id: i64| has_camp(t.camps, id) == has_camp(s.camps, id) by {
        if has_camp(s.camps, id) {
            let i = choose|i: int| 0 <= i < s.camps.len() && s.camps[i].id == id;
            assert(t.camps[i].id == id);
        }
        if has_camp(t.camps, id) {
            let i = choose|i: int| 0 <= i < t.camps.len() && t.camps[i].id == id;
            assert(s.camps[i].id == id);
        }
    }
}

/// Creating a review keeps the store well formed, provided the camp
/// exists and the review id sequence has not run out.
pub proof fn lemma_create_review_wf(
    s: StoreView,
    author: Seq<char>,
    body: Seq<char>,
    rating: i32,
    camp_id: i64,
    ctime: i64,
)
    requires
        s.wf(),
        has_camp(s.camps, camp_id),
        s.next_review_id < i64::MAX,
    ensures
        spec_create_review(s, author, body, rating, camp_id, ctime).wf(),
{
    let p = |r: ReviewView| !(r.camp_id == camp_id && r.author_id == author);
    let pruned = s.reviews.filter(p);
    let r = ReviewView {
        id: s.next_review_id as i64,
        author_id: author,
        camp_id: camp_id,
        ctime: ctime,
        body: body,
        rating: rating,
    };
    let mid = StoreView {
        reviews: pruned.push(r),
        next_review_id: s.next_review_id + 1,
        ..s
    };
    lemma_filter_elems(s.reviews, p);
    assert(distinct_keys(s.reviews, |x: ReviewView| x.id));
    lemma_filter_distinct(s.reviews, p, |x: ReviewView| x.id);
    assert(distinct_keys(s.reviews, |x: ReviewView| (x.camp_id, x.author_id)));
    lemma_filter_distinct(s.reviews, p, |x: ReviewView| (x.camp_id, x.author_id));
    assert forall|i: int|
        0 <= i < pruned.len() implies 1 <= (#[trigger] pruned[i]).id < s.next_review_id
            && has_camp(s.camps, pruned[i].camp_id) by {
        assert(s.reviews.contains(pruned[i]));
        let j = choose|j: int| 0 <= j < s.reviews.len() && s.reviews[j] == pruned[i];
        assert(s.reviews[j].id == pruned[i].id);
    }
    // the new row's id and (camp, author) pair are fresh among the rest
    assert forall|i: int| 0 <= i < pruned.len() implies !((#[trigger] pruned[i]).camp_id == camp_id
        && pruned[i].author_id == author) by {
        Seq::lemma_filter_pred(s.reviews, p, i);
    }
    assert(mid.reviews_ok()) by {
        assert forall|i: int, j: int| 0 <= i < j < mid.reviews.len() implies (
        #[trigger] mid.reviews[i]).id != (#[trigger] mid.reviews[j]).id by {
            if j < pruned.len() {
                assert(distinct_keys(pruned, |x: ReviewView| x.id));
                assert((|x: ReviewView| x.id)(pruned[i]) != (|x: ReviewView| x.id)(pruned[j]));
            } else {
                assert(mid.reviews[j] == r);
                assert(mid.reviews[i] == pruned[i]);
            }
        }
        assert forall|i: int, j: int| 0 <= i < j < mid.reviews.len() implies !((
        #[trigger] mid.reviews[i]).camp_id == (#[trigger] mid.reviews[j]).camp_id
            && mid.reviews[i].author_id == mid.reviews[j].author_id) by {
            if j < pruned.len() {
                let key = |x: ReviewView| (x.camp_id, x.author_id);
                assert(distinct_keys(pruned, key));
                assert(key(pruned[i]) != key(pruned[j]));
            } else {
                assert(mid.reviews[j] == r);
                assert(mid.reviews[i] == pruned[i]);
            }
        }
        assert forall|i: int| 0 <= i < mid.reviews.len() implies has_camp(
            mid.camps,
            (#[trigger] mid.reviews[i]).camp_id,
        ) by {
            if i < pruned.len() {
                assert(mid.reviews[i] == pruned[i]);
            } else {
                assert(mid.reviews[i] == r);
            }
        }
    }
    assert forall|i: int|
        0 <= i < mid.camps.len() && (#[trigger] mid.camps[i]).id != camp_id implies mid.camps[i].rating
            == mean_of(mid.reviews, mid.camps[i].id) by {
        let other = mid.camps[i].id;
        lemma_counts_filter_off_camp(s.reviews, p, camp_id, other);
        lemma_counts_push(pruned, r, other);
        assert(count_for(mid.reviews, other) == count_for(s.reviews, other));
        assert(sum_for(mid.reviews, other) == sum_for(s.reviews, other));
    }
    lemma_recompute_rating_wf(mid, camp_id);
}

/// The reviews of camp `camp_id`, in store order.
pub open spec fn reviews_for(rs: Seq<ReviewView>, camp_id: i64) -> Seq<ReviewView> {
    rs.filter(|r: ReviewView| r.camp_id == camp_id)
}

/// The reviews written by `author`, in store order.
pub open spec fn reviews_by(rs: Seq<ReviewView>, author: Seq<char>) -> Seq<ReviewView> {
    rs.filter(|r: ReviewView| r.author_id == author)
}

/// Find the position of the review with id `id`, if any.
pub(crate) fn find_review_index(reviews: &Vec<Review>, id: i64) -> (r: Option<usize>)
    ensures
        match r {
            Some(i) => i < reviews@.len() && reviews.deep_view()[i as int].id == id,
            None => !has_review(reviews.deep_view(), id),
        },
{
    let mut i: usize = 0;
    while i < reviews.len()
        invariant
            i <= reviews@.len(),
            forall|j: int| 0 <= j < i ==> (#[trigger] reviews.deep_view()[j]).id != id,
        decreases reviews@.len() - i,
    {
        if reviews[i].id == id {
            return Some(i);
        }
        i += 1;
    }
    None
}

/// Append a copy of `row`, with the effect stated on the deep view.
fn push_row(out: &mut Vec<Review>, row: &Review)
    ensures
        final(out).deep_view() == old(out).deep_view().push(row@),
{
    let ghost prev = out@;
    let ghost pdv = out.deep_view();
    let c = row.clone();
    let ghost ev = c;
    out.push(c);
    proof {
        assert(out@ == prev.push(ev));
        assert forall|k: int| 0 <= k < out@.len() implies #[trigger] out.deep_view()[k] == pdv.push(
            row@,
        )[k] by {
            if k < prev.len() {
                assert(out@[k] == prev[k]);
                assert(pdv[k] == prev[k].deep_view());
            } else {
                assert(out@[k] == ev);
            }
        }
        assert(out.deep_view() =~= pdv.push(row@));
    }
}

/// Copy the reviews that survive dropping review `id`.
#[verifier::loop_isolation(false)]
fn rows_without_id(reviews: &Vec<Review>, id: i64) -> (out: Vec<Review>)
    ensures
        out.deep_view() == reviews_without_id(reviews.deep_view(), id),
{
    let ghost p = |r: ReviewView| r.id != id;
    let mut out: Vec<Review> = Vec::new();
    let mut i: usize = 0;
    while i < reviews.len()
        invariant
            i <= reviews@.len(),
            out.deep_view() == reviews.deep_view().take(i as int).filter(p),
        decreases reviews@.len() - i,
    {
        let ghost dv = reviews.deep_view();
        if reviews[i].id != id {
            push_row(&mut out, &reviews[i]);
        }
        proof {
            assert(dv.take(i as int + 1) =~= dv.take(i as int).push(dv[i as int]));
            Seq::lemma_filter_push(dv.take(i as int), dv[i as int], p);
        }
        i += 1;
    }
    proof {
        assert(reviews.deep_view().take(reviews@.len() as int) =~= reviews.deep_view());
    }
    out
}

/// Copy the reviews that survive dropping `author`'s reviews of camp
/// `camp_id`.
#[verifier::loop_isolation(false)]
fn rows_without_author_camp(reviews: &Vec<Review>, author: &String, camp_id: i64) -> (out: Vec<
    Review,
>)
    ensures
        out.deep_view() == reviews_without_author_camp(reviews.deep_view(), author@, camp_id),
{
    let ghost p = |r: ReviewView| !(r.camp_id == camp_id && r.author_id == author@);
    let mut out: Vec<Review> = Vec::new();
    let mut i: usize = 0;
    while i < reviews.len()
        invariant
            i <= reviews@.len(),
            out.deep_view() == reviews.deep_view().take(i as int).filter(p),
        decreases reviews@.len() - i,
    {
        let ghost dv = reviews.deep_view();
        if !(reviews[i].camp_id == camp_id && reviews[i].author_id == *author) {
            push_row(&mut out, &reviews[i]);
        }
        proof {
            assert(dv.take(i as int + 1) =~= dv.take(i as int).push(dv[i as int]));
            Seq::lemma_filter_push(dv.take(i as int), dv[i as int], p);
        }
        i += 1;
    }
    proof {
        assert(reviews.deep_view().take(reviews@.len() as int) =~= reviews.deep_view());
    }
    out
}

/// Copy the reviews that survive clearing camp `camp_id`.
#[verifier::loop_isolation(false)]
pub(crate) fn rows_without_camp(reviews: &Vec<Review>, camp_id: i64) -> (out: Vec<Review>)
    ensures
        out.deep_view() == reviews_without_camp(reviews.deep_view(), camp_id),
{
    let ghost p = |r: ReviewView| r.camp_id != camp_id;
    let mut out: Vec<Review> = Vec::new();
    let mut i: usize = 0;
    while i < reviews.len()
        invariant
            i <= reviews@.len(),
            out.deep_view() == reviews.deep_view().take(i as int).filter(p),
        decreases reviews@.len() - i,
    {
        let ghost dv = reviews.deep_view();
        if reviews[i].camp_id != camp_id {
            push_row(&mut out, &reviews[i]);
        }
        proof {
            assert(dv.take(i as int + 1) =~= dv.take(i as int).push(dv[i as int]));
            Seq::lemma_filter_push(dv.take(i as int), dv[i as int], p);
        }
        i += 1;
    }
    proof {
        assert(reviews.deep_view().take(reviews@.len() as int) =~= reviews.deep_view());
    }
    out
}

/// Copy the reviews of camp `camp_id`.
#[verifier::loop_isolation(false)]
pub(crate) fn rows_for_camp(reviews: &Vec<Review>, camp_id: i64) -> (out: Vec<Review>)
    ensures
        out.deep_view() == reviews_for(reviews.deep_view(), camp_id),
{
    let ghost p = |r: ReviewView| r.camp_id == camp_id;
    let mut out: Vec<Review> = Vec::new();
    let mut i: usize = 0;
    while i < reviews.len()
        invariant
            i <= reviews@.len(),
            out.deep_view() == reviews.deep_view().take(i as int).filter(p),
        decreases reviews@.len() - i,
    {
        let ghost dv = reviews.deep_view();
        if reviews[i].camp_id == camp_id {
            push_row(&mut out, &reviews[i]);
        }
        proof {
            assert(dv.take(i as int + 1) =~= dv.take(i as int).push(dv[i as int]));
            Seq::lemma_filter_push(dv.take(i as int), dv[i as int], p);
        }
        i += 1;
    }
    proof {
        assert(reviews.deep_view().take(reviews@.len() as int) =~= reviews.deep_view());
    }
    out
}

/// Copy the reviews written by `author`.
#[verifier::loop_isolation(false)]
pub(crate) fn rows_by_author(reviews: &Vec<Review>, author: &String) -> (out: Vec<Review>)
    ensures
        out.deep_view() == reviews_by(reviews.deep_view(), author@),
{
    let ghost p = |r: ReviewView| r.author_id == author@;
    let mut out: Vec<Review> = Vec::new();
    let mut i: usize = 0;
    while i < reviews.len()
        invariant
            i <= reviews@.len(),
            out.deep_view() == reviews.deep_view().take(i as int).filter(p),
        decreases reviews@.len() - i,
    {
        let ghost dv = reviews.deep_view();
        if reviews[i].author_id == *author {
            push_row(&mut out, &reviews[i]);
        }
        proof {
            assert(dv.take(i as int + 1) =~= dv.take(i as int).push(dv[i as int]));
            Seq::lemma_filter_push(dv.take(i as int), dv[i as int], p);
        }
        i += 1;
    }
    proof {
        assert(reviews.deep_view().take(reviews@.len() as int) =~= reviews.deep_view());
    }
    out
}

/// The exact count and sum of camp `camp_id`'s review ratings.
fn sum_ratings_for(reviews: &Vec<Review>, camp_id: i64) -> (r: (i128, usize))
    ensures
        r.0 as int == sum_for(reviews.deep_view(), camp_id),
        r.1 as int == count_for(reviews.deep_view(), camp_id),
{
    let mut sum: i128 = 0;
    let mut count: usize = 0;
    let mut i: usize = 0;
    while i < reviews.len()
        invariant
            i <= reviews@.len(),
            sum as int == sum_for(reviews.deep_view().take(i as int), camp_id),
            count as int == count_for(reviews.deep_view().take(i as int), camp_id),
        decreases reviews@.len() - i,
    {
        let ghost dv = reviews.deep_view();
        proof {
            assert(dv.take(i as int + 1) =~= dv.take(i as int).push(dv[i as int]));
            lemma_counts_push(dv.take(i as int), dv[i as int], camp_id);
            crate::rating::lemma_sum_for_range(dv.take(i as int), camp_id);
        }
        if reviews[i].camp_id == camp_id {
            sum = sum + reviews[i].rating as i128;
            count = count + 1;
        }
        i += 1;
    }
    proof {
        assert(reviews.deep_view().take(reviews@.len() as int) =~= reviews.deep_view());
    }
    (sum, count)
}

/// The rating aggregator: recompute camp `camp_id`'s stored rating from
/// the current review rows and write it back, in the same unit of work as
/// the review mutation that triggered it. A camp left with no reviews
/// gets no rating (`None`), never a number.
pub fn update_calc_review_average(camp_id: i64, store: &mut Store)
    ensures
        final(store)@ == spec_recompute_rating(old(store)@, camp_id),
{
    let (sum, count) = sum_ratings_for(&store.reviews, camp_id);
    let value = if count == 0 {
        None
    } else {
        Some(MeanRating { sum, count })
    };
    proof {
        assert(store@.reviews.len() == store.reviews.len());
        crate::rating::lemma_sum_for_range(store@.reviews, camp_id);
        assert(value == mean_of(old(store)@.reviews, camp_id));
    }
    let updated = crate::camp::set_camp_rating(&store.camps, camp_id, value);
    store.camps = updated;
    proof {
        let s = old(store)@;
        assert(store@.camps =~= s.camps.map_values(
            |c: CampView|
                if c.id == camp_id {
                    CampView { rating: mean_of(s.reviews, camp_id), ..c }
                } else {
                    c
                },
        ));
        assert(store@ =~= spec_recompute_rating(s, camp_id));
    }
}

/// Deleting a review keeps the store well formed.
pub proof fn lemma_delete_review_wf(s: StoreView, review_id: i64)
    requires
        s.wf(),
    ensures
        spec_delete_review(s, review_id).wf(),
{
    if has_review(s.reviews, review_id) {
        let idx = review_index(s.reviews, review_id);
        let camp_id = s.reviews[idx].camp_id;
        let p = |x: ReviewView| x.id != review_id;
        let pruned = s.reviews.filter(p);
        let mid = StoreView { reviews: pruned, ..s };
        lemma_filter_elems(s.reviews, p);
        lemma_filter_distinct(s.reviews, p, |x: ReviewView| x.id);
        lemma_filter_distinct(s.reviews, p, |x: ReviewView| (x.camp_id, x.author_id));
        assert forall|i: int| 0 <= i < s.reviews.len() && !p(#[trigger] s.reviews[i]) implies s.reviews[i].camp_id
            == camp_id by {
            if i != idx {
                assert(s.reviews[i].id != s.reviews[idx].id);
            }
        }
        assert(mid.reviews_ok()) by {
            assert forall|i: int, j: int| 0 <= i < j < pruned.len() implies (
            #[trigger] pruned[i]).id != (#[trigger] pruned[j]).id by {
                let key = |x: ReviewView| x.id;
                assert(distinct_keys(pruned, key));
                assert(key(pruned[i]) != key(pruned[j]));
            }
            assert forall|i: int, j: int| 0 <= i < j < pruned.len() implies !((
            #[trigger] pruned[i]).camp_id == (#[trigger] pruned[j]).camp_id && pruned[i].author_id
                == pruned[j].author_id) by {
                let key = |x: ReviewView| (x.camp_id, x.author_id);
                assert(distinct_keys(pruned, key));
                assert(key(pruned[i]) != key(pruned[j]));
            }
            assert forall|i: int| 0 <= i < pruned.len() implies 1 <= (#[trigger] pruned[i]).id
                < s.next_review_id && has_camp(mid.camps, pruned[i].camp_id) by {
                assert(s.reviews.contains(pruned[i]));
                let j = choose|j: int| 0 <= j < s.reviews.len() && s.reviews[j] == pruned[i];
                assert(s.reviews[j].id == pruned[i].id);
            }
        }
        assert forall|i: int|
            0 <= i < mid.camps.len() && (#[trigger] mid.camps[i]).id != camp_id implies mid.camps[i].rating
            == mean_of(mid.reviews, mid.camps[i].id) by {
            lemma_counts_filter_off_camp(s.reviews, p, camp_id, mid.camps[i].id);
        }
        lemma_recompute_rating_wf(mid, camp_id);
    }
}

/// Deleting an author's reviews of one camp keeps the store well formed.
pub proof fn lemma_delete_user_reviews_wf(s: StoreView, author: Seq<char>, camp_id: i64)
    requires
        s.wf(),
    ensures
        spec_delete_user_reviews_for_camp(s, author, camp_id).wf(),
{
    let p = |r: ReviewView| !(r.camp_id == camp_id && r.author_id == author);
    lemma_prune_then_recompute_wf(s, p, camp_id);
}

/// Clearing a camp's reviews keeps the store well formed.
pub proof fn lemma_delete_all_camp_reviews_wf(s: StoreView, camp_id: i64)
    requires
        s.wf(),
    ensures
        spec_delete_all_camp_reviews(s, camp_id).wf(),
{
    let p = |r: ReviewView| r.camp_id != camp_id;
    lemma_prune_then_recompute_wf(s, p, camp_id);
}

/// Common case of the two lemmas above: removing only reviews of camp
/// `camp_id` and then recomputing that camp's rating keeps the store well
/// formed.
proof fn lemma_prune_then_recompute_wf(s: StoreView, p: spec_fn(ReviewView) -> bool, camp_id: i64)
    requires
        s.wf(),
        forall|r: ReviewView| !#[trigger] p(r) ==> r.camp_id == camp_id,
    ensures
        spec_recompute_rating(StoreView { reviews: s.reviews.filter(p), ..s }, camp_id).wf(),
{
    let pruned = s.reviews.filter(p);
    let mid = StoreView { reviews: pruned, ..s };
    lemma_filter_elems(s.reviews, p);
    lemma_filter_distinct(s.reviews, p, |x: ReviewView| x.id);
    lemma_filter_distinct(s.reviews, p, |x: ReviewView| (x.camp_id, x.author_id));
    assert(mid.reviews_ok()) by {
        assert forall|i: int, j: int| 0 <= i < j < pruned.len() implies (#[trigger] pruned[i]).id
            != (#[trigger] pruned[j]).id by {
            let key = |x: ReviewView| x.id;
            assert(distinct_keys(pruned, key));
            assert(key(pruned[i]) != key(pruned[j]));
        }
        assert forall|i: int, j: int| 0 <= i < j < pruned.len() implies !((
        #[trigger] pruned[i]).camp_id == (#[trigger] pruned[j]).camp_id && pruned[i].author_id
            == pruned[j].author_id) by {
            let key = |x: ReviewView| (x.camp_id, x.author_id);
            assert(distinct_keys(pruned, key));
            assert(key(pruned[i]) != key(pruned[j]));
        }
        assert forall|i: int| 0 <= i < pruned.len() implies 1 <= (#[trigger] pruned[i]).id
            < s.next_review_id && has_camp(mid.camps, pruned[i].camp_id) by {
            assert(s.reviews.contains(pruned[i]));
            let j = choose|j: int| 0 <= j < s.reviews.len() && s.reviews[j] == pruned[i];
            assert(s.reviews[j].id == pruned[i].id);
        }
    }
    assert forall|i: int|
        0 <= i < mid.camps.len() && (#[trigger] mid.camps[i]).id != camp_id implies mid.camps[i].rating
        == mean_of(mid.reviews, mid.camps[i].id) by {
        lemma_counts_filter_off_camp(s.reviews, p, camp_id, mid.camps[i].id);
    }
    lemma_recompute_rating_wf(mid, camp_id);
}

/// One review mutation, as the storage layer serializes it. `Create`
/// carries what the caller supplied plus the clock reading; a create whose
/// camp does not exist, or that arrives once the id sequence is exhausted,
/// is refused and leaves the store unchanged, exactly as
/// [`ReviewManager::create`] refuses it.
pub ghost enum ReviewOp {
    Create { author: Seq<char>, body: Seq<char>, rating: i32, camp_id: i64, ctime: i64 },
    Delete { review_id: i64 },
    DeleteForAuthor { author: Seq<char>, camp_id: i64 },
    DeleteAllForCamp { camp_id: i64 },
}

/// Apply one review mutation to the store.
pub open spec fn apply_review_op(s: StoreView, op: ReviewOp) -> StoreView {
    match op {
        ReviewOp::Create { author, body, rating, camp_id, ctime } => {
            if has_camp(s.camps, camp_id) && s.next_review_id < i64::MAX {
                spec_create_review(s, author, body, rating, camp_id, ctime)
            } else {
                s
            }
        },
        ReviewOp::Delete { review_id } => spec_delete_review(s, review_id),
        ReviewOp::DeleteForAuthor { author, camp_id } => spec_delete_user_reviews_for_camp(
            s,
            author,
            camp_id,
        ),
        ReviewOp::DeleteAllForCamp { camp_id } => spec_delete_all_camp_reviews(s, camp_id),
    }
}

/// Apply a serialized sequence of review mutations, oldest first.
pub open spec fn apply_review_ops(s: StoreView, ops: Seq<ReviewOp>) -> StoreView
    decreases ops.len(),
{
    if ops.len() == 0 {
        s
    } else {
        apply_review_op(apply_review_ops(s, ops.drop_last()), ops.last())
    }
}

/// Law: after any sequence of review creations and deletions — in
/// particular, after any serialization of concurrent review mutations that
/// the storage layer commits one at a time — the store is still well
/// formed, so every camp's stored rating equals the exact mean of its
/// current reviews, and is absent exactly when the camp has none: never
/// stale, and never a number manufactured from an empty review set.
pub proof fn lemma_review_ops_keep_ratings_fresh(s: StoreView, ops: Seq<ReviewOp>)
    requires
        s.wf(),
    ensures
        apply_review_ops(s, ops).wf(),
        apply_review_ops(s, ops).ratings_ok(),
    decreases ops.len(),
{
    if ops.len() > 0 {
        lemma_review_ops_keep_ratings_fresh(s, ops.drop_last());
        let t = apply_review_ops(s, ops.drop_last());
        match ops.last() {
            ReviewOp::Create { author, body, rating, camp_id, ctime } => {
                if has_camp(t.camps, camp_id) && t.next_review_id < i64::MAX {
                    lemma_create_review_wf(t, author, body, rating, camp_id, ctime);
                }
            },
            ReviewOp::Delete { review_id } => {
                lemma_delete_review_wf(t, review_id);
            },
            ReviewOp::DeleteForAuthor { author, camp_id } => {
                lemma_delete_user_reviews_wf(t, author, camp_id);
            },
            ReviewOp::DeleteAllForCamp { camp_id } => {
                lemma_delete_all_camp_reviews_wf(t, camp_id);
            },
        }
    }
}

/// Law: two authors writing reviews for one camp lose nothing to each
/// other.
/// After a serialization of the two creations (this statement is one
/// order; swapping the writers gives the other), both reviews stand with
/// their own ratings, so the camp's recomputed rating is the mean over
/// both — no lost update, no partially applied aggregation.
pub proof fn lemma_two_writers_lose_nothing(
    s: StoreView,
    author1: Seq<char>,
    body1: Seq<char>,
    rating1: i32,
    ctime1: i64,
    author2: Seq<char>,
    body2: Seq<char>,
    rating2: i32,
    ctime2: i64,
    camp_id: i64,
)
    requires
        s.wf(),
        has_camp(s.camps, camp_id),
        author1 != author2,
        s.next_review_id + 1 < i64::MAX,
    ensures
        ({
            let t = spec_create_review(s, author1, body1, rating1, camp_id, ctime1);
            let u = spec_create_review(t, author2, body2, rating2, camp_id, ctime2);
            &&& u.wf()
            &&& has_review_by(u.reviews, author1, camp_id)
            &&& has_review_by(u.reviews, author2, camp_id)
            &&& u.reviews[review_by_index(u.reviews, author1, camp_id)].rating == rating1
            &&& u.reviews[review_by_index(u.reviews, author2, camp_id)].rating == rating2
        }),
{
    let t = spec_create_review(s, author1, body1, rating1, camp_id, ctime1);
    let u = spec_create_review(t, author2, body2, rating2, camp_id, ctime2);
    lemma_create_review_wf(s, author1, body1, rating1, camp_id, ctime1);
    let rv1 = ReviewView {
        id: s.next_review_id as i64,
        author_id: author1,
        camp_id: camp_id,
        ctime: ctime1,
        body: body1,
        rating: rating1,
    };
    let pruned1 = reviews_without_author_camp(s.reviews, author1, camp_id);
    assert(t.reviews == pruned1.push(rv1));
    assert(t.reviews[pruned1.len() as int] == rv1);
    // the first writer's camp is still there, so the second create is live
    assert(has_camp(t.camps, camp_id)) by {
        let i = choose|i: int| 0 <= i < s.camps.len() && s.camps[i].id == camp_id;
        assert(t.camps[i].id == camp_id);
    }
    assert(t.next_review_id < i64::MAX);
    lemma_create_review_wf(t, author2, body2, rating2, camp_id, ctime2);
    let p2 = |r: ReviewView| !(r.camp_id == camp_id && r.author_id == author2);
    let pruned2 = t.reviews.filter(p2);
    let rv2 = ReviewView {
        id: t.next_review_id as i64,
        author_id: author2,
        camp_id: camp_id,
        ctime: ctime2,
        body: body2,
        rating: rating2,
    };
    assert(u.reviews == pruned2.push(rv2));
    // the second writer removes only its own earlier review, so the first
    // writer's row survives into the final state
    assert(p2(rv1));
    Seq::lemma_filter_contains(t.reviews, p2, pruned1.len() as int);
    assert(pruned2.contains(rv1));
    let j = choose|j: int| 0 <= j < pruned2.len() && pruned2[j] == rv1;
    assert(u.reviews[j] == rv1);
    assert(has_review_by(u.reviews, author1, camp_id));
    assert(u.reviews[pruned2.len() as int] == rv2);
    assert(has_review_by(u.reviews, author2, camp_id));
    // under the one-review-per-(camp, author) rule, each writer's row is
    // the one its index picks
    let k1 = review_by_index(u.reviews, author1, camp_id);
    assert(0 <= k1 < u.reviews.len() && u.reviews[k1].camp_id == camp_id && u.reviews[k1].author_id
        == author1);
    assert(u.reviews[k1] == rv1) by {
        if k1 != j {
            assert(!(u.reviews[k1].camp_id == u.reviews[j].camp_id && u.reviews[k1].author_id
                == u.reviews[j].author_id));
        }
    }
    let k2 = review_by_index(u.reviews, author2, camp_id);
    assert(0 <= k2 < u.reviews.len() && u.reviews[k2].camp_id == camp_id && u.reviews[k2].author_id
        == author2);
    assert(u.reviews[k2] == rv2) by {
        if k2 != pruned2.len() {
            assert(!(u.reviews[k2].camp_id == u.reviews[pruned2.len() as int].camp_id
                && u.reviews[k2].author_id == u.reviews[pruned2.len() as int].author_id));
        }
    }
}

/// Law, spelled out for one camp: in a well-formed store — [`StoreView::wf`]
/// holds initially and after every operation — a camp with no reviews has
/// no rating at all, and a camp with reviews carries their exact mean.
pub proof fn lemma_rating_matches_reviews(s: StoreView, i: int)
    requires
        s.wf(),
        s.reviews.len() <= usize::MAX,
        0 <= i < s.camps.len(),
    ensures
        s.camps[i].rating == mean_of(s.reviews, s.camps[i].id),
        count_for(s.reviews, s.camps[i].id) == 0 <==> s.camps[i].rating is None,
        s.camps[i].rating matches Some(m) ==> m.sum == sum_for(s.reviews, s.camps[i].id)
            && m.count == count_for(s.reviews, s.camps[i].id) && m.wf(),
{
    if count_for(s.reviews, s.camps[i].id) != 0 {
        lemma_count_sum_bounds(s.reviews, s.camps[i].id);
        crate::rating::lemma_mean_of_wf(s.reviews, s.camps[i].id);
    }
}

/// Whether `author` has a review of camp `camp_id` in `rs`.
pub open spec fn has_review_by(rs: Seq<ReviewView>, author: Seq<char>, camp_id: i64) -> bool {
    exists|i: int|
        0 <= i < rs.len() && rs[i].camp_id == camp_id && rs[i].author_id == author
}

/// The index of `author`'s review of camp `camp_id`.
pub open spec fn review_by_index(rs: Seq<ReviewView>, author: Seq<char>, camp_id: i64) -> int {
    choose|i: int| 0 <= i < rs.len() && rs[i].camp_id == camp_id && rs[i].author_id == author
}

/// A review together with its author's profile fields.
pub open spec fn spec_join(r: ReviewView, u: UserView) -> ReviewWithUserView {
    ReviewWithUserView {
        id: r.id,
        author_id: r.author_id,
        camp_id: r.camp_id,
        ctime: r.ctime,
        body: r.body,
        rating: r.rating,
        first_name: u.first_name,
        last_name: u.last_name,
        email: u.email,
        username: u.username,
    }
}

/// Camp `camp_id`'s reviews joined with their authors' profiles: reviews
/// whose author has no user row are left out, exactly as the storage
/// layer's inner join leaves them out.
pub open spec fn joined_for_camp(
    rs: Seq<ReviewView>,
    us: Seq<UserView>,
    camp_id: i64,
) -> Seq<ReviewWithUserView> {
    rs.filter(|r: ReviewView| r.camp_id == camp_id && has_user(us, r.author_id)).map_values(
        |r: ReviewView| spec_join(r, us[user_index(us, r.author_id)]),
    )
}

/// Append `rec`, with the effect stated on the deep view.
fn push_joined(out: &mut Vec<ReviewWithUser>, rec: ReviewWithUser)
    ensures
        final(out).deep_view() == old(out).deep_view().push(rec@),
{
    let ghost prev = out@;
    let ghost pdv = out.deep_view();
    let ghost ev = rec;
    out.push(rec);
    proof {
        assert(out@ == prev.push(ev));
        assert forall|k: int| 0 <= k < out@.len() implies #[trigger] out.deep_view()[k] == pdv.push(
            ev@,
        )[k] by {
            if k < prev.len() {
                assert(out@[k] == prev[k]);
                assert(pdv[k] == prev[k].deep_view());
            } else {
                assert(out@[k] == ev);
            }
        }
        assert(out.deep_view() =~= pdv.push(ev@));
    }
}

/// The review operations of the service. Each mutating operation is one
/// atomic unit: the review rows change and the affected camp's rating is
/// recomputed before the operation returns, so no caller ever observes a
/// rating that disagrees with the review set.
pub struct ReviewManager;

impl ReviewManager {
    /// Create `utx`'s review of camp `camp_id`, replacing any earlier
    /// review by the same author for the same camp, and recompute the
    /// camp's rating. `ctime` is the creation instant in seconds since the
    /// Unix epoch, as the caller's clock reads it. Fails with `NotFound`
    /// exactly when no such camp exists, and with `StorageFailure` exactly
    /// when the review id sequence is exhausted.
    pub fn create(
        store: &mut Store,
        utx: UserCtx,
        data: ReviewPatch,
        camp_id: i64,
        ctime: i64,
    ) -> (res: Result<Review, Error>)
        requires
            old(store)@.wf(),
        ensures
            final(store)@.wf(),
            !has_camp(old(store)@.camps, camp_id) ==> (res matches Err(e) && e
                == Error::NotFound && final(store)@ == old(store)@),
            has_camp(old(store)@.camps, camp_id) && old(store)@.next_review_id == i64::MAX ==> (res
                matches Err(e) && e == Error::StorageFailure && final(store)@ == old(store)@),
            has_camp(old(store)@.camps, camp_id) && old(store)@.next_review_id < i64::MAX ==> {
                &&& res matches Ok(rev) && rev@ == (ReviewView {
                    id: old(store)@.next_review_id as i64,
                    author_id: utx@,
                    camp_id: camp_id,
                    ctime: ctime,
                    body: data.body@,
                    rating: data.rating,
                })
                &&& final(store)@ == spec_create_review(
                    old(store)@,
                    utx@,
                    data.body@,
                    data.rating,
                    camp_id,
                    ctime,
                )
            },
    {
        if crate::camp::find_camp_index(&store.camps, camp_id).is_none() {
            return Err(Error::NotFound);
        }
        if store.next_review_id == i64::MAX {
            return Err(Error::StorageFailure);
        }
        let pruned = rows_without_author_camp(&store.reviews, &utx.user_id, camp_id);
        store.reviews = pruned;
        let review = Review {
            id: store.next_review_id,
            author_id: utx.user_id,
            camp_id: camp_id,
            ctime: ctime,
            body: data.body,
            rating: data.rating,
        };
        push_row(&mut store.reviews, &review);
        store.next_review_id = store.next_review_id + 1;
        let ghost mid = StoreView {
            reviews: reviews_without_author_camp(old(store)@.reviews, review@.author_id, camp_id)
                .push(review@),
            next_review_id: old(store)@.next_review_id + 1,
            ..old(store)@
        };
        proof {
            assert(store@ =~= mid);
        }
        update_calc_review_average(camp_id, store);
        proof {
            assert(store@ == spec_create_review(
                old(store)@,
                review@.author_id,
                review@.body,
                data.rating,
                camp_id,
                ctime,
            ));
            lemma_create_review_wf(
                old(store)@,
                review@.author_id,
                review@.body,
                data.rating,
                camp_id,
                ctime,
            );
        }
        Ok(review)
    }

    /// Fetch `utx`'s review of camp `camp_id`, if there is one (at most
    /// one exists). Never fails.
    pub fn get_review(store: &Store, utx: &UserCtx, camp_id: i64) -> (res: Result<
        Option<Review>,
        Error,
    >)
        requires
            store@.wf(),
        ensures
            res matches Ok(opt) && (match opt {
                Some(rev) => has_review_by(store@.reviews, utx@, camp_id) && rev@
                    == store@.reviews[review_by_index(store@.reviews, utx@, camp_id)],
                None => !has_review_by(store@.reviews, utx@, camp_id),
            }),
    {
        let reviews = &store.reviews;
        let mut i: usize = 0;
        while i < reviews.len()
            invariant
                i <= reviews@.len(),
                forall|j: int|
                    0 <= j < i ==> !((#[trigger] reviews.deep_view()[j]).camp_id == camp_id
                        && reviews.deep_view()[j].author_id == utx@),
                store@.reviews == reviews.deep_view(),
                store@.wf(),
            decreases reviews@.len() - i,
        {
            if reviews[i].camp_id == camp_id && reviews[i].author_id == utx.user_id {
                let found = reviews[i].clone();
                proof {
                    let k = review_by_index(store@.reviews, utx@, camp_id);
                    if k != i {
                        assert(!(store@.reviews[k].camp_id == store@.reviews[i as int].camp_id
                            && store@.reviews[k].author_id == store@.reviews[i as int].author_id));
                    }
                }
                return Ok(Some(found));
            }
            i += 1;
        }
        Ok(None)
    }

    /// Delete the review with id `review_id` (a no-op when none exists)
    /// and recompute its camp's rating, atomically. Never fails.
    pub fn delete(store: &mut Store, _utx: &UserCtx, review_id: i64) -> (res: Result<String, Error>)
        requires
            old(store)@.wf(),
        ensures
            final(store)@.wf(),
            final(store)@ == spec_delete_review(old(store)@, review_id),
            res matches Ok(msg) && msg@ == "Review deleted successfully"@,
    {
        match find_review_index(&store.reviews, review_id) {
            None => Ok("Review deleted successfully".to_owned()),
            Some(i) => {
                let camp_id = store.reviews[i].camp_id;
                proof {
                    let idx = review_index(old(store)@.reviews, review_id);
                    if idx != i {
                        assert(old(store)@.reviews[idx].id != old(store)@.reviews[i as int].id);
                    }
                }
                let pruned = rows_without_id(&store.reviews, review_id);
                store.reviews = pruned;
                let ghost mid = StoreView {
                    reviews: reviews_without_id(old(store)@.reviews, review_id),
                    ..old(store)@
                };
                proof {
                    assert(store@ =~= mid);
                }
                update_calc_review_average(camp_id, store);
                proof {
                    assert(store@ == spec_delete_review(old(store)@, review_id));
                    lemma_delete_review_wf(old(store)@, review_id);
                }
                Ok("Review deleted successfully".to_owned())
            },
        }
    }

    /// Delete `utx`'s reviews of camp `camp_id` and recompute that camp's
    /// rating, atomically. A no-op apart from the recomputation when the
    /// author has no such review. Never fails.
    pub fn delete_user_reviews_for_camp(store: &mut Store, utx: &UserCtx, camp_id: i64) -> (res:
        Result<String, Error>)
        requires
            old(store)@.wf(),
        ensures
            final(store)@.wf(),
            final(store)@ == spec_delete_user_reviews_for_camp(old(store)@, utx@, camp_id),
            res matches Ok(msg) && msg@ == "Reviews deleted successfully"@,
    {
        let pruned = rows_without_author_camp(&store.reviews, &utx.user_id, camp_id);
        store.reviews = pruned;
        let ghost mid = StoreView {
            reviews: reviews_without_author_camp(old(store)@.reviews, utx@, camp_id),
            ..old(store)@
        };
        proof {
            assert(store@ =~= mid);
        }
        update_calc_review_average(camp_id, store);
        proof {
            assert(store@ == spec_delete_user_reviews_for_camp(old(store)@, utx@, camp_id));
            lemma_delete_user_reviews_wf(old(store)@, utx@, camp_id);
        }
        Ok("Reviews deleted successfully".to_owned())
    }

    /// List camp `camp_id`'s reviews joined with their authors' profiles,
    /// in store order; reviews whose author has no user row are left out.
    /// Never fails.
    pub fn get_camp_reviews(store: &Store, camp_id: i64) -> (res: Result<Vec<ReviewWithUser>, Error>)
        requires
            store@.wf(),
        ensures
            res matches Ok(v) && v.deep_view() == joined_for_camp(
                store@.reviews,
                store@.users,
                camp_id,
            ),
    {
        let ghost us = store@.users;
        let ghost p = |r: ReviewView| r.camp_id == camp_id && has_user(us, r.author_id);
        let ghost f = |r: ReviewView| spec_join(r, us[user_index(us, r.author_id)]);
        let reviews = &store.reviews;
        let mut out: Vec<ReviewWithUser> = Vec::new();
        let mut i: usize = 0;
        while i < reviews.len()
            invariant
                i <= reviews@.len(),
                out.deep_view() == reviews.deep_view().take(i as int).filter(p).map_values(f),
                store@.reviews == reviews.deep_view(),
                store@.users == us,
                store@.wf(),
                p == (|r: ReviewView| r.camp_id == camp_id && has_user(us, r.author_id)),
                f == (|r: ReviewView| spec_join(r, us[user_index(us, r.author_id)])),
            decreases reviews@.len() - i,
        {
            let ghost dv = reviews.deep_view();
            let r = &reviews[i];
            if r.camp_id == camp_id {
                match crate::user::find_user_index(&store.users, &r.author_id) {
                    Some(j) => {
                        proof {
                            let k = user_index(us, dv[i as int].author_id);
                            if k != j {
                                assert(us[k].supabase_id != us[j as int].supabase_id);
                            }
                        }
                        let u = &store.users[j];
                        let rec = ReviewWithUser {
                            id: r.id,
                            author_id: r.author_id.clone(),
                            camp_id: r.camp_id,
                            ctime: r.ctime,
                            body: r.body.clone(),
                            rating: r.rating,
                            first_name: u.first_name.clone(),
                            last_name: u.last_name.clone(),
                            email: u.email.clone(),
                            username: u.username.clone(),
                        };
                        proof {
                            assert(rec@ == f(dv[i as int]));
                        }
                        push_joined(&mut out, rec);
                    },
                    None => {
                        proof {
                            assert(!p(dv[i as int]));
                        }
                    },
                }
            }
            proof {
                assert(dv.take(i as int + 1) =~= dv.take(i as int).push(dv[i as int]));
                Seq::lemma_filter_push(dv.take(i as int), dv[i as int], p);
                if p(dv[i as int]) {
                    assert(dv.take(i as int).filter(p).push(dv[i as int]).map_values(f)
                        =~= dv.take(i as int).filter(p).map_values(f).push(f(dv[i as int])));
                }
            }
            i += 1;
        }
        proof {
            assert(reviews.deep_view().take(reviews@.len() as int) =~= reviews.deep_view());
        }
        Ok(out)
    }

    /// Delete every review of camp `camp_id` and recompute that camp's
    /// rating, atomically; with no review left, the camp's rating becomes
    /// absent. Never fails.
    pub fn delete_all_camp_reviews(store: &mut Store, _utx: UserCtx, camp_id: i64) -> (res: Result<
        (),
        Error,
    >)
        requires
            old(store)@.wf(),
        ensures
            final(store)@.wf(),
            final(store)@ == spec_delete_all_camp_reviews(old(store)@, camp_id),
            res matches Ok(u) && u == (),
    {
        let pruned = rows_without_camp(&store.reviews, camp_id);
        store.reviews = pruned;
        let ghost mid = StoreView {
            reviews: reviews_without_camp(old(store)@.reviews, camp_id),
            ..old(store)@
        };
        proof {
            assert(store@ =~= mid);
        }
        update_calc_review_average(camp_id, store);
        proof {
            assert(store@ == spec_delete_all_camp_reviews(old(store)@, camp_id));
            lemma_delete_all_camp_reviews_wf(old(store)@, camp_id);
        }
        Ok(())
    }
}

} // verus!
