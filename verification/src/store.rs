//! The storage model: every table of the service as plain state.
//!
//! The backing store is the single source of truth; the service keeps no
//! other authoritative state. [`Store`] models its five tables together
//! with the id sequences the store assigns from. Every operation of the
//! resource managers is one atomic transition on a [`Store`] — the
//! transactional unit the review/rating consistency rule needs — so a run
//! of concurrent requests is, once serialized by the storage layer, just a
//! sequence of these transitions, and [`StoreView::wf`] holds after every
//! one of them.

use vstd::prelude::*;

use crate::camp::Camp;
use crate::camp::CampView;
use crate::camp_request::CampRequest;
use crate::camp_request::CampRequestView;
use crate::favorite::UserCampJunction;
use crate::favorite::UserCampJunctionView;
use crate::rating::mean_of;
use crate::review::Review;
use crate::review::ReviewView;
use crate::user::User;
use crate::user::UserView;

verus! {

/// The modelled database: one vector per table, plus the next value of
/// each id sequence.
pub struct Store {
    pub camps: Vec<Camp>,
    pub camp_requests: Vec<CampRequest>,
    pub reviews: Vec<Review>,
    pub users: Vec<User>,
    pub favorites: Vec<UserCampJunction>,
    pub next_camp_id: i64,
    pub next_request_id: i64,
    pub next_review_id: i64,
}

/// Mathematical image of a [`Store`]: the five tables as sequences of row
/// views, and the id counters as unbounded integers.
#[verifier::ext_equal]
pub ghost struct StoreView {
    pub camps: Seq<CampView>,
    pub camp_requests: Seq<CampRequestView>,
    pub reviews: Seq<ReviewView>,
    pub users: Seq<UserView>,
    pub favorites: Seq<UserCampJunctionView>,
    pub next_camp_id: int,
    pub next_request_id: int,
    pub next_review_id: int,
}

impl View for Store {
    type V = StoreView;

    open spec fn view(&self) -> StoreView {
        StoreView {
            camps: self.camps.deep_view(),
            camp_requests: self.camp_requests.deep_view(),
            reviews: self.reviews.deep_view(),
            users: self.users.deep_view(),
            favorites: self.favorites.deep_view(),
            next_camp_id: self.next_camp_id as int,
            next_request_id: self.next_request_id as int,
            next_review_id: self.next_review_id as int,
        }
    }
}

/// Whether some camp in `camps` carries the id `id`.
pub open spec fn has_camp(camps: Seq<CampView>, id: i64) -> bool {
    exists|i: int| 0 <= i < camps.len() && camps[i].id == id
}

/// The index of the camp with id `id` (meaningful when [`has_camp`] holds
/// and ids are unique).
pub open spec fn camp_index(camps: Seq<CampView>, id: i64) -> int {
    choose|i: int| 0 <= i < camps.len() && camps[i].id == id
}

/// Whether some review in `rs` carries the id `id`.
pub open spec fn has_review(rs: Seq<ReviewView>, id: i64) -> bool {
    exists|i: int| 0 <= i < rs.len() && rs[i].id == id
}

/// The index of the review with id `id`.
pub open spec fn review_index(rs: Seq<ReviewView>, id: i64) -> int {
    choose|i: int| 0 <= i < rs.len() && rs[i].id == id
}

/// Whether some request in `qs` carries the id `id`.
pub open spec fn has_request(qs: Seq<CampRequestView>, id: i64) -> bool {
    exists|i: int| 0 <= i < qs.len() && qs[i].id == id
}

/// The index of the request with id `id`.
pub open spec fn request_index(qs: Seq<CampRequestView>, id: i64) -> int {
    choose|i: int| 0 <= i < qs.len() && qs[i].id == id
}

/// Whether some user in `us` carries the provider id `sid`.
pub open spec fn has_user(us: Seq<UserView>, sid: Seq<char>) -> bool {
    exists|i: int| 0 <= i < us.len() && us[i].supabase_id == sid
}

/// The index of the user with provider id `sid`.
pub open spec fn user_index(us: Seq<UserView>, sid: Seq<char>) -> int {
    choose|i: int| 0 <= i < us.len() && us[i].supabase_id == sid
}

/// Whether the user with `user_id` has favorited the camp with `camp_id`.
pub open spec fn has_favorite(fs: Seq<UserCampJunctionView>, user_id: Seq<char>, camp_id: i64) -> bool {
    exists|i: int|
        0 <= i < fs.len() && fs[i].user_id == user_id && fs[i].camp_id == camp_id
}

impl StoreView {
    /// Camp rows carry pairwise distinct ids drawn from the camp id
    /// sequence.
    pub open spec fn camp_ids_ok(self) -> bool {
        &&& 1 <= self.next_camp_id <= i64::MAX
        &&& forall|i: int|
            0 <= i < self.camps.len() ==> 1 <= (#[trigger] self.camps[i]).id < self.next_camp_id
        &&& forall|i: int, j: int|
            0 <= i < j < self.camps.len() ==> (#[trigger] self.camps[i]).id != (
            #[trigger] self.camps[j]).id
    }

    /// Request rows carry pairwise distinct ids drawn from the request id
    /// sequence.
    pub open spec fn request_ids_ok(self) -> bool {
        &&& 1 <= self.next_request_id <= i64::MAX
        &&& forall|i: int|
            0 <= i < self.camp_requests.len() ==> 1 <= (#[trigger] self.camp_requests[i]).id
                < self.next_request_id
        &&& forall|i: int, j: int|
            0 <= i < j < self.camp_requests.len() ==> (#[trigger] self.camp_requests[i]).id != (
            #[trigger] self.camp_requests[j]).id
    }

    /// Review rows carry pairwise distinct ids drawn from the review id
    /// sequence, reference an existing camp, and hold at most one review
    /// per (camp, author) pair.
    pub open spec fn reviews_ok(self) -> bool {
        &&& 1 <= self.next_review_id <= i64::MAX
        &&& forall|i: int|
            0 <= i < self.reviews.len() ==> 1 <= (#[trigger] self.reviews[i]).id
                < self.next_review_id
        &&& forall|i: int, j: int|
            0 <= i < j < self.reviews.len() ==> (#[trigger] self.reviews[i]).id != (
            #[trigger] self.reviews[j]).id
        &&& forall|i: int| 0 <= i < self.reviews.len() ==> has_camp(self.camps, (#[trigger] self.reviews[i]).camp_id)
        &&& forall|i: int, j: int|
            0 <= i < j < self.reviews.len() ==> !((#[trigger] self.reviews[i]).camp_id == (
            #[trigger] self.reviews[j]).camp_id && self.reviews[i].author_id
                == self.reviews[j].author_id)
    }

    /// User rows are keyed by their provider id.
    pub open spec fn users_ok(self) -> bool {
        forall|i: int, j: int|
            0 <= i < j < self.users.len() ==> (#[trigger] self.users[i]).supabase_id != (
            #[trigger] self.users[j]).supabase_id
    }

    /// Favorites hold at most one row per (user, camp) pair and reference
    /// an existing camp.
    pub open spec fn favorites_ok(self) -> bool {
        &&& forall|i: int, j: int|
            0 <= i < j < self.favorites.len() ==> !((#[trigger] self.favorites[i]).user_id == (
            #[trigger] self.favorites[j]).user_id && self.favorites[i].camp_id
                == self.favorites[j].camp_id)
        &&& forall|i: int|
            0 <= i < self.favorites.len() ==> has_camp(
                self.camps,
                (#[trigger] self.favorites[i]).camp_id,
            )
    }

    /// The review/rating consistency rule: every camp's stored rating is
    /// exactly the mean of its current reviews, and absent exactly when the
    /// camp has none. This is what the aggregator re-establishes after
    /// every review mutation.
    pub open spec fn ratings_ok(self) -> bool {
        forall|i: int|
            0 <= i < self.camps.len() ==> (#[trigger] self.camps[i]).rating == mean_of(
                self.reviews,
                self.camps[i].id,
            )
    }

    /// Well-formedness of the whole store: every constructor establishes
    /// it and every operation preserves it.
    pub open spec fn wf(self) -> bool {
        &&& self.camp_ids_ok()
        &&& self.request_ids_ok()
        &&& self.reviews_ok()
        &&& self.users_ok()
        &&& self.favorites_ok()
        &&& self.ratings_ok()
    }
}

impl Store {
    /// An empty store: no rows, id sequences starting at one.
    pub fn new() -> (s: Store)
        ensures
            s@.camps == Seq::<CampView>::empty(),
            s@.camp_requests == Seq::<CampRequestView>::empty(),
            s@.reviews == Seq::<ReviewView>::empty(),
            s@.users == Seq::<UserView>::empty(),
            s@.favorites == Seq::<UserCampJunctionView>::empty(),
            s@.next_camp_id == 1,
            s@.next_request_id == 1,
            s@.next_review_id == 1,
            s@.wf(),
    {
        let s = Store {
            camps: Vec::new(),
            camp_requests: Vec::new(),
            reviews: Vec::new(),
            users: Vec::new(),
            favorites: Vec::new(),
            next_camp_id: 1,
            next_request_id: 1,
            next_review_id: 1,
        };
        proof {
            assert(s@.camps =~= Seq::<CampView>::empty());
            assert(s@.camp_requests =~= Seq::<CampRequestView>::empty());
            assert(s@.reviews =~= Seq::<ReviewView>::empty());
            assert(s@.users =~= Seq::<UserView>::empty());
            assert(s@.favorites =~= Seq::<UserCampJunctionView>::empty());
        }
        s
    }
}

/// Pairwise distinctness of a sequence under a key function.
pub open spec fn distinct_keys<A, K>(s: Seq<A>, key: spec_fn(A) -> K) -> bool {
    forall|i: int, j: int| 0 <= i < j < s.len() ==> key(#[trigger] s[i]) != key(#[trigger] s[j])
}

/// Every element of a filtered sequence occurs in the original.
pub proof fn lemma_filter_elems<A>(s: Seq<A>, p: spec_fn(A) -> bool)
    ensures
        forall|i: int|
            0 <= i < s.filter(p).len() ==> s.contains(#[trigger] s.filter(p)[i]),
    decreases s.len(),
{
    reveal(Seq::filter);
    if s.len() > 0 {
        let s0 = s.drop_last();
        lemma_filter_elems(s0, p);
        assert forall|i: int| 0 <= i < s.filter(p).len() implies s.contains(
            #[trigger] s.filter(p)[i],
        ) by {
            if i < s0.filter(p).len() {
                assert(s.filter(p)[i] == s0.filter(p)[i]);
                assert(s0.contains(s0.filter(p)[i]));
                let j = choose|j: int| 0 <= j < s0.len() && s0[j] == s0.filter(p)[i];
                assert(s[j] == s0[j]);
            } else {
                assert(s.filter(p)[i] == s.last());
                assert(s[s.len() - 1] == s.last());
            }
        }
    }
}

/// Filtering with a predicate every element satisfies changes nothing.
pub proof fn lemma_filter_all<A>(s: Seq<A>, p: spec_fn(A) -> bool)
    requires
        forall|i: int| 0 <= i < s.len() ==> p(#[trigger] s[i]),
    ensures
        s.filter(p) == s,
    decreases s.len(),
{
    reveal(Seq::filter);
    if s.len() > 0 {
        let s0 = s.drop_last();
        assert forall|i: int| 0 <= i < s0.len() implies p(#[trigger] s0[i]) by {
            assert(s0[i] == s[i]);
        }
        lemma_filter_all(s0, p);
        assert(s.last() == s[s.len() - 1]);
        assert(s.filter(p) =~= s);
    }
}

/// Filtering preserves pairwise key-distinctness.
pub proof fn lemma_filter_distinct<A, K>(s: Seq<A>, p: spec_fn(A) -> bool, key: spec_fn(A) -> K)
    requires
        distinct_keys(s, key),
    ensures
        distinct_keys(s.filter(p), key),
    decreases s.len(),
{
    reveal(Seq::filter);
    if s.len() > 0 {
        let s0 = s.drop_last();
        assert(distinct_keys(s0, key)) by {
            assert forall|i: int, j: int| 0 <= i < j < s0.len() implies key(#[trigger] s0[i])
                != key(#[trigger] s0[j]) by {
                assert(s0[i] == s[i]);
                assert(s0[j] == s[j]);
            }
        }
        lemma_filter_distinct(s0, p, key);
        if p(s.last()) {
            lemma_filter_elems(s0, p);
            assert forall|i: int, j: int| 0 <= i < j < s.filter(p).len() implies key(
                #[trigger] s.filter(p)[i],
            ) != key(#[trigger] s.filter(p)[j]) by {
                if j < s.filter(p).len() - 1 {
                    assert(s.filter(p)[i] == s0.filter(p)[i]);
                    assert(s.filter(p)[j] == s0.filter(p)[j]);
                } else {
                    assert(s.filter(p)[j] == s.last());
                    assert(s.filter(p)[i] == s0.filter(p)[i]);
                    assert(s0.contains(s0.filter(p)[i]));
                    let k = choose|k: int| 0 <= k < s0.len() && s0[k] == s0.filter(p)[i];
                    assert(s[k] == s0[k]);
                    assert(key(s[k]) != key(s[s.len() - 1]));
                }
            }
        }
    }
}

} // verus!
