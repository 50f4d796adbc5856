//! Camps: the directory's listing records, with their denormalized rating.

use vstd::pervasive::VecAdditionalExecFns;
use vstd::prelude::*;

use crate::auth::UserCtx;
use crate::camp_request::or_empty;
use crate::camp_request::or_empty_list;
use crate::camp_request::request_rows_without;
use crate::camp_request::requests_without;
use crate::camp_request::unwrap_or_empty_list;
use crate::camp_request::unwrap_or_empty_string;
use crate::camp_request::CampRequestView;
use crate::errors::Error;
use crate::favorite::favorite_rows_without_camp;
use crate::favorite::favorites_without_camp;
use crate::favorite::UserCampJunctionView;
use crate::rating::lemma_rating_ge_total;
use crate::rating::lemma_rating_ge_trans;
use crate::rating::mean_of;
use crate::rating::opt_rating_wf;
use crate::rating::option_rating_ge;
use crate::rating::rating_ge;
use crate::rating::MeanRating;
use crate::review::lemma_counts_filter_off_camp;
use crate::review::lemma_counts_none;
use crate::review::reviews_for;
use crate::review::reviews_without_camp;
use crate::review::rows_for_camp;
use crate::review::rows_without_camp;
use crate::review::Review;
use crate::review::ReviewView;
use crate::store::camp_index;
use crate::store::distinct_keys;
use crate::store::has_camp;
use crate::store::has_request;
use crate::store::lemma_filter_distinct;
use crate::store::lemma_filter_elems;
use crate::store::request_index;
use crate::store::Store;
use crate::store::StoreView;

verus! {

/// A camp listing. `rating` is derived data: outside of a mutation it
/// always equals the exact mean of the camp's current reviews, and it is
/// absent (`None`) while the camp has no reviews at all.
#[derive(Debug)]
pub struct Camp {
    pub id: i64,
    pub name: String,
    pub description: String,
    pub phone_number: String,
    pub street_address: String,
    pub city: String,
    pub state: String,
    pub country: String,
    pub zip_code: String,
    pub email: String,
    pub tags: Option<Vec<String>>,
    pub image_urls: Option<Vec<String>>,
    pub website: Option<String>,
    pub apt_suite_other: Option<String>,
    pub rating: Option<MeanRating>,
}

/// Mathematical image of a [`Camp`] row.
#[verifier::ext_equal]
pub ghost struct CampView {
    pub id: i64,
    pub name: Seq<char>,
    pub description: Seq<char>,
    pub phone_number: Seq<char>,
    pub street_address: Seq<char>,
    pub city: Seq<char>,
    pub state: Seq<char>,
    pub country: Seq<char>,
    pub zip_code: Seq<char>,
    pub email: Seq<char>,
    pub tags: Option<Seq<Seq<char>>>,
    pub image_urls: Option<Seq<Seq<char>>>,
    pub website: Option<Seq<char>>,
    pub apt_suite_other: Option<Seq<char>>,
    pub rating: Option<MeanRating>,
}

impl View for Camp {
    type V = CampView;

    open spec fn view(&self) -> CampView {
        CampView {
            id: self.id,
            name: self.name@,
            description: self.description@,
            phone_number: self.phone_number@,
            street_address: self.street_address@,
            city: self.city@,
            state: self.state@,
            country: self.country@,
            zip_code: self.zip_code@,
            email: self.email@,
            tags: self.tags.deep_view(),
            image_urls: self.image_urls.deep_view(),
            website: self.website.deep_view(),
            apt_suite_other: self.apt_suite_other.deep_view(),
            rating: self.rating,
        }
    }
}

impl DeepView for Camp {
    type V = CampView;

    open spec fn deep_view(&self) -> CampView {
        self.view()
    }
}

impl Clone for Camp {
    fn clone(&self) -> (res: Self)
        ensures
            res@ == self@,
    {
        Camp {
            id: self.id,
            name: self.name.clone(),
            description: self.description.clone(),
            phone_number: self.phone_number.clone(),
            street_address: self.street_address.clone(),
            city: self.city.clone(),
            state: self.state.clone(),
            country: self.country.clone(),
            zip_code: self.zip_code.clone(),
            email: self.email.clone(),
            tags: clone_opt_strings(&self.tags),
            image_urls: clone_opt_strings(&self.image_urls),
            website: clone_opt_string(&self.website),
            apt_suite_other: clone_opt_string(&self.apt_suite_other),
            rating: self.rating,
        }
    }
}

/// The caller-supplied shape of a camp: every listing field, each optional.
/// A request to create leaves unset fields empty; a request to update
/// leaves them unchanged.
#[derive(Debug)]
pub struct CampPatch {
    pub name: Option<String>,
    pub description: Option<String>,
    pub phone_number: Option<String>,
    pub street_address: Option<String>,
    pub city: Option<String>,
    pub state: Option<String>,
    pub country: Option<String>,
    pub zip_code: Option<String>,
    pub email: Option<String>,
    pub website: Option<String>,
    pub tags: Option<Vec<String>>,
    pub apt_suite_other: Option<String>,
    pub image_urls: Option<Vec<String>>,
}

/// Mathematical image of a [`CampPatch`].
#[verifier::ext_equal]
pub ghost struct CampPatchView {
    pub name: Option<Seq<char>>,
    pub description: Option<Seq<char>>,
    pub phone_number: Option<Seq<char>>,
    pub street_address: Option<Seq<char>>,
    pub city: Option<Seq<char>>,
    pub state: Option<Seq<char>>,
    pub country: Option<Seq<char>>,
    pub zip_code: Option<Seq<char>>,
    pub email: Option<Seq<char>>,
    pub website: Option<Seq<char>>,
    pub tags: Option<Seq<Seq<char>>>,
    pub apt_suite_other: Option<Seq<char>>,
    pub image_urls: Option<Seq<Seq<char>>>,
}

impl View for CampPatch {
    type V = CampPatchView;

    open spec fn view(&self) -> CampPatchView {
        CampPatchView {
            name: self.name.deep_view(),
            description: self.description.deep_view(),
            phone_number: self.phone_number.deep_view(),
            street_address: self.street_address.deep_view(),
            city: self.city.deep_view(),
            state: self.state.deep_view(),
            country: self.country.deep_view(),
            zip_code: self.zip_code.deep_view(),
            email: self.email.deep_view(),
            website: self.website.deep_view(),
            tags: self.tags.deep_view(),
            apt_suite_other: self.apt_suite_other.deep_view(),
            image_urls: self.image_urls.deep_view(),
        }
    }
}

impl DeepView for CampPatch {
    type V = CampPatchView;

    open spec fn deep_view(&self) -> CampPatchView {
        self.view()
    }
}

/// Find the position of the camp with id `id`, if any.
pub(crate) fn find_camp_index(camps: &Vec<Camp>, id: i64) -> (r: Option<usize>)
    ensures
        match r {
            Some(i) => i < camps@.len() && camps.deep_view()[i as int].id == id,
            None => !has_camp(camps.deep_view(), id),
        },
{
    let mut i: usize = 0;
    while i < camps.len()
        invariant
            i <= camps@.len(),
            forall|j: int| 0 <= j < i ==> (#[trigger] camps.deep_view()[j]).id != id,
        decreases camps@.len() - i,
    {
        if camps[i].id == id {
            return Some(i);
        }
        i += 1;
    }
    None
}

/// Overwrite the stored rating of every camp that carries id `id` (at
/// most one in a well-formed store), leaving all other fields and camps
/// as they were.
pub(crate) fn set_camp_rating(camps: &Vec<Camp>, id: i64, value: Option<MeanRating>) -> (out:
    Vec<Camp>)
    ensures
        out.deep_view().len() == camps.deep_view().len(),
        forall|k: int|
            0 <= k < camps.deep_view().len() ==> #[trigger] out.deep_view()[k] == if camps.deep_view()[k].id
                == id {
                CampView { rating: value, ..camps.deep_view()[k] }
            } else {
                camps.deep_view()[k]
            },
{
    let mut out: Vec<Camp> = Vec::new();
    let mut j: usize = 0;
    while j < camps.len()
        invariant
            j <= camps@.len(),
            out@.len() == j,
            forall|k: int|
                0 <= k < j ==> #[trigger] out.deep_view()[k] == if camps.deep_view()[k].id == id {
                    CampView { rating: value, ..camps.deep_view()[k] }
                } else {
                    camps.deep_view()[k]
                },
        decreases camps@.len() - j,
    {
        let elem = if camps[j].id == id {
            let mut c = camps[j].clone();
            c.rating = value;
            c
        } else {
            camps[j].clone()
        };
        let ghost ev = elem;
        let ghost prev = out@;
        let ghost pdv = out.deep_view();
        out.push(elem);
        proof {
            assert(out@ == prev.push(ev));
            assert forall|k: int|
                0 <= k <= j implies #[trigger] out.deep_view()[k] == if camps.deep_view()[k].id
                == id {
                CampView { rating: value, ..camps.deep_view()[k] }
            } else {
                camps.deep_view()[k]
            } by {
                assert(out.deep_view()[k] == out@[k].deep_view());
                assert(camps.deep_view()[k] == camps@[k].deep_view());
                if k < j {
                    assert(out@[k] == prev[k]);
                    assert(pdv[k] == prev[k].deep_view());
                    assert(out.deep_view()[k] == pdv[k]);
                } else {
                    assert(out@[k] == ev);
                    assert(ev.deep_view() == if camps.deep_view()[k].id == id {
                        CampView { rating: value, ..camps.deep_view()[k] }
                    } else {
                        camps.deep_view()[k]
                    });
                }
            }
        }
        j += 1;
    }
    out
}

/// Copy a list of strings element by element.
pub(crate) fn clone_strings(v: &Vec<String>) -> (r: Vec<String>)
    ensures
        r@ == v@,
        r.deep_view() == v.deep_view(),
{
    let mut out: Vec<String> = Vec::new();
    let mut i: usize = 0;
    while i < v.len()
        invariant
            i <= v.len(),
            out@.len() == i,
            forall|j: int| 0 <= j < i ==> out@[j] == v@[j],
        decreases v.len() - i,
    {
        out.push(v[i].clone());
        i += 1;
    }
    proof {
        assert(out@ =~= v@);
    }
    out
}

/// Copy an optional list of strings.
pub(crate) fn clone_opt_strings(v: &Option<Vec<String>>) -> (r: Option<Vec<String>>)
    ensures
        r.deep_view() == v.deep_view(),
{
    match v {
        None => None,
        Some(list) => Some(clone_strings(list)),
    }
}

/// Copy an optional string.
pub(crate) fn clone_opt_string(v: &Option<String>) -> (r: Option<String>)
    ensures
        r.deep_view() == v.deep_view(),
{
    match v {
        None => None,
        Some(s) => Some(s.clone()),
    }
}

/// The camp row an approved request becomes: the request's fields copied,
/// the optional list and website columns always set (to the stored value
/// or the empty one), the apartment/suite column left empty, and no rating
/// — a new camp has no reviews.
pub open spec fn camp_from_request(q: CampRequestView, id: i64) -> CampView {
    CampView {
        id: id,
        name: q.name,
        description: q.description,
        phone_number: q.phone_number,
        street_address: q.street_address,
        city: q.city,
        state: q.state,
        country: q.country,
        zip_code: q.zip_code,
        email: q.email,
        tags: Some(or_empty_list(q.tags)),
        image_urls: Some(or_empty_list(q.image_urls)),
        website: Some(or_empty(q.website)),
        apt_suite_other: None,
        rating: None,
    }
}

/// Approving a request: the new camp is stored under the next camp id and
/// the request is discarded, in one unit.
pub open spec fn spec_add_camp(s: StoreView, request_id: i64) -> StoreView {
    if !has_request(s.camp_requests, request_id) {
        s
    } else {
        let q = s.camp_requests[request_index(s.camp_requests, request_id)];
        StoreView {
            camps: s.camps.push(camp_from_request(q, s.next_camp_id as i64)),
            camp_requests: requests_without(s.camp_requests, request_id),
            next_camp_id: s.next_camp_id + 1,
            ..s
        }
    }
}

/// The camp row after an update: each field the patch sets is replaced,
/// each field it leaves unset keeps the stored value; the list and website
/// columns are always set afterwards; the apartment/suite column, the id
/// and the rating are untouched by an update.
pub open spec fn merge_camp(c: CampView, p: CampPatchView) -> CampView {
    CampView {
        id: c.id,
        name: if p.name is Some {
            p.name.unwrap()
        } else {
            c.name
        },
        description: if p.description is Some {
            p.description.unwrap()
        } else {
            c.description
        },
        phone_number: if p.phone_number is Some {
            p.phone_number.unwrap()
        } else {
            c.phone_number
        },
        street_address: if p.street_address is Some {
            p.street_address.unwrap()
        } else {
            c.street_address
        },
        city: if p.city is Some {
            p.city.unwrap()
        } else {
            c.city
        },
        state: if p.state is Some {
            p.state.unwrap()
        } else {
            c.state
        },
        country: if p.country is Some {
            p.country.unwrap()
        } else {
            c.country
        },
        zip_code: if p.zip_code is Some {
            p.zip_code.unwrap()
        } else {
            c.zip_code
        },
        email: if p.email is Some {
            p.email.unwrap()
        } else {
            c.email
        },
        tags: Some(
            if p.tags is Some {
                p.tags.unwrap()
            } else {
                or_empty_list(c.tags)
            },
        ),
        image_urls: Some(
            if p.image_urls is Some {
                p.image_urls.unwrap()
            } else {
                or_empty_list(c.image_urls)
            },
        ),
        website: Some(
            if p.website is Some {
                p.website.unwrap()
            } else {
                or_empty(c.website)
            },
        ),
        apt_suite_other: c.apt_suite_other,
        rating: c.rating,
    }
}

/// Updating camp `id` with a patch; a store without such a camp is left
/// as it is.
pub open spec fn spec_update_camp(s: StoreView, id: i64, p: CampPatchView) -> StoreView {
    if !has_camp(s.camps, id) {
        s
    } else {
        let i = camp_index(s.camps, id);
        StoreView { camps: s.camps.update(i, merge_camp(s.camps[i], p)), ..s }
    }
}

/// The camp rows that survive deleting camp `id`.
pub open spec fn camps_without(cs: Seq<CampView>, id: i64) -> Seq<CampView> {
    cs.filter(|c: CampView| c.id != id)
}

/// Deleting camp `id` removes the camp together with its reviews and its
/// favorite rows, in one unit; a store without such a camp is left as it
/// is.
pub open spec fn spec_delete_camp(s: StoreView, id: i64) -> StoreView {
    if !has_camp(s.camps, id) {
        s
    } else {
        StoreView {
            camps: camps_without(s.camps, id),
            reviews: reviews_without_camp(s.reviews, id),
            favorites: favorites_without_camp(s.favorites, id),
            ..s
        }
    }
}

/// Approving an existing request keeps the store well formed, as long as
/// the camp id sequence has not run out.
pub proof fn lemma_add_camp_wf(s: StoreView, request_id: i64)
    requires
        s.wf(),
        has_request(s.camp_requests, request_id),
        s.next_camp_id < i64::MAX,
    ensures
        spec_add_camp(s, request_id).wf(),
{
    let t = spec_add_camp(s, request_id);
    let new_id = s.next_camp_id as i64;
    // camp ids stay distinct and bounded
    assert forall|i: int, j: int| 0 <= i < j < t.camps.len() implies (#[trigger] t.camps[i]).id
        != (#[trigger] t.camps[j]).id by {
        if j < s.camps.len() {
            assert(t.camps[i] == s.camps[i]);
            assert(t.camps[j] == s.camps[j]);
        } else {
            assert(t.camps[i] == s.camps[i]);
        }
    }
    assert forall|i: int| 0 <= i < t.camps.len() implies 1 <= (#[trigger] t.camps[i]).id
        < t.next_camp_id by {
        if i < s.camps.len() {
            assert(t.camps[i] == s.camps[i]);
        }
    }
    // the discarded request leaves the remaining rows distinct and bounded
    let pq = |q: CampRequestView| q.id != request_id;
    lemma_filter_elems(s.camp_requests, pq);
    lemma_filter_distinct(s.camp_requests, pq, |q: CampRequestView| q.id);
    assert(t.request_ids_ok()) by {
        assert forall|i: int, j: int| 0 <= i < j < t.camp_requests.len() implies (
        #[trigger] t.camp_requests[i]).id != (#[trigger] t.camp_requests[j]).id by {
            let key = |q: CampRequestView| q.id;
            assert(distinct_keys(t.camp_requests, key));
            assert(key(t.camp_requests[i]) != key(t.camp_requests[j]));
        }
        assert forall|i: int| 0 <= i < t.camp_requests.len() implies 1 <= (
        #[trigger] t.camp_requests[i]).id < t.next_request_id by {
            assert(s.camp_requests.contains(t.camp_requests[i]));
            let j = choose|j: int|
                0 <= j < s.camp_requests.len() && s.camp_requests[j] == t.camp_requests[i];
            assert(s.camp_requests[j].id == t.camp_requests[i].id);
        }
    }
    // a camp the reviews or favorites reference is still there
    assert forall|id: i64| has_camp(s.camps, id) implies has_camp(t.camps, id) by {
        let i = choose|i: int| 0 <= i < s.camps.len() && s.camps[i].id == id;
        assert(t.camps[i].id == id);
    }
    // no review belongs to the new camp yet, so its rating is rightly absent
    assert forall|i: int| 0 <= i < s.reviews.len() implies (#[trigger] s.reviews[i]).camp_id
        != new_id by {
        assert(has_camp(s.camps, s.reviews[i].camp_id));
        let j = choose|j: int| 0 <= j < s.camps.len() && s.camps[j].id == s.reviews[i].camp_id;
        assert(s.camps[j].id < s.next_camp_id);
    }
    lemma_counts_none(s.reviews, new_id);
    assert forall|i: int| 0 <= i < t.camps.len() implies (#[trigger] t.camps[i]).rating == mean_of(
        t.reviews,
        t.camps[i].id,
    ) by {
        if i < s.camps.len() {
            assert(t.camps[i] == s.camps[i]);
        } else {
            assert(t.camps[i].rating is None);
        }
    }
}

/// Updating a camp keeps the store well formed.
pub proof fn lemma_update_camp_wf(s: StoreView, id: i64, p: CampPatchView)
    requires
        s.wf(),
    ensures
        spec_update_camp(s, id, p).wf(),
{
    if has_camp(s.camps, id) {
        let t = spec_update_camp(s, id, p);
        let idx = camp_index(s.camps, id);
        assert forall|k: int| 0 <= k < t.camps.len() implies (#[trigger] t.camps[k]).id
            == s.camps[k].id && t.camps[k].rating == s.camps[k].rating by {
            if k != idx {
                assert(t.camps[k] == s.camps[k]);
            }
        }
        assert forall|cid: i64| has_camp(s.camps, cid) implies has_camp(t.camps, cid) by {
            let i = choose|i: int| 0 <= i < s.camps.len() && s.camps[i].id == cid;
            assert(t.camps[i].id == cid);
        }
    }
}

/// Deleting a camp — with its reviews and favorites — keeps the store
/// well formed.
pub proof fn lemma_delete_camp_wf(s: StoreView, id: i64)
    requires
        s.wf(),
    ensures
        spec_delete_camp(s, id).wf(),
{
    if has_camp(s.camps, id) {
        let t = spec_delete_camp(s, id);
        let pc = |c: CampView| c.id != id;
        let pr = |r: ReviewView| r.camp_id != id;
        let pf = |f: UserCampJunctionView| f.camp_id != id;
        lemma_filter_elems(s.camps, pc);
        lemma_filter_distinct(s.camps, pc, |c: CampView| c.id);
        lemma_filter_elems(s.reviews, pr);
        lemma_filter_distinct(s.reviews, pr, |r: ReviewView| r.id);
        lemma_filter_distinct(s.reviews, pr, |r: ReviewView| (r.camp_id, r.author_id));
        lemma_filter_elems(s.favorites, pf);
        lemma_filter_distinct(s.favorites, pf, |f: UserCampJunctionView| (f.user_id, f.camp_id));
        // a surviving row's camp survives too
        assert forall|cid: i64|
            has_camp(s.camps, cid) && cid != id implies has_camp(t.camps, cid) by {
            let i = choose|i: int| 0 <= i < s.camps.len() && s.camps[i].id == cid;
            Seq::lemma_filter_contains(s.camps, pc, i);
            assert(t.camps.contains(s.camps[i]));
            let j = choose|j: int| 0 <= j < t.camps.len() && t.camps[j] == s.camps[i];
            assert(t.camps[j].id == cid);
        }
        assert(t.camp_ids_ok()) by {
            assert forall|i: int, j: int| 0 <= i < j < t.camps.len() implies (
            #[trigger] t.camps[i]).id != (#[trigger] t.camps[j]).id by {
                let key = |c: CampView| c.id;
                assert(distinct_keys(t.camps, key));
                assert(key(t.camps[i]) != key(t.camps[j]));
            }
            assert forall|i: int| 0 <= i < t.camps.len() implies 1 <= (#[trigger] t.camps[i]).id
                < t.next_camp_id by {
                assert(s.camps.contains(t.camps[i]));
                let j = choose|j: int| 0 <= j < s.camps.len() && s.camps[j] == t.camps[i];
                assert(s.camps[j].id == t.camps[i].id);
            }
        }
        assert(t.reviews_ok()) by {
            assert forall|i: int, j: int| 0 <= i < j < t.reviews.len() implies (
            #[trigger] t.reviews[i]).id != (#[trigger] t.reviews[j]).id by {
                let key = |r: ReviewView| r.id;
                assert(distinct_keys(t.reviews, key));
                assert(key(t.reviews[i]) != key(t.reviews[j]));
            }
            assert forall|i: int, j: int| 0 <= i < j < t.reviews.len() implies !((
            #[trigger] t.reviews[i]).camp_id == (#[trigger] t.reviews[j]).camp_id
                && t.reviews[i].author_id == t.reviews[j].author_id) by {
                let key = |r: ReviewView| (r.camp_id, r.author_id);
                assert(distinct_keys(t.reviews, key));
                assert(key(t.reviews[i]) != key(t.reviews[j]));
            }
            assert forall|i: int| 0 <= i < t.reviews.len() implies 1 <= (
            #[trigger] t.reviews[i]).id < t.next_review_id && has_camp(
                t.camps,
                t.reviews[i].camp_id,
            ) by {
                assert(s.reviews.contains(t.reviews[i]));
                let j = choose|j: int| 0 <= j < s.reviews.len() && s.reviews[j] == t.reviews[i];
                assert(s.reviews[j].id == t.reviews[i].id);
                assert(has_camp(s.camps, t.reviews[i].camp_id));
                Seq::lemma_filter_pred(s.reviews, pr, i);
            }
        }
        assert(t.favorites_ok()) by {
            assert forall|i: int, j: int| 0 <= i < j < t.favorites.len() implies !((
            #[trigger] t.favorites[i]).user_id == (#[trigger] t.favorites[j]).user_id
                && t.favorites[i].camp_id == t.favorites[j].camp_id) by {
                let key = |f: UserCampJunctionView| (f.user_id, f.camp_id);
                assert(distinct_keys(t.favorites, key));
                assert(key(t.favorites[i]) != key(t.favorites[j]));
            }
            assert forall|i: int| 0 <= i < t.favorites.len() implies has_camp(
                t.camps,
                (#[trigger] t.favorites[i]).camp_id,
            ) by {
                assert(s.favorites.contains(t.favorites[i]));
                let j = choose|j: int|
                    0 <= j < s.favorites.len() && s.favorites[j] == t.favorites[i];
                assert(has_camp(s.camps, s.favorites[j].camp_id));
                Seq::lemma_filter_pred(s.favorites, pf, i);
            }
        }
        assert(t.ratings_ok()) by {
            assert forall|i: int| 0 <= i < t.camps.len() implies (#[trigger] t.camps[i]).rating
                == mean_of(t.reviews, t.camps[i].id) by {
                assert(s.camps.contains(t.camps[i]));
                let j = choose|j: int| 0 <= j < s.camps.len() && s.camps[j] == t.camps[i];
                assert(s.camps[j].rating == mean_of(s.reviews, s.camps[j].id));
                Seq::lemma_filter_pred(s.camps, pc, i);
                lemma_counts_filter_off_camp(s.reviews, pr, id, t.camps[i].id);
            }
        }
    }
}

/// Append a copy of `row`, with the effect stated on the deep view.
pub(crate) fn push_camp(out: &mut Vec<Camp>, row: Camp)
    ensures
        final(out).deep_view() == old(out).deep_view().push(row@),
{
    let ghost prev = out@;
    let ghost pdv = out.deep_view();
    let ghost ev = row;
    out.push(row);
    proof {
        assert(out@ == prev.push(ev));
        assert forall|k: int| 0 <= k < out@.len() implies #[trigger] out.deep_view()[k] == pdv.push(
            ev@,
        )[k] by {
            if k < prev.len() {
                assert(out@[k] == prev[k]);
                assert(pdv[k] == prev[k].deep_view());
            } else {
                assert(out@[k] == ev);
            }
        }
        assert(out.deep_view() =~= pdv.push(ev@));
    }
}

/// Copy the camp rows that survive deleting camp `id`.
#[verifier::loop_isolation(false)]
fn camp_rows_without(camps: &Vec<Camp>, id: i64) -> (out: Vec<Camp>)
    ensures
        out.deep_view() == camps_without(camps.deep_view(), id),
{
    let ghost p = |c: CampView| c.id != id;
    let mut out: Vec<Camp> = Vec::new();
    let mut i: usize = 0;
    while i < camps.len()
        invariant
            i <= camps@.len(),
            out.deep_view() == camps.deep_view().take(i as int).filter(p),
        decreases camps@.len() - i,
    {
        let ghost dv = camps.deep_view();
        if camps[i].id != id {
            push_camp(&mut out, camps[i].clone());
        }
        proof {
            assert(dv.take(i as int + 1) =~= dv.take(i as int).push(dv[i as int]));
            Seq::lemma_filter_push(dv.take(i as int), dv[i as int], p);
        }
        i += 1;
    }
    proof {
        assert(camps.deep_view().take(camps@.len() as int) =~= camps.deep_view());
    }
    out
}

/// Every present rating in the sequence is well formed (true of every
/// well-formed store, where ratings come from the aggregator).
pub open spec fn ratings_valid(cs: Seq<CampView>) -> bool {
    forall|i: int| 0 <= i < cs.len() ==> opt_rating_wf((#[trigger] cs[i]).rating)
}

/// Sorted by rating, largest first, camps without a rating first of all —
/// the order the featured listing serves.
pub open spec fn sorted_desc(cs: Seq<CampView>) -> bool {
    forall|i: int, j: int|
        0 <= i < j < cs.len() ==> rating_ge((#[trigger] cs[i]).rating, (#[trigger] cs[j]).rating)
}

/// The position of a camp whose rating is greatest among `rem`'s.
#[verifier::loop_isolation(false)]
fn max_rating_index(rem: &Vec<Camp>) -> (best: usize)
    requires
        rem@.len() > 0,
        ratings_valid(rem.deep_view()),
    ensures
        best < rem@.len(),
        forall|k: int|
            0 <= k < rem@.len() ==> rating_ge(
                rem.deep_view()[best as int].rating,
                (#[trigger] rem.deep_view()[k]).rating,
            ),
{
    let ghost dv = rem.deep_view();
    let mut best: usize = 0;
    let mut j: usize = 1;
    while j < rem.len()
        invariant
            best < j <= rem@.len(),
            forall|k: int| 0 <= k < j ==> rating_ge(dv[best as int].rating, (#[trigger] dv[k]).rating),
        decreases rem@.len() - j,
    {
        if !option_rating_ge(&rem[best].rating, &rem[j].rating) {
            proof {
                lemma_rating_ge_total(dv[best as int].rating, dv[j as int].rating);
                assert forall|k: int| 0 <= k < j + 1 implies rating_ge(
                    dv[j as int].rating,
                    (#[trigger] dv[k]).rating,
                ) by {
                    if k < j {
                        lemma_rating_ge_trans(
                            dv[j as int].rating,
                            dv[best as int].rating,
                            dv[k].rating,
                        );
                    }
                }
            }
            best = j;
        }
        j += 1;
    }
    best
}

/// Sort camps by rating, largest first (camps without a rating first of
/// all): the result holds exactly the given rows, in the featured order.
#[verifier::loop_isolation(false)]
fn sort_camps_desc(input: Vec<Camp>) -> (out: Vec<Camp>)
    requires
        ratings_valid(input.deep_view()),
    ensures
        out.deep_view().to_multiset() == input.deep_view().to_multiset(),
        sorted_desc(out.deep_view()),
{
    broadcast use vstd::seq_lib::group_to_multiset_ensures;

    let ghost g0 = input.deep_view().to_multiset();
    let mut rem = input;
    let mut out: Vec<Camp> = Vec::new();
    proof {
        assert(out.deep_view() =~= Seq::<CampView>::empty());
        assert(out.deep_view().to_multiset().add(rem.deep_view().to_multiset()) =~= g0);
    }
    while rem.len() > 0
        invariant
            out.deep_view().to_multiset().add(rem.deep_view().to_multiset()) == g0,
            sorted_desc(out.deep_view()),
            ratings_valid(rem.deep_view()),
            ratings_valid(out.deep_view()),
            forall|k: int, j: int|
                0 <= k < out.deep_view().len() && 0 <= j < rem.deep_view().len() ==> rating_ge(
                    (#[trigger] out.deep_view()[k]).rating,
                    (#[trigger] rem.deep_view()[j]).rating,
                ),
        decreases rem@.len(),
    {
        let best = max_rating_index(&rem);
        let ghost rdv = rem.deep_view();
        let ghost odv = out.deep_view();
        let ghost prev_rem = rem@;
        let ghost prev_out = out@;
        let chosen = rem.remove(best);
        let ghost ev = chosen;
        out.push(chosen);
        proof {
            assert(rem@ == prev_rem.remove(best as int));
            assert forall|k: int| 0 <= k < rem@.len() implies #[trigger] rem.deep_view()[k]
                == rdv.remove(best as int)[k] by {
                assert(rem.deep_view()[k] == rem@[k].deep_view());
                if k < best {
                    assert(rem@[k] == prev_rem[k]);
                    assert(rdv[k] == prev_rem[k].deep_view());
                } else {
                    assert(rem@[k] == prev_rem[k + 1]);
                    assert(rdv[k + 1] == prev_rem[k + 1].deep_view());
                }
            }
            assert(rem.deep_view() =~= rdv.remove(best as int));
            assert(out@ == prev_out.push(ev));
            assert forall|k: int| 0 <= k < out@.len() implies #[trigger] out.deep_view()[k]
                == odv.push(ev@)[k] by {
                assert(out.deep_view()[k] == out@[k].deep_view());
                if k < prev_out.len() {
                    assert(out@[k] == prev_out[k]);
                    assert(odv[k] == prev_out[k].deep_view());
                } else {
                    assert(out@[k] == ev);
                }
            }
            assert(out.deep_view() =~= odv.push(ev@));
            assert(ev@ == rdv[best as int]);
            // one row moved over: the multisets still add up to the input
            assert(rdv.to_multiset().count(ev@) > 0) by {
                assert(rdv.contains(rdv[best as int]));
            }
            assert(out.deep_view().to_multiset().add(rem.deep_view().to_multiset()) =~= g0) by {
                assert(out.deep_view().to_multiset() =~= odv.to_multiset().insert(ev@));
                assert(rem.deep_view().to_multiset() =~= rdv.to_multiset().remove(ev@));
            }
        }
    }
    proof {
        assert(rem.deep_view() =~= Seq::<CampView>::empty());
        assert(out.deep_view().to_multiset().add(Seq::<CampView>::empty().to_multiset()) == g0);
        assert(out.deep_view().to_multiset() =~= g0);
    }
    out
}

/// Copy every camp row.
#[verifier::loop_isolation(false)]
fn clone_camps(camps: &Vec<Camp>) -> (out: Vec<Camp>)
    ensures
        out.deep_view() == camps.deep_view(),
{
    let mut out: Vec<Camp> = Vec::new();
    let mut i: usize = 0;
    while i < camps.len()
        invariant
            i <= camps@.len(),
            out.deep_view() == camps.deep_view().take(i as int),
        decreases camps@.len() - i,
    {
        let ghost dv = camps.deep_view();
        push_camp(&mut out, camps[i].clone());
        proof {
            assert(dv.take(i as int + 1) =~= dv.take(i as int).push(dv[i as int]));
        }
        i += 1;
    }
    proof {
        assert(camps.deep_view().take(camps@.len() as int) =~= camps.deep_view());
    }
    out
}

/// The camp operations of the service.
pub struct CampManager;

impl CampManager {
    /// List every camp, in store order. Never fails.
    pub fn get_all_camps(store: &Store, _utx: UserCtx) -> (res: Result<Vec<Camp>, Error>)
        ensures
            res matches Ok(v) && v.deep_view() == store@.camps,
    {
        Ok(clone_camps(&store.camps))
    }

    /// List the ten best-rated camps (all of them when there are fewer):
    /// some arrangement of the camp rows in the featured order — by
    /// rating, largest first, camps without a rating first of all, ties in
    /// either order — cut after the tenth row. Never fails.
    pub fn get_featured_camps(store: &Store) -> (res: Result<Vec<Camp>, Error>)
        requires
            store@.wf(),
        ensures
            res matches Ok(v) && exists|p: Seq<CampView>|
                #![auto]
                {
                    &&& p.to_multiset() == store@.camps.to_multiset()
                    &&& sorted_desc(p)
                    &&& v.deep_view() == if p.len() <= 10 {
                        p
                    } else {
                        p.take(10)
                    }
                },
    {
        let all = clone_camps(&store.camps);
        proof {
            assert(store@.reviews.len() == store.reviews.len());
            assert forall|i: int| 0 <= i < all.deep_view().len() implies opt_rating_wf(
                (#[trigger] all.deep_view()[i]).rating,
            ) by {
                crate::review::lemma_rating_matches_reviews(store@, i);
            }
        }
        let mut sorted = sort_camps_desc(all);
        let ghost full = sorted.deep_view();
        if sorted.len() > 10 {
            let ghost prev = sorted@;
            sorted.truncate(10);
            proof {
                assert forall|k: int| 0 <= k < sorted@.len() implies #[trigger] sorted.deep_view()[k]
                    == full.take(10)[k] by {
                    assert(sorted.deep_view()[k] == sorted@[k].deep_view());
                    assert(sorted@[k] == prev[k]);
                    assert(full[k] == prev[k].deep_view());
                }
                assert(sorted.deep_view() =~= full.take(10));
            }
        }
        proof {
            assert(full.to_multiset() == store@.camps.to_multiset() && sorted_desc(full)
                && sorted.deep_view() == if full.len() <= 10 {
                full
            } else {
                full.take(10)
            });
        }
        Ok(sorted)
    }

    /// Approve the request with id `camp_request_id`: its fields become a
    /// new camp (with no rating, since a new camp has no reviews) and the
    /// request is discarded, in one unit. Fails with `NotFound` exactly
    /// when no such request exists, and with `StorageFailure` exactly when
    /// the camp id sequence is exhausted.
    pub fn add_camp(store: &mut Store, _utx: UserCtx, camp_request_id: i64) -> (res: Result<
        Camp,
        Error,
    >)
        requires
            old(store)@.wf(),
        ensures
            final(store)@.wf(),
            !has_request(old(store)@.camp_requests, camp_request_id) ==> (res matches Err(e) && e
                == Error::NotFound && final(store)@ == old(store)@),
            has_request(old(store)@.camp_requests, camp_request_id) && old(store)@.next_camp_id
                == i64::MAX ==> (res matches Err(e) && e == Error::StorageFailure && final(store)@
                == old(store)@),
            has_request(old(store)@.camp_requests, camp_request_id) && old(store)@.next_camp_id
                < i64::MAX ==> (res matches Ok(c) && c@ == camp_from_request(
                old(store)@.camp_requests[request_index(old(store)@.camp_requests, camp_request_id)],
                old(store)@.next_camp_id as i64,
            ) && final(store)@ == spec_add_camp(old(store)@, camp_request_id)),
    {
        let q = match crate::camp_request::find_request_index(
            &store.camp_requests,
            camp_request_id,
        ) {
            None => {
                return Err(Error::NotFound);
            },
            Some(i) => {
                proof {
                    let k = request_index(old(store)@.camp_requests, camp_request_id);
                    if k != i {
                        assert(old(store)@.camp_requests[k].id != old(
                            store,
                        )@.camp_requests[i as int].id);
                    }
                }
                store.camp_requests[i].clone()
            },
        };
        if store.next_camp_id == i64::MAX {
            return Err(Error::StorageFailure);
        }
        let camp = Camp {
            id: store.next_camp_id,
            name: q.name,
            description: q.description,
            phone_number: q.phone_number,
            street_address: q.street_address,
            city: q.city,
            state: q.state,
            country: q.country,
            zip_code: q.zip_code,
            email: q.email,
            tags: Some(unwrap_or_empty_list(q.tags)),
            image_urls: Some(unwrap_or_empty_list(q.image_urls)),
            website: Some(unwrap_or_empty_string(q.website)),
            apt_suite_other: None,
            rating: None,
        };
        let stored = camp.clone();
        push_camp(&mut store.camps, camp);
        store.next_camp_id = store.next_camp_id + 1;
        let pruned = request_rows_without(&store.camp_requests, camp_request_id);
        store.camp_requests = pruned;
        proof {
            assert(store@ =~= spec_add_camp(old(store)@, camp_request_id));
            lemma_add_camp_wf(old(store)@, camp_request_id);
        }
        Ok(stored)
    }

    /// Fetch the camp with id `id`. Fails with `NotFound` exactly when no
    /// such camp exists.
    pub fn get_camp(store: &Store, id: i64, _utx: UserCtx) -> (res: Result<Camp, Error>)
        requires
            store@.wf(),
        ensures
            has_camp(store@.camps, id) ==> (res matches Ok(c) && c@ == store@.camps[camp_index(
                store@.camps,
                id,
            )]),
            !has_camp(store@.camps, id) ==> (res matches Err(e) && e == Error::NotFound),
    {
        match find_camp_index(&store.camps, id) {
            Some(i) => {
                let found = store.camps[i].clone();
                proof {
                    let k = camp_index(store@.camps, id);
                    if k != i {
                        assert(store@.camps[k].id != store@.camps[i as int].id);
                    }
                }
                Ok(found)
            },
            None => Err(Error::NotFound),
        }
    }

    /// Update the camp with id `id`: fields the patch sets are replaced,
    /// the rest keep their stored values; the id, the rating and the
    /// apartment/suite column are never touched by an update. The updated
    /// row is returned. Fails with `NotFound` exactly when no such camp
    /// exists.
    pub fn update_camp(store: &mut Store, id: i64, data: CampPatch, _utx: UserCtx) -> (res: Result<
        Camp,
        Error,
    >)
        requires
            old(store)@.wf(),
        ensures
            final(store)@.wf(),
            !has_camp(old(store)@.camps, id) ==> (res matches Err(e) && e == Error::NotFound
                && final(store)@ == old(store)@),
            has_camp(old(store)@.camps, id) ==> (res matches Ok(c) && c@ == merge_camp(
                old(store)@.camps[camp_index(old(store)@.camps, id)],
                data@,
            ) && final(store)@ == spec_update_camp(old(store)@, id, data@)),
    {
        let i = match find_camp_index(&store.camps, id) {
            None => {
                return Err(Error::NotFound);
            },
            Some(i) => i,
        };
        proof {
            let k = camp_index(old(store)@.camps, id);
            if k != i {
                assert(old(store)@.camps[k].id != old(store)@.camps[i as int].id);
            }
        }
        let original = &store.camps[i];
        let merged = Camp {
            id: original.id,
            name: match data.name {
                Some(s) => s,
                None => original.name.clone(),
            },
            description: match data.description {
                Some(s) => s,
                None => original.description.clone(),
            },
            phone_number: match data.phone_number {
                Some(s) => s,
                None => original.phone_number.clone(),
            },
            street_address: match data.street_address {
                Some(s) => s,
                None => original.street_address.clone(),
            },
            city: match data.city {
                Some(s) => s,
                None => original.city.clone(),
            },
            state: match data.state {
                Some(s) => s,
                None => original.state.clone(),
            },
            country: match data.country {
                Some(s) => s,
                None => original.country.clone(),
            },
            zip_code: match data.zip_code {
                Some(s) => s,
                None => original.zip_code.clone(),
            },
            email: match data.email {
                Some(s) => s,
                None => original.email.clone(),
            },
            tags: Some(
                match data.tags {
                    Some(t) => t,
                    None => unwrap_or_empty_list(clone_opt_strings(&original.tags)),
                },
            ),
            image_urls: Some(
                match data.image_urls {
                    Some(t) => t,
                    None => unwrap_or_empty_list(clone_opt_strings(&original.image_urls)),
                },
            ),
            website: Some(
                match data.website {
                    Some(w) => w,
                    None => unwrap_or_empty_string(clone_opt_string(&original.website)),
                },
            ),
            apt_suite_other: clone_opt_string(&original.apt_suite_other),
            rating: original.rating,
        };
        let stored = merged.clone();
        let ghost prev = store.camps@;
        let ghost pdv = store.camps.deep_view();
        let ghost ev = merged;
        store.camps.set(i, merged);
        proof {
            assert(store.camps@ == prev.update(i as int, ev));
            assert forall|k: int| 0 <= k < store.camps@.len() implies #[trigger] store.camps.deep_view()[k]
                == pdv.update(i as int, ev@)[k] by {
                if k != i {
                    assert(store.camps@[k] == prev[k]);
                    assert(pdv[k] == prev[k].deep_view());
                } else {
                    assert(store.camps@[k] == ev);
                }
            }
            assert(store.camps.deep_view() =~= pdv.update(i as int, ev@));
            assert(ev@ == merge_camp(old(store)@.camps[i as int], data@));
            assert(store@ =~= spec_update_camp(old(store)@, id, data@));
            lemma_update_camp_wf(old(store)@, id, data@);
        }
        Ok(stored)
    }

    /// Delete the camp with id `id`, together with its reviews and its
    /// favorite rows, in one unit; the deleted row is returned. Fails with
    /// `NotFound` exactly when no such camp exists.
    pub fn delete_camp(store: &mut Store, id: i64, _utx: UserCtx) -> (res: Result<Camp, Error>)
        requires
            old(store)@.wf(),
        ensures
            final(store)@.wf(),
            !has_camp(old(store)@.camps, id) ==> (res matches Err(e) && e == Error::NotFound
                && final(store)@ == old(store)@),
            has_camp(old(store)@.camps, id) ==> (res matches Ok(c) && c@ == old(
                store,
            )@.camps[camp_index(old(store)@.camps, id)] && final(store)@ == spec_delete_camp(
                old(store)@,
                id,
            )),
    {
        let i = match find_camp_index(&store.camps, id) {
            None => {
                return Err(Error::NotFound);
            },
            Some(i) => i,
        };
        proof {
            let k = camp_index(old(store)@.camps, id);
            if k != i {
                assert(old(store)@.camps[k].id != old(store)@.camps[i as int].id);
            }
        }
        let removed = store.camps[i].clone();
        let camps = camp_rows_without(&store.camps, id);
        store.camps = camps;
        let reviews = rows_without_camp(&store.reviews, id);
        store.reviews = reviews;
        let favorites = favorite_rows_without_camp(&store.favorites, id);
        store.favorites = favorites;
        proof {
            assert(store@ =~= spec_delete_camp(old(store)@, id));
            lemma_delete_camp_wf(old(store)@, id);
        }
        Ok(removed)
    }

    /// List camp `camp_id`'s reviews, in store order. Never fails.
    pub fn get_camp_reviews(store: &Store, camp_id: i64, _utx: UserCtx) -> (res: Result<
        Vec<Review>,
        Error,
    >)
        ensures
            res matches Ok(v) && v.deep_view() == reviews_for(store@.reviews, camp_id),
    {
        Ok(rows_for_camp(&store.reviews, camp_id))
    }
}

} // verus!
