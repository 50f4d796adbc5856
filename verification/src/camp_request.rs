//! Camp requests: unapproved camp submissions awaiting promotion.

use vstd::prelude::*;

use crate::auth::UserCtx;
use crate::camp::clone_opt_string;
use crate::camp::clone_opt_strings;
use crate::camp::CampPatch;
use crate::camp::CampPatchView;
use crate::errors::Error;
use crate::store::distinct_keys;
use crate::store::has_request;
use crate::store::lemma_filter_distinct;
use crate::store::lemma_filter_elems;
use crate::store::request_index;
use crate::store::Store;
use crate::store::StoreView;

verus! {

/// The string a missing patch field leaves behind: the empty one.
pub open spec fn or_empty(o: Option<Seq<char>>) -> Seq<char> {
    match o {
        Some(s) => s,
        None => Seq::<char>::empty(),
    }
}

/// The list a missing patch field leaves behind: the empty one.
pub open spec fn or_empty_list(o: Option<Seq<Seq<char>>>) -> Seq<Seq<char>> {
    match o {
        Some(l) => l,
        None => Seq::<Seq<char>>::empty(),
    }
}

/// A pending camp proposal, submitted by the user with `user_id`. On
/// approval its fields are copied into a new [`crate::camp::Camp`] and the
/// request itself is discarded.
#[derive(Debug)]
pub struct CampRequest {
    pub id: i64,
    pub name: String,
    pub description: String,
    pub phone_number: String,
    pub street_address: String,
    pub city: String,
    pub state: String,
    pub country: String,
    pub zip_code: String,
    pub email: String,
    pub tags: Option<Vec<String>>,
    pub image_urls: Option<Vec<String>>,
    pub website: Option<String>,
    pub apt_suite_other: Option<String>,
    pub user_id: String,
}

/// Mathematical image of a [`CampRequest`] row.
#[verifier::ext_equal]
pub ghost struct CampRequestView {
    pub id: i64,
    pub name: Seq<char>,
    pub description: Seq<char>,
    pub phone_number: Seq<char>,
    pub street_address: Seq<char>,
    pub city: Seq<char>,
    pub state: Seq<char>,
    pub country: Seq<char>,
    pub zip_code: Seq<char>,
    pub email: Seq<char>,
    pub tags: Option<Seq<Seq<char>>>,
    pub image_urls: Option<Seq<Seq<char>>>,
    pub website: Option<Seq<char>>,
    pub apt_suite_other: Option<Seq<char>>,
    pub user_id: Seq<char>,
}

impl View for CampRequest {
    type V = CampRequestView;

    open spec fn view(&self) -> CampRequestView {
        CampRequestView {
            id: self.id,
            name: self.name@,
            description: self.description@,
            phone_number: self.phone_number@,
            street_address: self.street_address@,
            city: self.city@,
            state: self.state@,
            country: self.country@,
            zip_code: self.zip_code@,
            email: self.email@,
            tags: self.tags.deep_view(),
            image_urls: self.image_urls.deep_view(),
            website: self.website.deep_view(),
            apt_suite_other: self.apt_suite_other.deep_view(),
            user_id: self.user_id@,
        }
    }
}

impl DeepView for CampRequest {
    type V = CampRequestView;

    open spec fn deep_view(&self) -> CampRequestView {
        self.view()
    }
}

impl Clone for CampRequest {
    fn clone(&self) -> (res: Self)
        ensures
            res@ == self@,
    {
        CampRequest {
            id: self.id,
            name: self.name.clone(),
            description: self.description.clone(),
            phone_number: self.phone_number.clone(),
            street_address: self.street_address.clone(),
            city: self.city.clone(),
            state: self.state.clone(),
            country: self.country.clone(),
            zip_code: self.zip_code.clone(),
            email: self.email.clone(),
            tags: clone_opt_strings(&self.tags),
            image_urls: clone_opt_strings(&self.image_urls),
            website: clone_opt_string(&self.website),
            apt_suite_other: clone_opt_string(&self.apt_suite_other),
            user_id: self.user_id.clone(),
        }
    }
}

/// The request row a submission stores: every missing string field comes
/// out empty, the optional list and website columns are always set (to
/// the supplied value or the empty one), and the apartment/suite column
/// is never filled by a submission.
pub open spec fn request_from_patch(p: CampPatchView, user_id: Seq<char>, id: i64) -> CampRequestView {
    CampRequestView {
        id: id,
        name: or_empty(p.name),
        description: or_empty(p.description),
        phone_number: or_empty(p.phone_number),
        street_address: or_empty(p.street_address),
        city: or_empty(p.city),
        state: or_empty(p.state),
        country: or_empty(p.country),
        zip_code: or_empty(p.zip_code),
        email: or_empty(p.email),
        tags: Some(or_empty_list(p.tags)),
        image_urls: Some(or_empty_list(p.image_urls)),
        website: Some(or_empty(p.website)),
        apt_suite_other: None,
        user_id: user_id,
    }
}

/// Submitting a camp request: one new row under the next request id.
pub open spec fn spec_new_request(s: StoreView, p: CampPatchView, user_id: Seq<char>) -> StoreView {
    StoreView {
        camp_requests: s.camp_requests.push(
            request_from_patch(p, user_id, s.next_request_id as i64),
        ),
        next_request_id: s.next_request_id + 1,
        ..s
    }
}

/// The request rows that survive deleting request `id`.
pub open spec fn requests_without(qs: Seq<CampRequestView>, id: i64) -> Seq<CampRequestView> {
    qs.filter(|q: CampRequestView| q.id != id)
}

/// Deleting a camp request; deleting an id that matches no row changes
/// nothing.
pub open spec fn spec_delete_request(s: StoreView, id: i64) -> StoreView {
    StoreView { camp_requests: requests_without(s.camp_requests, id), ..s }
}

/// Submitting a request keeps the store well formed, as long as the
/// request id sequence has not run out.
pub proof fn lemma_new_request_wf(s: StoreView, p: CampPatchView, user_id: Seq<char>)
    requires
        s.wf(),
        s.next_request_id < i64::MAX,
    ensures
        spec_new_request(s, p, user_id).wf(),
{
    let t = spec_new_request(s, p, user_id);
    assert forall|i: int, j: int| 0 <= i < j < t.camp_requests.len() implies (
    #[trigger] t.camp_requests[i]).id != (#[trigger] t.camp_requests[j]).id by {
        if j < s.camp_requests.len() {
            assert(t.camp_requests[i] == s.camp_requests[i]);
            assert(t.camp_requests[j] == s.camp_requests[j]);
        } else {
            assert(t.camp_requests[i] == s.camp_requests[i]);
        }
    }
    assert forall|i: int| 0 <= i < t.camp_requests.len() implies 1 <= (
    #[trigger] t.camp_requests[i]).id < t.next_request_id by {
        if i < s.camp_requests.len() {
            assert(t.camp_requests[i] == s.camp_requests[i]);
        }
    }
}

/// Deleting a request keeps the store well formed.
pub proof fn lemma_delete_request_wf(s: StoreView, id: i64)
    requires
        s.wf(),
    ensures
        spec_delete_request(s, id).wf(),
{
    let p = |q: CampRequestView| q.id != id;
    let pruned = s.camp_requests.filter(p);
    lemma_filter_elems(s.camp_requests, p);
    lemma_filter_distinct(s.camp_requests, p, |q: CampRequestView| q.id);
    assert forall|i: int, j: int| 0 <= i < j < pruned.len() implies (#[trigger] pruned[i]).id != (
    #[trigger] pruned[j]).id by {
        let key = |q: CampRequestView| q.id;
        assert(distinct_keys(pruned, key));
        assert(key(pruned[i]) != key(pruned[j]));
    }
    assert forall|i: int| 0 <= i < pruned.len() implies 1 <= (#[trigger] pruned[i]).id
        < s.next_request_id by {
        assert(s.camp_requests.contains(pruned[i]));
        let j = choose|j: int| 0 <= j < s.camp_requests.len() && s.camp_requests[j] == pruned[i];
        assert(s.camp_requests[j].id == pruned[i].id);
    }
}

/// Append a copy of `row`, with the effect stated on the deep view.
pub(crate) fn push_request(out: &mut Vec<CampRequest>, row: CampRequest)
    ensures
        final(out).deep_view() == old(out).deep_view().push(row@),
{
    let ghost prev = out@;
    let ghost pdv = out.deep_view();
    let ghost ev = row;
    out.push(row);
    proof {
        assert(out@ == prev.push(ev));
        assert forall|k: int| 0 <= k < out@.len() implies #[trigger] out.deep_view()[k] == pdv.push(
            ev@,
        )[k] by {
            if k < prev.len() {
                assert(out@[k] == prev[k]);
                assert(pdv[k] == prev[k].deep_view());
            } else {
                assert(out@[k] == ev);
            }
        }
        assert(out.deep_view() =~= pdv.push(ev@));
    }
}

/// Copy the request rows that survive deleting request `id`.
#[verifier::loop_isolation(false)]
pub(crate) fn request_rows_without(requests: &Vec<CampRequest>, id: i64) -> (out: Vec<CampRequest>)
    ensures
        out.deep_view() == requests_without(requests.deep_view(), id),
{
    let ghost p = |q: CampRequestView| q.id != id;
    let mut out: Vec<CampRequest> = Vec::new();
    let mut i: usize = 0;
    while i < requests.len()
        invariant
            i <= requests@.len(),
            out.deep_view() == requests.deep_view().take(i as int).filter(p),
        decreases requests@.len() - i,
    {
        let ghost dv = requests.deep_view();
        if requests[i].id != id {
            push_request(&mut out, requests[i].clone());
        }
        proof {
            assert(dv.take(i as int + 1) =~= dv.take(i as int).push(dv[i as int]));
            Seq::lemma_filter_push(dv.take(i as int), dv[i as int], p);
        }
        i += 1;
    }
    proof {
        assert(requests.deep_view().take(requests@.len() as int) =~= requests.deep_view());
    }
    out
}

/// Find the position of the request with id `id`, if any.
pub(crate) fn find_request_index(requests: &Vec<CampRequest>, id: i64) -> (r: Option<usize>)
    ensures
        match r {
            Some(i) => i < requests@.len() && requests.deep_view()[i as int].id == id,
            None => !has_request(requests.deep_view(), id),
        },
{
    let mut i: usize = 0;
    while i < requests.len()
        invariant
            i <= requests@.len(),
            forall|j: int| 0 <= j < i ==> (#[trigger] requests.deep_view()[j]).id != id,
        decreases requests@.len() - i,
    {
        if requests[i].id == id {
            return Some(i);
        }
        i += 1;
    }
    None
}

/// The camp-request operations of the service: submissions awaiting
/// moderator approval.
pub struct CampRequestManager;

impl CampRequestManager {
    /// Store `utx`'s camp proposal under the next request id. Missing
    /// fields are stored empty. Fails with `StorageFailure` exactly when
    /// the request id sequence is exhausted.
    pub fn new_request(store: &mut Store, utx: &UserCtx, data: CampPatch) -> (res: Result<
        CampRequest,
        Error,
    >)
        requires
            old(store)@.wf(),
        ensures
            final(store)@.wf(),
            old(store)@.next_request_id == i64::MAX ==> (res matches Err(e) && e
                == Error::StorageFailure && final(store)@ == old(store)@),
            old(store)@.next_request_id < i64::MAX ==> (res matches Ok(q) && q@
                == request_from_patch(data@, utx@, old(store)@.next_request_id as i64)
                && final(store)@ == spec_new_request(old(store)@, data@, utx@)),
    {
        if store.next_request_id == i64::MAX {
            return Err(Error::StorageFailure);
        }
        let row = CampRequest {
            id: store.next_request_id,
            name: unwrap_or_empty_string(data.name),
            description: unwrap_or_empty_string(data.description),
            phone_number: unwrap_or_empty_string(data.phone_number),
            street_address: unwrap_or_empty_string(data.street_address),
            city: unwrap_or_empty_string(data.city),
            state: unwrap_or_empty_string(data.state),
            country: unwrap_or_empty_string(data.country),
            zip_code: unwrap_or_empty_string(data.zip_code),
            email: unwrap_or_empty_string(data.email),
            tags: Some(unwrap_or_empty_list(data.tags)),
            image_urls: Some(unwrap_or_empty_list(data.image_urls)),
            website: Some(unwrap_or_empty_string(data.website)),
            apt_suite_other: None,
            user_id: utx.user_id.clone(),
        };
        let stored = row.clone();
        push_request(&mut store.camp_requests, row);
        store.next_request_id = store.next_request_id + 1;
        proof {
            assert(stored@ == request_from_patch(data@, utx@, old(store)@.next_request_id as i64));
            assert(store@ =~= spec_new_request(old(store)@, data@, utx@));
            lemma_new_request_wf(old(store)@, data@, utx@);
        }
        Ok(stored)
    }

    /// Delete the request with id `camp_request_id`; deleting an id that
    /// matches no row is a no-op. Never fails.
    pub fn delete_camp_request(store: &mut Store, _utx: &UserCtx, camp_request_id: i64) -> (res:
        Result<(), Error>)
        requires
            old(store)@.wf(),
        ensures
            final(store)@.wf(),
            final(store)@ == spec_delete_request(old(store)@, camp_request_id),
            res matches Ok(u) && u == (),
    {
        let ghost p = |q: CampRequestView| q.id != camp_request_id;
        let mut out: Vec<CampRequest> = Vec::new();
        let mut i: usize = 0;
        while i < store.camp_requests.len()
            invariant
                i <= store.camp_requests@.len(),
                out.deep_view() == store.camp_requests.deep_view().take(i as int).filter(p),
                store == old(store),
                p == (|q: CampRequestView| q.id != camp_request_id),
            decreases store.camp_requests@.len() - i,
        {
            let ghost dv = store.camp_requests.deep_view();
            if store.camp_requests[i].id != camp_request_id {
                push_request(&mut out, store.camp_requests[i].clone());
            }
            proof {
                assert(dv.take(i as int + 1) =~= dv.take(i as int).push(dv[i as int]));
                Seq::lemma_filter_push(dv.take(i as int), dv[i as int], p);
            }
            i += 1;
        }
        proof {
            assert(store.camp_requests.deep_view().take(store.camp_requests@.len() as int)
                =~= store.camp_requests.deep_view());
        }
        store.camp_requests = out;
        proof {
            assert(store@ =~= spec_delete_request(old(store)@, camp_request_id));
            lemma_delete_request_wf(old(store)@, camp_request_id);
        }
        Ok(())
    }

    /// Fetch the request with id `camp_request_id`. Fails with `NotFound`
    /// exactly when no such row exists.
    pub fn get_camp_request(store: &Store, camp_request_id: i64) -> (res: Result<CampRequest, Error>)
        requires
            store@.wf(),
        ensures
            has_request(store@.camp_requests, camp_request_id) ==> (res matches Ok(q) && q@
                == store@.camp_requests[request_index(store@.camp_requests, camp_request_id)]),
            !has_request(store@.camp_requests, camp_request_id) ==> (res matches Err(e) && e
                == Error::NotFound),
    {
        match find_request_index(&store.camp_requests, camp_request_id) {
            Some(i) => {
                let found = store.camp_requests[i].clone();
                proof {
                    let k = request_index(store@.camp_requests, camp_request_id);
                    if k != i {
                        assert(store@.camp_requests[k].id != store@.camp_requests[i as int].id);
                    }
                }
                Ok(found)
            },
            None => Err(Error::NotFound),
        }
    }

    /// List every pending request, in store order. Never fails.
    pub fn get_camp_requests(store: &Store, _utx: UserCtx) -> (res: Result<Vec<CampRequest>, Error>)
        ensures
            res matches Ok(v) && v.deep_view() == store@.camp_requests,
    {
        let mut out: Vec<CampRequest> = Vec::new();
        let mut i: usize = 0;
        while i < store.camp_requests.len()
            invariant
                i <= store.camp_requests@.len(),
                out.deep_view() == store.camp_requests.deep_view().take(i as int),
            decreases store.camp_requests@.len() - i,
        {
            let ghost dv = store.camp_requests.deep_view();
            push_request(&mut out, store.camp_requests[i].clone());
            proof {
                assert(dv.take(i as int + 1) =~= dv.take(i as int).push(dv[i as int]));
            }
            i += 1;
        }
        proof {
            assert(store.camp_requests.deep_view().take(store.camp_requests@.len() as int)
                =~= store.camp_requests.deep_view());
        }
        Ok(out)
    }
}

/// The stored string for an optional field: the value or the empty string.
pub(crate) fn unwrap_or_empty_string(o: Option<String>) -> (r: String)
    ensures
        r@ == or_empty(o.deep_view()),
{
    match o {
        Some(s) => s,
        None => String::new(),
    }
}

/// The stored list for an optional field: the value or the empty list.
pub(crate) fn unwrap_or_empty_list(o: Option<Vec<String>>) -> (r: Vec<String>)
    ensures
        r.deep_view() == or_empty_list(o.deep_view()),
{
    match o {
        Some(l) => l,
        None => {
            let empty: Vec<String> = Vec::new();
            proof {
                assert(empty.deep_view() =~= Seq::<Seq<char>>::empty());
            }
            empty
        },
    }
}

} // verus!
