//! Favorites: the many-to-many marker between users and camps.
//!
//! Favoriting is idempotent — marking a camp a second time changes
//! nothing, and a well-formed store never holds two rows for one
//! (user, camp) pair — and so is unfavoriting: removing an absent favorite
//! is a no-op, not an error.

use vstd::prelude::*;

use crate::auth::UserCtx;
use crate::errors::Error;
use crate::store::distinct_keys;
use crate::store::has_camp;
use crate::store::has_favorite;
use crate::store::lemma_filter_all;
use crate::store::lemma_filter_distinct;
use crate::store::lemma_filter_elems;
use crate::store::Store;
use crate::store::StoreView;

verus! {

/// One favorite row: the user with `user_id` has marked the camp with
/// `camp_id`. The store keeps at most one row per pair.
#[derive(Debug)]
pub struct UserCampJunction {
    pub user_id: String,
    pub camp_id: i64,
}

/// Mathematical image of a [`UserCampJunction`] row.
#[verifier::ext_equal]
pub ghost struct UserCampJunctionView {
    pub user_id: Seq<char>,
    pub camp_id: i64,
}

impl View for UserCampJunction {
    type V = UserCampJunctionView;

    open spec fn view(&self) -> UserCampJunctionView {
        UserCampJunctionView { user_id: self.user_id@, camp_id: self.camp_id }
    }
}

impl DeepView for UserCampJunction {
    type V = UserCampJunctionView;

    open spec fn deep_view(&self) -> UserCampJunctionView {
        self.view()
    }
}

impl Clone for UserCampJunction {
    fn clone(&self) -> (res: Self)
        ensures
            res@ == self@,
    {
        UserCampJunction { user_id: self.user_id.clone(), camp_id: self.camp_id }
    }
}

/// The favorite rows for the (user, camp) pair (at most one in a
/// well-formed store).
pub open spec fn favorites_matching(
    fs: Seq<UserCampJunctionView>,
    user_id: Seq<char>,
    camp_id: i64,
) -> Seq<UserCampJunctionView> {
    fs.filter(|f: UserCampJunctionView| f.user_id == user_id && f.camp_id == camp_id)
}

/// The favorite rows of one user, in store order.
pub open spec fn favorites_of_user(
    fs: Seq<UserCampJunctionView>,
    user_id: Seq<char>,
) -> Seq<UserCampJunctionView> {
    fs.filter(|f: UserCampJunctionView| f.user_id == user_id)
}

/// The favorite rows of one camp, in store order.
pub open spec fn favorites_for_camp(
    fs: Seq<UserCampJunctionView>,
    camp_id: i64,
) -> Seq<UserCampJunctionView> {
    fs.filter(|f: UserCampJunctionView| f.camp_id == camp_id)
}

/// The favorite rows that survive removing the (user, camp) pair.
pub open spec fn favorites_without(
    fs: Seq<UserCampJunctionView>,
    user_id: Seq<char>,
    camp_id: i64,
) -> Seq<UserCampJunctionView> {
    fs.filter(|f: UserCampJunctionView| !(f.user_id == user_id && f.camp_id == camp_id))
}

/// The favorite rows that survive deleting camp `camp_id`.
pub open spec fn favorites_without_camp(
    fs: Seq<UserCampJunctionView>,
    camp_id: i64,
) -> Seq<UserCampJunctionView> {
    fs.filter(|f: UserCampJunctionView| f.camp_id != camp_id)
}

/// Favoriting: a no-op when the pair is already marked, one new row
/// otherwise.
pub open spec fn spec_favorite(s: StoreView, user_id: Seq<char>, camp_id: i64) -> StoreView {
    if has_favorite(s.favorites, user_id, camp_id) {
        s
    } else {
        StoreView {
            favorites: s.favorites.push(
                UserCampJunctionView { user_id: user_id, camp_id: camp_id },
            ),
            ..s
        }
    }
}

/// Unfavoriting: the pair's row goes away; removing an absent pair
/// changes nothing.
pub open spec fn spec_unfavorite(s: StoreView, user_id: Seq<char>, camp_id: i64) -> StoreView {
    StoreView { favorites: favorites_without(s.favorites, user_id, camp_id), ..s }
}

/// Favoriting an existing camp keeps the store well formed.
pub proof fn lemma_favorite_wf(s: StoreView, user_id: Seq<char>, camp_id: i64)
    requires
        s.wf(),
        has_camp(s.camps, camp_id),
    ensures
        spec_favorite(s, user_id, camp_id).wf(),
{
}

/// Unfavoriting keeps the store well formed.
pub proof fn lemma_unfavorite_wf(s: StoreView, user_id: Seq<char>, camp_id: i64)
    requires
        s.wf(),
    ensures
        spec_unfavorite(s, user_id, camp_id).wf(),
{
    let p = |f: UserCampJunctionView| !(f.user_id == user_id && f.camp_id == camp_id);
    let pruned = s.favorites.filter(p);
    lemma_filter_elems(s.favorites, p);
    lemma_filter_distinct(s.favorites, p, |f: UserCampJunctionView| (f.user_id, f.camp_id));
    assert forall|i: int, j: int| 0 <= i < j < pruned.len() implies !((
    #[trigger] pruned[i]).user_id == (#[trigger] pruned[j]).user_id && pruned[i].camp_id
        == pruned[j].camp_id) by {
        let key = |f: UserCampJunctionView| (f.user_id, f.camp_id);
        assert(distinct_keys(pruned, key));
        assert(key(pruned[i]) != key(pruned[j]));
    }
    assert forall|i: int| 0 <= i < pruned.len() implies has_camp(
        s.camps,
        (#[trigger] pruned[i]).camp_id,
    ) by {
        assert(s.favorites.contains(pruned[i]));
        let j = choose|j: int| 0 <= j < s.favorites.len() && s.favorites[j] == pruned[i];
        assert(has_camp(s.camps, s.favorites[j].camp_id));
    }
}

/// In a sequence of pairwise-distinct pairs, the (user, camp) pair is
/// matched by exactly one row when it is present and by none otherwise.
pub proof fn lemma_matching_count(fs: Seq<UserCampJunctionView>, user_id: Seq<char>, camp_id: i64)
    requires
        forall|i: int, j: int|
            0 <= i < j < fs.len() ==> !((#[trigger] fs[i]).user_id == (#[trigger] fs[j]).user_id
                && fs[i].camp_id == fs[j].camp_id),
    ensures
        favorites_matching(fs, user_id, camp_id).len() == if has_favorite(fs, user_id, camp_id) {
            1int
        } else {
            0int
        },
    decreases fs.len(),
{
    reveal(Seq::filter);
    if fs.len() > 0 {
        let s0 = fs.drop_last();
        assert forall|i: int, j: int|
            0 <= i < j < s0.len() implies !((#[trigger] s0[i]).user_id == (
        #[trigger] s0[j]).user_id && s0[i].camp_id == s0[j].camp_id) by {
            assert(s0[i] == fs[i]);
            assert(s0[j] == fs[j]);
        }
        lemma_matching_count(s0, user_id, camp_id);
        let last = fs.last();
        assert(last == fs[fs.len() - 1]);
        if last.user_id == user_id && last.camp_id == camp_id {
            // the last row is the match; no earlier row can match it
            assert(!has_favorite(s0, user_id, camp_id)) by {
                if has_favorite(s0, user_id, camp_id) {
                    let i = choose|i: int|
                        0 <= i < s0.len() && s0[i].user_id == user_id && s0[i].camp_id == camp_id;
                    assert(s0[i] == fs[i]);
                    assert(!(fs[i].user_id == fs[fs.len() - 1].user_id && fs[i].camp_id
                        == fs[fs.len() - 1].camp_id));
                }
            }
        } else {
            if has_favorite(fs, user_id, camp_id) {
                let i = choose|i: int|
                    0 <= i < fs.len() && fs[i].user_id == user_id && fs[i].camp_id == camp_id;
                assert(s0[i] == fs[i]);
                assert(has_favorite(s0, user_id, camp_id));
            }
        }
    }
}

/// Law: favoriting is idempotent at the store level — favoriting the same
/// camp twice by the same identity leaves exactly the store that one
/// favoriting leaves.
pub proof fn lemma_favorite_idempotent(s: StoreView, user_id: Seq<char>, camp_id: i64)
    ensures
        spec_favorite(spec_favorite(s, user_id, camp_id), user_id, camp_id) == spec_favorite(
            s,
            user_id,
            camp_id,
        ),
{
    let t = spec_favorite(s, user_id, camp_id);
    if !has_favorite(s.favorites, user_id, camp_id) {
        assert(t.favorites[s.favorites.len() as int] == (UserCampJunctionView {
            user_id: user_id,
            camp_id: camp_id,
        }));
        assert(has_favorite(t.favorites, user_id, camp_id));
    }
}

/// Law: after favoriting, exactly one favorite row for the (user, camp)
/// pair stands in the store, however often the pair was favorited before.
pub proof fn lemma_favorite_leaves_one_row(s: StoreView, user_id: Seq<char>, camp_id: i64)
    requires
        s.wf(),
    ensures
        favorites_matching(spec_favorite(s, user_id, camp_id).favorites, user_id, camp_id).len()
            == 1,
{
    let t = spec_favorite(s, user_id, camp_id);
    if has_favorite(s.favorites, user_id, camp_id) {
        lemma_matching_count(s.favorites, user_id, camp_id);
    } else {
        assert forall|i: int, j: int|
            0 <= i < j < t.favorites.len() implies !((#[trigger] t.favorites[i]).user_id == (
        #[trigger] t.favorites[j]).user_id && t.favorites[i].camp_id
            == t.favorites[j].camp_id) by {
            if j < s.favorites.len() {
                assert(t.favorites[i] == s.favorites[i]);
                assert(t.favorites[j] == s.favorites[j]);
            } else {
                assert(t.favorites[i] == s.favorites[i]);
            }
        }
        lemma_matching_count(t.favorites, user_id, camp_id);
        assert(t.favorites[s.favorites.len() as int] == (UserCampJunctionView {
            user_id: user_id,
            camp_id: camp_id,
        }));
        assert(has_favorite(t.favorites, user_id, camp_id));
    }
}

/// Law: unfavoriting a pair that is not marked changes nothing — a no-op,
/// not an error.
pub proof fn lemma_unfavorite_absent_noop(s: StoreView, user_id: Seq<char>, camp_id: i64)
    requires
        !has_favorite(s.favorites, user_id, camp_id),
    ensures
        spec_unfavorite(s, user_id, camp_id) == s,
{
    let p = |f: UserCampJunctionView| !(f.user_id == user_id && f.camp_id == camp_id);
    assert forall|i: int| 0 <= i < s.favorites.len() implies p(#[trigger] s.favorites[i]) by {
        if s.favorites[i].user_id == user_id && s.favorites[i].camp_id == camp_id {
            assert(has_favorite(s.favorites, user_id, camp_id));
        }
    }
    lemma_filter_all(s.favorites, p);
    assert(spec_unfavorite(s, user_id, camp_id) =~= s);
}

/// Append a copy of `row`, with the effect stated on the deep view.
fn push_fav(out: &mut Vec<UserCampJunction>, row: UserCampJunction)
    ensures
        final(out).deep_view() == old(out).deep_view().push(row@),
{
    let ghost prev = out@;
    let ghost pdv = out.deep_view();
    let ghost ev = row;
    out.push(row);
    proof {
        assert(out@ == prev.push(ev));
        assert forall|k: int| 0 <= k < out@.len() implies #[trigger] out.deep_view()[k] == pdv.push(
            ev@,
        )[k] by {
            if k < prev.len() {
                assert(out@[k] == prev[k]);
                assert(pdv[k] == prev[k].deep_view());
            } else {
                assert(out@[k] == ev);
            }
        }
        assert(out.deep_view() =~= pdv.push(ev@));
    }
}

/// Copy the favorite rows that survive deleting camp `camp_id`.
#[verifier::loop_isolation(false)]
pub(crate) fn favorite_rows_without_camp(favorites: &Vec<UserCampJunction>, camp_id: i64) -> (out:
    Vec<UserCampJunction>)
    ensures
        out.deep_view() == favorites_without_camp(favorites.deep_view(), camp_id),
{
    let ghost p = |f: UserCampJunctionView| f.camp_id != camp_id;
    let mut out: Vec<UserCampJunction> = Vec::new();
    let mut i: usize = 0;
    while i < favorites.len()
        invariant
            i <= favorites@.len(),
            out.deep_view() == favorites.deep_view().take(i as int).filter(p),
        decreases favorites@.len() - i,
    {
        let ghost dv = favorites.deep_view();
        if favorites[i].camp_id != camp_id {
            push_fav(&mut out, favorites[i].clone());
        }
        proof {
            assert(dv.take(i as int + 1) =~= dv.take(i as int).push(dv[i as int]));
            Seq::lemma_filter_push(dv.take(i as int), dv[i as int], p);
        }
        i += 1;
    }
    proof {
        assert(favorites.deep_view().take(favorites@.len() as int) =~= favorites.deep_view());
    }
    out
}

/// Whether the (user, camp) pair is already marked.
fn find_favorite(favorites: &Vec<UserCampJunction>, user_id: &String, camp_id: i64) -> (r: bool)
    ensures
        r == has_favorite(favorites.deep_view(), user_id@, camp_id),
{
    let mut i: usize = 0;
    while i < favorites.len()
        invariant
            i <= favorites@.len(),
            forall|j: int|
                0 <= j < i ==> !((#[trigger] favorites.deep_view()[j]).user_id == user_id@
                    && favorites.deep_view()[j].camp_id == camp_id),
        decreases favorites@.len() - i,
    {
        if favorites[i].user_id == *user_id && favorites[i].camp_id == camp_id {
            proof {
                assert((#[trigger] favorites.deep_view()[i as int]).user_id == user_id@
                    && favorites.deep_view()[i as int].camp_id == camp_id);
            }
            return true;
        }
        i += 1;
    }
    false
}

/// The favorite operations of the service: idempotent marking and
/// unmarking, and the two listings the user endpoints serve.
pub struct UserCampJunctionManager;

impl UserCampJunctionManager {
    /// List the favorite rows for (`utx`, `camp_id`): one row when the
    /// camp is marked, none otherwise. Never fails.
    pub fn query(store: &Store, utx: UserCtx, camp_id: i64) -> (res: Result<
        Vec<UserCampJunction>,
        Error,
    >)
        ensures
            res matches Ok(v) && v.deep_view() == favorites_matching(
                store@.favorites,
                utx@,
                camp_id,
            ),
    {
        let ghost p = |f: UserCampJunctionView| f.user_id == utx@ && f.camp_id == camp_id;
        let favorites = &store.favorites;
        let mut out: Vec<UserCampJunction> = Vec::new();
        let mut i: usize = 0;
        while i < favorites.len()
            invariant
                i <= favorites@.len(),
                out.deep_view() == favorites.deep_view().take(i as int).filter(p),
                store@.favorites == favorites.deep_view(),
                p == (|f: UserCampJunctionView| f.user_id == utx@ && f.camp_id == camp_id),
            decreases favorites@.len() - i,
        {
            let ghost dv = favorites.deep_view();
            if favorites[i].user_id == utx.user_id && favorites[i].camp_id == camp_id {
                push_fav(&mut out, favorites[i].clone());
            }
            proof {
                assert(dv.take(i as int + 1) =~= dv.take(i as int).push(dv[i as int]));
                Seq::lemma_filter_push(dv.take(i as int), dv[i as int], p);
            }
            i += 1;
        }
        proof {
            assert(favorites.deep_view().take(favorites@.len() as int) =~= favorites.deep_view());
        }
        Ok(out)
    }

    /// List every favorite row of one camp, in store order; kept for
    /// parity with the storage schema though no route serves it. Never
    /// fails.
    pub fn _qyery_by_camp_id(store: &Store, camp_id: i64) -> (res: Result<
        Vec<UserCampJunction>,
        Error,
    >)
        ensures
            res matches Ok(v) && v.deep_view() == favorites_for_camp(store@.favorites, camp_id),
    {
        let ghost p = |f: UserCampJunctionView| f.camp_id == camp_id;
        let favorites = &store.favorites;
        let mut out: Vec<UserCampJunction> = Vec::new();
        let mut i: usize = 0;
        while i < favorites.len()
            invariant
                i <= favorites@.len(),
                out.deep_view() == favorites.deep_view().take(i as int).filter(p),
                store@.favorites == favorites.deep_view(),
                p == (|f: UserCampJunctionView| f.camp_id == camp_id),
            decreases favorites@.len() - i,
        {
            let ghost dv = favorites.deep_view();
            if favorites[i].camp_id == camp_id {
                push_fav(&mut out, favorites[i].clone());
            }
            proof {
                assert(dv.take(i as int + 1) =~= dv.take(i as int).push(dv[i as int]));
                Seq::lemma_filter_push(dv.take(i as int), dv[i as int], p);
            }
            i += 1;
        }
        proof {
            assert(favorites.deep_view().take(favorites@.len() as int) =~= favorites.deep_view());
        }
        Ok(out)
    }

    /// List every camp the user with `user_id` has favorited, in store
    /// order. Never fails.
    pub fn qyery_by_user_id(store: &Store, user_id: String) -> (res: Result<
        Vec<UserCampJunction>,
        Error,
    >)
        ensures
            res matches Ok(v) && v.deep_view() == favorites_of_user(store@.favorites, user_id@),
    {
        let ghost p = |f: UserCampJunctionView| f.user_id == user_id@;
        let favorites = &store.favorites;
        let mut out: Vec<UserCampJunction> = Vec::new();
        let mut i: usize = 0;
        while i < favorites.len()
            invariant
                i <= favorites@.len(),
                out.deep_view() == favorites.deep_view().take(i as int).filter(p),
                store@.favorites == favorites.deep_view(),
                p == (|f: UserCampJunctionView| f.user_id == user_id@),
            decreases favorites@.len() - i,
        {
            let ghost dv = favorites.deep_view();
            if favorites[i].user_id == user_id {
                push_fav(&mut out, favorites[i].clone());
            }
            proof {
                assert(dv.take(i as int + 1) =~= dv.take(i as int).push(dv[i as int]));
                Seq::lemma_filter_push(dv.take(i as int), dv[i as int], p);
            }
            i += 1;
        }
        proof {
            assert(favorites.deep_view().take(favorites@.len() as int) =~= favorites.deep_view());
        }
        Ok(out)
    }

    /// Mark camp `camp_id` as a favorite of `utx`: a no-op when already
    /// marked (never two rows for one pair), one new row otherwise. Fails
    /// with `NotFound` exactly when no such camp exists.
    pub fn favorite(store: &mut Store, utx: UserCtx, camp_id: i64) -> (res: Result<(), Error>)
        requires
            old(store)@.wf(),
        ensures
            final(store)@.wf(),
            !has_camp(old(store)@.camps, camp_id) ==> (res matches Err(e) && e == Error::NotFound
                && final(store)@ == old(store)@),
            has_camp(old(store)@.camps, camp_id) ==> (res matches Ok(u) && u == ()
                && final(store)@ == spec_favorite(old(store)@, utx@, camp_id)),
    {
        if crate::camp::find_camp_index(&store.camps, camp_id).is_none() {
            return Err(Error::NotFound);
        }
        if !find_favorite(&store.favorites, &utx.user_id, camp_id) {
            let row = UserCampJunction { user_id: utx.user_id, camp_id: camp_id };
            push_fav(&mut store.favorites, row);
            proof {
                assert(store@ =~= spec_favorite(old(store)@, utx@, camp_id));
                lemma_favorite_wf(old(store)@, utx@, camp_id);
            }
        }
        Ok(())
    }

    /// Remove camp `camp_id` from `utx`'s favorites. Removing an absent
    /// favorite is a no-op, not an error; the operation never fails.
    pub fn unfavorite(store: &mut Store, utx: UserCtx, camp_id: i64) -> (res: Result<(), Error>)
        requires
            old(store)@.wf(),
        ensures
            final(store)@.wf(),
            final(store)@ == spec_unfavorite(old(store)@, utx@, camp_id),
            res matches Ok(u) && u == (),
    {
        let ghost p = |f: UserCampJunctionView| !(f.user_id == utx@ && f.camp_id == camp_id);
        let mut out: Vec<UserCampJunction> = Vec::new();
        let mut i: usize = 0;
        while i < store.favorites.len()
            invariant
                i <= store.favorites@.len(),
                out.deep_view() == store.favorites.deep_view().take(i as int).filter(p),
                store == old(store),
                p == (|f: UserCampJunctionView| !(f.user_id == utx@ && f.camp_id == camp_id)),
            decreases store.favorites@.len() - i,
        {
            let ghost dv = store.favorites.deep_view();
            if !(store.favorites[i].user_id == utx.user_id && store.favorites[i].camp_id
                == camp_id) {
                push_fav(&mut out, store.favorites[i].clone());
            }
            proof {
                assert(dv.take(i as int + 1) =~= dv.take(i as int).push(dv[i as int]));
                Seq::lemma_filter_push(dv.take(i as int), dv[i as int], p);
            }
            i += 1;
        }
        proof {
            assert(store.favorites.deep_view().take(store.favorites@.len() as int)
                =~= store.favorites.deep_view());
        }
        store.favorites = out;
        proof {
            assert(store@ =~= spec_unfavorite(old(store)@, utx@, camp_id));
            lemma_unfavorite_wf(old(store)@, utx@, camp_id);
        }
        Ok(())
    }
}

} // verus!
