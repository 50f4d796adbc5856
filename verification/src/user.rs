//! Users mirrored from the external identity provider.

use vstd::prelude::*;

use crate::auth::UserCtx;
use crate::errors::Error;
use crate::review::reviews_by;
use crate::review::rows_by_author;
use crate::review::Review;
use crate::store::distinct_keys;
use crate::store::has_user;
use crate::store::lemma_filter_distinct;
use crate::store::user_index;
use crate::store::Store;
use crate::store::StoreView;

verus! {

/// A locally stored user row. The `supabase_id` is the stable identifier
/// assigned by the external identity provider; it is the key other records
/// reference and is never reassigned.
#[derive(Debug)]
pub struct User {
    pub supabase_id: String,
    pub first_name: String,
    pub last_name: String,
    pub email: String,
    pub username: String,
}

/// Mathematical image of a [`User`] row.
#[verifier::ext_equal]
pub ghost struct UserView {
    pub supabase_id: Seq<char>,
    pub first_name: Seq<char>,
    pub last_name: Seq<char>,
    pub email: Seq<char>,
    pub username: Seq<char>,
}

impl View for User {
    type V = UserView;

    open spec fn view(&self) -> UserView {
        UserView {
            supabase_id: self.supabase_id@,
            first_name: self.first_name@,
            last_name: self.last_name@,
            email: self.email@,
            username: self.username@,
        }
    }
}

impl DeepView for User {
    type V = UserView;

    open spec fn deep_view(&self) -> UserView {
        self.view()
    }
}

impl Clone for User {
    fn clone(&self) -> (res: Self)
        ensures
            res@ == self@,
    {
        User {
            supabase_id: self.supabase_id.clone(),
            first_name: self.first_name.clone(),
            last_name: self.last_name.clone(),
            email: self.email.clone(),
            username: self.username.clone(),
        }
    }
}

/// Find the position of the user with provider id `sid`, if any.
pub(crate) fn find_user_index(users: &Vec<User>, sid: &String) -> (r: Option<usize>)
    ensures
        match r {
            Some(i) => i < users@.len() && users.deep_view()[i as int].supabase_id == sid@,
            None => !crate::store::has_user(users.deep_view(), sid@),
        },
{
    let mut i: usize = 0;
    while i < users.len()
        invariant
            i <= users@.len(),
            forall|j: int| 0 <= j < i ==> (#[trigger] users.deep_view()[j]).supabase_id != sid@,
        decreases users@.len() - i,
    {
        if users[i].supabase_id == *sid {
            return Some(i);
        }
        i += 1;
    }
    None
}

/// The user rows that survive deleting the user with provider id `sid`.
pub open spec fn users_without(us: Seq<UserView>, sid: Seq<char>) -> Seq<UserView> {
    us.filter(|u: UserView| u.supabase_id != sid)
}

/// Mirroring a new identity: one new user row.
pub open spec fn spec_new_user(s: StoreView, u: UserView) -> StoreView {
    StoreView { users: s.users.push(u), ..s }
}

/// Deleting a user row; the user's reviews and favorites stay, keyed by
/// the provider id alone.
pub open spec fn spec_delete_user(s: StoreView, sid: Seq<char>) -> StoreView {
    StoreView { users: users_without(s.users, sid), ..s }
}

/// Mirroring an identity whose provider id is not yet present keeps the
/// store well formed.
pub proof fn lemma_new_user_wf(s: StoreView, u: UserView)
    requires
        s.wf(),
        !has_user(s.users, u.supabase_id),
    ensures
        spec_new_user(s, u).wf(),
{
    let t = spec_new_user(s, u);
    assert forall|i: int, j: int| 0 <= i < j < t.users.len() implies (
    #[trigger] t.users[i]).supabase_id != (#[trigger] t.users[j]).supabase_id by {
        if j < s.users.len() {
            assert(t.users[i] == s.users[i]);
            assert(t.users[j] == s.users[j]);
        } else {
            assert(t.users[i] == s.users[i]);
            assert(t.users[j] == u);
        }
    }
}

/// Deleting a user keeps the store well formed.
pub proof fn lemma_delete_user_wf(s: StoreView, sid: Seq<char>)
    requires
        s.wf(),
    ensures
        spec_delete_user(s, sid).wf(),
{
    let p = |u: UserView| u.supabase_id != sid;
    let pruned = s.users.filter(p);
    lemma_filter_distinct(s.users, p, |u: UserView| u.supabase_id);
    assert forall|i: int, j: int| 0 <= i < j < pruned.len() implies (
    #[trigger] pruned[i]).supabase_id != (#[trigger] pruned[j]).supabase_id by {
        let key = |u: UserView| u.supabase_id;
        assert(distinct_keys(pruned, key));
        assert(key(pruned[i]) != key(pruned[j]));
    }
}

/// Append a copy of `row`, with the effect stated on the deep view.
fn push_user(out: &mut Vec<User>, row: User)
    ensures
        final(out).deep_view() == old(out).deep_view().push(row@),
{
    let ghost prev = out@;
    let ghost pdv = out.deep_view();
    let ghost ev = row;
    out.push(row);
    proof {
        assert(out@ == prev.push(ev));
        assert forall|k: int| 0 <= k < out@.len() implies #[trigger] out.deep_view()[k] == pdv.push(
            ev@,
        )[k] by {
            if k < prev.len() {
                assert(out@[k] == prev[k]);
                assert(pdv[k] == prev[k].deep_view());
            } else {
                assert(out@[k] == ev);
            }
        }
        assert(out.deep_view() =~= pdv.push(ev@));
    }
}

/// The user operations of the service.
pub struct UserManager;

impl UserManager {
    /// Mirror a verified identity into local storage. Fails with
    /// `StorageFailure` exactly when a row with the same provider id
    /// already exists (the storage layer's unique key would refuse it);
    /// otherwise the stored row is returned.
    pub fn new_user(store: &mut Store, data: User, _utx: UserCtx) -> (res: Result<User, Error>)
        requires
            old(store)@.wf(),
        ensures
            final(store)@.wf(),
            has_user(old(store)@.users, data@.supabase_id) ==> (res matches Err(e) && e
                == Error::StorageFailure && final(store)@ == old(store)@),
            !has_user(old(store)@.users, data@.supabase_id) ==> (res matches Ok(u) && u@ == data@
                && final(store)@ == spec_new_user(old(store)@, data@)),
    {
        if find_user_index(&store.users, &data.supabase_id).is_some() {
            return Err(Error::StorageFailure);
        }
        let stored = data.clone();
        push_user(&mut store.users, data);
        proof {
            assert(store@ =~= spec_new_user(old(store)@, stored@));
            lemma_new_user_wf(old(store)@, stored@);
        }
        Ok(stored)
    }

    /// Fetch the user row of the verified identity. Fails with `NotFound`
    /// exactly when the identity has never been mirrored.
    pub fn get_user(store: &Store, utx: UserCtx) -> (res: Result<User, Error>)
        requires
            store@.wf(),
        ensures
            has_user(store@.users, utx@) ==> (res matches Ok(u) && u@ == store@.users[user_index(
                store@.users,
                utx@,
            )]),
            !has_user(store@.users, utx@) ==> (res matches Err(e) && e == Error::NotFound),
    {
        match find_user_index(&store.users, &utx.user_id) {
            Some(i) => {
                let found = store.users[i].clone();
                proof {
                    let k = user_index(store@.users, utx@);
                    if k != i {
                        assert(store@.users[k].supabase_id != store@.users[i as int].supabase_id);
                    }
                }
                Ok(found)
            },
            None => Err(Error::NotFound),
        }
    }

    /// Delete the verified identity's user row; deleting an identity that
    /// was never mirrored is a no-op. Never fails.
    pub fn delete_user(store: &mut Store, utx: UserCtx) -> (res: Result<(), Error>)
        requires
            old(store)@.wf(),
        ensures
            final(store)@.wf(),
            final(store)@ == spec_delete_user(old(store)@, utx@),
            res matches Ok(u) && u == (),
    {
        let ghost p = |u: UserView| u.supabase_id != utx@;
        let mut out: Vec<User> = Vec::new();
        let mut i: usize = 0;
        while i < store.users.len()
            invariant
                i <= store.users@.len(),
                out.deep_view() == store.users.deep_view().take(i as int).filter(p),
                store == old(store),
                p == (|u: UserView| u.supabase_id != utx@),
            decreases store.users@.len() - i,
        {
            let ghost dv = store.users.deep_view();
            if !(store.users[i].supabase_id == utx.user_id) {
                push_user(&mut out, store.users[i].clone());
            }
            proof {
                assert(dv.take(i as int + 1) =~= dv.take(i as int).push(dv[i as int]));
                Seq::lemma_filter_push(dv.take(i as int), dv[i as int], p);
            }
            i += 1;
        }
        proof {
            assert(store.users.deep_view().take(store.users@.len() as int) =~= store.users.deep_view());
        }
        store.users = out;
        proof {
            assert(store@ =~= spec_delete_user(old(store)@, utx@));
            lemma_delete_user_wf(old(store)@, utx@);
        }
        Ok(())
    }

    /// List every review the verified identity has written, in store
    /// order. Never fails.
    pub fn get_user_reviews(store: &Store, utx: UserCtx) -> (res: Result<Vec<Review>, Error>)
        ensures
            res matches Ok(v) && v.deep_view() == reviews_by(store@.reviews, utx@),
    {
        Ok(rows_by_author(&store.reviews, &utx.user_id))
    }
}

} // verus!
