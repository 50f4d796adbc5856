use campground::auth::UserCtx;
use campground::camp::{CampManager, CampPatch};
use campground::camp_request::CampRequestManager;
use campground::errors::Error;
use campground::favorite::UserCampJunctionManager;
use campground::review::{ReviewManager, ReviewPatch};
use campground::store::Store;
use campground::user::{User, UserManager};

fn utx(id: &str) -> UserCtx {
    UserCtx { user_id: id.to_string() }
}

fn empty_patch() -> CampPatch {
    CampPatch {
        name: None,
        description: None,
        phone_number: None,
        street_address: None,
        city: None,
        state: None,
        country: None,
        zip_code: None,
        email: None,
        website: None,
        tags: None,
        apt_suite_other: None,
        image_urls: None,
    }
}

fn named_patch(name: &str) -> CampPatch {
    let mut p = empty_patch();
    p.name = Some(name.to_string());
    p
}

fn review_patch(body: &str, rating: i32) -> ReviewPatch {
    ReviewPatch { body: body.to_string(), rating, photos: None }
}

/// Submit a request and approve it, returning the new camp's id.
fn make_camp(store: &mut Store, name: &str) -> i64 {
    let moderator = utx("moderator");
    let q = CampRequestManager::new_request(store, &moderator, named_patch(name)).unwrap();
    let camp = CampManager::add_camp(store, moderator, q.id).unwrap();
    camp.id
}

#[test]
fn rating_follows_review_lifecycle() {
    let mut store = Store::new();
    let camp_id = make_camp(&mut store, "Pine Hollow");

    // a fresh camp has no rating at all
    let camp = CampManager::get_camp(&store, camp_id, utx("reader")).unwrap();
    assert!(camp.rating.is_none());

    // two reviews, ratings 4 and 2: the mean settles at exactly 3
    let r4 = ReviewManager::create(&mut store, utx("alice"), review_patch("great", 4), camp_id, 100)
        .unwrap();
    let r2 = ReviewManager::create(&mut store, utx("bob"), review_patch("meh", 2), camp_id, 200)
        .unwrap();
    let camp = CampManager::get_camp(&store, camp_id, utx("reader")).unwrap();
    let mean = camp.rating.expect("two reviews must yield a rating");
    assert_eq!(mean.sum, 6);
    assert_eq!(mean.count, 2);
    assert!(mean.is_exactly(3));
    assert!(!mean.is_exactly(4));

    // deleting the rating-2 review leaves a mean of exactly 4
    ReviewManager::delete(&mut store, &utx("moderator"), r2.id).unwrap();
    let camp = CampManager::get_camp(&store, camp_id, utx("reader")).unwrap();
    let mean = camp.rating.expect("one review must yield a rating");
    assert_eq!(mean.sum, 4);
    assert_eq!(mean.count, 1);
    assert!(mean.is_exactly(4));

    // deleting the last review reverts to the no-rating sentinel
    ReviewManager::delete(&mut store, &utx("moderator"), r4.id).unwrap();
    let camp = CampManager::get_camp(&store, camp_id, utx("reader")).unwrap();
    assert!(camp.rating.is_none());
}

#[test]
fn second_review_by_same_author_replaces_first() {
    let mut store = Store::new();
    let camp_id = make_camp(&mut store, "Cedar Flats");
    ReviewManager::create(&mut store, utx("alice"), review_patch("ok", 2), camp_id, 10).unwrap();
    ReviewManager::create(&mut store, utx("alice"), review_patch("better", 5), camp_id, 20)
        .unwrap();
    // only the second review stands, so the mean is exactly 5
    assert_eq!(store.reviews.len(), 1);
    assert_eq!(store.reviews[0].rating, 5);
    let camp = CampManager::get_camp(&store, camp_id, utx("reader")).unwrap();
    assert!(camp.rating.unwrap().is_exactly(5));
}

#[test]
fn interleaved_writers_settle_on_a_serialization() {
    // two callers writing reviews for one camp: whichever order the
    // storage layer serializes, the final rating is the mean over the
    // reviews that committed, never a stale or partial value
    let mut left = Store::new();
    let camp_l = make_camp(&mut left, "Twin Rocks");
    ReviewManager::create(&mut left, utx("alice"), review_patch("a", 5), camp_l, 1).unwrap();
    ReviewManager::create(&mut left, utx("bob"), review_patch("b", 1), camp_l, 2).unwrap();

    let mut right = Store::new();
    let camp_r = make_camp(&mut right, "Twin Rocks");
    ReviewManager::create(&mut right, utx("bob"), review_patch("b", 1), camp_r, 2).unwrap();
    ReviewManager::create(&mut right, utx("alice"), review_patch("a", 5), camp_r, 1).unwrap();

    let mean_l = CampManager::get_camp(&left, camp_l, utx("r")).unwrap().rating.unwrap();
    let mean_r = CampManager::get_camp(&right, camp_r, utx("r")).unwrap().rating.unwrap();
    assert!(mean_l.is_exactly(3));
    assert!(mean_r.is_exactly(3));
    assert_eq!(mean_l.sum, mean_r.sum);
    assert_eq!(mean_l.count, mean_r.count);
}

#[test]
fn review_for_missing_camp_is_not_found() {
    let mut store = Store::new();
    let res = ReviewManager::create(&mut store, utx("alice"), review_patch("x", 3), 42, 0);
    assert_eq!(res.unwrap_err(), Error::NotFound);
    assert!(store.reviews.is_empty());
}

#[test]
fn deleting_absent_review_is_a_no_op() {
    let mut store = Store::new();
    let camp_id = make_camp(&mut store, "Quiet Bend");
    let msg = ReviewManager::delete(&mut store, &utx("x"), 999).unwrap();
    assert_eq!(msg, "Review deleted successfully");
    assert_eq!(store.camps.len(), 1);
    assert_eq!(store.camps[0].id, camp_id);
}

#[test]
fn delete_all_camp_reviews_clears_rating() {
    let mut store = Store::new();
    let camp_id = make_camp(&mut store, "Falls End");
    ReviewManager::create(&mut store, utx("a"), review_patch("x", 5), camp_id, 1).unwrap();
    ReviewManager::create(&mut store, utx("b"), review_patch("y", 3), camp_id, 2).unwrap();
    ReviewManager::delete_all_camp_reviews(&mut store, utx("mod"), camp_id).unwrap();
    assert!(store.reviews.is_empty());
    let camp = CampManager::get_camp(&store, camp_id, utx("r")).unwrap();
    assert!(camp.rating.is_none());
}

#[test]
fn favorite_twice_leaves_one_row() {
    let mut store = Store::new();
    let camp_id = make_camp(&mut store, "Lakeside");
    UserCampJunctionManager::favorite(&mut store, utx("alice"), camp_id).unwrap();
    UserCampJunctionManager::favorite(&mut store, utx("alice"), camp_id).unwrap();
    assert_eq!(store.favorites.len(), 1);
    let rows = UserCampJunctionManager::query(&store, utx("alice"), camp_id).unwrap();
    assert_eq!(rows.len(), 1);
    assert_eq!(rows[0].user_id, "alice");
    assert_eq!(rows[0].camp_id, camp_id);
}

#[test]
fn unfavorite_absent_is_a_no_op_not_an_error() {
    let mut store = Store::new();
    let camp_id = make_camp(&mut store, "Dry Gulch");
    let res = UserCampJunctionManager::unfavorite(&mut store, utx("alice"), camp_id);
    assert!(res.is_ok());
    assert!(store.favorites.is_empty());
    // and removing a real favorite works and is itself idempotent
    UserCampJunctionManager::favorite(&mut store, utx("alice"), camp_id).unwrap();
    UserCampJunctionManager::unfavorite(&mut store, utx("alice"), camp_id).unwrap();
    assert!(store.favorites.is_empty());
    UserCampJunctionManager::unfavorite(&mut store, utx("alice"), camp_id).unwrap();
    assert!(store.favorites.is_empty());
}

#[test]
fn favorite_missing_camp_is_not_found() {
    let mut store = Store::new();
    let res = UserCampJunctionManager::favorite(&mut store, utx("alice"), 7);
    assert_eq!(res.unwrap_err(), Error::NotFound);
}

#[test]
fn favorites_listed_by_user() {
    let mut store = Store::new();
    let c1 = make_camp(&mut store, "One");
    let c2 = make_camp(&mut store, "Two");
    UserCampJunctionManager::favorite(&mut store, utx("alice"), c1).unwrap();
    UserCampJunctionManager::favorite(&mut store, utx("alice"), c2).unwrap();
    UserCampJunctionManager::favorite(&mut store, utx("bob"), c1).unwrap();
    let alices = UserCampJunctionManager::qyery_by_user_id(&store, "alice".to_string()).unwrap();
    assert_eq!(alices.len(), 2);
    assert_eq!(alices[0].camp_id, c1);
    assert_eq!(alices[1].camp_id, c2);
}

#[test]
fn deleting_camp_cascades_to_reviews_and_favorites() {
    let mut store = Store::new();
    let doomed = make_camp(&mut store, "Doomed");
    let spared = make_camp(&mut store, "Spared");
    ReviewManager::create(&mut store, utx("a"), review_patch("x", 4), doomed, 1).unwrap();
    ReviewManager::create(&mut store, utx("a"), review_patch("y", 2), spared, 2).unwrap();
    UserCampJunctionManager::favorite(&mut store, utx("a"), doomed).unwrap();
    UserCampJunctionManager::favorite(&mut store, utx("a"), spared).unwrap();

    let removed = CampManager::delete_camp(&mut store, doomed, utx("mod")).unwrap();
    assert_eq!(removed.id, doomed);
    assert_eq!(store.camps.len(), 1);
    assert_eq!(store.reviews.len(), 1);
    assert_eq!(store.favorites.len(), 1);
    assert_eq!(store.reviews[0].camp_id, spared);
    assert_eq!(store.favorites[0].camp_id, spared);
    // the spared camp's rating is untouched
    let camp = CampManager::get_camp(&store, spared, utx("r")).unwrap();
    assert!(camp.rating.unwrap().is_exactly(2));
    // deleting again reports the missing row
    let res = CampManager::delete_camp(&mut store, doomed, utx("mod"));
    assert_eq!(res.unwrap_err(), Error::NotFound);
}

#[test]
fn approval_copies_request_and_discards_it() {
    let mut store = Store::new();
    let mut p = named_patch("Granite Peak");
    p.city = Some("Boulder".to_string());
    p.tags = Some(vec!["hiking".to_string(), "climbing".to_string()]);
    let q = CampRequestManager::new_request(&mut store, &utx("sue"), p).unwrap();
    assert_eq!(q.name, "Granite Peak");
    assert_eq!(q.user_id, "sue");
    // unset fields are stored empty; the website column is always set
    assert_eq!(q.description, "");
    assert_eq!(q.website.as_deref(), Some(""));
    assert!(q.apt_suite_other.is_none());

    let camp = CampManager::add_camp(&mut store, utx("mod"), q.id).unwrap();
    assert_eq!(camp.name, "Granite Peak");
    assert_eq!(camp.city, "Boulder");
    assert_eq!(camp.tags.as_deref(), Some(&["hiking".to_string(), "climbing".to_string()][..]));
    assert!(camp.rating.is_none());
    // the approved request is discarded
    assert!(store.camp_requests.is_empty());
    let res = CampRequestManager::get_camp_request(&store, q.id);
    assert_eq!(res.unwrap_err(), Error::NotFound);
}

#[test]
fn approving_missing_request_is_not_found() {
    let mut store = Store::new();
    let res = CampManager::add_camp(&mut store, utx("mod"), 5);
    assert_eq!(res.unwrap_err(), Error::NotFound);
}

#[test]
fn request_listing_and_deletion() {
    let mut store = Store::new();
    let q1 = CampRequestManager::new_request(&mut store, &utx("a"), named_patch("A")).unwrap();
    let q2 = CampRequestManager::new_request(&mut store, &utx("b"), named_patch("B")).unwrap();
    assert_ne!(q1.id, q2.id);
    let all = CampRequestManager::get_camp_requests(&store, utx("mod")).unwrap();
    assert_eq!(all.len(), 2);
    CampRequestManager::delete_camp_request(&mut store, &utx("mod"), q1.id).unwrap();
    let all = CampRequestManager::get_camp_requests(&store, utx("mod")).unwrap();
    assert_eq!(all.len(), 1);
    assert_eq!(all[0].id, q2.id);
    // deleting an absent request is a no-op
    CampRequestManager::delete_camp_request(&mut store, &utx("mod"), q1.id).unwrap();
    assert_eq!(store.camp_requests.len(), 1);
}

#[test]
fn update_merges_patch_over_stored_fields() {
    let mut store = Store::new();
    let camp_id = make_camp(&mut store, "Old Name");
    ReviewManager::create(&mut store, utx("a"), review_patch("x", 4), camp_id, 1).unwrap();

    let mut p = empty_patch();
    p.name = Some("New Name".to_string());
    p.email = Some("camp@example.com".to_string());
    let updated = CampManager::update_camp(&mut store, camp_id, p, utx("mod")).unwrap();
    assert_eq!(updated.name, "New Name");
    assert_eq!(updated.email, "camp@example.com");
    // untouched fields keep their stored values; the rating survives
    assert_eq!(updated.id, camp_id);
    assert!(updated.rating.unwrap().is_exactly(4));
    let fetched = CampManager::get_camp(&store, camp_id, utx("r")).unwrap();
    assert_eq!(fetched.name, "New Name");

    let res = CampManager::update_camp(&mut store, 999, empty_patch(), utx("mod"));
    assert_eq!(res.unwrap_err(), Error::NotFound);
}

#[test]
fn users_are_keyed_by_provider_id() {
    let mut store = Store::new();
    let u = User {
        supabase_id: "sid-1".to_string(),
        first_name: "Ada".to_string(),
        last_name: "L.".to_string(),
        email: "ada@example.com".to_string(),
        username: "ada".to_string(),
    };
    let stored = UserManager::new_user(&mut store, u, utx("sid-1")).unwrap();
    assert_eq!(stored.supabase_id, "sid-1");

    let dup = User {
        supabase_id: "sid-1".to_string(),
        first_name: "Other".to_string(),
        last_name: "O.".to_string(),
        email: "o@example.com".to_string(),
        username: "other".to_string(),
    };
    let res = UserManager::new_user(&mut store, dup, utx("sid-1"));
    assert_eq!(res.unwrap_err(), Error::StorageFailure);
    assert_eq!(store.users.len(), 1);

    let fetched = UserManager::get_user(&store, utx("sid-1")).unwrap();
    assert_eq!(fetched.first_name, "Ada");
    assert_eq!(UserManager::get_user(&store, utx("sid-2")).unwrap_err(), Error::NotFound);

    UserManager::delete_user(&mut store, utx("sid-1")).unwrap();
    assert!(store.users.is_empty());
    // deleting an unknown user stays a no-op
    UserManager::delete_user(&mut store, utx("sid-1")).unwrap();
}

#[test]
fn user_reviews_listing() {
    let mut store = Store::new();
    let c1 = make_camp(&mut store, "One");
    let c2 = make_camp(&mut store, "Two");
    ReviewManager::create(&mut store, utx("alice"), review_patch("a", 5), c1, 1).unwrap();
    ReviewManager::create(&mut store, utx("alice"), review_patch("b", 3), c2, 2).unwrap();
    ReviewManager::create(&mut store, utx("bob"), review_patch("c", 1), c1, 3).unwrap();
    let alices = UserManager::get_user_reviews(&store, utx("alice")).unwrap();
    assert_eq!(alices.len(), 2);
    assert!(alices.iter().all(|r| r.author_id == "alice"));
}

#[test]
fn get_review_finds_the_single_row_per_pair() {
    let mut store = Store::new();
    let camp_id = make_camp(&mut store, "Solo");
    assert!(ReviewManager::get_review(&store, &utx("alice"), camp_id).unwrap().is_none());
    ReviewManager::create(&mut store, utx("alice"), review_patch("hi", 4), camp_id, 9).unwrap();
    let found = ReviewManager::get_review(&store, &utx("alice"), camp_id).unwrap().unwrap();
    assert_eq!(found.body, "hi");
    assert_eq!(found.ctime, 9);
}

#[test]
fn camp_review_join_skips_unknown_authors() {
    let mut store = Store::new();
    let camp_id = make_camp(&mut store, "Joined");
    let ada = User {
        supabase_id: "ada-id".to_string(),
        first_name: "Ada".to_string(),
        last_name: "Lovelace".to_string(),
        email: "ada@example.com".to_string(),
        username: "ada".to_string(),
    };
    UserManager::new_user(&mut store, ada, utx("ada-id")).unwrap();
    ReviewManager::create(&mut store, utx("ada-id"), review_patch("fine", 5), camp_id, 1).unwrap();
    ReviewManager::create(&mut store, utx("ghost"), review_patch("boo", 1), camp_id, 2).unwrap();

    let joined = ReviewManager::get_camp_reviews(&store, camp_id).unwrap();
    assert_eq!(joined.len(), 1);
    assert_eq!(joined[0].author_id, "ada-id");
    assert_eq!(joined[0].first_name, "Ada");
    assert_eq!(joined[0].username, "ada");

    // the plain per-camp listing still shows both rows
    let plain = CampManager::get_camp_reviews(&store, camp_id, utx("r")).unwrap();
    assert_eq!(plain.len(), 2);
}
