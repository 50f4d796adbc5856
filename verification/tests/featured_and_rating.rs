use campground::auth::UserCtx;
use campground::camp::{CampManager, CampPatch};
use campground::camp_request::CampRequestManager;
use campground::rating::MeanRating;
use campground::review::{ReviewManager, ReviewPatch};
use campground::store::Store;

fn utx(id: &str) -> UserCtx {
    UserCtx { user_id: id.to_string() }
}

fn named_patch(name: &str) -> CampPatch {
    CampPatch {
        name: Some(name.to_string()),
        description: None,
        phone_number: None,
        street_address: None,
        city: None,
        state: None,
        country: None,
        zip_code: None,
        email: None,
        website: None,
        tags: None,
        apt_suite_other: None,
        image_urls: None,
    }
}

fn review_patch(rating: i32) -> ReviewPatch {
    ReviewPatch { body: "r".to_string(), rating, photos: None }
}

fn make_camp(store: &mut Store, name: &str) -> i64 {
    let m = utx("moderator");
    let q = CampRequestManager::new_request(store, &m, named_patch(name)).unwrap();
    CampManager::add_camp(store, m, q.id).unwrap().id
}

fn rate(store: &mut Store, camp_id: i64, author: &str, rating: i32) {
    ReviewManager::create(store, utx(author), review_patch(rating), camp_id, 0).unwrap();
}

#[test]
fn featured_sorts_by_rating_with_unrated_first() {
    let mut store = Store::new();
    let low = make_camp(&mut store, "Low");
    let unrated = make_camp(&mut store, "Unrated");
    let high = make_camp(&mut store, "High");
    rate(&mut store, low, "a", 2);
    rate(&mut store, high, "a", 4);

    let featured = CampManager::get_featured_camps(&store).unwrap();
    assert_eq!(featured.len(), 3);
    // descending order with the unrated camp first, as the storage layer's
    // descending sort places nulls
    assert_eq!(featured[0].id, unrated);
    assert_eq!(featured[1].id, high);
    assert_eq!(featured[2].id, low);
}

#[test]
fn featured_compares_means_exactly() {
    let mut store = Store::new();
    // mean 7/2 = 3.5 must sort above mean 10/3 = 3.33.., although both
    // round to the same whole number
    let c_half = make_camp(&mut store, "SevenHalves");
    let c_third = make_camp(&mut store, "TenThirds");
    rate(&mut store, c_half, "a", 3);
    rate(&mut store, c_half, "b", 4);
    rate(&mut store, c_third, "a", 3);
    rate(&mut store, c_third, "b", 3);
    rate(&mut store, c_third, "c", 4);

    let featured = CampManager::get_featured_camps(&store).unwrap();
    assert_eq!(featured.len(), 2);
    assert_eq!(featured[0].id, c_half);
    assert_eq!(featured[1].id, c_third);
}

#[test]
fn featured_cuts_after_ten_rows() {
    let mut store = Store::new();
    let mut best_id = 0;
    for k in 0..12 {
        let id = make_camp(&mut store, &format!("Camp {}", k));
        let author = format!("u{}", k);
        // ratings 1, 2, 3, 4, 5, 1, 2, 3, 4, 5, 1, 2 — the last 5 is k == 9
        let rating = (k % 5) as i32 + 1;
        rate(&mut store, id, &author, rating);
        if k == 4 {
            best_id = id;
        }
    }
    let featured = CampManager::get_featured_camps(&store).unwrap();
    assert_eq!(featured.len(), 10);
    assert_eq!(featured[0].rating.unwrap().sum, 5);
    assert!(featured[0].id == best_id || featured[0].rating.unwrap().is_exactly(5));
    // the two lowest-rated camps fall off the end: only ratings >= 2 survive
    for camp in &featured[..] {
        assert!(camp.rating.unwrap().sum >= 1);
    }
    let ones = featured.iter().filter(|c| c.rating.unwrap().is_exactly(1)).count();
    assert_eq!(ones, 1);
}

#[test]
fn mean_rating_exactness() {
    let half = MeanRating { sum: 7, count: 2 };
    assert!(!half.is_exactly(3));
    assert!(!half.is_exactly(4));
    let whole = MeanRating { sum: 12, count: 4 };
    assert!(whole.is_exactly(3));
    let negative = MeanRating { sum: -6, count: 3 };
    assert!(negative.is_exactly(-2));
    assert!(!negative.is_exactly(2));
}

#[test]
fn aggregating_no_ratings_yields_no_value() {
    // the empty review set never produces a number, so nothing NaN-like
    // can ever reach the rating column
    assert!(campground::rating::aggregate_ratings(&vec![]).is_none());
    let m = campground::rating::aggregate_ratings(&vec![4, 2]).unwrap();
    assert_eq!(m.sum, 6);
    assert_eq!(m.count, 2);
    assert!(m.is_exactly(3));
}

#[test]
fn default_review_is_empty() {
    let r = campground::review::Review::default();
    assert_eq!(r.id, 0);
    assert_eq!(r.author_id, "");
    assert_eq!(r.camp_id, 0);
    assert_eq!(r.ctime, 0);
    assert_eq!(r.body, "");
    assert_eq!(r.rating, 0);
}

#[test]
fn negative_ratings_average_exactly() {
    let mut store = Store::new();
    let camp_id = make_camp(&mut store, "Grim");
    rate(&mut store, camp_id, "a", -3);
    rate(&mut store, camp_id, "b", -5);
    let camp = CampManager::get_camp(&store, camp_id, utx("r")).unwrap();
    let mean = camp.rating.unwrap();
    assert_eq!(mean.sum, -8);
    assert_eq!(mean.count, 2);
    assert!(mean.is_exactly(-4));
}
