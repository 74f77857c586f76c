use openfairdb::entities::{
    Activity, BboxSubscription, Comment, Event, Location, Organization, Place, Rating,
    RatingContext, RatingValue, ReviewStatus, Role, Tag, TagFrequency, User,
};
use openfairdb::error::{Error, ErrorKind, ParameterError, RepoError};
use openfairdb::geo::{LatCoord, LngCoord, MapBbox, MapPoint};
use openfairdb::nonce::{EmailNonce, Nonce, UserToken};
use openfairdb::store::Store;
use openfairdb::store_history::{Pagination, RecentlyChangedEntriesParams};
use openfairdb::store_tags::MostPopularTagsParams;

fn strings(list: &[&str]) -> Vec<String> {
    list.iter().map(|s| s.to_string()).collect()
}

fn place(uid: &str, rev: u64, title: &str, tags: &[&str], at: i64) -> Place {
    Place {
        uid: uid.into(),
        license: "CC0-1.0".into(),
        rev,
        created: Activity { at, by: None },
        title: title.into(),
        description: "description".into(),
        location: Location { pos: MapPoint::try_from_raw(10, 20).unwrap(), address: None },
        contact: None,
        homepage: None,
        image_url: None,
        image_link_url: None,
        tags: strings(tags),
    }
}

fn rating(uid: &str, place_uid: &str, at: i64) -> Rating {
    Rating {
        uid: uid.into(),
        place_uid: place_uid.into(),
        created_at: at,
        archived_at: None,
        title: "title".into(),
        value: RatingValue::new(1),
        context: RatingContext::Fairness,
        source: None,
    }
}

fn comment(uid: &str, rating_uid: &str, at: i64) -> Comment {
    Comment { uid: uid.into(), rating_uid: rating_uid.into(), created_at: at, archived_at: None, text: "text".into() }
}

fn user(email: &str, role: Role) -> User {
    User { email: email.into(), email_confirmed: true, password: "secret".into(), role }
}

fn everything() -> (RecentlyChangedEntriesParams, Pagination) {
    (
        RecentlyChangedEntriesParams { since: None, until: None },
        Pagination { offset: None, limit: None },
    )
}

#[test]
fn place_is_created_updated_and_archived() {
    let mut db = Store::new();
    // Create
    let mut first = place("P", 0, "Foo", &["t1"], 100);
    first.location.pos = MapPoint::new(
        LatCoord::from_raw((50.0f64 * 8_388_608.0 / 90.0).round() as i32),
        LngCoord::from_raw((8.0f64 * 8_388_608.0 / 180.0).round() as i32),
    );
    db.create_or_update_place(first.clone(), None).unwrap();
    let current = db.get_place("P").unwrap();
    assert_eq!(current.place.rev, 0);
    assert_eq!(current.status, ReviewStatus::Created);
    assert_eq!(current.place, first);
    // Update
    let mut second = first.clone();
    second.rev = 1;
    second.title = "Bar".into();
    second.created.at = 200;
    db.create_or_update_place(second.clone(), None).unwrap();
    let current = db.get_place("P").unwrap();
    assert_eq!(current.place.rev, 1);
    assert_eq!(current.place.title, "Bar");
    assert_eq!(db.get_places(&["P"]).len(), 1);
    assert_eq!(db.places.len(), 1);
    assert_eq!(db.places[0].current_rev, 1);
    assert_eq!(db.places[0].revisions.len(), 2);
    // Archive
    let archived = db.archive_places(&["P"], &Activity { at: 300, by: Some("scout@foo.tld".into()) });
    assert_eq!(archived, Ok(1));
    assert!(db.get_places(&["P"]).is_empty());
    assert_eq!(db.get_place("P"), Err(RepoError::NotFound));
    // History: archived, created revision 1, created revision 0
    let (params, pagination) = everything();
    let changes = db.recently_changed_places(&params, &Pagination { offset: Some(0), limit: Some(10) });
    assert_eq!(changes.len(), 3);
    assert_eq!((changes[0].status, changes[0].place.rev), (ReviewStatus::Archived, 1));
    assert_eq!((changes[1].status, changes[1].place.rev), (ReviewStatus::Created, 1));
    assert_eq!((changes[2].status, changes[2].place.rev), (ReviewStatus::Created, 0));
    assert_eq!(changes[0].place.created, Activity { at: 300, by: Some("scout@foo.tld".into()) });
    assert_eq!(changes[0].place.title, "Bar");
    assert_eq!(changes[1].place.created.at, 200);
    assert_eq!(changes[2].place.created.at, 100);
    assert_eq!(changes[2].place.title, "Foo");
    assert_eq!(db.recently_changed_places(&params, &pagination).len(), 3);
    // The status log holds one entry for each change.
    assert_eq!(db.status_log.len(), 3);
    assert_eq!(db.status_log[0].note.as_deref(), Some("created"));
    assert_eq!(db.status_log[2].note.as_deref(), Some("archived"));
    assert_eq!(db.status_log[2].status, ReviewStatus::Archived);
    assert_eq!((db.status_log[2].place_uid.as_str(), db.status_log[2].rev), ("P", 1));
}

#[test]
fn revisions_are_numbered_without_gaps() {
    let mut db = Store::new();
    db.create_or_update_place(place("a", 0, "a0", &[], 1), None).unwrap();
    db.create_or_update_place(place("b", 0, "b0", &[], 2), None).unwrap();
    for rev in 1..5 {
        db.create_or_update_place(place("a", rev, "a", &[], 10 + rev as i64), None).unwrap();
        // Every place has exactly one current revision.
        for record in &db.places {
            assert_eq!(record.revisions.len() as u64, record.current_rev + 1);
            for (k, revision) in record.revisions.iter().enumerate() {
                assert_eq!(revision.place.rev, k as u64);
                assert_eq!(revision.place.uid, record.uid);
            }
            let current = record
                .revisions
                .iter()
                .filter(|r| r.place.rev == record.current_rev)
                .count();
            assert_eq!(current, 1);
        }
    }
    assert_eq!(db.places[0].current_rev, 4);
    assert_eq!(db.places[1].current_rev, 0);
    assert_eq!(db.count_places(), 2);
    assert_eq!(db.all_places().len(), 2);
}

#[test]
fn revision_that_does_not_follow_is_refused() {
    let mut db = Store::new();
    assert_eq!(
        db.create_or_update_place(place("a", 1, "a", &[], 1), None),
        Err(Error::Repo(RepoError::NotFound))
    );
    db.create_or_update_place(place("a", 0, "a", &[], 1), None).unwrap();
    let before = db.places.len();
    assert_eq!(
        db.create_or_update_place(place("a", 0, "again", &[], 2), None),
        Err(Error::Repo(RepoError::Conflict))
    );
    assert_eq!(
        db.create_or_update_place(place("a", 2, "too far", &[], 2), None),
        Err(Error::Repo(RepoError::Conflict))
    );
    let mut other_license = place("a", 1, "a", &[], 2);
    other_license.license = "ODbL-1.0".into();
    assert_eq!(
        db.create_or_update_place(other_license, None),
        Err(Error::Parameter(ParameterError::License))
    );
    let mut no_title = place("a", 1, " ", &[], 2);
    no_title.title = " ".into();
    assert_eq!(
        db.create_or_update_place(no_title, None),
        Err(Error::Parameter(ParameterError::Title))
    );
    let mut bad_license = place("c", 0, "c", &[], 2);
    bad_license.license = "none".into();
    assert_eq!(
        db.create_or_update_place(bad_license, None),
        Err(Error::Parameter(ParameterError::License))
    );
    let mut bad_pos = place("c", 0, "c", &[], 2);
    bad_pos.location.pos = MapPoint::new(LatCoord { raw: 9_000_000 }, LngCoord { raw: 0 });
    assert_eq!(
        db.create_or_update_place(bad_pos, None),
        Err(Error::Parameter(ParameterError::InvalidPosition))
    );
    let mut bad_url = place("c", 0, "c", &[], 2);
    bad_url.homepage = Some("no url".into());
    assert_eq!(
        db.create_or_update_place(bad_url, None),
        Err(Error::Parameter(ParameterError::InvalidUrl))
    );
    assert_eq!(db.places.len(), before);
    assert_eq!(db.places[0].revisions.len(), 1);
    assert_eq!(db.status_log.len(), 1);
}

#[test]
fn revision_can_be_stored_as_archived() {
    let mut db = Store::new();
    db.create_or_update_place(place("a", 0, "a", &[], 1), Some(7)).unwrap();
    assert_eq!(db.places[0].revisions[0].status, ReviewStatus::Archived);
    assert_eq!(db.status_log[0].status, ReviewStatus::Archived);
    assert_eq!(db.status_log[0].activity.at, 7);
    assert_eq!(db.status_log[0].note.as_deref(), Some("archived"));
    assert_eq!(db.get_place("a"), Err(RepoError::NotFound));
}

#[test]
fn archiving_places_passes_over_archived_ones() {
    let mut db = Store::new();
    for uid in ["a", "b", "c"] {
        db.create_or_update_place(place(uid, 0, uid, &[], 1), None).unwrap();
    }
    let by = Activity { at: 5, by: None };
    assert_eq!(db.archive_places(&["a", "c"], &by), Ok(2));
    assert_eq!(db.count_places_to_archive(&["a", "b"]), 1);
    assert_eq!(db.archive_places(&["a", "b"], &by), Ok(1));
    assert_eq!(db.status_log.len(), 6);
    assert_eq!(db.archive_places(&["a", "nowhere"], &by), Err(RepoError::NotFound));
    assert_eq!(db.status_log.len(), 6);
    assert!(!db.knows_all_places(&["nowhere"]));
    assert!(db.knows_all_places(&["a", "b", "c"]));
    assert_eq!(db.get_places(&["a", "b", "c"]).len(), 0);
}

#[test]
fn changes_are_listed_by_time_and_then_by_order() {
    let mut db = Store::new();
    db.create_or_update_place(place("a", 0, "a", &[], 10), None).unwrap();
    db.create_or_update_place(place("b", 0, "b", &[], 30), None).unwrap();
    db.create_or_update_place(place("c", 0, "c", &[], 10), None).unwrap();
    db.create_or_update_place(place("d", 0, "d", &[], 20), None).unwrap();
    let uids = |params: RecentlyChangedEntriesParams, pagination: Pagination| -> Vec<String> {
        db.recently_changed_places(&params, &pagination)
            .into_iter()
            .map(|r| r.place.uid)
            .collect()
    };
    let (all, page) = everything();
    assert_eq!(uids(all, page), strings(&["b", "d", "a", "c"]));
    // From `since` on, and before `until`
    let window = RecentlyChangedEntriesParams { since: Some(10), until: Some(30) };
    assert_eq!(uids(window, page), strings(&["d", "a", "c"]));
    let window = RecentlyChangedEntriesParams { since: Some(11), until: None };
    assert_eq!(uids(window, page), strings(&["b", "d"]));
    let window = RecentlyChangedEntriesParams { since: None, until: Some(10) };
    assert_eq!(uids(window, page), strings(&[]));
    // Pages
    assert_eq!(uids(all, Pagination { offset: Some(1), limit: Some(2) }), strings(&["d", "a"]));
    assert_eq!(uids(all, Pagination { offset: Some(3), limit: None }), strings(&["c"]));
    assert_eq!(uids(all, Pagination { offset: Some(4), limit: Some(1) }), strings(&[]));
    assert_eq!(uids(all, Pagination { offset: Some(9), limit: None }), strings(&[]));
    assert_eq!(uids(all, Pagination { offset: None, limit: Some(0) }), strings(&[]));
}

#[test]
fn tags_are_ranked_by_their_use() {
    let mut db = Store::new();
    db.create_or_update_place(place("a", 0, "a", &["x", "y", "z"], 1), None).unwrap();
    db.create_or_update_place(place("b", 0, "b", &["y", "z"], 1), None).unwrap();
    db.create_or_update_place(place("c", 0, "c", &["z", "w"], 1), None).unwrap();
    db.create_or_update_place(place("d", 0, "d", &["gone", "z"], 1), None).unwrap();
    db.archive_places(&["d"], &Activity { at: 2, by: None }).unwrap();
    // An older revision does not count.
    db.create_or_update_place(place("c", 1, "c", &["z", "v"], 3), None).unwrap();
    let frequencies = |min: Option<u64>, max: Option<u64>, offset: Option<u64>, limit: Option<u64>| {
        db.most_popular_place_tags(
            &MostPopularTagsParams { min_count: min, max_count: max },
            &Pagination { offset, limit },
        )
        .into_iter()
        .map(|f| (f.tag, f.count))
        .collect::<Vec<_>>()
    };
    let expected = |list: &[(&str, u64)]| -> Vec<(String, u64)> {
        list.iter().map(|(t, c)| (t.to_string(), *c)).collect()
    };
    assert_eq!(
        frequencies(None, None, None, None),
        expected(&[("z", 3), ("y", 2), ("v", 1), ("x", 1)])
    );
    assert_eq!(frequencies(Some(2), None, None, None), expected(&[("z", 3), ("y", 2)]));
    assert_eq!(frequencies(None, Some(2), None, None), expected(&[("y", 2), ("v", 1), ("x", 1)]));
    assert_eq!(frequencies(Some(2), Some(2), None, None), expected(&[("y", 2)]));
    assert_eq!(frequencies(None, None, Some(1), Some(2)), expected(&[("y", 2), ("v", 1)]));
    assert_eq!(frequencies(None, None, Some(4), None), expected(&[]));
    assert_eq!(db.count_tag_uses("z"), 3);
    assert_eq!(db.count_tag_uses("gone"), 0);
    assert_eq!(db.all_used_tags(), strings(&["x", "y", "z", "v"]));
    let _ = TagFrequency { tag: "t".into(), count: 1 };
}

#[test]
fn ratings_and_comments_are_stored_and_loaded() {
    let mut db = Store::new();
    assert_eq!(db.create_rating(rating("r", "nowhere", 1)), Err(RepoError::NotFound));
    db.create_or_update_place(place("p", 0, "p", &[], 1), None).unwrap();
    db.create_rating(rating("r1", "p", 1)).unwrap();
    db.create_rating(rating("r2", "p", 2)).unwrap();
    let again = db.create_rating(rating("r1", "p", 3)).unwrap_err();
    assert_eq!(again.kind(), ErrorKind::Other);
    assert_eq!(db.create_comment(comment("c", "nothing", 1)), Err(RepoError::NotFound));
    db.create_comment(comment("c1", "r1", 1)).unwrap();
    db.create_comment(comment("c2", "r1", 2)).unwrap();
    assert_eq!(db.create_comment(comment("c1", "r2", 3)).unwrap_err().kind(), ErrorKind::Other);
    assert_eq!(db.load_rating("r1").unwrap(), rating("r1", "p", 1));
    assert_eq!(db.load_rating("r9"), Err(RepoError::NotFound));
    assert_eq!(db.load_ratings(&["r2", "r1", "r9"]).len(), 2);
    assert_eq!(db.load_ratings_of_place("p").len(), 2);
    assert_eq!(db.load_ratings_of_place("q").len(), 0);
    assert_eq!(db.load_place_uids_of_ratings(&["r1"]), strings(&["p"]));
    assert_eq!(db.load_comment("c2").unwrap(), comment("c2", "r1", 2));
    assert_eq!(db.load_comments(&["c1", "c2"]).len(), 2);
    assert_eq!(db.load_comments_of_rating("r1").len(), 2);
    assert_eq!(db.load_comments_of_rating("r2").len(), 0);
}

#[test]
fn archived_rating_takes_its_comments_with_it() {
    let mut db = Store::new();
    db.create_or_update_place(place("p", 0, "p", &[], 1), None).unwrap();
    db.create_rating(rating("r1", "p", 1)).unwrap();
    db.create_rating(rating("r2", "p", 1)).unwrap();
    db.create_comment(comment("c1", "r1", 2)).unwrap();
    db.create_comment(comment("c2", "r1", 3)).unwrap();
    db.create_comment(comment("c3", "r2", 3)).unwrap();
    // A comment that was archived on its own keeps its time.
    assert_eq!(db.archive_comments(&["c2"], 10), Ok(1));
    assert_eq!(db.archive_comments(&["c2"], 11), Err(RepoError::NotFound));
    assert_eq!(db.archive_ratings(&["r1"], 20), Ok(1));
    assert_eq!(db.ratings[0].archived_at, Some(20));
    assert_eq!(db.ratings[1].archived_at, None);
    assert_eq!(db.comments[0].archived_at, Some(20));
    assert_eq!(db.comments[1].archived_at, Some(10));
    assert_eq!(db.comments[2].archived_at, None);
    for r in &db.ratings {
        if r.archived_at.is_some() {
            for c in db.comments.iter().filter(|c| c.rating_uid == r.uid) {
                assert!(c.archived_at.is_some());
            }
        }
    }
    // Archiving again fails and changes nothing.
    assert_eq!(db.archive_ratings(&["r1", "r2"], 30), Err(RepoError::NotFound));
    assert_eq!(db.ratings[1].archived_at, None);
    assert_eq!(db.archive_ratings(&["r2", "r2"], 30), Err(RepoError::NotFound));
    assert_eq!(db.load_rating("r1"), Err(RepoError::NotFound));
    assert_eq!(db.load_comment("c1"), Err(RepoError::NotFound));
    // No comment can be added to an archived rating.
    assert_eq!(db.create_comment(comment("c4", "r1", 40)), Err(RepoError::NotFound));
    assert_eq!(db.archive_comments_of_ratings(&["r2"], 50), 1);
    assert_eq!(db.comments[2].archived_at, Some(50));
}

#[test]
fn archived_place_takes_ratings_and_comments_with_it() {
    let mut db = Store::new();
    db.create_or_update_place(place("p", 0, "p", &[], 1), None).unwrap();
    db.create_or_update_place(place("q", 0, "q", &[], 1), None).unwrap();
    db.create_rating(rating("r1", "p", 1)).unwrap();
    db.create_rating(rating("r2", "p", 1)).unwrap();
    db.create_rating(rating("r3", "q", 1)).unwrap();
    db.create_comment(comment("c1", "r1", 2)).unwrap();
    db.create_comment(comment("c2", "r2", 2)).unwrap();
    db.create_comment(comment("c3", "r3", 2)).unwrap();
    assert_eq!(db.archive_ratings_of_places(&["p"], 77), 2);
    assert_eq!(
        db.ratings.iter().map(|r| r.archived_at).collect::<Vec<_>>(),
        vec![Some(77), Some(77), None]
    );
    assert_eq!(
        db.comments.iter().map(|c| c.archived_at).collect::<Vec<_>>(),
        vec![Some(77), Some(77), None]
    );
    assert_eq!(db.archive_comments_of_places(&["q"], 88), 1);
    assert_eq!(db.comments[2].archived_at, Some(88));
    assert_eq!(db.archive_ratings_of_places(&["p", "q"], 99), 1);
    assert_eq!(db.ratings[2].archived_at, Some(99));
    assert_eq!(db.ratings[0].archived_at, Some(77));
}

#[test]
fn users_are_stored_by_their_address() {
    let mut db = Store::new();
    db.create_user(&user("a@x.org", Role::User)).unwrap();
    db.create_user(&user("b@x.org", Role::Admin)).unwrap();
    assert_eq!(db.create_user(&user("a@x.org", Role::Admin)).unwrap_err().kind(), ErrorKind::Other);
    assert_eq!(db.count_users(), 2);
    assert_eq!(db.get_user_by_email("a@x.org").unwrap().role, Role::User);
    assert_eq!(db.get_user_by_email("c@x.org"), Err(RepoError::NotFound));
    assert_eq!(db.try_get_user_by_email("c@x.org"), None);
    let mut changed = user("a@x.org", Role::Scout);
    changed.password = "new".into();
    db.update_user(&changed).unwrap();
    assert_eq!(db.try_get_user_by_email("a@x.org"), Some(changed));
    db.update_user(&user("nobody@x.org", Role::Admin)).unwrap();
    assert_eq!(db.all_users().len(), 2);
    db.delete_user_by_email("a@x.org").unwrap();
    assert_eq!(db.all_users(), vec![user("b@x.org", Role::Admin)]);
    db.delete_user_by_email("a@x.org").unwrap();
    assert_eq!(db.count_users(), 1);
}

fn token(email: &str, nonce: u128, expires_at: i64) -> UserToken {
    UserToken { email_nonce: EmailNonce { email: email.into(), nonce: Nonce::from_u128(nonce) }, expires_at }
}

#[test]
fn user_has_one_token_at_most() {
    let mut db = Store::new();
    assert_eq!(db.replace_user_token(token("a@x.org", 1, 10)), Err(RepoError::NotFound));
    db.create_user(&user("a@x.org", Role::User)).unwrap();
    db.create_user(&user("b@x.org", Role::User)).unwrap();
    let issued = db.replace_user_token(token("a@x.org", 1, 10)).unwrap();
    assert_eq!(issued, EmailNonce { email: "a@x.org".into(), nonce: Nonce::from_u128(1) });
    db.replace_user_token(token("b@x.org", 2, 20)).unwrap();
    // The same token again: nothing changes.
    db.replace_user_token(token("b@x.org", 2, 20)).unwrap();
    let once = db.tokens.clone();
    db.replace_user_token(token("b@x.org", 2, 20)).unwrap();
    assert_eq!(db.tokens, once);
    assert_eq!(db.tokens.iter().filter(|t| **t == token("b@x.org", 2, 20)).count(), 1);
    assert_eq!(db.tokens.len(), 2);
    // Another token takes the place of the old one.
    db.replace_user_token(token("a@x.org", 3, 30)).unwrap();
    assert_eq!(db.tokens.len(), 2);
    assert_eq!(db.get_user_token_by_email("a@x.org").unwrap(), token("a@x.org", 3, 30));
    assert_eq!(db.get_user_token_by_email("c@x.org"), Err(RepoError::NotFound));
}

#[test]
fn token_is_used_up_once() {
    let mut db = Store::new();
    db.create_user(&user("u@x.org", Role::User)).unwrap();
    let issued = db.replace_user_token(token("u@x.org", 42, 10)).unwrap();
    let other = EmailNonce { email: "u@x.org".into(), nonce: Nonce::from_u128(43) };
    assert_eq!(db.consume_user_token(&other), Err(RepoError::NotFound));
    assert_eq!(db.tokens.len(), 1);
    assert_eq!(db.consume_user_token(&issued), Ok(token("u@x.org", 42, 10)));
    assert_eq!(db.consume_user_token(&issued), Err(RepoError::NotFound));
    assert!(db.tokens.is_empty());
}

#[test]
fn expired_tokens_are_discarded() {
    let mut db = Store::new();
    for (i, email) in ["a@x.org", "b@x.org", "c@x.org"].iter().enumerate() {
        db.create_user(&user(email, Role::User)).unwrap();
        db.replace_user_token(token(email, i as u128, 10 * (i as i64 + 1))).unwrap();
    }
    assert_eq!(db.discard_expired_user_tokens(10), 0);
    assert_eq!(db.discard_expired_user_tokens(21), 2);
    assert_eq!(db.tokens, vec![token("c@x.org", 2, 30)]);
}

#[test]
fn organizations_own_tags() {
    let mut db = Store::new();
    let org = |id: &str, token: &str, tags: &[&str]| Organization {
        id: id.into(),
        name: id.to_uppercase(),
        api_token: token.into(),
        owned_tags: strings(tags),
    };
    db.create_org(org("a", "ta", &["x", "y"])).unwrap();
    db.create_org(org("b", "tb", &["y", "z", "x"])).unwrap();
    assert_eq!(db.create_org(org("a", "tc", &[])).unwrap_err().kind(), ErrorKind::Other);
    assert_eq!(db.get_org_by_api_token("tb").unwrap().id, "b");
    assert_eq!(db.get_org_by_api_token("tc"), Err(RepoError::NotFound));
    assert_eq!(db.get_all_tags_owned_by_orgs(), strings(&["x", "y", "z"]));
}

#[test]
fn tags_are_stored_once() {
    let mut db = Store::new();
    for tag in ["a", "b", "a", ""] {
        db.create_tag_if_it_does_not_exist(&Tag { id: tag.into() }).unwrap();
    }
    assert_eq!(db.count_tags(), 2);
    assert_eq!(db.all_tags(), vec![Tag { id: "a".into() }, Tag { id: "b".into() }]);
}

#[test]
fn subscriptions_are_found_by_position() {
    let mut db = Store::new();
    let bbox = |south: i32, west: i32, north: i32, east: i32| {
        MapBbox::new(
            MapPoint::try_from_raw(south, west).unwrap(),
            MapPoint::try_from_raw(north, east).unwrap(),
        )
    };
    let sub = |uid: &str, email: &str, bbox: MapBbox| BboxSubscription {
        uid: uid.into(),
        user_email: email.into(),
        bbox,
    };
    assert_eq!(
        db.create_bbox_subscription(&sub("s", "a@x.org", bbox(0, 0, 1, 1))),
        Err(RepoError::NotFound)
    );
    db.create_user(&user("a@x.org", Role::User)).unwrap();
    db.create_user(&user("b@x.org", Role::User)).unwrap();
    db.create_bbox_subscription(&sub("s1", "a@x.org", bbox(0, 0, 10, 10))).unwrap();
    db.create_bbox_subscription(&sub("s2", "b@x.org", bbox(5, 5, 20, 20))).unwrap();
    db.create_bbox_subscription(&sub("s3", "a@x.org", bbox(0, 100, 10, -100))).unwrap();
    assert_eq!(db.all_bbox_subscriptions().len(), 3);
    assert_eq!(db.all_bbox_subscriptions_by_email("a@x.org").len(), 2);
    let at = |lat: i32, lng: i32| db.email_addresses_by_coordinate(MapPoint::try_from_raw(lat, lng).unwrap());
    assert_eq!(at(7, 7), strings(&["a@x.org", "b@x.org"]));
    assert_eq!(at(1, 1), strings(&["a@x.org"]));
    assert_eq!(at(1, 200), strings(&["a@x.org"]));
    assert_eq!(at(50, 50), strings(&[]));
    db.delete_bbox_subscriptions_by_email("a@x.org").unwrap();
    assert_eq!(db.all_bbox_subscriptions().len(), 1);
    assert_eq!(db.all_bbox_subscriptions()[0].uid, "s2");
}

fn event(uid: &str, start: i64) -> Event {
    Event {
        uid: uid.into(),
        title: "x".into(),
        description: None,
        start,
        end: None,
        location: None,
        contact: None,
        tags: strings(&["bla"]),
        homepage: None,
        created_by: None,
        registration: None,
        organizer: None,
        archived: None,
        image_url: None,
        image_link_url: None,
    }
}

#[test]
fn events_are_stored_and_archived() {
    let mut db = Store::new();
    for (uid, start) in [("1234", 100), ("5678", 200), ("0000", 50)] {
        db.create_event(event(uid, start)).unwrap();
    }
    assert_eq!(db.count_events(), 3);
    assert_eq!(db.get_event("5678").unwrap().start, 200);
    assert_eq!(db.get_event("nothing"), Err(RepoError::NotFound));
    let uids = |events: Vec<Event>| events.into_iter().map(|e| e.uid).collect::<Vec<_>>();
    assert_eq!(uids(db.get_events(Some(100), None)), strings(&["1234", "5678"]));
    assert_eq!(uids(db.get_events(None, Some(100))), strings(&["1234", "0000"]));
    assert_eq!(uids(db.get_events(Some(60), Some(150))), strings(&["1234"]));
    assert_eq!(db.archive_events(&["1234", "nothing"], 7), Err(RepoError::NotFound));
    assert_eq!(db.count_events(), 3);
    assert_eq!(db.archive_events(&["1234", "0000"], 7), Ok(2));
    assert_eq!(uids(db.all_events()), strings(&["5678"]));
    assert_eq!(db.get_event("1234"), Err(RepoError::NotFound));
    assert_eq!(db.archive_events(&["1234"], 8), Err(RepoError::NotFound));
    assert_eq!(db.events[0].archived, Some(7));
}

#[test]
fn store_from_outside_is_checked() {
    let mut db = Store::new();
    assert!(db.is_well_formed());
    db.create_or_update_place(place("a", 0, "a", &[], 1), None).unwrap();
    db.create_or_update_place(place("a", 1, "a", &[], 2), None).unwrap();
    db.create_or_update_place(place("b", 0, "b", &[], 3), None).unwrap();
    db.archive_places(&["b"], &Activity { at: 4, by: None }).unwrap();
    db.create_rating(rating("r", "a", 1)).unwrap();
    db.create_comment(comment("c", "r", 1)).unwrap();
    db.create_user(&user("u@x.org", Role::User)).unwrap();
    db.replace_user_token(token("u@x.org", 1, 5)).unwrap();
    db.archive_ratings(&["r"], 9).unwrap();
    assert!(db.is_well_formed());
    assert_eq!(db.last_status_of("b", 0), Some(ReviewStatus::Archived));
    assert_eq!(db.last_status_of("a", 1), Some(ReviewStatus::Created));
    assert_eq!(db.last_status_of("a", 2), None);

    // The pointer to the current revision is wrong.
    db.places[0].current_rev = 0;
    assert!(!db.is_well_formed());
    db.places[0].current_rev = 1;
    assert!(db.is_well_formed());
    // A revision has a wrong number.
    db.places[0].revisions[1].place.rev = 5;
    assert!(!db.is_well_formed());
    db.places[0].revisions[1].place.rev = 1;
    // A status that the status log does not tell of
    db.places[0].revisions[0].status = ReviewStatus::Confirmed;
    assert!(!db.is_well_formed());
    db.places[0].revisions[0].status = ReviewStatus::Created;
    assert!(db.is_well_formed());
    // An entry of the status log for a revision that is not there
    db.status_log[0].rev = 7;
    assert!(!db.is_well_formed());
    db.status_log[0].rev = 0;
    // A comment on an archived rating that is not archived
    db.comments[0].archived_at = None;
    assert!(!db.is_well_formed());
    db.comments[0].archived_at = Some(9);
    // A comment without its rating
    db.comments[0].rating_uid = "nothing".into();
    assert!(!db.is_well_formed());
    db.comments[0].rating_uid = "r".into();
    assert!(db.is_well_formed());
    // Two users with one address
    db.users.push(user("u@x.org", Role::Admin));
    assert!(!db.is_well_formed());
    db.users.pop();
    // Two tokens of one user
    db.tokens.push(token("u@x.org", 2, 6));
    assert!(!db.is_well_formed());
    db.tokens.pop();
    // Two places with one identifier
    let copy = PlaceRecordCopy::of(&db);
    db.places.push(copy);
    assert!(!db.is_well_formed());
    db.places.pop();
    assert!(db.is_well_formed());
}

struct PlaceRecordCopy;

impl PlaceRecordCopy {
    fn of(db: &Store) -> openfairdb::store::PlaceRecord {
        openfairdb::store::PlaceRecord {
            uid: db.places[1].uid.clone(),
            license: db.places[1].license.clone(),
            current_rev: db.places[1].current_rev,
            revisions: db.places[1].revisions.clone(),
        }
    }
}
