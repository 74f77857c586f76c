use openfairdb::document::{place_document, read_indexed_place};
use openfairdb::entities::{
    BboxSubscription, Organization, Place, RatingContext, RatingValue, ReviewStatus, Role, User,
};
use openfairdb::error::{Error, ErrorKind, ParameterError, RepoError};
use openfairdb::flows;
use openfairdb::geo::{LatCoord, LngCoord, MapBbox, MapPoint};
use openfairdb::index::{
    build_query, Clause, CoordField, IndexError, IndexQuery, IndexedPlace, IndexedRatings, Occur,
    PlaceIndex, PlaceIndexer, RangeBound, SubQuery, Term, TopDocsMode,
};
use openfairdb::moderation::{
    archive_comments, archive_ratings, may_update_place, rate_place,
    reset_password_with_email_nonce, NewPlaceRating,
};
use openfairdb::nonce::{EmailNonce, Nonce};
use openfairdb::notify::Outbox;
use openfairdb::search::{
    global_places_query, global_search, invisible_places_query, search, search_results,
    visible_places_query, SearchRequest,
};
use openfairdb::store::Store;
use openfairdb::usecases::NewEntry;

fn strings(list: &[&str]) -> Vec<String> {
    list.iter().map(|s| s.to_string()).collect()
}

/// The raw value of a latitude given in degrees.
fn lat(deg: f64) -> i32 {
    (deg * 8_388_608.0 / 90.0).round() as i32
}

/// The raw value of a longitude given in degrees.
fn lng(deg: f64) -> i32 {
    (deg * 8_388_608.0 / 180.0).round() as i32
}

fn bbox(south: f64, west: f64, north: f64, east: f64) -> MapBbox {
    MapBbox::new(
        MapPoint::try_from_raw(lat(south), lng(west)).unwrap(),
        MapPoint::try_from_raw(lat(north), lng(east)).unwrap(),
    )
}

/// What is waiting to be made visible.
enum Pending {
    Add(Place, IndexedRatings),
    Remove(String),
}

/// An index in memory that finds places by everything but free text, for
/// which it looks into titles and descriptions.
struct TestIndex {
    visible: Vec<(Place, IndexedRatings)>,
    pending: Vec<Pending>,
    broken: bool,
}

impl TestIndex {
    fn new() -> Self {
        TestIndex { visible: vec![], pending: vec![], broken: false }
    }

    fn broken() -> Self {
        TestIndex { visible: vec![], pending: vec![], broken: true }
    }

    fn failure() -> IndexError {
        IndexError { message: "broken".into() }
    }
}

fn in_range(x: i64, lower: RangeBound, upper: RangeBound) -> bool {
    let above = match lower {
        RangeBound::Included(b) => b <= x,
        RangeBound::Excluded(b) => b < x,
    };
    let below = match upper {
        RangeBound::Included(b) => x <= b,
        RangeBound::Excluded(b) => x < b,
    };
    above && below
}

fn term_matches(place: &Place, term: &Term) -> bool {
    match term {
        Term::Id(id) => place.uid == *id,
        Term::Tag(tag) => place.tags.iter().any(|t| t.to_lowercase() == *tag),
        Term::Range { field, lower, upper } => {
            let x = match field {
                CoordField::Lat => place.location.pos.lat().to_raw(),
                CoordField::Lng => place.location.pos.lng().to_raw(),
            };
            in_range(x as i64, *lower, *upper)
        }
        Term::Text(text) => {
            place.title.to_lowercase().contains(text) || place.description.to_lowercase().contains(text)
        }
    }
}

fn clause_holds(place: &Place, clause: &Clause) -> bool {
    let matches = match &clause.query {
        SubQuery::One(term) => term_matches(place, term),
        SubQuery::AnyOf(terms) => terms.iter().any(|t| term_matches(place, t)),
    };
    match clause.occur {
        Occur::Must => matches,
        Occur::MustNot => !matches,
        Occur::Should => true,
    }
}

impl PlaceIndex for TestIndex {
    fn query_places(&self, query: &IndexQuery, limit: usize) -> Result<Vec<IndexedPlace>, IndexError> {
        if self.broken || limit == 0 {
            return Err(TestIndex::failure());
        }
        let (clauses, mode) = build_query(query, true);
        let mut found: Vec<&(Place, IndexedRatings)> = self
            .visible
            .iter()
            .filter(|(place, _)| clauses.iter().all(|c| clause_holds(place, c)))
            .collect();
        if mode == TopDocsMode::Rating || mode == TopDocsMode::ScoreBoostedByRating {
            found.sort_by(|a, b| b.1.total.cmp(&a.1.total));
        }
        found.truncate(limit);
        Ok(found
            .into_iter()
            .map(|(place, ratings)| read_indexed_place(&place_document(place, ratings)))
            .collect())
    }
}

impl PlaceIndexer for TestIndex {
    fn add_or_update_place(&mut self, place: &Place, ratings: &IndexedRatings) -> Result<(), IndexError> {
        if self.broken {
            return Err(TestIndex::failure());
        }
        self.pending.push(Pending::Remove(place.uid.clone()));
        self.pending.push(Pending::Add(place.clone(), *ratings));
        Ok(())
    }

    fn remove_place_by_id(&mut self, id: &str) -> Result<(), IndexError> {
        if self.broken {
            return Err(TestIndex::failure());
        }
        self.pending.push(Pending::Remove(id.to_string()));
        Ok(())
    }

    fn flush(&mut self) -> Result<(), IndexError> {
        if self.broken {
            return Err(TestIndex::failure());
        }
        for pending in self.pending.drain(..) {
            match pending {
                Pending::Add(place, ratings) => self.visible.push((place, ratings)),
                Pending::Remove(uid) => self.visible.retain(|(p, _)| p.uid != uid),
            }
        }
        Ok(())
    }
}

fn new_place(i: i32) -> NewEntry {
    NewEntry {
        title: i.to_string(),
        description: i.to_string(),
        lat: lat((i % 91) as f64),
        lng: lng((-i % 181) as f64),
        street: None,
        zip: None,
        city: None,
        country: None,
        email: None,
        telephone: None,
        homepage: None,
        categories: vec![],
        tags: vec![format!("tag-{}", i)],
        license: "CC0-1.0".into(),
        image_url: None,
        image_link_url: None,
    }
}

fn new_entry_rating(i: i32, place_uid: &str, context: RatingContext, value: RatingValue) -> NewPlaceRating {
    NewPlaceRating {
        entry: place_uid.to_owned(),
        context,
        value,
        title: format!("title_{}", i),
        comment: format!("comment_{}", i),
        source: None,
    }
}

struct EnvFixture {
    db: Store,
    search_engine: TestIndex,
    outbox: Outbox,
    counter: u32,
}

impl EnvFixture {
    fn new() -> Self {
        EnvFixture { db: Store::new(), search_engine: TestIndex::new(), outbox: Outbox::new(), counter: 0 }
    }

    fn next_uid(&mut self, kind: &str) -> String {
        self.counter += 1;
        format!("{}-{}", kind, self.counter)
    }

    fn now(&self) -> i64 {
        1_000 + self.counter as i64
    }

    fn create_place(&mut self, new_place: NewEntry, account_email: Option<&str>) -> String {
        let uid = self.next_uid("place");
        let now = self.now();
        flows::create_place(
            &mut self.db,
            &mut self.search_engine,
            &mut self.outbox,
            new_place,
            account_email,
            uid,
            now,
        )
        .unwrap()
        .uid
    }

    fn create_user(&mut self, email: &str, password: &str, role: Role) {
        self.db
            .create_user(&User {
                email: email.into(),
                email_confirmed: true,
                password: password.into(),
                role,
            })
            .unwrap();
    }

    fn try_get_entry(&self, uid: &str) -> Option<Place> {
        self.db.get_place(uid).ok().map(|r| r.place)
    }

    fn entry_exists(&self, uid: &str) -> bool {
        self.try_get_entry(uid).is_some()
    }

    fn create_rating(&mut self, rate: NewPlaceRating) -> (String, String) {
        let rating_uid = self.next_uid("rating");
        let comment_uid = self.next_uid("comment");
        let now = self.now();
        flows::create_rating(&mut self.db, &mut self.search_engine, rate, rating_uid, comment_uid, now)
            .unwrap()
    }

    fn rating_exists(&self, uid: &str) -> bool {
        self.db.load_rating(uid).is_ok()
    }

    fn comment_exists(&self, uid: &str) -> bool {
        self.db.load_comment(uid).is_ok()
    }

    fn query_places(&self, query: &IndexQuery) -> Vec<IndexedPlace> {
        self.search_engine.query_places(query, 100).unwrap()
    }

    fn query_places_by_tag(&self, tag: &str) -> Vec<IndexedPlace> {
        let mut query = IndexQuery::default();
        query.hash_tags = vec![tag.to_string()];
        self.query_places(&query)
    }

    fn query_places_by_ids(&self, ids: &[&str], limit: usize) -> Vec<IndexedPlace> {
        let mut query = IndexQuery::default();
        query.ids = strings(ids);
        self.search_engine.query_places(&query, limit).unwrap()
    }
}

fn assert_not_found<T: std::fmt::Debug>(res: Result<T, Error>) {
    assert_eq!(res.unwrap_err(), Error::Repo(RepoError::NotFound));
}

fn archive_places(fixture: &mut EnvFixture, ids: &[&str]) -> Result<(), Error> {
    let now = fixture.now();
    flows::archive_places(&mut fixture.db, &mut fixture.search_engine, ids, "scout@foo.tld", now)
}

#[test]
fn should_archive_multiple_places_only_once() {
    let mut fixture = EnvFixture::new();
    fixture.create_user("scout@foo.tld", "123456", Role::Scout);
    let place_uids = vec![
        fixture.create_place(new_place(0), None),
        fixture.create_place(new_place(1), None),
        fixture.create_place(new_place(2), None),
    ];
    let entry_tags = vec![
        fixture.try_get_entry(&place_uids[0]).unwrap().tags.into_iter().take(1).next().unwrap(),
        fixture.try_get_entry(&place_uids[1]).unwrap().tags.into_iter().take(1).next().unwrap(),
        fixture.try_get_entry(&place_uids[2]).unwrap().tags.into_iter().take(1).next().unwrap(),
    ];

    assert!(fixture.entry_exists(&place_uids[0]));
    assert_eq!(place_uids[0], fixture.query_places_by_tag(&entry_tags[0])[0].id);
    assert!(fixture.entry_exists(&place_uids[1]));
    assert_eq!(place_uids[1], fixture.query_places_by_tag(&entry_tags[1])[0].id);
    assert!(fixture.entry_exists(&place_uids[2]));
    assert_eq!(place_uids[2], fixture.query_places_by_tag(&entry_tags[2])[0].id);

    assert!(archive_places(&mut fixture, &[&*place_uids[0], &*place_uids[2]]).is_ok());

    // Entries 0 and 2 disappeared
    assert!(!fixture.entry_exists(&place_uids[0]));
    assert!(fixture.query_places_by_tag(&entry_tags[0]).is_empty());
    assert!(fixture.entry_exists(&place_uids[1]));
    assert_eq!(place_uids[1], fixture.query_places_by_tag(&entry_tags[1])[0].id);
    assert!(!fixture.entry_exists(&place_uids[2]));
    assert!(fixture.query_places_by_tag(&entry_tags[2]).is_empty());

    assert_not_found(archive_places(&mut fixture, &[&*place_uids[1], &*place_uids[2]]));

    // No changes, i.e.entry 1 still exists in both database and index
    assert!(!fixture.entry_exists(&place_uids[0]));
    assert!(fixture.query_places_by_tag(&entry_tags[0]).is_empty());
    assert!(fixture.entry_exists(&place_uids[1]));
    assert_eq!(place_uids[1], fixture.query_places_by_tag(&entry_tags[1])[0].id);
    assert!(!fixture.entry_exists(&place_uids[2]));
    assert!(fixture.query_places_by_tag(&entry_tags[2]).is_empty());
}

fn four_ratings(fixture: &mut EnvFixture, place_uids: &[String]) -> Vec<(String, String)> {
    vec![
        fixture.create_rating(new_entry_rating(
            0,
            &place_uids[0],
            RatingContext::Diversity,
            RatingValue::new(-1),
        )),
        fixture.create_rating(new_entry_rating(
            1,
            &place_uids[0],
            RatingContext::Fairness,
            RatingValue::new(0),
        )),
        fixture.create_rating(new_entry_rating(
            2,
            &place_uids[1],
            RatingContext::Transparency,
            RatingValue::new(1),
        )),
        fixture.create_rating(new_entry_rating(
            3,
            &place_uids[1],
            RatingContext::Renewable,
            RatingValue::new(2),
        )),
    ]
}

#[test]
fn should_archive_places_with_ratings_and_comments() {
    let mut fixture = EnvFixture::new();
    fixture.create_user("scout@foo.tld", "123456", Role::Scout);
    let place_uids = vec![
        fixture.create_place(new_place(0), None),
        fixture.create_place(new_place(1), None),
    ];

    let rating_comment_ids = four_ratings(&mut fixture, &place_uids);

    for place_uid in &place_uids {
        assert!(fixture.entry_exists(place_uid));
    }
    for (rating_id, comment_id) in &rating_comment_ids {
        assert!(fixture.rating_exists(rating_id));
        assert!(fixture.comment_exists(comment_id));
    }

    assert!(archive_places(&mut fixture, &[&*place_uids[0]]).is_ok());

    assert!(!fixture.entry_exists(&place_uids[0]));
    assert!(fixture.entry_exists(&place_uids[1]));

    assert!(!fixture.rating_exists(&rating_comment_ids[0].0));
    assert!(!fixture.rating_exists(&rating_comment_ids[1].0));
    assert!(fixture.rating_exists(&rating_comment_ids[2].0));
    assert!(fixture.rating_exists(&rating_comment_ids[3].0));

    assert!(!fixture.comment_exists(&rating_comment_ids[0].1));
    assert!(!fixture.comment_exists(&rating_comment_ids[1].1));
    assert!(fixture.comment_exists(&rating_comment_ids[2].1));
    assert!(fixture.comment_exists(&rating_comment_ids[3].1));
}

fn archive_ratings_flow(fixture: &mut EnvFixture, ids: &[&str]) -> Result<(), Error> {
    let now = fixture.now();
    flows::archive_ratings(&mut fixture.db, &mut fixture.search_engine, "scout@foo.tld", ids, now)
}

#[test]
fn should_archive_multiple_ratings_only_once() {
    let mut fixture = EnvFixture::new();

    fixture.create_user("scout@foo.tld", "123456", Role::Scout);

    let place_uids = vec![
        fixture.create_place(new_place(0), None),
        fixture.create_place(new_place(1), None),
    ];
    let rating_comment_ids = four_ratings(&mut fixture, &place_uids);

    assert!(fixture.entry_exists(&place_uids[0]));
    assert!(fixture.entry_exists(&place_uids[1]));

    assert!(fixture.rating_exists(&rating_comment_ids[0].0));
    assert!(fixture.rating_exists(&rating_comment_ids[1].0));
    assert!(fixture.rating_exists(&rating_comment_ids[2].0));
    assert!(fixture.rating_exists(&rating_comment_ids[3].0));

    assert!(fixture.comment_exists(&rating_comment_ids[0].1));
    assert!(fixture.comment_exists(&rating_comment_ids[1].1));
    assert!(fixture.comment_exists(&rating_comment_ids[2].1));
    assert!(fixture.comment_exists(&rating_comment_ids[3].1));

    // Archive ratings 1 and 2
    assert!(archive_ratings_flow(
        &mut fixture,
        &[&*rating_comment_ids[1].0, &*rating_comment_ids[2].0]
    )
    .is_ok());

    // Entries still exist
    assert!(fixture.entry_exists(&place_uids[0]));
    assert!(fixture.entry_exists(&place_uids[1]));

    // Ratings 1 and 2 disappeared
    assert!(fixture.rating_exists(&rating_comment_ids[0].0));
    assert!(!fixture.rating_exists(&rating_comment_ids[1].0));
    assert!(!fixture.rating_exists(&rating_comment_ids[2].0));
    assert!(fixture.rating_exists(&rating_comment_ids[3].0));

    // Comments for ratings 1 and 2 disappeared
    assert!(fixture.comment_exists(&rating_comment_ids[0].1));
    assert!(!fixture.comment_exists(&rating_comment_ids[1].1));
    assert!(!fixture.comment_exists(&rating_comment_ids[2].1));
    assert!(fixture.comment_exists(&rating_comment_ids[3].1));

    // Try to archive ratings 0 and 1 (already archived)
    assert_not_found(archive_ratings_flow(
        &mut fixture,
        &[&*rating_comment_ids[0].0, &*rating_comment_ids[1].0],
    ));

    // No changes due to rollback
    assert!(fixture.entry_exists(&place_uids[0]));
    assert!(fixture.entry_exists(&place_uids[1]));
    assert!(fixture.rating_exists(&rating_comment_ids[0].0));
    assert!(!fixture.rating_exists(&rating_comment_ids[1].0));
    assert!(!fixture.rating_exists(&rating_comment_ids[2].0));
    assert!(fixture.rating_exists(&rating_comment_ids[3].0));
    assert!(fixture.comment_exists(&rating_comment_ids[0].1));
    assert!(!fixture.comment_exists(&rating_comment_ids[1].1));
    assert!(!fixture.comment_exists(&rating_comment_ids[2].1));
    assert!(fixture.comment_exists(&rating_comment_ids[3].1));

    // Archive remaining ratings
    assert!(archive_ratings_flow(
        &mut fixture,
        &[&*rating_comment_ids[0].0, &*rating_comment_ids[3].0]
    )
    .is_ok());

    // Entries still exist
    assert!(fixture.entry_exists(&place_uids[0]));
    assert!(fixture.entry_exists(&place_uids[1]));

    // All ratings disappeared
    assert!(!fixture.rating_exists(&rating_comment_ids[0].0));
    assert!(!fixture.rating_exists(&rating_comment_ids[1].0));
    assert!(!fixture.rating_exists(&rating_comment_ids[2].0));
    assert!(!fixture.rating_exists(&rating_comment_ids[3].0));

    // All comments disappeared
    assert!(!fixture.comment_exists(&rating_comment_ids[0].1));
    assert!(!fixture.comment_exists(&rating_comment_ids[1].1));
    assert!(!fixture.comment_exists(&rating_comment_ids[2].1));
    assert!(!fixture.comment_exists(&rating_comment_ids[3].1));
}

#[test]
fn archived_place_has_taken_everything_with_it_at_one_time() {
    let mut fixture = EnvFixture::new();
    fixture.create_user("scout@foo.tld", "123456", Role::Scout);
    let uid = fixture.create_place(new_place(7), None);
    let (r1, c1) = fixture.create_rating(new_entry_rating(1, &uid, RatingContext::Diversity, RatingValue::new(1)));
    let (r2, c2) = fixture.create_rating(new_entry_rating(2, &uid, RatingContext::Fairness, RatingValue::new(2)));
    assert_eq!(fixture.query_places_by_ids(&[&uid], 1).len(), 1);
    flows::archive_places(&mut fixture.db, &mut fixture.search_engine, &[&uid], "scout@foo.tld", 4711)
        .unwrap();
    for r in &fixture.db.ratings {
        assert!(r.uid == r1 || r.uid == r2);
        assert_eq!(r.archived_at, Some(4711));
    }
    for c in &fixture.db.comments {
        assert!(c.uid == c1 || c.uid == c2);
        assert_eq!(c.archived_at, Some(4711));
    }
    assert_eq!(fixture.db.status_log.last().unwrap().activity.at, 4711);
    assert_eq!(fixture.db.status_log.last().unwrap().activity.by.as_deref(), Some("scout@foo.tld"));
    assert_eq!(fixture.db.status_log.last().unwrap().status, ReviewStatus::Archived);
    assert!(fixture.query_places_by_ids(&[&uid], 1).is_empty());
}

#[test]
fn place_is_found_once_it_is_created() {
    let mut fixture = EnvFixture::new();
    let uid = fixture.create_place(new_place(3), None);
    let found = fixture.query_places_by_ids(&[&uid], 1);
    assert_eq!(found.len(), 1);
    let place = fixture.try_get_entry(&uid).unwrap();
    assert_eq!(found[0].id, place.uid);
    assert_eq!(found[0].title, place.title);
    assert_eq!(found[0].pos, place.location.pos);
    assert_eq!(found[0].tags, place.tags);
}

#[test]
fn only_scouts_archive_places() {
    let mut fixture = EnvFixture::new();
    fixture.create_user("user@foo.tld", "123456", Role::User);
    let uid = fixture.create_place(new_place(1), None);
    let forbidden = flows::archive_places(&mut fixture.db, &mut fixture.search_engine, &[&uid], "user@foo.tld", 5);
    assert_eq!(forbidden, Err(Error::Parameter(ParameterError::Forbidden)));
    let unknown = flows::archive_places(&mut fixture.db, &mut fixture.search_engine, &[&uid], "nobody@foo.tld", 5);
    assert_eq!(unknown, Err(Error::Parameter(ParameterError::UserDoesNotExist)));
    assert!(fixture.entry_exists(&uid));
    assert_eq!(fixture.query_places_by_ids(&[&uid], 1).len(), 1);
}

#[test]
fn broken_index_does_not_stop_a_flow() {
    let mut db = Store::new();
    let mut index = TestIndex::broken();
    let mut outbox = Outbox::new();
    db.create_user(&User {
        email: "scout@foo.tld".into(),
        email_confirmed: true,
        password: "x".into(),
        role: Role::Scout,
    })
    .unwrap();
    let place = flows::create_place(&mut db, &mut index, &mut outbox, new_place(1), None, "p".into(), 1).unwrap();
    assert_eq!(place.uid, "p");
    assert!(db.get_place("p").is_ok());
    let ids = flows::create_rating(
        &mut db,
        &mut index,
        new_entry_rating(1, "p", RatingContext::Humanity, RatingValue::new(2)),
        "r".into(),
        "c".into(),
        2,
    )
    .unwrap();
    assert_eq!(ids, ("r".to_string(), "c".to_string()));
    assert_eq!(flows::archive_ratings(&mut db, &mut index, "scout@foo.tld", &["r"], 3), Ok(()));
    assert_eq!(flows::archive_places(&mut db, &mut index, &["p"], "scout@foo.tld", 4), Ok(()));
    assert_eq!(flows::post_archive_places(&mut index, &["p"]), Ok(()));
    assert_eq!(flows::post_archive_ratings(&db, &mut index, &["r"]), Ok(()));
    assert!(flows::reindex_all(&db, &mut index).is_err());
    // The store has gone on: the rating and the place are archived.
    assert_eq!(db.ratings[0].archived_at, Some(3));
    assert_eq!(db.count_places(), 0);
}

#[test]
fn subscribers_hear_of_new_places_in_their_part_of_the_map() {
    let mut fixture = EnvFixture::new();
    fixture.create_user("near@foo.tld", "x", Role::User);
    fixture.create_user("far@foo.tld", "x", Role::User);
    let sub = |uid: &str, email: &str, bbox: MapBbox| BboxSubscription {
        uid: uid.into(),
        user_email: email.into(),
        bbox,
    };
    fixture.db.create_bbox_subscription(&sub("s1", "near@foo.tld", bbox(0.0, -10.0, 10.0, 0.0))).unwrap();
    fixture.db.create_bbox_subscription(&sub("s2", "far@foo.tld", bbox(40.0, 40.0, 50.0, 50.0))).unwrap();
    // The place lies at 5 degrees north, 5 degrees west.
    fixture.create_place(new_place(5), None);
    assert_eq!(fixture.outbox.mails.len(), 1);
    assert_eq!(fixture.outbox.mails[0].to, "near@foo.tld");
    assert_eq!(fixture.outbox.mails[0].subject, "A new place has been added: 5");
    // A place that is refused tells nobody.
    let mut bad = new_place(5);
    bad.title = String::new();
    let now = fixture.now();
    let refused = flows::create_place(
        &mut fixture.db,
        &mut fixture.search_engine,
        &mut fixture.outbox,
        bad,
        None,
        "other".into(),
        now,
    );
    assert_eq!(refused, Err(Error::Parameter(ParameterError::Title)));
    assert_eq!(fixture.outbox.mails.len(), 1);
    assert_eq!(fixture.db.places.len(), 1);
}

#[test]
fn place_is_updated_by_those_who_may() {
    let mut fixture = EnvFixture::new();
    fixture.create_user("creator@foo.tld", "x", Role::User);
    fixture.create_user("other@foo.tld", "x", Role::User);
    fixture.create_user("scout@foo.tld", "x", Role::Scout);
    let org = Organization {
        id: "org".into(),
        name: "Org".into(),
        api_token: "t".into(),
        owned_tags: strings(&["mine"]),
    };
    fixture.db.create_org(org.clone()).unwrap();
    let uid = fixture.create_place(new_place(1), Some("creator@foo.tld"));
    let mut changed = new_place(1);
    changed.title = "Bar".into();
    let update = |fixture: &mut EnvFixture, entry: NewEntry, by: Option<&str>, org: Option<&Organization>| {
        let now = fixture.now();
        flows::update_place(
            &mut fixture.db,
            &mut fixture.search_engine,
            &mut fixture.outbox,
            &uid,
            entry,
            by,
            org,
            now,
        )
    };
    let entry = |title: &str, tags: &[&str]| {
        let mut e = new_place(1);
        e.title = title.into();
        e.tags = strings(tags);
        e
    };
    assert_eq!(
        update(&mut fixture, entry("Bar", &["tag-1"]), Some("other@foo.tld"), None),
        Err(Error::Parameter(ParameterError::Forbidden))
    );
    assert_eq!(
        update(&mut fixture, entry("Bar", &["tag-1"]), None, None),
        Err(Error::Parameter(ParameterError::Forbidden))
    );
    let place = update(&mut fixture, entry("Bar", &["tag-1"]), Some("creator@foo.tld"), None).unwrap();
    assert_eq!(place.rev, 1);
    assert_eq!(fixture.try_get_entry(&uid).unwrap().title, "Bar");
    assert_eq!(fixture.query_places_by_ids(&[&uid], 5)[0].title, "Bar");
    let place = update(&mut fixture, entry("Baz", &["tag-1"]), Some("scout@foo.tld"), None).unwrap();
    assert_eq!(place.rev, 2);
    // A tag of an organization is added on its behalf only.
    assert_eq!(
        update(&mut fixture, entry("Baz", &["tag-1", "mine"]), Some("scout@foo.tld"), None),
        Err(Error::Parameter(ParameterError::OwnedTag))
    );
    let place = update(&mut fixture, entry("Baz", &["tag-1", "mine"]), None, Some(&org)).unwrap();
    assert_eq!(place.rev, 3);
    assert_eq!(place.tags, strings(&["tag-1", "mine"]));
    assert_eq!(fixture.db.places[0].current_rev, 3);
    assert_eq!(fixture.db.places[0].revisions.len(), 4);
    // A scout may take the tag of an organization away.
    let place = update(&mut fixture, changed, Some("scout@foo.tld"), None).unwrap();
    assert_eq!(place.rev, 4);
    assert_eq!(place.tags, strings(&["tag-1"]));
    let nowhere = flows::update_place(
        &mut fixture.db,
        &mut fixture.search_engine,
        &mut fixture.outbox,
        "nowhere",
        new_place(1),
        Some("scout@foo.tld"),
        None,
        1,
    );
    assert_eq!(nowhere, Err(Error::Repo(RepoError::NotFound)));
}

#[test]
fn changes_of_owned_tags_need_their_owner() {
    let moderated = strings(&["a", "b"]);
    let org = |tags: &[&str]| Organization {
        id: "o".into(),
        name: "o".into(),
        api_token: "t".into(),
        owned_tags: strings(tags),
    };
    let user = |email: &str, role: Role| User {
        email: email.into(),
        email_confirmed: true,
        password: "x".into(),
        role,
    };
    let old = strings(&["a", "x"]);
    let new = strings(&["b", "x"]);
    let creator = Some("c@x.org".to_string());
    assert!(may_update_place(&creator, Some(&user("c@x.org", Role::Guest)), None, &moderated, &old, &new));
    assert!(may_update_place(&creator, Some(&user("s@x.org", Role::Scout)), None, &moderated, &old, &new));
    assert!(!may_update_place(&creator, Some(&user("u@x.org", Role::User)), None, &moderated, &old, &new));
    assert!(!may_update_place(&None, Some(&user("u@x.org", Role::User)), None, &moderated, &old, &new));
    assert!(!may_update_place(&creator, None, None, &moderated, &old, &new));
    assert!(may_update_place(&creator, None, Some(&org(&["a", "b"])), &moderated, &old, &new));
    assert!(!may_update_place(&creator, None, Some(&org(&["a"])), &moderated, &old, &new));
    assert!(!may_update_place(&creator, None, Some(&org(&["b"])), &moderated, &old, &new));
    assert!(may_update_place(&creator, None, Some(&org(&[])), &moderated, &old, &old));
}

fn create_entry_with_rating(fixture: &mut EnvFixture) -> (String, String, String) {
    let e = NewEntry {
        title: "entry".into(),
        description: "desc".into(),
        lat: lat(3.7),
        lng: lng(-50.0),
        street: None,
        zip: None,
        city: None,
        country: None,
        email: None,
        telephone: None,
        homepage: None,
        categories: vec![],
        tags: vec![],
        license: "CC0-1.0".into(),
        image_url: None,
        image_link_url: None,
    };
    let e_id = fixture.create_place(e, None);
    let r = NewPlaceRating {
        title: "A rating".into(),
        comment: "Foo".into(),
        context: RatingContext::Diversity,
        source: None,
        value: RatingValue::new(1),
        entry: e_id.clone(),
    };
    let (r_id, c_id) = fixture.create_rating(r);
    (e_id, r_id, c_id)
}

#[test]
fn archive_comment_as_admin() {
    let mut fixture = EnvFixture::new();
    fixture.create_user("foo@example.com", "secret", Role::Admin);
    let (_e_id, _, c_id) = create_entry_with_rating(&mut fixture);
    let comment = fixture.db.load_comment(&c_id).unwrap();
    assert!(comment.archived_at.is_none());
    let res = archive_comments(&mut fixture.db, "foo@example.com", &[&c_id], 5);
    assert_eq!(res, Ok(1));
    let err = fixture.db.load_comment(&c_id).err().unwrap();
    match err {
        RepoError::NotFound => {}
        _ => panic!("Expected {:?}", RepoError::NotFound),
    }
}

#[test]
fn archive_comment_as_scout() {
    let mut fixture = EnvFixture::new();
    fixture.create_user("foo@example.com", "secret", Role::Scout);
    let (_e_id, _, c_id) = create_entry_with_rating(&mut fixture);
    let comment = fixture.db.load_comment(&c_id).unwrap();
    assert!(comment.archived_at.is_none());
    let res = archive_comments(&mut fixture.db, "foo@example.com", &[&c_id], 5);
    assert_eq!(res, Ok(1));
    let err = fixture.db.load_comment(&c_id).err().unwrap();
    match err {
        RepoError::NotFound => {}
        _ => panic!("Expected {:?}", RepoError::NotFound),
    }
}

#[test]
fn archive_comment_as_guest() {
    let mut fixture = EnvFixture::new();
    fixture.create_user("guest@example.com", "secret", Role::Guest);
    let (_e_id, _, c_id) = create_entry_with_rating(&mut fixture);
    let res = archive_comments(&mut fixture.db, "nobody@example.com", &[&c_id], 5);
    assert_eq!(res, Err(Error::Parameter(ParameterError::UserDoesNotExist)));
    let res = archive_comments(&mut fixture.db, "guest@example.com", &[&c_id], 5);
    assert_eq!(res, Err(Error::Parameter(ParameterError::Forbidden)));
    let comment = fixture.db.load_comment(&c_id).unwrap();
    assert!(comment.archived_at.is_none());
}

#[test]
fn archive_rating_as_guest() {
    let mut fixture = EnvFixture::new();
    fixture.create_user("guest@example.com", "secret", Role::Guest);
    let (_e_id, r_id, _) = create_entry_with_rating(&mut fixture);
    let res = archive_ratings(&mut fixture.db, "nobody@example.com", &[&r_id], 5);
    assert_eq!(res, Err(Error::Parameter(ParameterError::UserDoesNotExist)));
    let res = archive_ratings(&mut fixture.db, "guest@example.com", &[&r_id], 5);
    assert_eq!(res, Err(Error::Parameter(ParameterError::Forbidden)));
    assert!(fixture.rating_exists(&r_id));
}

#[test]
fn place_is_rated_with_a_comment() {
    let mut db = Store::new();
    let mut index = TestIndex::new();
    let mut outbox = Outbox::new();
    flows::create_place(&mut db, &mut index, &mut outbox, new_place(1), None, "p".into(), 1).unwrap();
    let rate = |comment: &str, value: i8, entry: &str| NewPlaceRating {
        entry: entry.into(),
        title: "title".into(),
        value: RatingValue::new(value),
        context: RatingContext::Solidarity,
        comment: comment.into(),
        source: Some("source".into()),
    };
    assert_eq!(
        rate_place(&mut db, rate(" ", 1, "p"), "r".into(), "c".into(), 2),
        Err(Error::Parameter(ParameterError::EmptyComment))
    );
    assert_eq!(
        rate_place(&mut db, rate("good", 3, "p"), "r".into(), "c".into(), 2),
        Err(Error::Parameter(ParameterError::RatingValue))
    );
    assert_eq!(
        rate_place(&mut db, rate("good", 1, "q"), "r".into(), "c".into(), 2),
        Err(Error::Repo(RepoError::NotFound))
    );
    assert!(db.ratings.is_empty() && db.comments.is_empty());
    assert_eq!(
        rate_place(&mut db, rate("good", 2, "p"), "r".into(), "c".into(), 2),
        Ok(("r".to_string(), "c".to_string()))
    );
    let taken = rate_place(&mut db, rate("good", 2, "p"), "r2".into(), "c".into(), 3).unwrap_err();
    assert_eq!(taken.kind(), ErrorKind::Other);
    assert_eq!(db.ratings.len(), 1);
    assert_eq!(db.comments.len(), 1);
    assert_eq!(db.ratings[0].place_uid, "p");
    assert_eq!(db.ratings[0].created_at, 2);
    assert_eq!(db.ratings[0].source.as_deref(), Some("source"));
    assert_eq!(db.comments[0].rating_uid, "r");
    assert_eq!(db.comments[0].text, "good");
}

#[test]
fn better_rated_place_comes_first() {
    let mut fixture = EnvFixture::new();
    let mut a = new_place(1);
    a.title = "café".into();
    let mut b = new_place(2);
    b.title = "café".into();
    let b_uid = fixture.create_place(b, None);
    let a_uid = fixture.create_place(a, None);
    for (i, context) in [
        RatingContext::Diversity,
        RatingContext::Renewable,
        RatingContext::Fairness,
        RatingContext::Humanity,
        RatingContext::Transparency,
        RatingContext::Solidarity,
    ]
    .into_iter()
    .enumerate()
    {
        fixture.create_rating(new_entry_rating(2 * i as i32, &a_uid, context, RatingValue::new(1)));
        fixture.create_rating(new_entry_rating(2 * i as i32 + 1, &a_uid, context, RatingValue::new(2)));
    }
    let found = fixture.query_places_by_ids(&[&a_uid, &b_uid], 10);
    assert_eq!(found.iter().map(|p| p.id.as_str()).collect::<Vec<_>>(), vec![a_uid.as_str(), b_uid.as_str()]);
    // The average of 1.5 in every context, as the index stores it
    assert_eq!(found[0].ratings.total, ((u64::MAX as u128 * 5) / 6) as u64);
    assert_eq!(found[1].ratings.total, u64::MAX / 3);
    let mut query = IndexQuery::default();
    query.text = Some("café".into());
    let found = fixture.query_places(&query);
    assert_eq!(found[0].id, a_uid);
    assert_eq!(found[1].id, b_uid);
}

fn request<'a>(bbox: MapBbox) -> SearchRequest<'a> {
    SearchRequest { bbox, ids: vec![], categories: vec![], hash_tags: vec![], text: None }
}

#[test]
fn search_finds_places_on_both_sides_of_the_antimeridian() {
    let mut fixture = EnvFixture::new();
    let mut x = new_place(1);
    x.lat = 0;
    x.lng = lng(179.0);
    let mut y = new_place(2);
    y.lat = 0;
    y.lng = lng(-179.0);
    let mut z = new_place(3);
    z.lat = 0;
    z.lng = 0;
    let x = fixture.create_place(x, None);
    let y = fixture.create_place(y, None);
    fixture.create_place(z, None);
    let (visible, invisible) =
        search(&fixture.search_engine, request(bbox(-1.0, 170.0, 1.0, -170.0)), 10).unwrap();
    let mut found: Vec<String> = visible.into_iter().map(|p| p.id).collect();
    found.sort();
    assert_eq!(found, vec![x, y]);
    assert!(invisible.is_empty());
}

#[test]
fn search_fills_up_with_places_around_the_map() {
    let mut fixture = EnvFixture::new();
    let place_at = |i: i32, lat_deg: f64, lng_deg: f64| {
        let mut p = new_place(i);
        p.lat = lat(lat_deg);
        p.lng = lng(lng_deg);
        p
    };
    let inside = fixture.create_place(place_at(1, 5.0, 5.0), None);
    let also_inside = fixture.create_place(place_at(2, 0.0, 10.0), None);
    // In the ring around the map, and outside both of its bands
    let corner = fixture.create_place(place_at(3, 10.5, 10.5), None);
    // In the ring, but in the band of latitudes of the map
    let _beside = fixture.create_place(place_at(4, 5.0, 10.5), None);
    let _far = fixture.create_place(place_at(5, 50.0, 50.0), None);
    let visible_bbox = bbox(0.0, 0.0, 10.0, 10.0);
    let (visible, invisible) = search(&fixture.search_engine, request(visible_bbox), 10).unwrap();
    let mut ids: Vec<String> = visible.iter().map(|p| p.id.clone()).collect();
    ids.sort();
    assert_eq!(ids, vec![inside.clone(), also_inside.clone()]);
    for p in &visible {
        assert!(visible_bbox.contains_point(p.pos));
    }
    assert_eq!(invisible.iter().map(|p| p.id.clone()).collect::<Vec<_>>(), vec![corner]);
    for p in &invisible {
        assert!(!visible_bbox.contains_point(p.pos));
    }
    // No place around the map is asked for once the limit is reached.
    let (visible, invisible) = search(&fixture.search_engine, request(visible_bbox), 2).unwrap();
    assert_eq!(visible.len(), 2);
    assert!(invisible.is_empty());
    let (visible, invisible) = search(&fixture.search_engine, request(visible_bbox), 1).unwrap();
    assert_eq!(visible.len(), 1);
    assert!(invisible.is_empty());
    assert!(search(&fixture.search_engine, request(visible_bbox), 0).is_err());
    assert!(search(&TestIndex::broken(), request(visible_bbox), 5).is_err());
}

#[test]
fn search_by_tags_and_text() {
    let mut fixture = EnvFixture::new();
    let mut a = new_place(1);
    a.title = "Bakery".into();
    a.tags = strings(&["bread", "organic"]);
    let mut b = new_place(2);
    b.title = "Farm".into();
    b.tags = strings(&["organic"]);
    let a = fixture.create_place(a, None);
    let b = fixture.create_place(b, None);
    let everywhere = bbox(-90.0, -180.0, 90.0, 180.0);
    let ids = |req: SearchRequest| {
        let (visible, _) = search(&fixture.search_engine, req, 10).unwrap();
        let mut ids: Vec<String> = visible.into_iter().map(|p| p.id).collect();
        ids.sort();
        ids
    };
    let mut req = request(everywhere);
    req.hash_tags = vec!["Organic"];
    assert_eq!(ids(req), vec![a.clone(), b.clone()]);
    let mut req = request(everywhere);
    req.text = Some("#bread");
    assert_eq!(ids(req), vec![a.clone()]);
    let mut req = request(everywhere);
    req.text = Some("farm #organic");
    assert_eq!(ids(req), vec![b.clone()]);
    let mut req = request(everywhere);
    req.ids = vec![&b, "nothing"];
    assert_eq!(ids(req), vec![b.clone()]);
    assert_eq!(
        global_search(&fixture.search_engine, "BAKERY", 10).unwrap().into_iter().map(|p| p.id).collect::<Vec<_>>(),
        vec![a]
    );
    assert!(global_search(&TestIndex::broken(), "x", 10).is_err());
}

#[test]
fn index_is_asked_for_what_the_request_says() {
    let visible_bbox = bbox(0.0, 0.0, 10.0, 10.0);
    let req = SearchRequest {
        bbox: visible_bbox,
        ids: vec!["i1"],
        categories: vec!["c1"],
        hash_tags: vec!["Named"],
        text: Some("Some #Tag text, here #tag"),
    };
    let visible = visible_places_query(&req);
    assert_eq!(
        visible,
        IndexQuery {
            include_bbox: Some(visible_bbox),
            exclude_bbox: None,
            categories: strings(&["c1"]),
            ids: strings(&["i1"]),
            hash_tags: strings(&["tag", "Named"]),
            text_tags: strings(&["some", "text", "here"]),
            text: Some("Some text, here".into()),
        }
    );
    let invisible = invisible_places_query(&visible);
    assert_eq!(invisible.exclude_bbox, Some(visible_bbox));
    assert_eq!(invisible.include_bbox, Some(openfairdb::geo::extend_bbox(&visible_bbox)));
    assert_eq!(invisible.hash_tags, visible.hash_tags);
    assert_eq!(invisible.text, visible.text);
    let mut only_tags = request(visible_bbox);
    only_tags.text = Some(" #only ");
    let query = visible_places_query(&only_tags);
    assert_eq!(query.text, None);
    assert_eq!(query.text_tags, strings(&[]));
    assert_eq!(query.hash_tags, strings(&["only"]));
    let global = global_places_query("Some Text");
    assert_eq!(global.text.as_deref(), Some("Some Text"));
    assert_eq!(global.include_bbox, None);
    assert!(global.ids.is_empty() && global.hash_tags.is_empty() && global.text_tags.is_empty());
}

#[test]
fn answers_of_the_index_are_held_to_the_request() {
    let visible_bbox = MapBbox::new(
        MapPoint::new(LatCoord::from_raw(0), LngCoord::from_raw(0)),
        MapPoint::new(LatCoord::from_raw(100), LngCoord::from_raw(100)),
    );
    let at = |id: &str, lat: i32, lng: i32| IndexedPlace {
        id: id.into(),
        pos: MapPoint::try_from_raw(lat, lng).unwrap(),
        title: String::new(),
        description: String::new(),
        tags: vec![],
        ratings: IndexedRatings {
            total: 0,
            diversity: 0,
            fairness: 0,
            humanity: 0,
            renewable: 0,
            solidarity: 0,
            transparency: 0,
        },
    };
    let ids = |places: &Vec<IndexedPlace>| places.iter().map(|p| p.id.clone()).collect::<Vec<_>>();
    let (visible, invisible) = search_results(
        &visible_bbox,
        3,
        vec![at("a", 0, 0), at("out", 101, 50), at("b", 100, 100), at("c", 50, 50), at("d", 1, 1)],
        vec![at("in", 50, 50), at("ring", 105, 105), at("far", 200, 200), at("ring2", -5, 50)],
    );
    assert_eq!(ids(&visible), strings(&["a", "b", "c"]));
    assert_eq!(ids(&invisible), strings(&[]));
    let (visible, invisible) = search_results(
        &visible_bbox,
        3,
        vec![at("a", 0, 0), at("out", 101, 50)],
        vec![at("in", 50, 50), at("ring", 105, 105), at("far", 200, 200), at("ring2", -5, 50)],
    );
    assert_eq!(ids(&visible), strings(&["a"]));
    assert_eq!(ids(&invisible), strings(&["ring", "ring2"]));
}

fn register_user(db: &mut Store, email: &str, password: &str, confirmed: bool) {
    db.create_user(&User {
        email: email.into(),
        email_confirmed: confirmed,
        password: password.into(),
        role: Role::Guest,
    })
    .unwrap();
}

fn login(db: &Store, email: &str, password: &str) -> bool {
    match openfairdb::accounts::login_with_email(db, email, password) {
        Ok(user) => user.email == email,
        Err(err) => {
            assert_eq!(err, Error::Parameter(ParameterError::Unauthorized));
            assert_eq!(err.http_status(), 401);
            false
        }
    }
}

#[test]
fn users_reset_password() {
    let mut db = Store::new();
    let mut outbox = Outbox::new();
    register_user(&mut db, "user@example.com", "secret", true);

    // User sends the request
    let res = flows::reset_password_request(&mut db, &mut outbox, "user@example.com", Nonce::from_u128(17), 100);
    assert!(res.is_ok());

    // User gets an email with the corresponding token
    let token = db
        .get_user_token_by_email("user@example.com")
        .unwrap()
        .email_nonce
        .encode_to_string();
    assert_eq!(
        "user@example.com",
        EmailNonce::decode_from_str(&token).unwrap().email
    );
    assert_eq!(outbox.mails.len(), 1);
    assert_eq!(outbox.mails[0].to, "user@example.com");
    assert!(outbox.mails[0].body.ends_with(&format!("/reset-password?token={}", token)));

    // User send the new password to the server
    let email_nonce = EmailNonce::decode_from_str(&token).unwrap();
    let res = reset_password_with_email_nonce(&mut db, &email_nonce, "12345678".into(), 50);
    assert_eq!(res, Ok(()));

    // User can't login with old password
    assert!(!login(&db, "user@example.com", "secret"));

    // User can login with the new password
    assert!(login(&db, "user@example.com", "12345678"));
}

#[test]
fn tests_reset_password() {
    let mut db = Store::new();
    let mut outbox = Outbox::new();
    register_user(&mut db, "user@example.com", "secret", true);

    // A request for somebody else changes nothing.
    let res = flows::reset_password_request(&mut db, &mut outbox, "other@example.com", Nonce::from_u128(1), 100);
    assert_eq!(res, Err(Error::Repo(RepoError::NotFound)));
    assert!(outbox.mails.is_empty());

    // User sends the request
    let issued =
        flows::reset_password_request(&mut db, &mut outbox, "user@example.com", Nonce::from_u128(2), 100).unwrap();

    // User gets an email with the corresponding token
    let token = db.get_user_token_by_email("user@example.com").unwrap().email_nonce.encode_to_string();
    assert_eq!(token, issued.encode_to_string());

    // A token that was not issued is refused.
    let forged = EmailNonce { email: "user@example.com".into(), nonce: Nonce::from_u128(3) };
    assert_eq!(
        reset_password_with_email_nonce(&mut db, &forged, "12345678".into(), 50),
        Err(Error::Repo(RepoError::NotFound))
    );
    // A token that has expired is refused, and stays.
    assert_eq!(
        reset_password_with_email_nonce(&mut db, &issued, "12345678".into(), 101),
        Err(Error::Parameter(ParameterError::TokenExpired))
    );
    assert!(login(&db, "user@example.com", "secret"));
    assert_eq!(db.tokens.len(), 1);

    // User send the new password to the server
    let email_nonce = EmailNonce::decode_from_str(&token).unwrap();
    assert_eq!(reset_password_with_email_nonce(&mut db, &email_nonce, "12345678".into(), 100), Ok(()));

    // The token is used up.
    assert_eq!(
        reset_password_with_email_nonce(&mut db, &email_nonce, "again".into(), 100),
        Err(Error::Repo(RepoError::NotFound))
    );
    assert!(db.tokens.is_empty());

    // User can't login with old password
    assert!(!login(&db, "user@example.com", "secret"));

    // User can login with the new password
    assert!(login(&db, "user@example.com", "12345678"));
}

#[test]
fn every_place_is_put_into_the_index_anew() {
    let mut fixture = EnvFixture::new();
    fixture.create_user("scout@foo.tld", "x", Role::Scout);
    let a = fixture.create_place(new_place(1), None);
    let b = fixture.create_place(new_place(2), None);
    fixture.create_rating(new_entry_rating(1, &a, RatingContext::Diversity, RatingValue::new(2)));
    archive_places(&mut fixture, &[&b]).unwrap();
    let mut fresh = TestIndex::new();
    assert_eq!(flows::reindex_all(&fixture.db, &mut fresh), Ok(1));
    assert_eq!(fresh.visible.len(), 1);
    assert_eq!(fresh.visible[0].0.uid, a);
    assert_eq!(fresh.visible[0].1.diversity, u64::MAX);
    assert!(flows::reindex_all(&fixture.db, &mut TestIndex::broken()).is_err());
    assert_eq!(flows::archive_events(&mut fixture.db, &["nothing"], 1), Err(Error::Repo(RepoError::NotFound)));
}

/// An index that writes down what it is asked to do, and fails at one of
/// the requests if it is told to.
struct Recorder {
    asked: Vec<String>,
    fails_at: Option<usize>,
}

impl Recorder {
    fn new(fails_at: Option<usize>) -> Self {
        Recorder { asked: vec![], fails_at }
    }

    fn note(&mut self, request: String) -> Result<(), IndexError> {
        let n = self.asked.len();
        self.asked.push(request);
        if self.fails_at == Some(n) {
            Err(IndexError { message: format!("failure {}", n) })
        } else {
            Ok(())
        }
    }
}

impl PlaceIndexer for Recorder {
    fn add_or_update_place(&mut self, place: &Place, ratings: &IndexedRatings) -> Result<(), IndexError> {
        self.note(format!("put {} {}", place.uid, ratings.humanity))
    }

    fn remove_place_by_id(&mut self, id: &str) -> Result<(), IndexError> {
        self.note(format!("remove {}", id))
    }

    fn flush(&mut self) -> Result<(), IndexError> {
        self.note("flush".to_string())
    }
}

/// A store with two places that are shown, `place-1` rated twice and
/// `place-2` rated once, and one place that is archived.
fn rated_places() -> (EnvFixture, Vec<String>) {
    let mut fixture = EnvFixture::new();
    fixture.create_user("scout@foo.tld", "x", Role::Scout);
    let a = fixture.create_place(new_place(1), None);
    let b = fixture.create_place(new_place(2), None);
    let c = fixture.create_place(new_place(3), None);
    let first = fixture.create_rating(new_entry_rating(1, &a, RatingContext::Humanity, RatingValue::new(2)));
    let second = fixture.create_rating(new_entry_rating(2, &a, RatingContext::Humanity, RatingValue::new(-1)));
    let third = fixture.create_rating(new_entry_rating(3, &b, RatingContext::Humanity, RatingValue::new(2)));
    let fourth = fixture.create_rating(new_entry_rating(4, &c, RatingContext::Humanity, RatingValue::new(2)));
    archive_places(&mut fixture, &[&c]).unwrap();
    (fixture, vec![first.0, second.0, third.0, fourth.0])
}

#[test]
fn place_is_put_and_then_made_visible() {
    let (fixture, _) = rated_places();
    let place = fixture.try_get_entry("place-1").unwrap();
    let ratings = fixture.db.load_ratings_of_place("place-1");
    assert_eq!(ratings.len(), 2);

    let mut index = Recorder::new(None);
    assert_eq!(flows::reindex_place(&mut index, &place, &ratings), Ok(()));
    // The average of 2 and -1 lies half a unit above the least value.
    let half = 0x5555_5555_5555_5555u64 + 0x5555_5555_5555_5555u64 / 2;
    assert_eq!(index.asked, vec![format!("put place-1 {}", half), "flush".to_string()]);

    let mut index = Recorder::new(Some(0));
    assert_eq!(
        flows::reindex_place(&mut index, &place, &ratings),
        Err(IndexError { message: "failure 0".into() })
    );
    assert_eq!(index.asked, vec![format!("put place-1 {}", half)]);

    let mut index = Recorder::new(Some(1));
    assert_eq!(
        flows::reindex_place(&mut index, &place, &vec![]),
        Err(IndexError { message: "failure 1".into() })
    );
    assert_eq!(index.asked, vec![format!("put place-1 {}", 0x5555_5555_5555_5555u64), "flush".to_string()]);
}

#[test]
fn archived_places_are_removed_one_by_one() {
    let mut index = Recorder::new(None);
    assert_eq!(flows::post_archive_places(&mut index, &["b", "a", "b"]), Ok(()));
    assert_eq!(index.asked, strings(&["remove b", "remove a", "remove b", "flush"]));

    // A failure does not keep the rest from being asked.
    let mut index = Recorder::new(Some(0));
    assert_eq!(flows::post_archive_places(&mut index, &["b", "a"]), Ok(()));
    assert_eq!(index.asked, strings(&["remove b", "remove a", "flush"]));

    let mut index = Recorder::new(None);
    assert_eq!(flows::post_archive_places(&mut index, &[]), Ok(()));
    assert_eq!(index.asked, strings(&["flush"]));
}

#[test]
fn places_of_archived_ratings_are_put_anew() {
    let (mut fixture, ratings) = rated_places();
    let ids: Vec<&str> = vec![ratings[0].as_str(), ratings[2].as_str(), ratings[3].as_str()];
    fixture.db.archive_ratings(&[ratings[0].as_str(), ratings[2].as_str()], 2_000).unwrap();

    // The first place has one rating left, the second none, and the third
    // is not shown.
    let mut index = Recorder::new(Some(0));
    assert_eq!(flows::post_archive_ratings(&fixture.db, &mut index, &ids), Ok(()));
    assert_eq!(
        index.asked,
        vec![
            "put place-1 0".to_string(),
            format!("put place-2 {}", 0x5555_5555_5555_5555u64),
            "flush".to_string(),
        ]
    );

    let mut index = Recorder::new(None);
    assert_eq!(flows::post_archive_ratings(&fixture.db, &mut index, &["nothing"]), Ok(()));
    assert_eq!(index.asked, strings(&["flush"]));
}

#[test]
fn reindexing_stops_at_the_first_failure() {
    let (fixture, _) = rated_places();
    let half = 0x5555_5555_5555_5555u64 + 0x5555_5555_5555_5555u64 / 2;
    let puts = vec![format!("put place-1 {}", half), format!("put place-2 {}", u64::MAX)];

    let mut index = Recorder::new(None);
    assert_eq!(flows::reindex_all(&fixture.db, &mut index), Ok(2));
    assert_eq!(index.asked, vec![puts[0].clone(), puts[1].clone(), "flush".to_string()]);

    let mut index = Recorder::new(Some(0));
    assert_eq!(flows::reindex_all(&fixture.db, &mut index), Err(IndexError { message: "failure 0".into() }));
    assert_eq!(index.asked, vec![puts[0].clone()]);

    let mut index = Recorder::new(Some(2));
    assert_eq!(flows::reindex_all(&fixture.db, &mut index), Err(IndexError { message: "failure 2".into() }));
    assert_eq!(index.asked, vec![puts[0].clone(), puts[1].clone(), "flush".to_string()]);

    let mut index = Recorder::new(None);
    assert_eq!(flows::reindex_all(&Store::new(), &mut index), Ok(0));
    assert_eq!(index.asked, strings(&["flush"]));
}

/// An index that gives the answers that it was given, one after the
/// other, and writes down what it is asked.
struct Oracle {
    answers: std::cell::RefCell<Vec<Result<Vec<IndexedPlace>, IndexError>>>,
    asked: std::cell::RefCell<Vec<(IndexQuery, usize)>>,
}

impl Oracle {
    fn new(mut answers: Vec<Result<Vec<IndexedPlace>, IndexError>>) -> Self {
        answers.reverse();
        Oracle { answers: std::cell::RefCell::new(answers), asked: std::cell::RefCell::new(vec![]) }
    }
}

impl PlaceIndex for Oracle {
    fn query_places(&self, query: &IndexQuery, limit: usize) -> Result<Vec<IndexedPlace>, IndexError> {
        self.asked.borrow_mut().push((query.clone(), limit));
        self.answers.borrow_mut().pop().unwrap()
    }
}

fn found_at(id: &str, lat: i32, lng: i32) -> IndexedPlace {
    IndexedPlace {
        id: id.into(),
        pos: MapPoint::try_from_raw(lat, lng).unwrap(),
        title: String::new(),
        description: String::new(),
        tags: vec![],
        ratings: IndexedRatings {
            total: 0,
            diversity: 0,
            fairness: 0,
            humanity: 0,
            renewable: 0,
            solidarity: 0,
            transparency: 0,
        },
    }
}

fn ids_of(places: &[IndexedPlace]) -> Vec<String> {
    places.iter().map(|p| p.id.clone()).collect()
}

fn square() -> MapBbox {
    MapBbox::new(MapPoint::try_from_raw(0, 0).unwrap(), MapPoint::try_from_raw(100, 100).unwrap())
}

fn square_request<'a>() -> SearchRequest<'a> {
    SearchRequest { bbox: square(), ids: vec![], categories: vec![], hash_tags: vec!["a"], text: Some("cafe #b") }
}

#[test]
fn search_asks_for_what_is_missing() {
    let index = Oracle::new(vec![
        Ok(vec![found_at("a", 0, 0), found_at("out", 101, 50), found_at("b", 100, 100)]),
        Ok(vec![found_at("in", 50, 50), found_at("ring", 105, 105), found_at("ring2", -5, 50)]),
    ]);
    let (visible, invisible) = search(&index, square_request(), 3).unwrap();
    assert_eq!(ids_of(&visible), strings(&["a", "b"]));
    assert_eq!(ids_of(&invisible), strings(&["ring"]));
    let visible_query = visible_places_query(&square_request());
    let asked = index.asked.borrow();
    assert_eq!(asked.len(), 2);
    assert_eq!(asked[0], (visible_query.clone(), 3));
    assert_eq!(asked[1], (invisible_places_query(&visible_query), 1));
}

#[test]
fn search_asks_once_where_nothing_is_missing() {
    let index = Oracle::new(vec![Ok(vec![
        found_at("a", 0, 0),
        found_at("b", 1, 1),
        found_at("c", 2, 2),
        found_at("d", 3, 3),
    ])]);
    let (visible, invisible) = search(&index, square_request(), 3).unwrap();
    assert_eq!(ids_of(&visible), strings(&["a", "b", "c"]));
    assert!(invisible.is_empty());
    assert_eq!(index.asked.borrow().len(), 1);
}

#[test]
fn search_hands_on_a_failure_of_the_index() {
    let index = Oracle::new(vec![Err(IndexError { message: "first".into() })]);
    assert_eq!(search(&index, square_request(), 3), Err(RepoError::Other("first".into())));
    assert_eq!(index.asked.borrow().len(), 1);

    let index = Oracle::new(vec![Ok(vec![found_at("a", 0, 0)]), Err(IndexError { message: "second".into() })]);
    assert_eq!(search(&index, square_request(), 3), Err(RepoError::Other("second".into())));
    assert_eq!(index.asked.borrow()[1].1, 2);
}

#[test]
fn global_search_hands_on_the_answer_of_the_index() {
    // The answer is handed on as it is, even where it is longer than was
    // asked for.
    let index = Oracle::new(vec![Ok(vec![found_at("a", 0, 0), found_at("b", 500, 500), found_at("c", 2, 2)])]);
    assert_eq!(ids_of(&global_search(&index, "some text", 2).unwrap()), strings(&["a", "b", "c"]));
    assert_eq!(index.asked.borrow().len(), 1);
    assert_eq!(index.asked.borrow()[0], (global_places_query("some text"), 2));
    let mut only_text = IndexQuery::default();
    only_text.text = Some("some text".to_string());
    assert_eq!(index.asked.borrow()[0].0, only_text);

    let index = Oracle::new(vec![Ok(vec![found_at("a", 0, 0)])]);
    assert_eq!(ids_of(&global_search(&index, "x", 2).unwrap()), strings(&["a"]));

    let index = Oracle::new(vec![Err(IndexError { message: "gone".into() })]);
    assert_eq!(global_search(&index, "x", 2), Err(RepoError::Other("gone".into())));
    assert_eq!(index.asked.borrow().len(), 1);
}

#[test]
fn failure_for_what_is_there_already_says_so() {
    assert_eq!(
        openfairdb::store_users::duplicate_key(),
        RepoError::Other("unique constraint violated".into())
    );
    let mut fixture = EnvFixture::new();
    fixture.create_user("a@foo.tld", "x", Role::User);
    let again = fixture.db.create_user(&User {
        email: "a@foo.tld".into(),
        email_confirmed: false,
        password: "y".into(),
        role: Role::Admin,
    });
    assert_eq!(again, Err(RepoError::Other("unique constraint violated".into())));
}

#[test]
fn index_is_asked_once_the_store_has_taken_a_change() {
    let unit = 0x5555_5555_5555_5555u64;
    let mut db = Store::new();
    let mut outbox = Outbox::new();
    db.create_user(&User {
        email: "scout@foo.tld".into(),
        email_confirmed: true,
        password: "x".into(),
        role: Role::Scout,
    })
    .unwrap();

    // A place that is refused is not put into the index.
    let mut index = Recorder::new(None);
    let mut untitled = new_place(1);
    untitled.title = "".into();
    assert_eq!(
        flows::create_place(&mut db, &mut index, &mut outbox, untitled, None, "p".into(), 1),
        Err(Error::Parameter(ParameterError::Title))
    );
    assert!(index.asked.is_empty());

    // A new place is put without ratings and made visible.
    flows::create_place(&mut db, &mut index, &mut outbox, new_place(1), None, "p".into(), 1).unwrap();
    assert_eq!(index.asked, vec![format!("put p {}", unit), "flush".to_string()]);

    // Where the index fails to take it up, it is asked nothing more, and
    // the store keeps the place.
    let mut index = Recorder::new(Some(0));
    flows::create_place(&mut db, &mut index, &mut outbox, new_place(2), None, "q".into(), 2).unwrap();
    assert_eq!(index.asked, vec![format!("put q {}", unit)]);
    assert!(db.get_place("q").is_ok());

    // A rating puts its place anew, with the rating.
    let mut index = Recorder::new(None);
    let rate = new_entry_rating(1, "p", RatingContext::Humanity, RatingValue::new(2));
    flows::create_rating(&mut db, &mut index, rate, "r".into(), "c".into(), 3).unwrap();
    assert_eq!(index.asked, vec![format!("put p {}", u64::MAX), "flush".to_string()]);
    let mut index = Recorder::new(None);
    let rate = new_entry_rating(2, "nothing", RatingContext::Humanity, RatingValue::new(2));
    assert!(flows::create_rating(&mut db, &mut index, rate, "r2".into(), "c2".into(), 4).is_err());
    assert!(index.asked.is_empty());

    // A changed place is put anew with the ratings that it has.
    let mut index = Recorder::new(None);
    let changed =
        flows::update_place(&mut db, &mut index, &mut outbox, "p", new_place(5), Some("scout@foo.tld"), None, 5)
            .unwrap();
    assert_eq!(changed.rev, 1);
    assert_eq!(index.asked, vec![format!("put p {}", u64::MAX), "flush".to_string()]);
    let mut index = Recorder::new(None);
    assert_eq!(
        flows::update_place(&mut db, &mut index, &mut outbox, "nothing", new_place(5), Some("scout@foo.tld"), None, 5),
        Err(Error::Repo(RepoError::NotFound))
    );
    assert!(index.asked.is_empty());

    // The place of an archived rating is put anew without it.
    let mut index = Recorder::new(None);
    assert_eq!(flows::archive_ratings(&mut db, &mut index, "scout@foo.tld", &["r"], 6), Ok(()));
    assert_eq!(index.asked, vec![format!("put p {}", unit), "flush".to_string()]);
    let mut index = Recorder::new(None);
    assert_eq!(
        flows::archive_ratings(&mut db, &mut index, "scout@foo.tld", &["r"], 7),
        Err(Error::Repo(RepoError::NotFound))
    );
    assert!(index.asked.is_empty());

    // Archived places are removed, and where one of them is archived
    // already the index is left alone.
    let mut index = Recorder::new(None);
    assert_eq!(flows::archive_places(&mut db, &mut index, &["q", "p"], "scout@foo.tld", 8), Ok(()));
    assert_eq!(index.asked, strings(&["remove q", "remove p", "flush"]));
    let mut index = Recorder::new(None);
    assert_eq!(
        flows::archive_places(&mut db, &mut index, &["p"], "scout@foo.tld", 9),
        Err(Error::Repo(RepoError::NotFound))
    );
    assert!(index.asked.is_empty());
}
