use openfairdb::document::{
    field_options, place_document, read_indexed_place, FieldEntry, FieldOptions, FieldValue,
    IndexField, TermRecord, Tokenizer,
};
use openfairdb::entities::{Activity, Address, Contact, Location, Place};
use openfairdb::geo::{LatCoord, LngCoord, MapBbox, MapPoint};
use openfairdb::index::{
    build_query, check_limit, lowercase_tag_list, Clause, CoordField, IndexError, IndexQuery,
    IndexedPlace, IndexedRatings, Occur, RangeBound, SubQuery, Term, TopDocsMode,
};

fn strings(list: &[&str]) -> Vec<String> {
    list.iter().map(|s| s.to_string()).collect()
}

fn raw_bbox(south: i32, west: i32, north: i32, east: i32) -> MapBbox {
    MapBbox::new(
        MapPoint::new(LatCoord::from_raw(south), LngCoord::from_raw(west)),
        MapPoint::new(LatCoord::from_raw(north), LngCoord::from_raw(east)),
    )
}

fn must(term: Term) -> Clause {
    Clause { occur: Occur::Must, query: SubQuery::One(term) }
}

fn must_not(term: Term) -> Clause {
    Clause { occur: Occur::MustNot, query: SubQuery::One(term) }
}

fn range(field: CoordField, lower: RangeBound, upper: RangeBound) -> Term {
    Term::Range { field, lower, upper }
}

#[test]
fn empty_query_has_no_clause() {
    let (clauses, mode) = build_query(&IndexQuery::default(), true);
    assert_eq!(clauses, vec![]);
    assert_eq!(mode, TopDocsMode::Rating);
}

#[test]
fn ids_become_one_mandatory_clause() {
    let mut query = IndexQuery::default();
    query.ids = strings(&["a"]);
    let (clauses, mode) = build_query(&query, true);
    assert_eq!(clauses, vec![must(Term::Id("a".into()))]);
    assert_eq!(mode, TopDocsMode::Rating);

    query.ids = strings(&["a", "B"]);
    let (clauses, _) = build_query(&query, true);
    assert_eq!(
        clauses,
        vec![Clause {
            occur: Occur::Must,
            query: SubQuery::AnyOf(vec![Term::Id("a".into()), Term::Id("B".into())]),
        }]
    );
}

#[test]
fn included_bbox_becomes_two_ranges() {
    let mut query = IndexQuery::default();
    query.include_bbox = Some(raw_bbox(-10, -20, 10, 20));
    let (clauses, mode) = build_query(&query, true);
    assert_eq!(
        clauses,
        vec![
            must(range(CoordField::Lat, RangeBound::Included(-10), RangeBound::Included(10))),
            must(range(CoordField::Lng, RangeBound::Included(-20), RangeBound::Included(20))),
        ]
    );
    assert_eq!(mode, TopDocsMode::Rating);
}

#[test]
fn included_bbox_that_wraps_excludes_the_open_range_outside() {
    let mut query = IndexQuery::default();
    query.include_bbox = Some(raw_bbox(-10, 20, 10, -20));
    let (clauses, _) = build_query(&query, true);
    assert_eq!(
        clauses,
        vec![
            must(range(CoordField::Lat, RangeBound::Included(-10), RangeBound::Included(10))),
            must_not(range(CoordField::Lng, RangeBound::Excluded(-20), RangeBound::Excluded(20))),
        ]
    );
}

#[test]
fn excluded_bbox_counts_the_other_way_round() {
    let mut query = IndexQuery::default();
    query.exclude_bbox = Some(raw_bbox(-10, -20, 10, 20));
    let (clauses, _) = build_query(&query, true);
    assert_eq!(
        clauses,
        vec![
            must_not(range(CoordField::Lat, RangeBound::Included(-10), RangeBound::Included(10))),
            must_not(range(CoordField::Lng, RangeBound::Included(-20), RangeBound::Included(20))),
        ]
    );
    query.exclude_bbox = Some(raw_bbox(-10, 20, 10, -20));
    let (clauses, _) = build_query(&query, true);
    assert_eq!(
        clauses,
        vec![
            must_not(range(CoordField::Lat, RangeBound::Included(-10), RangeBound::Included(10))),
            must(range(CoordField::Lng, RangeBound::Excluded(-20), RangeBound::Excluded(20))),
        ]
    );
}

#[test]
fn categories_become_one_clause_of_their_tags() {
    let mut query = IndexQuery::default();
    query.categories = strings(&["2cd00bebec0c48ba9db761da48678134", "unknown"]);
    let (clauses, mode) = build_query(&query, true);
    assert_eq!(clauses, vec![must(Term::Tag("non-profit".into()))]);
    assert_eq!(mode, TopDocsMode::Rating);

    query.categories = strings(&[
        "77b3c33a92554bcf8e8c2c86cedd6f6f",
        "nothing",
        "c2dc278a2d6a4b9b8a50cb606fc017ed",
    ]);
    let (clauses, _) = build_query(&query, true);
    assert_eq!(
        clauses,
        vec![Clause {
            occur: Occur::Must,
            query: SubQuery::AnyOf(vec![Term::Tag("commercial".into()), Term::Tag("event".into())]),
        }]
    );

    query.categories = strings(&["unknown"]);
    let (clauses, _) = build_query(&query, true);
    assert_eq!(clauses, vec![]);
}

#[test]
fn hash_tags_become_mandatory_clauses_in_lower_case() {
    let mut query = IndexQuery::default();
    query.hash_tags = strings(&["Foo", "bar", "FOO", ""]);
    let (clauses, mode) = build_query(&query, true);
    assert_eq!(clauses, vec![must(Term::Tag("foo".into())), must(Term::Tag("bar".into()))]);
    assert_eq!(mode, TopDocsMode::Rating);
    assert_eq!(lowercase_tag_list(&strings(&["Ä", "ä", "B"])), strings(&["ä", "b"]));
}

#[test]
fn text_and_its_words_become_one_clause_and_switch_the_order() {
    let mut query = IndexQuery::default();
    query.text = Some("Café Olé".into());
    query.text_tags = strings(&["Café", "olé"]);
    let (clauses, mode) = build_query(&query, true);
    assert_eq!(
        clauses,
        vec![Clause {
            occur: Occur::Must,
            query: SubQuery::AnyOf(vec![
                Term::Text("café olé".into()),
                Term::Tag("café".into()),
                Term::Tag("olé".into()),
            ]),
        }]
    );
    assert_eq!(mode, TopDocsMode::ScoreBoostedByRating);

    // Text alone
    query.text_tags = vec![];
    let (clauses, mode) = build_query(&query, true);
    assert_eq!(
        clauses,
        vec![Clause {
            occur: Occur::Must,
            query: SubQuery::AnyOf(vec![Term::Text("café olé".into())]),
        }]
    );
    assert_eq!(mode, TopDocsMode::ScoreBoostedByRating);

    // Text that the index cannot parse is left out.
    let (clauses, mode) = build_query(&query, false);
    assert_eq!(clauses, vec![]);
    assert_eq!(mode, TopDocsMode::Rating);
}

#[test]
fn clauses_come_in_their_order() {
    let query = IndexQuery {
        include_bbox: Some(raw_bbox(0, 0, 1, 1)),
        exclude_bbox: Some(raw_bbox(2, 2, 3, 3)),
        categories: strings(&["c2dc278a2d6a4b9b8a50cb606fc017ed"]),
        ids: strings(&["x"]),
        hash_tags: strings(&["t"]),
        text_tags: strings(&["w"]),
        text: None,
    };
    let (clauses, mode) = build_query(&query, true);
    assert_eq!(
        clauses,
        vec![
            must(Term::Id("x".into())),
            must(range(CoordField::Lat, RangeBound::Included(0), RangeBound::Included(1))),
            must(range(CoordField::Lng, RangeBound::Included(0), RangeBound::Included(1))),
            must_not(range(CoordField::Lat, RangeBound::Included(2), RangeBound::Included(3))),
            must_not(range(CoordField::Lng, RangeBound::Included(2), RangeBound::Included(3))),
            must(Term::Tag("event".into())),
            must(Term::Tag("t".into())),
            Clause { occur: Occur::Must, query: SubQuery::AnyOf(vec![Term::Tag("w".into())]) },
        ]
    );
    assert_eq!(mode, TopDocsMode::ScoreBoostedByRating);
}

fn place() -> Place {
    Place {
        uid: "abc".into(),
        license: "CC0-1.0".into(),
        rev: 3,
        created: Activity { at: 5, by: None },
        title: "A title".into(),
        description: "A description".into(),
        location: Location {
            pos: MapPoint::try_from_raw(100, -200).unwrap(),
            address: Some(Address {
                street: Some("Street 1".into()),
                zip: None,
                city: Some("City".into()),
                country: None,
            }),
        },
        contact: Some(Contact { email: Some("a@b.de".into()), phone: None }),
        homepage: None,
        image_url: None,
        image_link_url: None,
        tags: strings(&["one", "two"]),
    }
}

fn ratings() -> IndexedRatings {
    IndexedRatings {
        total: 7,
        diversity: 1,
        fairness: 2,
        humanity: 3,
        renewable: 4,
        solidarity: 5,
        transparency: 6,
    }
}

fn text(field: IndexField, value: &str) -> FieldEntry {
    FieldEntry { field, value: FieldValue::Text(value.to_string()) }
}

fn number(field: IndexField, value: u64) -> FieldEntry {
    FieldEntry { field, value: FieldValue::U64(value) }
}

#[test]
fn place_is_stored_field_by_field() {
    let doc = place_document(&place(), &ratings());
    assert_eq!(
        doc,
        vec![
            text(IndexField::Id, "abc"),
            FieldEntry { field: IndexField::Lat, value: FieldValue::I64(100) },
            FieldEntry { field: IndexField::Lng, value: FieldValue::I64(-200) },
            text(IndexField::Title, "A title"),
            text(IndexField::Description, "A description"),
            text(IndexField::AddressStreet, "Street 1"),
            text(IndexField::AddressCity, "City"),
            text(IndexField::Tag, "one"),
            text(IndexField::Tag, "two"),
            number(IndexField::TotalRating, 7),
            number(IndexField::RatingDiversity, 1),
            number(IndexField::RatingFairness, 2),
            number(IndexField::RatingHumanity, 3),
            number(IndexField::RatingRenewable, 4),
            number(IndexField::RatingSolidarity, 5),
            number(IndexField::RatingTransparency, 6),
        ]
    );
    assert_eq!(IndexField::Lng.name(), "lon");
    assert_eq!(IndexField::TotalRating.name(), "rat_total");
    assert!(IndexField::Tag.is_stored());
    assert!(!IndexField::AddressZip.is_stored());
}

#[test]
fn place_is_read_from_its_fields() {
    let doc = place_document(&place(), &ratings());
    let indexed = read_indexed_place(&doc);
    assert_eq!(
        indexed,
        IndexedPlace {
            id: "abc".into(),
            pos: MapPoint::try_from_raw(100, -200).unwrap(),
            title: "A title".into(),
            description: "A description".into(),
            tags: strings(&["one", "two"]),
            ratings: ratings(),
        }
    );
}

#[test]
fn fields_that_do_not_fit_are_passed_over() {
    let doc = vec![
        text(IndexField::Id, "x"),
        text(IndexField::Lat, "not a number"),
        FieldEntry { field: IndexField::Lng, value: FieldValue::I64(5) },
        FieldEntry { field: IndexField::Lat, value: FieldValue::I64(8_388_609) },
        number(IndexField::Title, 3),
        text(IndexField::AddressCity, "City"),
    ];
    let indexed = read_indexed_place(&doc);
    assert_eq!(indexed.id, "x");
    assert_eq!(indexed.title, "");
    // Without a latitude the position stays where it was.
    assert_eq!(indexed.pos, MapPoint::default());
    assert_eq!(indexed.tags, strings(&[]));
}

#[test]
fn index_is_asked_for_one_place_at_least() {
    assert_eq!(check_limit(0), Err(IndexError { message: "Invalid limit: 0".into() }));
    assert_eq!(check_limit(1), Ok(()));
    assert_eq!(check_limit(usize::MAX), Ok(()));
}

#[test]
fn fields_are_kept_as_they_are_searched() {
    let text = |tokenizer, record, stored| FieldOptions::Text { tokenizer, record, stored };
    assert_eq!(field_options(IndexField::Id), text(Tokenizer::Id, TermRecord::Basic, true));
    assert_eq!(field_options(IndexField::Tag), text(Tokenizer::Tag, TermRecord::WithFreqs, true));
    for field in [IndexField::Title, IndexField::Description] {
        assert_eq!(field_options(field), text(Tokenizer::Text, TermRecord::WithFreqsAndPositions, true));
    }
    for field in [
        IndexField::AddressStreet,
        IndexField::AddressCity,
        IndexField::AddressZip,
        IndexField::AddressCountry,
    ] {
        assert_eq!(field_options(field), text(Tokenizer::Text, TermRecord::WithFreqs, false));
        assert!(!field.is_stored());
    }
    for field in [IndexField::Lat, IndexField::Lng] {
        assert_eq!(field_options(field), FieldOptions::Coordinate { indexed: true, stored: true, fast: true });
    }
    for field in [
        IndexField::RatingDiversity,
        IndexField::RatingFairness,
        IndexField::RatingHumanity,
        IndexField::RatingRenewable,
        IndexField::RatingSolidarity,
        IndexField::RatingTransparency,
    ] {
        assert_eq!(field_options(field), FieldOptions::Average { stored: true, fast: false });
    }
    assert_eq!(field_options(IndexField::TotalRating), FieldOptions::Average { stored: true, fast: true });
}
