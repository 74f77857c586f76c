use openfairdb::entities::{Activity, Contact, Event, Location, Place, Role};
use openfairdb::export::{
    export_place, filter_tags, is_event_owned, strip_event_details_on_export,
    strip_event_details_on_search,
};
use openfairdb::geo::MapPoint;

fn strings(list: &[&str]) -> Vec<String> {
    list.iter().map(|s| s.to_string()).collect()
}

fn place() -> Place {
    Place {
        uid: "p".into(),
        license: "CC0-1.0".into(),
        rev: 0,
        created: Activity { at: 1, by: Some("creator@example.com".into()) },
        title: "title".into(),
        description: "description".into(),
        location: Location { pos: MapPoint::default(), address: None },
        contact: Some(Contact { email: Some("mail@example.com".into()), phone: Some("0123".into()) }),
        homepage: None,
        image_url: None,
        image_link_url: None,
        tags: strings(&["free", "mine", "theirs", "open"]),
    }
}

#[test]
fn administrator_gets_everything_of_a_place() {
    let exported = export_place(place(), Role::Admin, &strings(&["mine", "theirs"]), &vec![]);
    assert_eq!(exported, place());
}

#[test]
fn scout_gets_contact_details_but_no_tags_of_others() {
    let exported = export_place(place(), Role::Scout, &strings(&["mine", "theirs"]), &strings(&["mine"]));
    assert_eq!(exported.contact, place().contact);
    assert_eq!(exported.tags, strings(&["free", "mine", "open"]));
    let mut expected = place();
    expected.tags = strings(&["free", "mine", "open"]);
    assert_eq!(exported, expected);
}

#[test]
fn others_get_neither_contact_details_nor_tags_of_others() {
    for role in [Role::Guest, Role::User] {
        let exported = export_place(place(), role, &strings(&["mine", "theirs"]), &vec![]);
        assert_eq!(exported.contact, None);
        assert_eq!(exported.tags, strings(&["free", "open"]));
        assert_eq!(exported.title, "title");
    }
    assert_eq!(
        filter_tags(strings(&["a", "b", "c"]), &strings(&["c", "a"]), &strings(&["a", "x"])),
        strings(&["a", "b"])
    );
    assert_eq!(place().strip_contact_details().contact, None);
}

fn event(tags: &[&str]) -> Event {
    Event {
        uid: "e".into(),
        title: "x".into(),
        description: None,
        start: 5,
        end: None,
        location: None,
        contact: Some(Contact { email: None, phone: Some("0123".into()) }),
        tags: strings(tags),
        homepage: None,
        created_by: Some("creator@example.com".into()),
        registration: None,
        organizer: None,
        archived: None,
        image_url: None,
        image_link_url: None,
    }
}

#[test]
fn event_belongs_to_the_owner_of_one_of_its_tags() {
    assert!(is_event_owned(&event(&["a", "b"]), &strings(&["x", "b"])));
    assert!(!is_event_owned(&event(&["a", "b"]), &strings(&["x"])));
    assert!(!is_event_owned(&event(&["a", "b"]), &strings(&[])));
    assert!(!is_event_owned(&event(&[]), &strings(&["a"])));
}

#[test]
fn search_hides_who_entered_an_event_from_others() {
    let events = vec![event(&["mine"]), event(&["theirs"])];
    let stripped = strip_event_details_on_search(events, &strings(&["mine"]));
    assert_eq!(stripped.len(), 2);
    assert_eq!(stripped[0], event(&["mine"]));
    assert_eq!(stripped[1].created_by, None);
    assert_eq!(stripped[1].contact, event(&[]).contact);
    assert_eq!(stripped[1].tags, strings(&["theirs"]));
}

#[test]
fn export_hides_details_of_events_by_role() {
    let events = || vec![event(&["mine"]), event(&["theirs"])];
    let owned = strings(&["mine"]);
    assert_eq!(strip_event_details_on_export(events(), Role::Admin, &vec![]), events());
    let for_scout = strip_event_details_on_export(events(), Role::Scout, &owned);
    assert_eq!(for_scout[0], event(&["mine"]));
    assert_eq!(for_scout[1].created_by, None);
    assert!(for_scout[1].contact.is_some());
    for role in [Role::Guest, Role::User] {
        let for_others = strip_event_details_on_export(events(), role, &owned);
        for e in for_others {
            assert_eq!(e.created_by, None);
            assert_eq!(e.contact, None);
            assert_eq!(e.title, "x");
        }
    }
}
