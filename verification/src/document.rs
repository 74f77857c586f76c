//! What the index stores of a place, field by field, and how a place that
//! was found is read from its fields.

use crate::entities::{AddressView, Place, PlaceView};
use crate::geo::{LatCoord, LngCoord, MapPoint, LAT_RAW_MAX, LNG_RAW_MAX};
use crate::index::{IndexedPlace, IndexedPlaceView, IndexedRatings};
use vstd::prelude::*;

verus! {

/// The fields of a place in the index.
#[derive(Clone, Copy, Debug, PartialEq, Eq, Structural, Hash)]
pub enum IndexField {
    Id,
    Lat,
    Lng,
    Title,
    Description,
    AddressStreet,
    AddressCity,
    AddressZip,
    AddressCountry,
    Tag,
    RatingDiversity,
    RatingFairness,
    RatingHumanity,
    RatingRenewable,
    RatingSolidarity,
    RatingTransparency,
    TotalRating,
}

impl IndexField {
    /// The name of the field in the index.
    pub open spec fn spec_name(self) -> Seq<char> {
        match self {
            IndexField::Id => "id"@,
            IndexField::Lat => "lat"@,
            IndexField::Lng => "lon"@,
            IndexField::Title => "tit"@,
            IndexField::Description => "dsc"@,
            IndexField::AddressStreet => "adr_street"@,
            IndexField::AddressCity => "adr_city"@,
            IndexField::AddressZip => "adr_zip"@,
            IndexField::AddressCountry => "adr_country"@,
            IndexField::Tag => "tag"@,
            IndexField::RatingDiversity => "rat_diversity"@,
            IndexField::RatingFairness => "rat_fairness"@,
            IndexField::RatingHumanity => "rat_humanity"@,
            IndexField::RatingRenewable => "rat_renewable"@,
            IndexField::RatingSolidarity => "rat_solidarity"@,
            IndexField::RatingTransparency => "rat_transparency"@,
            IndexField::TotalRating => "rat_total"@,
        }
    }

    /// The name of the field in the index.
    pub fn name(self) -> (s: &'static str)
        ensures
            s@ == self.spec_name(),
    {
        match self {
            IndexField::Id => "id",
            IndexField::Lat => "lat",
            IndexField::Lng => "lon",
            IndexField::Title => "tit",
            IndexField::Description => "dsc",
            IndexField::AddressStreet => "adr_street",
            IndexField::AddressCity => "adr_city",
            IndexField::AddressZip => "adr_zip",
            IndexField::AddressCountry => "adr_country",
            IndexField::Tag => "tag",
            IndexField::RatingDiversity => "rat_diversity",
            IndexField::RatingFairness => "rat_fairness",
            IndexField::RatingHumanity => "rat_humanity",
            IndexField::RatingRenewable => "rat_renewable",
            IndexField::RatingSolidarity => "rat_solidarity",
            IndexField::RatingTransparency => "rat_transparency",
            IndexField::TotalRating => "rat_total",
        }
    }

    /// Whether the index hands the field out with a place that it has
    /// found. The parts of the address are searched, but not handed out.
    pub open spec fn stored(self) -> bool {
        !(self == IndexField::AddressStreet || self == IndexField::AddressCity || self
            == IndexField::AddressZip || self == IndexField::AddressCountry)
    }

    pub fn is_stored(self) -> (b: bool)
        ensures
            b == self.stored(),
    {
        match self {
            IndexField::AddressStreet
            | IndexField::AddressCity
            | IndexField::AddressZip
            | IndexField::AddressCountry => false,
            _ => true,
        }
    }
}

/// How the text of a field is cut into the terms that are searched.
#[derive(Clone, Copy, Debug, PartialEq, Eq, Structural)]
pub enum Tokenizer {
    /// The text as it is, as one term.
    Id,
    /// The text in lower case, as one term.
    Tag,
    /// The words of the text, in lower case, cut at white space and
    /// punctuation.
    Text,
}

/// What the index keeps of the terms of a text.
#[derive(Clone, Copy, Debug, PartialEq, Eq, Structural)]
pub enum TermRecord {
    /// In which places a term stands.
    Basic,
    /// Also how often it stands there.
    WithFreqs,
    /// Also where in the text it stands, so that phrases are found.
    WithFreqsAndPositions,
}

/// How the index keeps a field.
#[derive(Clone, Copy, Debug, PartialEq, Eq, Structural)]
pub enum FieldOptions {
    /// A text that is searched by its terms.
    Text { tokenizer: Tokenizer, record: TermRecord, stored: bool },
    /// A coordinate: a signed number that is searched by ranges, for which
    /// it is kept as a fast field.
    Coordinate { indexed: bool, stored: bool, fast: bool },
    /// An average of ratings: an unsigned number that is not searched. By
    /// a fast field places can be ranked.
    Average { stored: bool, fast: bool },
}

impl FieldOptions {
    /// Whether the index hands the field out with a place that it has
    /// found.
    pub open spec fn stored(self) -> bool {
        match self {
            FieldOptions::Text { stored, .. } => stored,
            FieldOptions::Coordinate { stored, .. } => stored,
            FieldOptions::Average { stored, .. } => stored,
        }
    }
}

/// How the index keeps each of its fields. The identifier is one term as
/// it is, a tag one term in lower case. Title and description are
/// searched by words and phrases, the parts of the address by words only.
/// Places are ranked by the total of their ratings.
pub open spec fn options_of(field: IndexField) -> FieldOptions {
    match field {
        IndexField::Id => FieldOptions::Text {
            tokenizer: Tokenizer::Id,
            record: TermRecord::Basic,
            stored: true,
        },
        IndexField::Lat | IndexField::Lng => FieldOptions::Coordinate {
            indexed: true,
            stored: true,
            fast: true,
        },
        IndexField::Title | IndexField::Description => FieldOptions::Text {
            tokenizer: Tokenizer::Text,
            record: TermRecord::WithFreqsAndPositions,
            stored: true,
        },
        IndexField::AddressStreet
        | IndexField::AddressCity
        | IndexField::AddressZip
        | IndexField::AddressCountry => FieldOptions::Text {
            tokenizer: Tokenizer::Text,
            record: TermRecord::WithFreqs,
            stored: false,
        },
        IndexField::Tag => FieldOptions::Text {
            tokenizer: Tokenizer::Tag,
            record: TermRecord::WithFreqs,
            stored: true,
        },
        IndexField::TotalRating => FieldOptions::Average { stored: true, fast: true },
        _ => FieldOptions::Average { stored: true, fast: false },
    }
}

/// How the index keeps a field.
pub fn field_options(field: IndexField) -> (o: FieldOptions)
    ensures
        o == options_of(field),
{
    match field {
        IndexField::Id => FieldOptions::Text {
            tokenizer: Tokenizer::Id,
            record: TermRecord::Basic,
            stored: true,
        },
        IndexField::Lat | IndexField::Lng => FieldOptions::Coordinate {
            indexed: true,
            stored: true,
            fast: true,
        },
        IndexField::Title | IndexField::Description => FieldOptions::Text {
            tokenizer: Tokenizer::Text,
            record: TermRecord::WithFreqsAndPositions,
            stored: true,
        },
        IndexField::AddressStreet
        | IndexField::AddressCity
        | IndexField::AddressZip
        | IndexField::AddressCountry => FieldOptions::Text {
            tokenizer: Tokenizer::Text,
            record: TermRecord::WithFreqs,
            stored: field.is_stored(),
        },
        IndexField::Tag => FieldOptions::Text {
            tokenizer: Tokenizer::Tag,
            record: TermRecord::WithFreqs,
            stored: true,
        },
        IndexField::TotalRating => FieldOptions::Average { stored: true, fast: true },
        _ => FieldOptions::Average { stored: true, fast: false },
    }
}

/// A field is kept for handing out exactly where it is one of those that
/// are handed out.
pub proof fn lemma_options_stored(field: IndexField)
    ensures
        options_of(field).stored() == field.stored(),
{
}

/// The value of a field.
#[derive(Debug, PartialEq, Eq)]
pub enum FieldValue {
    Text(String),
    I64(i64),
    U64(u64),
}

pub enum FieldValueView {
    Text(Seq<char>),
    I64(i64),
    U64(u64),
}

impl View for FieldValue {
    type V = FieldValueView;

    open spec fn view(&self) -> FieldValueView {
        match self {
            FieldValue::Text(s) => FieldValueView::Text(s@),
            FieldValue::I64(v) => FieldValueView::I64(*v),
            FieldValue::U64(v) => FieldValueView::U64(*v),
        }
    }
}

/// A field together with a value. A place may have several values in one
/// field.
#[derive(Debug, PartialEq, Eq)]
pub struct FieldEntry {
    pub field: IndexField,
    pub value: FieldValue,
}

pub struct FieldEntryView {
    pub field: IndexField,
    pub value: FieldValueView,
}

impl View for FieldEntry {
    type V = FieldEntryView;

    open spec fn view(&self) -> FieldEntryView {
        FieldEntryView { field: self.field, value: self.value@ }
    }
}

impl DeepView for FieldEntry {
    type V = FieldEntryView;

    open spec fn deep_view(&self) -> FieldEntryView {
        self@
    }
}

/// A field with a text as its value.
pub open spec fn text_entry(field: IndexField, text: Seq<char>) -> FieldEntryView {
    FieldEntryView { field, value: FieldValueView::Text(text) }
}

/// A field with a text as its value, if there is a text.
pub open spec fn text_entries(field: IndexField, text: Option<Seq<char>>) -> Seq<FieldEntryView> {
    match text {
        Some(text) => seq![text_entry(field, text)],
        None => Seq::empty(),
    }
}

/// The field of tags with each of the tags as a value.
pub open spec fn tag_entries(tags: Seq<Seq<char>>) -> Seq<FieldEntryView> {
    Seq::new(tags.len(), |i: int| text_entry(IndexField::Tag, tags[i]))
}

/// A field with a rating as its value.
pub open spec fn rating_entry(field: IndexField, value: u64) -> FieldEntryView {
    FieldEntryView { field, value: FieldValueView::U64(value) }
}

/// The part of an address that may be missing, of an address that may be
/// missing.
pub open spec fn address_part(
    address: Option<AddressView>,
    part: spec_fn(AddressView) -> Option<Seq<char>>,
) -> Option<Seq<char>> {
    match address {
        Some(address) => part(address),
        None => None,
    }
}

/// The fields of a place, with their values: its identifier, its position,
/// its title and description, the parts of its address that are there, its
/// tags, and its ratings.
pub open spec fn document_of(place: PlaceView, ratings: IndexedRatings) -> Seq<FieldEntryView> {
    seq![
        text_entry(IndexField::Id, place.uid),
        FieldEntryView {
            field: IndexField::Lat,
            value: FieldValueView::I64(place.location.pos.lat.raw as i64),
        },
        FieldEntryView {
            field: IndexField::Lng,
            value: FieldValueView::I64(place.location.pos.lng.raw as i64),
        },
        text_entry(IndexField::Title, place.title),
        text_entry(IndexField::Description, place.description),
    ] + text_entries(
        IndexField::AddressStreet,
        address_part(place.location.address, |a: AddressView| a.street),
    ) + text_entries(
        IndexField::AddressCity,
        address_part(place.location.address, |a: AddressView| a.city),
    ) + text_entries(
        IndexField::AddressZip,
        address_part(place.location.address, |a: AddressView| a.zip),
    ) + text_entries(
        IndexField::AddressCountry,
        address_part(place.location.address, |a: AddressView| a.country),
    ) + tag_entries(place.tags) + seq![
        rating_entry(IndexField::TotalRating, ratings.total),
        rating_entry(IndexField::RatingDiversity, ratings.diversity),
        rating_entry(IndexField::RatingFairness, ratings.fairness),
        rating_entry(IndexField::RatingHumanity, ratings.humanity),
        rating_entry(IndexField::RatingRenewable, ratings.renewable),
        rating_entry(IndexField::RatingSolidarity, ratings.solidarity),
        rating_entry(IndexField::RatingTransparency, ratings.transparency),
    ]
}

fn push_text(doc: &mut Vec<FieldEntry>, field: IndexField, text: &String)
    ensures
        final(doc).deep_view() == old(doc).deep_view().push(text_entry(field, text@)),
{
    let ghost before = doc.deep_view();
    doc.push(FieldEntry { field, value: FieldValue::Text(text.clone()) });
    assert(doc.deep_view() =~= before.push(text_entry(field, text@)));
}

fn push_optional_text(doc: &mut Vec<FieldEntry>, field: IndexField, text: &Option<String>)
    ensures
        final(doc).deep_view() == old(doc).deep_view() + text_entries(field, text.deep_view()),
{
    let ghost before = doc.deep_view();
    match text {
        Some(text) => {
            push_text(doc, field, text);
            assert(doc.deep_view() =~= before + text_entries(field, Some(text@)));
        },
        None => {
            assert(doc.deep_view() =~= before + text_entries(field, None));
        },
    }
}

fn push_number(doc: &mut Vec<FieldEntry>, field: IndexField, value: FieldValue)
    requires
        !(value is Text),
    ensures
        final(doc).deep_view() == old(doc).deep_view().push(
            FieldEntryView { field, value: value@ },
        ),
{
    let ghost before = doc.deep_view();
    doc.push(FieldEntry { field, value });
    assert(doc.deep_view() =~= before.push(FieldEntryView { field, value: value@ }));
}

/// Lists the fields of a place with their values, as the index is to
/// store them.
pub fn place_document(place: &Place, ratings: &IndexedRatings) -> (doc: Vec<FieldEntry>)
    ensures
        doc.deep_view() == document_of(place@, *ratings),
{
    let mut doc: Vec<FieldEntry> = Vec::new();
    assert(doc.deep_view() == Seq::<FieldEntryView>::empty());
    push_text(&mut doc, IndexField::Id, &place.uid);
    push_number(&mut doc, IndexField::Lat, FieldValue::I64(place.location.pos.lat.raw as i64));
    push_number(&mut doc, IndexField::Lng, FieldValue::I64(place.location.pos.lng.raw as i64));
    push_text(&mut doc, IndexField::Title, &place.title);
    push_text(&mut doc, IndexField::Description, &place.description);
    let ghost head = doc.deep_view();
    let ghost address = place@.location.address;
    match &place.location.address {
        Some(address) => {
            push_optional_text(&mut doc, IndexField::AddressStreet, &address.street);
            push_optional_text(&mut doc, IndexField::AddressCity, &address.city);
            push_optional_text(&mut doc, IndexField::AddressZip, &address.zip);
            push_optional_text(&mut doc, IndexField::AddressCountry, &address.country);
        },
        None => {
            assert(doc.deep_view() =~= head + text_entries(IndexField::AddressStreet, None)
                + text_entries(IndexField::AddressCity, None) + text_entries(
                IndexField::AddressZip,
                None,
            ) + text_entries(IndexField::AddressCountry, None));
        },
    }
    let ghost with_address = doc.deep_view();
    let mut i: usize = 0;
    while i < place.tags.len()
        invariant
            i <= place.tags.len(),
            doc.len() == with_address.len() + i,
            forall|k: int| 0 <= k < with_address.len() ==> doc[k]@ == with_address[k],
            forall|k: int|
                0 <= k < i ==> (#[trigger] doc[with_address.len() + k])@ == text_entry(
                    IndexField::Tag,
                    place.tags[k]@,
                ),
        decreases place.tags.len() - i,
    {
        doc.push(FieldEntry { field: IndexField::Tag, value: FieldValue::Text(place.tags[i].clone()) });
        i += 1;
    }
    proof {
        assert(doc.deep_view() =~= with_address + tag_entries(place@.tags)) by {
            assert forall|k: int| 0 <= k < doc.len() implies doc.deep_view()[k] == (with_address
                + tag_entries(place@.tags))[k] by {
                if k >= with_address.len() {
                    assert(doc[with_address.len() + (k - with_address.len())]@ == text_entry(
                        IndexField::Tag,
                        place.tags[k - with_address.len()]@,
                    ));
                }
            }
        }
    }
    push_number(&mut doc, IndexField::TotalRating, FieldValue::U64(ratings.total));
    push_number(&mut doc, IndexField::RatingDiversity, FieldValue::U64(ratings.diversity));
    push_number(&mut doc, IndexField::RatingFairness, FieldValue::U64(ratings.fairness));
    push_number(&mut doc, IndexField::RatingHumanity, FieldValue::U64(ratings.humanity));
    push_number(&mut doc, IndexField::RatingRenewable, FieldValue::U64(ratings.renewable));
    push_number(&mut doc, IndexField::RatingSolidarity, FieldValue::U64(ratings.solidarity));
    push_number(&mut doc, IndexField::RatingTransparency, FieldValue::U64(ratings.transparency));
    assert(doc.deep_view() =~= document_of(place@, *ratings));
    doc
}

/// What has been read of a place so far.
pub struct Reading {
    pub place: IndexedPlaceView,
    pub lat: Option<LatCoord>,
    pub lng: Option<LngCoord>,
}

/// Nothing has been read yet.
pub open spec fn nothing_read() -> Reading {
    Reading {
        place: IndexedPlaceView {
            id: Seq::empty(),
            pos: MapPoint { lat: LatCoord { raw: 0 }, lng: LngCoord { raw: 0 } },
            title: Seq::empty(),
            description: Seq::empty(),
            tags: Seq::empty(),
            ratings: IndexedRatings {
                total: 0,
                diversity: 0,
                fairness: 0,
                humanity: 0,
                renewable: 0,
                solidarity: 0,
                transparency: 0,
            },
        },
        lat: None,
        lng: None,
    }
}

/// What has been read after one more field. A value that does not fit its
/// field is passed over, and so is a coordinate outside the legal range and
/// a field that is not handed out. Of several values of a field the last
/// one counts, but for tags, of which each counts.
pub open spec fn read_entry(r: Reading, entry: FieldEntryView) -> Reading {
    match (entry.field, entry.value) {
        (IndexField::Lat, FieldValueView::I64(v)) => if -LAT_RAW_MAX <= v <= LAT_RAW_MAX {
            Reading { lat: Some(LatCoord { raw: v as i32 }), ..r }
        } else {
            r
        },
        (IndexField::Lng, FieldValueView::I64(v)) => if -LNG_RAW_MAX <= v <= LNG_RAW_MAX {
            Reading { lng: Some(LngCoord { raw: v as i32 }), ..r }
        } else {
            r
        },
        (IndexField::Id, FieldValueView::Text(s)) => Reading {
            place: IndexedPlaceView { id: s, ..r.place },
            ..r
        },
        (IndexField::Title, FieldValueView::Text(s)) => Reading {
            place: IndexedPlaceView { title: s, ..r.place },
            ..r
        },
        (IndexField::Description, FieldValueView::Text(s)) => Reading {
            place: IndexedPlaceView { description: s, ..r.place },
            ..r
        },
        (IndexField::Tag, FieldValueView::Text(s)) => Reading {
            place: IndexedPlaceView { tags: r.place.tags.push(s), ..r.place },
            ..r
        },
        (IndexField::TotalRating, FieldValueView::U64(v)) => Reading {
            place: IndexedPlaceView {
                ratings: IndexedRatings { total: v, ..r.place.ratings },
                ..r.place
            },
            ..r
        },
        (IndexField::RatingDiversity, FieldValueView::U64(v)) => Reading {
            place: IndexedPlaceView {
                ratings: IndexedRatings { diversity: v, ..r.place.ratings },
                ..r.place
            },
            ..r
        },
        (IndexField::RatingFairness, FieldValueView::U64(v)) => Reading {
            place: IndexedPlaceView {
                ratings: IndexedRatings { fairness: v, ..r.place.ratings },
                ..r.place
            },
            ..r
        },
        (IndexField::RatingHumanity, FieldValueView::U64(v)) => Reading {
            place: IndexedPlaceView {
                ratings: IndexedRatings { humanity: v, ..r.place.ratings },
                ..r.place
            },
            ..r
        },
        (IndexField::RatingRenewable, FieldValueView::U64(v)) => Reading {
            place: IndexedPlaceView {
                ratings: IndexedRatings { renewable: v, ..r.place.ratings },
                ..r.place
            },
            ..r
        },
        (IndexField::RatingSolidarity, FieldValueView::U64(v)) => Reading {
            place: IndexedPlaceView {
                ratings: IndexedRatings { solidarity: v, ..r.place.ratings },
                ..r.place
            },
            ..r
        },
        (IndexField::RatingTransparency, FieldValueView::U64(v)) => Reading {
            place: IndexedPlaceView {
                ratings: IndexedRatings { transparency: v, ..r.place.ratings },
                ..r.place
            },
            ..r
        },
        _ => r,
    }
}

/// What has been read after the fields of a list, one after the other,
/// starting from `r`.
pub open spec fn read_from(r: Reading, doc: Seq<FieldEntryView>) -> Reading
    decreases doc.len(),
{
    if doc.len() == 0 {
        r
    } else {
        read_entry(read_from(r, doc.drop_last()), doc.last())
    }
}

/// The place that has been read. Its position is where the equator meets
/// the prime meridian unless both coordinates have been read.
pub open spec fn place_read(r: Reading) -> IndexedPlaceView {
    match (r.lat, r.lng) {
        (Some(lat), Some(lng)) => IndexedPlaceView { pos: MapPoint { lat, lng }, ..r.place },
        _ => r.place,
    }
}

/// The place that the fields of a list tell of.
pub open spec fn indexed_place_of(doc: Seq<FieldEntryView>) -> IndexedPlaceView {
    place_read(read_from(nothing_read(), doc))
}

/// Reads a place from the fields that the index hands out.
pub fn read_indexed_place(doc: &Vec<FieldEntry>) -> (entry: IndexedPlace)
    ensures
        entry@ == indexed_place_of(doc.deep_view()),
{
    let mut lat: Option<LatCoord> = None;
    let mut lng: Option<LngCoord> = None;
    let mut entry = IndexedPlace {
        id: String::new(),
        pos: MapPoint::default(),
        title: String::new(),
        description: String::new(),
        tags: Vec::new(),
        ratings: IndexedRatings {
            total: 0,
            diversity: 0,
            fairness: 0,
            humanity: 0,
            renewable: 0,
            solidarity: 0,
            transparency: 0,
        },
    };
    let ghost all = doc.deep_view();
    let mut i: usize = 0;
    proof {
        assert(all.take(0) == Seq::<FieldEntryView>::empty());
        assert(entry@.tags =~= Seq::<Seq<char>>::empty());
        assert(entry@ == nothing_read().place);
    }
    while i < doc.len()
        invariant
            i <= doc.len(),
            all == doc.deep_view(),
            (Reading { place: entry@, lat, lng }) == read_from(nothing_read(), all.take(i as int)),
        decreases doc.len() - i,
    {
        proof {
            assert(all.take(i as int + 1).drop_last() == all.take(i as int));
            assert(all.take(i as int + 1).last() == all[i as int]);
            assert(all[i as int] == doc[i as int]@);
        }
        let ghost tags_before = entry@.tags;
        let field_value = &doc[i];
        match (field_value.field, &field_value.value) {
            (IndexField::Lat, FieldValue::I64(v)) => {
                if -(LAT_RAW_MAX as i64) <= *v && *v <= LAT_RAW_MAX as i64 {
                    lat = Some(LatCoord::from_raw(*v as i32));
                }
            },
            (IndexField::Lng, FieldValue::I64(v)) => {
                if -(LNG_RAW_MAX as i64) <= *v && *v <= LNG_RAW_MAX as i64 {
                    lng = Some(LngCoord::from_raw(*v as i32));
                }
            },
            (IndexField::Id, FieldValue::Text(s)) => {
                entry.id = s.clone();
            },
            (IndexField::Title, FieldValue::Text(s)) => {
                entry.title = s.clone();
            },
            (IndexField::Description, FieldValue::Text(s)) => {
                entry.description = s.clone();
            },
            (IndexField::Tag, FieldValue::Text(s)) => {
                entry.tags.push(s.clone());
                assert(entry@.tags =~= tags_before.push(s@));
            },
            (IndexField::TotalRating, FieldValue::U64(v)) => {
                entry.ratings.total = *v;
            },
            (IndexField::RatingDiversity, FieldValue::U64(v)) => {
                entry.ratings.diversity = *v;
            },
            (IndexField::RatingFairness, FieldValue::U64(v)) => {
                entry.ratings.fairness = *v;
            },
            (IndexField::RatingHumanity, FieldValue::U64(v)) => {
                entry.ratings.humanity = *v;
            },
            (IndexField::RatingRenewable, FieldValue::U64(v)) => {
                entry.ratings.renewable = *v;
            },
            (IndexField::RatingSolidarity, FieldValue::U64(v)) => {
                entry.ratings.solidarity = *v;
            },
            (IndexField::RatingTransparency, FieldValue::U64(v)) => {
                entry.ratings.transparency = *v;
            },
            _ => {},
        }
        i += 1;
    }
    proof {
        assert(all.take(all.len() as int) == all);
    }
    match (lat, lng) {
        (Some(lat), Some(lng)) => {
            entry.pos = MapPoint::new(lat, lng);
        },
        _ => {},
    }
    entry
}

/// Reading one more field after others.
pub proof fn lemma_read_push(r: Reading, doc: Seq<FieldEntryView>, entry: FieldEntryView)
    ensures
        read_from(r, doc.push(entry)) == read_entry(read_from(r, doc), entry),
{
    assert(doc.push(entry).drop_last() == doc);
}

/// Reading two lists of fields one after the other is reading them as one
/// list.
pub proof fn lemma_read_concat(r: Reading, a: Seq<FieldEntryView>, b: Seq<FieldEntryView>)
    ensures
        read_from(r, a + b) == read_from(read_from(r, a), b),
    decreases b.len(),
{
    if b.len() == 0 {
        assert(a + b == a);
    } else {
        lemma_read_concat(r, a, b.drop_last());
        assert((a + b).drop_last() == a + b.drop_last());
        assert((a + b).last() == b.last());
    }
}

/// A part of the address changes nothing of what is read.
proof fn lemma_read_address(r: Reading, field: IndexField, text: Option<Seq<char>>)
    requires
        !field.stored(),
    ensures
        read_from(r, text_entries(field, text)) == r,
{
    match text {
        Some(text) => {
            let doc = text_entries(field, Some(text));
            assert(doc.drop_last() == Seq::<FieldEntryView>::empty());
            assert(read_from(r, doc.drop_last()) == r);
        },
        None => {},
    }
}

/// Reading the tags of a place adds them to the tags that were read
/// before, in their order.
proof fn lemma_read_tags(r: Reading, tags: Seq<Seq<char>>)
    ensures
        read_from(r, tag_entries(tags)) == (Reading {
            place: IndexedPlaceView { tags: r.place.tags + tags, ..r.place },
            ..r
        }),
    decreases tags.len(),
{
    if tags.len() == 0 {
        assert(r.place.tags + tags == r.place.tags);
    } else {
        lemma_read_tags(r, tags.drop_last());
        assert(tag_entries(tags).drop_last() == tag_entries(tags.drop_last()));
        assert(tag_entries(tags).last() == text_entry(IndexField::Tag, tags.last()));
        assert((r.place.tags + tags.drop_last()).push(tags.last()) == r.place.tags + tags);
    }
}

/// What is read from the fields of a place is what the index is to hand
/// out of the place: its identifier, its position, its title, its
/// description, its tags and its ratings.
pub proof fn lemma_document_round_trip(place: PlaceView, ratings: IndexedRatings)
    requires
        place.location.pos.valid(),
    ensures
        indexed_place_of(document_of(place, ratings)) == (IndexedPlaceView {
            id: place.uid,
            pos: place.location.pos,
            title: place.title,
            description: place.description,
            tags: place.tags,
            ratings,
        }),
{
    let none = Seq::<FieldEntryView>::empty();
    let e_id = text_entry(IndexField::Id, place.uid);
    let e_lat = FieldEntryView {
        field: IndexField::Lat,
        value: FieldValueView::I64(place.location.pos.lat.raw as i64),
    };
    let e_lng = FieldEntryView {
        field: IndexField::Lng,
        value: FieldValueView::I64(place.location.pos.lng.raw as i64),
    };
    let e_title = text_entry(IndexField::Title, place.title);
    let e_description = text_entry(IndexField::Description, place.description);
    let head = none.push(e_id).push(e_lat).push(e_lng).push(e_title).push(e_description);
    let street = text_entries(
        IndexField::AddressStreet,
        address_part(place.location.address, |a: AddressView| a.street),
    );
    let city = text_entries(
        IndexField::AddressCity,
        address_part(place.location.address, |a: AddressView| a.city),
    );
    let zip = text_entries(
        IndexField::AddressZip,
        address_part(place.location.address, |a: AddressView| a.zip),
    );
    let country = text_entries(
        IndexField::AddressCountry,
        address_part(place.location.address, |a: AddressView| a.country),
    );
    let tags = tag_entries(place.tags);
    let r_total = rating_entry(IndexField::TotalRating, ratings.total);
    let r_diversity = rating_entry(IndexField::RatingDiversity, ratings.diversity);
    let r_fairness = rating_entry(IndexField::RatingFairness, ratings.fairness);
    let r_humanity = rating_entry(IndexField::RatingHumanity, ratings.humanity);
    let r_renewable = rating_entry(IndexField::RatingRenewable, ratings.renewable);
    let r_solidarity = rating_entry(IndexField::RatingSolidarity, ratings.solidarity);
    let r_transparency = rating_entry(IndexField::RatingTransparency, ratings.transparency);
    let tail = none.push(r_total).push(r_diversity).push(r_fairness).push(r_humanity).push(
        r_renewable,
    ).push(r_solidarity).push(r_transparency);
    let doc = document_of(place, ratings);
    assert(doc =~= head + street + city + zip + country + tags + tail);

    let start = nothing_read();
    lemma_read_push(start, none, e_id);
    lemma_read_push(start, none.push(e_id), e_lat);
    lemma_read_push(start, none.push(e_id).push(e_lat), e_lng);
    lemma_read_push(start, none.push(e_id).push(e_lat).push(e_lng), e_title);
    lemma_read_push(start, none.push(e_id).push(e_lat).push(e_lng).push(e_title), e_description);
    let after_head = read_from(start, head);
    assert(after_head.lat == Some(place.location.pos.lat));
    assert(after_head.lng == Some(place.location.pos.lng));

    lemma_read_concat(start, head, street);
    lemma_read_address(after_head, IndexField::AddressStreet, address_part(
        place.location.address,
        |a: AddressView| a.street,
    ));
    lemma_read_concat(start, head + street, city);
    lemma_read_address(after_head, IndexField::AddressCity, address_part(
        place.location.address,
        |a: AddressView| a.city,
    ));
    lemma_read_concat(start, head + street + city, zip);
    lemma_read_address(after_head, IndexField::AddressZip, address_part(
        place.location.address,
        |a: AddressView| a.zip,
    ));
    lemma_read_concat(start, head + street + city + zip, country);
    lemma_read_address(after_head, IndexField::AddressCountry, address_part(
        place.location.address,
        |a: AddressView| a.country,
    ));
    lemma_read_concat(start, head + street + city + zip + country, tags);
    lemma_read_tags(after_head, place.tags);
    let after_tags = read_from(after_head, tags);
    assert(after_tags.place.tags =~= place.tags);

    lemma_read_concat(start, head + street + city + zip + country + tags, tail);
    lemma_read_push(after_tags, none, r_total);
    lemma_read_push(after_tags, none.push(r_total), r_diversity);
    lemma_read_push(after_tags, none.push(r_total).push(r_diversity), r_fairness);
    lemma_read_push(after_tags, none.push(r_total).push(r_diversity).push(r_fairness), r_humanity);
    lemma_read_push(
        after_tags,
        none.push(r_total).push(r_diversity).push(r_fairness).push(r_humanity),
        r_renewable,
    );
    lemma_read_push(
        after_tags,
        none.push(r_total).push(r_diversity).push(r_fairness).push(r_humanity).push(r_renewable),
        r_solidarity,
    );
    lemma_read_push(
        after_tags,
        none.push(r_total).push(r_diversity).push(r_fairness).push(r_humanity).push(
            r_renewable,
        ).push(r_solidarity),
        r_transparency,
    );
}

} // verus!
