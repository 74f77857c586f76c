use openfairdb::geo::{
    extend_bbox, LatCoord, LngCoord, MapBbox, MapPoint, LAT_RAW_MAX, LNG_RAW_MAX,
};

/// The raw value of a latitude given in degrees.
fn lat(deg: f64) -> LatCoord {
    LatCoord::from_raw((deg * 8_388_608.0 / 90.0).round() as i32)
}

/// The raw value of a longitude given in degrees.
fn lng(deg: f64) -> LngCoord {
    LngCoord::from_raw((deg * 8_388_608.0 / 180.0).round() as i32)
}

fn point(lat_deg: f64, lng_deg: f64) -> MapPoint {
    MapPoint::new(lat(lat_deg), lng(lng_deg))
}

fn raw_bbox(south: i32, west: i32, north: i32, east: i32) -> MapBbox {
    MapBbox::new(
        MapPoint::new(LatCoord::from_raw(south), LngCoord::from_raw(west)),
        MapPoint::new(LatCoord::from_raw(north), LngCoord::from_raw(east)),
    )
}

#[test]
fn coordinates_have_their_legal_range() {
    assert_eq!(LatCoord::max().to_raw(), 8_388_608);
    assert_eq!(LatCoord::min().to_raw(), -8_388_608);
    assert_eq!(LngCoord::max().to_raw(), 8_388_608);
    assert_eq!(LngCoord::min().to_raw(), -8_388_608);
    assert!(LatCoord::try_from_raw(LAT_RAW_MAX).is_some());
    assert!(LatCoord::try_from_raw(LAT_RAW_MAX + 1).is_none());
    assert!(LatCoord::try_from_raw(-LAT_RAW_MAX - 1).is_none());
    assert!(LngCoord::try_from_raw(-LNG_RAW_MAX).is_some());
    assert!(LngCoord::try_from_raw(LNG_RAW_MAX + 1).is_none());
    assert!(MapPoint::try_from_raw(0, 0).is_some());
    assert!(MapPoint::try_from_raw(LAT_RAW_MAX + 1, 0).is_none());
    assert!(MapPoint::try_from_raw(0, -LNG_RAW_MAX - 1).is_none());
    assert_eq!(MapPoint::default(), MapPoint::try_from_raw(0, 0).unwrap());
}

#[test]
fn wrapping_bbox_contains_points_beyond_the_antimeridian() {
    let bbox = MapBbox::new(point(0.0, 170.0), point(10.0, -170.0));
    assert!(bbox.is_valid());
    assert!(bbox.is_wrapping());
    assert!(bbox.contains_point(point(5.0, 175.0)));
    assert!(bbox.contains_point(point(5.0, -175.0)));
    assert!(bbox.contains_point(point(5.0, 180.0)));
    assert!(bbox.contains_point(point(5.0, -180.0)));
    assert!(!bbox.contains_point(point(5.0, 0.0)));
    assert!(!bbox.contains_point(point(11.0, 175.0)));
}

#[test]
fn bbox_contains_its_edges() {
    let bbox = MapBbox::new(point(-10.0, -20.0), point(10.0, 20.0));
    assert!(!bbox.is_wrapping());
    assert!(!bbox.is_empty());
    assert!(bbox.contains_point(point(-10.0, -20.0)));
    assert!(bbox.contains_point(point(10.0, 20.0)));
    assert!(bbox.contains_point(point(0.0, 20.0)));
    assert!(bbox.contains_point(point(-10.0, 0.0)));
    assert!(!bbox.contains_point(point(10.1, 0.0)));
    assert!(!bbox.contains_point(point(0.0, 20.1)));
    let wrapping = MapBbox::new(point(-10.0, 20.0), point(10.0, -20.0));
    assert!(wrapping.contains_point(point(0.0, 20.0)));
    assert!(wrapping.contains_point(point(0.0, -20.0)));
    assert!(!wrapping.contains_point(point(0.0, 19.9)));
}

#[test]
fn bbox_without_area_is_empty() {
    assert!(raw_bbox(5, 0, 5, 10).is_empty());
    assert!(raw_bbox(0, 7, 10, 7).is_empty());
    assert!(!raw_bbox(0, 0, 1, 1).is_empty());
    assert!(!raw_bbox(1, 0, 0, 1).is_valid());
}

#[test]
fn extended_bbox_grows_by_a_tenth() {
    let ext = extend_bbox(&raw_bbox(-100, -200, 100, 200));
    assert_eq!(ext, raw_bbox(-120, -240, 120, 240));
    // Side lengths that are no multiple of ten: the tenth is rounded down.
    let ext = extend_bbox(&raw_bbox(0, 0, 19, 29));
    assert_eq!(ext, raw_bbox(-1, -2, 20, 31));
}

#[test]
fn extended_bbox_stops_at_the_edge_of_the_map() {
    let ext = extend_bbox(&raw_bbox(-LAT_RAW_MAX, -LNG_RAW_MAX, LAT_RAW_MAX, LNG_RAW_MAX));
    assert_eq!(ext, raw_bbox(-LAT_RAW_MAX, -LNG_RAW_MAX, LAT_RAW_MAX, LNG_RAW_MAX));
    let ext = extend_bbox(&raw_bbox(LAT_RAW_MAX - 100, 0, LAT_RAW_MAX, 100));
    assert_eq!(ext, raw_bbox(LAT_RAW_MAX - 110, -10, LAT_RAW_MAX, 110));
}

#[test]
fn extended_bbox_keeps_wrapping() {
    // From 170 degrees east across the antimeridian to 170 degrees west.
    let west = lng(170.0).to_raw();
    let east = lng(-170.0).to_raw();
    let bbox = raw_bbox(0, west, 100, east);
    let ext = extend_bbox(&bbox);
    assert!(ext.is_wrapping());
    let width = 2 * LNG_RAW_MAX - (west - east);
    assert_eq!(ext.south_west().lng().to_raw(), west - width / 10);
    assert_eq!(ext.north_east().lng().to_raw(), east + width / 10);
    // A gap of three steps cannot take up a tenth of the width.
    let narrow = raw_bbox(0, 2, 100, -1);
    let ext = extend_bbox(&narrow);
    assert!(ext.is_wrapping());
    assert_eq!(ext.south_west().lng().to_raw(), 1);
    assert_eq!(ext.north_east().lng().to_raw(), 0);
}

#[test]
fn extended_bbox_covers_the_bbox() {
    let bbox = raw_bbox(-50, 1000, 70, -1000);
    let ext = extend_bbox(&bbox);
    for (lat, lng) in [(-50, 1000), (70, -1000), (0, LNG_RAW_MAX), (0, -LNG_RAW_MAX), (10, 5000)] {
        let p = MapPoint::try_from_raw(lat, lng).unwrap();
        assert!(bbox.contains_point(p));
        assert!(ext.contains_point(p));
    }
}

#[test]
fn bbox_that_is_not_legal_is_not_extended() {
    let bbox = raw_bbox(10, 0, 0, 10);
    assert_eq!(extend_bbox(&bbox), bbox);
}
