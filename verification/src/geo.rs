//! Fixed-point geographic coordinates and bounding boxes.
//!
//! A latitude is stored in units of 180 / 2^24 degrees and a longitude in
//! units of 360 / 2^24 degrees, so both range over `-2^23 ..= 2^23`.
//! Everything here works on these raw integers.

use vstd::prelude::*;

verus! {

/// The integer type that holds a coordinate in its fixed-point scale.
pub type RawCoord = i32;

/// The raw value of 90 degrees of latitude.
pub const LAT_RAW_MAX: i32 = 8_388_608;

/// The raw value of 180 degrees of longitude.
pub const LNG_RAW_MAX: i32 = 8_388_608;

/// A latitude in fixed-point representation.
#[derive(Clone, Copy, Debug, PartialEq, Eq, Structural)]
pub struct LatCoord {
    pub raw: RawCoord,
}

/// A longitude in fixed-point representation.
#[derive(Clone, Copy, Debug, PartialEq, Eq, Structural)]
pub struct LngCoord {
    pub raw: RawCoord,
}

/// A position on the map.
#[derive(Clone, Copy, Debug, PartialEq, Eq, Structural)]
pub struct MapPoint {
    pub lat: LatCoord,
    pub lng: LngCoord,
}

/// An axis-aligned rectangle given by its south-west and north-east corners.
///
/// The rectangle wraps around the antimeridian when the longitude of its
/// south-west corner is greater than that of its north-east corner.
#[derive(Clone, Copy, Debug, PartialEq, Eq, Structural)]
pub struct MapBbox {
    pub south_west: MapPoint,
    pub north_east: MapPoint,
}

impl LatCoord {
    /// A latitude is legal when it lies between the two poles.
    pub open spec fn valid(self) -> bool {
        -LAT_RAW_MAX <= self.raw <= LAT_RAW_MAX
    }

    pub fn min() -> (c: LatCoord)
        ensures
            c.raw == -LAT_RAW_MAX,
    {
        LatCoord { raw: -LAT_RAW_MAX }
    }

    pub fn max() -> (c: LatCoord)
        ensures
            c.raw == LAT_RAW_MAX,
    {
        LatCoord { raw: LAT_RAW_MAX }
    }

    /// Wraps a raw value that is known to be legal.
    pub fn from_raw(raw: RawCoord) -> (c: LatCoord)
        requires
            -LAT_RAW_MAX <= raw <= LAT_RAW_MAX,
        ensures
            c.raw == raw,
            c.valid(),
    {
        LatCoord { raw }
    }

    /// Wraps a raw value if it is legal.
    pub fn try_from_raw(raw: RawCoord) -> (c: Option<LatCoord>)
        ensures
            c == if -LAT_RAW_MAX <= raw <= LAT_RAW_MAX {
                Some(LatCoord { raw })
            } else {
                None
            },
    {
        if -LAT_RAW_MAX <= raw && raw <= LAT_RAW_MAX {
            Some(LatCoord { raw })
        } else {
            None
        }
    }

    pub fn to_raw(self) -> (raw: RawCoord)
        ensures
            raw == self.raw,
    {
        self.raw
    }

    pub fn is_valid(self) -> (b: bool)
        ensures
            b == self.valid(),
    {
        -LAT_RAW_MAX <= self.raw && self.raw <= LAT_RAW_MAX
    }
}

impl LngCoord {
    /// A longitude is legal when it lies between the two sides of the
    /// antimeridian.
    pub open spec fn valid(self) -> bool {
        -LNG_RAW_MAX <= self.raw <= LNG_RAW_MAX
    }

    pub fn min() -> (c: LngCoord)
        ensures
            c.raw == -LNG_RAW_MAX,
    {
        LngCoord { raw: -LNG_RAW_MAX }
    }

    pub fn max() -> (c: LngCoord)
        ensures
            c.raw == LNG_RAW_MAX,
    {
        LngCoord { raw: LNG_RAW_MAX }
    }

    /// Wraps a raw value that is known to be legal.
    pub fn from_raw(raw: RawCoord) -> (c: LngCoord)
        requires
            -LNG_RAW_MAX <= raw <= LNG_RAW_MAX,
        ensures
            c.raw == raw,
            c.valid(),
    {
        LngCoord { raw }
    }

    /// Wraps a raw value if it is legal.
    pub fn try_from_raw(raw: RawCoord) -> (c: Option<LngCoord>)
        ensures
            c == if -LNG_RAW_MAX <= raw <= LNG_RAW_MAX {
                Some(LngCoord { raw })
            } else {
                None
            },
    {
        if -LNG_RAW_MAX <= raw && raw <= LNG_RAW_MAX {
            Some(LngCoord { raw })
        } else {
            None
        }
    }

    pub fn to_raw(self) -> (raw: RawCoord)
        ensures
            raw == self.raw,
    {
        self.raw
    }

    pub fn is_valid(self) -> (b: bool)
        ensures
            b == self.valid(),
    {
        -LNG_RAW_MAX <= self.raw && self.raw <= LNG_RAW_MAX
    }
}

impl MapPoint {
    pub open spec fn valid(self) -> bool {
        self.lat.valid() && self.lng.valid()
    }

    pub fn new(lat: LatCoord, lng: LngCoord) -> (p: MapPoint)
        ensures
            p == (MapPoint { lat, lng }),
    {
        MapPoint { lat, lng }
    }

    /// The point with the given raw coordinates, if both are legal.
    pub fn try_from_raw(lat: RawCoord, lng: RawCoord) -> (p: Option<MapPoint>)
        ensures
            match p {
                Some(p) => p.valid() && p.lat.raw == lat && p.lng.raw == lng,
                None => !(MapPoint { lat: LatCoord { raw: lat }, lng: LngCoord { raw: lng } }).valid(),
            },
    {
        match (LatCoord::try_from_raw(lat), LngCoord::try_from_raw(lng)) {
            (Some(lat), Some(lng)) => Some(MapPoint { lat, lng }),
            _ => None,
        }
    }

    pub fn lat(self) -> (lat: LatCoord)
        ensures
            lat == self.lat,
    {
        self.lat
    }

    pub fn lng(self) -> (lng: LngCoord)
        ensures
            lng == self.lng,
    {
        self.lng
    }

    pub fn is_valid(self) -> (b: bool)
        ensures
            b == self.valid(),
    {
        self.lat.is_valid() && self.lng.is_valid()
    }
}

impl Default for MapPoint {
    /// The point where the equator meets the prime meridian.
    fn default() -> (p: MapPoint)
        ensures
            p.lat.raw == 0,
            p.lng.raw == 0,
    {
        MapPoint { lat: LatCoord { raw: 0 }, lng: LngCoord { raw: 0 } }
    }
}

/// Whether a longitude lies between two others, going east from `west`
/// and crossing the antimeridian where `west` is greater than `east`.
/// Both ends belong to the interval.
pub open spec fn lng_between(west: int, east: int, lng: int) -> bool {
    if west <= east {
        west <= lng <= east
    } else {
        west <= lng || lng <= east
    }
}

impl MapBbox {
    /// Both corners are legal, and the southern edge is not north of the
    /// northern one.
    pub open spec fn valid(self) -> bool {
        &&& self.south_west.valid()
        &&& self.north_east.valid()
        &&& self.south_west.lat.raw <= self.north_east.lat.raw
    }

    /// Whether the longitudes that the rectangle covers cross the
    /// antimeridian.
    pub open spec fn wraps(self) -> bool {
        self.south_west.lng.raw > self.north_east.lng.raw
    }

    /// A rectangle without area.
    pub open spec fn empty(self) -> bool {
        ||| self.south_west.lat.raw >= self.north_east.lat.raw
        ||| self.south_west.lng.raw == self.north_east.lng.raw
    }

    /// Whether the point lies inside the rectangle or on one of its edges.
    pub open spec fn contains(self, p: MapPoint) -> bool {
        &&& self.south_west.lat.raw <= p.lat.raw <= self.north_east.lat.raw
        &&& lng_between(
            self.south_west.lng.raw as int,
            self.north_east.lng.raw as int,
            p.lng.raw as int,
        )
    }

    pub fn new(south_west: MapPoint, north_east: MapPoint) -> (b: MapBbox)
        ensures
            b == (MapBbox { south_west, north_east }),
    {
        MapBbox { south_west, north_east }
    }

    pub fn south_west(&self) -> (p: MapPoint)
        ensures
            p == self.south_west,
    {
        self.south_west
    }

    pub fn north_east(&self) -> (p: MapPoint)
        ensures
            p == self.north_east,
    {
        self.north_east
    }

    pub fn is_valid(&self) -> (b: bool)
        ensures
            b == self.valid(),
    {
        self.south_west.is_valid() && self.north_east.is_valid() && self.south_west.lat.raw
            <= self.north_east.lat.raw
    }

    pub fn is_wrapping(&self) -> (b: bool)
        ensures
            b == self.wraps(),
    {
        self.south_west.lng.raw > self.north_east.lng.raw
    }

    pub fn is_empty(&self) -> (b: bool)
        ensures
            b == self.empty(),
    {
        self.south_west.lat.raw >= self.north_east.lat.raw || self.south_west.lng.raw
            == self.north_east.lng.raw
    }

    /// Containment, inclusive on all four edges. Where the rectangle wraps,
    /// the longitudes from the south-west corner east to the antimeridian
    /// and from there on to the north-east corner belong to it.
    pub fn contains_point(&self, p: MapPoint) -> (b: bool)
        ensures
            b == self.contains(p),
    {
        let lat_inside = self.south_west.lat.raw <= p.lat.raw && p.lat.raw
            <= self.north_east.lat.raw;
        let lng_inside = if self.south_west.lng.raw <= self.north_east.lng.raw {
            self.south_west.lng.raw <= p.lng.raw && p.lng.raw <= self.north_east.lng.raw
        } else {
            self.south_west.lng.raw <= p.lng.raw || p.lng.raw <= self.north_east.lng.raw
        };
        lat_inside && lng_inside
    }
}

/// The part of a side length by which a rectangle grows on each side.
pub const BBOX_EXTENSION_DIVISOR: i32 = 10;

/// The greater of two integers.
pub open spec fn max_int(a: int, b: int) -> int {
    if a >= b {
        a
    } else {
        b
    }
}

/// The lesser of two integers.
pub open spec fn min_int(a: int, b: int) -> int {
    if a <= b {
        a
    } else {
        b
    }
}

/// The number of raw longitude steps from the western to the eastern edge,
/// across the antimeridian where the rectangle wraps.
pub open spec fn lng_width(b: MapBbox) -> int {
    if b.wraps() {
        2 * LNG_RAW_MAX - (b.south_west.lng.raw - b.north_east.lng.raw)
    } else {
        b.north_east.lng.raw - b.south_west.lng.raw
    }
}

/// By how much a rectangle grows to the west and to the east: a tenth of
/// its width, rounded down; for a wrapping rectangle at most so much that a
/// gap of one step stays between the two edges.
pub open spec fn lng_extension(b: MapBbox) -> int {
    let tenth = lng_width(b) / (BBOX_EXTENSION_DIVISOR as int);
    if b.wraps() {
        min_int(tenth, (b.south_west.lng.raw - b.north_east.lng.raw - 1) / 2)
    } else {
        tenth
    }
}

/// By how much a rectangle grows to the south and to the north: a tenth of
/// its height, rounded down.
pub open spec fn lat_extension(b: MapBbox) -> int {
    (b.north_east.lat.raw - b.south_west.lat.raw) / (BBOX_EXTENSION_DIVISOR as int)
}

/// The rectangle grown by a tenth of its side lengths in each direction.
/// An edge that would leave the legal range stops at the range's end; a
/// wrapping rectangle still wraps.
pub open spec fn extended(b: MapBbox) -> MapBbox {
    let south = max_int(-LAT_RAW_MAX as int, b.south_west.lat.raw - lat_extension(b));
    let north = min_int(LAT_RAW_MAX as int, b.north_east.lat.raw + lat_extension(b));
    let (west, east) = if b.wraps() {
        (b.south_west.lng.raw - lng_extension(b), b.north_east.lng.raw + lng_extension(b))
    } else {
        (
            max_int(-LNG_RAW_MAX as int, b.south_west.lng.raw - lng_extension(b)),
            min_int(LNG_RAW_MAX as int, b.north_east.lng.raw + lng_extension(b)),
        )
    };
    MapBbox {
        south_west: MapPoint { lat: LatCoord { raw: south as i32 }, lng: LngCoord { raw: west as i32 } },
        north_east: MapPoint { lat: LatCoord { raw: north as i32 }, lng: LngCoord { raw: east as i32 } },
    }
}

/// Grows a rectangle by a tenth of its side lengths in each direction. A
/// rectangle that is not legal is handed back as it is.
pub fn extend_bbox(bbox: &MapBbox) -> (r: MapBbox)
    ensures
        r == if bbox.valid() {
            extended(*bbox)
        } else {
            *bbox
        },
{
    if !bbox.is_valid() {
        return *bbox;
    }
    let sw = bbox.south_west;
    let ne = bbox.north_east;
    let lat_ext: i32 = (ne.lat.raw - sw.lat.raw) / BBOX_EXTENSION_DIVISOR;
    let south: i32 = if sw.lat.raw - lat_ext < -LAT_RAW_MAX {
        -LAT_RAW_MAX
    } else {
        sw.lat.raw - lat_ext
    };
    let north: i32 = if ne.lat.raw + lat_ext > LAT_RAW_MAX {
        LAT_RAW_MAX
    } else {
        ne.lat.raw + lat_ext
    };
    let west: i32;
    let east: i32;
    if sw.lng.raw > ne.lng.raw {
        let gap: i32 = sw.lng.raw - ne.lng.raw;
        let tenth: i32 = (2 * LNG_RAW_MAX - gap) / BBOX_EXTENSION_DIVISOR;
        let most: i32 = (gap - 1) / 2;
        let ext: i32 = if tenth <= most {
            tenth
        } else {
            most
        };
        west = sw.lng.raw - ext;
        east = ne.lng.raw + ext;
    } else {
        let ext: i32 = (ne.lng.raw - sw.lng.raw) / BBOX_EXTENSION_DIVISOR;
        west = if sw.lng.raw - ext < -LNG_RAW_MAX {
            -LNG_RAW_MAX
        } else {
            sw.lng.raw - ext
        };
        east = if ne.lng.raw + ext > LNG_RAW_MAX {
            LNG_RAW_MAX
        } else {
            ne.lng.raw + ext
        };
    }
    MapBbox {
        south_west: MapPoint { lat: LatCoord { raw: south }, lng: LngCoord { raw: west } },
        north_east: MapPoint { lat: LatCoord { raw: north }, lng: LngCoord { raw: east } },
    }
}

/// An extended rectangle is legal, wraps exactly when the rectangle does
/// of which it was made, and contains every point that this one contains.
pub proof fn lemma_extended_covers(b: MapBbox, p: MapPoint)
    requires
        b.valid(),
    ensures
        extended(b).valid(),
        extended(b).wraps() == b.wraps(),
        b.contains(p) ==> extended(b).contains(p),
{
}

} // verus!
