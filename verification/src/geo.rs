//! Coordinate model: points and axis-aligned bounding boxes in integer
//! microdegrees, offsetting by degree deltas, and quadrant splitting.

use vstd::prelude::*;

verus! {

/// Magnitude bound on the coordinates this library works with, far beyond the
/// +-180 degrees of real latitudes and longitudes; it only serves to keep all
/// box arithmetic free of `i64` overflow.
pub const COORD_LIMIT_MICRO: i64 = 1_000_000_000;

/// A geographic point, held as integer microdegrees (1e-6 degree) of latitude
/// and longitude.
#[derive(Clone, Copy, PartialEq, Eq, Structural, Debug)]
pub struct LatLong {
    pub lat_micro: i64,
    pub lng_micro: i64,
}

pub open spec fn coord_bounded(c: LatLong) -> bool {
    &&& -COORD_LIMIT_MICRO <= c.lat_micro <= COORD_LIMIT_MICRO
    &&& -COORD_LIMIT_MICRO <= c.lng_micro <= COORD_LIMIT_MICRO
}

pub open spec fn spec_offset(origin: LatLong, d_lat_micro: int, d_lng_micro: int) -> LatLong {
    LatLong {
        lat_micro: (origin.lat_micro + d_lat_micro) as i64,
        lng_micro: (origin.lng_micro + d_lng_micro) as i64,
    }
}

/// Move a point by the given deltas, in microdegrees.  Callers that think in
/// meters convert a northward/eastward displacement to degree deltas first
/// (a flat-earth approximation done outside this library).
pub fn offset_latlong(origin: &LatLong, d_lat_micro: i64, d_lng_micro: i64) -> (r: LatLong)
    requires
        coord_bounded(*origin),
        -COORD_LIMIT_MICRO <= d_lat_micro <= COORD_LIMIT_MICRO,
        -COORD_LIMIT_MICRO <= d_lng_micro <= COORD_LIMIT_MICRO,
    ensures
        r == spec_offset(*origin, d_lat_micro as int, d_lng_micro as int),
        r.lat_micro == origin.lat_micro + d_lat_micro,
        r.lng_micro == origin.lng_micro + d_lng_micro,
{
    LatLong { lat_micro: origin.lat_micro + d_lat_micro, lng_micro: origin.lng_micro + d_lng_micro }
}

/// Law: offsetting by zero in both directions returns the origin unchanged,
/// for any origin.
pub proof fn lemma_offset_zero(origin: LatLong)
    ensures
        spec_offset(origin, 0, 0) == origin,
{
}

/// An axis-aligned rectangle in latitude/longitude space.
#[derive(Clone, Copy, PartialEq, Eq, Structural, Debug)]
pub struct BoundingBox {
    pub sw: LatLong,
    pub ne: LatLong,
}

impl BoundingBox {
    /// The invariant of every box: the southwest corner is no further north or
    /// east than the northeast corner.
    pub open spec fn wf(self) -> bool {
        &&& self.sw.lat_micro <= self.ne.lat_micro
        &&& self.sw.lng_micro <= self.ne.lng_micro
    }

    pub open spec fn bounded(self) -> bool {
        coord_bounded(self.sw) && coord_bounded(self.ne)
    }

    /// The set of coordinates a box covers, as a predicate on points.
    pub open spec fn contains_point(self, lat: int, lng: int) -> bool {
        &&& self.sw.lat_micro <= lat <= self.ne.lat_micro
        &&& self.sw.lng_micro <= lng <= self.ne.lng_micro
    }

    pub open spec fn mid_lat(self) -> int {
        self.sw.lat_micro + (self.ne.lat_micro - self.sw.lat_micro) / 2
    }

    pub open spec fn mid_lng(self) -> int {
        self.sw.lng_micro + (self.ne.lng_micro - self.sw.lng_micro) / 2
    }
}

/// The four quadrants of a box, bisected at its midpoint, in the order
/// top-left, top-right, bottom-left, bottom-right.
pub open spec fn spec_quadrants(b: BoundingBox) -> Seq<BoundingBox> {
    let mid_lat = b.mid_lat() as i64;
    let mid_lng = b.mid_lng() as i64;
    seq![
        BoundingBox {
            sw: LatLong { lat_micro: mid_lat, lng_micro: b.sw.lng_micro },
            ne: LatLong { lat_micro: b.ne.lat_micro, lng_micro: mid_lng },
        },
        BoundingBox {
            sw: LatLong { lat_micro: mid_lat, lng_micro: mid_lng },
            ne: LatLong { lat_micro: b.ne.lat_micro, lng_micro: b.ne.lng_micro },
        },
        BoundingBox {
            sw: LatLong { lat_micro: b.sw.lat_micro, lng_micro: b.sw.lng_micro },
            ne: LatLong { lat_micro: mid_lat, lng_micro: mid_lng },
        },
        BoundingBox {
            sw: LatLong { lat_micro: b.sw.lat_micro, lng_micro: mid_lng },
            ne: LatLong { lat_micro: mid_lat, lng_micro: b.ne.lng_micro },
        },
    ]
}

/// The midpoint of a well-formed box lies between its corners, on both axes.
pub proof fn lemma_mid_in_range(b: BoundingBox)
    requires
        b.wf(),
        b.bounded(),
    ensures
        b.sw.lat_micro <= b.mid_lat() <= b.ne.lat_micro,
        b.sw.lng_micro <= b.mid_lng() <= b.ne.lng_micro,
{
    let dlat = b.ne.lat_micro - b.sw.lat_micro;
    let dlng = b.ne.lng_micro - b.sw.lng_micro;
    assert(0 <= dlat / 2 <= dlat) by (nonlinear_arith)
        requires 0 <= dlat,
    ;
    assert(0 <= dlng / 2 <= dlng) by (nonlinear_arith)
        requires 0 <= dlng,
    ;
}

/// Split a box into four equally distributed sub-quadrants.  When a query
/// over a box comes back truncated at the service's result cap, the box is
/// replaced by these four and each is queried on its own.
pub fn split_to_quadrants(source: &BoundingBox) -> (r: [BoundingBox; 4])
    requires
        source.wf(),
        source.bounded(),
    ensures
        r@ == spec_quadrants(*source),
        forall|q: int| 0 <= q < 4 ==> (#[trigger] r@[q]).wf() && r@[q].bounded(),
{
    proof {
        lemma_mid_in_range(*source);
    }
    let midpoint_lat: i64 = source.sw.lat_micro + (source.ne.lat_micro - source.sw.lat_micro) / 2;
    let midpoint_lng: i64 = source.sw.lng_micro + (source.ne.lng_micro - source.sw.lng_micro) / 2;

    let r = [
        // Top left
        BoundingBox {
            sw: LatLong { lat_micro: midpoint_lat, lng_micro: source.sw.lng_micro },
            ne: LatLong { lat_micro: source.ne.lat_micro, lng_micro: midpoint_lng },
        },
        // Top right
        BoundingBox {
            sw: LatLong { lat_micro: midpoint_lat, lng_micro: midpoint_lng },
            ne: LatLong { lat_micro: source.ne.lat_micro, lng_micro: source.ne.lng_micro },
        },
        // Bottom left
        BoundingBox {
            sw: LatLong { lat_micro: source.sw.lat_micro, lng_micro: source.sw.lng_micro },
            ne: LatLong { lat_micro: midpoint_lat, lng_micro: midpoint_lng },
        },
        // Bottom right
        BoundingBox {
            sw: LatLong { lat_micro: source.sw.lat_micro, lng_micro: midpoint_lng },
            ne: LatLong { lat_micro: midpoint_lat, lng_micro: source.ne.lng_micro },
        },
    ];
    proof {
        assert(r@ =~= spec_quadrants(*source));
    }
    r
}

/// Law: the four quadrants exactly tile their box.  A point lies in the box
/// if and only if it lies in at least one quadrant.
pub proof fn lemma_quadrants_tile(b: BoundingBox, lat: int, lng: int)
    requires
        b.wf(),
        b.bounded(),
    ensures
        b.contains_point(lat, lng) <==> exists|q: int|
            0 <= q < 4 && (#[trigger] spec_quadrants(b)[q]).contains_point(lat, lng),
{
    lemma_mid_in_range(b);
    let qs = spec_quadrants(b);
    if b.contains_point(lat, lng) {
        if lat >= b.mid_lat() {
            if lng <= b.mid_lng() {
                assert(qs[0].contains_point(lat, lng));
            } else {
                assert(qs[1].contains_point(lat, lng));
            }
        } else {
            if lng <= b.mid_lng() {
                assert(qs[2].contains_point(lat, lng));
            } else {
                assert(qs[3].contains_point(lat, lng));
            }
        }
    }
}

/// Law: distinct quadrants overlap only on the shared bisection boundary.  A
/// point lying in two different quadrants must sit on the latitude or the
/// longitude midline.
pub proof fn lemma_quadrants_disjoint(b: BoundingBox, i: int, j: int, lat: int, lng: int)
    requires
        b.wf(),
        b.bounded(),
        0 <= i < 4,
        0 <= j < 4,
        i != j,
        spec_quadrants(b)[i].contains_point(lat, lng),
        spec_quadrants(b)[j].contains_point(lat, lng),
    ensures
        lat == b.mid_lat() || lng == b.mid_lng(),
{
    lemma_mid_in_range(b);
}

} // verus!
