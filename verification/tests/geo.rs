use pickletrack::geo::{offset_latlong, split_to_quadrants, BoundingBox, LatLong};

#[test]
fn offset_zero_is_identity() {
    let origin = LatLong { lat_micro: 40_934_688, lng_micro: -74_061_693 };
    let moved = offset_latlong(&origin, 0, 0);
    assert_eq!(moved, origin);
}

#[test]
fn offset_adds_deltas() {
    let origin = LatLong { lat_micro: 40_000_000, lng_micro: -74_000_000 };
    let moved = offset_latlong(&origin, 26_950, -35_550);
    assert_eq!(moved, LatLong { lat_micro: 40_026_950, lng_micro: -74_035_550 });
}

#[test]
fn quadrants_of_even_box() {
    let b = BoundingBox {
        sw: LatLong { lat_micro: 0, lng_micro: 0 },
        ne: LatLong { lat_micro: 100, lng_micro: 40 },
    };
    let q = split_to_quadrants(&b);
    // Top left, top right, bottom left, bottom right.
    assert_eq!(q[0].sw, LatLong { lat_micro: 50, lng_micro: 0 });
    assert_eq!(q[0].ne, LatLong { lat_micro: 100, lng_micro: 20 });
    assert_eq!(q[1].sw, LatLong { lat_micro: 50, lng_micro: 20 });
    assert_eq!(q[1].ne, LatLong { lat_micro: 100, lng_micro: 40 });
    assert_eq!(q[2].sw, LatLong { lat_micro: 0, lng_micro: 0 });
    assert_eq!(q[2].ne, LatLong { lat_micro: 50, lng_micro: 20 });
    assert_eq!(q[3].sw, LatLong { lat_micro: 0, lng_micro: 20 });
    assert_eq!(q[3].ne, LatLong { lat_micro: 50, lng_micro: 40 });
}

fn covered(b: &BoundingBox, lat: i64, lng: i64) -> bool {
    b.sw.lat_micro <= lat && lat <= b.ne.lat_micro && b.sw.lng_micro <= lng
        && lng <= b.ne.lng_micro
}

#[test]
fn quadrants_tile_their_box() {
    let b = BoundingBox {
        sw: LatLong { lat_micro: -7, lng_micro: 3 },
        ne: LatLong { lat_micro: 6, lng_micro: 12 },
    };
    let q = split_to_quadrants(&b);
    for lat in -9..9 {
        for lng in 1..15 {
            let in_box = covered(&b, lat, lng);
            let n = q.iter().filter(|c| covered(c, lat, lng)).count();
            assert_eq!(in_box, n > 0, "tiling broken at ({lat},{lng})");
            if n > 1 {
                // Overlap only on the shared bisection boundary.
                let mid_lat = b.sw.lat_micro + (b.ne.lat_micro - b.sw.lat_micro) / 2;
                let mid_lng = b.sw.lng_micro + (b.ne.lng_micro - b.sw.lng_micro) / 2;
                assert!(lat == mid_lat || lng == mid_lng);
            }
        }
    }
}
