//! Adaptive spatial enumeration: a work stack of query cells seeded from a
//! grid, where a cell whose query comes back truncated at the service's
//! result cap is replaced by its four quadrants instead of being accepted.

use vstd::prelude::*;

use crate::geo::{coord_bounded, spec_quadrants, split_to_quadrants, BoundingBox, LatLong};

verus! {

/// A venue returned by the search service: a service-assigned id, a display
/// name, a location, and an optional administrative region code.
pub struct Venue {
    pub id: String,
    pub name: String,
    pub lat_micro: i64,
    pub lng_micro: i64,
    pub region: Option<String>,
}

/// The mathematical image of a [`Venue`]: strings as character sequences,
/// coordinates as unbounded integers.
pub struct VenueView {
    pub id: Seq<char>,
    pub name: Seq<char>,
    pub lat_micro: int,
    pub lng_micro: int,
    pub region: Option<Seq<char>>,
}

impl View for Venue {
    type V = VenueView;

    open spec fn view(&self) -> VenueView {
        VenueView {
            id: self.id@,
            name: self.name@,
            lat_micro: self.lat_micro as int,
            lng_micro: self.lng_micro as int,
            region: match self.region {
                Some(r) => Some(r@),
                None => None,
            },
        }
    }
}

impl DeepView for Venue {
    type V = VenueView;

    open spec fn deep_view(&self) -> VenueView {
        self.view()
    }
}

impl Clone for Venue {
    fn clone(&self) -> (r: Self)
        ensures
            r@ == self@,
    {
        Venue {
            id: self.id.clone(),
            name: self.name.clone(),
            lat_micro: self.lat_micro,
            lng_micro: self.lng_micro,
            region: match &self.region {
                Some(s) => Some(s.clone()),
                None => None,
            },
        }
    }
}

/// Most cells a seeded grid may have along one axis.
pub const MAX_GRID_DIM: usize = 1_000;

/// Largest accepted cell edge, in microdegrees (about eleven kilometers of
/// latitude).
pub const MAX_CELL_MICRO: i64 = 100_000;

/// Largest accepted overlap margin, in microdegrees.
pub const MAX_MARGIN_MICRO: i64 = 10_000;

pub open spec fn grid_params_ok(
    topleft: LatLong,
    cols: int,
    rows: int,
    cell_lat: int,
    cell_lng: int,
    margin_lat: int,
    margin_lng: int,
) -> bool {
    &&& -180_000_000 <= topleft.lat_micro <= 180_000_000
    &&& -180_000_000 <= topleft.lng_micro <= 180_000_000
    &&& 0 < cols <= MAX_GRID_DIM
    &&& 0 < rows <= MAX_GRID_DIM
    &&& 0 <= cell_lat <= MAX_CELL_MICRO
    &&& 0 <= cell_lng <= MAX_CELL_MICRO
    &&& 0 <= margin_lat <= MAX_MARGIN_MICRO
    &&& 0 <= margin_lng <= MAX_MARGIN_MICRO
}

/// The grid cell in column `c` (eastward from the top-left corner) and row
/// `r` (southward), expanded by the margin on every edge so that adjoining
/// cells overlap slightly.
pub open spec fn spec_grid_cell(
    topleft: LatLong,
    c: int,
    r: int,
    cell_lat: int,
    cell_lng: int,
    margin_lat: int,
    margin_lng: int,
) -> BoundingBox {
    BoundingBox {
        sw: LatLong {
            lat_micro: (topleft.lat_micro - (r + 1) * cell_lat - margin_lat) as i64,
            lng_micro: (topleft.lng_micro + c * cell_lng - margin_lng) as i64,
        },
        ne: LatLong {
            lat_micro: (topleft.lat_micro - r * cell_lat + margin_lat) as i64,
            lng_micro: (topleft.lng_micro + (c + 1) * cell_lng + margin_lng) as i64,
        },
    }
}

/// Check the region's dimensions against the cell size: the grid is accepted
/// only when the cell size is positive and divides both dimensions exactly.
/// Returns the number of columns and rows of the grid.
pub fn grid_dims(width_m: u32, height_m: u32, cell_m: u32) -> (r: Option<(u32, u32)>)
    ensures
        r is Some <==> (cell_m > 0 && width_m % cell_m == 0 && height_m % cell_m == 0),
        r matches Some(d) ==> d.0 == width_m / cell_m && d.1 == height_m / cell_m,
{
    if cell_m == 0 {
        return None;
    }
    if width_m % cell_m != 0 || height_m % cell_m != 0 {
        return None;
    }
    Some((width_m / cell_m, height_m / cell_m))
}

fn grid_cell(
    topleft: &LatLong,
    c: usize,
    r: usize,
    cell_lat: i64,
    cell_lng: i64,
    margin_lat: i64,
    margin_lng: i64,
) -> (b: BoundingBox)
    requires
        grid_params_ok(
            *topleft,
            c + 1 as int,
            r + 1 as int,
            cell_lat as int,
            cell_lng as int,
            margin_lat as int,
            margin_lng as int,
        ),
    ensures
        b == spec_grid_cell(
            *topleft,
            c as int,
            r as int,
            cell_lat as int,
            cell_lng as int,
            margin_lat as int,
            margin_lng as int,
        ),
        b.wf(),
        b.bounded(),
{
    proof {
        assert(0 <= (r + 1) * (cell_lat as int) <= 100_100_000) by (nonlinear_arith)
            requires
                0 <= r < MAX_GRID_DIM,
                0 <= cell_lat <= MAX_CELL_MICRO,
        ;
        assert((r as int) * (cell_lat as int) <= (r + 1) * (cell_lat as int)) by (nonlinear_arith)
            requires
                0 <= r,
                0 <= cell_lat,
        ;
        assert(0 <= (c + 1) * (cell_lng as int) <= 100_100_000) by (nonlinear_arith)
            requires
                0 <= c < MAX_GRID_DIM,
                0 <= cell_lng <= MAX_CELL_MICRO,
        ;
        assert((c as int) * (cell_lng as int) <= (c + 1) * (cell_lng as int)) by (nonlinear_arith)
            requires
                0 <= c,
                0 <= cell_lng,
        ;
        assert(0 <= (r as int) * (cell_lat as int)) by (nonlinear_arith)
            requires
                0 <= r,
                0 <= cell_lat,
        ;
        assert(0 <= (c as int) * (cell_lng as int)) by (nonlinear_arith)
            requires
                0 <= c,
                0 <= cell_lng,
        ;
    }
    let ri: i64 = r as i64;
    let ci: i64 = c as i64;
    BoundingBox {
        sw: LatLong {
            lat_micro: topleft.lat_micro - (ri + 1) * cell_lat - margin_lat,
            lng_micro: topleft.lng_micro + ci * cell_lng - margin_lng,
        },
        ne: LatLong {
            lat_micro: topleft.lat_micro - ri * cell_lat + margin_lat,
            lng_micro: topleft.lng_micro + (ci + 1) * cell_lng + margin_lng,
        },
    }
}

/// Tile the target region into a column-major list of overlapping query
/// cells, the seed of the enumeration's work stack.
pub fn seed_grid(
    topleft: &LatLong,
    cols: usize,
    rows: usize,
    cell_lat: i64,
    cell_lng: i64,
    margin_lat: i64,
    margin_lng: i64,
) -> (cells: Vec<BoundingBox>)
    requires
        grid_params_ok(
            *topleft,
            cols as int,
            rows as int,
            cell_lat as int,
            cell_lng as int,
            margin_lat as int,
            margin_lng as int,
        ),
    ensures
        cells@.len() == cols * rows,
        forall|c: int, r: int|
            0 <= c < cols && 0 <= r < rows ==> cells@[c * (rows as int) + r]
                == #[trigger] spec_grid_cell(
                *topleft,
                c,
                r,
                cell_lat as int,
                cell_lng as int,
                margin_lat as int,
                margin_lng as int,
            ),
        forall|i: int| 0 <= i < cells@.len() ==> (#[trigger] cells@[i]).wf() && cells@[i].bounded(),
{
    let mut cells: Vec<BoundingBox> = Vec::new();
    let mut c: usize = 0;
    while c < cols
        invariant
            grid_params_ok(
                *topleft,
                cols as int,
                rows as int,
                cell_lat as int,
                cell_lng as int,
                margin_lat as int,
                margin_lng as int,
            ),
            0 <= c <= cols,
            cells@.len() == c * rows,
            forall|i: int|
                0 <= i < cells@.len() ==> cells@[i] == #[trigger] spec_grid_cell(
                    *topleft,
                    i / (rows as int),
                    i % (rows as int),
                    cell_lat as int,
                    cell_lng as int,
                    margin_lat as int,
                    margin_lng as int,
                ),
            forall|i: int|
                0 <= i < cells@.len() ==> (#[trigger] cells@[i]).wf() && cells@[i].bounded(),
        decreases cols - c,
    {
        let mut r: usize = 0;
        while r < rows
            invariant
                grid_params_ok(
                    *topleft,
                    cols as int,
                    rows as int,
                    cell_lat as int,
                    cell_lng as int,
                    margin_lat as int,
                    margin_lng as int,
                ),
                0 <= c < cols,
                0 <= r <= rows,
                cells@.len() == c * rows + r,
                forall|i: int|
                    0 <= i < cells@.len() ==> cells@[i] == #[trigger] spec_grid_cell(
                        *topleft,
                        i / (rows as int),
                        i % (rows as int),
                        cell_lat as int,
                        cell_lng as int,
                        margin_lat as int,
                        margin_lng as int,
                    ),
                forall|i: int|
                    0 <= i < cells@.len() ==> (#[trigger] cells@[i]).wf() && cells@[i].bounded(),
            decreases rows - r,
        {
            proof {
                assert(c * rows + r < (c + 1) * rows <= cols * rows) by (nonlinear_arith)
                    requires
                        0 <= c < cols,
                        0 <= r < rows,
                ;
                vstd::arithmetic::div_mod::lemma_fundamental_div_mod_converse(
                    (c * rows + r) as int,
                    rows as int,
                    c as int,
                    r as int,
                );
            }
            let cell = grid_cell(topleft, c, r, cell_lat, cell_lng, margin_lat, margin_lng);
            cells.push(cell);
            r = r + 1;
        }
        proof {
            assert((c + 1) * (rows as int) == c * (rows as int) + rows) by (nonlinear_arith);
        }
        c = c + 1;
    }
    proof {
        assert forall|cc: int, rr: int| 0 <= cc < cols && 0 <= rr < rows implies cells@[cc * (
        rows as int) + rr] == #[trigger] spec_grid_cell(
            *topleft,
            cc,
            rr,
            cell_lat as int,
            cell_lng as int,
            margin_lat as int,
            margin_lng as int,
        ) by {
            assert(0 <= cc * (rows as int) + rr < cols * rows) by (nonlinear_arith)
                requires
                    0 <= cc < cols,
                    0 <= rr < rows,
            ;
            vstd::arithmetic::div_mod::lemma_fundamental_div_mod_converse(
                cc * (rows as int) + rr,
                rows as int,
                cc,
                rr,
            );
        }
    }
    cells
}

/// The enumeration's state: a stack of cells still to query, and the venues
/// accepted so far.  The found list is a multiset with repeats — overlapping
/// cell margins make one venue discoverable from several cells — and
/// deduplication by id is the consumer's job.
pub struct Enumeration {
    pub unexplored: Vec<BoundingBox>,
    pub found: Vec<Venue>,
}

impl Enumeration {
    /// Every pending cell is a well-formed box with bounded coordinates, so
    /// that it can be split further if its query comes back truncated.
    pub open spec fn wf(self) -> bool {
        forall|i: int|
            0 <= i < self.unexplored@.len() ==> (#[trigger] self.unexplored@[i]).wf()
                && self.unexplored@[i].bounded()
    }

    /// Start an enumeration from the seeded grid of cells.
    pub fn new(cells: Vec<BoundingBox>) -> (s: Self)
        requires
            forall|i: int| 0 <= i < cells@.len() ==> (#[trigger] cells@[i]).wf() && cells@[i].bounded(),
        ensures
            s.unexplored@ == cells@,
            s.found@ == Seq::<Venue>::empty(),
            s.wf(),
    {
        let s = Enumeration { unexplored: cells, found: Vec::new() };
        proof {
            assert(s.found@ =~= Seq::<Venue>::empty());
        }
        s
    }

    /// Pop the next cell to query, or report that the stack is empty and the
    /// enumeration is over.
    pub fn next_cell(&mut self) -> (r: Option<BoundingBox>)
        requires
            old(self).wf(),
        ensures
            final(self).found@ == old(self).found@,
            final(self).wf(),
            old(self).unexplored@.len() == 0 ==> r is None && final(self).unexplored@ == old(
                self,
            ).unexplored@,
            old(self).unexplored@.len() > 0 ==> {
                &&& r == Some(old(self).unexplored@.last())
                &&& final(self).unexplored@ == old(self).unexplored@.drop_last()
                &&& r->Some_0.wf()
                &&& r->Some_0.bounded()
            },
    {
        self.unexplored.pop()
    }

    /// Feed back the service's response for one cell.  A result count equal
    /// to the cap is the only truncation signal the service gives: such a
    /// response is discarded and the cell's four quadrants are pushed in its
    /// place; any smaller response is accepted into the found list whole.
    pub fn report_query(&mut self, cell: &BoundingBox, venues: Vec<Venue>, cap: usize)
        requires
            old(self).wf(),
            cell.wf(),
            cell.bounded(),
        ensures
            final(self).wf(),
            venues@.len() == cap ==> {
                &&& final(self).unexplored@ == old(self).unexplored@ + spec_quadrants(*cell)
                &&& final(self).found@ == old(self).found@
            },
            venues@.len() != cap ==> {
                &&& final(self).unexplored@ == old(self).unexplored@
                &&& final(self).found@ == old(self).found@ + venues@
            },
    {
        let mut venues = venues;
        if venues.len() == cap {
            let quads = split_to_quadrants(cell);
            let ghost before = self.unexplored@;
            self.unexplored.push(quads[0]);
            self.unexplored.push(quads[1]);
            self.unexplored.push(quads[2]);
            self.unexplored.push(quads[3]);
            proof {
                assert(self.unexplored@ =~= before + spec_quadrants(*cell));
            }
        } else {
            let ghost before = self.found@;
            self.found.append(&mut venues);
            proof {
                assert(self.found@ =~= before + self.found@.subrange(
                    before.len() as int,
                    self.found@.len() as int,
                ));
            }
        }
    }

    /// Whether the work stack is exhausted.
    pub fn is_done(&self) -> (r: bool)
        ensures
            r == (self.unexplored@.len() == 0),
    {
        self.unexplored.len() == 0
    }

    /// Surrender the accepted venues once the stack is empty.
    pub fn into_found(self) -> (r: Vec<Venue>)
        ensures
            r@ == self.found@,
    {
        self.found
    }
}

} // verus!
