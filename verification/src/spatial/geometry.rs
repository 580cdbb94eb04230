use crate::spatial::rng::gen_range_usize;
use vstd::arithmetic::div_mod::lemma_fundamental_div_mod;
use vstd::arithmetic::div_mod::lemma_fundamental_div_mod_converse;
use vstd::prelude::*;

verus! {

/// A cell of the grid world: `Point(x, y)`.
#[derive(Debug, Hash, PartialEq, Eq, Structural, Clone, Copy)]
pub struct Point(pub usize, pub usize);

/// A rectangle of cells, `Zone(lo, hi)`, covering `[lo.x, hi.x) x [lo.y, hi.y)`.
#[derive(Debug, Hash, PartialEq, Eq, Structural, Clone, Copy)]
pub struct Zone(pub Point, pub Point);

impl Zone {
    /// Half-open containment: the lower corner belongs to the zone, the upper one does not.
    pub open spec fn contains(&self, point: Point) -> bool {
        &&& self.0.0 <= point.0 < self.1.0
        &&& self.0.1 <= point.1 < self.1.1
    }

    /// Whether `point` lies in the zone.
    pub fn point_is_in(&self, point: &Point) -> (inside: bool)
        ensures
            inside == self.contains(*point),
    {
        point.0 >= (self.0).0 && point.1 >= (self.0).1 && point.0 < (self.1).0 && point.1 < (
        self.1).1
    }

    pub fn point_is_not_in(&self, point: &Point) -> (outside: bool)
        ensures
            outside == !self.contains(*point),
    {
        !self.point_is_in(point)
    }
}

/// The squared Euclidean distance between two cells.
pub open spec fn squared_distance(a: Point, b: Point) -> int {
    (a.0 - b.0) * (a.0 - b.0) + (a.1 - b.1) * (a.1 - b.1)
}

/// Two cells that differ by one along a single axis are at squared distance one.
pub proof fn lemma_unit_step(a: Point, b: Point)
    requires
        (a.1 == b.1 && (a.0 == b.0 + 1 || b.0 == a.0 + 1)) || (a.0 == b.0 && (a.1 == b.1 + 1
            || b.1 == a.1 + 1)),
    ensures
        squared_distance(a, b) == 1,
{
    let dx = a.0 - b.0;
    let dy = a.1 - b.1;
    assert(dx * dx + dy * dy == 1) by (nonlinear_arith)
        requires
            (dy == 0 && (dx == 1 || dx == -1)) || (dx == 0 && (dy == 1 || dy == -1)),
    ;
}

/// The coordinate one step up or down from `coord`, if it lies in `[0, max]`.
pub open spec fn step(coord: usize, max: usize, up: bool) -> Option<usize> {
    if up {
        if coord < max {
            Some((coord + 1) as usize)
        } else {
            None
        }
    } else {
        if coord > 0 {
            Some((coord - 1) as usize)
        } else {
            None
        }
    }
}

/// The coordinate one step from `coord`: the preferred way if that stays in
/// `[0, max]`, else the opposite way, if that does.
pub open spec fn step_either_way(coord: usize, max: usize, up_first: bool) -> Option<usize> {
    match step(coord, max, up_first) {
        Some(next) => Some(next),
        None => step(coord, max, !up_first),
    }
}

/// The geometry of a square map cut into square zones.
#[derive(Debug, Clone, Copy)]
pub struct MapDefinition {
    zone_width: usize,
    map_width_in_zones: usize,
    coordinate_max_value: usize,
}

impl MapDefinition {
    /// Cells along one edge of a zone.
    pub closed spec fn spec_zone_width(&self) -> usize {
        self.zone_width
    }

    /// Zones along one edge of the map.
    pub closed spec fn spec_map_width_in_zones(&self) -> usize {
        self.map_width_in_zones
    }

    /// The largest coordinate that lies on the map.
    pub closed spec fn spec_coordinate_max(&self) -> usize {
        self.coordinate_max_value
    }

    /// The map has at least one cell, its edge fits the machine word, and the
    /// largest coordinate is the edge length less one.
    pub open spec fn wf(&self) -> bool {
        &&& self.spec_zone_width() >= 1
        &&& self.spec_map_width_in_zones() >= 1
        &&& self.spec_zone_width() * self.spec_map_width_in_zones() <= usize::MAX
        &&& self.spec_coordinate_max() == self.spec_zone_width() * self.spec_map_width_in_zones()
            - 1
    }

    /// Cells along one edge of the map.
    pub open spec fn edge(&self) -> int {
        self.spec_zone_width() * self.spec_map_width_in_zones()
    }

    /// `coord` is a coordinate of the map, on either axis.
    pub open spec fn contains_coord(&self, coord: usize) -> bool {
        coord < self.edge()
    }

    /// `point` is a cell of the map.
    pub open spec fn contains(&self, point: Point) -> bool {
        self.contains_coord(point.0) && self.contains_coord(point.1)
    }

    /// The number of zones on the map.
    pub open spec fn zone_count(&self) -> int {
        self.spec_map_width_in_zones() * self.spec_map_width_in_zones()
    }

    /// The area of the zone stored at `index`: zone `(zx, zy)` sits at `zx * N + zy`
    /// and covers `[zx * W, (zx + 1) * W) x [zy * W, (zy + 1) * W)`.
    pub open spec fn zone_area(&self, index: int) -> Zone
        recommends
            self.wf(),
            0 <= index < self.zone_count(),
    {
        let n = self.spec_map_width_in_zones() as int;
        let w = self.spec_zone_width() as int;
        Zone(
            Point(((index / n) * w) as usize, ((index % n) * w) as usize),
            Point(((index / n) * w + w) as usize, ((index % n) * w + w) as usize),
        )
    }

    /// The index of the zone that holds `point`.
    pub open spec fn zone_index(&self, point: Point) -> int {
        (point.0 / self.spec_zone_width()) * self.spec_map_width_in_zones() + point.1
            / self.spec_zone_width()
    }

    /// A map of `map_width_in_zones` zones along each edge, each zone
    /// `zone_width` cells wide. The map must have a cell, and its edge must fit
    /// the machine word.
    pub fn new(zone_width: usize, map_width_in_zones: usize) -> (map: MapDefinition)
        requires
            1 <= zone_width * map_width_in_zones <= usize::MAX,
        ensures
            map.wf(),
            map.spec_zone_width() == zone_width,
            map.spec_map_width_in_zones() == map_width_in_zones,
    {
        assert(zone_width >= 1 && map_width_in_zones >= 1) by (nonlinear_arith)
            requires
                1 <= zone_width * map_width_in_zones,
        ;
        assert(map_width_in_zones * zone_width == zone_width * map_width_in_zones)
            by (nonlinear_arith);
        MapDefinition {
            coordinate_max_value: map_width_in_zones * zone_width - 1,
            zone_width,
            map_width_in_zones,
        }
    }

    #[verifier::when_used_as_spec(spec_zone_width)]
    pub fn zone_width(&self) -> (width: usize)
        ensures
            width == self.spec_zone_width(),
    {
        self.zone_width
    }

    #[verifier::when_used_as_spec(spec_map_width_in_zones)]
    pub fn map_width_in_zones(&self) -> (width: usize)
        ensures
            width == self.spec_map_width_in_zones(),
    {
        self.map_width_in_zones
    }

    #[verifier::when_used_as_spec(spec_coordinate_max)]
    pub fn coordinate_max(&self) -> (max: usize)
        ensures
            max == self.spec_coordinate_max(),
    {
        self.coordinate_max_value
    }

    /// Whether `point` is a cell of the map.
    pub fn point_is_inside(&self, point: &Point) -> (inside: bool)
        requires
            self.wf(),
        ensures
            inside == self.contains(*point),
    {
        self.coord_is_inside(&point.0) && self.coord_is_inside(&point.1)
    }

    /// Whether `coord` is a coordinate of the map, on either axis.
    pub fn coord_is_inside(&self, coord: &usize) -> (inside: bool)
        requires
            self.wf(),
        ensures
            inside == self.contains_coord(*coord),
    {
        *coord < self.zone_width * self.map_width_in_zones
    }

    /// The cell reached from `point` when direction `direction` is drawn.
    /// Directions 0 and 1 prefer a step up and down the x axis, directions 2
    /// and 3 a step up and down the y axis. Where the preferred step leaves the
    /// map the opposite step is taken, and where that leaves the map too, a
    /// step along the other axis, up if that stays on the map, else down.
    pub open spec fn neighbor(&self, point: Point, direction: usize) -> Point {
        let max = self.spec_coordinate_max();
        let Point(x, y) = point;
        let up = direction == 0 || direction == 2;
        if direction < 2 {
            match step_either_way(x, max, up) {
                Some(next) => Point(next, y),
                None => match step_either_way(y, max, true) {
                    Some(next) => Point(x, next),
                    None => point,
                },
            }
        } else {
            match step_either_way(y, max, up) {
                Some(next) => Point(x, next),
                None => match step_either_way(x, max, true) {
                    Some(next) => Point(next, y),
                    None => point,
                },
            }
        }
    }

    /// A step can be taken from `point` whatever direction is drawn: only the
    /// single cell of a one-cell map has nowhere to go.
    pub open spec fn can_step_from(&self, point: Point) -> bool {
        self.spec_coordinate_max() > 0 || point.0 > 0 || point.1 > 0
    }

    /// The step taken from `point` once `direction` has been drawn.
    pub fn neighbor_in_direction(&self, point: &Point, direction: usize) -> (next: Point)
        requires
            direction < 4,
            self.can_step_from(*point),
        ensures
            next == self.neighbor(*point, direction),
            self.wf() && self.contains(*point) ==> self.contains(next) && squared_distance(
                *point,
                next,
            ) == 1,
    {
        let mut candidate: Point = *point;
        let max: usize = self.coordinate_max_value;
        if direction == 0 {
            if candidate.0 < max {
                candidate.0 += 1;
            } else if candidate.0 > 0 {
                candidate.0 -= 1;
            } else if candidate.1 < max {
                candidate.1 += 1;
            } else {
                candidate.1 -= 1;
            }
        } else if direction == 1 {
            if candidate.0 > 0 {
                candidate.0 -= 1;
            } else if candidate.0 < max {
                candidate.0 += 1;
            } else if candidate.1 < max {
                candidate.1 += 1;
            } else {
                candidate.1 -= 1;
            }
        } else if direction == 2 {
            if candidate.1 < max {
                candidate.1 += 1;
            } else if candidate.1 > 0 {
                candidate.1 -= 1;
            } else if candidate.0 < max {
                candidate.0 += 1;
            } else {
                candidate.0 -= 1;
            }
        } else {
            if candidate.1 > 0 {
                candidate.1 -= 1;
            } else if candidate.1 < max {
                candidate.1 += 1;
            } else if candidate.0 < max {
                candidate.0 += 1;
            } else {
                candidate.0 -= 1;
            }
        }
        proof {
            lemma_unit_step(*point, candidate);
        }
        candidate
    }

    /// Draws a cell with both coordinates in `[0, coordinate_max)`.
    pub fn random_point(&self, rng: &mut rand::rngs::ThreadRng) -> (point: Point)
        requires
            self.spec_coordinate_max() > 0,
        ensures
            point.0 < self.spec_coordinate_max(),
            point.1 < self.spec_coordinate_max(),
            self.wf() ==> self.contains(point),
    {
        let x: usize = gen_range_usize(rng, 0, self.coordinate_max_value);
        let y: usize = gen_range_usize(rng, 0, self.coordinate_max_value);
        Point(x, y)
    }

    /// Draws one of the four directions and steps from `point` that way. From a
    /// cell of the map the step ends on the map, exactly one cell away.
    pub fn random_point_next_to(&self, point: &Point, rng: &mut rand::rngs::ThreadRng) -> (next:
        Point)
        requires
            self.can_step_from(*point),
        ensures
            exists|direction: usize| direction < 4 && next == #[trigger] self.neighbor(*point, direction),
            self.wf() && self.contains(*point) ==> self.contains(next) && squared_distance(
                *point,
                next,
            ) == 1,
    {
        let direction: usize = gen_range_usize(rng, 0, 4);
        self.neighbor_in_direction(point, direction)
    }
}

/// Where the window of zones around a coordinate starts on that axis.
pub open spec fn window_start(coord: usize, zone_width: usize) -> int {
    if coord > zone_width {
        coord as int / zone_width as int - 1
    } else {
        0
    }
}

/// How many zones the window around a coordinate spans on that axis.
pub open spec fn window_span(coord: usize, zone_width: usize) -> int {
    if coord > zone_width {
        3
    } else {
        2
    }
}

/// The index that the window around `point` yields at offsets `(x_offset, y_offset)`.
pub open spec fn window_index(
    point: Point,
    zone_width: usize,
    map_width_in_zones: usize,
    x_offset: int,
    y_offset: int,
) -> int {
    (window_start(point.0, zone_width) + x_offset) * map_width_in_zones + (window_start(
        point.1,
        zone_width,
    ) + y_offset)
}

/// Every index of the window around `point` fits the machine word.
pub open spec fn window_fits(point: Point, zone_width: usize, map_width_in_zones: usize) -> bool {
    &&& window_start(point.0, zone_width) + window_span(point.0, zone_width) - 1 <= usize::MAX
    &&& window_index(
        point,
        zone_width,
        map_width_in_zones,
        window_span(point.0, zone_width) - 1,
        window_span(point.1, zone_width) - 1,
    ) <= usize::MAX
}

/// `index` is one of the indexes of the window around `point`.
pub open spec fn in_window(point: Point, zone_width: usize, map_width_in_zones: usize, index: int) -> bool {
    exists|x_offset: int, y_offset: int|
        0 <= x_offset < window_span(point.0, zone_width) && 0 <= y_offset < window_span(
            point.1,
            zone_width,
        ) && index == #[trigger] window_index(
            point,
            zone_width,
            map_width_in_zones,
            x_offset,
            y_offset,
        )
}

/// Lists the indexes of the zones in visible range of `point`, x offsets outermost.
pub fn compute_indexes_for_zones_in_range(
    point: &Point,
    zone_width: usize,
    map_width_in_zones: usize,
) -> (indexes: Vec<usize>)
    requires
        zone_width > 0,
        window_fits(*point, zone_width, map_width_in_zones),
    ensures
        indexes@.len() == window_span(point.0, zone_width) * window_span(point.1, zone_width),
        forall|x_offset: int, y_offset: int|
            0 <= x_offset < window_span(point.0, zone_width) && 0 <= y_offset < window_span(
                point.1,
                zone_width,
            ) ==> indexes@[x_offset * window_span(point.1, zone_width) + y_offset]
                == #[trigger] window_index(
                *point,
                zone_width,
                map_width_in_zones,
                x_offset,
                y_offset,
            ),
        forall|k: int|
            0 <= k < indexes@.len() ==> in_window(
                *point,
                zone_width,
                map_width_in_zones,
                #[trigger] indexes@[k] as int,
            ),
{
    proof {
        if point.0 > zone_width {
            assert(point.0 as int / zone_width as int >= 1) by (nonlinear_arith)
                requires
                    point.0 > zone_width,
                    zone_width > 0,
            ;
        }
        if point.1 > zone_width {
            assert(point.1 as int / zone_width as int >= 1) by (nonlinear_arith)
                requires
                    point.1 > zone_width,
                    zone_width > 0,
            ;
        }
    }
    let (start_x, x_offset_max): (usize, usize) = if point.0 > zone_width {
        (point.0 / zone_width - 1, 3)
    } else {
        (0, 2)
    };
    let (start_y, y_offset_max): (usize, usize) = if point.1 > zone_width {
        (point.1 / zone_width - 1, 3)
    } else {
        (0, 2)
    };
    let ghost top: int = window_index(
        *point,
        zone_width,
        map_width_in_zones,
        x_offset_max - 1,
        y_offset_max - 1,
    );
    let mut indexes: Vec<usize> = Vec::new();
    let mut x_offset: usize = 0;
    while x_offset < x_offset_max
        invariant
            zone_width > 0,
            x_offset <= x_offset_max,
            2 <= x_offset_max <= 3,
            2 <= y_offset_max <= 3,
            x_offset_max == window_span(point.0, zone_width),
            y_offset_max == window_span(point.1, zone_width),
            start_x == window_start(point.0, zone_width),
            start_y == window_start(point.1, zone_width),
            top == (start_x + x_offset_max - 1) * map_width_in_zones + (start_y + y_offset_max - 1),
            top <= usize::MAX,
            start_x + x_offset_max - 1 <= usize::MAX,
            indexes@.len() == x_offset * y_offset_max,
            forall|i: int, j: int|
                0 <= i < x_offset && 0 <= j < y_offset_max ==> indexes@[i * y_offset_max + j]
                    == #[trigger] window_index(*point, zone_width, map_width_in_zones, i, j),
            forall|k: int|
                0 <= k < indexes@.len() ==> in_window(
                    *point,
                    zone_width,
                    map_width_in_zones,
                    #[trigger] indexes@[k] as int,
                ),
        decreases x_offset_max - x_offset,
    {
        let mut y_offset: usize = 0;
        while y_offset < y_offset_max
            invariant
                zone_width > 0,
                x_offset < x_offset_max,
                y_offset <= y_offset_max,
                2 <= x_offset_max <= 3,
                2 <= y_offset_max <= 3,
                x_offset_max == window_span(point.0, zone_width),
                y_offset_max == window_span(point.1, zone_width),
                start_x == window_start(point.0, zone_width),
                start_y == window_start(point.1, zone_width),
                top == (start_x + x_offset_max - 1) * map_width_in_zones + (start_y + y_offset_max
                    - 1),
                top <= usize::MAX,
                start_x + x_offset_max - 1 <= usize::MAX,
                indexes@.len() == x_offset * y_offset_max + y_offset,
                forall|i: int, j: int|
                    (0 <= i < x_offset && 0 <= j < y_offset_max) || (i == x_offset && 0 <= j
                        < y_offset) ==> indexes@[i * y_offset_max + j] == #[trigger] window_index(
                        *point,
                        zone_width,
                        map_width_in_zones,
                        i,
                        j,
                    ),
                forall|k: int|
                    0 <= k < indexes@.len() ==> in_window(
                        *point,
                        zone_width,
                        map_width_in_zones,
                        #[trigger] indexes@[k] as int,
                    ),
            decreases y_offset_max - y_offset,
        {
            proof {
                assert((start_x + x_offset) * map_width_in_zones <= (start_x + x_offset_max - 1)
                    * map_width_in_zones) by (nonlinear_arith)
                    requires
                        x_offset <= x_offset_max - 1,
                ;
            }
            let channel_index: usize = (start_x + x_offset) * map_width_in_zones + (start_y
                + y_offset);
            assert(channel_index == window_index(
                *point,
                zone_width,
                map_width_in_zones,
                x_offset as int,
                y_offset as int,
            ));
            let ghost before = indexes@;
            indexes.push(channel_index);
            proof {
                assert forall|i: int, j: int|
                    (0 <= i < x_offset && 0 <= j < y_offset_max) || (i == x_offset && 0 <= j
                        < y_offset + 1) implies indexes@[i * y_offset_max + j]
                    == #[trigger] window_index(*point, zone_width, map_width_in_zones, i, j) by {
                    if i < x_offset {
                        assert(i * y_offset_max + j < x_offset * y_offset_max) by (nonlinear_arith)
                            requires
                                0 <= i < x_offset,
                                0 <= j < y_offset_max,
                        ;
                        assert(indexes@[i * y_offset_max + j] == before[i * y_offset_max + j]);
                    } else if j < y_offset {
                        assert(indexes@[i * y_offset_max + j] == before[i * y_offset_max + j]);
                    }
                }
                assert forall|k: int| 0 <= k < indexes@.len() implies in_window(
                    *point,
                    zone_width,
                    map_width_in_zones,
                    #[trigger] indexes@[k] as int,
                ) by {
                    if k < before.len() {
                        assert(indexes@[k] == before[k]);
                    }
                }
            }
            y_offset += 1;
        }
        proof {
            assert((x_offset + 1) * y_offset_max == x_offset * y_offset_max + y_offset_max)
                by (nonlinear_arith);
        }
        x_offset += 1;
    }
    indexes
}

/// How many zones around a zone are visible from it.
pub const RANGE_IN_ZONES: usize = 1;

/// The area visible from `from_zone`: the zone itself, grown by one zone width
/// on every side on which the map goes on.
pub open spec fn visible_area(map: MapDefinition, from_zone: Zone) -> Zone {
    let w = map.spec_zone_width() as int;
    let n = map.spec_map_width_in_zones() as int;
    let Zone(start, end) = from_zone;
    Zone(
        Point(
            if start.0 >= w {
                (start.0 - w) as usize
            } else {
                start.0
            },
            if start.1 >= w {
                (start.1 - w) as usize
            } else {
                start.1
            },
        ),
        Point(
            if end.0 as int / w < n {
                (end.0 + w) as usize
            } else {
                end.0
            },
            if end.1 as int / w < n {
                (end.1 + w) as usize
            } else {
                end.1
            },
        ),
    )
}

/// Computes the area visible from `from_zone`.
pub fn compute_visible_area(map_definition: &MapDefinition, from_zone: Zone) -> (area: Zone)
    requires
        map_definition.spec_zone_width() > 0,
        (from_zone.1.0 as int) / (map_definition.spec_zone_width() as int)
            < map_definition.spec_map_width_in_zones() ==> from_zone.1.0
            + map_definition.spec_zone_width() <= usize::MAX,
        (from_zone.1.1 as int) / (map_definition.spec_zone_width() as int)
            < map_definition.spec_map_width_in_zones() ==> from_zone.1.1
            + map_definition.spec_zone_width() <= usize::MAX,
    ensures
        area == visible_area(*map_definition, from_zone),
{
    let zone_width: usize = map_definition.zone_width;
    let map_width_in_zones: usize = map_definition.map_width_in_zones;
    let mut visible_area_start: Point = from_zone.0;
    let mut visible_area_end: Point = from_zone.1;
    visible_area_start.0 = if visible_area_start.0 >= zone_width {
        visible_area_start.0 - zone_width * RANGE_IN_ZONES
    } else {
        visible_area_start.0
    };
    visible_area_start.1 = if visible_area_start.1 >= zone_width {
        visible_area_start.1 - zone_width * RANGE_IN_ZONES
    } else {
        visible_area_start.1
    };
    visible_area_end.0 = if visible_area_end.0 / zone_width < map_width_in_zones {
        visible_area_end.0 + zone_width * RANGE_IN_ZONES
    } else {
        visible_area_end.0
    };
    visible_area_end.1 = if visible_area_end.1 / zone_width < map_width_in_zones {
        visible_area_end.1 + zone_width * RANGE_IN_ZONES
    } else {
        visible_area_end.1
    };
    Zone(visible_area_start, visible_area_end)
}

/// The index of the zone that holds `point`.
pub fn zone_index_for_point(point: &Point, map_definition: &MapDefinition) -> (index: usize)
    requires
        map_definition.wf(),
        map_definition.zone_count() <= usize::MAX,
        map_definition.contains(*point),
    ensures
        index == map_definition.zone_index(*point),
        index < map_definition.zone_count(),
{
    proof {
        lemma_zone_index_in_range(*map_definition, *point);
    }
    proof {
        lemma_zone_coordinate_in_range(*map_definition, point.0);
        lemma_zone_coordinate_in_range(*map_definition, point.1);
    }
    let x: usize = point.0 / map_definition.zone_width;
    let y: usize = point.1 / map_definition.zone_width;
    assert(0 <= x * map_definition.map_width_in_zones <= x * map_definition.map_width_in_zones + y)
        by (nonlinear_arith)
        requires
            x >= 0,
            y >= 0,
            map_definition.map_width_in_zones >= 0,
    ;
    x * map_definition.map_width_in_zones + y
}

/// A coordinate on the map lies in a zone column (or row) of the map.
pub proof fn lemma_zone_coordinate_in_range(map: MapDefinition, coord: usize)
    requires
        map.wf(),
        map.contains_coord(coord),
    ensures
        0 <= (coord as int) / (map.spec_zone_width() as int) < map.spec_map_width_in_zones(),
{
    let w = map.spec_zone_width() as int;
    let n = map.spec_map_width_in_zones() as int;
    lemma_fundamental_div_mod(coord as int, w);
    let q = coord as int / w;
    assert(q < n) by (nonlinear_arith)
        requires
            coord == w * q + coord as int % w,
            0 <= coord as int % w,
            coord < w * n,
            w >= 1,
    ;
    assert(q >= 0) by (nonlinear_arith)
        requires
            coord == w * q + coord as int % w,
            coord as int % w < w,
            coord >= 0,
            w >= 1,
    ;
}

/// The zone index of a cell of the map is the index of one of its zones.
pub proof fn lemma_zone_index_in_range(map: MapDefinition, point: Point)
    requires
        map.wf(),
        map.contains(point),
    ensures
        0 <= map.zone_index(point) < map.zone_count(),
{
    let n = map.spec_map_width_in_zones() as int;
    lemma_zone_coordinate_in_range(map, point.0);
    lemma_zone_coordinate_in_range(map, point.1);
    let zx = point.0 as int / map.spec_zone_width() as int;
    let zy = point.1 as int / map.spec_zone_width() as int;
    assert(0 <= zx * n + zy < n * n) by (nonlinear_arith)
        requires
            0 <= zx < n,
            0 <= zy < n,
    ;
}

/// The zones tile the map: a cell of the map lies in the zone that its zone
/// index names, and in no other zone.
pub proof fn lemma_zones_tile_the_map(map: MapDefinition, point: Point, index: int)
    requires
        map.wf(),
        map.contains(point),
        0 <= index < map.zone_count(),
    ensures
        0 <= map.zone_index(point) < map.zone_count(),
        map.zone_area(index).contains(point) <==> index == map.zone_index(point),
{
    let n = map.spec_map_width_in_zones() as int;
    let w = map.spec_zone_width() as int;
    let zx = index / n;
    let zy = index % n;
    let px = point.0 as int / w;
    let py = point.1 as int / w;
    lemma_zone_index_in_range(map, point);
    lemma_zone_coordinate_in_range(map, point.0);
    lemma_zone_coordinate_in_range(map, point.1);
    lemma_fundamental_div_mod(index, n);
    assert(0 <= zx < n) by (nonlinear_arith)
        requires
            index == n * zx + zy,
            0 <= zy < n,
            0 <= index < n * n,
    ;
    assert(0 <= zx * w && zx * w + w <= w * n && 0 <= zy * w && zy * w + w <= w * n)
        by (nonlinear_arith)
        requires
            0 <= zx < n,
            0 <= zy < n,
            w >= 1,
    ;
    lemma_fundamental_div_mod(point.0 as int, w);
    lemma_fundamental_div_mod(point.1 as int, w);
    if map.zone_area(index).contains(point) {
        lemma_fundamental_div_mod_converse(point.0 as int, w, zx, point.0 - zx * w);
        lemma_fundamental_div_mod_converse(point.1 as int, w, zy, point.1 - zy * w);
        assert(index == px * n + py) by (nonlinear_arith)
            requires
                index == n * zx + zy,
                px == zx,
                py == zy,
        ;
    }
    if index == map.zone_index(point) {
        lemma_fundamental_div_mod_converse(index, n, px, py);
        assert(px * w <= point.0 < px * w + w) by (nonlinear_arith)
            requires
                point.0 == w * px + point.0 as int % w,
                0 <= point.0 as int % w < w,
        ;
        assert(py * w <= point.1 < py * w + w) by (nonlinear_arith)
            requires
                point.1 == w * py + point.1 as int % w,
                0 <= point.1 as int % w < w,
        ;
    }
}

/// Two zones of the map with different indexes share no cell.
pub proof fn lemma_zones_are_disjoint(map: MapDefinition, point: Point, first: int, second: int)
    requires
        map.wf(),
        0 <= first < map.zone_count(),
        0 <= second < map.zone_count(),
        map.zone_area(first).contains(point),
        map.zone_area(second).contains(point),
    ensures
        first == second,
        map.contains(point),
{
    lemma_zone_area_on_map(map, first, point);
    lemma_zones_tile_the_map(map, point, first);
    lemma_zones_tile_the_map(map, point, second);
}

/// A cell of a zone of the map is a cell of the map.
pub proof fn lemma_zone_area_on_map(map: MapDefinition, index: int, point: Point)
    requires
        map.wf(),
        0 <= index < map.zone_count(),
        map.zone_area(index).contains(point),
    ensures
        map.contains(point),
{
    let n = map.spec_map_width_in_zones() as int;
    let w = map.spec_zone_width() as int;
    let zx = index / n;
    let zy = index % n;
    lemma_fundamental_div_mod(index, n);
    assert(0 <= zx < n) by (nonlinear_arith)
        requires
            index == n * zx + zy,
            0 <= zy < n,
            0 <= index < n * n,
    ;
    assert(0 <= zx * w && zx * w + w <= w * n && 0 <= zy * w && zy * w + w <= w * n)
        by (nonlinear_arith)
        requires
            0 <= zx < n,
            0 <= zy < n,
            w >= 1,
    ;
}

/// The window of zones around a cell of the map holds the cell's own zone.
pub proof fn lemma_window_contains_own_zone(map: MapDefinition, point: Point)
    requires
        map.wf(),
        map.contains(point),
    ensures
        in_window(
            point,
            map.spec_zone_width(),
            map.spec_map_width_in_zones(),
            map.zone_index(point),
        ),
{
    let w = map.spec_zone_width();
    let n = map.spec_map_width_in_zones();
    let x_offset = point.0 as int / w as int - window_start(point.0, w);
    let y_offset = point.1 as int / w as int - window_start(point.1, w);
    lemma_window_offset_of_own_zone(point.0, w);
    lemma_window_offset_of_own_zone(point.1, w);
    assert(map.zone_index(point) == window_index(point, w, n, x_offset, y_offset));
}

/// A coordinate's own zone lies inside the window drawn around the coordinate.
pub proof fn lemma_window_offset_of_own_zone(coord: usize, zone_width: usize)
    requires
        zone_width >= 1,
    ensures
        0 <= (coord as int) / (zone_width as int) - window_start(coord, zone_width) < window_span(
            coord,
            zone_width,
        ),
{
    let w = zone_width as int;
    let q = coord as int / w;
    lemma_fundamental_div_mod(coord as int, w);
    if coord <= zone_width {
        assert(0 <= q <= 1) by (nonlinear_arith)
            requires
                coord == w * q + coord as int % w,
                0 <= coord as int % w < w,
                0 <= coord <= w,
                w >= 1,
        ;
    }
}

/// The largest index that a window around a cell of the map can yield still
/// fits the machine word once the zone count does.
pub proof fn lemma_window_fits_on_map(map: MapDefinition, point: Point)
    requires
        map.wf(),
        map.zone_count() <= usize::MAX,
        map.contains(point),
    ensures
        window_fits(point, map.spec_zone_width(), map.spec_map_width_in_zones()),
{
    let w = map.spec_zone_width();
    let n = map.spec_map_width_in_zones() as int;
    lemma_zone_coordinate_in_range(map, point.0);
    lemma_zone_coordinate_in_range(map, point.1);
    lemma_window_offset_of_own_zone(point.0, w);
    lemma_window_offset_of_own_zone(point.1, w);
    let top_x = window_start(point.0, w) + window_span(point.0, w) - 1;
    let top_y = window_start(point.1, w) + window_span(point.1, w) - 1;
    assert(top_x <= n && top_y <= n);
    lemma_square_leaves_room(n);
    assert(top_x * n + top_y <= n * n + n) by (nonlinear_arith)
        requires
            0 <= top_x <= n,
            0 <= top_y <= n,
    ;
    assert(n <= n * n) by (nonlinear_arith)
        requires
            n >= 1,
    ;
}

/// When `n * n` fits the machine word, so does `n * n + n`.
pub proof fn lemma_square_leaves_room(n: int)
    requires
        0 <= n,
        n * n <= usize::MAX,
    ensures
        n * n + n <= usize::MAX,
{
    if usize::MAX == 0xffff_ffff {
        assert(n * n + n <= 0xffff_ffff) by (nonlinear_arith)
            requires
                0 <= n,
                n * n <= 0xffff_ffff,
        {
            if n > 0xffff {
                assert(n * n >= 0x1_0000 * 0x1_0000);
            }
            assert(n * (n + 1) <= 0xffff * 0x1_0000);
        }
    } else {
        assert(usize::MAX == 0xffff_ffff_ffff_ffff);
        assert(n * n + n <= 0xffff_ffff_ffff_ffff) by (nonlinear_arith)
            requires
                0 <= n,
                n * n <= 0xffff_ffff_ffff_ffff,
        {
            if n > 0xffff_ffff {
                assert(n * n >= 0x1_0000_0000 * 0x1_0000_0000);
            }
            assert(n * (n + 1) <= 0xffff_ffff * 0x1_0000_0000);
        }
    }
}

/// An index that lies in the window around `point` is among the indexes listed
/// for that window.
pub proof fn lemma_window_position(
    point: Point,
    zone_width: usize,
    map_width_in_zones: usize,
    indexes: Seq<usize>,
    index: int,
)
    requires
        in_window(point, zone_width, map_width_in_zones, index),
        indexes.len() == window_span(point.0, zone_width) * window_span(point.1, zone_width),
        forall|x_offset: int, y_offset: int|
            0 <= x_offset < window_span(point.0, zone_width) && 0 <= y_offset < window_span(
                point.1,
                zone_width,
            ) ==> indexes[x_offset * window_span(point.1, zone_width) + y_offset]
                == #[trigger] window_index(
                point,
                zone_width,
                map_width_in_zones,
                x_offset,
                y_offset,
            ),
    ensures
        exists|at: int| 0 <= at < indexes.len() && #[trigger] indexes[at] == index,
{
    let span_x = window_span(point.0, zone_width);
    let span_y = window_span(point.1, zone_width);
    let (x_offset, y_offset) = choose|x_offset: int, y_offset: int|
        0 <= x_offset < span_x && 0 <= y_offset < span_y && index == #[trigger] window_index(
            point,
            zone_width,
            map_width_in_zones,
            x_offset,
            y_offset,
        );
    let at = x_offset * span_y + y_offset;
    assert(0 <= at < span_x * span_y) by (nonlinear_arith)
        requires
            0 <= x_offset < span_x,
            0 <= y_offset < span_y,
            at == x_offset * span_y + y_offset,
    ;
    assert(indexes[at] == index);
}

/// The indexes listed for the window around a cell of the map hold the index of
/// the cell's own zone.
pub proof fn lemma_listed_window_holds_own_zone(map: MapDefinition, point: Point, indexes: Seq<usize>)
    requires
        map.wf(),
        map.contains(point),
        indexes.len() == window_span(point.0, map.spec_zone_width()) * window_span(
            point.1,
            map.spec_zone_width(),
        ),
        forall|x_offset: int, y_offset: int|
            0 <= x_offset < window_span(point.0, map.spec_zone_width()) && 0 <= y_offset
                < window_span(point.1, map.spec_zone_width()) ==> indexes[x_offset * window_span(
                point.1,
                map.spec_zone_width(),
            ) + y_offset] == #[trigger] window_index(
                point,
                map.spec_zone_width(),
                map.spec_map_width_in_zones(),
                x_offset,
                y_offset,
            ),
    ensures
        exists|at: int| 0 <= at < indexes.len() && #[trigger] indexes[at] == map.zone_index(point),
{
    lemma_window_contains_own_zone(map, point);
    lemma_window_position(
        point,
        map.spec_zone_width(),
        map.spec_map_width_in_zones(),
        indexes,
        map.zone_index(point),
    );
}

} // verus!
