use vstd::prelude::*;

verus! {

/// Columns the wall map keeps free for the legend.
pub const LEGEND_WIDTH: usize = 30;

/// Widest the wall map may be: twice the default number of axial characters.
pub const MAX_AXIAL_CHARS: usize = 200;

/// Most sensor rows the wall map shows before it starts grouping sensors.
pub const MAX_SENSOR_ROWS: usize = 16;

/// Which grid points the wall map shows: every `axial_step`-th axial point,
/// `display_axial` of them, and every `sensor_step`-th sensor, `display_sensors`
/// of them.
#[derive(Debug, Clone, Copy, PartialEq, Eq, Structural)]
pub struct MapLayout {
    pub axial_step: usize,
    pub display_axial: usize,
    pub sensor_step: usize,
    pub display_sensors: usize,
}

/// At least one.
pub open spec fn at_least_one(x: int) -> int {
    if x < 1 {
        1
    } else {
        x
    }
}

/// Axial characters available on a terminal `width` columns wide.
pub open spec fn axial_chars(width: int) -> int {
    let w = width - LEGEND_WIDTH - 8;
    if w < MAX_AXIAL_CHARS {
        w
    } else {
        MAX_AXIAL_CHARS as int
    }
}

/// The layout of the wall map of `num_sensors` rows of `num_axial` points on a
/// terminal `width` columns wide.
pub open spec fn spec_map_layout(width: int, num_sensors: int, num_axial: int) -> MapLayout {
    let axial_step = at_least_one(num_axial / at_least_one(axial_chars(width)));
    let sensor_step = at_least_one(num_sensors / MAX_SENSOR_ROWS as int);
    MapLayout {
        axial_step: axial_step as usize,
        display_axial: at_least_one(num_axial / axial_step) as usize,
        sensor_step: sensor_step as usize,
        display_sensors: (num_sensors / sensor_step) as usize,
    }
}

impl MapLayout {
    /// Chooses which grid points the wall map shows.
    pub fn new(terminal_width: usize, num_sensors: usize, num_axial: usize) -> (l: MapLayout)
        requires
            terminal_width >= LEGEND_WIDTH + 8,
        ensures
            l == spec_map_layout(terminal_width as int, num_sensors as int, num_axial as int),
    {
        let width_left = terminal_width - LEGEND_WIDTH - 8;
        let chars = if width_left < MAX_AXIAL_CHARS {
            width_left
        } else {
            MAX_AXIAL_CHARS
        };
        let chars1 = if chars < 1 {
            1
        } else {
            chars
        };
        let q = num_axial / chars1;
        let axial_step = if q < 1 {
            1
        } else {
            q
        };
        let d = num_axial / axial_step;
        let display_axial = if d < 1 {
            1
        } else {
            d
        };
        let qs = num_sensors / MAX_SENSOR_ROWS;
        let sensor_step = if qs < 1 {
            1
        } else {
            qs
        };
        MapLayout { axial_step, display_axial, sensor_step, display_sensors: num_sensors / sensor_step }
    }

    /// Sensors whose points a map row summarises: `[first, end)`.
    pub fn row_group(&self, row: usize, num_sensors: usize) -> (g: (usize, usize))
        requires
            row * self.sensor_step + self.sensor_step <= usize::MAX,
        ensures
            g.0 == row * self.sensor_step,
            g.1 == if row * self.sensor_step + self.sensor_step < num_sensors {
                row * self.sensor_step + self.sensor_step
            } else {
                num_sensors as int
            },
    {
        proof {
            assert(row * self.sensor_step <= row * self.sensor_step + self.sensor_step);
        }
        let first = row * self.sensor_step;
        let end = first + self.sensor_step;
        (first, if end < num_sensors {
            end
        } else {
            num_sensors
        })
    }
}

/// Intervals the position scale under the wall map is divided into.
pub const AXIAL_TICKS: usize = 5;

/// Column of tick `i` on a map `display_axial` columns wide.
pub open spec fn tick_column(display_axial: int, i: int) -> int {
    i * (display_axial / AXIAL_TICKS as int)
}

/// Map columns that carry a position tick on a map `display_axial` columns
/// wide: tick `i`, for `i` from 0 to `AXIAL_TICKS`, stands at column
/// `i * (display_axial / AXIAL_TICKS)` and is drawn when that column lies on the map.
pub fn tick_columns(display_axial: usize) -> (cols: Vec<usize>)
    ensures
        cols@.len() <= AXIAL_TICKS + 1,
        forall|i: int|
            0 <= i < cols@.len() ==> #[trigger] cols@[i] == tick_column(display_axial as int, i)
                && cols@[i] < display_axial,
        forall|i: int|
            cols@.len() <= i <= AXIAL_TICKS ==> #[trigger] tick_column(display_axial as int, i)
                >= display_axial,
{
    let step = display_axial / AXIAL_TICKS;
    let mut cols: Vec<usize> = Vec::new();
    let mut i: usize = 0;
    while i <= AXIAL_TICKS
        invariant
            step == display_axial / AXIAL_TICKS,
            i <= AXIAL_TICKS + 1,
            cols@.len() == i,
            forall|j: int| 0 <= j < i ==> #[trigger] cols@[j] == j * step && cols@[j] < display_axial,
        ensures
            cols@.len() <= AXIAL_TICKS + 1,
            forall|j: int| 0 <= j < cols@.len() ==> #[trigger] cols@[j] == j * step && cols@[j] < display_axial,
            cols@.len() <= AXIAL_TICKS ==> cols@.len() * step >= display_axial,
        decreases AXIAL_TICKS + 1 - i,
    {
        proof {
            assert(i * step <= 5 * step) by (nonlinear_arith)
                requires
                    i <= 5,
            ;
        }
        let pos = i * step;
        if pos >= display_axial {
            break;
        }
        cols.push(pos);
        i = i + 1;
    }
    proof {
        assert forall|i: int| cols@.len() <= i <= AXIAL_TICKS implies #[trigger] tick_column(
            display_axial as int,
            i,
        ) >= display_axial by {
            assert(cols@.len() * step <= i * step) by (nonlinear_arith)
                requires
                    cols@.len() <= i,
                    step >= 0,
            ;
        }
    }
    cols
}

/// How the wall map groups sensors into rows. Sensors are grouped in runs of
/// `sensor_step`: one sensor per row when there are fewer than twice
/// `MAX_SENSOR_ROWS`, otherwise the largest run that still leaves at least
/// `MAX_SENSOR_ROWS` rows. Every whole group is drawn, so no run of
/// `sensor_step` sensors is left off the map, and with fewer than
/// `MAX_SENSOR_ROWS` sensors each one has its own row.
pub proof fn lemma_map_sensor_rows(width: int, num_sensors: usize, num_axial: usize)
    requires
        width >= LEGEND_WIDTH + 8,
    ensures
        spec_map_layout(width, num_sensors as int, num_axial as int).sensor_step >= 1,
        num_sensors < 2 * MAX_SENSOR_ROWS ==> spec_map_layout(width, num_sensors as int, num_axial as int).sensor_step == 1,
        num_sensors >= MAX_SENSOR_ROWS ==> spec_map_layout(width, num_sensors as int, num_axial as int).sensor_step
            * MAX_SENSOR_ROWS <= num_sensors < (spec_map_layout(width, num_sensors as int, num_axial as int).sensor_step
            + 1) * MAX_SENSOR_ROWS,
        spec_map_layout(width, num_sensors as int, num_axial as int).display_sensors * spec_map_layout(
            width,
            num_sensors as int,
            num_axial as int,
        ).sensor_step <= num_sensors,
        num_sensors < (spec_map_layout(width, num_sensors as int, num_axial as int).display_sensors + 1)
            * spec_map_layout(width, num_sensors as int, num_axial as int).sensor_step,
        num_sensors >= MAX_SENSOR_ROWS ==> spec_map_layout(width, num_sensors as int, num_axial as int).display_sensors
            >= MAX_SENSOR_ROWS,
        num_sensors < MAX_SENSOR_ROWS ==> spec_map_layout(width, num_sensors as int, num_axial as int).display_sensors
            == num_sensors,
{
    let l = spec_map_layout(width, num_sensors as int, num_axial as int);
    let ns = num_sensors as int;
    let q = ns / 16;
    let st = l.sensor_step as int;
    assert(st == at_least_one(q));
    assert(q * 16 <= ns < (q + 1) * 16);
    assert(l.display_sensors as int == ns / st);
    assert((ns / st) * st <= ns < (ns / st + 1) * st) by (nonlinear_arith)
        requires
            st >= 1,
            ns >= 0,
    ;
    if ns >= 16 {
        assert(st == q && q >= 1);
        assert(ns / st >= 16) by (nonlinear_arith)
            requires
                st * 16 <= ns,
                st >= 1,
        ;
    } else {
        assert(st == 1);
    }
}

/// Axial columns the wall map has room for on a terminal `width` columns wide:
/// what is left beside the legend and frame, at most `MAX_AXIAL_CHARS`, at least one.
pub open spec fn map_room(width: int) -> int {
    let room = width - LEGEND_WIDTH - 8;
    if room < 1 {
        1
    } else if room < MAX_AXIAL_CHARS {
        room
    } else {
        MAX_AXIAL_CHARS as int
    }
}

/// How the wall map samples axial points: every `axial_step`-th point, one per
/// column when the points are fewer than twice the room, otherwise the largest
/// step that still fills the room; every whole step is drawn, and at least one
/// column is.
pub proof fn lemma_map_axial_columns(width: int, num_sensors: usize, num_axial: usize)
    requires
        width >= LEGEND_WIDTH + 8,
    ensures
        spec_map_layout(width, num_sensors as int, num_axial as int).axial_step >= 1,
        num_axial < 2 * map_room(width) ==> spec_map_layout(width, num_sensors as int, num_axial as int).axial_step
            == 1,
        num_axial >= map_room(width) ==> spec_map_layout(width, num_sensors as int, num_axial as int).axial_step
            * map_room(width) <= num_axial < (spec_map_layout(width, num_sensors as int, num_axial as int).axial_step
            + 1) * map_room(width),
        spec_map_layout(width, num_sensors as int, num_axial as int).display_axial >= 1,
        num_axial >= 1 ==> spec_map_layout(width, num_sensors as int, num_axial as int).display_axial
            * spec_map_layout(width, num_sensors as int, num_axial as int).axial_step <= num_axial,
        num_axial >= 1 ==> num_axial < (spec_map_layout(width, num_sensors as int, num_axial as int).display_axial
            + 1) * spec_map_layout(width, num_sensors as int, num_axial as int).axial_step,
        num_axial == 0 ==> spec_map_layout(width, num_sensors as int, num_axial as int).display_axial == 1,
{
    let l = spec_map_layout(width, num_sensors as int, num_axial as int);
    let na = num_axial as int;
    let c = at_least_one(axial_chars(width));
    assert(c == map_room(width));
    let qa = na / c;
    let sa = l.axial_step as int;
    assert(qa * c <= na < (qa + 1) * c) by (nonlinear_arith)
        requires
            c >= 1,
            qa == na / c,
            na >= 0,
    ;
    assert(sa == at_least_one(qa));
    if na < 2 * c {
        assert(qa <= 1) by (nonlinear_arith)
            requires
                qa * c <= na,
                na < 2 * c,
                c >= 1,
        ;
    }
    if na >= c {
        assert(qa >= 1) by (nonlinear_arith)
            requires
                na < (qa + 1) * c,
                na >= c,
                c >= 1,
        ;
    }
    assert((na / sa) * sa <= na < (na / sa + 1) * sa) by (nonlinear_arith)
        requires
            sa >= 1,
            na >= 0,
    ;
    if na >= 1 {
        assert(sa <= na) by (nonlinear_arith)
            requires
                sa == at_least_one(qa),
                qa * c <= na,
                c >= 1,
                na >= 1,
        ;
        assert(na / sa >= 1) by (nonlinear_arith)
            requires
                1 <= sa <= na,
        ;
        assert(l.display_axial as int == na / sa);
    }
}

/// Every point the wall map shows exists: displayed axial positions stay below
/// the number of axial points, and displayed sensor rows below the number of
/// sensors.
pub proof fn lemma_map_points_exist(width: int, num_sensors: usize, num_axial: usize, i: int, r: int)
    requires
        width >= LEGEND_WIDTH + 8,
        num_axial >= 1,
        0 <= i < spec_map_layout(width, num_sensors as int, num_axial as int).display_axial,
        0 <= r < spec_map_layout(width, num_sensors as int, num_axial as int).display_sensors,
    ensures
        i * spec_map_layout(width, num_sensors as int, num_axial as int).axial_step < num_axial,
        r * spec_map_layout(width, num_sensors as int, num_axial as int).sensor_step < num_sensors,
{
    let ac = at_least_one(axial_chars(width));
    let step = at_least_one(num_axial as int / ac);
    let sstep = at_least_one(num_sensors as int / MAX_SENSOR_ROWS as int);
    assert(num_axial as int / ac <= num_axial) by (nonlinear_arith)
        requires
            ac >= 1,
            num_axial >= 0,
    ;
    assert(step <= num_axial);
    assert(num_axial as int / step >= 1) by (nonlinear_arith)
        requires
            1 <= step <= num_axial,
    ;
    assert(i * step < num_axial) by (nonlinear_arith)
        requires
            0 <= i < num_axial as int / step,
            step >= 1,
    ;
    assert(num_sensors as int / MAX_SENSOR_ROWS as int <= num_sensors);
    assert(num_axial as int / step <= num_axial) by (nonlinear_arith)
        requires
            step >= 1,
            num_axial >= 0,
    ;
    assert(r * sstep < num_sensors) by (nonlinear_arith)
        requires
            0 <= r < num_sensors as int / sstep,
            sstep >= 1,
    ;
}

} // verus!
