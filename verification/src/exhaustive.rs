//! The exhaustive search: pick the narrowest lowest plate and try every square that can go on it.
use vstd::prelude::*;
use crate::squares::{
    Config,
    Integer,
    Plate,
    plate,
    fits,
    count_used,
    left_step,
    spec_add_square_quick,
    lemma_count_used_bound,
    lemma_count_used_update,
    lemma_count_used_all_free,
    area_of_squares,
    interior_area,
    skyline_area,
    measure,
    lemma_area_of_squares_all_free,
    lemma_area_of_squares_mark,
    lemma_area_positive_count,
    lemma_mark_then_unmark,
    lemma_add_square_quick_undone,
    lemma_horizontal_extension_undone,
    lemma_vertical_extension_undone,
};
use crate::coordinator::Message;
use crate::skyline::{
    delimited,
    skyline_ok,
    spec_compact,
    spec_uncompact,
    lemma_skyline_bounds,
    lemma_delimited_exists,
    lemma_add_keeps_shape,
    lemma_horizontal_keeps_shape,
    lemma_vertical_keeps_shape,
    lemma_compact_keeps_shape,
    lemma_single_interior,
};
use crate::text::report_text;
use crate::model::{
    Outcome,
    search_of,
    with_skyline,
    added,
    nothing,
    join,
    stop_at,
    chosen_plate,
    next_outcome,
    decompose_outcome,
    vertical_outcome,
    horizontal_outcome,
    corners_outcome,
    place_outcome,
    lemma_added_join,
    lemma_added_one_more,
    lemma_narrowest_unique,
    horizontal_allowed,
    corner_square_allowed,
    corner_min,
    corner_max,
    corner_candidate,
};

verus! {

/// The smaller of two integers.
pub open spec fn min_int(a: int, b: int) -> int {
    if a < b {
        a
    } else {
        b
    }
}

/// The smaller of two `i32` values.
pub fn min_of(a: Integer, b: Integer) -> (m: Integer)
    ensures
        m == min_int(a as int, b as int),
{
    if a < b {
        a
    } else {
        b
    }
}

/// The search's arithmetic on the lookup tables stays within `i32`: a glass depth less a width,
/// and a largest square plus one.
pub open spec fn tables_ok(c: Config) -> bool {
    &&& forall|k: int| 0 <= k < 151 ==> i32::MIN + 256 <= #[trigger] c.max_glass[k]
    &&& forall|k: int| 0 <= k < 151 ==> #[trigger] c.max_square_for_glass[k] < i32::MAX
}

/// No square of side 0 is marked, and while the left wall is one plate wide, the used squares
/// cover exactly the area between the walls.
pub open spec fn tiling_accounted(c: Config) -> bool {
    &&& !c.squares@[0]
    &&& c.plates@[0].width == 1 ==> area_of_squares(c.squares@) == interior_area(c.plates@)
}

/// What the search for squares and rectangles needs of a configuration.
pub open spec fn search_ready(c: Config) -> bool {
    &&& skyline_ok(c.plates@, c.size as int)
    &&& c.size < 151
    &&& tables_ok(c)
    &&& 0 <= c.first_corner <= 255
}

/// `line` reports a `width × height` rectangle and squares of different positive sides whose
/// areas add up to exactly `width × height`, at least one of them when `height` is positive; it is
/// marked `S` exactly when `height == width`.
pub open spec fn accounted_report(line: Seq<char>) -> bool {
    exists|is_square: bool, width: int, height: int, s: Seq<bool>|
        #[trigger] report_text(is_square, width, height, s) == line && s.len() == 256 && 1 <= width
            && !s[0] && area_of_squares(s) == width * height && (is_square <==> height == width) && (
        1 <= height ==> count_used(s) >= 1)
}

/// `after` has the skyline, the used squares and the settings of `before`, its count of placed
/// squares has not gone down, and its reports extend those of `before`.
pub open spec fn restored(after: Config, before: Config) -> bool {
    &&& after.plates@ == before.plates@
    &&& after.net_squares >= before.net_squares
    &&& after.squares@ == before.squares@
    &&& after.size == before.size
    &&& after.max_glass == before.max_glass
    &&& after.max_square_for_glass == before.max_square_for_glass
    &&& after.first_corner == before.first_corner
    &&& after.coordinated == before.coordinated
    &&& after.found@.len() >= before.found@.len()
    &&& forall|i: int| 0 <= i < before.found@.len() ==> after.found@[i] == #[trigger] before.found@[i]
}

/// Every report added since `before` is accounted for.
pub open spec fn accounted_since(after: Config, before: Config) -> bool {
    forall|i: int|
        before.found@.len() <= i < after.found@.len() ==> accounted_report(#[trigger] after.found@[i]@)
}

/// Reports accounted for in two steps are accounted for in one.
pub proof fn lemma_accounted_trans(a: Config, b: Config, c: Config)
    requires
        restored(a, b),
        restored(b, c),
        accounted_since(a, b),
        accounted_since(b, c),
    ensures
        accounted_since(a, c),
{
    assert forall|i: int| c.found@.len() <= i < a.found@.len() implies accounted_report(
        #[trigger] a.found@[i]@,
    ) by {
        if i < b.found@.len() {
            assert(a.found@[i] == b.found@[i]);
        }
    }
}

/// The count of placed squares has gone up since `before`, or stands at its largest value.
pub open spec fn counted(after: Config, before: Config) -> bool {
    after.net_squares > before.net_squares || after.net_squares == u128::MAX
}

/// Restoring is transitive.
pub proof fn lemma_restored_trans(a: Config, b: Config, c: Config)
    requires
        restored(a, b),
        restored(b, c),
    ensures
        restored(a, c),
{
    assert forall|i: int| 0 <= i < c.found@.len() implies a.found@[i] == #[trigger] c.found@[i] by {
        assert(a.found@[i] == b.found@[i]);
    }
}

/// Number of square sizes still free; it bounds the depth of the search.
pub open spec fn free_sizes(c: Config) -> int {
    256 - count_used(c.squares@)
}

/// A glass of width `width` whose walls are `left_wall` and `right_wall` high cannot be filled:
/// it is deeper than the table allows, the width itself not counted when that square is used.
pub open spec fn unfillable(c: Config, left_wall: int, width: int, right_wall: int) -> bool {
    glass_too_deep(c.max_glass, c.squares@, left_wall, width, right_wall)
}

/// The glass test on a glass table and a set of used sizes.
pub open spec fn glass_too_deep(
    max_glass: [i32; 151],
    squares: Seq<bool>,
    left_wall: int,
    width: int,
    right_wall: int,
) -> bool {
    let depth = min_int(left_wall, right_wall);
    depth > 0 && depth > max_glass[width] - (if squares[width] {
        width
    } else {
        0
    })
}

/// Whether the glass of width `width` between walls `left_wall` and `right_wall` high is too deep
/// to be filled.
pub fn is_unfillable_glass(
    config: &Config,
    _plate_id: usize,
    left_wall: Integer,
    width: Integer,
    right_wall: Integer,
) -> (b: bool)
    requires
        0 <= width < 151,
        fits(config.max_glass[width as int] - width),
    ensures
        b == unfillable(*config, left_wall as int, width as int, right_wall as int),
{
    let depth = min_of(left_wall, right_wall);
    let used_width = if config.can_use(width) {
        0
    } else {
        width
    };
    if depth > 0 && depth > config.max_glass[width as usize] - used_width {
        return true;
    }
    false
}

/// Plate `i` is lower than both neighbours and at most `size` wide.
pub open spec fn candidate(p: Seq<Plate>, size: int, i: int) -> bool {
    delimited(p, i) && p[i].width <= size
}

/// Plate `j` is the first candidate of least width.
pub open spec fn narrowest(p: Seq<Plate>, size: int, j: int) -> bool {
    &&& candidate(p, size, j)
    &&& forall|i: int| #[trigger] candidate(p, size, i) ==> p[j].width <= p[i].width
    &&& forall|i: int| 0 <= i < j && #[trigger] candidate(p, size, i) ==> p[j].width < p[i].width
}

/// The index of the narrowest plate lower than both neighbours, or 0 when there is none.
pub fn next_plane_id(config: &Config) -> (id: usize)
    requires
        1 <= config.plates@.len(),
        config.size < i32::MAX,
    ensures
        id == 0 ==> forall|i: int| !#[trigger] candidate(config.plates@, config.size as int, i),
        id != 0 ==> narrowest(config.plates@, config.size as int, id as int),
{
    let ghost p = config.plates@;
    let ghost size = config.size as int;
    let mut l_min: Integer = config.size + 1;
    let mut p_min_i: usize = 0;
    let n = config.num_plates();
    let end = n - 1;
    let mut i: usize = 1;
    while i < end
        invariant
            n == p.len(),
            end == n - 1,
            p == config.plates@,
            size == config.size,
            size < i32::MAX,
            1 <= i <= n,
            p_min_i == 0 ==> l_min == size + 1,
            p_min_i == 0 ==> forall|j: int| 0 <= j < i ==> !#[trigger] candidate(p, size, j),
            p_min_i != 0 ==> 1 <= p_min_i < i && narrowest_below(p, size, p_min_i as int, i as int),
            p_min_i != 0 ==> l_min == p[p_min_i as int].width,
        decreases n - i,
    {
        let plate = config.plates[i];
        let plate_prev = config.plates[i - 1];
        let plate_next = config.plates[i + 1];
        if plate_prev.height > plate.height && plate_next.height > plate.height {
            if plate.width < l_min {
                l_min = plate.width;
                p_min_i = i;
            }
        }
        i += 1;
    }
    proof {
        assert forall|j: int| #[trigger] candidate(p, size, j) implies 0 <= j < i by {}
    }
    p_min_i
}

/// Plate `j` is the first candidate of least width among the plates below `k`.
pub open spec fn narrowest_below(p: Seq<Plate>, size: int, j: int, k: int) -> bool {
    &&& candidate(p, size, j)
    &&& forall|i: int| 0 <= i < k && #[trigger] candidate(p, size, i) ==> p[j].width <= p[i].width
    &&& forall|i: int| 0 <= i < j && #[trigger] candidate(p, size, i) ==> p[j].width < p[i].width
}

/// Some lowest plate above the ground is a glass that cannot be filled.
pub open spec fn glass_stop(c: Config) -> bool {
    exists|i: int| #[trigger] glass_stop_at(c, i)
}

/// Plate `i` is a lowest plate above the ground whose glass cannot be filled.
pub open spec fn glass_stop_at(c: Config, i: int) -> bool {
    stop_at(search_of(c), i)
}

/// The skyline is a single plate as wide as the rectangle at the height of the rectangle's width:
/// the tiling of a square is finished.
pub open spec fn finished_square(c: Config) -> bool {
    &&& c.plates@.len() == 3
    &&& c.plates@[1].width == c.size
    &&& c.plates@[1].height == c.size
}

/// The skyline is empty ground as wide as the rectangle, the square of that side is free, no
/// smaller first corner forbids it, and the glass table lets the glass of that width be filled
/// to the top: the square alone is a tiling.
pub open spec fn lone_square_allowed(c: Config) -> bool {
    &&& c.plates@.len() == 3
    &&& c.plates@[1].height == 0
    &&& c.plates@[1].width == c.size
    &&& !c.squares@[c.size as int]
    &&& c.first_corner <= c.size
    &&& c.max_glass[c.size as int] >= c.size + 1
}

/// The report that `found` holds at position `k`: the single square of side `size` added to `s`.
pub open spec fn reports_lone_square(found: Seq<String>, k: int, size: int, s: Seq<bool>) -> bool {
    k < found.len() && found[k]@ == report_text(true, size, size, s.update(size, true))
}

/// Picks the narrowest lowest plate and searches on from it.  A single plate as wide as the
/// rectangle is a finished tiling: its report is added to `found`; a square one ends the branch,
/// a rectangle is searched on.  The search stops early when a lowest plate above the ground is a
/// glass that cannot be filled.  The reports it adds and the squares it counts are those of
/// `next_outcome`; when the skyline's area is accounted for, every report it adds is too.
pub fn next_plate(config: &mut Config)
    requires
        search_ready(*old(config)),
    ensures
        restored(*final(config), *old(config)),
        tiling_accounted(*old(config)) ==> accounted_since(*final(config), *old(config)),
        added(*final(config), *old(config), next_outcome(search_of(*old(config)))),
        glass_stop(*old(config)) ==> *final(config) == *old(config),
        !glass_stop(*old(config)) && finished_square(*old(config)) ==> {
            &&& final(config).net_squares == old(config).net_squares
            &&& final(config).found@.len() == old(config).found@.len() + 1
            &&& final(config).found@[old(config).found@.len() as int]@ == report_text(
                true,
                old(config).size as int,
                old(config).size as int,
                old(config).squares@,
            )
        },
    decreases free_sizes(*old(config)), 5int,
{
    proof {
        lemma_skyline_bounds(config.plates@, config.size as int);
        lemma_count_used_bound(config.squares@);
    }
    let ghost p = config.plates@;
    let ghost size = config.size as int;
    let mut l_min: Integer = config.size + 1;
    let mut p_min_i: usize = 0;
    let n = config.num_plates();
    let end = n - 1;
    let mut i: usize = 1;
    while i < end
        invariant
            n == p.len(),
            end == n - 1,
            p == config.plates@,
            size == config.size,
            *config == *old(config),
            search_ready(*config),
            forall|j: int| 0 <= j < p.len() ==> #[trigger] p[j].width <= 512,
            forall|j: int| 1 <= j < p.len() - 1 ==> #[trigger] p[j].width <= size,
            1 <= i <= n,
            p_min_i == 0 ==> l_min == size + 1,
            p_min_i == 0 ==> forall|j: int| 0 <= j < i ==> !#[trigger] candidate(p, size, j),
            p_min_i != 0 ==> 1 <= p_min_i < i && narrowest_below(p, size, p_min_i as int, i as int),
            p_min_i != 0 ==> l_min == p[p_min_i as int].width,
            forall|j: int| 0 <= j < i ==> !#[trigger] glass_stop_at(*config, j),
        decreases n - i,
    {
        let plate = config.plates[i];
        let plate_prev = config.plates[i - 1];
        let plate_next = config.plates[i + 1];
        if plate_prev.height > plate.height && plate_next.height > plate.height {
            if plate.height > 0 && is_unfillable_glass(
                config,
                i,
                plate_prev.height - plate.height,
                plate.width,
                plate_next.height - plate.height,
            ) {
                assert(glass_stop_at(*config, i as int));
                assert(stop_at(search_of(*config), i as int));
                return;
            }
            if plate.width < l_min {
                l_min = plate.width;
                p_min_i = i;
            }
        }
        assert(!glass_stop_at(*config, i as int));
        i += 1;
    }
    proof {
        let j = lemma_delimited_exists(p, size);
        assert(candidate(p, size, j));
        assert forall|j: int| !#[trigger] glass_stop_at(*config, j) by {
            if 0 <= j < i {
            }
        }
        assert forall|j: int| !#[trigger] stop_at(search_of(*config), j) by {
            assert(!glass_stop_at(*config, j));
        }
        assert forall|j: int| #[trigger] candidate(p, size, j) implies 0 <= j < i by {}
        assert(narrowest(p, size, p_min_i as int));
        assert(exists|j: int| narrowest(p, size, j));
        lemma_narrowest_unique(p, size, p_min_i as int, chosen_plate(search_of(*config)));
        if finished_square(*config) {
            assert(candidate(p, size, 1));
        }
    }
    if l_min == config.size {
        let height = config.plates[p_min_i].height;
        proof {
            lemma_single_interior(p, size, p_min_i as int);
            if tiling_accounted(*config) && height >= 1 {
                assert(size * height >= 1) by (nonlinear_arith)
                    requires
                        size >= 1,
                        height >= 1,
                ;
                if p[0].width == 1 {
                    lemma_area_positive_count(config.squares@);
                }
            }
        }
        if height == config.size {
            let line = config.report(true, height);
            proof {
                assert(report_text(true, size, height as int, config.squares@) == line@);
            }
            config.found.push(line);
            assert(restored(*config, *old(config)));
            assert(config.found@[old(config).found@.len() as int] == line);
            assert(added(*config, *old(config), next_outcome(search_of(*old(config)))));
        } else {
            let line = config.report(false, height);
            proof {
                assert(report_text(false, size, height as int, config.squares@) == line@);
            }
            config.found.push(line);
            let ghost mid = *config;
            assert(restored(mid, *old(config)));
            let ghost head = Outcome {
                reports: seq![report_text(false, size, height as int, old(config).squares@)],
                placed: 0,
            };
            assert(mid.found@[old(config).found@.len() as int] == line);
            assert(added(mid, *old(config), head));
            assert(search_of(mid) == search_of(*old(config)));
            decompose(config, p_min_i);
            proof {
                lemma_restored_trans(*config, mid, *old(config));
                lemma_added_join(
                    *old(config),
                    mid,
                    *config,
                    head,
                    decompose_outcome(search_of(mid), p_min_i as int),
                );
            }
        }
    } else {
        decompose(config, p_min_i);
    }
}

/// Tries the squares that the pruning rules allow on the lowest plate `plate_id`: a square as wide
/// as the plate, the square that fills the step to the left neighbour, and the squares that fit in
/// the corner; after each it searches on and then takes the square away again.  Nothing is tried
/// on a glass that cannot be filled.  The reports it adds and the squares it counts are those of
/// `decompose_outcome`.
pub fn decompose(config: &mut Config, plate_id: usize)
    requires
        search_ready(*old(config)),
        delimited(old(config).plates@, plate_id as int),
    ensures
        restored(*final(config), *old(config)),
        tiling_accounted(*old(config)) ==> accounted_since(*final(config), *old(config)),
        added(
            *final(config),
            *old(config),
            decompose_outcome(search_of(*old(config)), plate_id as int),
        ),
        unfillable(
            *old(config),
            old(config).plates@[plate_id - 1].height - old(config).plates@[plate_id as int].height,
            old(config).plates@[plate_id as int].width as int,
            old(config).plates@[plate_id + 1].height - old(config).plates@[plate_id as int].height,
        ) ==> *final(config) == *old(config),
        lone_square_allowed(*old(config)) ==> reports_lone_square(
            final(config).found@,
            old(config).found@.len() as int,
            old(config).size as int,
            old(config).squares@,
        ),
    decreases free_sizes(*old(config)), 4int,
{
    proof {
        lemma_skyline_bounds(config.plates@, config.size as int);
    }
    let h = config.plates[plate_id].height;
    let w = config.plates[plate_id].width;
    let lh = config.plates[plate_id - 1].height;
    let rh = config.plates[plate_id + 1].height;
    if is_unfillable_glass(config, plate_id, lh - h, w, rh - h) {
        return;
    }
    let ghost c0 = *config;
    try_vertical(config, plate_id);
    let ghost c1 = *config;
    try_horizontal(config, plate_id);
    let ghost c2 = *config;
    proof {
        lemma_restored_trans(c2, c1, c0);
    }
    try_corner_squares(config, plate_id);
    proof {
        let st = search_of(c0);
        let pid = plate_id as int;
        assert(search_of(c1) == st);
        assert(search_of(c2) == st);
        lemma_restored_trans(*config, c2, c1);
        lemma_added_join(
            c1,
            c2,
            *config,
            horizontal_outcome(st, pid),
            corners_outcome(st, pid, corner_min(st, pid)),
        );
        lemma_added_join(
            c0,
            c1,
            *config,
            vertical_outcome(st, pid),
            join(horizontal_outcome(st, pid), corners_outcome(st, pid, corner_min(st, pid))),
        );
        lemma_restored_trans(*config, c2, c0);
        if tiling_accounted(c0) {
            assert(tiling_accounted(c1));
            assert(tiling_accounted(c2));
            lemma_accounted_trans(c2, c1, c0);
            lemma_accounted_trans(*config, c2, c0);
        }
    }
}

/// Lifts plate `plate_id` by a square as wide as itself, unless the square is used, rises above
/// the rectangle, is a bottom right corner smaller than the first corner, leaves a neighbouring
/// glass that cannot be filled, or is a top left corner smaller than the first corner.
#[verifier::rlimit(60)]
fn try_vertical(config: &mut Config, plate_id: usize)
    requires
        search_ready(*old(config)),
        delimited(old(config).plates@, plate_id as int),
    ensures
        restored(*final(config), *old(config)),
        tiling_accounted(*old(config)) ==> accounted_since(*final(config), *old(config)),
        added(
            *final(config),
            *old(config),
            vertical_outcome(search_of(*old(config)), plate_id as int),
        ),
        lone_square_allowed(*old(config)) ==> reports_lone_square(
            final(config).found@,
            old(config).found@.len() as int,
            old(config).size as int,
            old(config).squares@,
        ),
    decreases free_sizes(*old(config)), 2int,
{
    proof {
        lemma_skyline_bounds(config.plates@, config.size as int);
        lemma_count_used_bound(config.squares@);
    }
    let ghost c0 = *config;
    let ghost p = config.plates@;
    let last_plate_id = config.plates.len() - 2;
    let h = config.plates[plate_id].height;
    let w = config.plates[plate_id].width;
    let lh = config.plates[plate_id - 1].height;
    let lw = config.plates[plate_id - 1].width;
    let rh = config.plates[plate_id + 1].height;
    let rw = config.plates[plate_id + 1].width;
    let square = w;
    if config.can_use(square) && h + square <= config.size {
        if h == 0 && square < config.first_corner && plate_id == last_plate_id {
        } else if plate_id >= 2 && is_unfillable_glass(
            config,
            plate_id,
            config.plates[plate_id - 2].height - lh,
            lw,
            h + square - lh,
        ) {
        } else if plate_id + 1 <= last_plate_id && is_unfillable_glass(
            config,
            plate_id,
            h + square - rh,
            rw,
            config.plates[plate_id + 2].height - rh,
        ) {
        } else if plate_id == 1 && h + square >= config.size - config.first_corner && square
            < config.first_corner {
        } else {
            config.net_squares = config.net_squares.saturating_add(1);
            let orig_left_plate_width = lw;
            proof {
                lemma_vertical_keeps_shape(p, config.size as int, plate_id as int);
                lemma_vertical_extension_undone(p, plate_id as int);
                lemma_area_of_squares_mark(config.squares@, square as int);
                lemma_count_used_update(config.squares@, square as int, true);
                lemma_mark_then_unmark(config.squares@, square as int);
            }
            let new_plate_id = config.vertical_extension(plate_id);
            let ghost c1 = *config;
            proof {
                lemma_skyline_bounds(config.plates@, config.size as int);
                lemma_count_used_bound(config.squares@);
                if lone_square_allowed(c0) {
                    assert(finished_square(*config));
                    assert forall|i: int| !#[trigger] glass_stop_at(*config, i) by {
                        if delimited(config.plates@, i) {
                            assert(i == 1);
                        }
                    }
                }
            }
            next_plate(config);
            if new_plate_id == plate_id {
                config.reverse_vertical_extension(plate_id, square, 0);
            } else {
                config.reverse_vertical_extension(new_plate_id, square, orig_left_plate_width);
            }
        }
    }
}

/// Widens the left neighbour of plate `plate_id` by the square that fills the step between them,
/// unless that square is used, is as wide as the plate, or leaves a glass on the right that
/// cannot be filled.
fn try_horizontal(config: &mut Config, plate_id: usize)
    requires
        search_ready(*old(config)),
        delimited(old(config).plates@, plate_id as int),
    ensures
        restored(*final(config), *old(config)),
        tiling_accounted(*old(config)) ==> accounted_since(*final(config), *old(config)),
        added(
            *final(config),
            *old(config),
            horizontal_outcome(search_of(*old(config)), plate_id as int),
        ),
        horizontal_allowed(search_of(*old(config)), plate_id as int) ==> counted(*final(config), *old(config)),
        !horizontal_allowed(search_of(*old(config)), plate_id as int) ==> *final(config) == *old(config),
    decreases free_sizes(*old(config)), 2int,
{
    proof {
        lemma_skyline_bounds(config.plates@, config.size as int);
        lemma_count_used_bound(config.squares@);
    }
    let ghost p = config.plates@;
    let last_plate_id = config.plates.len() - 2;
    let h = config.plates[plate_id].height;
    let w = config.plates[plate_id].width;
    let lh = config.plates[plate_id - 1].height;
    let rh = config.plates[plate_id + 1].height;
    let rw = config.plates[plate_id + 1].width;
    let square = lh - h;
    if square < w && config.can_use(square) {
        if plate_id + 1 <= last_plate_id && is_unfillable_glass(
            config,
            plate_id,
            h + square - rh,
            rw,
            config.plates[plate_id + 2].height - rh,
        ) {
        } else {
            config.net_squares = config.net_squares.saturating_add(1);
            proof {
                lemma_horizontal_keeps_shape(p, config.size as int, plate_id as int);
                lemma_horizontal_extension_undone(p, plate_id as int);
                lemma_area_of_squares_mark(config.squares@, square as int);
                lemma_count_used_update(config.squares@, square as int, true);
                lemma_mark_then_unmark(config.squares@, square as int);
            }
            config.horizontal_extension(plate_id);
            proof {
                lemma_skyline_bounds(config.plates@, config.size as int);
                lemma_count_used_bound(config.squares@);
            }
            decompose(config, plate_id);
            config.reverse_horizontal_extension(plate_id);
        }
    }
}

/// Tries, in increasing order, each free square that fits in the bottom left corner of plate
/// `plate_id`, is narrower than the plate, does not end level with the left neighbour, and is at
/// least as large as the corner allows; above the ground and next to a deep glass on the right,
/// it is at most the largest square that fits such a glass.
fn try_corner_squares(config: &mut Config, plate_id: usize)
    requires
        search_ready(*old(config)),
        delimited(old(config).plates@, plate_id as int),
    ensures
        restored(*final(config), *old(config)),
        tiling_accounted(*old(config)) ==> accounted_since(*final(config), *old(config)),
        added(
            *final(config),
            *old(config),
            corners_outcome(
                search_of(*old(config)),
                plate_id as int,
                corner_min(search_of(*old(config)), plate_id as int),
            ),
        ),
        (exists|s: int| corner_candidate(search_of(*old(config)), plate_id as int, s)) ==> counted(
            *final(config),
            *old(config),
        ),
        !(exists|s: int| corner_candidate(search_of(*old(config)), plate_id as int, s)) ==> *final(config)
            == *old(config),
    decreases free_sizes(*old(config)), 3int,
{
    proof {
        lemma_skyline_bounds(config.plates@, config.size as int);
    }
    let ghost c0 = *config;
    let h = config.plates[plate_id].height;
    let w = config.plates[plate_id].width;
    let lh = config.plates[plate_id - 1].height;
    let rh = config.plates[plate_id + 1].height;
    let corner_to_box: [i32; 21] = [0, 1, 2, 3, 3, 3, 4, 4, 5, 5, 5, 5, 5, 6, 7, 7, 7, 7, 7, 7, 8];
    let corner_size = min_of(lh - h, w);
    let min = if corner_size < 21 {
        corner_to_box[corner_size as usize]
    } else {
        8
    };
    let mut max = min_of(w - 1, config.size - h) + 1;
    let right_height = rh - h;
    if h > 0 && right_height >= w {
        max = min_of(max, config.max_square_for_glass[w as usize] + 1);
    }
    assert(min == corner_min(search_of(c0), plate_id as int));
    assert(max == corner_max(search_of(c0), plate_id as int));
    let mut s = min;
    let ghost mut acc = nothing();
    while s < max
        invariant
            restored(*config, c0),
            tiling_accounted(c0) ==> accounted_since(*config, c0),
            added(*config, c0, acc),
            corners_outcome(search_of(c0), plate_id as int, min as int) == join(
                acc,
                corners_outcome(search_of(c0), plate_id as int, s as int),
            ),
            min == corner_min(search_of(c0), plate_id as int),
            max == corner_max(search_of(c0), plate_id as int),
            (exists|t: int| min <= t < s && corner_candidate(search_of(c0), plate_id as int, t)) ==> counted(
                *config,
                c0,
            ),
            !(exists|t: int| min <= t < s && corner_candidate(search_of(c0), plate_id as int, t)) ==> *config
                == c0,
            c0 == *old(config),
            search_ready(c0),
            delimited(c0.plates@, plate_id as int),
            h == c0.plates@[plate_id as int].height,
            w == c0.plates@[plate_id as int].width,
            lh == c0.plates@[plate_id - 1].height,
            1 <= min,
            max <= w,
            max <= c0.size - h + 1,
            min <= s,
        decreases max - s,
    {
        proof {
            lemma_count_used_bound(config.squares@);
        }
        let ghost before = *config;
        let ghost sp = s as int;
        let ghost pid = plate_id as int;
        proof {
            assert(before.plates@ == c0.plates@);
            assert(before.squares@ == c0.squares@);
            assert(corner_square_allowed(search_of(before), pid, sp) == corner_square_allowed(search_of(c0), pid, sp));
        }
        let ghost st = search_of(c0);
        let ghost here = if 0 <= sp < 256 && !st.squares[sp] && sp != left_step(st.plates, pid) {
            place_outcome(st, pid, sp)
        } else {
            nothing()
        };
        if config.can_use(s) && s != lh - h {
            place_corner_square(config, plate_id, s);
            proof {
                if tiling_accounted(c0) {
                    assert(tiling_accounted(before));
                    lemma_accounted_trans(*config, before, c0);
                }
                lemma_restored_trans(*config, before, c0);
                assert(search_of(before) == st);
            }
        }
        proof {
            lemma_added_join(c0, before, *config, acc, here);
            let rest = corners_outcome(st, pid, sp + 1);
            assert(corners_outcome(st, pid, sp) == join(here, rest));
            assert(join(acc, join(here, rest)).reports =~= join(join(acc, here), rest).reports);
            assert(join(acc, join(here, rest)) == join(join(acc, here), rest));
            acc = join(acc, here);
        }
        proof {
            let earlier = exists|t: int| min <= t < sp && corner_candidate(search_of(c0), pid, t);
            if earlier {
                assert(counted(*config, c0));
            } else if corner_candidate(search_of(c0), pid, sp) {
                assert(counted(*config, c0));
            } else {
                assert(*config == c0);
            }
            if exists|t: int| min <= t < sp + 1 && corner_candidate(search_of(c0), pid, t) {
                let t = choose|t: int| min <= t < sp + 1 && corner_candidate(search_of(c0), pid, t);
                if t < sp {
                    assert(earlier);
                }
                assert(counted(*config, c0));
            }
            if corner_candidate(search_of(c0), pid, sp) {
                assert(exists|t: int| min <= t < sp + 1 && corner_candidate(search_of(c0), pid, t));
            }
        }
        s += 1;
    }
    proof {
        assert(corners_outcome(search_of(c0), plate_id as int, s as int) == nothing());
        assert(join(acc, nothing()).reports =~= acc.reports);
        assert(join(acc, nothing()) == acc);
        if exists|t: int| corner_candidate(search_of(c0), plate_id as int, t) {
            let t = choose|t: int| corner_candidate(search_of(c0), plate_id as int, t);
            assert(min <= t < s);
        }
    }
}

/// Puts the square of side `s` in the bottom left corner of plate `plate_id` and searches on,
/// unless it leaves a glass that cannot be filled or is a corner smaller than the first corner;
/// then takes it away again.  A square on the ground of a coordinated search that is larger than
/// the first corner also starts a search of the narrower rectangle that ends at its right side.
#[verifier::rlimit(100)]
fn place_corner_square(config: &mut Config, plate_id: usize, s: Integer)
    requires
        search_ready(*old(config)),
        delimited(old(config).plates@, plate_id as int),
        1 <= s < old(config).plates@[plate_id as int].width,
        old(config).plates@[plate_id as int].height + s <= old(config).size,
        s != left_step(old(config).plates@, plate_id as int),
        !old(config).squares@[s as int],
    ensures
        restored(*final(config), *old(config)),
        tiling_accounted(*old(config)) ==> accounted_since(*final(config), *old(config)),
        added(
            *final(config),
            *old(config),
            place_outcome(search_of(*old(config)), plate_id as int, s as int),
        ),
        corner_square_allowed(search_of(*old(config)), plate_id as int, s as int) ==> counted(
            *final(config),
            *old(config),
        ),
        !corner_square_allowed(search_of(*old(config)), plate_id as int, s as int) ==> *final(config)
            == *old(config),
    decreases free_sizes(*old(config)), 1int,
{
    proof {
        lemma_skyline_bounds(config.plates@, config.size as int);
        lemma_count_used_bound(config.squares@);
    }
    let ghost c0 = *config;
    let ghost p = config.plates@;
    let last_plate_id = config.plates.len() - 2;
    let h = config.plates[plate_id].height;
    let w = config.plates[plate_id].width;
    let lh = config.plates[plate_id - 1].height;
    let lw = config.plates[plate_id - 1].width;
    let rh = config.plates[plate_id + 1].height;
    if plate_id > 1 && is_unfillable_glass(
        config,
        plate_id,
        config.plates[plate_id - 2].height - lh,
        lw,
        h + s - lh,
    ) {
    } else if h > 0 && is_unfillable_glass(config, plate_id, s, w - s, rh - h) {
    } else if h == 0 && plate_id == last_plate_id && s < config.first_corner && w - s
        <= config.first_corner {
    } else if plate_id == 1 && h + s >= config.size - config.first_corner && s < config.first_corner {
    } else {
        config.net_squares = config.net_squares.saturating_add(1);
        proof {
            lemma_add_keeps_shape(p, config.size as int, s as int, plate_id as int);
            lemma_add_square_quick_undone(p, s as int, plate_id as int);
            lemma_area_of_squares_mark(config.squares@, s as int);
            lemma_count_used_update(config.squares@, s as int, true);
            lemma_mark_then_unmark(config.squares@, s as int);
        }
        config.add_square_quick(s, plate_id);
        let ghost c1 = *config;
        let ghost q = config.plates@;
        proof {
            lemma_skyline_bounds(q, config.size as int);
            lemma_count_used_bound(config.squares@);
        }
        let ghost mut narrowed = nothing();
        if h == 0 && s > config.first_corner && config.coordinated {
            let removed_w = w - s;
            let k = last_plate_id + 1;
            proof {
                lemma_compact_keeps_shape(q, config.size as int, k as int);
            }
            config.size = config.size - removed_w;
            config.plates.remove(k);
            let left_wall = config.plates[0];
            config.plates[0] = Plate { height: config.size + 1, width: left_wall.width };
            let right_wall = config.plates[k];
            config.plates[k] = Plate { height: config.size + 1, width: right_wall.width };
            assert(config.plates@ =~= spec_compact(q, k as int, config.size as int));
            let ghost before_rect = *config;
            next_plate(config);
            let ghost after_rect = *config;
            config.size = config.size + removed_w;
            let left_wall = config.plates[0];
            config.plates[0] = Plate { height: config.size + 1, width: left_wall.width };
            let right_wall = config.plates[k];
            config.plates[k] = Plate { height: config.size + 1, width: right_wall.width };
            config.plates.insert(k, Plate { height: 0, width: removed_w });
            assert(config.plates@ =~= spec_uncompact(
                spec_compact(q, k as int, (c1.size - removed_w) as int),
                k as int,
                c1.size as int,
                removed_w as int,
            ));
            assert(restored(*config, c1));
            assert(tiling_accounted(c1) ==> accounted_since(*config, c1)) by {
                if tiling_accounted(c1) {
                    assert(tiling_accounted(before_rect));
                    assert(accounted_since(after_rect, before_rect));
                }
            }
            proof {
                narrowed = next_outcome(search_of(before_rect));
            }
            assert(added(*config, c1, narrowed));
        }
        let ghost c2 = *config;
        let ghost st1 = with_skyline(search_of(c0), q, c1.squares@);
        assert(search_of(c2) == st1);
        assert(plate_id > 1 ==> q[plate_id - 2] == p[plate_id - 2]);
        let _next_plate_to_go = next_plane_id(config);
        if plate_id > 1 && s > lh - h && lw < w - s && config.plates[plate_id - 2].height > lh {
            decompose(config, plate_id - 1);
        } else {
            decompose(config, plate_id + 1);
        }
        let ghost c3 = *config;
        let ghost rest = if plate_id > 1 && s > lh - h && lw < w - s && p[plate_id - 2].height > lh {
            decompose_outcome(st1, plate_id - 1)
        } else {
            decompose_outcome(st1, plate_id + 1)
        };
        proof {
            lemma_restored_trans(*config, c2, c1);
            lemma_added_join(c1, c2, c3, narrowed, rest);
            if tiling_accounted(c1) {
                assert(tiling_accounted(c2));
                lemma_accounted_trans(c3, c2, c1);
            }
        }
        config.remove_square(plate_id);
        proof {
            lemma_added_one_more(c0, c1, c3, *config, join(narrowed, rest));
        }
    }
}

/// The empty skyline of width `size` between walls one plate wide and `size + 1` high.
pub open spec fn empty_skyline(size: int) -> Seq<Plate> {
    seq![plate(size + 1, 1), plate(0, size), plate(size + 1, 1)]
}

/// The skyline of width `size` with the first corner `s1` and the second square `s2` beside it on
/// the ground.
pub open spec fn two_squares(size: int, s1: int, s2: int) -> Seq<Plate> {
    spec_add_square_quick(spec_add_square_quick(empty_skyline(size), s1, 1), s2, 2)
}

/// The skyline of a work unit of width `width` handed out for a rectangle of width `size`: the
/// two squares on the ground, cut down to the narrower rectangle when `width` is less than `size`.
pub open spec fn unit_skyline(size: int, width: int, s1: int, s2: int) -> Seq<Plate> {
    if width == size {
        two_squares(size, s1, s2)
    } else {
        spec_compact(two_squares(size, s1, s2), 3, width)
    }
}

/// A work unit from which the search can go on, handed out for a rectangle of width `size` whose
/// used sizes were `used` before the first corner: a configuration of the search shape with the
/// first corner `first` and a second square beside it, both marked as used; its skyline is that
/// of the two squares, cut down when the unit is narrower; a lowest plate; two squares counted;
/// the lookup tables `mg` and `msg`; the reports of `found`.
pub open spec fn valid_unit(
    m: Message,
    first: int,
    coordinated: bool,
    size: int,
    used: Seq<bool>,
    mg: [i32; 151],
    msg: [i32; 151],
    found: Seq<String>,
) -> bool {
    match m {
        Message::WorkUnit((c, pid)) => {
            let s2 = c.plates@[2].width as int;
            &&& search_ready(c)
            &&& delimited(c.plates@, pid as int)
            &&& c.first_corner == first
            &&& c.coordinated == coordinated
            &&& c.net_squares == 2
            &&& c.plates@[1] == plate(first, first)
            &&& c.plates@ == unit_skyline(size, c.size as int, first, s2)
            &&& c.squares@ == used.update(first, true).update(s2, true)
            &&& count_used(c.squares@) == 2
            &&& c.max_glass == mg
            &&& c.max_square_for_glass == msg
            &&& c.found@.len() == found.len()
            &&& forall|i: int| 0 <= i < found.len() ==> (#[trigger] c.found@[i])@ == found[i]@
        },
        Message::ThreadDeath(..) => false,
    }
}

/// The plate, the width and the second square of a work unit.
pub open spec fn unit_summary(m: Message) -> (int, int, int) {
    match m {
        Message::WorkUnit((c, pid)) => (pid as int, c.size as int, c.plates@[2].width as int),
        Message::ThreadDeath(..) => (-1, -1, -1),
    }
}

/// The plate, the width and the second square of each work unit.
pub open spec fn summaries(units: Seq<Message>) -> Seq<(int, int, int)> {
    Seq::new(units.len(), |i: int| unit_summary(units[i]))
}

/// The units (plate, width, second square) handed out for the second square `s2` next to the
/// first corner `s1` in a rectangle of width `size`, with the glass table `mg` and the used sizes
/// `used` (before either square is placed).
pub open spec fn units_for(
    size: int,
    s1: int,
    s2: int,
    mg: [i32; 151],
    used: Seq<bool>,
) -> Seq<(int, int, int)> {
    let sq = used.update(s1, true).update(s2, true);
    if s2 == s1 {
        Seq::empty()
    } else if s2 > s1 {
        if s2 - s1 > mg[s1] {
            Seq::empty()
        } else {
            (if s1 < size - s1 - s2 && !glass_too_deep(mg, sq, size - s1, s1, s2 - s1) {
                seq![(1int, size, s2)]
            } else {
                Seq::empty()
            }) + seq![(1int, s1 + s2, s2)]
        }
    } else {
        if s2 > mg[size - s1 - s2] {
            Seq::empty()
        } else if !glass_too_deep(mg, sq, s2, size - s1 - s2, size) {
            seq![(3int, size, s2)]
        } else {
            Seq::empty()
        }
    }
}

/// The units handed out for the second squares from 5 up to below `k`.
pub open spec fn units_below(
    size: int,
    s1: int,
    k: int,
    mg: [i32; 151],
    used: Seq<bool>,
) -> Seq<(int, int, int)>
    decreases k,
{
    if k <= 5 {
        Seq::empty()
    } else {
        units_below(size, s1, k - 1, mg, used) + units_for(size, s1, k - 1, mg, used)
    }
}

/// The skyline of width `size` holds enough empty room and its shape is that of the search.
proof fn lemma_empty_skyline_ok(size: int)
    requires
        1 <= size <= 150,
    ensures
        skyline_ok(empty_skyline(size), size),
        delimited(empty_skyline(size), 1),
        interior_area(empty_skyline(size)) == 0,
{
    let p = empty_skyline(size);
    let p2 = p.drop_last();
    let p1 = p2.drop_last();
    let p0 = p1.drop_last();
    assert(p0 =~= Seq::<Plate>::empty());
    assert(crate::squares::total_width(p0) == 0);
    assert(crate::squares::total_width(p1) == 1);
    assert(crate::squares::total_width(p2) == 1 + size);
    assert(p[1].height <= size);
    assert(skyline_area(p0) == 0);
    assert(skyline_area(p1) == measure(p[0], true));
    assert(skyline_area(p2) == measure(p[0], true) + measure(p[1], true));
}

/// Puts the first corner `first` in the bottom left corner of the empty skyline and, for each
/// second square `s2` from 5 up to nine less than the room left, puts `s2` next to it and hands out
/// the work units that the search goes on from: with `s2 > first`, when the glass over the first
/// corner can be filled, the unit at the first corner (unless that glass cannot be filled), and
/// the unit of the narrower rectangle that ends at the right side of `s2`; with `s2 < first`, when
/// the glass right of `s2` can be filled, the unit at the ground plate.  The skyline and the used
/// squares are left as they were; the first corner becomes `first` and the count of squares 2.
pub fn double_nest_init(first: Integer, config: &mut Config) -> (units: Vec<Message>)
    requires
        1 <= first < 256,
        1 <= old(config).size <= 150,
        old(config).plates@ == empty_skyline(old(config).size as int),
        forall|i: int| 0 <= i < 256 ==> !#[trigger] old(config).squares@[i],
        tables_ok(*old(config)),
    ensures
        final(config).plates@ == old(config).plates@,
        final(config).squares@ == old(config).squares@,
        final(config).size == old(config).size,
        final(config).first_corner == first,
        final(config).net_squares == 2,
        final(config).max_glass == old(config).max_glass,
        final(config).max_square_for_glass == old(config).max_square_for_glass,
        final(config).coordinated == old(config).coordinated,
        final(config).found == old(config).found,
        forall|i: int| 0 <= i < units@.len() ==> valid_unit(
            #[trigger] units@[i],
            first as int,
            old(config).coordinated,
            old(config).size as int,
            old(config).squares@,
            old(config).max_glass,
            old(config).max_square_for_glass,
            old(config).found@,
        ),
        summaries(units@) == units_below(
            old(config).size as int,
            first as int,
            old(config).size - first - 8,
            old(config).max_glass,
            old(config).squares@,
        ),
{
    let ghost c0 = *config;
    let ghost size = config.size as int;
    let ghost p0 = config.plates@;
    let mut units: Vec<Message> = Vec::new();
    config.net_squares = 2;
    let s1 = first;
    config.first_corner = s1;
    proof {
        lemma_empty_skyline_ok(size);
        lemma_count_used_all_free(config.squares@);
        lemma_area_of_squares_all_free(config.squares@);
        lemma_area_of_squares_mark(config.squares@, s1 as int);
        lemma_add_square_quick_undone(p0, s1 as int, 1);
        lemma_count_used_update(config.squares@, s1 as int, true);
        lemma_mark_then_unmark(config.squares@, s1 as int);
    }
    config.add_square_quick(s1, 1);
    let ghost c1 = *config;
    let ghost p1 = config.plates@;
    let end = config.plates[2].width - 9 + 1;
    let mut s2: Integer = 5;
    while s2 < end
        invariant
            config.plates@ == p1,
            config.squares@ == c1.squares@,
            config.size == size,
            config.first_corner == s1,
            config.net_squares == 2,
            config.max_glass == c0.max_glass,
            config.max_square_for_glass == c0.max_square_for_glass,
            config.coordinated == c0.coordinated,
            config.found == c0.found,
            tables_ok(*config),
            p1 == spec_add_square_quick(p0, s1 as int, 1),
            p0 == empty_skyline(size),
            c1.squares@ == c0.squares@.update(s1 as int, true),
            count_used(c1.squares@) == 1,
            area_of_squares(c1.squares@) == s1 * s1,
            forall|k: int| 0 <= k < 256 ==> !#[trigger] c0.squares@[k],
            size == c0.size,
            1 <= size <= 150,
            1 <= s1 < 256,
            end == size - s1 - 8,
            5 <= s2,
            forall|k: int| 0 <= k < units@.len() ==> valid_unit(
                #[trigger] units@[k],
                s1 as int,
                c0.coordinated,
                size,
                c0.squares@,
                c0.max_glass,
                c0.max_square_for_glass,
                c0.found@,
            ),
            summaries(units@) == units_below(
                size,
                s1 as int,
                if s2 < end { s2 as int } else { end as int },
                c0.max_glass,
                c0.squares@,
            ),
        decreases end - s2,
    {
        let ghost units0 = units@;
        if s2 != s1 {
            proof {
                lemma_empty_skyline_ok(size);
                lemma_add_keeps_shape(p0, size, s1 as int, 1);
                lemma_skyline_bounds(p1, size);
                lemma_add_keeps_shape(p1, size, s2 as int, 2);
                lemma_add_square_quick_undone(p1, s2 as int, 2);
                lemma_area_of_squares_mark(config.squares@, s2 as int);
                lemma_count_used_update(config.squares@, s2 as int, true);
                lemma_mark_then_unmark(config.squares@, s2 as int);
            }
            config.add_square_quick(s2, 2);
            let ghost p2 = config.plates@;
            proof {
                lemma_skyline_bounds(p2, size);
            }
            if s2 > s1 {
                if s2 - s1 > config.max_glass[s1 as usize] {
                } else {
                    if s1 < config.plates[3].width {
                        if !is_unfillable_glass(config, 1, config.size - s1, s1, s2 - s1) {
                            let unit = config.snapshot();
                            units.push(Message::WorkUnit((unit, 1)));
                        }
                    }
                    let removed_w = config.size - s1 - s2;
                    let last_plate_id: usize = 2;
                    let k = last_plate_id + 1;
                    proof {
                        lemma_compact_keeps_shape(p2, size, k as int);
                    }
                    config.size = config.size - removed_w;
                    config.plates.remove(k);
                    let left_wall = config.plates[0];
                    config.plates[0] = Plate { height: config.size + 1, width: left_wall.width };
                    let right_wall = config.plates[k];
                    config.plates[k] = Plate { height: config.size + 1, width: right_wall.width };
                    assert(config.plates@ =~= spec_compact(p2, k as int, config.size as int));
                    let unit = config.snapshot();
                    units.push(Message::WorkUnit((unit, 1)));
                    config.size = config.size + removed_w;
                    let left_wall = config.plates[0];
                    config.plates[0] = Plate { height: config.size + 1, width: left_wall.width };
                    let right_wall = config.plates[k];
                    config.plates[k] = Plate { height: config.size + 1, width: right_wall.width };
                    config.plates.insert(k, Plate { height: 0, width: removed_w });
                    assert(config.plates@ =~= spec_uncompact(
                        spec_compact(p2, k as int, size - removed_w),
                        k as int,
                        size,
                        removed_w as int,
                    ));
                }
            } else {
                if s2 > config.max_glass[(config.size - s1 - s2) as usize] {
                } else {
                    if !is_unfillable_glass(config, 3, s2, config.size - s1 - s2, config.size) {
                        let unit = config.snapshot();
                        units.push(Message::WorkUnit((unit, 3)));
                    }
                }
            }
            config.remove_square(2);
        }
        proof {
            assert(summaries(units@) =~= summaries(units0) + units_for(
                size,
                s1 as int,
                s2 as int,
                c0.max_glass,
                c0.squares@,
            ));
        }
        s2 += 1;
    }
    config.remove_square(1);
    units
}

/// The work units of the squares of side `size` whose bottom left corner is `first`.
pub fn solve_cc(
    first: Integer,
    size: Integer,
    max_glass: [i32; 151],
    max_square_for_glass: [i32; 151],
) -> (units: Vec<Message>)
    requires
        1 <= first < 256,
        1 <= size <= 150,
        forall|k: int| 0 <= k < 151 ==> i32::MIN + 256 <= #[trigger] max_glass[k],
        forall|k: int| 0 <= k < 151 ==> #[trigger] max_square_for_glass[k] < i32::MAX,
    ensures
        forall|i: int| 0 <= i < units@.len() ==> valid_unit(
            #[trigger] units@[i],
            first as int,
            true,
            size as int,
            Seq::new(256, |i: int| false),
            max_glass,
            max_square_for_glass,
            Seq::empty(),
        ),
        summaries(units@) == units_below(
            size as int,
            first as int,
            size - first - 8,
            max_glass,
            Seq::new(256, |i: int| false),
        ),
{
    let mut config = Config::new(true, size, max_glass, max_square_for_glass);
    assert(config.squares@ =~= Seq::new(256, |i: int| false));
    double_nest_init(first, &mut config)
}

} // verus!
