//! How deep a glass of each width can be filled: a search inside a narrow well.
use vstd::prelude::*;
use crate::CONFIG_SIZE;
use crate::squares::{
    Config,
    Integer,
    Plate,
    plate,
    left_step,
    count_used,
    spec_add_square_quick,
    spec_horizontal_extension,
    spec_vertical_extension,
    lemma_count_used_bound,
    lemma_count_used_update,
    lemma_mark_then_unmark,
    lemma_add_square_quick_undone,
    lemma_horizontal_extension_undone,
    lemma_vertical_extension_undone,
};
use crate::skyline::{
    delimited,
    skyline_ok,
    interior_width,
    lemma_skyline_bounds,
    lemma_delimited_exists,
    lemma_add_keeps_shape,
    lemma_horizontal_keeps_shape,
    lemma_vertical_keeps_shape,
};
use crate::exhaustive::{
    restored,
    counted,
    lemma_restored_trans,
    free_sizes,
    min_int,
    min_of,
    candidate,
    narrowest,
    next_plane_id,
};
use crate::model::{
    lemma_added_one_more,
    Search,
    Outcome,
    search_of,
    with_skyline,
    free_of,
    chosen_plate,
    added,
    lemma_narrowest_unique,
    lemma_count_after_twice,
};

verus! {

/// The level reached by plate `pid` and by the innermost plates next to both walls: the lowest
/// of the three heights.
pub open spec fn glass_level(p: Seq<Plate>, pid: int) -> int {
    min_int(p[pid].height as int, min_int(p[1].height as int, p[p.len() - 2].height as int))
}

/// `after` differs from `before` at most at entry `k`, which has not decreased and is either
/// unchanged or between 0 and 255.
pub open spec fn raised_at(after: [i32; 151], before: [i32; 151], k: int) -> bool {
    &&& forall|j: int| 0 <= j < 151 && j != k ==> after[j] == #[trigger] before[j]
    &&& after[k] >= before[k]
    &&& after[k] == before[k] || 0 <= after[k] <= 255
}

/// What a part of the glass search reaches: the highest level recorded (`no_level()` when it
/// records nothing) and the number of squares it places.
pub struct GlassOutcome {
    pub level: int,
    pub placed: nat,
}

/// A level below every `i32`, so that raising a table entry to it changes nothing.
pub open spec fn no_level() -> int {
    -0x8000_0000
}

/// Nothing recorded and nothing placed.
pub open spec fn glass_nothing() -> GlassOutcome {
    GlassOutcome { level: no_level(), placed: 0 }
}

/// `a`, then `b`: the higher level and all the squares.
pub open spec fn glass_join(a: GlassOutcome, b: GlassOutcome) -> GlassOutcome {
    GlassOutcome { level: if a.level < b.level { b.level } else { a.level }, placed: a.placed + b.placed }
}

/// One square placed, then `a`.
pub open spec fn glass_one_more(a: GlassOutcome) -> GlassOutcome {
    GlassOutcome { level: a.level, placed: a.placed + 1 }
}

/// A table entry `t` raised to the level `l` when `l` is higher.
pub open spec fn raise(t: int, l: int) -> int {
    if l > t {
        l
    } else {
        t
    }
}

/// The glass search from the narrowest lowest plate.
pub open spec fn glass_next_outcome(st: Search) -> GlassOutcome
    decreases free_of(st), 2int, 0int,
{
    if st.squares.len() != 256 {
        glass_nothing()
    } else {
        glass_decompose_outcome(st, chosen_plate(st))
    }
}

/// The glass search on the lowest plate `pid`: the level at `pid` is recorded, then the square as
/// wide as the plate, the square that fills the left step, and the corner squares are tried.
pub open spec fn glass_decompose_outcome(st: Search, pid: int) -> GlassOutcome
    decreases free_of(st), 1int, 0int,
{
    if st.squares.len() != 256 || !delimited(st.plates, pid) {
        glass_nothing()
    } else {
        glass_join(
            GlassOutcome { level: glass_level(st.plates, pid), placed: 0 },
            glass_join(
                glass_vertical_outcome(st, pid),
                glass_join(glass_horizontal_outcome(st, pid), glass_corners_outcome(st, pid, 1)),
            ),
        )
    }
}

/// The try of the square as wide as plate `pid` when it is free and stays inside the well.
pub open spec fn glass_vertical_outcome(st: Search, pid: int) -> GlassOutcome
    decreases free_of(st), 0int, 0int,
{
    let p = st.plates;
    let w = p[pid].width as int;
    if st.squares.len() == 256 && 0 <= w < 256 && !st.squares[w] && p[pid].height + w <= st.size {
        proof {
            lemma_count_used_update(st.squares, w, true);
            lemma_count_used_bound(st.squares.update(w, true));
        }
        glass_one_more(
            glass_next_outcome(
                with_skyline(st, spec_vertical_extension(p, pid), st.squares.update(w, true)),
            ),
        )
    } else {
        glass_nothing()
    }
}

/// The try of the square that fills the step left of plate `pid`, when it is free and narrower
/// than the plate.
pub open spec fn glass_horizontal_outcome(st: Search, pid: int) -> GlassOutcome
    decreases free_of(st), 0int, 0int,
{
    let p = st.plates;
    let step = left_step(p, pid);
    if st.squares.len() == 256 && 0 <= step < 256 && step < p[pid].width && !st.squares[step] {
        proof {
            lemma_count_used_update(st.squares, step, true);
            lemma_count_used_bound(st.squares.update(step, true));
        }
        glass_one_more(
            glass_decompose_outcome(
                with_skyline(st, spec_horizontal_extension(p, pid), st.squares.update(step, true)),
                pid,
            ),
        )
    } else {
        glass_nothing()
    }
}

/// One more than the largest corner square of plate `pid` in the well.
pub open spec fn glass_corner_end(st: Search, pid: int) -> int {
    min_int(st.plates[pid].width - 1, st.size - st.plates[pid].height) + 1
}

/// The tries of the corner squares of plate `pid` from side `s` up.
pub open spec fn glass_corners_outcome(st: Search, pid: int, s: int) -> GlassOutcome
    decreases free_of(st), 0int, glass_corner_end(st, pid) - s,
{
    if st.squares.len() != 256 || s >= glass_corner_end(st, pid) {
        glass_nothing()
    } else {
        let here = if 0 <= s < 256 && !st.squares[s] && s != left_step(st.plates, pid) {
            proof {
                lemma_count_used_update(st.squares, s, true);
                lemma_count_used_bound(st.squares.update(s, true));
            }
            glass_one_more(
                glass_next_outcome(
                    with_skyline(
                        st,
                        spec_add_square_quick(st.plates, s, pid),
                        st.squares.update(s, true),
                    ),
                ),
            )
        } else {
            glass_nothing()
        };
        glass_join(here, glass_corners_outcome(st, pid, s + 1))
    }
}

/// From `before` to `after` the glass search placed the squares of `out` and recorded nothing
/// else in the configuration; the table entry `k` went from `t0` to `t1` by the level of `out`,
/// and no other entry changed.
pub open spec fn glass_added(
    after: Config,
    before: Config,
    t1: [i32; 151],
    t0: [i32; 151],
    k: int,
    out: GlassOutcome,
) -> bool {
    &&& added(after, before, Outcome { reports: Seq::empty(), placed: out.placed })
    &&& forall|j: int| 0 <= j < 151 && j != k ==> t1[j] == #[trigger] t0[j]
    &&& t1[k] == raise(t0[k] as int, out.level)
}

/// What two parts of the glass search reach one after the other is what they reach together.
pub proof fn lemma_glass_added_join(
    a: Config,
    b: Config,
    c: Config,
    ta: [i32; 151],
    tb: [i32; 151],
    tc: [i32; 151],
    k: int,
    x: GlassOutcome,
    y: GlassOutcome,
)
    requires
        glass_added(b, a, tb, ta, k, x),
        glass_added(c, b, tc, tb, k, y),
        0 <= k < 151,
    ensures
        glass_added(c, a, tc, ta, k, glass_join(x, y)),
{
    lemma_count_after_twice(a.net_squares, x.placed, y.placed);
    assert forall|j: int| 0 <= j < 151 && j != k implies tc[j] == #[trigger] ta[j] by {
        assert(tc[j] == tb[j]);
    }
}

/// Picks the narrowest lowest plate and fills on from it.
pub fn next_plate_for_glasses(
    config: &mut Config,
    check_glass_size: Integer,
    max_glass_precalc: &mut [i32; 151],
)
    requires
        skyline_ok(old(config).plates@, old(config).size as int),
        0 <= check_glass_size < 151,
    ensures
        restored(*final(config), *old(config)),
        raised_at(*final(max_glass_precalc), *old(max_glass_precalc), check_glass_size as int),
        glass_added(
            *final(config),
            *old(config),
            *final(max_glass_precalc),
            *old(max_glass_precalc),
            check_glass_size as int,
            glass_next_outcome(search_of(*old(config))),
        ),
        old(config).plates@.len() == 3 ==> final(max_glass_precalc)[check_glass_size as int]
            >= old(config).plates@[1].height,
    decreases free_sizes(*old(config)), 2int,
{
    proof {
        lemma_count_used_bound(config.squares@);
        let j = lemma_delimited_exists(config.plates@, config.size as int);
        assert(candidate(config.plates@, config.size as int, j));
    }
    let p_min_i = next_plane_id(config);
    proof {
        let p = config.plates@;
        let size = config.size as int;
        assert(exists|j: int| narrowest(p, size, j));
        lemma_narrowest_unique(p, size, p_min_i as int, chosen_plate(search_of(*config)));
    }
    decompose_glasses(config, p_min_i, check_glass_size, max_glass_precalc);
}

/// Records in `max_glass_precalc[check_glass_size]` the level reached at plate `plate_id` when it
/// is higher than the one recorded, then tries every square that can go on the lowest plate
/// `plate_id` (one as wide as the plate, the one that fills the step to the left neighbour, and
/// each one that fits in the corner), fills on after each, and takes it away again.  The entry
/// ends raised to the level of `glass_decompose_outcome`, which is at most the height of the well
/// when the first plate starts inside it.
pub fn decompose_glasses(
    config: &mut Config,
    plate_id: usize,
    check_glass_size: Integer,
    max_glass_precalc: &mut [i32; 151],
)
    requires
        skyline_ok(old(config).plates@, old(config).size as int),
        delimited(old(config).plates@, plate_id as int),
        0 <= check_glass_size < 151,
    ensures
        restored(*final(config), *old(config)),
        raised_at(*final(max_glass_precalc), *old(max_glass_precalc), check_glass_size as int),
        glass_added(
            *final(config),
            *old(config),
            *final(max_glass_precalc),
            *old(max_glass_precalc),
            check_glass_size as int,
            glass_decompose_outcome(search_of(*old(config)), plate_id as int),
        ),
        final(max_glass_precalc)[check_glass_size as int] >= glass_level(
            old(config).plates@,
            plate_id as int,
        ),
        lifts_single_plate(*old(config)) ==> final(max_glass_precalc)[check_glass_size as int]
            >= old(config).plates@[1].height + old(config).plates@[1].width,
        old(config).plates@[1].height <= old(config).size ==> final(max_glass_precalc)[check_glass_size as int]
            <= raise(old(max_glass_precalc)[check_glass_size as int] as int, old(config).size as int),
    decreases free_sizes(*old(config)), 1int,
{
    proof {
        lemma_skyline_bounds(config.plates@, config.size as int);
    }
    let ghost t0 = *max_glass_precalc;
    let n = config.plates.len();
    if plate_id > 0 && plate_id < n - 1 {
        let glass_width = check_glass_size;
        let old_glass = max_glass_precalc[glass_width as usize];
        let new_glass = min_of(
            config.plates[plate_id].height,
            min_of(config.plates[1].height, config.plates[n - 2].height),
        );
        if new_glass > old_glass {
            max_glass_precalc[glass_width as usize] = new_glass;
        }
    }
    let ghost t1 = *max_glass_precalc;
    assert(raised_at(t1, t0, check_glass_size as int));
    let ghost c0 = *config;
    glass_vertical(config, plate_id, check_glass_size, max_glass_precalc);
    let ghost c1 = *config;
    let ghost t2 = *max_glass_precalc;
    glass_horizontal(config, plate_id, check_glass_size, max_glass_precalc);
    let ghost c2 = *config;
    proof {
        lemma_restored_trans(c2, c1, c0);
    }
    let ghost t3 = *max_glass_precalc;
    glass_corners(config, plate_id, check_glass_size, max_glass_precalc);
    proof {
        lemma_restored_trans(*config, c2, c0);
        let st = search_of(c0);
        let pid = plate_id as int;
        let g = check_glass_size as int;
        assert(search_of(c1) == st);
        assert(search_of(c2) == st);
        let here = GlassOutcome { level: glass_level(st.plates, pid), placed: 0 };
        assert(glass_added(c0, c0, t1, t0, g, here));
        lemma_glass_added_join(
            c1,
            c2,
            *config,
            t2,
            t3,
            *max_glass_precalc,
            g,
            glass_horizontal_outcome(st, pid),
            glass_corners_outcome(st, pid, 1),
        );
        lemma_glass_added_join(
            c0,
            c1,
            *config,
            t1,
            t2,
            *max_glass_precalc,
            g,
            glass_vertical_outcome(st, pid),
            glass_join(glass_horizontal_outcome(st, pid), glass_corners_outcome(st, pid, 1)),
        );
        lemma_glass_added_join(
            c0,
            c0,
            *config,
            t0,
            t1,
            *max_glass_precalc,
            g,
            here,
            glass_join(
                glass_vertical_outcome(st, pid),
                glass_join(glass_horizontal_outcome(st, pid), glass_corners_outcome(st, pid, 1)),
            ),
        );
        if st.plates[1].height <= st.size {
            lemma_glass_decompose_bound(st, pid);
        }
    }
}

/// The skyline has a single plate between the walls, and a free square as wide as it fits on it
/// without rising above the well.
pub open spec fn lifts_single_plate(c: Config) -> bool {
    &&& c.plates@.len() == 3
    &&& c.plates@[1].width < 256
    &&& !c.squares@[c.plates@[1].width as int]
    &&& c.plates@[1].height + c.plates@[1].width <= c.size
}

/// Lifts plate `plate_id` by a square as wide as itself when that square is free and does not
/// rise above the well, fills on, and undoes it.
fn glass_vertical(
    config: &mut Config,
    plate_id: usize,
    check_glass_size: Integer,
    max_glass_precalc: &mut [i32; 151],
)
    requires
        skyline_ok(old(config).plates@, old(config).size as int),
        delimited(old(config).plates@, plate_id as int),
        0 <= check_glass_size < 151,
    ensures
        restored(*final(config), *old(config)),
        raised_at(*final(max_glass_precalc), *old(max_glass_precalc), check_glass_size as int),
        glass_added(
            *final(config),
            *old(config),
            *final(max_glass_precalc),
            *old(max_glass_precalc),
            check_glass_size as int,
            glass_vertical_outcome(search_of(*old(config)), plate_id as int),
        ),
        lifts_single_plate(*old(config)) ==> final(max_glass_precalc)[check_glass_size as int]
            >= old(config).plates@[1].height + old(config).plates@[1].width,
    decreases free_sizes(*old(config)), 0int,
{
    proof {
        lemma_skyline_bounds(config.plates@, config.size as int);
        lemma_count_used_bound(config.squares@);
    }
    let ghost p = config.plates@;
    let square = config.plates[plate_id].width;
    if config.can_use(square) && config.plates[plate_id].height + square <= config.size {
        config.net_squares = config.net_squares.saturating_add(1);
        let orig_left_plate_width = config.plates[plate_id - 1].width;
        proof {
            lemma_vertical_keeps_shape(p, config.size as int, plate_id as int);
            lemma_vertical_extension_undone(p, plate_id as int);
            lemma_count_used_update(config.squares@, square as int, true);
            lemma_mark_then_unmark(config.squares@, square as int);
        }
        let new_plate_id = config.vertical_extension(plate_id);
        proof {
            lemma_skyline_bounds(config.plates@, config.size as int);
            lemma_count_used_bound(config.squares@);
        }
        next_plate_for_glasses(config, check_glass_size, max_glass_precalc);
        if new_plate_id == plate_id {
            config.reverse_vertical_extension(plate_id, square, 0);
        } else {
            config.reverse_vertical_extension(new_plate_id, square, orig_left_plate_width);
        }
    }
}

/// The square that fills the step left of plate `pid` is narrower than the plate and free.
pub open spec fn glass_step_allowed(c: Config, pid: int) -> bool {
    &&& left_step(c.plates@, pid) < c.plates@[pid].width
    &&& !c.squares@[left_step(c.plates@, pid)]
}

/// Widens the left neighbour of plate `plate_id` by the step square when it is free and narrower
/// than the plate, fills on, and undoes it.
fn glass_horizontal(
    config: &mut Config,
    plate_id: usize,
    check_glass_size: Integer,
    max_glass_precalc: &mut [i32; 151],
)
    requires
        skyline_ok(old(config).plates@, old(config).size as int),
        delimited(old(config).plates@, plate_id as int),
        0 <= check_glass_size < 151,
    ensures
        restored(*final(config), *old(config)),
        raised_at(*final(max_glass_precalc), *old(max_glass_precalc), check_glass_size as int),
        glass_added(
            *final(config),
            *old(config),
            *final(max_glass_precalc),
            *old(max_glass_precalc),
            check_glass_size as int,
            glass_horizontal_outcome(search_of(*old(config)), plate_id as int),
        ),
        glass_step_allowed(*old(config), plate_id as int) ==> {
            &&& counted(*final(config), *old(config))
            &&& final(max_glass_precalc)[check_glass_size as int] >= glass_level(
                old(config).plates@,
                plate_id as int,
            )
        },
        !glass_step_allowed(*old(config), plate_id as int) ==> {
            &&& *final(config) == *old(config)
            &&& *final(max_glass_precalc) == *old(max_glass_precalc)
        },
    decreases free_sizes(*old(config)), 0int,
{
    proof {
        lemma_skyline_bounds(config.plates@, config.size as int);
        lemma_count_used_bound(config.squares@);
    }
    let ghost p = config.plates@;
    let step = config.plates[plate_id - 1].height - config.plates[plate_id].height;
    if step < config.plates[plate_id].width && config.can_use(step) {
        config.net_squares = config.net_squares.saturating_add(1);
        proof {
            lemma_horizontal_keeps_shape(p, config.size as int, plate_id as int);
            lemma_horizontal_extension_undone(p, plate_id as int);
            lemma_count_used_update(config.squares@, step as int, true);
            lemma_mark_then_unmark(config.squares@, step as int);
        }
        config.horizontal_extension(plate_id);
        proof {
            lemma_skyline_bounds(config.plates@, config.size as int);
            lemma_count_used_bound(config.squares@);
        }
        decompose_glasses(config, plate_id, check_glass_size, max_glass_precalc);
        config.reverse_horizontal_extension(plate_id);
    }
}

/// The square of side `s` goes in the corner of plate `pid` of a glass: narrower than the plate,
/// not above the well, free, and not ending level with the left neighbour.
pub open spec fn glass_corner_candidate(c: Config, pid: int, s: int) -> bool {
    let p = c.plates@;
    &&& 1 <= s < min_int(p[pid].width - 1, c.size - p[pid].height) + 1
    &&& !c.squares@[s]
    &&& s != left_step(p, pid)
}

/// Tries, in increasing order, each free square narrower than plate `plate_id` that does not rise
/// above the well nor end level with the left neighbour: puts it in the bottom left corner,
/// fills on, and takes it away again.
fn glass_corners(
    config: &mut Config,
    plate_id: usize,
    check_glass_size: Integer,
    max_glass_precalc: &mut [i32; 151],
)
    requires
        skyline_ok(old(config).plates@, old(config).size as int),
        delimited(old(config).plates@, plate_id as int),
        0 <= check_glass_size < 151,
    ensures
        restored(*final(config), *old(config)),
        raised_at(*final(max_glass_precalc), *old(max_glass_precalc), check_glass_size as int),
        glass_added(
            *final(config),
            *old(config),
            *final(max_glass_precalc),
            *old(max_glass_precalc),
            check_glass_size as int,
            glass_corners_outcome(search_of(*old(config)), plate_id as int, 1),
        ),
        (exists|s: int| glass_corner_candidate(*old(config), plate_id as int, s)) ==> counted(
            *final(config),
            *old(config),
        ),
        !(exists|s: int| glass_corner_candidate(*old(config), plate_id as int, s)) ==> {
            &&& *final(config) == *old(config)
            &&& *final(max_glass_precalc) == *old(max_glass_precalc)
        },
    decreases free_sizes(*old(config)), 0int,
{
    proof {
        lemma_skyline_bounds(config.plates@, config.size as int);
        lemma_count_used_bound(config.squares@);
    }
    let ghost c0 = *config;
    let ghost t0 = *max_glass_precalc;
    let ghost p = config.plates@;
    let h = config.plates[plate_id].height;
    let w = config.plates[plate_id].width;
    let end = min_of(w - 1, config.size - h) + 1;
    let mut s: Integer = 1;
    let ghost mut acc = glass_nothing();
    while s < end
        invariant
            glass_added(*config, c0, *max_glass_precalc, t0, check_glass_size as int, acc),
            s == 1 ==> acc == glass_nothing(),
            s > 1 ==> glass_corners_outcome(search_of(c0), plate_id as int, 1) == glass_join(
                acc,
                glass_corners_outcome(search_of(c0), plate_id as int, s as int),
            ),
            c0 == *old(config),
            t0 == *old(max_glass_precalc),
            p == c0.plates@,
            restored(*config, c0),
            raised_at(*max_glass_precalc, t0, check_glass_size as int),
            skyline_ok(p, c0.size as int),
            delimited(p, plate_id as int),
            0 <= check_glass_size < 151,
            h == p[plate_id as int].height,
            w == p[plate_id as int].width,
            end <= w,
            end <= c0.size - h + 1,
            1 <= s,
            count_used(c0.squares@) <= 256,
            end == min_int(p[plate_id as int].width - 1, c0.size - p[plate_id as int].height) + 1,
            (exists|t: int| 1 <= t < s && glass_corner_candidate(c0, plate_id as int, t)) ==> counted(
                *config,
                c0,
            ),
            !(exists|t: int| 1 <= t < s && glass_corner_candidate(c0, plate_id as int, t)) ==> {
                &&& *config == c0
                &&& *max_glass_precalc == t0
            },
        decreases end - s,
    {
        let ghost start = *config;
        let ghost t_start = *max_glass_precalc;
        let ghost sp = s as int;
        let ghost pid = plate_id as int;
        let ghost g = check_glass_size as int;
        let ghost st = search_of(c0);
        let ghost here = if 0 <= sp < 256 && !st.squares[sp] && sp != left_step(st.plates, pid) {
            glass_one_more(
                glass_next_outcome(
                    with_skyline(st, spec_add_square_quick(st.plates, sp, pid), st.squares.update(sp, true)),
                ),
            )
        } else {
            glass_nothing()
        };
        assert(search_of(start) == st);
        if config.can_use(s) && s != config.plates[plate_id - 1].height - config.plates[plate_id].height {
            config.net_squares = config.net_squares.saturating_add(1);
            proof {
                lemma_add_keeps_shape(p, c0.size as int, s as int, plate_id as int);
                lemma_add_square_quick_undone(p, s as int, plate_id as int);
                lemma_count_used_update(config.squares@, s as int, true);
                lemma_mark_then_unmark(config.squares@, s as int);
                lemma_skyline_bounds(p, c0.size as int);
            }
            let ghost raised = *config;
            let ghost tb = *max_glass_precalc;
            config.add_square_quick(s, plate_id);
            proof {
                lemma_count_used_bound(config.squares@);
            }
            let ghost mid = *config;
            next_plate_for_glasses(config, check_glass_size, max_glass_precalc);
            let ghost after = *config;
            config.remove_square(plate_id);
            proof {
                assert(restored(after, mid));
                assert(restored(*config, raised));
                lemma_restored_trans(*config, raised, c0);
                let inner = glass_next_outcome(search_of(mid));
                lemma_added_one_more(
                    start,
                    mid,
                    after,
                    *config,
                    Outcome { reports: Seq::empty(), placed: inner.placed },
                );
                assert(glass_added(*config, start, *max_glass_precalc, t_start, g, here));
            }
            assert forall|j: int| 0 <= j < 151 && j != check_glass_size implies max_glass_precalc[j]
                == #[trigger] t0[j] by {
                assert(max_glass_precalc[j] == tb[j]);
            }
        }
        proof {
            assert(glass_added(*config, start, *max_glass_precalc, t_start, g, here));
            assert(glass_corners_outcome(st, pid, sp) == glass_join(
                here,
                glass_corners_outcome(st, pid, sp + 1),
            ));
            if sp == 1 {
                acc = here;
            } else {
                lemma_glass_added_join(c0, start, *config, t0, t_start, *max_glass_precalc, g, acc, here);
                acc = glass_join(acc, here);
            }
        }
        proof {
            let earlier = exists|t: int| 1 <= t < sp && glass_corner_candidate(c0, pid, t);
            if earlier {
                assert(counted(*config, c0));
            } else if glass_corner_candidate(c0, pid, sp) {
                assert(counted(*config, c0));
            }
            if exists|t: int| 1 <= t < sp + 1 && glass_corner_candidate(c0, pid, t) {
                let t = choose|t: int| 1 <= t < sp + 1 && glass_corner_candidate(c0, pid, t);
                if t < sp {
                    assert(earlier);
                }
                assert(counted(*config, c0));
            }
            if glass_corner_candidate(c0, pid, sp) {
                assert(exists|t: int| 1 <= t < sp + 1 && glass_corner_candidate(c0, pid, t));
            }
        }
        s += 1;
    }
    proof {
        assert(glass_corners_outcome(search_of(c0), plate_id as int, s as int) == glass_nothing());
        if s > 1 {
            assert(glass_added(
                *config,
                c0,
                *max_glass_precalc,
                t0,
                check_glass_size as int,
                glass_join(acc, glass_nothing()),
            ));
        }
        if exists|t: int| glass_corner_candidate(c0, plate_id as int, t) {
            let t = choose|t: int| glass_corner_candidate(c0, plate_id as int, t);
            assert(1 <= t < s);
        }
    }
}

/// The configuration of a glass of width `glass`: a well between a wall one plate wide and a wall
/// filling the rest of the table width, both 152 high.
pub open spec fn glass_plates(glass: int) -> Seq<Plate> {
    seq![plate(152, 1), plate(0, glass), plate(152, 151 - glass)]
}

/// `a` and `b` hold the same skyline, the same used sizes and the same width: the glass search,
/// which reads nothing else, goes the same way on both.
pub open spec fn same_glass(a: Search, b: Search) -> bool {
    a.plates == b.plates && a.squares == b.squares && a.size == b.size
}

/// The glass search from the narrowest plate reads only the skyline, the used sizes and the width.
pub proof fn lemma_glass_next_same(a: Search, b: Search)
    requires
        same_glass(a, b),
    ensures
        glass_next_outcome(a) == glass_next_outcome(b),
    decreases free_of(a), 2int, 0int,
{
    if a.squares.len() == 256 {
        lemma_glass_decompose_same(a, b, chosen_plate(a));
    }
}

/// The glass search on a plate reads only the skyline, the used sizes and the width.
pub proof fn lemma_glass_decompose_same(a: Search, b: Search, pid: int)
    requires
        same_glass(a, b),
    ensures
        glass_decompose_outcome(a, pid) == glass_decompose_outcome(b, pid),
    decreases free_of(a), 1int, 0int,
{
    if a.squares.len() == 256 && delimited(a.plates, pid) {
        lemma_glass_vertical_same(a, b, pid);
        lemma_glass_horizontal_same(a, b, pid);
        lemma_glass_corners_same(a, b, pid, 1);
    }
}

/// The try of the square as wide as the plate reads only the skyline, the used sizes and the width.
pub proof fn lemma_glass_vertical_same(a: Search, b: Search, pid: int)
    requires
        same_glass(a, b),
    ensures
        glass_vertical_outcome(a, pid) == glass_vertical_outcome(b, pid),
    decreases free_of(a), 0int, 0int,
{
    let p = a.plates;
    let w = p[pid].width as int;
    if a.squares.len() == 256 && 0 <= w < 256 && !a.squares[w] && p[pid].height + w <= a.size {
        lemma_count_used_update(a.squares, w, true);
        lemma_count_used_bound(a.squares.update(w, true));
        let q = spec_vertical_extension(p, pid);
        let u = a.squares.update(w, true);
        lemma_glass_next_same(with_skyline(a, q, u), with_skyline(b, q, u));
    }
}

/// The try of the step square reads only the skyline, the used sizes and the width.
pub proof fn lemma_glass_horizontal_same(a: Search, b: Search, pid: int)
    requires
        same_glass(a, b),
    ensures
        glass_horizontal_outcome(a, pid) == glass_horizontal_outcome(b, pid),
    decreases free_of(a), 0int, 0int,
{
    let p = a.plates;
    let step = left_step(p, pid);
    if a.squares.len() == 256 && 0 <= step < 256 && step < p[pid].width && !a.squares[step] {
        lemma_count_used_update(a.squares, step, true);
        lemma_count_used_bound(a.squares.update(step, true));
        let q = spec_horizontal_extension(p, pid);
        let u = a.squares.update(step, true);
        lemma_glass_decompose_same(with_skyline(a, q, u), with_skyline(b, q, u), pid);
    }
}

/// The tries of the corner squares read only the skyline, the used sizes and the width.
pub proof fn lemma_glass_corners_same(a: Search, b: Search, pid: int, s: int)
    requires
        same_glass(a, b),
    ensures
        glass_corners_outcome(a, pid, s) == glass_corners_outcome(b, pid, s),
    decreases free_of(a), 0int, glass_corner_end(a, pid) - s,
{
    if a.squares.len() == 256 && s < glass_corner_end(a, pid) {
        if 0 <= s < 256 && !a.squares[s] && s != left_step(a.plates, pid) {
            lemma_count_used_update(a.squares, s, true);
            lemma_count_used_bound(a.squares.update(s, true));
            let q = spec_add_square_quick(a.plates, s, pid);
            let u = a.squares.update(s, true);
            lemma_glass_next_same(with_skyline(a, q, u), with_skyline(b, q, u));
        }
        lemma_glass_corners_same(a, b, pid, s + 1);
    }
}

/// Every table will do as the tables of a glass search, which reads none.
pub open spec fn any_table_will_do(t: [i32; 151]) -> bool {
    true
}

/// A state of the glass search: the search shape, and the first interior plate no higher than the
/// well.
pub open spec fn glass_state_ok(st: Search) -> bool {
    &&& st.squares.len() == 256
    &&& skyline_ok(st.plates, st.size)
    &&& st.plates[1].height <= st.size
}

/// The glass search from the narrowest plate records no level above the well.
pub proof fn lemma_glass_next_bound(st: Search)
    requires
        glass_state_ok(st),
    ensures
        glass_next_outcome(st).level <= st.size,
    decreases free_of(st), 2int, 0int,
{
    lemma_glass_decompose_bound(st, chosen_plate(st));
}

/// The glass search on a plate records no level above the well.
pub proof fn lemma_glass_decompose_bound(st: Search, pid: int)
    requires
        glass_state_ok(st),
    ensures
        glass_decompose_outcome(st, pid).level <= st.size,
    decreases free_of(st), 1int, 0int,
{
    if delimited(st.plates, pid) {
        lemma_glass_vertical_bound(st, pid);
        lemma_glass_horizontal_bound(st, pid);
        lemma_glass_corners_bound(st, pid, 1);
    }
}

/// The try of the square as wide as the plate records no level above the well.
pub proof fn lemma_glass_vertical_bound(st: Search, pid: int)
    requires
        glass_state_ok(st),
        delimited(st.plates, pid),
    ensures
        glass_vertical_outcome(st, pid).level <= st.size,
    decreases free_of(st), 0int, 0int,
{
    let p = st.plates;
    let w = p[pid].width as int;
    if 0 <= w < 256 && !st.squares[w] && p[pid].height + w <= st.size {
        lemma_count_used_update(st.squares, w, true);
        lemma_count_used_bound(st.squares.update(w, true));
        lemma_vertical_keeps_shape(p, st.size, pid);
        let q = spec_vertical_extension(p, pid);
        lemma_skyline_bounds(p, st.size);
        assert(q[1].height <= st.size);
        lemma_glass_next_bound(with_skyline(st, q, st.squares.update(w, true)));
    }
}

/// The try of the step square records no level above the well.
pub proof fn lemma_glass_horizontal_bound(st: Search, pid: int)
    requires
        glass_state_ok(st),
        delimited(st.plates, pid),
    ensures
        glass_horizontal_outcome(st, pid).level <= st.size,
    decreases free_of(st), 0int, 0int,
{
    let p = st.plates;
    let step = left_step(p, pid);
    if 0 <= step < 256 && step < p[pid].width && !st.squares[step] {
        lemma_count_used_update(st.squares, step, true);
        lemma_count_used_bound(st.squares.update(step, true));
        lemma_horizontal_keeps_shape(p, st.size, pid);
        let q = spec_horizontal_extension(p, pid);
        assert(q[1].height == p[1].height);
        lemma_glass_decompose_bound(with_skyline(st, q, st.squares.update(step, true)), pid);
    }
}

/// The tries of the corner squares from side `s` up record no level above the well.
pub proof fn lemma_glass_corners_bound(st: Search, pid: int, s: int)
    requires
        glass_state_ok(st),
        delimited(st.plates, pid),
        1 <= s,
    ensures
        glass_corners_outcome(st, pid, s).level <= st.size,
    decreases free_of(st), 0int, glass_corner_end(st, pid) - s,
{
    let p = st.plates;
    if s < glass_corner_end(st, pid) {
        if 0 <= s < 256 && !st.squares[s] && s != left_step(p, pid) {
            lemma_count_used_update(st.squares, s, true);
            lemma_count_used_bound(st.squares.update(s, true));
            lemma_add_keeps_shape(p, st.size, s, pid);
            let q = spec_add_square_quick(p, s, pid);
            assert(q[1].height <= st.size);
            lemma_glass_next_bound(with_skyline(st, q, st.squares.update(s, true)));
        }
        lemma_glass_corners_bound(st, pid, s + 1);
    }
}

/// Some table; the glass search reads none.
pub open spec fn any_table() -> [i32; 151] {
    choose|t: [i32; 151]| #[trigger] any_table_will_do(t)
}

/// The start of the search for a glass of width `glass`: the well of `glass_plates`, no square
/// used, and the width of the table as the width of the rectangle.
pub open spec fn glass_start(glass: int) -> Search {
    Search {
        plates: glass_plates(glass),
        squares: Seq::new(256, |i: int| false),
        size: 151,
        first: 0,
        coordinated: false,
        max_glass: any_table(),
        max_square_for_glass: any_table(),
    }
}

/// The highest level that the search reaches in a glass of width `glass`.
pub open spec fn glass_reached(glass: int) -> int {
    glass_decompose_outcome(glass_start(glass), 1).level
}

/// Fills a glass of width `glass` every way the search allows and records in `max_glass_precalc[glass]`
/// the highest level reached at a lowest plate (when higher than the one recorded).
pub fn solve_glass(glass: usize, max_glass_precalc: &mut [i32; 151])
    requires
        1 <= glass < 151,
    ensures
        raised_at(*final(max_glass_precalc), *old(max_glass_precalc), glass as int),
        final(max_glass_precalc)[glass as int] >= glass,
        final(max_glass_precalc)[glass as int] == raise(
            old(max_glass_precalc)[glass as int] as int,
            glass_reached(glass as int),
        ),
        glass_reached(glass as int) <= 151,
{
    let check_glass_size = glass as i32;
    let mut config = Config::new(false, CONFIG_SIZE as Integer, *max_glass_precalc, *max_glass_precalc);
    let p1 = config.plates[1];
    config.plates[1] = Plate { height: p1.height, width: glass as i32 };
    let p2 = config.plates[2];
    config.plates[2] = Plate { height: p2.height, width: (CONFIG_SIZE - glass) as i32 };
    config.net_squares = 2;
    proof {
        let p = config.plates@;
        assert(p =~= glass_plates(glass as int));
        let p2 = p.drop_last();
        let p1 = p2.drop_last();
        let p0 = p1.drop_last();
        assert(p0 =~= Seq::<Plate>::empty());
        assert(crate::squares::total_width(p0) == 0);
        assert(crate::squares::total_width(p1) == 1);
        assert(crate::squares::total_width(p2) == 1 + glass);
        assert(interior_width(p) == glass);
        assert(p[1].height <= config.size);
    }
    proof {
        assert(config.squares@ =~= glass_start(glass as int).squares);
        lemma_glass_decompose_same(search_of(config), glass_start(glass as int), 1);
        lemma_glass_decompose_bound(glass_start(glass as int), 1);
    }
    decompose_glasses(&mut config, 1, check_glass_size, max_glass_precalc);
}

/// Sets the entries from `max_glass` on to the width of the table, which no glass search reaches.
pub fn fill_wide_glasses(max_glass: usize, table: &mut [i32; 151])
    requires
        max_glass <= 151,
    ensures
        forall|k: int| 0 <= k < max_glass ==> #[trigger] final(table)[k] == old(table)[k],
        forall|k: int| max_glass <= k < 151 ==> #[trigger] final(table)[k] == 151,
{
    let ghost mid = *table;
    let mut g: usize = max_glass;
    while g < CONFIG_SIZE
        invariant
            max_glass <= g <= 151,
            mid == *old(table),
            forall|k: int| 0 <= k < max_glass ==> #[trigger] table[k] == mid[k],
            forall|k: int| max_glass <= k < g ==> #[trigger] table[k] == 151,
        decreases 151 - g,
    {
        table[g] = CONFIG_SIZE as Integer;
        g += 1;
    }
}

/// For each width below `max_glass`, the highest level that a glass of that width was filled to
/// (0 for width 0); for the widths from `max_glass` on, the width of the table.
pub fn solve_glasses(max_glass: usize) -> (table: [i32; 151])
    requires
        max_glass <= 151,
    ensures
        max_glass > 0 ==> table[0] == 0,
        forall|k: int| 0 <= k < max_glass ==> 0 <= #[trigger] table[k] <= 255,
        forall|k: int| 1 <= k < max_glass ==> #[trigger] table[k] >= k,
        forall|k: int| max_glass <= k < 151 ==> #[trigger] table[k] == 151,
        forall|k: int| 1 <= k < max_glass ==> #[trigger] table[k] == raise(0, glass_reached(k)),
        forall|k: int| 0 <= k < 151 ==> #[trigger] table[k] <= 151,
{
    let mut max_glass_precalc: [i32; 151] = [0; 151];
    let mut glass: usize = 1;
    while glass < max_glass
        invariant
            max_glass <= 151,
            1 <= glass,
            glass <= max_glass || glass == 1,
            forall|k: int| 0 <= k < 151 ==> 0 <= #[trigger] max_glass_precalc[k] <= 255,
            forall|k: int| 1 <= k < glass ==> #[trigger] max_glass_precalc[k] >= k,
            max_glass_precalc[0] == 0,
            forall|k: int| glass <= k < 151 ==> #[trigger] max_glass_precalc[k] == 0,
            forall|k: int| 1 <= k < glass ==> #[trigger] max_glass_precalc[k] == raise(
                0,
                glass_reached(k),
            ),
            forall|k: int| 0 <= k < 151 ==> #[trigger] max_glass_precalc[k] <= 151,
        decreases max_glass - glass,
    {
        let ghost before = max_glass_precalc;
        solve_glass(glass, &mut max_glass_precalc);
        assert forall|k: int| 0 <= k < 151 implies 0 <= #[trigger] max_glass_precalc[k] <= 255 by {
            if k != glass {
                assert(max_glass_precalc[k] == before[k]);
            }
        }
        assert forall|k: int| 1 <= k < glass + 1 implies #[trigger] max_glass_precalc[k] >= k by {
            if k != glass {
                assert(max_glass_precalc[k] == before[k]);
            }
        }
        assert(max_glass_precalc[0] == before[0]);
        assert forall|k: int| 0 <= k < 151 implies #[trigger] max_glass_precalc[k] <= 151 by {
            if k != glass {
                assert(max_glass_precalc[k] == before[k]);
            }
        }
        assert forall|k: int| glass + 1 <= k < 151 implies #[trigger] max_glass_precalc[k] == 0 by {
            assert(max_glass_precalc[k] == before[k]);
        }
        assert forall|k: int| 1 <= k < glass + 1 implies #[trigger] max_glass_precalc[k] == raise(
            0,
            glass_reached(k),
        ) by {
            if k != glass {
                assert(max_glass_precalc[k] == before[k]);
            }
        }
        glass += 1;
    }
    fill_wide_glasses(max_glass, &mut max_glass_precalc);
    max_glass_precalc
}

/// A square of side `g` fits in a glass of width `s` when a glass of the remaining width `s - g`
/// can be filled to depth `g`.
pub open spec fn square_fits_glass(max_glass: [i32; 151], s: int, g: int) -> bool {
    g <= max_glass[s - g]
}

/// For each width `s`, the largest square below `s` that fits in a glass of width `s`, or 0 when
/// none does.
pub fn max_square_for_glass_table(max_glass: &[i32; 151]) -> (table: [i32; 151])
    requires
        forall|k: int| 0 <= k < 151 ==> 0 <= #[trigger] max_glass[k],
    ensures
        table[0] == 0,
        forall|s: int| 1 <= s < 151 ==> #[trigger] table[s] == 0 || (1 <= table[s] < s
            && square_fits_glass(*max_glass, s, table[s] as int)),
        forall|s: int, g: int|
            1 <= s < 151 && table[s] < g < s ==> !#[trigger] square_fits_glass(*max_glass, s, g),
{
    let mut table: [i32; 151] = [0; 151];
    let mut s: usize = 1;
    while s < CONFIG_SIZE
        invariant
            1 <= s <= 151,
            forall|k: int| 0 <= k < 151 ==> 0 <= #[trigger] max_glass[k],
            table[0] == 0,
            forall|t: int| s <= t < 151 ==> #[trigger] table[t] == 0,
            forall|t: int| 1 <= t < s ==> #[trigger] table[t] == 0 || (1 <= table[t] < t
                && square_fits_glass(*max_glass, t, table[t] as int)),
            forall|t: int, g: int|
                1 <= t < s && table[t] < g < t ==> !#[trigger] square_fits_glass(*max_glass, t, g),
        decreases 151 - s,
    {
        let mut g: usize = s;
        while g > 1
            invariant_except_break
                table[s as int] == 0,
                forall|h: int| g <= h < s ==> !#[trigger] square_fits_glass(*max_glass, s as int, h),
            invariant
                1 <= g <= s < 151,
                forall|k: int| 0 <= k < 151 ==> 0 <= #[trigger] max_glass[k],
                table[0] == 0,
                forall|t: int| s < t < 151 ==> #[trigger] table[t] == 0,
                forall|t: int| 1 <= t < s ==> #[trigger] table[t] == 0 || (1 <= table[t] < t
                    && square_fits_glass(*max_glass, t, table[t] as int)),
                forall|t: int, h: int|
                    1 <= t < s && table[t] < h < t ==> !#[trigger] square_fits_glass(*max_glass, t, h),
            ensures
                table[s as int] == 0 || (1 <= table[s as int] < s && square_fits_glass(
                    *max_glass,
                    s as int,
                    table[s as int] as int,
                )),
                forall|h: int|
                    table[s as int] < h < s ==> !#[trigger] square_fits_glass(*max_glass, s as int, h),
            decreases g,
        {
            g -= 1;
            if g <= max_glass[s - g] as usize {
                table[s] = g as i32;
                break;
            }
        }
        s += 1;
    }
    table
}

} // verus!
