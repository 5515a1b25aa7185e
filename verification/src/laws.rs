//! Laws of the search, stated from its rules rather than from the functions that follow them:
//! which corner squares are tried, when a coordinated search narrows the rectangle, which moves
//! the glass search makes, which work units are handed out, and how the glass prune reads walls.
use vstd::prelude::*;
use crate::squares::{left_step, spec_add_square_quick, spec_horizontal_extension, spec_vertical_extension};
use crate::skyline::{delimited, spec_compact};
use crate::exhaustive::{glass_too_deep, units_below, units_for};
use crate::text::report_text;
use crate::model::{
    Search,
    Outcome,
    with_skyline,
    corner_floor,
    corner_min,
    corner_max,
    corners_outcome,
    place_outcome,
    decompose_outcome,
    next_outcome,
};
use crate::glasses::{
    glass_level,
    glass_corner_end,
    glass_corners_outcome,
    glass_decompose_outcome,
    glass_next_outcome,
};

verus! {

/// Every line of `small` is a line of `big`.
pub open spec fn within(small: Seq<Seq<char>>, big: Seq<Seq<char>>) -> bool {
    forall|i: int| 0 <= i < small.len() ==> big.contains(#[trigger] small[i])
}

proof fn lemma_within_left(a: Seq<Seq<char>>, b: Seq<Seq<char>>)
    ensures
        within(a, a + b),
{
    assert forall|i: int| 0 <= i < a.len() implies (a + b).contains(#[trigger] a[i]) by {
        assert((a + b)[i] == a[i]);
    }
}

proof fn lemma_within_right(a: Seq<Seq<char>>, b: Seq<Seq<char>>)
    ensures
        within(b, a + b),
{
    assert forall|i: int| 0 <= i < b.len() implies (a + b).contains(#[trigger] b[i]) by {
        assert((a + b)[a.len() + i] == b[i]);
    }
}

proof fn lemma_within_trans(a: Seq<Seq<char>>, b: Seq<Seq<char>>, c: Seq<Seq<char>>)
    requires
        within(a, b),
        within(b, c),
    ensures
        within(a, c),
{
    assert forall|i: int| 0 <= i < a.len() implies c.contains(#[trigger] a[i]) by {
        let j = choose|j: int| 0 <= j < b.len() && b[j] == a[i];
        assert(c.contains(b[j]));
    }
}

/// The smallest square tried in a corner `k` wide, by ranges of `k`.
pub open spec fn smallest_corner_try(k: int) -> int {
    if k <= 3 {
        k
    } else if k <= 5 {
        3
    } else if k <= 7 {
        4
    } else if k <= 12 {
        5
    } else if k == 13 {
        6
    } else if k <= 19 {
        7
    } else {
        8
    }
}

/// The smallest square tried in the corner of a plate follows the fixed table: the side itself up
/// to 3, then 3 up to 5, 4 up to 7, 5 up to 12, 6 at 13, 7 up to 19, and 8 from 20 on.
pub proof fn law_corner_table(k: int)
    requires
        0 <= k,
    ensures
        corner_floor(k) == smallest_corner_try(k),
{
}

/// Each corner square from side `s0` up to below the limit that is free and does not end level
/// with the left neighbour is tried: what its try reports is among the reports of the tries.
proof fn lemma_corners_include(st: Search, pid: int, s0: int, s: int)
    requires
        st.squares.len() == 256,
        s0 <= s < corner_max(st, pid),
        0 <= s < 256,
        !st.squares[s],
        s != left_step(st.plates, pid),
    ensures
        within(place_outcome(st, pid, s).reports, corners_outcome(st, pid, s0).reports),
        place_outcome(st, pid, s).placed <= corners_outcome(st, pid, s0).placed,
    decreases s - s0,
{
    let here = if 0 <= s0 < 256 && !st.squares[s0] && s0 != left_step(st.plates, pid) {
        place_outcome(st, pid, s0)
    } else {
        Outcome { reports: Seq::empty(), placed: 0 }
    };
    let rest = corners_outcome(st, pid, s0 + 1);
    assert(corners_outcome(st, pid, s0).reports == here.reports + rest.reports);
    if s == s0 {
        lemma_within_left(here.reports, rest.reports);
    } else {
        lemma_corners_include(st, pid, s0 + 1, s);
        lemma_within_right(here.reports, rest.reports);
        lemma_within_trans(place_outcome(st, pid, s).reports, rest.reports, here.reports + rest.reports);
    }
}

/// Completeness of the corner tries: on a lowest plate whose glass is not too deep, every corner
/// square at least as large as the table allows for the corner (the lower of the step and the
/// plate's width), narrower than the plate, not above the rectangle, within the largest square
/// for a deep glass on the right, free, not level with the left neighbour and not pruned, is tried:
/// all that its try reports is reported by the search on the plate.
pub proof fn law_corner_squares_tried(st: Search, pid: int, s: int)
    requires
        st.squares.len() == 256,
        delimited(st.plates, pid),
        !glass_too_deep(
            st.max_glass,
            st.squares,
            st.plates[pid - 1].height - st.plates[pid].height,
            st.plates[pid].width as int,
            st.plates[pid + 1].height - st.plates[pid].height,
        ),
        smallest_corner_try(
            if st.plates[pid - 1].height - st.plates[pid].height < st.plates[pid].width {
                st.plates[pid - 1].height - st.plates[pid].height
            } else {
                st.plates[pid].width as int
            },
        ) <= s,
        0 <= s < 256,
        s < st.plates[pid].width,
        s <= st.size - st.plates[pid].height,
        st.plates[pid].height > 0 && st.plates[pid + 1].height - st.plates[pid].height
            >= st.plates[pid].width ==> s <= st.max_square_for_glass[st.plates[pid].width as int],
        !st.squares[s],
        s != st.plates[pid - 1].height - st.plates[pid].height,
        !(pid > 1 && glass_too_deep(
            st.max_glass,
            st.squares,
            st.plates[pid - 2].height - st.plates[pid - 1].height,
            st.plates[pid - 1].width as int,
            st.plates[pid].height + s - st.plates[pid - 1].height,
        )),
        !(st.plates[pid].height > 0 && glass_too_deep(
            st.max_glass,
            st.squares,
            s,
            st.plates[pid].width - s,
            st.plates[pid + 1].height - st.plates[pid].height,
        )),
        !(st.plates[pid].height == 0 && pid == st.plates.len() - 2 && s < st.first
            && st.plates[pid].width - s <= st.first),
        !(pid == 1 && st.plates[pid].height + s >= st.size - st.first && s < st.first),
    ensures
        within(place_outcome(st, pid, s).reports, decompose_outcome(st, pid).reports),
        place_outcome(st, pid, s).placed <= decompose_outcome(st, pid).placed,
{
    let p = st.plates;
    let k = if p[pid - 1].height - p[pid].height < p[pid].width {
        p[pid - 1].height - p[pid].height
    } else {
        p[pid].width as int
    };
    law_corner_table(k);
    assert(corner_min(st, pid) == smallest_corner_try(k));
    assert(s < corner_max(st, pid));
    let m = corner_min(st, pid);
    lemma_corners_include(st, pid, m, s);
    let d = decompose_outcome(st, pid);
    let v = crate::model::vertical_outcome(st, pid);
    let hz = crate::model::horizontal_outcome(st, pid);
    let c = corners_outcome(st, pid, m);
    assert(d.reports == v.reports + (hz.reports + c.reports));
    lemma_within_right(hz.reports, c.reports);
    lemma_within_right(v.reports, hz.reports + c.reports);
    lemma_within_trans(c.reports, hz.reports + c.reports, d.reports);
    lemma_within_trans(place_outcome(st, pid, s).reports, c.reports, d.reports);
}

/// The narrower rectangle that a ground square of side `s` on plate `pid` ends: the skyline with
/// the square placed, cut at the right side of the square, with the width of the rectangle less the
/// rest of the plate.
pub open spec fn narrowed_at(st: Search, pid: int, s: int) -> Search {
    let p = st.plates;
    let new_size = st.size - (p[pid].width - s);
    Search {
        plates: spec_compact(spec_add_square_quick(p, s, pid), p.len() - 1, new_size),
        squares: st.squares.update(s, true),
        size: new_size,
        first: st.first,
        coordinated: st.coordinated,
        max_glass: st.max_glass,
        max_square_for_glass: st.max_square_for_glass,
    }
}

/// In a coordinated search, a ground square larger than the first corner starts the search of
/// the rectangle that ends at its right side: that search's reports come first among the reports
/// of the square's try.  Otherwise (above the ground, not larger than the first corner, or not
/// coordinated) the try reports nothing of a narrower rectangle: its reports are those of the
/// search that goes on in the same rectangle.
pub proof fn law_ground_square_narrows(st: Search, pid: int, s: int)
    requires
        st.squares.len() == 256,
        0 <= s < 256,
        !st.squares[s],
        crate::model::corner_square_allowed(st, pid, s),
    ensures
        st.plates[pid].height == 0 && s > st.first && st.coordinated ==> {
            let n = next_outcome(narrowed_at(st, pid, s)).reports;
            &&& n.len() <= place_outcome(st, pid, s).reports.len()
            &&& place_outcome(st, pid, s).reports.subrange(0, n.len() as int) == n
        },
        !(st.plates[pid].height == 0 && s > st.first && st.coordinated) ==> {
            let p = st.plates;
            let h = p[pid].height as int;
            let st1 = with_skyline(st, spec_add_square_quick(p, s, pid), st.squares.update(s, true));
            place_outcome(st, pid, s).reports == (if pid > 1 && s > p[pid - 1].height - h
                && p[pid - 1].width < p[pid].width - s && p[pid - 2].height > p[pid - 1].height {
                decompose_outcome(st1, pid - 1)
            } else {
                decompose_outcome(st1, pid + 1)
            }).reports
        },
{
    let p = st.plates;
    if st.plates[pid].height == 0 && s > st.first && st.coordinated {
        let n = next_outcome(narrowed_at(st, pid, s)).reports;
        let r = place_outcome(st, pid, s).reports;
        assert(r.subrange(0, n.len() as int) =~= n);
    } else {
        let st1 = with_skyline(st, spec_add_square_quick(p, s, pid), st.squares.update(s, true));
        let r = place_outcome(st, pid, s).reports;
        assert(r =~= (if pid > 1 && s > p[pid - 1].height - p[pid].height && p[pid - 1].width
            < p[pid].width - s && p[pid - 2].height > p[pid - 1].height {
            decompose_outcome(st1, pid - 1)
        } else {
            decompose_outcome(st1, pid + 1)
        }).reports);
    }
}

/// The square as wide as a lowest plate is tried on any plate whose glass is not too deep when it
/// is free, does not rise above the rectangle, is no bottom right corner smaller than the first
/// corner, leaves no glass beside it that is too deep, and is no top left corner smaller than the
/// first corner: the search from the lifted skyline reports all it finds among the reports of
/// the search on the plate.
pub proof fn law_square_as_wide_as_plate_tried(st: Search, pid: int)
    requires
        st.squares.len() == 256,
        delimited(st.plates, pid),
        !glass_too_deep(
            st.max_glass,
            st.squares,
            st.plates[pid - 1].height - st.plates[pid].height,
            st.plates[pid].width as int,
            st.plates[pid + 1].height - st.plates[pid].height,
        ),
        0 <= st.plates[pid].width < 256,
        !st.squares[st.plates[pid].width as int],
        st.plates[pid].height + st.plates[pid].width <= st.size,
        !(st.plates[pid].height == 0 && st.plates[pid].width < st.first && pid == st.plates.len()
            - 2),
        !(pid >= 2 && glass_too_deep(
            st.max_glass,
            st.squares,
            st.plates[pid - 2].height - st.plates[pid - 1].height,
            st.plates[pid - 1].width as int,
            st.plates[pid].height + st.plates[pid].width - st.plates[pid - 1].height,
        )),
        !(pid + 1 <= st.plates.len() - 2 && glass_too_deep(
            st.max_glass,
            st.squares,
            st.plates[pid].height + st.plates[pid].width - st.plates[pid + 1].height,
            st.plates[pid + 1].width as int,
            st.plates[pid + 2].height - st.plates[pid + 1].height,
        )),
        !(pid == 1 && st.plates[pid].height + st.plates[pid].width >= st.size - st.first
            && st.plates[pid].width < st.first),
    ensures
        within(
            next_outcome(
                with_skyline(
                    st,
                    spec_vertical_extension(st.plates, pid),
                    st.squares.update(st.plates[pid].width as int, true),
                ),
            ).reports,
            decompose_outcome(st, pid).reports,
        ),
{
    let m = corner_min(st, pid);
    let d = decompose_outcome(st, pid);
    let v = crate::model::vertical_outcome(st, pid);
    let hz = crate::model::horizontal_outcome(st, pid);
    let c = corners_outcome(st, pid, m);
    assert(d.reports == v.reports + (hz.reports + c.reports));
    lemma_within_left(v.reports, hz.reports + c.reports);
}

/// The square that fills the left step of a lowest plate whose glass is not too deep is tried
/// when it is free, narrower than the plate, and leaves no glass on the right that is too deep:
/// the search on the same plate after it reports all it finds among the reports of the search on
/// the plate.
pub proof fn law_step_square_tried(st: Search, pid: int)
    requires
        st.squares.len() == 256,
        delimited(st.plates, pid),
        !glass_too_deep(
            st.max_glass,
            st.squares,
            st.plates[pid - 1].height - st.plates[pid].height,
            st.plates[pid].width as int,
            st.plates[pid + 1].height - st.plates[pid].height,
        ),
        0 <= st.plates[pid - 1].height - st.plates[pid].height < 256,
        st.plates[pid - 1].height - st.plates[pid].height < st.plates[pid].width,
        !st.squares[st.plates[pid - 1].height - st.plates[pid].height],
        !(pid + 1 <= st.plates.len() - 2 && glass_too_deep(
            st.max_glass,
            st.squares,
            st.plates[pid - 1].height - st.plates[pid + 1].height,
            st.plates[pid + 1].width as int,
            st.plates[pid + 2].height - st.plates[pid + 1].height,
        )),
    ensures
        within(
            decompose_outcome(
                with_skyline(
                    st,
                    spec_horizontal_extension(st.plates, pid),
                    st.squares.update(st.plates[pid - 1].height - st.plates[pid].height, true),
                ),
                pid,
            ).reports,
            decompose_outcome(st, pid).reports,
        ),
{
    let m = corner_min(st, pid);
    let d = decompose_outcome(st, pid);
    let v = crate::model::vertical_outcome(st, pid);
    let hz = crate::model::horizontal_outcome(st, pid);
    let c = corners_outcome(st, pid, m);
    assert(d.reports == v.reports + (hz.reports + c.reports));
    lemma_within_left(hz.reports, c.reports);
    lemma_within_right(v.reports, hz.reports + c.reports);
    lemma_within_trans(hz.reports, hz.reports + c.reports, d.reports);
}

/// The search from a skyline goes on from the first of least width among the plates lower than
/// both neighbours and at most as wide as the rectangle, unless some such plate above the ground
/// is a glass that is too deep; when that plate is narrower than the rectangle, what the search
/// reports is what the search on that plate reports.
pub proof fn law_search_goes_on_from_narrowest(st: Search, j: int)
    requires
        st.squares.len() == 256,
        delimited(st.plates, j),
        st.plates[j].width < st.size,
        forall|i: int|
            #![trigger st.plates[i]]
            delimited(st.plates, i) && st.plates[i].width <= st.size ==> st.plates[j].width
                <= st.plates[i].width,
        forall|i: int|
            #![trigger st.plates[i]]
            0 <= i < j && delimited(st.plates, i) && st.plates[i].width <= st.size
                ==> st.plates[j].width < st.plates[i].width,
        forall|i: int|
            #![trigger st.plates[i]]
            delimited(st.plates, i) && st.plates[i].height > 0 ==> !glass_too_deep(
                st.max_glass,
                st.squares,
                st.plates[i - 1].height - st.plates[i].height,
                st.plates[i].width as int,
                st.plates[i + 1].height - st.plates[i].height,
            ),
    ensures
        next_outcome(st).reports == decompose_outcome(st, j).reports,
{
    let p = st.plates;
    assert(crate::exhaustive::narrowest(p, st.size, j)) by {
        assert forall|i: int| #[trigger] crate::exhaustive::candidate(p, st.size, i) implies p[j].width
            <= p[i].width by {
            assert(p[i] == p[i]);
        }
        assert forall|i: int|
            0 <= i < j && #[trigger] crate::exhaustive::candidate(p, st.size, i) implies p[j].width
            < p[i].width by {
            assert(p[i] == p[i]);
        }
    }
    crate::model::lemma_narrowest_unique(p, st.size, j, crate::model::chosen_plate(st));
    assert forall|i: int| !#[trigger] crate::model::stop_at(st, i) by {
        if delimited(p, i) && p[i].height > 0 {
            assert(p[i] == p[i]);
        }
    }
}

/// When the narrowest lowest plate (as in `law_search_goes_on_from_narrowest`) is as wide as the
/// rectangle, the tiling is finished: as high as wide, it is reported as a square and the branch
/// ends; lower, it is reported as a rectangle, with the used squares, before the search goes on
/// from that plate.
pub proof fn law_finished_shape_reported(st: Search, j: int)
    requires
        st.squares.len() == 256,
        delimited(st.plates, j),
        st.plates[j].width == st.size,
        forall|i: int|
            #![trigger st.plates[i]]
            delimited(st.plates, i) && st.plates[i].width <= st.size ==> st.plates[j].width
                <= st.plates[i].width,
        forall|i: int|
            #![trigger st.plates[i]]
            0 <= i < j && delimited(st.plates, i) && st.plates[i].width <= st.size
                ==> st.plates[j].width < st.plates[i].width,
        forall|i: int|
            #![trigger st.plates[i]]
            delimited(st.plates, i) && st.plates[i].height > 0 ==> !glass_too_deep(
                st.max_glass,
                st.squares,
                st.plates[i - 1].height - st.plates[i].height,
                st.plates[i].width as int,
                st.plates[i + 1].height - st.plates[i].height,
            ),
    ensures
        st.plates[j].height == st.size ==> next_outcome(st).reports == seq![
            report_text(true, st.size, st.size, st.squares),
        ],
        st.plates[j].height != st.size ==> next_outcome(st).reports == seq![
            report_text(false, st.size, st.plates[j].height as int, st.squares),
        ] + decompose_outcome(st, j).reports,
{
    let p = st.plates;
    assert(crate::exhaustive::narrowest(p, st.size, j)) by {
        assert forall|i: int| #[trigger] crate::exhaustive::candidate(p, st.size, i) implies p[j].width
            <= p[i].width by {
            assert(p[i] == p[i]);
        }
        assert forall|i: int|
            0 <= i < j && #[trigger] crate::exhaustive::candidate(p, st.size, i) implies p[j].width
            < p[i].width by {
            assert(p[i] == p[i]);
        }
    }
    crate::model::lemma_narrowest_unique(p, st.size, j, crate::model::chosen_plate(st));
    assert forall|i: int| !#[trigger] crate::model::stop_at(st, i) by {
        if delimited(p, i) && p[i].height > 0 {
            assert(p[i] == p[i]);
        }
    }
}

/// The glass corner tries from side `s0` reach at least the level of each corner square from `s0`
/// up that they try.
proof fn lemma_glass_corners_reach(st: Search, pid: int, s0: int, s: int)
    requires
        st.squares.len() == 256,
        s0 <= s < glass_corner_end(st, pid),
        0 <= s < 256,
        !st.squares[s],
        s != left_step(st.plates, pid),
    ensures
        glass_corners_outcome(st, pid, s0).level >= glass_next_outcome(
            with_skyline(st, spec_add_square_quick(st.plates, s, pid), st.squares.update(s, true)),
        ).level,
    decreases s - s0,
{
    if s > s0 {
        lemma_glass_corners_reach(st, pid, s0 + 1, s);
    }
}

/// The glass search on a lowest plate reaches at least the level of that plate (the lowest of the
/// plate and the two innermost plates) and at least the level reached after each move it may make
/// there: the square as wide as the plate when it is free and stays inside the well, on any plate;
/// the square that fills the left step when it is free and narrower than the plate; and each free
/// corner square narrower than the plate, inside the well and not level with the left neighbour.
pub proof fn law_glass_tries_every_move(st: Search, pid: int)
    requires
        st.squares.len() == 256,
        delimited(st.plates, pid),
    ensures
        glass_decompose_outcome(st, pid).level >= glass_level(st.plates, pid),
        ({
            let p = st.plates;
            let w = p[pid].width as int;
            0 <= w < 256 && !st.squares[w] && p[pid].height + w <= st.size
        }) ==> glass_decompose_outcome(st, pid).level >= glass_next_outcome(
            with_skyline(
                st,
                spec_vertical_extension(st.plates, pid),
                st.squares.update(st.plates[pid].width as int, true),
            ),
        ).level,
        ({
            let p = st.plates;
            let step = p[pid - 1].height - p[pid].height;
            0 <= step < 256 && step < p[pid].width && !st.squares[step]
        }) ==> glass_decompose_outcome(st, pid).level >= glass_decompose_outcome(
            with_skyline(
                st,
                spec_horizontal_extension(st.plates, pid),
                st.squares.update(st.plates[pid - 1].height - st.plates[pid].height, true),
            ),
            pid,
        ).level,
        forall|s: int|
            1 <= s < st.plates[pid].width && s <= st.size - st.plates[pid].height && s < 256
                && !st.squares[s] && s != st.plates[pid - 1].height - st.plates[pid].height
                ==> glass_decompose_outcome(st, pid).level >= #[trigger] glass_next_outcome(
                with_skyline(st, spec_add_square_quick(st.plates, s, pid), st.squares.update(s, true)),
            ).level,
{
    assert forall|s: int|
        1 <= s < st.plates[pid].width && s <= st.size - st.plates[pid].height && s < 256
            && !st.squares[s] && s != st.plates[pid - 1].height - st.plates[pid].height
            implies glass_decompose_outcome(st, pid).level >= #[trigger] glass_next_outcome(
            with_skyline(st, spec_add_square_quick(st.plates, s, pid), st.squares.update(s, true)),
        ).level by {
        lemma_glass_corners_reach(st, pid, 1, s);
    }
}

/// Every unit handed out for the second square `x` has `x` as its second square.
proof fn lemma_units_for_second(size: int, s1: int, x: int, mg: [i32; 151], used: Seq<bool>)
    ensures
        forall|i: int| 0 <= i < units_for(size, s1, x, mg, used).len() ==> (#[trigger] units_for(
            size,
            s1,
            x,
            mg,
            used,
        )[i]).2 == x,
{
}

/// Work units for a second square `s2` beside the first corner `s1`: one larger than the first
/// corner gets the unit of the rectangle that ends at its right side exactly when the glass it
/// makes over the first corner, `s2 - s1` deep, is no deeper than the table allows for the width
/// `s1`; when that glass is deeper, no unit has `s2` as its second square.  One smaller than the
/// first corner gets no unit when it is higher than the table allows for the glass of the rest.
pub proof fn law_second_square_units(
    size: int,
    s1: int,
    k: int,
    mg: [i32; 151],
    used: Seq<bool>,
    s2: int,
)
    requires
        5 <= s2 < k,
    ensures
        s1 < s2 && s2 - s1 <= mg[s1] ==> units_below(size, s1, k, mg, used).contains(
            (1int, s1 + s2, s2),
        ),
        s1 < s2 && s2 - s1 <= mg[s1] && s1 < size - s1 - s2 && !glass_too_deep(
            mg,
            used.update(s1, true).update(s2, true),
            size - s1,
            s1,
            s2 - s1,
        ) ==> units_below(size, s1, k, mg, used).contains((1int, size, s2)),
        s2 < s1 && s2 <= mg[size - s1 - s2] && !glass_too_deep(
            mg,
            used.update(s1, true).update(s2, true),
            s2,
            size - s1 - s2,
            size,
        ) ==> units_below(size, s1, k, mg, used).contains((3int, size, s2)),
        s1 < s2 && s2 - s1 > mg[s1] ==> forall|i: int|
            0 <= i < units_below(size, s1, k, mg, used).len() ==> (#[trigger] units_below(
                size,
                s1,
                k,
                mg,
                used,
            )[i]).2 != s2,
        s2 < s1 && s2 > mg[size - s1 - s2] ==> forall|i: int|
            0 <= i < units_below(size, s1, k, mg, used).len() ==> (#[trigger] units_below(
                size,
                s1,
                k,
                mg,
                used,
            )[i]).2 != s2,
    decreases k,
{
    let a = units_below(size, s1, k - 1, mg, used);
    let b = units_for(size, s1, k - 1, mg, used);
    assert(units_below(size, s1, k, mg, used) == a + b);
    lemma_units_for_second(size, s1, k - 1, mg, used);
    let dropped = (s1 < s2 && s2 - s1 > mg[s1]) || (s2 < s1 && s2 > mg[size - s1 - s2]);
    if s2 == k - 1 {
        lemma_units_below_below(size, s1, k - 1, mg, used, s2);
        if s1 < s2 && s2 - s1 <= mg[s1] {
            let t = (1int, s1 + s2, s2);
            assert(b[b.len() - 1] == t);
            assert((a + b)[a.len() + b.len() - 1] == t);
            if s1 < size - s1 - s2 && !glass_too_deep(
                mg,
                used.update(s1, true).update(s2, true),
                size - s1,
                s1,
                s2 - s1,
            ) {
                assert(b[0] == (1int, size, s2));
                assert((a + b)[a.len() as int] == (1int, size, s2));
            }
        }
        if s2 < s1 && s2 <= mg[size - s1 - s2] && !glass_too_deep(
            mg,
            used.update(s1, true).update(s2, true),
            s2,
            size - s1 - s2,
            size,
        ) {
            assert(b[0] == (3int, size, s2));
            assert((a + b)[a.len() as int] == (3int, size, s2));
        }
        if dropped {
            assert(b.len() == 0);
            assert forall|i: int| 0 <= i < (a + b).len() implies (#[trigger] (a + b)[i]).2 != s2 by {
                assert((a + b)[i] == a[i]);
            }
        }
    } else {
        law_second_square_units(size, s1, k - 1, mg, used, s2);
        assert forall|t: (int, int, int)| a.contains(t) implies (a + b).contains(t) by {
            let j = choose|j: int| 0 <= j < a.len() && a[j] == t;
            assert((a + b)[j] == t);
        }
        if dropped {
            assert forall|i: int| 0 <= i < (a + b).len() implies (#[trigger] (a + b)[i]).2 != s2 by {
                if i < a.len() {
                    assert((a + b)[i] == a[i]);
                } else {
                    assert((a + b)[i] == b[i - a.len()]);
                }
            }
        }
    }
}

/// The units handed out for second squares below `k` have second squares below `k`.
proof fn lemma_units_below_below(
    size: int,
    s1: int,
    k: int,
    mg: [i32; 151],
    used: Seq<bool>,
    x: int,
)
    requires
        k <= x,
    ensures
        forall|i: int|
            0 <= i < units_below(size, s1, k, mg, used).len() ==> (#[trigger] units_below(
                size,
                s1,
                k,
                mg,
                used,
            )[i]).2 < x,
    decreases k,
{
    if k > 5 {
        lemma_units_below_below(size, s1, k - 1, mg, used, x);
        lemma_units_for_second(size, s1, k - 1, mg, used);
        let a = units_below(size, s1, k - 1, mg, used);
        let b = units_for(size, s1, k - 1, mg, used);
        assert(units_below(size, s1, k, mg, used) == a + b);
        assert forall|i: int| 0 <= i < (a + b).len() implies (#[trigger] (a + b)[i]).2 < x by {
            if i < a.len() {
                assert((a + b)[i] == a[i]);
            } else {
                assert((a + b)[i] == b[i - a.len()]);
            }
        }
    }
}

/// The glass prune reads the two walls only through the lower one: swapping them changes
/// nothing, and a glass is too deep exactly when the lower wall is above the ground and higher
/// than the depth the table allows for its width (less the width when that square is used).
pub proof fn law_glass_prune_lower_wall(
    max_glass: [i32; 151],
    squares: Seq<bool>,
    left_wall: int,
    width: int,
    right_wall: int,
)
    ensures
        glass_too_deep(max_glass, squares, left_wall, width, right_wall) == glass_too_deep(
            max_glass,
            squares,
            right_wall,
            width,
            left_wall,
        ),
        glass_too_deep(max_glass, squares, left_wall, width, right_wall) == ({
            let lower = if left_wall <= right_wall {
                left_wall
            } else {
                right_wall
            };
            lower > 0 && lower + (if squares[width] {
                width
            } else {
                0
            }) > max_glass[width]
        }),
{
}

} // verus!
