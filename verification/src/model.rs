//! What the search computes: the reports it adds and the squares it places, written as functions
//! over the state of the search that follow the same tree of tries.
use vstd::prelude::*;
use crate::squares::{
    Config,
    Plate,
    left_step,
    count_used,
    spec_add_square_quick,
    spec_horizontal_extension,
    spec_vertical_extension,
    lemma_count_used_bound,
    lemma_count_used_update,
};
use crate::skyline::{delimited, spec_compact};
use crate::exhaustive::{candidate, narrowest, glass_too_deep, min_int};
use crate::text::report_text;

verus! {

/// What the search reads and changes: the skyline, the used sizes, the width of the rectangle, and
/// the settings that guide it.
pub struct Search {
    pub plates: Seq<Plate>,
    pub squares: Seq<bool>,
    pub size: int,
    pub first: int,
    pub coordinated: bool,
    pub max_glass: [i32; 151],
    pub max_square_for_glass: [i32; 151],
}

/// The state of the search held by a configuration.
pub open spec fn search_of(c: Config) -> Search {
    Search {
        plates: c.plates@,
        squares: c.squares@,
        size: c.size as int,
        first: c.first_corner as int,
        coordinated: c.coordinated,
        max_glass: c.max_glass,
        max_square_for_glass: c.max_square_for_glass,
    }
}

/// `st` with another skyline and other used sizes.
pub open spec fn with_skyline(st: Search, p: Seq<Plate>, squares: Seq<bool>) -> Search {
    Search {
        plates: p,
        squares: squares,
        size: st.size,
        first: st.first,
        coordinated: st.coordinated,
        max_glass: st.max_glass,
        max_square_for_glass: st.max_square_for_glass,
    }
}

/// What a part of the search adds: the reports, in order, and the number of squares placed.
pub struct Outcome {
    pub reports: Seq<Seq<char>>,
    pub placed: nat,
}

/// Nothing reported and nothing placed.
pub open spec fn nothing() -> Outcome {
    Outcome { reports: Seq::empty(), placed: 0 }
}

/// `a`, then `b`.
pub open spec fn join(a: Outcome, b: Outcome) -> Outcome {
    Outcome { reports: a.reports + b.reports, placed: a.placed + b.placed }
}

/// One square placed, then `a`.
pub open spec fn one_more(a: Outcome) -> Outcome {
    Outcome { reports: a.reports, placed: a.placed + 1 }
}

/// Number of sizes still free: it bounds the depth of the search.
pub open spec fn free_of(st: Search) -> int {
    256 - count_used(st.squares)
}

/// The glass of width `width` between walls `left_wall` and `right_wall` high is too deep.
pub open spec fn too_deep(st: Search, left_wall: int, width: int, right_wall: int) -> bool {
    glass_too_deep(st.max_glass, st.squares, left_wall, width, right_wall)
}

/// Plate `i` is a lowest plate above the ground whose glass is too deep.
pub open spec fn stop_at(st: Search, i: int) -> bool {
    let p = st.plates;
    &&& delimited(p, i)
    &&& p[i].height > 0
    &&& too_deep(st, p[i - 1].height - p[i].height, p[i].width as int, p[i + 1].height - p[i].height)
}

/// The square as wide as plate `pid` is free, does not rise above the rectangle, is no bottom
/// right corner smaller than the first corner, leaves no glass beside it that is too deep, and is
/// no top left corner smaller than the first corner.
pub open spec fn vertical_allowed(st: Search, pid: int) -> bool {
    let p = st.plates;
    let h = p[pid].height as int;
    let w = p[pid].width as int;
    let lh = p[pid - 1].height as int;
    let rh = p[pid + 1].height as int;
    let last = p.len() - 2;
    &&& 0 <= w < 256
    &&& !st.squares[w]
    &&& h + w <= st.size
    &&& !(h == 0 && w < st.first && pid == last)
    &&& !(pid >= 2 && too_deep(st, p[pid - 2].height - lh, p[pid - 1].width as int, h + w - lh))
    &&& !(pid + 1 <= last && too_deep(st, h + w - rh, p[pid + 1].width as int, p[pid + 2].height - rh))
    &&& !(pid == 1 && h + w >= st.size - st.first && w < st.first)
}

/// The square that fills the step left of plate `pid` is narrower than the plate, free, and
/// leaves no glass on the right that is too deep.
pub open spec fn horizontal_allowed(st: Search, pid: int) -> bool {
    let p = st.plates;
    let h = p[pid].height as int;
    let square = left_step(p, pid);
    &&& 0 <= square < 256
    &&& square < p[pid].width
    &&& !st.squares[square]
    &&& !(pid + 1 <= p.len() - 2 && too_deep(
        st,
        h + square - p[pid + 1].height,
        p[pid + 1].width as int,
        p[pid + 2].height - p[pid + 1].height,
    ))
}

/// The square of side `s` in the bottom left corner of plate `pid` leaves no glass that is too
/// deep, on the left or on the right above the ground, is no bottom right corner smaller than
/// the first corner beside a rest no wider than it, and is no top left corner smaller than the
/// first corner.
pub open spec fn corner_square_allowed(st: Search, pid: int, s: int) -> bool {
    let p = st.plates;
    let h = p[pid].height as int;
    let w = p[pid].width as int;
    let lh = p[pid - 1].height as int;
    let rh = p[pid + 1].height as int;
    let first = st.first;
    &&& !(pid > 1 && too_deep(st, p[pid - 2].height - lh, p[pid - 1].width as int, h + s - lh))
    &&& !(h > 0 && too_deep(st, s, w - s, rh - h))
    &&& !(h == 0 && pid == p.len() - 2 && s < first && w - s <= first)
    &&& !(pid == 1 && h + s >= st.size - first && s < first)
}

/// The smallest square tried in a corner `k` wide (the lower of the step and the plate's width).
pub open spec fn corner_floor(k: int) -> int {
    if 0 <= k < 21 {
        seq![0int, 1, 2, 3, 3, 3, 4, 4, 5, 5, 5, 5, 5, 6, 7, 7, 7, 7, 7, 7, 8][k]
    } else {
        8
    }
}

/// The smallest square tried in the corner of plate `pid`.
pub open spec fn corner_min(st: Search, pid: int) -> int {
    let p = st.plates;
    corner_floor(min_int(left_step(p, pid), p[pid].width as int))
}

/// One more than the largest square tried in the corner of plate `pid`: narrower than the plate
/// and not above the rectangle; above the ground next to a right wall at least as high as the
/// plate is wide, at most the largest square that fits a glass of that width.
pub open spec fn corner_max(st: Search, pid: int) -> int {
    let p = st.plates;
    let h = p[pid].height as int;
    let w = p[pid].width as int;
    let m = min_int(w - 1, st.size - h) + 1;
    if h > 0 && p[pid + 1].height - h >= w {
        min_int(m, st.max_square_for_glass[w] + 1)
    } else {
        m
    }
}

/// The square of side `s` is one that goes in the corner of plate `pid`: within the sizes tried,
/// free, not ending level with the left neighbour, and allowed there.
pub open spec fn corner_candidate(st: Search, pid: int, s: int) -> bool {
    &&& corner_min(st, pid) <= s < corner_max(st, pid)
    &&& 0 <= s < 256
    &&& !st.squares[s]
    &&& s != left_step(st.plates, pid)
    &&& corner_square_allowed(st, pid, s)
}

/// The plate that the search goes on from: the first of least width among the plates lower than
/// both neighbours and at most as wide as the rectangle.
pub open spec fn chosen_plate(st: Search) -> int {
    choose|j: int| narrowest(st.plates, st.size, j)
}

/// The search from the narrowest lowest plate: nothing when some lowest plate above the ground
/// is a glass that is too deep; a single plate as wide and as high as the rectangle is a finished
/// square and is reported; one as wide but lower is a finished rectangle, reported before the
/// search goes on from it.
pub open spec fn next_outcome(st: Search) -> Outcome
    decreases free_of(st), 5int, 0int,
{
    if st.squares.len() != 256 {
        nothing()
    } else if exists|i: int| #[trigger] stop_at(st, i) {
        nothing()
    } else {
        let j = chosen_plate(st);
        let p = st.plates;
        if p[j].width == st.size && p[j].height == st.size {
            Outcome { reports: seq![report_text(true, st.size, st.size, st.squares)], placed: 0 }
        } else if p[j].width == st.size {
            join(
                Outcome {
                    reports: seq![report_text(false, st.size, p[j].height as int, st.squares)],
                    placed: 0,
                },
                decompose_outcome(st, j),
            )
        } else {
            decompose_outcome(st, j)
        }
    }
}

/// The search on the lowest plate `pid`: nothing on a glass that is too deep; otherwise the
/// square as wide as the plate, then the square that fills the left step, then the corner squares.
pub open spec fn decompose_outcome(st: Search, pid: int) -> Outcome
    decreases free_of(st), 4int, 0int,
{
    let p = st.plates;
    if st.squares.len() != 256 || !delimited(p, pid) {
        nothing()
    } else if too_deep(
        st,
        p[pid - 1].height - p[pid].height,
        p[pid].width as int,
        p[pid + 1].height - p[pid].height,
    ) {
        nothing()
    } else {
        join(
            vertical_outcome(st, pid),
            join(horizontal_outcome(st, pid), corners_outcome(st, pid, corner_min(st, pid))),
        )
    }
}

/// The try of the square as wide as plate `pid`, followed by the search from the next plate.
pub open spec fn vertical_outcome(st: Search, pid: int) -> Outcome
    decreases free_of(st), 2int, 0int,
{
    let p = st.plates;
    let w = p[pid].width as int;
    if st.squares.len() == 256 && vertical_allowed(st, pid) {
        proof {
            lemma_count_used_update(st.squares, w, true);
            lemma_count_used_bound(st.squares.update(w, true));
        }
        one_more(
            next_outcome(
                with_skyline(st, spec_vertical_extension(p, pid), st.squares.update(w, true)),
            ),
        )
    } else {
        nothing()
    }
}

/// The try of the square that fills the step left of plate `pid`, followed by the search on the
/// same plate.
pub open spec fn horizontal_outcome(st: Search, pid: int) -> Outcome
    decreases free_of(st), 2int, 0int,
{
    let p = st.plates;
    let square = left_step(p, pid);
    if st.squares.len() == 256 && horizontal_allowed(st, pid) {
        proof {
            lemma_count_used_update(st.squares, square, true);
            lemma_count_used_bound(st.squares.update(square, true));
        }
        one_more(
            decompose_outcome(
                with_skyline(st, spec_horizontal_extension(p, pid), st.squares.update(square, true)),
                pid,
            ),
        )
    } else {
        nothing()
    }
}

/// The tries of the corner squares of plate `pid` from side `s` up.
pub open spec fn corners_outcome(st: Search, pid: int, s: int) -> Outcome
    decreases free_of(st), 3int, corner_max(st, pid) - s,
{
    if st.squares.len() != 256 || s >= corner_max(st, pid) {
        nothing()
    } else {
        let here = if 0 <= s < 256 && !st.squares[s] && s != left_step(st.plates, pid) {
            place_outcome(st, pid, s)
        } else {
            nothing()
        };
        join(here, corners_outcome(st, pid, s + 1))
    }
}

/// The try of the square of side `s` in the corner of plate `pid`: when it is allowed, it is
/// placed; on the ground of a coordinated search, a square larger than the first corner first
/// starts the search of the narrower rectangle that ends at its right side; then the search goes
/// on from the plate left of it when that one became lowest, and from the rest of the plate
/// otherwise.
pub open spec fn place_outcome(st: Search, pid: int, s: int) -> Outcome
    decreases free_of(st), 1int, 0int,
{
    let p = st.plates;
    let h = p[pid].height as int;
    let w = p[pid].width as int;
    let lh = p[pid - 1].height as int;
    let lw = p[pid - 1].width as int;
    if st.squares.len() == 256 && 0 <= s < 256 && !st.squares[s] && corner_square_allowed(
        st,
        pid,
        s,
    ) {
        proof {
            lemma_count_used_update(st.squares, s, true);
            lemma_count_used_bound(st.squares.update(s, true));
        }
        let st1 = with_skyline(st, spec_add_square_quick(p, s, pid), st.squares.update(s, true));
        let narrowed = if h == 0 && s > st.first && st.coordinated {
            let new_size = st.size - (w - s);
            next_outcome(
                Search {
                    plates: spec_compact(st1.plates, p.len() - 1, new_size),
                    squares: st1.squares,
                    size: new_size,
                    first: st.first,
                    coordinated: st.coordinated,
                    max_glass: st.max_glass,
                    max_square_for_glass: st.max_square_for_glass,
                },
            )
        } else {
            nothing()
        };
        let rest = if pid > 1 && s > lh - h && lw < w - s && p[pid - 2].height > lh {
            decompose_outcome(st1, pid - 1)
        } else {
            decompose_outcome(st1, pid + 1)
        };
        one_more(join(narrowed, rest))
    } else {
        nothing()
    }
}

/// `count` placed squares added to the count `n`, which stops at `u128::MAX`.
pub open spec fn count_after(n: u128, count: nat) -> u128 {
    if n + count > u128::MAX {
        u128::MAX
    } else {
        (n + count) as u128
    }
}

/// From `before` to `after` the search added the reports of `out`, in order, after the ones
/// there were, and counted the squares it placed.
pub open spec fn added(after: Config, before: Config, out: Outcome) -> bool {
    &&& after.found@.len() == before.found@.len() + out.reports.len()
    &&& forall|i: int| 0 <= i < out.reports.len() ==> #[trigger] after.found@[before.found@.len() + i]@
        == out.reports[i]
    &&& after.net_squares == count_after(before.net_squares, out.placed)
}

/// What two parts of the search add one after the other is what they add together.
pub proof fn lemma_added_join(a: Config, b: Config, c: Config, x: Outcome, y: Outcome)
    requires
        added(b, a, x),
        added(c, b, y),
        forall|i: int| 0 <= i < b.found@.len() ==> c.found@[i] == #[trigger] b.found@[i],
    ensures
        added(c, a, join(x, y)),
{
    let n = a.found@.len();
    let r = join(x, y).reports;
    assert forall|i: int| 0 <= i < r.len() implies #[trigger] c.found@[n + i]@ == r[i] by {
        if i < x.reports.len() {
            assert(c.found@[n + i] == b.found@[n + i]);
        } else {
            let k = i - x.reports.len();
            assert(c.found@[b.found@.len() + k]@ == y.reports[k]);
        }
    }
}

/// Nothing added.
pub proof fn lemma_added_nothing(a: Config)
    ensures
        added(a, a, nothing()),
{
}

/// Counting `a` squares and then `b` squares counts `a + b` squares.
pub proof fn lemma_count_after_twice(n: u128, a: nat, b: nat)
    ensures
        count_after(count_after(n, a), b) == count_after(n, a + b),
{
}

/// One square counted, the search run, and the square taken away again, adds what the search
/// added and one more square.
pub proof fn lemma_added_one_more(old: Config, mid: Config, after: Config, fin: Config, out: Outcome)
    requires
        mid.found@ == old.found@,
        mid.net_squares == count_after(old.net_squares, 1),
        added(after, mid, out),
        fin.found@ == after.found@,
        fin.net_squares == after.net_squares,
    ensures
        added(fin, old, one_more(out)),
{
    lemma_count_after_twice(old.net_squares, 1, out.placed);
}

/// The first of least width among the candidate plates is unique.
pub proof fn lemma_narrowest_unique(p: Seq<Plate>, size: int, a: int, b: int)
    requires
        narrowest(p, size, a),
        narrowest(p, size, b),
    ensures
        a == b,
{
    assert(candidate(p, size, a));
    assert(candidate(p, size, b));
}

} // verus!
