//! The skyline of a partial tiling and the moves that place and remove squares.
use vstd::prelude::*;
use std::collections::HashSet;

verus! {

pub type Integer = i32;

/// Number of square sizes that can be marked as used.
pub const SQUARE_SLOTS: usize = 256;

/// A horizontal segment of the skyline.
#[derive(Clone, Copy, Debug)]
pub struct Plate {
    pub height: Integer,
    pub width: Integer,
}

/// The plate with the given height and width (both taken as `i32`).
pub open spec fn plate(h: int, w: int) -> Plate {
    Plate { height: h as i32, width: w as i32 }
}

/// A set of square sides.
#[derive(Debug)]
pub struct Square {
    squares: HashSet<Integer>,
}

/// The state of the search: which square sizes are used and the skyline.
#[derive(Clone, Debug)]
pub struct Config {
    /// `squares[s]` is true when a square of side `s` has been placed.
    pub squares: [bool; 256],
    /// Side of the square (or width of the rectangle) being tiled.
    pub size: Integer,
    /// The skyline; the first and the last plate are the walls.
    pub plates: Vec<Plate>,
    /// Number of squares placed so far; the count stops at `u128::MAX`.
    pub net_squares: u128,
    /// For each width, the largest depth of a glass of that width that can be filled.
    pub max_glass: [i32; 151],
    /// For each width, the largest square that fits into a glass of that width.
    pub max_square_for_glass: [i32; 151],
    /// Side of the square in the bottom left corner.
    pub first_corner: Integer,
    /// Whether the search runs for a coordinator that hands out work units.
    pub coordinated: bool,
    /// The reports of the squares and rectangles found so far.
    pub found: Vec<String>,
}

// ---------------------------------------------------------------------------
// The moves, as functions on the skyline
// ---------------------------------------------------------------------------

/// A square of side `s` put on the left end of plate `pid`, which keeps the rest.
pub open spec fn spec_add_square_quick(p: Seq<Plate>, s: int, pid: int) -> Seq<Plate> {
    p.update(pid, plate(p[pid].height as int, p[pid].width - s)).insert(
        pid,
        plate(p[pid].height + s, s),
    )
}

/// Plate `pid` (a single square) taken away; its width goes back to plate `pid + 1`.
pub open spec fn spec_remove_square(p: Seq<Plate>, pid: int) -> Seq<Plate> {
    p.remove(pid).update(pid, plate(p[pid + 1].height as int, p[pid + 1].width + p[pid].width))
}

/// A square of side `s` put on the right end of plate `pid`, which keeps the rest.
pub open spec fn spec_add_square_quick_right(p: Seq<Plate>, s: int, pid: int) -> Seq<Plate> {
    p.update(pid, plate(p[pid].height as int, p[pid].width - s)).insert(
        pid + 1,
        plate(p[pid].height + s, s),
    )
}

/// Plate `pid` (a single square) taken away; its width goes back to plate `pid - 1`.
pub open spec fn spec_remove_square_right(p: Seq<Plate>, pid: int) -> Seq<Plate> {
    p.remove(pid).update(pid - 1, plate(p[pid - 1].height as int, p[pid - 1].width + p[pid].width))
}

/// Side of the square that lifts plate `pid` to the height of its left neighbour.
pub open spec fn left_step(p: Seq<Plate>, pid: int) -> int {
    p[pid - 1].height - p[pid].height
}

/// The left neighbour of plate `pid` widened by the square that fills the step between them.
pub open spec fn spec_horizontal_extension(p: Seq<Plate>, pid: int) -> Seq<Plate> {
    let sq = left_step(p, pid);
    p.update(pid - 1, plate(p[pid - 1].height as int, p[pid - 1].width + sq)).update(
        pid,
        plate(p[pid].height as int, p[pid].width - sq),
    )
}

/// The step square of plate `pid` taken back from its left neighbour.
pub open spec fn spec_reverse_horizontal_extension(p: Seq<Plate>, pid: int) -> Seq<Plate> {
    let sq = left_step(p, pid);
    p.update(pid - 1, plate(p[pid - 1].height as int, p[pid - 1].width - sq)).update(
        pid,
        plate(p[pid].height as int, p[pid].width + sq),
    )
}

/// Plate `pid` lifted by a square as wide as itself, before any merging.
pub open spec fn lifted(p: Seq<Plate>, pid: int) -> Seq<Plate> {
    p.update(pid, plate(p[pid].height + p[pid].width, p[pid].width as int))
}

/// `lifted`, merged with the right neighbour when their heights agree.
pub open spec fn lifted_merged_right(p: Seq<Plate>, pid: int) -> Seq<Plate> {
    let q = lifted(p, pid);
    if q[pid].height == q[pid + 1].height {
        q.update(pid, plate(q[pid].height as int, q[pid].width + q[pid + 1].width)).remove(pid + 1)
    } else {
        q
    }
}

/// The skyline after a vertical extension of plate `pid`, with both merges.
pub open spec fn spec_vertical_extension(p: Seq<Plate>, pid: int) -> Seq<Plate> {
    let q = lifted_merged_right(p, pid);
    if q[pid].height == q[pid - 1].height {
        q.update(pid - 1, plate(q[pid - 1].height as int, q[pid - 1].width + q[pid].width)).remove(
            pid,
        )
    } else {
        q
    }
}

/// The index of the lifted plate after a vertical extension of plate `pid`.
pub open spec fn spec_vertical_extension_id(p: Seq<Plate>, pid: int) -> int {
    let q = lifted_merged_right(p, pid);
    if q[pid].height == q[pid - 1].height {
        pid - 1
    } else {
        pid
    }
}

/// First step of undoing a vertical extension: split off the left part of width `orig_left`.
pub open spec fn split_left(p: Seq<Plate>, pid: int, square: int, orig_left: int) -> Seq<Plate> {
    if orig_left > 0 {
        p.insert(pid + 1, plate(p[pid].height as int, square)).update(
            pid,
            plate(p[pid].height as int, orig_left),
        )
    } else {
        p
    }
}

/// Index of the plate that holds the square after `split_left`.
pub open spec fn split_left_id(pid: int, orig_left: int) -> int {
    if orig_left > 0 {
        pid + 1
    } else {
        pid
    }
}

/// Width left for the square's plate and its right part after `split_left`.
pub open spec fn split_left_width(p: Seq<Plate>, pid: int, orig_left: int) -> int {
    if orig_left > 0 {
        p[pid].width - orig_left
    } else {
        p[pid].width as int
    }
}

/// The skyline after undoing a vertical extension whose lifted plate is `pid`.
pub open spec fn spec_reverse_vertical_extension(
    p: Seq<Plate>,
    pid: int,
    square: int,
    orig_left: int,
) -> Seq<Plate> {
    let q = split_left(p, pid, square, orig_left);
    let id = split_left_id(pid, orig_left);
    let pw = split_left_width(p, pid, orig_left);
    let h = p[pid].height as int;
    let r = if pw > square {
        q.insert(id + 1, plate(h, pw - square)).update(id, plate(q[id].height as int, square))
    } else {
        q
    };
    r.update(id, plate(r[id].height - square, r[id].width as int))
}

// ---------------------------------------------------------------------------
// Sums over the skyline
// ---------------------------------------------------------------------------

/// The area covered by a plate (`area`) or its width.
pub open spec fn measure(x: Plate, area: bool) -> int {
    if area {
        x.height * x.width
    } else {
        x.width as int
    }
}

/// Sum of `measure` over a row of plates.
pub open spec fn plate_sum(p: Seq<Plate>, area: bool) -> int
    decreases p.len(),
{
    if p.len() == 0 {
        0
    } else {
        plate_sum(p.drop_last(), area) + measure(p.last(), area)
    }
}

/// The area below the skyline, the walls included.
pub open spec fn skyline_area(p: Seq<Plate>) -> int {
    plate_sum(p, true)
}

/// The total width of the skyline, the walls included.
pub open spec fn total_width(p: Seq<Plate>) -> int {
    plate_sum(p, false)
}

pub proof fn lemma_plate_sum_update(p: Seq<Plate>, i: int, x: Plate, area: bool)
    requires
        0 <= i < p.len(),
    ensures
        plate_sum(p.update(i, x), area) == plate_sum(p, area) - measure(p[i], area) + measure(
            x,
            area,
        ),
    decreases p.len(),
{
    let q = p.update(i, x);
    if i == p.len() - 1 {
        assert(q.drop_last() =~= p.drop_last());
    } else {
        assert(q.drop_last() =~= p.drop_last().update(i, x));
        lemma_plate_sum_update(p.drop_last(), i, x, area);
    }
}

pub proof fn lemma_plate_sum_insert(p: Seq<Plate>, i: int, x: Plate, area: bool)
    requires
        0 <= i <= p.len(),
    ensures
        plate_sum(p.insert(i, x), area) == plate_sum(p, area) + measure(x, area),
    decreases p.len(),
{
    let q = p.insert(i, x);
    if i == p.len() {
        assert(q.drop_last() =~= p);
    } else {
        assert(q.drop_last() =~= p.drop_last().insert(i, x));
        lemma_plate_sum_insert(p.drop_last(), i, x, area);
    }
}

pub proof fn lemma_plate_sum_remove(p: Seq<Plate>, i: int, area: bool)
    requires
        0 <= i < p.len(),
    ensures
        plate_sum(p.remove(i), area) == plate_sum(p, area) - measure(p[i], area),
{
    assert(p.remove(i).insert(i, p[i]) =~= p);
    lemma_plate_sum_insert(p.remove(i), i, p[i], area);
}


/// Number of used square sizes in `s`.
pub open spec fn count_used(s: Seq<bool>) -> nat
    decreases s.len(),
{
    if s.len() == 0 {
        0
    } else {
        count_used(s.drop_last()) + if s.last() {
            1nat
        } else {
            0nat
        }
    }
}

pub proof fn lemma_count_used_bound(s: Seq<bool>)
    ensures
        count_used(s) <= s.len(),
    decreases s.len(),
{
    if s.len() > 0 {
        lemma_count_used_bound(s.drop_last());
    }
}

pub proof fn lemma_count_used_all_free(s: Seq<bool>)
    requires
        forall|i: int| 0 <= i < s.len() ==> !#[trigger] s[i],
    ensures
        count_used(s) == 0,
    decreases s.len(),
{
    if s.len() > 0 {
        let q = s.drop_last();
        assert forall|i: int| 0 <= i < q.len() implies !#[trigger] q[i] by {
            assert(q[i] == s[i]);
        }
        lemma_count_used_all_free(q);
        assert(!s[s.len() - 1]);
    }
}

pub proof fn lemma_count_used_update(s: Seq<bool>, i: int, b: bool)
    requires
        0 <= i < s.len(),
    ensures
        count_used(s.update(i, b)) == count_used(s) - (if s[i] {
            1int
        } else {
            0int
        }) + (if b {
            1int
        } else {
            0int
        }),
    decreases s.len(),
{
    let q = s.update(i, b);
    if i == s.len() - 1 {
        assert(q.drop_last() =~= s.drop_last());
    } else {
        assert(q.drop_last() =~= s.drop_last().update(i, b));
        lemma_count_used_update(s.drop_last(), i, b);
    }
}

/// Total area of the used squares: the sum of `i * i` over the used sizes `i`.
pub open spec fn area_of_squares(s: Seq<bool>) -> int
    decreases s.len(),
{
    if s.len() == 0 {
        0
    } else {
        area_of_squares(s.drop_last()) + if s.last() {
            (s.len() - 1) * (s.len() - 1)
        } else {
            0
        }
    }
}

pub proof fn lemma_area_of_squares_all_free(s: Seq<bool>)
    requires
        forall|i: int| 0 <= i < s.len() ==> !#[trigger] s[i],
    ensures
        area_of_squares(s) == 0,
    decreases s.len(),
{
    if s.len() > 0 {
        let q = s.drop_last();
        assert forall|i: int| 0 <= i < q.len() implies !#[trigger] q[i] by {
            assert(q[i] == s[i]);
        }
        lemma_area_of_squares_all_free(q);
        assert(!s[s.len() - 1]);
    }
}

/// Marking the free size `i` as used adds `i * i` to the area of the used squares.
pub proof fn lemma_area_of_squares_mark(s: Seq<bool>, i: int)
    requires
        0 <= i < s.len(),
        !s[i],
    ensures
        area_of_squares(s.update(i, true)) == area_of_squares(s) + i * i,
    decreases s.len(),
{
    let q = s.update(i, true);
    if i == s.len() - 1 {
        assert(q.drop_last() =~= s.drop_last());
    } else {
        assert(q.drop_last() =~= s.drop_last().update(i, true));
        lemma_area_of_squares_mark(s.drop_last(), i);
    }
}

/// Used squares of positive total area include at least one square.
pub proof fn lemma_area_positive_count(s: Seq<bool>)
    requires
        area_of_squares(s) > 0,
    ensures
        count_used(s) > 0,
    decreases s.len(),
{
    if s.len() > 0 && !s.last() {
        lemma_area_positive_count(s.drop_last());
    }
}

/// The area below the skyline between the walls.
pub open spec fn interior_area(p: Seq<Plate>) -> int {
    skyline_area(p) - measure(p[0], true) - measure(p.last(), true)
}

/// The fields that the moves on the skyline leave alone.
pub open spec fn same_context(a: Config, b: Config) -> bool {
    &&& a.size == b.size
    &&& a.net_squares == b.net_squares
    &&& a.max_glass == b.max_glass
    &&& a.max_square_for_glass == b.max_square_for_glass
    &&& a.first_corner == b.first_corner
    &&& a.coordinated == b.coordinated
    &&& a.found == b.found
}

/// `x` fits in an `i32`.
pub open spec fn fits(x: int) -> bool {
    i32::MIN <= x <= i32::MAX
}

impl Config {
    /// A configuration with an empty skyline of width `size` between two walls of height `size + 1`.
    pub fn new(
        coordinated: bool,
        size: Integer,
        max_glass: [i32; 151],
        max_square_for_glass: [i32; 151],
    ) -> (c: Config)
        requires
            size < i32::MAX,
        ensures
            forall|i: int| 0 <= i < 256 ==> !c.squares@[i],
            c.squares@.len() == 256,
            c.size == size,
            c.plates@ == seq![plate(size + 1, 1), plate(0, size as int), plate(size + 1, 1)],
            c.net_squares == 0,
            c.max_glass == max_glass,
            c.max_square_for_glass == max_square_for_glass,
            c.first_corner == 0,
            c.coordinated == coordinated,
            c.found@.len() == 0,
    {
        let s = [false; 256];
        let mut p: Vec<Plate> = Vec::new();
        p.push(Plate { height: size + 1, width: 1 });
        p.push(Plate { height: 0, width: size });
        p.push(Plate { height: size + 1, width: 1 });
        let c = Config {
            squares: s,
            size: size,
            plates: p,
            net_squares: 0,
            max_glass: max_glass,
            max_square_for_glass: max_square_for_glass,
            first_corner: 0,
            coordinated: coordinated,
            found: Vec::new(),
        };
        assert(c.plates@ =~= seq![plate(size + 1, 1), plate(0, size as int), plate(size + 1, 1)]);
        c
    }

    /// A copy of the configuration.
    pub fn snapshot(&self) -> (c: Config)
        ensures
            c.squares == self.squares,
            c.size == self.size,
            c.plates@ == self.plates@,
            c.net_squares == self.net_squares,
            c.max_glass == self.max_glass,
            c.max_square_for_glass == self.max_square_for_glass,
            c.first_corner == self.first_corner,
            c.coordinated == self.coordinated,
            c.found@.len() == self.found@.len(),
            forall|i: int| 0 <= i < self.found@.len() ==> (#[trigger] c.found@[i])@ == self.found@[i]@,
    {
        let mut plates: Vec<Plate> = Vec::new();
        let mut i: usize = 0;
        while i < self.plates.len()
            invariant
                i <= self.plates@.len(),
                plates@ == self.plates@.take(i as int),
            decreases self.plates@.len() - i,
        {
            plates.push(self.plates[i]);
            i += 1;
            assert(plates@ =~= self.plates@.take(i as int));
        }
        assert(plates@ =~= self.plates@);
        let mut found: Vec<String> = Vec::new();
        let mut j: usize = 0;
        while j < self.found.len()
            invariant
                j <= self.found@.len(),
                found@.len() == j,
                forall|k: int| 0 <= k < j ==> (#[trigger] found@[k])@ == self.found@[k]@,
            decreases self.found@.len() - j,
        {
            found.push(self.found[j].clone());
            j += 1;
        }
        Config {
            squares: self.squares,
            size: self.size,
            plates: plates,
            net_squares: self.net_squares,
            max_glass: self.max_glass,
            max_square_for_glass: self.max_square_for_glass,
            first_corner: self.first_corner,
            coordinated: self.coordinated,
            found: found,
        }
    }

    /// The number of plates, the walls included.
    pub fn num_plates(&self) -> (n: usize)
        ensures
            n == self.plates@.len(),
    {
        self.plates.len()
    }

    /// Whether no square of side `square` has been placed.
    pub fn can_use(&self, square: Integer) -> (b: bool)
        requires
            0 <= square < 256,
        ensures
            b == !self.squares@[square as int],
    {
        !self.squares[square as usize]
    }

    /// Puts a square of side `square` on the left end of plate `plate_id`, without merging.
    pub fn add_square_quick(&mut self, square: Integer, plate_id: usize)
        requires
            0 <= square < 256,
            plate_id < old(self).plates@.len() < usize::MAX,
            fits(old(self).plates@[plate_id as int].height + square),
            fits(old(self).plates@[plate_id as int].width - square),
        ensures
            final(self).plates@ == spec_add_square_quick(old(self).plates@, square as int, plate_id as int),
            final(self).squares@ == old(self).squares@.update(square as int, true),
            same_context(*final(self), *old(self)),
    {
        self.squares[square as usize] = true;
        let base_height = self.plates[plate_id].height;
        self.plates.insert(plate_id, Plate { height: square + base_height, width: square });
        let rest = self.plates[plate_id + 1];
        self.plates[plate_id + 1] = Plate { height: rest.height, width: rest.width - square };
        assert(self.plates@ =~= spec_add_square_quick(old(self).plates@, square as int, plate_id as int));
    }

    /// Takes away plate `plate_id`, a single square, and gives its width back to the plate on its right.
    pub fn remove_square(&mut self, plate_id: usize)
        requires
            plate_id + 1 < old(self).plates@.len(),
            0 <= old(self).plates@[plate_id as int].width < 256,
            fits(old(self).plates@[plate_id + 1].width + old(self).plates@[plate_id as int].width),
        ensures
            final(self).plates@ == spec_remove_square(old(self).plates@, plate_id as int),
            final(self).squares@ == old(self).squares@.update(
                old(self).plates@[plate_id as int].width as int,
                false,
            ),
            same_context(*final(self), *old(self)),
    {
        let square = self.plates[plate_id].width;
        self.squares[square as usize] = false;
        self.plates.remove(plate_id);
        let next = self.plates[plate_id];
        self.plates[plate_id] = Plate { height: next.height, width: next.width + square };
        assert(self.plates@ =~= spec_remove_square(old(self).plates@, plate_id as int));
    }

    /// Puts a square of side `square` on the right end of plate `plate_id`, without merging.
    pub fn add_square_quick_right(&mut self, square: Integer, plate_id: usize)
        requires
            0 <= square < 256,
            plate_id < old(self).plates@.len() < usize::MAX,
            fits(old(self).plates@[plate_id as int].height + square),
            fits(old(self).plates@[plate_id as int].width - square),
        ensures
            final(self).plates@ == spec_add_square_quick_right(
                old(self).plates@,
                square as int,
                plate_id as int,
            ),
            final(self).squares@ == old(self).squares@.update(square as int, true),
            same_context(*final(self), *old(self)),
    {
        self.squares[square as usize] = true;
        let base_height = self.plates[plate_id].height;
        self.plates.insert(
            plate_id + 1,
            Plate { height: square + base_height, width: square },
        );
        let rest = self.plates[plate_id];
        self.plates[plate_id] = Plate { height: rest.height, width: rest.width - square };
        assert(self.plates@ =~= spec_add_square_quick_right(
            old(self).plates@,
            square as int,
            plate_id as int,
        ));
    }

    /// Takes away plate `plate_id`, a single square, and gives its width back to the plate on its left.
    pub fn remove_square_right(&mut self, plate_id: usize)
        requires
            1 <= plate_id < old(self).plates@.len(),
            0 <= old(self).plates@[plate_id as int].width < 256,
            fits(old(self).plates@[plate_id - 1].width + old(self).plates@[plate_id as int].width),
        ensures
            final(self).plates@ == spec_remove_square_right(old(self).plates@, plate_id as int),
            final(self).squares@ == old(self).squares@.update(
                old(self).plates@[plate_id as int].width as int,
                false,
            ),
            same_context(*final(self), *old(self)),
    {
        let square = self.plates[plate_id].width;
        self.squares[square as usize] = false;
        self.plates.remove(plate_id);
        let prev = self.plates[plate_id - 1];
        self.plates[plate_id - 1] = Plate { height: prev.height, width: prev.width + square };
        assert(self.plates@ =~= spec_remove_square_right(old(self).plates@, plate_id as int));
    }

    /// Widens the left neighbour of plate `plate_id` by the square that fills the step between them.
    pub fn horizontal_extension(&mut self, plate_id: usize)
        requires
            1 <= plate_id < old(self).plates@.len(),
            0 <= left_step(old(self).plates@, plate_id as int) < 256,
            fits(old(self).plates@[plate_id - 1].width + left_step(old(self).plates@, plate_id as int)),
            fits(old(self).plates@[plate_id as int].width - left_step(old(self).plates@, plate_id as int)),
        ensures
            final(self).plates@ == spec_horizontal_extension(old(self).plates@, plate_id as int),
            final(self).squares@ == old(self).squares@.update(
                left_step(old(self).plates@, plate_id as int),
                true,
            ),
            same_context(*final(self), *old(self)),
    {
        let square = self.plates[plate_id - 1].height - self.plates[plate_id].height;
        self.squares[square as usize] = true;
        let left = self.plates[plate_id - 1];
        self.plates[plate_id - 1] = Plate { height: left.height, width: left.width + square };
        let cur = self.plates[plate_id];
        self.plates[plate_id] = Plate { height: cur.height, width: cur.width - square };
        assert(self.plates@ =~= spec_horizontal_extension(old(self).plates@, plate_id as int));
    }

    /// Takes the step square of plate `plate_id` back from its left neighbour.
    pub fn reverse_horizontal_extension(&mut self, plate_id: usize)
        requires
            1 <= plate_id < old(self).plates@.len(),
            0 <= left_step(old(self).plates@, plate_id as int) < 256,
            fits(old(self).plates@[plate_id - 1].width - left_step(old(self).plates@, plate_id as int)),
            fits(old(self).plates@[plate_id as int].width + left_step(old(self).plates@, plate_id as int)),
        ensures
            final(self).plates@ == spec_reverse_horizontal_extension(old(self).plates@, plate_id as int),
            final(self).squares@ == old(self).squares@.update(
                left_step(old(self).plates@, plate_id as int),
                false,
            ),
            same_context(*final(self), *old(self)),
    {
        let square = self.plates[plate_id - 1].height - self.plates[plate_id].height;
        self.squares[square as usize] = false;
        let left = self.plates[plate_id - 1];
        self.plates[plate_id - 1] = Plate { height: left.height, width: left.width - square };
        let cur = self.plates[plate_id];
        self.plates[plate_id] = Plate { height: cur.height, width: cur.width + square };
        assert(self.plates@ =~= spec_reverse_horizontal_extension(old(self).plates@, plate_id as int));
    }

    /// Lifts plate `plate_id` by a square as wide as the plate, merges it with any neighbour
    /// of the same height, and returns the index of the lifted plate.
    pub fn vertical_extension(&mut self, plate_id: usize) -> (new_plate_id: usize)
        requires
            1 <= plate_id,
            plate_id + 1 < old(self).plates@.len(),
            0 <= old(self).plates@[plate_id as int].width < 256,
            fits(old(self).plates@[plate_id as int].height + old(self).plates@[plate_id as int].width),
            fits(old(self).plates@[plate_id as int].width + old(self).plates@[plate_id + 1].width),
            fits(old(self).plates@[plate_id - 1].width + old(self).plates@[plate_id as int].width),
            fits(old(self).plates@[plate_id - 1].width + old(self).plates@[plate_id as int].width
                + old(self).plates@[plate_id + 1].width),
        ensures
            final(self).plates@ == spec_vertical_extension(old(self).plates@, plate_id as int),
            new_plate_id == spec_vertical_extension_id(old(self).plates@, plate_id as int),
            final(self).squares@ == old(self).squares@.update(
                old(self).plates@[plate_id as int].width as int,
                true,
            ),
            same_context(*final(self), *old(self)),
    {
        let ghost p0 = self.plates@;
        let square = self.plates[plate_id].width;
        let mut new_plate_id = plate_id;
        self.squares[square as usize] = true;
        let cur = self.plates[plate_id];
        self.plates[plate_id] = Plate { height: cur.height + square, width: cur.width };
        assert(self.plates@ =~= lifted(p0, plate_id as int));
        let n = self.plates.len();
        assert(plate_id + 1 < n);
        if self.plates[plate_id].height == self.plates[plate_id + 1].height {
            let cur = self.plates[plate_id];
            let right_width = self.plates[plate_id + 1].width;
            self.plates[plate_id] = Plate { height: cur.height, width: cur.width + right_width };
            self.plates.remove(plate_id + 1);
        }
        assert(self.plates@ =~= lifted_merged_right(p0, plate_id as int));
        if self.plates[plate_id].height == self.plates[plate_id - 1].height {
            let left = self.plates[plate_id - 1];
            let cur_width = self.plates[plate_id].width;
            self.plates[plate_id - 1] = Plate { height: left.height, width: left.width + cur_width };
            self.plates.remove(plate_id);
            new_plate_id = plate_id - 1;
        }
        assert(self.plates@ =~= spec_vertical_extension(p0, plate_id as int));
        new_plate_id
    }

    /// Undoes a vertical extension by `square` whose lifted plate is `plate_id`; `orig_left_plate_width`
    /// is the width that the left neighbour had before it merged with the lifted plate, or 0.
    pub fn reverse_vertical_extension(
        &mut self,
        plate_id: usize,
        square: Integer,
        orig_left_plate_width: Integer,
    )
        requires
            plate_id < old(self).plates@.len(),
            old(self).plates@.len() + 2 <= usize::MAX,
            0 <= square < 256,
            fits(old(self).plates@[plate_id as int].width - orig_left_plate_width),
            fits(split_left_width(old(self).plates@, plate_id as int, orig_left_plate_width as int)
                - square),
            fits(old(self).plates@[plate_id as int].height - square),
        ensures
            final(self).plates@ == spec_reverse_vertical_extension(
                old(self).plates@,
                plate_id as int,
                square as int,
                orig_left_plate_width as int,
            ),
            final(self).squares@ == old(self).squares@.update(square as int, false),
            same_context(*final(self), *old(self)),
    {
        let ghost p0 = self.plates@;
        let ghost pid0 = plate_id;
        let mut plate_id = plate_id;
        self.squares[square as usize] = false;
        let mut plate_width = self.plates[plate_id].width;
        let plate_height = self.plates[plate_id].height;
        if orig_left_plate_width > 0 {
            self.plates.insert(plate_id + 1, Plate { height: plate_height, width: square });
            let cur = self.plates[plate_id];
            self.plates[plate_id] = Plate { height: cur.height, width: orig_left_plate_width };
            plate_id += 1;
            plate_width -= orig_left_plate_width;
        }
        let ghost q = self.plates@;
        assert(q =~= split_left(p0, pid0 as int, square as int, orig_left_plate_width as int));
        if plate_width > square {
            self.plates.insert(plate_id + 1, Plate { height: plate_height, width: plate_width - square });
            let cur = self.plates[plate_id];
            self.plates[plate_id] = Plate { height: cur.height, width: square };
        }
        let cur = self.plates[plate_id];
        self.plates[plate_id] = Plate { height: cur.height - square, width: cur.width };
        assert(self.plates@ =~= spec_reverse_vertical_extension(
            p0,
            pid0 as int,
            square as int,
            orig_left_plate_width as int,
        ));
    }
}

} // verus!

verus! {

// ---------------------------------------------------------------------------
// Laws of the moves
// ---------------------------------------------------------------------------

/// The lifted height of plate `pid` and every width that a vertical extension of it adds up fit
/// in an `i32`.
pub open spec fn vertical_fits(p: Seq<Plate>, pid: int) -> bool {
    &&& fits(p[pid].height + p[pid].width)
    &&& fits(p[pid].width + p[pid + 1].width)
    &&& fits(p[pid - 1].width + p[pid].width)
    &&& fits(p[pid - 1].width + p[pid].width + p[pid + 1].width)
}

/// Marking a free square size as used and then as free again gives back the same marks.
pub proof fn lemma_mark_then_unmark(squares: Seq<bool>, s: int)
    requires
        0 <= s < squares.len(),
        !squares[s],
    ensures
        squares.update(s, true).update(s, false) == squares,
{
    assert(squares.update(s, true).update(s, false) =~= squares);
}

/// Removing the square that `add_square_quick` put on plate `pid` gives back the skyline,
/// and the plate it removes is the square of side `s`.
pub proof fn lemma_add_square_quick_undone(p: Seq<Plate>, s: int, pid: int)
    requires
        0 <= pid < p.len(),
        0 <= s < 256,
        fits(p[pid].height + s),
        fits(p[pid].width - s),
    ensures
        spec_add_square_quick(p, s, pid)[pid].width == s,
        spec_remove_square(spec_add_square_quick(p, s, pid), pid) == p,
{
    let q = spec_add_square_quick(p, s, pid);
    let r = spec_remove_square(q, pid);
    assert(r[pid] == p[pid]);
    assert(r =~= p);
}

/// Removing the square that `add_square_quick_right` put right of plate `pid` gives back the skyline.
pub proof fn lemma_add_square_quick_right_undone(p: Seq<Plate>, s: int, pid: int)
    requires
        0 <= pid < p.len(),
        0 <= s < 256,
        fits(p[pid].height + s),
        fits(p[pid].width - s),
    ensures
        spec_add_square_quick_right(p, s, pid)[pid + 1].width == s,
        spec_remove_square_right(spec_add_square_quick_right(p, s, pid), pid + 1) == p,
{
    let q = spec_add_square_quick_right(p, s, pid);
    let r = spec_remove_square_right(q, pid + 1);
    assert(r[pid] == p[pid]);
    assert(r =~= p);
}

/// A horizontal extension keeps the step square of the plate, and reversing it gives back the skyline.
pub proof fn lemma_horizontal_extension_undone(p: Seq<Plate>, pid: int)
    requires
        1 <= pid < p.len(),
        fits(p[pid - 1].width + left_step(p, pid)),
        fits(p[pid].width - left_step(p, pid)),
    ensures
        left_step(spec_horizontal_extension(p, pid), pid) == left_step(p, pid),
        spec_reverse_horizontal_extension(spec_horizontal_extension(p, pid), pid) == p,
{
    let q = spec_horizontal_extension(p, pid);
    let r = spec_reverse_horizontal_extension(q, pid);
    assert(r[pid] == p[pid]);
    assert(r[pid - 1] == p[pid - 1]);
    assert(r =~= p);
}

/// The width that the search hands to `reverse_vertical_extension` for the left neighbour:
/// its old width when the lifted plate merged into it, and 0 otherwise.
pub open spec fn vertical_orig_left(p: Seq<Plate>, pid: int) -> int {
    if spec_vertical_extension_id(p, pid) == pid {
        0
    } else {
        p[pid - 1].width as int
    }
}

/// Reversing a vertical extension of plate `pid`, as the search does, gives back the skyline.
pub proof fn lemma_vertical_extension_undone(p: Seq<Plate>, pid: int)
    requires
        1 <= pid,
        pid + 1 < p.len(),
        vertical_fits(p, pid),
        0 < p[pid - 1].width,
        0 <= p[pid].width,
        0 < p[pid + 1].width,
    ensures
        spec_reverse_vertical_extension(
            spec_vertical_extension(p, pid),
            spec_vertical_extension_id(p, pid),
            p[pid].width as int,
            vertical_orig_left(p, pid),
        ) == p,
{
    let w = p[pid].width as int;
    let h = p[pid].height as int;
    let q1 = lifted(p, pid);
    let q2 = lifted_merged_right(p, pid);
    let q = spec_vertical_extension(p, pid);
    let id = spec_vertical_extension_id(p, pid);
    let r = spec_reverse_vertical_extension(q, id, w, vertical_orig_left(p, pid));
    if h + w == p[pid + 1].height {
        if h + w == p[pid - 1].height {
            assert(r =~= p);
        } else {
            assert(r =~= p);
        }
    } else {
        if h + w == p[pid - 1].height {
            assert(r =~= p);
        } else {
            assert(r =~= p);
        }
    }
}

/// No two neighbouring plates have the same height.
pub open spec fn steps_distinct(p: Seq<Plate>) -> bool {
    forall|i: int| 0 <= i < p.len() - 1 ==> #[trigger] p[i].height != p[i + 1].height
}

/// A vertical extension keeps the total width, removes at most two plates, and keeps
/// neighbouring plates at different heights.
pub proof fn lemma_vertical_extension_shape(p: Seq<Plate>, pid: int)
    requires
        1 <= pid,
        pid + 1 < p.len(),
        vertical_fits(p, pid),
        steps_distinct(p),
    ensures
        total_width(spec_vertical_extension(p, pid)) == total_width(p),
        p.len() - 2 <= spec_vertical_extension(p, pid).len() <= p.len(),
        steps_distinct(spec_vertical_extension(p, pid)),
{
    lemma_vertical_extension_area(p, pid);
    let q = spec_vertical_extension(p, pid);
    let q2 = lifted_merged_right(p, pid);
    assert forall|i: int| 0 <= i < q.len() - 1 implies #[trigger] q[i].height != q[i + 1].height by {
        assert(p[i].height != p[i + 1].height);
        if i + 1 < p.len() - 1 {
            assert(p[i + 1].height != p[i + 2].height);
        }
        if i + 2 < p.len() - 1 {
            assert(p[i + 2].height != p[i + 3].height);
        }
        if i >= 1 {
            assert(p[i - 1].height != p[i].height);
        }
    }
}

/// Placing a square with `add_square_quick` raises the area below the skyline by the square's area
/// and keeps the total width.
pub proof fn lemma_add_square_quick_area(p: Seq<Plate>, s: int, pid: int)
    requires
        0 <= pid < p.len(),
        0 <= s < 256,
        fits(p[pid].height + s),
        fits(p[pid].width - s),
    ensures
        skyline_area(spec_add_square_quick(p, s, pid)) == skyline_area(p) + s * s,
        total_width(spec_add_square_quick(p, s, pid)) == total_width(p),
{
    let h = p[pid].height as int;
    let w = p[pid].width as int;
    let u = p.update(pid, plate(h, w - s));
    lemma_plate_sum_update(p, pid, plate(h, w - s), true);
    lemma_plate_sum_update(p, pid, plate(h, w - s), false);
    lemma_plate_sum_insert(u, pid, plate(h + s, s), true);
    lemma_plate_sum_insert(u, pid, plate(h + s, s), false);
    assert(h * (w - s) + (h + s) * s == h * w + s * s) by (nonlinear_arith);
}

/// Placing a square with `add_square_quick_right` raises the area below the skyline by the
/// square's area and keeps the total width.
pub proof fn lemma_add_square_quick_right_area(p: Seq<Plate>, s: int, pid: int)
    requires
        0 <= pid < p.len(),
        0 <= s < 256,
        fits(p[pid].height + s),
        fits(p[pid].width - s),
    ensures
        skyline_area(spec_add_square_quick_right(p, s, pid)) == skyline_area(p) + s * s,
        total_width(spec_add_square_quick_right(p, s, pid)) == total_width(p),
{
    let h = p[pid].height as int;
    let w = p[pid].width as int;
    let u = p.update(pid, plate(h, w - s));
    lemma_plate_sum_update(p, pid, plate(h, w - s), true);
    lemma_plate_sum_update(p, pid, plate(h, w - s), false);
    lemma_plate_sum_insert(u, pid + 1, plate(h + s, s), true);
    lemma_plate_sum_insert(u, pid + 1, plate(h + s, s), false);
    assert(h * (w - s) + (h + s) * s == h * w + s * s) by (nonlinear_arith);
}

/// A horizontal extension raises the area below the skyline by the area of the step square
/// and keeps the total width.
pub proof fn lemma_horizontal_extension_area(p: Seq<Plate>, pid: int)
    requires
        1 <= pid < p.len(),
        fits(p[pid - 1].width + left_step(p, pid)),
        fits(p[pid].width - left_step(p, pid)),
    ensures
        skyline_area(spec_horizontal_extension(p, pid)) == skyline_area(p) + left_step(p, pid)
            * left_step(p, pid),
        total_width(spec_horizontal_extension(p, pid)) == total_width(p),
{
    let sq = left_step(p, pid);
    let lh = p[pid - 1].height as int;
    let lw = p[pid - 1].width as int;
    let h = p[pid].height as int;
    let w = p[pid].width as int;
    let u = p.update(pid - 1, plate(lh, lw + sq));
    lemma_plate_sum_update(p, pid - 1, plate(lh, lw + sq), true);
    lemma_plate_sum_update(p, pid - 1, plate(lh, lw + sq), false);
    lemma_plate_sum_update(u, pid, plate(h, w - sq), true);
    lemma_plate_sum_update(u, pid, plate(h, w - sq), false);
    assert(lh * (lw + sq) + h * (w - sq) == lh * lw + h * w + sq * sq) by (nonlinear_arith)
        requires
            sq == lh - h,
    ;
}

/// A vertical extension of plate `pid` raises the area below the skyline by the square of the
/// plate's width and keeps the total width.
pub proof fn lemma_vertical_extension_area(p: Seq<Plate>, pid: int)
    requires
        1 <= pid,
        pid + 1 < p.len(),
        vertical_fits(p, pid),
    ensures
        skyline_area(spec_vertical_extension(p, pid)) == skyline_area(p) + p[pid].width
            * p[pid].width,
        total_width(spec_vertical_extension(p, pid)) == total_width(p),
{
    let w = p[pid].width as int;
    let h = p[pid].height as int;
    let q1 = lifted(p, pid);
    lemma_plate_sum_update(p, pid, plate(h + w, w), true);
    lemma_plate_sum_update(p, pid, plate(h + w, w), false);
    assert((h + w) * w == h * w + w * w) by (nonlinear_arith);
    let q2 = lifted_merged_right(p, pid);
    if q1[pid].height == q1[pid + 1].height {
        let rw = q1[pid + 1].width as int;
        let m = q1.update(pid, plate(h + w, w + rw));
        lemma_plate_sum_update(q1, pid, plate(h + w, w + rw), true);
        lemma_plate_sum_update(q1, pid, plate(h + w, w + rw), false);
        lemma_plate_sum_remove(m, pid + 1, true);
        lemma_plate_sum_remove(m, pid + 1, false);
        assert((h + w) * (w + rw) == (h + w) * w + (h + w) * rw) by (nonlinear_arith);
    }
    let q = spec_vertical_extension(p, pid);
    if q2[pid].height == q2[pid - 1].height {
        let lw = q2[pid - 1].width as int;
        let cw = q2[pid].width as int;
        let lh = q2[pid - 1].height as int;
        let m = q2.update(pid - 1, plate(lh, lw + cw));
        lemma_plate_sum_update(q2, pid - 1, plate(lh, lw + cw), true);
        lemma_plate_sum_update(q2, pid - 1, plate(lh, lw + cw), false);
        lemma_plate_sum_remove(m, pid, true);
        lemma_plate_sum_remove(m, pid, false);
        assert(lh * (lw + cw) == lh * lw + lh * cw) by (nonlinear_arith);
    }
}

} // verus!
