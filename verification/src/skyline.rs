//! The shape that the skyline keeps throughout the search, and why the moves keep it.
use vstd::prelude::*;
use crate::squares::{
    Plate,
    plate,
    total_width,
    skyline_area,
    interior_area,
    measure,
    left_step,
    spec_add_square_quick,
    spec_horizontal_extension,
    spec_vertical_extension,
    lifted,
    lifted_merged_right,
    lemma_add_square_quick_area,
    lemma_horizontal_extension_area,
    lemma_vertical_extension_area,
    lemma_plate_sum_remove,
    lemma_plate_sum_update,
};

verus! {

/// The heights of the interior plates `i` and `i + 1` differ.
pub open spec fn step_at(p: Seq<Plate>, i: int) -> bool {
    p[i].height != p[i + 1].height
}

/// Plate `i` is an interior plate lower than both of its neighbours.
pub open spec fn delimited(p: Seq<Plate>, i: int) -> bool {
    &&& 1 <= i < p.len() - 1
    &&& p[i - 1].height > p[i].height
    &&& p[i + 1].height > p[i].height
}

/// Total width of the interior plates.
pub open spec fn interior_width(p: Seq<Plate>) -> int {
    total_width(p) - p[0].width - p.last().width
}

/// The shape of a skyline during the search for a tiling of width `size`:
/// two walls of height `size + 1`; plates of positive width and of height at most 255;
/// interior widths adding up to at most `size` less the room that the left wall took over; no two neighbouring interior plates at one height;
/// only the last interior plate may still lie on the ground; and some interior plate at most
/// `size` high.
pub open spec fn skyline_ok(p: Seq<Plate>, size: int) -> bool {
    &&& 1 <= size <= 254
    &&& p.len() >= 3
    &&& p[0].height == size + 1
    &&& p.last().height == size + 1
    &&& forall|i: int| 0 <= i < p.len() ==> 0 < #[trigger] p[i].width
    &&& forall|i: int| 0 <= i < p.len() ==> 0 <= #[trigger] p[i].height <= 255
    &&& total_width(p) <= 512
    &&& interior_width(p) + p[0].width - 1 <= size
    &&& forall|i: int| 1 <= i < p.len() - 2 ==> 0 < #[trigger] p[i].height
    &&& forall|i: int| 1 <= i < p.len() - 2 ==> #[trigger] step_at(p, i)
    &&& exists|i: int| 1 <= i < p.len() - 1 && #[trigger] p[i].height <= size
}

/// Index of the first lowest plate among plates `1 .. k`.
pub open spec fn first_lowest(p: Seq<Plate>, k: int) -> int
    decreases k,
{
    if k <= 2 {
        1
    } else {
        let j = first_lowest(p, k - 1);
        if p[k - 1].height < p[j].height {
            k - 1
        } else {
            j
        }
    }
}

pub proof fn lemma_first_lowest(p: Seq<Plate>, k: int)
    requires
        2 <= k <= p.len(),
    ensures
        1 <= first_lowest(p, k) < k,
        forall|i: int| 1 <= i < k ==> p[first_lowest(p, k)].height <= #[trigger] p[i].height,
        forall|i: int| 1 <= i < first_lowest(p, k) ==> p[first_lowest(p, k)].height < #[trigger] p[i].height,
    decreases k,
{
    if k > 2 {
        lemma_first_lowest(p, k - 1);
    }
}

/// Each plate is at most as wide as all plates together, when no width is negative.
pub proof fn lemma_width_le_total(p: Seq<Plate>, i: int)
    requires
        0 <= i < p.len(),
        forall|j: int| 0 <= j < p.len() ==> 0 <= #[trigger] p[j].width,
    ensures
        p[i].width <= total_width(p),
        0 <= total_width(p),
    decreases p.len(),
{
    let q = p.drop_last();
    assert forall|j: int| 0 <= j < q.len() implies 0 <= #[trigger] q[j].width by {
        assert(q[j] == p[j]);
    }
    assert(0 <= p[p.len() - 1].width);
    if i < p.len() - 1 {
        lemma_width_le_total(q, i);
    } else if p.len() > 1 {
        lemma_width_le_total(q, 0);
    } else {
        assert(total_width(q) == 0);
    }
}

/// The first plate, plate `i` and the last plate together are at most as wide as all plates.
pub proof fn lemma_three_widths_le_total(p: Seq<Plate>, i: int)
    requires
        0 < i < p.len() - 1,
        forall|j: int| 0 <= j < p.len() ==> 0 <= #[trigger] p[j].width,
    ensures
        p[0].width + p[i].width + p.last().width <= total_width(p),
    decreases p.len(),
{
    let q = p.drop_last();
    assert forall|j: int| 0 <= j < q.len() implies 0 <= #[trigger] q[j].width by {
        assert(q[j] == p[j]);
    }
    lemma_two_widths_le_total(q, i);
}

/// The first plate and plate `i` together are at most as wide as all plates.
pub proof fn lemma_two_widths_le_total(p: Seq<Plate>, i: int)
    requires
        0 < i < p.len(),
        forall|j: int| 0 <= j < p.len() ==> 0 <= #[trigger] p[j].width,
    ensures
        p[0].width + p[i].width <= total_width(p),
    decreases p.len(),
{
    let q = p.drop_last();
    assert forall|j: int| 0 <= j < q.len() implies 0 <= #[trigger] q[j].width by {
        assert(q[j] == p[j]);
    }
    if i == p.len() - 1 {
        lemma_width_le_total(q, 0);
    } else {
        lemma_two_widths_le_total(q, i);
    }
}

/// Facts about single plates that follow from the shape of the skyline.
pub proof fn lemma_skyline_bounds(p: Seq<Plate>, size: int)
    requires
        skyline_ok(p, size),
    ensures
        forall|i: int| 0 <= i < p.len() ==> #[trigger] p[i].width <= 512,
        forall|i: int| 1 <= i < p.len() - 1 ==> #[trigger] p[i].width <= size,
        p.len() <= 512,
{
    assert forall|i: int| 0 <= i < p.len() implies #[trigger] p[i].width <= 512 by {
        lemma_width_le_total(p, i);
    }
    assert forall|i: int| 1 <= i < p.len() - 1 implies #[trigger] p[i].width <= size by {
        lemma_three_widths_le_total(p, i);
    }
    lemma_len_le_total(p);
}

/// With positive widths, there are no more plates than the total width.
pub proof fn lemma_len_le_total(p: Seq<Plate>)
    requires
        forall|j: int| 0 <= j < p.len() ==> 0 < #[trigger] p[j].width,
    ensures
        p.len() <= total_width(p),
    decreases p.len(),
{
    if p.len() > 0 {
        let q = p.drop_last();
        assert forall|j: int| 0 <= j < q.len() implies 0 < #[trigger] q[j].width by {
            assert(q[j] == p[j]);
        }
        lemma_len_le_total(q);
        assert(0 < p[p.len() - 1].width);
    }
}

/// A skyline of the search shape always has a plate lower than both of its neighbours
/// that is at most `size` wide.
pub proof fn lemma_delimited_exists(p: Seq<Plate>, size: int) -> (j: int)
    requires
        skyline_ok(p, size),
    ensures
        delimited(p, j),
        p[j].width <= size,
{
    lemma_skyline_bounds(p, size);
    let k = p.len() - 1;
    lemma_first_lowest(p, k);
    let j = first_lowest(p, k);
    let w = choose|i: int| 1 <= i < p.len() - 1 && #[trigger] p[i].height <= size;
    assert(p[j].height <= p[w].height);
    if j > 1 {
        assert(p[j - 1].height > p[j].height);
    }
    if j + 1 < k {
        assert(step_at(p, j));
        assert(p[j].height <= p[j + 1].height);
    }
    assert(p[j].width <= size);
    j
}

/// Putting a square of side `s` on a lowest plate keeps the shape of the skyline when the square
/// is narrower than the plate, does not rise above `size`, and does not end level with the left
/// neighbour; the rest of the plate is then itself a lowest plate.
pub proof fn lemma_add_keeps_shape(p: Seq<Plate>, size: int, s: int, pid: int)
    requires
        skyline_ok(p, size),
        delimited(p, pid),
        1 <= s < p[pid].width,
        p[pid].height + s <= size,
        s != left_step(p, pid),
    ensures
        skyline_ok(spec_add_square_quick(p, s, pid), size),
        delimited(spec_add_square_quick(p, s, pid), pid + 1),
        spec_add_square_quick(p, s, pid)[0] == p[0],
        interior_area(spec_add_square_quick(p, s, pid)) == interior_area(p) + s * s,
{
    lemma_skyline_bounds(p, size);
    let q = spec_add_square_quick(p, s, pid);
    lemma_add_square_quick_area(p, s, pid);
    assert(q.len() == p.len() + 1);
    assert(q[0] == p[0]);
    assert(q.last() == p.last());
    assert forall|i: int| 0 <= i < q.len() implies 0 < #[trigger] q[i].width by {
        if i > pid + 1 {
            assert(q[i] == p[i - 1]);
        }
    }
    assert forall|i: int| 0 <= i < q.len() implies 0 <= #[trigger] q[i].height <= 255 by {
        if i > pid + 1 {
            assert(q[i] == p[i - 1]);
        }
    }
    assert forall|i: int| 1 <= i < q.len() - 2 implies 0 < #[trigger] q[i].height by {
        if i > pid + 1 {
            assert(q[i] == p[i - 1]);
        }
    }
    assert forall|i: int| 1 <= i < q.len() - 2 implies #[trigger] step_at(q, i) by {
        if i > pid + 1 {
            assert(q[i] == p[i - 1]);
            assert(q[i + 1] == p[i]);
            assert(step_at(p, i - 1));
        } else if i < pid - 1 {
            assert(step_at(p, i));
        }
    }
    assert(q[pid].height <= size);
}

/// A horizontal extension of a lowest plate keeps the shape of the skyline when the step square
/// is narrower than the plate; the plate stays a lowest plate.
pub proof fn lemma_horizontal_keeps_shape(p: Seq<Plate>, size: int, pid: int)
    requires
        skyline_ok(p, size),
        delimited(p, pid),
        left_step(p, pid) < p[pid].width,
    ensures
        skyline_ok(spec_horizontal_extension(p, pid), size),
        delimited(spec_horizontal_extension(p, pid), pid),
        pid >= 2 ==> spec_horizontal_extension(p, pid)[0] == p[0],
        pid >= 2 ==> interior_area(spec_horizontal_extension(p, pid)) == interior_area(p)
            + left_step(p, pid) * left_step(p, pid),
        pid == 1 ==> spec_horizontal_extension(p, pid)[0].width > p[0].width,
{
    lemma_skyline_bounds(p, size);
    let q = spec_horizontal_extension(p, pid);
    lemma_horizontal_extension_area(p, pid);
    assert forall|i: int| 0 <= i < q.len() implies #[trigger] q[i].height == p[i].height by {}
    assert forall|i: int| 0 <= i < q.len() implies 0 < #[trigger] q[i].width by {}
    assert forall|i: int| 0 <= i < q.len() implies 0 <= #[trigger] q[i].height <= 255 by {
        assert(q[i].height == p[i].height);
    }
    assert forall|i: int| 1 <= i < q.len() - 2 implies 0 < #[trigger] q[i].height by {
        assert(q[i].height == p[i].height);
    }
    assert forall|i: int| 1 <= i < q.len() - 2 implies #[trigger] step_at(q, i) by {
        assert(q[i].height == p[i].height);
        assert(q[i + 1].height == p[i + 1].height);
        assert(step_at(p, i));
    }
    let w = choose|i: int| 1 <= i < p.len() - 1 && #[trigger] p[i].height <= size;
    assert(q[w].height == p[w].height);
    assert(q.last() == p.last() || pid == p.len() - 1);
}

/// Lifting a lowest plate by a square as wide as itself keeps the shape of the skyline when the
/// square does not rise above `size`.
pub proof fn lemma_vertical_keeps_shape(p: Seq<Plate>, size: int, pid: int)
    requires
        skyline_ok(p, size),
        delimited(p, pid),
        p[pid].height + p[pid].width <= size,
    ensures
        skyline_ok(spec_vertical_extension(p, pid), size),
        spec_vertical_extension(p, pid)[0] == p[0],
        interior_area(spec_vertical_extension(p, pid)) == interior_area(p) + p[pid].width
            * p[pid].width,
{
    lemma_skyline_bounds(p, size);
    lemma_vertical_extension_area(p, pid);
    let hh = p[pid].height + p[pid].width;
    let n = p.len();
    let q1 = lifted(p, pid);
    let q2 = lifted_merged_right(p, pid);
    let q = spec_vertical_extension(p, pid);
    let right = hh == p[pid + 1].height;
    let left = hh == p[pid - 1].height;
    if right {
        assert(pid + 1 < n - 1);
    }
    if left {
        assert(pid - 1 > 0);
    }
    if !right && !left {
        assert(q =~= q1);
        assert forall|i: int| 0 <= i < q.len() implies 0 < #[trigger] q[i].width by {}
        assert forall|i: int| 0 <= i < q.len() implies 0 <= #[trigger] q[i].height <= 255 by {}
        assert forall|i: int| 1 <= i < q.len() - 2 implies 0 < #[trigger] q[i].height by {}
        assert forall|i: int| 1 <= i < q.len() - 2 implies #[trigger] step_at(q, i) by {
            if i != pid && i != pid - 1 {
                assert(step_at(p, i));
            }
        }
        assert(q[pid].height <= size);
    } else if right && !left {
        assert(q =~= q2);
        assert forall|i: int| 0 <= i < q.len() implies 0 < #[trigger] q[i].width by {
            if i > pid {
                assert(q[i] == p[i + 1]);
            }
        }
        assert forall|i: int| 0 <= i < q.len() implies 0 <= #[trigger] q[i].height <= 255 by {
            if i > pid {
                assert(q[i] == p[i + 1]);
            }
        }
        assert forall|i: int| 1 <= i < q.len() - 2 implies 0 < #[trigger] q[i].height by {
            if i > pid {
                assert(q[i] == p[i + 1]);
            }
        }
        assert forall|i: int| 1 <= i < q.len() - 2 implies #[trigger] step_at(q, i) by {
            if i > pid {
                assert(q[i] == p[i + 1]);
                assert(q[i + 1] == p[i + 2]);
                assert(step_at(p, i + 1));
            } else if i == pid {
                assert(q[i + 1] == p[i + 2]);
                assert(step_at(p, i + 1));
            } else if i < pid - 1 {
                assert(step_at(p, i));
            }
        }
        assert(q[pid].height <= size);
        assert(q.last() == p.last());
    } else if !right && left {
        assert(q2 =~= q1);
        assert forall|i: int| 0 <= i < q.len() implies 0 < #[trigger] q[i].width by {
            if i >= pid {
                assert(q[i] == p[i + 1]);
            }
        }
        assert forall|i: int| 0 <= i < q.len() implies 0 <= #[trigger] q[i].height <= 255 by {
            if i >= pid {
                assert(q[i] == p[i + 1]);
            }
        }
        assert forall|i: int| 1 <= i < q.len() - 2 implies 0 < #[trigger] q[i].height by {
            if i >= pid {
                assert(q[i] == p[i + 1]);
            }
        }
        assert forall|i: int| 1 <= i < q.len() - 2 implies #[trigger] step_at(q, i) by {
            if i >= pid {
                assert(q[i] == p[i + 1]);
                assert(q[i + 1] == p[i + 2]);
                assert(step_at(p, i + 1));
            } else if i == pid - 1 {
                assert(q[i + 1] == p[i + 2]);
            } else if i < pid - 2 {
                assert(step_at(p, i));
            } else {
                assert(step_at(p, pid - 2));
            }
        }
        assert(q[pid - 1].height <= size);
        assert(q.last() == p.last());
    } else {
        assert forall|i: int| 0 <= i < q.len() implies 0 < #[trigger] q[i].width by {
            if i >= pid {
                assert(q[i] == p[i + 2]);
            }
        }
        assert forall|i: int| 0 <= i < q.len() implies 0 <= #[trigger] q[i].height <= 255 by {
            if i >= pid {
                assert(q[i] == p[i + 2]);
            }
        }
        assert forall|i: int| 1 <= i < q.len() - 2 implies 0 < #[trigger] q[i].height by {
            if i >= pid {
                assert(q[i] == p[i + 2]);
            }
        }
        assert forall|i: int| 1 <= i < q.len() - 2 implies #[trigger] step_at(q, i) by {
            if i >= pid {
                assert(q[i] == p[i + 2]);
                assert(q[i + 1] == p[i + 3]);
                assert(step_at(p, i + 2));
            } else if i == pid - 1 {
                assert(q[i + 1] == p[i + 3]);
                assert(step_at(p, pid + 1));
            } else if i < pid - 2 {
                assert(step_at(p, i));
            } else {
                assert(step_at(p, pid - 2));
            }
        }
        assert(q[pid - 1].height <= size);
        assert(q.last() == p.last());
    }
}

/// The skyline narrowed to a rectangle of width `new_size`: plate `k`, the ground plate at the
/// right end, goes, and both walls are set to height `new_size + 1`.
pub open spec fn spec_compact(q: Seq<Plate>, k: int, new_size: int) -> Seq<Plate> {
    let r = q.remove(k);
    r.update(0, plate(new_size + 1, r[0].width as int)).update(
        k,
        plate(new_size + 1, r[k].width as int),
    )
}

/// The narrowed skyline widened back: walls at height `size + 1` and a ground plate of width
/// `removed_w` put back at index `k`.
pub open spec fn spec_uncompact(r: Seq<Plate>, k: int, size: int, removed_w: int) -> Seq<Plate> {
    r.update(0, plate(size + 1, r[0].width as int)).update(k, plate(size + 1, r[k].width as int)).insert(
        k,
        plate(0, removed_w),
    )
}

/// Cutting off the ground plate at the right end keeps the shape of the skyline for the narrower
/// rectangle, and widening it back gives the skyline that was cut.
pub proof fn lemma_compact_keeps_shape(q: Seq<Plate>, size: int, k: int)
    requires
        skyline_ok(q, size),
        k == q.len() - 2,
        k >= 2,
        q[k].height == 0,
        q[k - 1].height <= size - q[k].width,
        size - q[k].width >= 1,
    ensures
        skyline_ok(spec_compact(q, k, size - q[k].width), size - q[k].width),
        spec_uncompact(spec_compact(q, k, size - q[k].width), k, size, q[k].width as int) == q,
        spec_compact(q, k, size - q[k].width)[0].width == q[0].width,
        interior_area(spec_compact(q, k, size - q[k].width)) == interior_area(q),
{
    lemma_skyline_bounds(q, size);
    let rw = q[k].width as int;
    let ns = size - rw;
    let r0 = q.remove(k);
    let r = spec_compact(q, k, ns);
    lemma_plate_sum_remove(q, k, false);
    lemma_plate_sum_update(r0, 0, plate(ns + 1, r0[0].width as int), false);
    lemma_plate_sum_update(
        r0.update(0, plate(ns + 1, r0[0].width as int)),
        k,
        plate(ns + 1, r0[k].width as int),
        false,
    );
    lemma_plate_sum_remove(q, k, true);
    lemma_plate_sum_update(r0, 0, plate(ns + 1, r0[0].width as int), true);
    lemma_plate_sum_update(
        r0.update(0, plate(ns + 1, r0[0].width as int)),
        k,
        plate(ns + 1, r0[k].width as int),
        true,
    );
    assert(r.len() == q.len() - 1);
    assert(r[0].width == q[0].width);
    assert(r.last().width == q.last().width);
    assert forall|i: int| 0 <= i < r.len() implies 0 < #[trigger] r[i].width by {
        if i == k {
            assert(r[i].width == q[k + 1].width);
        } else {
            assert(r[i].width == q[i].width);
        }
    }
    assert forall|i: int| 0 <= i < r.len() implies 0 <= #[trigger] r[i].height <= 255 by {
        if 0 < i < k {
            assert(r[i] == q[i]);
        }
    }
    assert forall|i: int| 1 <= i < r.len() - 2 implies 0 < #[trigger] r[i].height by {
        assert(r[i] == q[i]);
    }
    assert forall|i: int| 1 <= i < r.len() - 2 implies #[trigger] step_at(r, i) by {
        assert(r[i] == q[i]);
        assert(r[i + 1] == q[i + 1]);
        assert(step_at(q, i));
    }
    assert(r[k - 1] == q[k - 1]);
    assert(r[k - 1].height <= ns);
    let u = spec_uncompact(r, k, size, rw);
    assert(u =~= q);
}

/// An interior plate as wide as the rectangle is the only interior plate, the left wall is still
/// one plate wide, and the area between the walls is that plate's.
pub proof fn lemma_single_interior(p: Seq<Plate>, size: int, i: int)
    requires
        skyline_ok(p, size),
        1 <= i < p.len() - 1,
        p[i].width == size,
    ensures
        p.len() == 3,
        i == 1,
        p[0].width == 1,
        interior_area(p) == p[1].height * p[1].width,
{
    let n = p.len() as int;
    let u1 = p.update(i, plate(p[i].height as int, 1));
    let u2 = u1.update(0, plate(p[0].height as int, 1));
    let u = u2.update(n - 1, plate(p[n - 1].height as int, 1));
    lemma_plate_sum_update(p, i, plate(p[i].height as int, 1), false);
    lemma_plate_sum_update(u1, 0, plate(p[0].height as int, 1), false);
    lemma_plate_sum_update(u2, n - 1, plate(p[n - 1].height as int, 1), false);
    assert forall|j: int| 0 <= j < u.len() implies 0 < #[trigger] u[j].width by {}
    lemma_len_le_total(u);
    assert(n == 3);
    let p2 = p.drop_last();
    let p1 = p2.drop_last();
    let p0 = p1.drop_last();
    assert(p0 =~= Seq::<Plate>::empty());
    assert(skyline_area(p0) == 0);
    assert(skyline_area(p1) == measure(p[0], true));
    assert(skyline_area(p2) == measure(p[0], true) + measure(p[1], true));
}

} // verus!
