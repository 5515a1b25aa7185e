//! Run-time tests of what the search needs, for configurations that come from outside.
use vstd::prelude::*;
use crate::squares::{
    Config,
    Plate,
    measure,
    plate_sum,
    total_width,
};
use crate::skyline::{delimited, skyline_ok, step_at};
use crate::exhaustive::{
    search_ready,
    tables_ok,
    tiling_accounted,
    restored,
    accounted_since,
    decompose,
};
use crate::model::{search_of, added, decompose_outcome};

verus! {

/// `plate_sum` of a prefix, one plate longer.
proof fn lemma_plate_sum_take(p: Seq<Plate>, i: int, area: bool)
    requires
        0 <= i < p.len(),
    ensures
        plate_sum(p.take(i + 1), area) == plate_sum(p.take(i), area) + measure(p[i], area),
{
    assert(p.take(i + 1).drop_last() =~= p.take(i));
}

/// Total width of the skyline, computed.
fn skyline_width(plates: &Vec<Plate>) -> (w: i64)
    requires
        plates@.len() <= 512,
        forall|i: int| 0 <= i < plates@.len() ==> 0 <= #[trigger] plates@[i].width <= 512,
    ensures
        w == total_width(plates@),
        0 <= w <= 262144,
{
    let mut w: i64 = 0;
    let mut i: usize = 0;
    while i < plates.len()
        invariant
            i <= plates@.len() <= 512,
            forall|j: int| 0 <= j < plates@.len() ==> 0 <= #[trigger] plates@[j].width <= 512,
            w == plate_sum(plates@.take(i as int), false),
            0 <= w <= 512 * i,
        decreases plates@.len() - i,
    {
        proof {
            lemma_plate_sum_take(plates@, i as int, false);
        }
        let p = plates[i];
        w = w + p.width as i64;
        i += 1;
    }
    assert(plates@.take(plates@.len() as int) =~= plates@);
    w
}

/// Whether `config` has what the search needs and plate `plate_id` is lower than both neighbours.
pub fn ready_to_decompose(config: &Config, plate_id: usize) -> (b: bool)
    ensures
        b == (search_ready(*config) && delimited(config.plates@, plate_id as int)),
{
    let p = &config.plates;
    let n = p.len();
    let size = config.size;
    proof {
        if skyline_ok(p@, size as int) {
            crate::skyline::lemma_skyline_bounds(p@, size as int);
        }
    }
    if size < 1 || size > 150 || n < 3 || n > 512 {
        return false;
    }
    if config.first_corner < 0 || config.first_corner > 255 {
        return false;
    }
    if p[0].height != size + 1 || p[n - 1].height != size + 1 {
        return false;
    }
    let mut i: usize = 0;
    while i < n
        invariant
            n == p@.len(),
            *p == config.plates,
            size == config.size,
            skyline_ok(p@, size as int) ==> forall|j: int| 0 <= j < n ==> #[trigger] p@[j].width <= 512,
            i <= n,
            forall|j: int| 0 <= j < i ==> 0 < #[trigger] p@[j].width <= 512,
            forall|j: int| 0 <= j < i ==> 0 <= #[trigger] p@[j].height <= 255,
        decreases n - i,
    {
        if p[i].width <= 0 || p[i].width > 512 || p[i].height < 0 || p[i].height > 255 {
            return false;
        }
        i += 1;
    }
    let total = skyline_width(p);
    if total > 512 {
        return false;
    }
    let interior = total - p[0].width as i64 - p[n - 1].width as i64;
    if interior + p[0].width as i64 - 1 > size as i64 {
        return false;
    }
    let mut k: usize = 1;
    let mut low_found = false;
    while k + 1 < n
        invariant
            n == p@.len(),
            *p == config.plates,
            size == config.size,
            3 <= n <= 512,
            1 <= k <= n - 1,
            forall|j: int| 1 <= j < k && j < n - 2 ==> 0 < #[trigger] p@[j].height,
            forall|j: int| 1 <= j < k && j < n - 2 ==> #[trigger] step_at(p@, j),
            low_found == exists|j: int| 1 <= j < k && #[trigger] p@[j].height <= size,
        decreases n - k,
    {
        if k + 2 < n {
            if p[k].height <= 0 || p[k].height == p[k + 1].height {
                assert(!step_at(p@, k as int) || !(0 < p@[k as int].height));
                return false;
            }
        }
        if p[k].height <= size {
            low_found = true;
        }
        k += 1;
    }
    if !low_found {
        return false;
    }
    let mut t: usize = 0;
    while t < 151
        invariant
            t <= 151,
            forall|j: int| 0 <= j < t ==> i32::MIN + 256 <= #[trigger] config.max_glass[j],
            forall|j: int| 0 <= j < t ==> #[trigger] config.max_square_for_glass[j] < i32::MAX,
        decreases 151 - t,
    {
        if config.max_glass[t] < i32::MIN + 256 || config.max_square_for_glass[t] == i32::MAX {
            return false;
        }
        t += 1;
    }
    assert(skyline_ok(p@, size as int));
    assert(tables_ok(*config));
    plate_id >= 1 && plate_id < n - 1 && p[plate_id - 1].height > p[plate_id].height
        && p[plate_id + 1].height > p[plate_id].height
}

/// Searches on from plate `plate_id` when the configuration is ready for it, and returns whether
/// it did; otherwise the configuration is left unchanged.
pub fn try_decompose(config: &mut Config, plate_id: usize) -> (ran: bool)
    ensures
        ran == (search_ready(*old(config)) && delimited(old(config).plates@, plate_id as int)),
        ran ==> restored(*final(config), *old(config)),
        ran ==> added(
            *final(config),
            *old(config),
            decompose_outcome(search_of(*old(config)), plate_id as int),
        ),
        ran && tiling_accounted(*old(config)) ==> accounted_since(*final(config), *old(config)),
        !ran ==> *final(config) == *old(config),
{
    if ready_to_decompose(config, plate_id) {
        decompose(config, plate_id);
        true
    } else {
        false
    }
}

} // verus!
