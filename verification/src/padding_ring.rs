//! The one-cell padding ring of a `w × d` height buffer (row-major, `x`
//! fastest). Erosion only rewrites the interior; the ring is saved before and
//! restored after local passes so that neighbouring chunks keep matching
//! borders.

use vstd::prelude::*;

verus! {

/// Whether cell `i` of a `w × d` buffer lies on its border.
pub open spec fn on_ring(i: int, w: int, d: int) -> bool {
    &&& 0 <= i < w * d
    &&& (i / w == 0 || i / w == d - 1 || i % w == 0 || i % w == w - 1)
}

/// Index of the `k`-th ring entry saved for a `w × d` buffer: the top and
/// bottom cells of each column first (two by two), then the left and right
/// cells of each inner row.
pub open spec fn ring_index(k: int, w: int, d: int) -> int {
    if k < 2 * w {
        if k % 2 == 0 { k / 2 } else { k / 2 + w * (d - 1) }
    } else {
        let z = (k - 2 * w) / 2 + 1;
        if (k - 2 * w) % 2 == 0 { w * z } else { w - 1 + w * z }
    }
}

/// Number of entries saved for a `w × d` buffer.
pub open spec fn ring_len(w: int, d: int) -> int {
    2 * w + if d >= 2 { 2 * (d - 2) } else { 0 }
}

/// The buffer after writing back `ring`, entry by entry (a later entry for the
/// same cell wins).
pub open spec fn restored<T>(h: Seq<T>, ring: Seq<(usize, T)>) -> Seq<T>
    decreases ring.len(),
{
    if ring.len() == 0 {
        h
    } else {
        restored(h, ring.drop_last()).update(ring.last().0 as int, ring.last().1)
    }
}

proof fn lemma_ring_index_bounds(k: int, w: int, d: int)
    requires
        w >= 1,
        d >= 1,
        0 <= k < ring_len(w, d),
    ensures
        on_ring(ring_index(k, w, d), w, d),
{
    assert(w <= w * d) by (nonlinear_arith)
        requires w >= 1, d >= 1;
    if k < 2 * w {
        let x = k / 2;
        assert(0 <= x < w);
        if k % 2 == 0 {
            assert(ring_index(k, w, d) == x);
            vstd::arithmetic::div_mod::lemma_fundamental_div_mod_converse(x, w, 0, x);
            assert(x / w == 0);
        } else {
            let i = x + w * (d - 1);
            assert(ring_index(k, w, d) == i);
            assert(i == (d - 1) * w + x) by (nonlinear_arith)
                requires i == x + w * (d - 1);
            vstd::arithmetic::div_mod::lemma_fundamental_div_mod_converse(i, w, d - 1, x);
            assert(i / w == d - 1);
            assert(i < w * d) by (nonlinear_arith)
                requires 0 <= x < w, d >= 1, i == x + w * (d - 1);
            assert(0 <= i) by (nonlinear_arith)
                requires 0 <= x, w >= 1, d >= 1, i == x + w * (d - 1);
        }
    } else {
        let z = (k - 2 * w) / 2 + 1;
        assert(d >= 3);
        assert(1 <= z < d - 1);
        if (k - 2 * w) % 2 == 0 {
            let i = w * z;
            assert(ring_index(k, w, d) == i);
            assert(i == z * w + 0) by (nonlinear_arith)
                requires i == w * z;
            vstd::arithmetic::div_mod::lemma_fundamental_div_mod_converse(i, w, z, 0);
            assert(i % w == 0);
            assert(0 <= i < w * d) by (nonlinear_arith)
                requires w >= 1, 1 <= z < d, i == w * z;
        } else {
            let i = w - 1 + w * z;
            assert(ring_index(k, w, d) == i);
            assert(i == z * w + (w - 1)) by (nonlinear_arith)
                requires i == w - 1 + w * z;
            vstd::arithmetic::div_mod::lemma_fundamental_div_mod_converse(i, w, z, w - 1);
            assert(i % w == w - 1);
            assert(0 <= i < w * d) by (nonlinear_arith)
                requires w >= 1, 1 <= z < d - 1, i == w - 1 + w * z;
        }
    }
}

/// Restoring keeps the buffer's length.
proof fn lemma_restored_len<T>(h: Seq<T>, ring: Seq<(usize, T)>)
    requires
        forall|k: int| 0 <= k < ring.len() ==> (#[trigger] ring[k]).0 < h.len(),
    ensures
        restored(h, ring).len() == h.len(),
    decreases ring.len(),
{
    if ring.len() > 0 {
        let r = ring.drop_last();
        assert forall|k: int| 0 <= k < r.len() implies (#[trigger] r[k]).0 < h.len() by {
            assert(r[k] == ring[k]);
        }
        lemma_restored_len(h, r);
        assert(ring[ring.len() - 1].0 < h.len());
    }
}

/// Saves the border cells of a `w × d` buffer with their indices, in the order
/// of [`ring_index`].
pub fn save_padding_ring<T: Copy>(heights: &[T], w: usize, d: usize) -> (ring: Vec<(usize, T)>)
    requires
        d >= 1,
        w >= 1 || d <= 2,
        w * d <= heights@.len(),
    ensures
        ring@.len() == ring_len(w as int, d as int),
        forall|k: int| 0 <= k < ring@.len() ==> (#[trigger] ring@[k]).0 == ring_index(k, w as int, d as int)
            && ring@[k].1 == heights@[ring@[k].0 as int],
        w >= 1 ==> forall|k: int| 0 <= k < ring@.len() ==> on_ring(#[trigger] ring@[k].0 as int, w as int, d as int),
{
    let n: usize = heights.len();
    assert(w * d <= n);
    let mut ring: Vec<(usize, T)> = Vec::new();
    let mut x: usize = 0;
    while x < w
        invariant
            d >= 1,
            w * d <= heights@.len(),
            heights@.len() == n,
            x <= w,
            ring@.len() == 2 * x,
            forall|k: int| 0 <= k < ring@.len() ==> (#[trigger] ring@[k]).0 == ring_index(k, w as int, d as int)
                && ring@[k].1 == heights@[ring@[k].0 as int],
        decreases w - x,
    {
        proof {
            assert(x + w * (d - 1) < w * d) by (nonlinear_arith)
                requires x < w, d >= 1;
            assert(0 <= w * (d - 1)) by (nonlinear_arith)
                requires d >= 1;
        }
        let bottom: usize = x + w * (d - 1);
        ring.push((x, heights[x]));
        ring.push((bottom, heights[bottom]));
        proof {
            let k0 = 2 * x as int;
            assert(k0 % 2 == 0 && k0 / 2 == x as int);
            assert((k0 + 1) % 2 == 1 && (k0 + 1) / 2 == x as int);
        }
        x += 1;
    }
    if d >= 2 {
        let mut z: usize = 1;
        while z < d - 1
            invariant
                d >= 2,
                w >= 1 || d <= 2,
                w * d <= heights@.len(),
                heights@.len() == n,
                1 <= z <= d - 1,
                ring@.len() == 2 * w + 2 * (z - 1),
                forall|k: int| 0 <= k < ring@.len() ==> (#[trigger] ring@[k]).0 == ring_index(k, w as int, d as int)
                    && ring@[k].1 == heights@[ring@[k].0 as int],
            decreases d - 1 - z,
        {
            proof {
                assert(w >= 1);
                assert(w - 1 + w * z < w * d) by (nonlinear_arith)
                    requires w >= 1, z < d - 1;
                assert(0 <= w * z) by (nonlinear_arith)
                    requires w >= 1, z >= 1;
            }
            let left: usize = w * z;
            let right: usize = w - 1 + w * z;
            ring.push((left, heights[left]));
            ring.push((right, heights[right]));
            proof {
                let k0 = 2 * w + 2 * (z - 1);
                assert(k0 >= 2 * w);
                assert((k0 - 2 * w) % 2 == 0 && (k0 - 2 * w) / 2 + 1 == z as int);
                assert((k0 + 1 - 2 * w) % 2 == 1 && (k0 + 1 - 2 * w) / 2 + 1 == z as int);
            }
            z += 1;
        }
    }
    proof {
        if w >= 1 {
            assert forall|k: int| 0 <= k < ring@.len() implies on_ring(#[trigger] ring@[k].0 as int, w as int, d as int) by {
                lemma_ring_index_bounds(k, w as int, d as int);
            }
        }
    }
    ring
}

/// Writes the saved cells back into the buffer (`w` and `d` are not needed:
/// each entry carries its index).
pub fn restore_padding_ring<T: Copy>(heights: &mut [T], w: usize, d: usize, ring: &[(usize, T)])
    requires
        forall|k: int| 0 <= k < ring@.len() ==> (#[trigger] ring@[k]).0 < old(heights)@.len(),
    ensures
        final(heights)@ == restored(old(heights)@, ring@),
{
    let ghost h0 = heights@;
    let mut i: usize = 0;
    while i < ring.len()
        invariant
            i <= ring@.len(),
            h0.len() == old(heights)@.len(),
            h0 == old(heights)@,
            forall|k: int| 0 <= k < ring@.len() ==> (#[trigger] ring@[k]).0 < h0.len(),
            heights@ == restored(h0, ring@.take(i as int)),
            heights@.len() == h0.len(),
        decreases ring@.len() - i,
    {
        let (idx, val) = ring[i];
        proof {
            assert(ring@.take(i as int + 1).drop_last() =~= ring@.take(i as int));
            assert(ring@.take(i as int + 1).last() == ring@[i as int]);
        }
        heights[idx] = val;
        i += 1;
    }
    proof {
        assert(ring@.take(ring@.len() as int) =~= ring@);
    }
}

/// After the ring is restored, each cell that a ring entry names holds the
/// value of its last entry, and every other cell keeps its value.
pub proof fn lemma_restored_cells<T>(h: Seq<T>, ring: Seq<(usize, T)>, i: int)
    requires
        forall|k: int| 0 <= k < ring.len() ==> (#[trigger] ring[k]).0 < h.len(),
        0 <= i < h.len(),
    ensures
        restored(h, ring).len() == h.len(),
        (forall|k: int| 0 <= k < ring.len() ==> (#[trigger] ring[k]).0 != i) ==> restored(h, ring)[i] == h[i],
        forall|k: int|
            0 <= k < ring.len() && ring[k].0 == i && (forall|m: int| k < m < ring.len() ==> (#[trigger] ring[m]).0 != i)
                ==> #[trigger] restored(h, ring)[i] == ring[k].1,
    decreases ring.len(),
{
    if ring.len() > 0 {
        let r = ring.drop_last();
        assert forall|k: int| 0 <= k < r.len() implies (#[trigger] r[k]).0 < h.len() by {
            assert(r[k] == ring[k]);
        }
        lemma_restored_cells(h, r, i);
        let last = ring.last();
        if last.0 as int != i {
            assert forall|k: int|
                0 <= k < ring.len() && ring[k].0 == i && (forall|m: int| k < m < ring.len() ==> (#[trigger] ring[m]).0 != i)
                    implies #[trigger] restored(h, ring)[i] == ring[k].1 by {
                assert(k < ring.len() - 1);
                assert(r[k] == ring[k]);
                assert forall|m: int| k < m < r.len() implies (#[trigger] r[m]).0 != i by {
                    assert(r[m] == ring[m]);
                }
            }
            if forall|k: int| 0 <= k < ring.len() ==> (#[trigger] ring[k]).0 != i {
                assert forall|k: int| 0 <= k < r.len() implies (#[trigger] r[k]).0 != i by {
                    assert(r[k] == ring[k]);
                }
            }
        } else {
            assert forall|k: int|
                0 <= k < ring.len() && ring[k].0 == i && (forall|m: int| k < m < ring.len() ==> (#[trigger] ring[m]).0 != i)
                    implies #[trigger] restored(h, ring)[i] == ring[k].1 by {
                if k < ring.len() - 1 {
                    assert(ring[ring.len() - 1].0 != i);
                }
            }
            assert(ring[ring.len() - 1].0 == i);
        }
    }
}

/// Saving the ring of one buffer and restoring it into another of the same
/// shape gives the first buffer's border and the second buffer's interior.
pub proof fn lemma_ring_round_trip<T>(before: Seq<T>, after: Seq<T>, ring: Seq<(usize, T)>, w: int, d: int)
    requires
        w >= 1,
        d >= 1,
        before.len() == w * d,
        after.len() == w * d,
        ring.len() == ring_len(w, d),
        forall|k: int| 0 <= k < ring.len() ==> (#[trigger] ring[k]).0 == ring_index(k, w, d)
            && ring[k].1 == before[ring[k].0 as int],
    ensures
        restored(after, ring).len() == w * d,
        forall|i: int| 0 <= i < w * d ==> #[trigger] restored(after, ring)[i] == if on_ring(i, w, d) {
            before[i]
        } else {
            after[i]
        },
{
    assert forall|k: int| 0 <= k < ring.len() implies (#[trigger] ring[k]).0 < after.len() by {
        lemma_ring_index_bounds(k, w, d);
    }
    lemma_restored_len(after, ring);
    assert forall|i: int| 0 <= i < w * d implies #[trigger] restored(after, ring)[i] == if on_ring(i, w, d) {
        before[i]
    } else {
        after[i]
    } by {
        lemma_restored_cells(after, ring, i);
        if on_ring(i, w, d) {
            let k = lemma_ring_covers(i, w, d);
            // Every entry naming cell `i` carries `before[i]`; take the last one.
            let last = lemma_last_entry(ring, i, k);
            assert(ring[last].1 == before[i]);
        } else {
            assert forall|k: int| 0 <= k < ring.len() implies (#[trigger] ring[k]).0 != i by {
                lemma_ring_index_bounds(k, w, d);
            }
        }
    }
}

/// Every border cell is named by some ring entry.
proof fn lemma_ring_covers(i: int, w: int, d: int) -> (k: int)
    requires
        w >= 1,
        d >= 1,
        on_ring(i, w, d),
    ensures
        0 <= k < ring_len(w, d),
        ring_index(k, w, d) == i,
{
    let x = i % w;
    let z = i / w;
    vstd::arithmetic::div_mod::lemma_fundamental_div_mod(i, w);
    assert(0 <= x < w);
    assert(i == w * z + x);
    assert(0 <= z < d) by (nonlinear_arith)
        requires i == w * z + x, 0 <= x < w, 0 <= i < w * d, w >= 1;
    if z == 0 {
        let k = 2 * x;
        assert(k % 2 == 0 && k / 2 == x);
        assert(i == x) by (nonlinear_arith)
            requires i == w * z + x, z == 0;
        k
    } else if z == d - 1 {
        let k = 2 * x + 1;
        assert(k % 2 == 1 && k / 2 == x);
        assert(ring_index(k, w, d) == x + w * (d - 1));
        k
    } else if x == 0 {
        let k = 2 * w + 2 * (z - 1);
        assert((k - 2 * w) % 2 == 0 && (k - 2 * w) / 2 + 1 == z);
        assert(ring_index(k, w, d) == w * z);
        k
    } else {
        assert(x == w - 1);
        let k = 2 * w + 2 * (z - 1) + 1;
        assert((k - 2 * w) % 2 == 1 && (k - 2 * w) / 2 + 1 == z);
        assert(ring_index(k, w, d) == w - 1 + w * z);
        k
    }
}

/// The last entry naming cell `i`, given that entry `k` names it.
proof fn lemma_last_entry<T>(ring: Seq<(usize, T)>, i: int, k: int) -> (last: int)
    requires
        0 <= k < ring.len(),
        ring[k].0 == i,
    ensures
        k <= last < ring.len(),
        ring[last].0 == i,
        forall|m: int| last < m < ring.len() ==> (#[trigger] ring[m]).0 != i,
    decreases ring.len() - k,
{
    if exists|m: int| k < m < ring.len() && (#[trigger] ring[m]).0 == i {
        let m = choose|m: int| k < m < ring.len() && (#[trigger] ring[m]).0 == i;
        lemma_last_entry(ring, i, m)
    } else {
        k
    }
}

} // verus!
