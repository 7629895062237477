//! Placing the children of a view: each gets a slice of the parent along
//! the split direction, one after the other, and the whole parent across
//! it; they are then drawn by descending compose priority, the first
//! child first among equals.

use vstd::prelude::*;

verus! {

/// The sum of the first `i` sizes.
pub open spec fn size_prefix(sizes: Seq<usize>, i: int) -> int
    decreases i,
{
    if i <= 0 {
        0
    } else {
        size_prefix(sizes, i - 1) + sizes[i - 1]
    }
}

/// Where the child `i` goes: (its index, x, y, width, height). Stacked
/// vertically, it starts below the children before it and takes the whole
/// width; otherwise it starts right of them and takes the whole height.
pub open spec fn child_place(sizes: Seq<usize>, vertical: bool, width: usize, height: usize, i: int) -> (
    usize,
    usize,
    usize,
    usize,
    usize,
) {
    let p = size_prefix(sizes, i) as usize;
    if vertical {
        (i as usize, 0, p, width, sizes[i])
    } else {
        (i as usize, p, 0, sizes[i], height)
    }
}

/// Child `a` is drawn before child `b`: a greater priority, or the same
/// and an earlier child.
pub open spec fn drawn_before(priority: Seq<usize>, a: int, b: int) -> bool {
    priority[a] > priority[b] || (priority[a] == priority[b] && a < b)
}

proof fn lemma_prefix_nonneg(sizes: Seq<usize>, i: int)
    ensures
        0 <= size_prefix(sizes, i),
    decreases i,
{
    if i > 0 {
        lemma_prefix_nonneg(sizes, i - 1);
    }
}

proof fn lemma_prefix_grows(sizes: Seq<usize>, i: int, j: int)
    requires
        0 <= i <= j <= sizes.len(),
    ensures
        0 <= size_prefix(sizes, i) <= size_prefix(sizes, j),
    decreases j - i,
{
    lemma_prefix_nonneg(sizes, i);
    if i < j {
        lemma_prefix_grows(sizes, i, j - 1);
    }
}

/// The places of the children, sized `sizes` along the split direction
/// (see `child_place`), in the order they are drawn (see `drawn_before`):
/// every child once, by descending priority, the earlier child first among
/// equal priorities.
pub fn place_children(
    sizes: &Vec<usize>,
    vertical: bool,
    width: usize,
    height: usize,
    priority: &Vec<usize>,
) -> (r: Vec<(usize, usize, usize, usize, usize)>)
    requires
        priority@.len() == sizes@.len(),
        size_prefix(sizes@, sizes@.len() as int) <= usize::MAX,
    ensures
        r@.len() == sizes@.len(),
        forall|k: int| 0 <= k < r@.len() ==> (#[trigger] r@[k]).0 < sizes@.len(),
        forall|k: int|
            0 <= k < r@.len() ==> #[trigger] r@[k] == child_place(sizes@, vertical, width, height, r@[k].0 as int),
        forall|a: int, b: int|
            0 <= a < b < r@.len() ==> drawn_before(priority@, (#[trigger] r@[a]).0 as int, (#[trigger] r@[b]).0 as int),
{
    let n = sizes.len();
    let mut out: Vec<(usize, usize, usize, usize, usize)> = Vec::new();
    let mut acc: usize = 0;
    let mut i: usize = 0;
    while i < n
        invariant
            n == sizes@.len(),
            priority@.len() == n,
            size_prefix(sizes@, n as int) <= usize::MAX,
            0 <= i <= n,
            acc == size_prefix(sizes@, i as int),
            out@.len() == i,
            forall|k: int| 0 <= k < out@.len() ==> (#[trigger] out@[k]).0 < i,
            forall|k: int|
                0 <= k < out@.len() ==> #[trigger] out@[k] == child_place(sizes@, vertical, width, height, out@[k].0 as int),
            forall|a: int, b: int|
                0 <= a < b < out@.len() ==> drawn_before(priority@, (#[trigger] out@[a]).0 as int, (#[trigger] out@[b]).0 as int),
        decreases n - i,
    {
        proof {
            lemma_prefix_grows(sizes@, i + 1, n as int);
        }
        let place = if vertical {
            (i, 0, acc, width, sizes[i])
        } else {
            (i, acc, 0, sizes[i], height)
        };
        let pi = priority[i];
        let mut p: usize = 0;
        while p < out.len() && priority[out[p].0] >= pi
            invariant
                0 <= p <= out@.len(),
                priority@.len() == n,
                pi == priority@[i as int],
                forall|k: int| 0 <= k < out@.len() ==> (#[trigger] out@[k]).0 < i,
                i < n,
                forall|k: int| 0 <= k < p ==> priority@[(#[trigger] out@[k]).0 as int] >= pi,
            decreases out@.len() - p,
        {
            p = p + 1;
        }
        let ghost before = out@;
        out.insert(p, place);
        proof {
            assert(place == child_place(sizes@, vertical, width, height, i as int));
            assert forall|k: int| 0 <= k < out@.len() implies (#[trigger] out@[k]).0 < i + 1 by {
                if k < p {
                    assert(out@[k] == before[k]);
                } else if k > p {
                    assert(out@[k] == before[k - 1]);
                }
            }
            assert forall|k: int|
                0 <= k < out@.len() implies #[trigger] out@[k] == child_place(
                    sizes@,
                    vertical,
                    width,
                    height,
                    out@[k].0 as int,
                ) by {
                if k < p {
                    assert(out@[k] == before[k]);
                } else if k > p {
                    assert(out@[k] == before[k - 1]);
                }
            }
            assert forall|a: int, b: int|
                0 <= a < b < out@.len() implies drawn_before(
                    priority@,
                    (#[trigger] out@[a]).0 as int,
                    (#[trigger] out@[b]).0 as int,
                ) by {
                if b < p {
                    assert(out@[a] == before[a] && out@[b] == before[b]);
                } else if b == p {
                    assert(out@[a] == before[a]);
                    assert(priority@[before[a].0 as int] >= pi);
                } else if a < p {
                    assert(out@[a] == before[a] && out@[b] == before[b - 1]);
                } else if a == p {
                    assert(out@[b] == before[b - 1]);
                    if b - 1 >= p {
                        assert(!(priority@[before[p as int].0 as int] >= pi) || p >= before.len());
                        if b - 1 > p {
                            assert(drawn_before(priority@, before[p as int].0 as int, before[b - 1].0 as int));
                        }
                    }
                } else {
                    assert(out@[a] == before[a - 1] && out@[b] == before[b - 1]);
                }
            }
        }
        acc = acc + sizes[i];
        i = i + 1;
    }
    out
}

} // verus!
