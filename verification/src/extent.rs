//! The axis-aligned extent of a stroke set.

use vstd::prelude::*;
use crate::config::RasterError;
use crate::sample::PointSample;

verus! {

/// The smallest axis-aligned box around a stroke set, in device units.
#[derive(Clone, Copy, Debug, PartialEq, Eq, Structural)]
pub struct BoundingBox {
    pub min_x: i32,
    pub min_y: i32,
    pub max_x: i32,
    pub max_y: i32,
}

impl BoundingBox {
    /// The box is wider than zero; it may be flat.
    pub open spec fn wf(&self) -> bool {
        self.min_x < self.max_x && self.min_y <= self.max_y
    }

    /// The width of the box.
    pub open spec fn x_extent(&self) -> int {
        self.max_x - self.min_x
    }

    /// The height of the box.
    pub open spec fn y_extent(&self) -> int {
        self.max_y - self.min_y
    }
}

/// Whether `b` is the extent of `samples`: every sample lies in it, and each
/// of its four sides passes through a sample. Stroke membership plays no
/// part.
pub open spec fn is_extent(b: BoundingBox, samples: Seq<PointSample>) -> bool {
    &&& forall|i: int|
        0 <= i < samples.len() ==> b.min_x <= (#[trigger] samples[i]).x <= b.max_x && b.min_y
            <= samples[i].y <= b.max_y
    &&& exists|i: int| 0 <= i < samples.len() && (#[trigger] samples[i]).x == b.min_x
    &&& exists|i: int| 0 <= i < samples.len() && (#[trigger] samples[i]).x == b.max_x
    &&& exists|i: int| 0 <= i < samples.len() && (#[trigger] samples[i]).y == b.min_y
    &&& exists|i: int| 0 <= i < samples.len() && (#[trigger] samples[i]).y == b.max_y
}

/// Whether a stroke set cannot be rasterized: it has fewer than two samples,
/// or no horizontal spread.
pub open spec fn is_degenerate(samples: Seq<PointSample>) -> bool {
    samples.len() < 2 || forall|i: int, j: int|
        0 <= i < samples.len() && 0 <= j < samples.len() ==> (#[trigger] samples[i]).x
            == (#[trigger] samples[j]).x
}

/// The extent of a stroke set that has one.
pub open spec fn extent_of(samples: Seq<PointSample>) -> BoundingBox {
    choose|b: BoundingBox| is_extent(b, samples)
}

/// A stroke set has at most one extent.
pub proof fn lemma_extent_unique(a: BoundingBox, b: BoundingBox, samples: Seq<PointSample>)
    requires
        is_extent(a, samples),
        is_extent(b, samples),
    ensures
        a == b,
        a == extent_of(samples),
{
}

/// An extent widened to take in one more sample.
pub open spec fn grown(e: BoundingBox, p: PointSample) -> BoundingBox {
    BoundingBox {
        min_x: if p.x < e.min_x { p.x } else { e.min_x },
        min_y: if p.y < e.min_y { p.y } else { e.min_y },
        max_x: if p.x > e.max_x { p.x } else { e.max_x },
        max_y: if p.y > e.max_y { p.y } else { e.max_y },
    }
}

/// The extent of a stroke set with one more sample is the extent of the
/// stroke set, widened to take the sample in.
pub proof fn lemma_extent_grows(e: BoundingBox, seen: Seq<PointSample>, p: PointSample)
    requires
        is_extent(e, seen),
    ensures
        is_extent(grown(e, p), seen.push(p)),
{
    let next = seen.push(p);
    let b = grown(e, p);
    assert(next[seen.len() as int] == p);
    assert forall|i: int| 0 <= i < seen.len() implies seen[i] == #[trigger] next[i] by {}
    let i0 = choose|i: int| 0 <= i < seen.len() && (#[trigger] seen[i]).x == e.min_x;
    let i1 = choose|i: int| 0 <= i < seen.len() && (#[trigger] seen[i]).x == e.max_x;
    let i2 = choose|i: int| 0 <= i < seen.len() && (#[trigger] seen[i]).y == e.min_y;
    let i3 = choose|i: int| 0 <= i < seen.len() && (#[trigger] seen[i]).y == e.max_y;
    assert(next[i0] == seen[i0] && next[i1] == seen[i1] && next[i2] == seen[i2] && next[i3]
        == seen[i3]);
    assert forall|i: int| 0 <= i < next.len() implies b.min_x <= (#[trigger] next[i]).x <= b.max_x
        && b.min_y <= next[i].y <= b.max_y by {
        if i < seen.len() {
            assert(seen[i] == next[i]);
        }
    }
}

/// A stroke set with a sample has an extent.
pub proof fn lemma_extent_exists(samples: Seq<PointSample>)
    requires
        samples.len() >= 1,
    ensures
        is_extent(extent_of(samples), samples),
    decreases samples.len(),
{
    if samples.len() == 1 {
        let p = samples[0];
        let b = BoundingBox { min_x: p.x, min_y: p.y, max_x: p.x, max_y: p.y };
        assert(is_extent(b, samples));
    } else {
        let seen = samples.drop_last();
        lemma_extent_exists(seen);
        lemma_extent_grows(extent_of(seen), seen, samples.last());
        assert(seen.push(samples.last()) =~= samples);
    }
}

/// The extent of a stroke set that is not degenerate is wider than zero.
pub proof fn lemma_extent_wf(b: BoundingBox, samples: Seq<PointSample>)
    requires
        is_extent(b, samples),
    ensures
        b.min_x <= b.max_x,
        b.min_y <= b.max_y,
        b.wf() <==> !is_degenerate(samples),
{
    if b.min_x < b.max_x {
        let i = choose|i: int| 0 <= i < samples.len() && (#[trigger] samples[i]).x == b.min_x;
        let j = choose|j: int| 0 <= j < samples.len() && (#[trigger] samples[j]).x == b.max_x;
        assert(samples[i].x != samples[j].x);
    }
}

/// Scans all samples for their extent. Fails on a degenerate stroke set.
pub fn bounding_box(samples: &[PointSample]) -> (r: Result<BoundingBox, RasterError>)
    ensures
        r.is_ok() <==> !is_degenerate(samples@),
        r.is_ok() ==> is_extent(r.unwrap(), samples@) && r.unwrap().wf() && r.unwrap()
            == extent_of(samples@),
        r.is_err() ==> r.unwrap_err() == RasterError::DegenerateInput,
{
    let n: usize = samples.len();
    if n < 2 {
        return Err(RasterError::DegenerateInput);
    }
    let first: PointSample = samples[0];
    let mut b = BoundingBox { min_x: first.x, min_y: first.y, max_x: first.x, max_y: first.y };
    let mut k: usize = 1;
    assert(samples@.take(1)[0] == first);
    while k < n
        invariant
            1 <= k <= n,
            n == samples@.len(),
            is_extent(b, samples@.take(k as int)),
        decreases n - k,
    {
        let p: PointSample = samples[k];
        let ghost before = b;
        if p.x < b.min_x {
            b.min_x = p.x;
        }
        if p.x > b.max_x {
            b.max_x = p.x;
        }
        if p.y < b.min_y {
            b.min_y = p.y;
        }
        if p.y > b.max_y {
            b.max_y = p.y;
        }
        proof {
            lemma_extent_grows(before, samples@.take(k as int), p);
            assert(samples@.take(k as int).push(p) =~= samples@.take(k + 1));
            assert(b == grown(before, p));
        }
        k = k + 1;
    }
    proof {
        assert(samples@.take(n as int) =~= samples@);
        lemma_extent_wf(b, samples@);
        lemma_extent_unique(b, b, samples@);
    }
    if b.min_x == b.max_x {
        Err(RasterError::DegenerateInput)
    } else {
        Ok(b)
    }
}

} // verus!
