//! Triangle mesh index assembly: fan triangulation of convex faces and
//! offsetting of index buffers when meshes are merged.
use vstd::prelude::*;

verus! {

/// The `t`-th triangle of the fan over a polygon: vertex 0 and the
/// consecutive vertices `t + 1`, `t + 2`.
pub open spec fn fan_triangle(t: int) -> Seq<int> {
    seq![0, t + 1, t + 2]
}

/// Fan triangulation of a convex polygon with `n` vertices: triangles
/// `[0, i, i + 1]` for `i` in `1..n - 1`; none when `n < 3`.
pub fn fan_triangles(n: usize) -> (tris: Vec<[usize; 3]>)
    ensures
        n < 3 ==> tris@.len() == 0,
        n >= 3 ==> tris@.len() == n - 2,
        forall|t: int| 0 <= t < tris@.len() ==> (#[trigger] tris@[t])@ == seq![0usize, (t + 1) as usize, (t + 2) as usize],
{
    let mut tris: Vec<[usize; 3]> = Vec::new();
    if n < 3 {
        return tris;
    }
    let mut i: usize = 1;
    while i < n - 1
        invariant
            n >= 3,
            1 <= i <= n - 1,
            tris@.len() == i - 1,
            forall|t: int| 0 <= t < tris@.len() ==> (#[trigger] tris@[t])@ == seq![0usize, (t + 1) as usize, (t + 2) as usize],
        decreases n - 1 - i,
    {
        let tri: [usize; 3] = [0, i, i + 1];
        assert(tri@ =~= seq![0usize, i, (i + 1) as usize]);
        tris.push(tri);
        i = i + 1;
    }
    tris
}

/// The indices of the fan over `n` vertices numbered from `base`, three per
/// triangle.
pub open spec fn fan_indices(base: int, n: int) -> Seq<int> {
    if n < 3 {
        Seq::empty()
    } else {
        Seq::new((3 * (n - 2)) as nat, |k: int| base + fan_triangle(k / 3)[k % 3])
    }
}

/// Append the fan-triangle indices of a face with `n` vertices whose first
/// vertex has index `base`.
pub fn append_fan_indices(indices: &mut Vec<u32>, base: u32, n: usize)
    requires
        base + n <= u32::MAX + 1,
        3 * n + old(indices)@.len() <= usize::MAX,
    ensures
        final(indices)@.len() == old(indices)@.len() + fan_indices(base as int, n as int).len(),
        final(indices)@.take(old(indices)@.len() as int) == old(indices)@,
        forall|k: int| 0 <= k < fan_indices(base as int, n as int).len() ==> final(indices)@[old(indices)@.len() + k]
            == #[trigger] fan_indices(base as int, n as int)[k],
{
    let ghost start = indices@.len();
    if n < 3 {
        assert(indices@.take(start as int) =~= indices@);
        return;
    }
    let mut i: usize = 1;
    while i < n - 1
        invariant
            n >= 3,
            base + n <= u32::MAX + 1,
            1 <= i <= n - 1,
            indices@.len() == start + 3 * (i - 1),
            indices@.take(start as int) == old(indices)@,
            start == old(indices)@.len(),
            forall|k: int| 0 <= k < 3 * (i - 1) ==> indices@[start + k] == #[trigger] fan_indices(base as int, n as int)[k],
        decreases n - 1 - i,
    {
        let ghost before = indices@;
        indices.push(base);
        indices.push(base + i as u32);
        indices.push(base + i as u32 + 1);
        proof {
            let f = fan_indices(base as int, n as int);
            let k0 = 3 * (i - 1);
            assert(f[k0] == base + fan_triangle(k0 / 3)[k0 % 3]);
            assert(k0 / 3 == i - 1) by (nonlinear_arith) requires k0 == 3 * (i - 1);
            assert(k0 % 3 == 0) by (nonlinear_arith) requires k0 == 3 * (i - 1);
            assert((k0 + 1) / 3 == i - 1) by (nonlinear_arith) requires k0 == 3 * (i - 1);
            assert((k0 + 1) % 3 == 1) by (nonlinear_arith) requires k0 == 3 * (i - 1);
            assert((k0 + 2) / 3 == i - 1) by (nonlinear_arith) requires k0 == 3 * (i - 1);
            assert((k0 + 2) % 3 == 2) by (nonlinear_arith) requires k0 == 3 * (i - 1);
            assert(f[k0 + 1] == base + fan_triangle(k0 / 3)[1]);
            assert(f[k0 + 2] == base + fan_triangle(k0 / 3)[2]);
            assert(indices@.take(start as int) =~= before.take(start as int));
            assert forall|k: int| 0 <= k < 3 * i implies indices@[start + k] == #[trigger] fan_indices(base as int, n as int)[k] by {
                if k < k0 {
                    assert(indices@[start + k] == before[start + k]);
                }
            }
        }
        i = i + 1;
    }
}

/// Append `src` to `dst`, each index raised by `base` (the number of
/// vertices already in the merged mesh).
pub fn append_offset_indices(dst: &mut Vec<u32>, src: &[u32], base: u32)
    requires
        forall|i: int| 0 <= i < src@.len() ==> src@[i] + base <= u32::MAX,
    ensures
        final(dst)@.len() == old(dst)@.len() + src@.len(),
        final(dst)@.take(old(dst)@.len() as int) == old(dst)@,
        forall|i: int| 0 <= i < src@.len() ==> final(dst)@[old(dst)@.len() + i] == #[trigger] src@[i] + base,
{
    let ghost start = dst@.len();
    let mut i: usize = 0;
    while i < src.len()
        invariant
            i <= src@.len(),
            forall|j: int| 0 <= j < src@.len() ==> src@[j] + base <= u32::MAX,
            dst@.len() == start + i,
            start == old(dst)@.len(),
            dst@.take(start as int) == old(dst)@,
            forall|j: int| 0 <= j < i ==> dst@[start + j] == #[trigger] src@[j] + base,
        decreases src@.len() - i,
    {
        let ghost before = dst@;
        dst.push(src[i] + base);
        assert(dst@.take(start as int) =~= before.take(start as int));
        assert forall|j: int| 0 <= j < i + 1 implies dst@[start + j] == #[trigger] src@[j] + base by {
            if j < i {
                assert(dst@[start + j] == before[start + j]);
            }
        }
        i = i + 1;
    }
}

} // verus!
