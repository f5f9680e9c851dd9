//! Values of polynomials away from the points they are given on: at a
//! single point, and on a whole domain (the low-degree extension).

use vstd::prelude::*;
use crate::complex::Complex;
use crate::domain::CircleDomain;
use crate::extension::M31Algebra;
use crate::field::{Field, Ring};
use crate::matrix::{column_spec, from_rows, MatrixView, RowMajorMatrix};
use crate::mersenne31::M31;

verus! {

/// The sum over the first `n` rows of `weights[i]` times the entry of a
/// column over the base field, taken from the first row on.
pub open spec fn ext_weighted_sum_spec<EF: M31Algebra>(weights: Seq<EF>, column: Seq<M31>, n: nat) -> EF
    decreases n,
{
    if n == 0 {
        EF::zero_spec()
    } else {
        ext_weighted_sum_spec(weights, column, (n - 1) as nat).plus_spec(
            weights[n - 1].times_spec(EF::embed_spec(column[n - 1])),
        )
    }
}

/// The Lagrange basis of `domain` at `point`, as a sequence.
pub open spec fn basis_seq_spec<EF: M31Algebra>(domain: CircleDomain, point: Complex<EF>) -> Seq<EF> {
    Seq::new(domain.size_spec(), |i: int| domain.basis_spec(point, i as nat))
}

/// The value at `point` of the polynomial whose values on `domain` are
/// column `c` of `mat`: the column weighted by the Lagrange basis, times the
/// polynomial that vanishes on the domain.
#[verifier::opaque]
pub open spec fn interpolate_spec<EF: M31Algebra>(
    domain: CircleDomain,
    mat: MatrixView<M31>,
    point: Complex<EF>,
    c: int,
) -> EF {
    ext_weighted_sum_spec(basis_seq_spec(domain, point), column_spec(mat, c), mat.height_spec())
        .times_spec(domain.vanishing_spec(point))
}

/// The values at `point` of the polynomials whose values on `domain` are
/// the columns of `mat`; `None` where the Lagrange basis is not defined.
pub fn open_mat_at_point<EF: M31Algebra>(
    domain: CircleDomain,
    mat: &RowMajorMatrix<M31>,
    point: Complex<EF>,
) -> (r: Option<Vec<EF>>)
    requires
        domain.wf(),
        domain.log_n >= 1,
        mat.wf(),
        mat.height_spec() == domain.size_spec(),
    ensures
        r is Some <==> domain.basis_defined_spec(point),
        r matches Some(v) ==> v@.len() == mat.width && forall|c: int|
            0 <= c < mat.width ==> #[trigger] v@[c] == interpolate_spec(domain, mat@, point, c),
{
    reveal(interpolate_spec);
    let basis = match domain.lagrange_basis(point) {
        None => {
            return None;
        },
        Some(b) => b,
    };
    proof {
        assert(basis@ =~= basis_seq_spec(domain, point));
    }
    let vanishing = domain.vanishing(point);
    let h = mat.height();
    let mut out: Vec<EF> = Vec::new();
    let mut c: usize = 0;
    while c < mat.width
        invariant
            mat.wf(),
            h == mat.height_spec(),
            basis@ == basis_seq_spec(domain, point),
            basis@.len() == h,
            vanishing == domain.vanishing_spec(point),
            c <= mat.width,
            out@.len() == c,
            forall|k: int| 0 <= k < c ==> #[trigger] out@[k] == interpolate_spec(domain, mat@, point, k),
        decreases mat.width - c,
    {
        proof {
            reveal(interpolate_spec);
        }
        let mut acc = EF::zero();
        let mut i: usize = 0;
        while i < h
            invariant
                mat.wf(),
                h == mat.height_spec(),
                basis@.len() == h,
                c < mat.width,
                i <= h,
                acc == ext_weighted_sum_spec(basis@, column_spec(mat@, c as int), i as nat),
            decreases h - i,
        {
            acc = acc.plus(basis[i].times(EF::embed(mat.get(i, c))));
            i += 1;
        }
        out.push(acc.times(vanishing));
        c += 1;
    }
    Some(out)
}

/// The transform that carries values from one domain to another.
#[derive(Clone, Copy, Default, Debug)]
pub struct Cfft;

/// Whether the low-degree extension from `source` onto `target` is
/// defined: the two are the same domain, or the Lagrange basis of the
/// first is defined at every point of the second.
pub open spec fn lde_defined(source: CircleDomain, target: CircleDomain) -> bool {
    same_domain(source, target) || forall|j: nat|
        j < target.size_spec() ==> #[trigger] source.basis_defined_spec(target.point_spec(j))
}

/// Whether two domains have the same size and the same shift.
pub open spec fn same_domain(a: CircleDomain, b: CircleDomain) -> bool {
    a.log_n == b.log_n && a.shift.re.canon() == b.shift.re.canon() && a.shift.im.canon()
        == b.shift.im.canon()
}

impl Cfft {
    /// The values on `target` of the polynomials whose values on `source`
    /// are the columns of `evals`.
    pub fn lde(&self, evals: &RowMajorMatrix<M31>, source: CircleDomain, target: CircleDomain) -> (r:
        Option<RowMajorMatrix<M31>>)
        requires
            source.wf(),
            target.wf(),
            source.log_n >= 1,
            evals.wf(),
            evals.height_spec() == source.size_spec(),
            target.size_spec() * evals.width <= usize::MAX,
        ensures
            r is Some <==> lde_defined(source, target),
            r matches Some(m) ==> {
                &&& m.width == evals.width
                &&& m.wf()
                &&& m.height_spec() == target.size_spec()
                &&& same_domain(source, target) ==> m.values@ == evals.values@
                &&& !same_domain(source, target) ==> forall|j: int, c: int|
                    0 <= j < target.size_spec() && 0 <= c < evals.width ==> #[trigger] m.entry(j, c)
                        == interpolate_spec(source, evals@, target.point_spec(j as nat), c)
            },
    {
        proof {
            vstd::arithmetic::power2::lemma_pow2_pos(source.log_n as nat);
            evals.lemma_entry_in_bounds(0, 0);
        }
        if source.same(&target) {
            return Some(RowMajorMatrix { values: crate::util::copy_vec(&evals.values), width: evals.width });
        }
        let points = target.points();
        let mut rows: Vec<Vec<M31>> = Vec::new();
        let mut j: usize = 0;
        while j < points.len()
            invariant
                source.wf(),
                source.log_n >= 1,
                evals.wf(),
                evals.height_spec() == source.size_spec(),
                points@ == target.points_spec(),
                !same_domain(source, target),
                j <= points@.len(),
                rows@.len() == j,
                forall|k: nat|
                    k < j ==> #[trigger] source.basis_defined_spec(target.point_spec(k)),
                forall|k: int| 0 <= k < j ==> (#[trigger] rows@[k])@.len() == evals.width,
                forall|k: int, c: int|
                    0 <= k < j && 0 <= c < evals.width ==> #[trigger] rows@[k]@[c] == interpolate_spec(
                        source,
                        evals@,
                        target.point_spec(k as nat),
                        c,
                    ),
            decreases points@.len() - j,
        {
            assert(points@[j as int] == target.point_spec(j as nat));
            match open_mat_at_point(source, evals, points[j]) {
                None => {
                    assert(!source.basis_defined_spec(target.point_spec(j as nat)));
                    return None;
                },
                Some(row) => {
                    rows.push(row);
                },
            }
            j += 1;
        }
        Some(from_rows(&rows, evals.width))
    }
}

} // verus!
