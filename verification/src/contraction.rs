//! Shape algebra of named-axis contraction: shared axes align, contracted axes are
//! summed away, and the remaining axes of both operands are kept.
use crate::axis::{self, Axis, Dim, DimView, Shape};
use crate::error::Error;
use crate::geometry;
use crate::text;
use vstd::prelude::*;
use vstd::string::StringExecFns;

verus! {

/// The first dimension of `l` whose axis `r` carries at another extent, as a message.
pub open spec fn extent_mismatch(l: Seq<DimView>, r: Seq<DimView>) -> Option<Seq<char>>
    decreases l.len(),
{
    if l.len() == 0 {
        None
    } else {
        match extent_mismatch(l.drop_last(), r) {
            Some(m) => Some(m),
            None => {
                let d = l.last();
                if axis::has_axis(r, d.0) && axis::axis_extent(r, d.0) != d.1 {
                    Some("extent mismatch for "@ + text::debug_text(d.0))
                } else {
                    None
                }
            },
        }
    }
}

/// Keep a right-operand dimension unless it is contracted or the left part already has it.
pub open spec fn right_rule(sel: Seq<Seq<char>>, kept: Seq<DimView>) -> spec_fn(DimView) -> Option<
    DimView,
> {
    |d: DimView|
        if sel.contains(d.0) || axis::has_axis(kept, d.0) {
            None
        } else {
            Some(d)
        }
}

/// The contracted dimensions, at the left operand's extents.
pub open spec fn reduction_dims(l: Seq<DimView>, sel: Seq<Seq<char>>) -> Seq<DimView> {
    sel.map_values(|a: Seq<char>| (a, axis::axis_extent(l, a)))
}

/// Contracting `l` with `r` over `sel`: the output dimensions (the left operand's remaining
/// dimensions, then the right operand's that are neither contracted nor already present) and
/// the contracted dimensions; or the first rejection.
pub open spec fn contraction_outcome(l: Seq<DimView>, r: Seq<DimView>, sel: Seq<Seq<char>>) -> Result<
    (Seq<DimView>, Seq<DimView>),
    Seq<char>,
> {
    match extent_mismatch(l, r) {
        Some(m) => Err(m),
        None => match axis::selection_error(l, sel) {
            Some(m) => Err(m),
            None => match axis::selection_error(r, sel) {
                Some(m) => Err(m),
                None => match axis::shape_outcome(reduction_dims(l, sel)) {
                    Err(m) => Err(m),
                    Ok(red) => {
                        let kept = geometry::rewrite(l, geometry::drop_names(sel));
                        match axis::shape_outcome(kept + geometry::rewrite(r, right_rule(sel, kept))) {
                            Err(m) => Err(m),
                            Ok(out) => Ok((out, red)),
                        }
                    },
                },
            },
        },
    }
}

proof fn lemma_mismatch_sticks(l: Seq<DimView>, r: Seq<DimView>, k: int)
    requires
        0 <= k <= l.len(),
        extent_mismatch(l.take(k), r) is Some,
    ensures
        extent_mismatch(l, r) == extent_mismatch(l.take(k), r),
    decreases l.len() - k,
{
    if k < l.len() {
        assert(l.take(k + 1).drop_last() =~= l.take(k));
        lemma_mismatch_sticks(l, r, k + 1);
    } else {
        assert(l.take(k) =~= l);
    }
}

/// The output and contracted shapes of a named-axis contraction.
#[derive(Debug)]
pub struct ContractionGeometry {
    pub shape: Shape,
    pub reduction: Shape,
}

/// The names of the axes of `v`, in order.
pub open spec fn axis_names(v: Seq<DimView>) -> Seq<Seq<char>> {
    v.map_values(|d: DimView| d.0)
}

/// Which axes of `v` a matrix-product factorization puts in one group: those not contracted,
/// and carried (`shared`) or not carried by the other operand `o`.
pub open spec fn group_of(sel: Seq<Seq<char>>, o: Seq<DimView>, shared: bool) -> spec_fn(
    Seq<char>,
) -> bool {
    |a: Seq<char>| !sel.contains(a) && axis::has_axis(o, a) == shared
}

/// The axes of `own` that are not contracted and are (`shared`) or are not carried by
/// `other`, in `own`'s order: the batch, left or right group of a matrix-product
/// factorization.
pub fn contraction_group(own: &Shape, other: &Shape, axes: &[Axis], shared: bool) -> (g: Vec<Axis>)
    ensures
        geometry::names(g@) == axis_names(own@).filter(
            group_of(geometry::names(axes@), other@, shared),
        ),
{
    let dims = own.dims();
    let ghost names = axis_names(own@);
    let ghost keep = group_of(geometry::names(axes@), other@, shared);
    let n = dims.len();
    let mut out: Vec<Axis> = Vec::new();
    let mut i: usize = 0;
    assert(names.take(0) =~= Seq::<Seq<char>>::empty());
    proof {
        reveal(Seq::filter);
    }
    while i < n
        invariant
            n == dims@.len(),
            axis::dims_view(dims@) == own@,
            names == axis_names(own@),
            keep == group_of(geometry::names(axes@), other@, shared),
            i <= n,
            geometry::names(out@) == names.take(i as int).filter(keep),
        decreases n - i,
    {
        let ghost t = names.take(i as int + 1);
        assert(t.drop_last() =~= names.take(i as int));
        assert(t.last() == dims@[i as int].axis@);
        let a = dims[i].axis;
        let ghost before = out@;
        proof {
            assert(t == names.take(i as int).push(t.last()));
            names.take(i as int).lemma_filter_push(t.last(), keep);
        }
        let contracted = match geometry::find_axis(axes, a) {
            Some(_) => true,
            None => false,
        };
        if !contracted && other.contains(a) == shared {
            out.push(a);
            assert(geometry::names(out@) =~= geometry::names(before).push(a@));
        }
        assert(geometry::names(out@) =~= t.filter(keep));
        i = i + 1;
    }
    assert(names.take(n as int) =~= names);
    out
}

/// Every axis both shapes carry has one extent; otherwise the first of `lhs`'s that differs.
pub fn check_shared_extents(lhs: &Shape, rhs: &Shape) -> (r: Result<(), Error>)
    ensures
        extent_mismatch(lhs@, rhs@) matches Some(m) ==> r is Err && r->Err_0@ == m,
        extent_mismatch(lhs@, rhs@) is None ==> r is Ok,
{
    let ghost l = lhs@;
    let ld = lhs.dims();
    let n = ld.len();
    let mut i: usize = 0;
    assert(l.take(0) =~= Seq::<DimView>::empty());
    while i < n
        invariant
            n == l.len(),
            l == lhs@,
            axis::dims_view(ld@) == l,
            i <= n,
            extent_mismatch(l.take(i as int), rhs@) is None,
        decreases n - i,
    {
        let d = ld[i];
        assert(d@ == l[i as int]);
        assert(l.take(i as int + 1).drop_last() =~= l.take(i as int));
        if rhs.contains(d.axis) {
            let e = match rhs.extent(d.axis) {
                Ok(e) => e,
                Err(_) => 0,
            };
            if e != d.extent {
                let mut m = String::from_str("extent mismatch for ");
                m.append(text::debug_quoted(d.axis.name()).as_str());
                proof {
                    lemma_mismatch_sticks(l, rhs@, i as int + 1);
                }
                return Err(Error::new(m));
            }
        }
        i = i + 1;
    }
    assert(l.take(n as int) =~= l);
    Ok(())
}

/// Contract `lhs` with `rhs` over `axes`: every axis both carry must agree in extent, and the
/// contracted axes must be present, distinct, in both.
pub fn contraction_geometry(lhs: &Shape, rhs: &Shape, axes: &[Axis]) -> (r: Result<
    ContractionGeometry,
    Error,
>)
    ensures
        contraction_outcome(lhs@, rhs@, geometry::names(axes@)) matches Ok((out, red)) ==> r is Ok
            && r->Ok_0.shape@ == out && r->Ok_0.reduction@ == red,
        contraction_outcome(lhs@, rhs@, geometry::names(axes@)) matches Err(m) ==> r is Err
            && r->Err_0@ == m,
{
    let ghost sel = geometry::names(axes@);
    let ghost l = lhs@;
    let ld = lhs.dims();
    let n = ld.len();
    check_shared_extents(lhs, rhs)?;
    lhs.select_axes(axes)?;
    rhs.select_axes(axes)?;
    let m = axes.len();
    let mut red: Vec<Dim> = Vec::new();
    let mut j: usize = 0;
    while j < m
        invariant
            m == axes@.len(),
            sel == geometry::names(axes@),
            axis::selection_error(l, sel) is None,
            l == lhs@,
            j <= m,
            axis::dims_view(red@) == reduction_dims(l, sel).take(j as int),
        decreases m - j,
    {
        proof {
            axis::lemma_selection_present(l, sel, j as int);
        }
        assert(sel[j as int] == axes@[j as int]@);
        let ghost before = axis::dims_view(red@);
        match lhs.extent(axes[j]) {
            Ok(e) => {
                red.push(axes[j].of(e));
                assert(reduction_dims(l, sel)[j as int] == (sel[j as int], e));
                assert(axis::dims_view(red@) =~= before.push((sel[j as int], e)));
                assert(reduction_dims(l, sel).take(j as int + 1) =~= reduction_dims(l, sel).take(
                    j as int,
                ).push(reduction_dims(l, sel)[j as int]));
            },
            Err(_) => {
                assert(false);
            },
        }
        assert(axis::dims_view(red@) =~= reduction_dims(l, sel).take(j as int + 1));
        j = j + 1;
    }
    assert(reduction_dims(l, sel).take(m as int) =~= reduction_dims(l, sel));
    let reduction = Shape::new(red)?;
    let ghost kf = geometry::drop_names(sel);
    let mut dims: Vec<Dim> = Vec::new();
    let mut i: usize = 0;
    assert(l.take(0) =~= Seq::<DimView>::empty());
    while i < n
        invariant
            n == l.len(),
            l == lhs@,
            axis::dims_view(ld@) == l,
            sel == geometry::names(axes@),
            kf == geometry::drop_names(sel),
            i <= n,
            axis::dims_view(dims@) == geometry::rewrite(l.take(i as int), kf),
        decreases n - i,
    {
        proof {
            geometry::lemma_rewrite_step(l, kf, i as int);
        }
        let d = ld[i];
        assert(d@ == l[i as int]);
        match geometry::find_axis(axes, d.axis) {
            Some(_) => {},
            None => {
                dims.push(d);
            },
        }
        assert(axis::dims_view(dims@) =~= geometry::rewrite(l.take(i as int + 1), kf));
        i = i + 1;
    }
    assert(l.take(n as int) =~= l);
    let ghost kept = axis::dims_view(dims@);
    let ghost rf = right_rule(sel, kept);
    let ghost rv = rhs@;
    let rd = rhs.dims();
    let rn = rd.len();
    let kept_len = dims.len();
    let mut right: Vec<Dim> = Vec::new();
    let mut i: usize = 0;
    assert(rv.take(0) =~= Seq::<DimView>::empty());
    while i < rn
        invariant
            rn == rv.len(),
            rv == rhs@,
            axis::dims_view(rd@) == rv,
            sel == geometry::names(axes@),
            kept == axis::dims_view(dims@),
            kept_len == dims@.len(),
            rf == right_rule(sel, kept),
            i <= rn,
            axis::dims_view(right@) == geometry::rewrite(rv.take(i as int), rf),
        decreases rn - i,
    {
        proof {
            geometry::lemma_rewrite_step(rv, rf, i as int);
        }
        let d = rd[i];
        assert(d@ == rv[i as int]);
        let contracted = match geometry::find_axis(axes, d.axis) {
            Some(_) => true,
            None => false,
        };
        if !contracted && !has_dim(&dims, d.axis) {
            right.push(d);
        }
        assert(axis::dims_view(right@) =~= geometry::rewrite(rv.take(i as int + 1), rf));
        i = i + 1;
    }
    assert(rv.take(rn as int) =~= rv);
    let ghost rightv = axis::dims_view(right@);
    let ghost kept_dims = dims@;
    let mut k: usize = 0;
    while k < right.len()
        invariant
            k <= right@.len(),
            dims@ == kept_dims + right@.take(k as int),
        decreases right@.len() - k,
    {
        dims.push(right[k]);
        assert(dims@ =~= kept_dims + right@.take(k as int + 1));
        k = k + 1;
    }
    assert(right@.take(right@.len() as int) =~= right@);
    assert(axis::dims_view(dims@) =~= kept + rightv);
    let shape = Shape::new(dims)?;
    Ok(ContractionGeometry { shape, reduction })
}

/// Whether some dimension of `dims` has axis `a`.
pub(crate) fn has_dim(dims: &Vec<Dim>, a: Axis) -> (b: bool)
    ensures
        b == axis::has_axis(axis::dims_view(dims@), a@),
{
    let n = dims.len();
    let mut i: usize = 0;
    while i < n
        invariant
            n == dims@.len(),
            i <= n,
            forall|j: int| 0 <= j < i ==> dims@[j].axis@ != a@,
        decreases n - i,
    {
        if dims[i].axis.same(&a) {
            assert(axis::dims_view(dims@)[i as int].0 == a@);
            return true;
        }
        i = i + 1;
    }
    proof {
        if axis::has_axis(axis::dims_view(dims@), a@) {
            let j = choose|j: int| 0 <= j < dims@.len() && axis::dims_view(dims@)[j].0 == a@;
            assert(dims@[j].axis@ == a@);
        }
    }
    false
}

} // verus!
