//! The shape rule of elementwise arithmetic between named-axis values: axes align by name,
//! and one operand broadcasts over the other only when its axes are a subset of the other's.
use crate::axis::{self, DimView, Shape};
use crate::contraction;
use crate::error::Error;
use vstd::prelude::*;
use vstd::string::StringExecFns;

verus! {

/// Every axis of `a` is also an axis of `b`.
pub open spec fn axes_within(a: Seq<DimView>, b: Seq<DimView>) -> bool {
    forall|i: int| 0 <= i < a.len() ==> axis::has_axis(b, #[trigger] a[i].0)
}

pub open spec fn incomparable_message() -> Seq<char> {
    "incomparable axis sets: elementwise broadcasting cannot introduce an implicit outer product"@
}

/// The shape of an elementwise combination of `l` and `r`: shared axes must agree in extent;
/// the result is `l` when `r`'s axes are among `l`'s, else `r` when `l`'s are among `r`'s.
pub open spec fn broadcast_outcome(l: Seq<DimView>, r: Seq<DimView>) -> Result<
    Seq<DimView>,
    Seq<char>,
> {
    match contraction::extent_mismatch(l, r) {
        Some(m) => Err(m),
        None => if axes_within(r, l) {
            Ok(l)
        } else if axes_within(l, r) {
            Ok(r)
        } else {
            Err(incomparable_message())
        },
    }
}

/// Whether every axis of `a` is an axis of `b`.
pub(crate) fn within(a: &Shape, b: &Shape) -> (r: bool)
    ensures
        r == axes_within(a@, b@),
{
    let ad = a.dims();
    let n = ad.len();
    let mut i: usize = 0;
    while i < n
        invariant
            n == a@.len(),
            axis::dims_view(ad@) == a@,
            i <= n,
            forall|k: int| 0 <= k < i ==> axis::has_axis(b@, #[trigger] a@[k].0),
        decreases n - i,
    {
        assert(ad@[i as int]@ == a@[i as int]);
        if !b.contains(ad[i].axis) {
            assert(!axis::has_axis(b@, a@[i as int].0));
            return false;
        }
        i = i + 1;
    }
    true
}

/// The shape an elementwise operation between values shaped `lhs` and `rhs` produces; see
/// [`broadcast_outcome`].
pub fn broadcast_shape(lhs: &Shape, rhs: &Shape) -> (r: Result<Shape, Error>)
    ensures
        broadcast_outcome(lhs@, rhs@) matches Ok(d) ==> r is Ok && r->Ok_0@ == d,
        broadcast_outcome(lhs@, rhs@) matches Err(m) ==> r is Err && r->Err_0@ == m,
{
    contraction::check_shared_extents(lhs, rhs)?;
    if within(rhs, lhs) {
        Ok(lhs.clone())
    } else if within(lhs, rhs) {
        Ok(rhs.clone())
    } else {
        Err(
            Error::new(
                String::from_str(
                    "incomparable axis sets: elementwise broadcasting cannot introduce an implicit outer product",
                ),
            ),
        )
    }
}

/// Broadcasting never forms an outer product: a result is one of the operands, it carries
/// exactly the axes of either operand, and each axis keeps the extent it has in the operand
/// that carries it.
pub proof fn lemma_broadcast_is_union(l: Seq<DimView>, r: Seq<DimView>)
    requires
        axis::distinct_axes(l),
        axis::distinct_axes(r),
    ensures
        broadcast_outcome(l, r) matches Ok(d) ==> {
            &&& d == l || d == r
            &&& forall|a: Seq<char>|
                #[trigger] axis::has_axis(d, a) <==> axis::has_axis(l, a) || axis::has_axis(r, a)
            &&& forall|a: Seq<char>|
                axis::has_axis(l, a) ==> #[trigger] axis::axis_extent(d, a) == axis::axis_extent(
                    l,
                    a,
                )
            &&& forall|a: Seq<char>|
                axis::has_axis(r, a) ==> #[trigger] axis::axis_extent(d, a) == axis::axis_extent(
                    r,
                    a,
                )
        },
{
    if let Ok(d) = broadcast_outcome(l, r) {
        lemma_no_mismatch(l, r);
        if axes_within(r, l) {
            assert forall|a: Seq<char>| axis::has_axis(r, a) implies axis::has_axis(l, a) by {
                let i = choose|i: int| 0 <= i < r.len() && r[i].0 == a;
                assert(axis::has_axis(l, r[i].0));
            }
        } else {
            assert forall|a: Seq<char>| axis::has_axis(l, a) implies axis::has_axis(r, a) by {
                let i = choose|i: int| 0 <= i < l.len() && l[i].0 == a;
                assert(axis::has_axis(r, l[i].0));
            }
        }
    }
}

/// With no mismatch, an axis both carry has one extent.
proof fn lemma_no_mismatch(l: Seq<DimView>, r: Seq<DimView>)
    requires
        axis::distinct_axes(l),
        contraction::extent_mismatch(l, r) is None,
    ensures
        forall|a: Seq<char>|
            axis::has_axis(l, a) && axis::has_axis(r, a) ==> #[trigger] axis::axis_extent(l, a)
                == axis::axis_extent(r, a),
    decreases l.len(),
{
    if l.len() > 0 {
        let p = l.drop_last();
        assert(axis::distinct_axes(p)) by {
            assert forall|i: int, j: int| 0 <= i < j < p.len() implies p[i].0 != p[j].0 by {
                assert(p[i] == l[i] && p[j] == l[j]);
            }
        }
        lemma_no_mismatch(p, r);
        assert forall|a: Seq<char>| axis::has_axis(l, a) && axis::has_axis(r, a) implies #[trigger] axis::axis_extent(l, a)
            == axis::axis_extent(r, a) by {
            let i = choose|i: int| 0 <= i < l.len() && l[i].0 == a;
            axis::lemma_axis_position_unique(l, a, i);
            if i < p.len() {
                assert(p[i] == l[i]);
                axis::lemma_axis_position_unique(p, a, i);
            }
        }
    }
}

} // verus!
