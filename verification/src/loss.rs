//! The shape rule of categorical cross-entropy between named-axis logits and target
//! distributions: one loss per position of every axis but the class axis.
use crate::axis::{self, Axis, DimView, Shape};
use crate::broadcast;
use crate::contraction;
use crate::error::Error;
use crate::geometry;
use vstd::prelude::*;
use vstd::string::StringExecFns;

verus! {

/// The rejection of targets that lack the class axis or carry an axis the logits lack.
pub open spec fn cross_entropy_axes_message() -> Seq<char> {
    "categorical_cross_entropy_with_logits targets must contain the class axis and may omit only broadcast axes"@
}

/// The loss shape of categorical cross-entropy of logits `l` against targets `t` over class
/// axis `c`, or the first rejection: targets must carry `c` and only axes of the logits, the
/// axes both carry must agree in extent, and there must be at least two classes. The loss has
/// the logits' axes but `c`, in order.
pub open spec fn cross_entropy_outcome(l: Seq<DimView>, t: Seq<DimView>, c: Seq<char>) -> Result<
    Seq<DimView>,
    Seq<char>,
> {
    if !axis::has_axis(t, c) || !broadcast::axes_within(t, l) {
        Err(cross_entropy_axes_message())
    } else {
        match contraction::extent_mismatch(l, t) {
            Some(m) => Err(m),
            None => if axis::axis_extent(l, c) < 2 {
                Err("categorical cross-entropy requires at least two classes"@)
            } else {
                axis::shape_outcome(geometry::rewrite(l, geometry::drop_axis(c)))
            },
        }
    }
}

/// Dropping an axis that no dimension carries changes nothing.
proof fn lemma_drop_absent(v: Seq<DimView>, a: Seq<char>)
    requires
        forall|i: int| 0 <= i < v.len() ==> #[trigger] v[i].0 != a,
    ensures
        geometry::rewrite(v, geometry::drop_axis(a)) == v,
    decreases v.len(),
{
    if v.len() > 0 {
        let dl = v.drop_last();
        assert forall|i: int| 0 <= i < dl.len() implies #[trigger] dl[i].0 != a by {
            assert(dl[i] == v[i]);
        }
        lemma_drop_absent(dl, a);
        assert(v[v.len() - 1].0 != a);
        assert(dl.push(v.last()) =~= v);
    }
}

/// Dropping the axis that only the dimension at `k` carries removes that dimension.
proof fn lemma_drop_at(v: Seq<DimView>, a: Seq<char>, k: int)
    requires
        0 <= k < v.len(),
        v[k].0 == a,
        forall|i: int| 0 <= i < v.len() && i != k ==> #[trigger] v[i].0 != a,
    ensures
        geometry::rewrite(v, geometry::drop_axis(a)) == v.remove(k),
    decreases v.len(),
{
    let dl = v.drop_last();
    if k == v.len() - 1 {
        assert forall|i: int| 0 <= i < dl.len() implies #[trigger] dl[i].0 != a by {
            assert(dl[i] == v[i]);
        }
        lemma_drop_absent(dl, a);
        assert(v.remove(k) =~= dl);
    } else {
        assert forall|i: int| 0 <= i < dl.len() && i != k implies #[trigger] dl[i].0 != a by {
            assert(dl[i] == v[i]);
        }
        lemma_drop_at(dl, a, k);
        assert(v[v.len() - 1].0 != a);
        assert(dl.remove(k).push(v.last()) =~= v.remove(k));
    }
}

/// Cross-entropy shape law. An accepted loss over logits with distinct axes is the logits'
/// shape with the class axis removed: it never carries the class axis, and it carries every
/// other logits dimension, at its extent, in the logits' order, wherever the class axis
/// stands.
pub proof fn lemma_cross_entropy_drops_class(l: Seq<DimView>, t: Seq<DimView>, c: Seq<char>)
    requires
        axis::distinct_axes(l),
    ensures
        cross_entropy_outcome(l, t, c) matches Ok(d) ==> {
            &&& axis::has_axis(l, c)
            &&& d == l.remove(axis::axis_position(l, c))
            &&& !axis::has_axis(d, c)
        },
{
    if let Ok(d) = cross_entropy_outcome(l, t, c) {
        let j = choose|j: int| 0 <= j < t.len() && t[j].0 == c;
        assert(axis::has_axis(l, t[j].0));
        let k = axis::axis_position(l, c);
        assert forall|i: int| 0 <= i < l.len() && i != k implies #[trigger] l[i].0 != c by {
            if i < k {
                assert(l[i].0 != l[k].0);
            } else {
                assert(l[k].0 != l[i].0);
            }
        }
        lemma_drop_at(l, c, k);
        if axis::has_axis(d, c) {
            let i = choose|i: int| 0 <= i < d.len() && d[i].0 == c;
            if i < k {
                assert(d[i] == l[i]);
            } else {
                assert(d[i] == l[i + 1]);
            }
        }
    }
}

/// The shape of the categorical cross-entropy of `logits` against `targets` over `class`; see
/// [`cross_entropy_outcome`].
pub fn cross_entropy_shape(logits: &Shape, targets: &Shape, class: Axis) -> (r: Result<Shape, Error>)
    ensures
        cross_entropy_outcome(logits@, targets@, class@) matches Ok(d) ==> r is Ok && r->Ok_0@ == d,
        cross_entropy_outcome(logits@, targets@, class@) matches Err(m) ==> r is Err && r->Err_0@
            == m,
{
    if !targets.contains(class) || !broadcast::within(targets, logits) {
        return Err(
            Error::new(
                String::from_str(
                    "categorical_cross_entropy_with_logits targets must contain the class axis and may omit only broadcast axes",
                ),
            ),
        );
    }
    contraction::check_shared_extents(logits, targets)?;
    let width = logits.extent(class)?;
    if width < 2 {
        return Err(
            Error::new(String::from_str("categorical cross-entropy requires at least two classes")),
        );
    }
    Shape::new(geometry::dims_without(logits.dims(), class))
}

} // verus!
