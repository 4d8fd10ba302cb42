//! Shape rules of the structural operations on named-axis values: renaming an axis,
//! selecting one coordinate of an axis, stacking along a new axis and concatenating along an
//! existing one.
use crate::axis::{self, Axis, Dim, DimView, Shape};
use crate::broadcast;
use crate::contraction;
use crate::error::Error;
use crate::geometry;
use crate::text;
use vstd::prelude::*;
use vstd::string::StringExecFns;

verus! {

/// `v` with the axis named `from` called `to`.
pub open spec fn renamed(v: Seq<DimView>, from: Seq<char>, to: Seq<char>) -> Seq<DimView> {
    v.map_values(
        |d: DimView|
            if d.0 == from {
                (to, d.1)
            } else {
                d
            },
    )
}

/// Renaming `from` to `to`: `from` must be present, and the result must still have distinct
/// axes.
pub open spec fn rename_outcome(v: Seq<DimView>, from: Seq<char>, to: Seq<char>) -> Result<
    Seq<DimView>,
    Seq<char>,
> {
    if !axis::has_axis(v, from) {
        Err(axis::missing_axis_message(from))
    } else {
        axis::shape_outcome(renamed(v, from, to))
    }
}

/// The shape after renaming axis `from` to `to`.
pub fn renamed_shape(shape: &Shape, from: Axis, to: Axis) -> (r: Result<Shape, Error>)
    ensures
        rename_outcome(shape@, from@, to@) matches Ok(d) ==> r is Ok && r->Ok_0@ == d,
        rename_outcome(shape@, from@, to@) matches Err(m) ==> r is Err && r->Err_0@ == m,
{
    shape.index(from)?;
    let source = shape.dims();
    let n = source.len();
    let mut dims: Vec<Dim> = Vec::new();
    let mut i: usize = 0;
    while i < n
        invariant
            n == shape@.len(),
            axis::dims_view(source@) == shape@,
            i <= n,
            axis::dims_view(dims@) == renamed(shape@, from@, to@).take(i as int),
        decreases n - i,
    {
        let d = source[i];
        assert(d@ == shape@[i as int]);
        let ghost before = dims@;
        if d.axis.same(&from) {
            dims.push(to.of(d.extent));
            assert(renamed(shape@, from@, to@)[i as int] == (to@, d.extent));
        } else {
            dims.push(d);
            assert(renamed(shape@, from@, to@)[i as int] == d@);
        }
        assert(axis::dims_view(dims@) =~= axis::dims_view(before).push(dims@[i as int]@));
        assert(axis::dims_view(dims@) =~= renamed(shape@, from@, to@).take(i as int + 1));
        i = i + 1;
    }
    assert(renamed(shape@, from@, to@).take(n as int) =~= renamed(shape@, from@, to@));
    Shape::new(dims)
}

/// Selecting `coordinate` of axis `a`: the axis must be present and the coordinate inside
/// it; the axis is then removed.
pub open spec fn select_outcome(v: Seq<DimView>, a: Seq<char>, coordinate: usize) -> Result<
    Seq<DimView>,
    Seq<char>,
> {
    if !axis::has_axis(v, a) {
        Err(axis::missing_axis_message(a))
    } else if coordinate >= axis::axis_extent(v, a) {
        Err(
            "coordinate "@ + text::decimal_text(coordinate as nat) + " is outside "@
                + text::debug_text(a) + " extent "@ + text::decimal_text(
                axis::axis_extent(v, a) as nat,
            ),
        )
    } else {
        axis::shape_outcome(geometry::rewrite(v, geometry::drop_axis(a)))
    }
}

/// The shape after selecting one coordinate of `a`, which removes the axis.
pub fn selected_shape(shape: &Shape, a: Axis, coordinate: usize) -> (r: Result<Shape, Error>)
    ensures
        select_outcome(shape@, a@, coordinate) matches Ok(d) ==> r is Ok && r->Ok_0@ == d,
        select_outcome(shape@, a@, coordinate) matches Err(m) ==> r is Err && r->Err_0@ == m,
{
    let extent = shape.extent(a)?;
    if coordinate >= extent {
        let mut m = String::from_str("coordinate ");
        text::push_decimal(&mut m, coordinate);
        m.append(" is outside ");
        m.append(text::debug_quoted(a.name()).as_str());
        m.append(" extent ");
        text::push_decimal(&mut m, extent);
        return Err(Error::new(m));
    }
    Shape::new(geometry::dims_without(shape.dims(), a))
}

/// `v` carries exactly the axes of `first` (in any order).
pub open spec fn same_axis_set(first: Seq<DimView>, v: Seq<DimView>) -> bool {
    v.len() == first.len() && broadcast::axes_within(first, v)
}

/// The first of `shapes` whose axis set differs from `first`'s (rejected with `differ`) or
/// whose shared extents disagree with `first`'s.
pub open spec fn stack_inputs_error(
    first: Seq<DimView>,
    shapes: Seq<Seq<DimView>>,
    differ: Seq<char>,
) -> Option<Seq<char>>
    decreases shapes.len(),
{
    if shapes.len() == 0 {
        None
    } else {
        match stack_inputs_error(first, shapes.drop_last(), differ) {
            Some(m) => Some(m),
            None => if !same_axis_set(first, shapes.last()) {
                Some(differ)
            } else {
                contraction::extent_mismatch(first, shapes.last())
            },
        }
    }
}

/// Stacking equal shapes along a new axis `a` inserted at `position` of the first shape's
/// order, with one coordinate per input.
pub open spec fn stack_outcome(shapes: Seq<Seq<DimView>>, a: Seq<char>, position: usize) -> Result<
    Seq<DimView>,
    Seq<char>,
> {
    if shapes.len() == 0 {
        Err("stack requires at least one tensor"@)
    } else if position > shapes[0].len() {
        Err("stack position is outside the output rank"@)
    } else if axis::has_axis(shapes[0], a) {
        Err("stack axis "@ + text::debug_text(a) + " already exists in its inputs"@)
    } else {
        match stack_inputs_error(shapes[0], shapes, "stack requires identical input axis sets"@) {
            Some(m) => Err(m),
            None => axis::shape_outcome(
                shapes[0].insert(position as int, (a, shapes.len() as usize)),
            ),
        }
    }
}

/// The views of `shapes`.
pub open spec fn shapes_view(shapes: Seq<Shape>) -> Seq<Seq<DimView>> {
    shapes.map_values(|s: Shape| s@)
}

/// Whether `v` carries exactly the axes of `first`.
fn same_axes(first: &Shape, v: &Shape) -> (r: bool)
    ensures
        r == same_axis_set(first@, v@),
{
    if first.rank() != v.rank() {
        return false;
    }
    let fd = first.dims();
    let n = fd.len();
    let mut i: usize = 0;
    while i < n
        invariant
            n == first@.len(),
            axis::dims_view(fd@) == first@,
            i <= n,
            forall|k: int| 0 <= k < i ==> axis::has_axis(v@, #[trigger] first@[k].0),
        decreases n - i,
    {
        assert(fd@[i as int]@ == first@[i as int]);
        if !v.contains(fd[i].axis) {
            assert(!axis::has_axis(v@, first@[i as int].0));
            return false;
        }
        i = i + 1;
    }
    true
}

proof fn lemma_stack_error_sticks(
    first: Seq<DimView>,
    shapes: Seq<Seq<DimView>>,
    differ: Seq<char>,
    k: int,
)
    requires
        0 <= k <= shapes.len(),
        stack_inputs_error(first, shapes.take(k), differ) is Some,
    ensures
        stack_inputs_error(first, shapes, differ) == stack_inputs_error(first, shapes.take(k), differ),
    decreases shapes.len() - k,
{
    if k < shapes.len() {
        assert(shapes.take(k + 1).drop_last() =~= shapes.take(k));
        lemma_stack_error_sticks(first, shapes, differ, k + 1);
    } else {
        assert(shapes.take(k) =~= shapes);
    }
}

/// Check every input against the first: same axis set, then agreeing shared extents.
fn check_stack_inputs(shapes: &[Shape], differ: &str) -> (r: Result<(), Error>)
    requires
        shapes@.len() > 0,
    ensures
        stack_inputs_error(shapes_view(shapes@)[0], shapes_view(shapes@), differ@) matches Some(m)
            ==> r is Err && r->Err_0@ == m,
        stack_inputs_error(shapes_view(shapes@)[0], shapes_view(shapes@), differ@) is None ==> r is Ok,
{
    let ghost sv = shapes_view(shapes@);
    let ghost first = sv[0];
    let n = shapes.len();
    let mut i: usize = 0;
    assert(sv.take(0) =~= Seq::<Seq<DimView>>::empty());
    while i < n
        invariant
            n == shapes@.len(),
            sv == shapes_view(shapes@),
            first == sv[0],
            first == shapes@[0]@,
            i <= n,
            stack_inputs_error(first, sv.take(i as int), differ@) is None,
        decreases n - i,
    {
        assert(sv.take(i as int + 1).drop_last() =~= sv.take(i as int));
        assert(sv.take(i as int + 1).last() == shapes@[i as int]@);
        if !same_axes(&shapes[0], &shapes[i]) {
            proof {
                lemma_stack_error_sticks(first, sv, differ@, i as int + 1);
            }
            return Err(Error::new(String::from_str(differ)));
        }
        match contraction::check_shared_extents(&shapes[0], &shapes[i]) {
            Ok(()) => {},
            Err(e) => {
                proof {
                    lemma_stack_error_sticks(first, sv, differ@, i as int + 1);
                }
                return Err(e);
            },
        }
        i = i + 1;
    }
    assert(sv.take(n as int) =~= sv);
    Ok(())
}

/// The shape of stacking values shaped `shapes` along a new axis `a` at `position`.
pub fn stacked_shape(shapes: &[Shape], a: Axis, position: usize) -> (r: Result<Shape, Error>)
    ensures
        stack_outcome(shapes_view(shapes@), a@, position) matches Ok(d) ==> r is Ok && r->Ok_0@
            == d,
        stack_outcome(shapes_view(shapes@), a@, position) matches Err(m) ==> r is Err
            && r->Err_0@ == m,
{
    if shapes.len() == 0 {
        return Err(Error::new(String::from_str("stack requires at least one tensor")));
    }
    let first = &shapes[0];
    assert(shapes_view(shapes@)[0] == first@);
    if position > first.rank() {
        return Err(Error::new(String::from_str("stack position is outside the output rank")));
    }
    if first.contains(a) {
        let mut m = String::from_str("stack axis ");
        m.append(text::debug_quoted(a.name()).as_str());
        m.append(" already exists in its inputs");
        return Err(Error::new(m));
    }
    check_stack_inputs(shapes, "stack requires identical input axis sets")?;
    let source = first.dims();
    let mut dims: Vec<Dim> = Vec::new();
    let mut i: usize = 0;
    while i < position
        invariant
            position <= source@.len(),
            i <= position,
            dims@ == source@.take(i as int),
        decreases position - i,
    {
        dims.push(source[i]);
        assert(dims@ =~= source@.take(i as int + 1));
        i = i + 1;
    }
    dims.push(a.of(shapes.len()));
    let mut j: usize = position;
    while j < source.len()
        invariant
            position <= j <= source@.len(),
            dims@ == source@.take(position as int).push((Dim { axis: a, extent: shapes@.len() as usize })) + source@.subrange(
                position as int,
                j as int,
            ),
        decreases source@.len() - j,
    {
        dims.push(source[j]);
        assert(dims@ =~= source@.take(position as int).push((Dim { axis: a, extent: shapes@.len() as usize }))
            + source@.subrange(position as int, j as int + 1));
        j = j + 1;
    }
    assert(axis::dims_view(dims@) =~= first@.insert(position as int, (a@, shapes@.len() as usize)));
    Shape::new(dims)
}

/// The first dimension of `first`, other than `a`, whose extent `v` does not repeat.
pub open spec fn concat_mismatch(first: Seq<DimView>, v: Seq<DimView>, a: Seq<char>) -> Option<
    Seq<char>,
>
    decreases first.len(),
{
    if first.len() == 0 {
        None
    } else {
        match concat_mismatch(first.drop_last(), v, a) {
            Some(m) => Some(m),
            None => {
                let d = first.last();
                if d.0 != a && axis::axis_extent(v, d.0) != d.1 {
                    Some("concat requires matching extent for "@ + text::debug_text(d.0))
                } else {
                    None
                }
            },
        }
    }
}

/// Scanning the inputs of a concatenation in order: each must carry `first`'s axes at
/// `first`'s extents (but along `a`), and the running total along `a` must fit `usize`.
pub open spec fn concat_scan(first: Seq<DimView>, a: Seq<char>, shapes: Seq<Seq<DimView>>) -> Result<
    nat,
    Seq<char>,
>
    decreases shapes.len(),
{
    if shapes.len() == 0 {
        Ok(0)
    } else {
        match concat_scan(first, a, shapes.drop_last()) {
            Err(m) => Err(m),
            Ok(t) => {
                let v = shapes.last();
                if !same_axis_set(first, v) {
                    Err("concat requires identical input axis sets"@)
                } else {
                    match concat_mismatch(first, v, a) {
                        Some(m) => Err(m),
                        None => if t + axis::axis_extent(v, a) > usize::MAX {
                            Err("concat extent overflow"@)
                        } else {
                            Ok(t + (axis::axis_extent(v, a) as nat))
                        },
                    }
                }
            },
        }
    }
}

/// Concatenating along the shared axis `a`: the first input's shape, with `a` extended to
/// the sum of the inputs' extents along it.
pub open spec fn concat_outcome(shapes: Seq<Seq<DimView>>, a: Seq<char>) -> Result<
    Seq<DimView>,
    Seq<char>,
> {
    if shapes.len() == 0 {
        Err("concat requires at least one tensor"@)
    } else if !axis::has_axis(shapes[0], a) {
        Err(axis::missing_axis_message(a))
    } else {
        match concat_scan(shapes[0], a, shapes) {
            Err(m) => Err(m),
            Ok(t) => axis::shape_outcome(
                shapes[0].update(axis::axis_position(shapes[0], a), (a, t as usize)),
            ),
        }
    }
}

/// The sum of the extents of `shapes` along the axis named `a`.
pub open spec fn extent_total(shapes: Seq<Seq<DimView>>, a: Seq<char>) -> nat
    decreases shapes.len(),
{
    if shapes.len() == 0 {
        0
    } else {
        extent_total(shapes.drop_last(), a) + (axis::axis_extent(shapes.last(), a) as nat)
    }
}

/// An accepted scan has summed the extents along `a`.
proof fn lemma_concat_scan_total(first: Seq<DimView>, a: Seq<char>, shapes: Seq<Seq<DimView>>)
    ensures
        concat_scan(first, a, shapes) matches Ok(t) ==> t == extent_total(shapes, a),
    decreases shapes.len(),
{
    if shapes.len() > 0 {
        lemma_concat_scan_total(first, a, shapes.drop_last());
    }
}

/// Concatenation law. An accepted concatenation has the first input's axes, in its order;
/// every axis but the concatenation axis keeps the first input's extent, and the
/// concatenation axis carries the sum of every input's extent along it.
pub proof fn lemma_concat_extent(shapes: Seq<Seq<DimView>>, a: Seq<char>)
    ensures
        concat_outcome(shapes, a) matches Ok(d) ==> {
            &&& d.len() == shapes[0].len()
            &&& forall|i: int|
                0 <= i < d.len() ==> #[trigger] d[i].0 == shapes[0][i].0 && (d[i].0 != a ==> d[i].1
                    == shapes[0][i].1)
            &&& axis::has_axis(d, a)
            &&& axis::axis_extent(d, a) == extent_total(shapes, a)
        },
{
    if let Ok(d) = concat_outcome(shapes, a) {
        let first = shapes[0];
        let pos = axis::axis_position(first, a);
        lemma_concat_scan_total(first, a, shapes);
        assert(0 <= pos < first.len() && first[pos].0 == a);
        assert(d[pos].0 == a);
        axis::lemma_axis_position_unique(d, a, pos);
    }
}

/// Concatenation adds up: one more input adds its extent along the concatenation axis to
/// what the others concatenate to.
pub proof fn lemma_concat_append(xs: Seq<Seq<DimView>>, y: Seq<DimView>, a: Seq<char>)
    requires
        xs.len() > 0,
    ensures
        concat_outcome(xs.push(y), a) matches Ok(d2) ==> (concat_outcome(xs, a) matches Ok(d1)
            ==> axis::axis_extent(d2, a) == axis::axis_extent(d1, a) + axis::axis_extent(y, a)),
{
    lemma_concat_extent(xs.push(y), a);
    lemma_concat_extent(xs, a);
    assert(xs.push(y)[0] == xs[0]);
    assert(xs.push(y).drop_last() =~= xs);
    assert(xs.push(y).last() == y);
}

proof fn lemma_concat_mismatch_sticks(first: Seq<DimView>, v: Seq<DimView>, a: Seq<char>, k: int)
    requires
        0 <= k <= first.len(),
        concat_mismatch(first.take(k), v, a) is Some,
    ensures
        concat_mismatch(first, v, a) == concat_mismatch(first.take(k), v, a),
    decreases first.len() - k,
{
    if k < first.len() {
        assert(first.take(k + 1).drop_last() =~= first.take(k));
        lemma_concat_mismatch_sticks(first, v, a, k + 1);
    } else {
        assert(first.take(k) =~= first);
    }
}

proof fn lemma_concat_scan_sticks(first: Seq<DimView>, a: Seq<char>, shapes: Seq<Seq<DimView>>, k: int)
    requires
        0 <= k <= shapes.len(),
        concat_scan(first, a, shapes.take(k)) is Err,
    ensures
        concat_scan(first, a, shapes) == concat_scan(first, a, shapes.take(k)),
    decreases shapes.len() - k,
{
    if k < shapes.len() {
        assert(shapes.take(k + 1).drop_last() =~= shapes.take(k));
        lemma_concat_scan_sticks(first, a, shapes, k + 1);
    } else {
        assert(shapes.take(k) =~= shapes);
    }
}

/// The first dimension of `first`, other than `a`, whose extent `v` does not repeat, as the
/// concatenation's rejection.
fn check_concat_extents(first: &Shape, v: &Shape, a: Axis) -> (r: Result<(), Error>)
    requires
        same_axis_set(first@, v@),
    ensures
        concat_mismatch(first@, v@, a@) matches Some(m) ==> r is Err && r->Err_0@ == m,
        concat_mismatch(first@, v@, a@) is None ==> r is Ok,
{
    let ghost f = first@;
    let fd = first.dims();
    let n = fd.len();
    let mut j: usize = 0;
    assert(f.take(0) =~= Seq::<DimView>::empty());
    while j < n
        invariant
            n == f.len(),
            f == first@,
            same_axis_set(first@, v@),
            axis::dims_view(fd@) == f,
            j <= n,
            concat_mismatch(f.take(j as int), v@, a@) is None,
        decreases n - j,
    {
        let d = fd[j];
        assert(d@ == f[j as int]);
        assert(f.take(j as int + 1).drop_last() =~= f.take(j as int));
        assert(f.take(j as int + 1).last() == d@);
        if !d.axis.same(&a) {
            assert(axis::has_axis(v@, f[j as int].0));
            let e = match v.extent(d.axis) {
                Ok(e) => e,
                Err(_) => 0,
            };
            if e != d.extent {
                let mut m = String::from_str("concat requires matching extent for ");
                m.append(text::debug_quoted(d.axis.name()).as_str());
                proof {
                    lemma_concat_mismatch_sticks(f, v@, a@, j as int + 1);
                }
                return Err(Error::new(m));
            }
        }
        j = j + 1;
    }
    assert(f.take(n as int) =~= f);
    Ok(())
}

/// The shape of concatenating values shaped `shapes` along their shared axis `a`.
pub fn concatenated_shape(shapes: &[Shape], a: Axis) -> (r: Result<Shape, Error>)
    ensures
        concat_outcome(shapes_view(shapes@), a@) matches Ok(d) ==> r is Ok && r->Ok_0@ == d,
        concat_outcome(shapes_view(shapes@), a@) matches Err(m) ==> r is Err && r->Err_0@ == m,
{
    if shapes.len() == 0 {
        return Err(Error::new(String::from_str("concat requires at least one tensor")));
    }
    let ghost sv = shapes_view(shapes@);
    let first = &shapes[0];
    assert(sv[0] == first@);
    let index = first.index(a)?;
    let n = shapes.len();
    let mut total: usize = 0;
    let mut i: usize = 0;
    assert(sv.take(0) =~= Seq::<Seq<DimView>>::empty());
    while i < n
        invariant
            n == shapes@.len(),
            sv == shapes_view(shapes@),
            sv[0] == shapes@[0]@,
            axis::has_axis(shapes@[0]@, a@),
            i <= n,
            concat_scan(sv[0], a@, sv.take(i as int)) == Ok::<nat, Seq<char>>(total as nat),
        decreases n - i,
    {
        let ghost t = sv.take(i as int + 1);
        assert(t.drop_last() =~= sv.take(i as int));
        assert(t.last() == shapes@[i as int]@);
        if !same_axes(&shapes[0], &shapes[i]) {
            proof {
                lemma_concat_scan_sticks(sv[0], a@, sv, i as int + 1);
            }
            return Err(Error::new(String::from_str("concat requires identical input axis sets")));
        }
        match check_concat_extents(&shapes[0], &shapes[i], a) {
            Ok(()) => {},
            Err(e) => {
                proof {
                    lemma_concat_scan_sticks(sv[0], a@, sv, i as int + 1);
                }
                return Err(e);
            },
        }
        proof {
            let k = axis::axis_position(shapes@[0]@, a@);
            assert(axis::has_axis(shapes@[i as int]@, shapes@[0]@[k].0));
        }
        let e = match shapes[i].extent(a) {
            Ok(e) => e,
            Err(_) => 0,
        };
        match total.checked_add(e) {
            Some(s) => {
                total = s;
            },
            None => {
                proof {
                    lemma_concat_scan_sticks(sv[0], a@, sv, i as int + 1);
                }
                return Err(Error::new(String::from_str("concat extent overflow")));
            },
        }
        i = i + 1;
    }
    assert(sv.take(n as int) =~= sv);
    let source = first.dims();
    let m = source.len();
    let mut dims: Vec<Dim> = Vec::new();
    let mut j: usize = 0;
    while j < m
        invariant
            m == source@.len(),
            index < m,
            j <= m,
            dims@ == source@.update(index as int, (Dim { axis: a, extent: total })).take(j as int),
        decreases m - j,
    {
        if j == index {
            dims.push(a.of(total));
        } else {
            dims.push(source[j]);
        }
        assert(dims@ =~= source@.update(index as int, (Dim { axis: a, extent: total })).take(
            j as int + 1,
        ));
        j = j + 1;
    }
    assert(source@.update(index as int, (Dim { axis: a, extent: total })).take(m as int)
        =~= source@.update(index as int, (Dim { axis: a, extent: total })));
    assert(axis::dims_view(dims@) =~= first@.update(index as int, (a@, total)));
    Shape::new(dims)
}

/// Renaming is undone by renaming back: when renaming `from` to `to` succeeds, renaming `to`
/// back to `from` gives back the input shape.
pub proof fn lemma_rename_round_trip(v: Seq<DimView>, from: Seq<char>, to: Seq<char>)
    requires
        axis::valid_dims(v),
    ensures
        rename_outcome(v, from, to) matches Ok(w) ==> rename_outcome(w, to, from) == Ok::<
            Seq<DimView>,
            Seq<char>,
        >(v),
{
    if let Ok(w) = rename_outcome(v, from, to) {
        let i = choose|i: int| 0 <= i < v.len() && v[i].0 == from;
        assert(w[i] == (to, v[i].1));
        assert(axis::has_axis(w, to));
        assert forall|k: int| 0 <= k < v.len() && k != i implies v[k].0 != to by {
            if v[k].0 == to && to != from {
                assert(w[k].0 == to);
                if k < i {
                    assert(w[k].0 != w[i].0);
                } else {
                    assert(w[i].0 != w[k].0);
                }
            }
        }
        assert(renamed(w, to, from) =~= v) by {
            assert forall|k: int| 0 <= k < v.len() implies renamed(w, to, from)[k] == v[k] by {
                if k != i {
                    assert(v[k].0 != from) by {
                        if v[k].0 == from {
                            if k < i {
                                assert(v[k].0 != v[i].0);
                            } else {
                                assert(v[i].0 != v[k].0);
                            }
                        }
                    }
                }
            }
        }
    }
}

/// Dropping an entry that the rule drops leaves the rewrite unchanged.
proof fn lemma_rewrite_insert_dropped(
    u: Seq<DimView>,
    p: int,
    e: DimView,
    f: spec_fn(DimView) -> Option<DimView>,
)
    requires
        0 <= p <= u.len(),
        f(e) is None,
    ensures
        geometry::rewrite(u.insert(p, e), f) == geometry::rewrite(u, f),
    decreases u.len(),
{
    let x = u.insert(p, e);
    if p == u.len() {
        assert(x.drop_last() =~= u);
    } else {
        lemma_rewrite_insert_dropped(u.drop_last(), p, e, f);
        assert(x.drop_last() =~= u.drop_last().insert(p, e));
        assert(x.last() == u.last());
    }
}

/// Selecting any coordinate of the stacking axis gives back the common input shape.
pub proof fn lemma_select_undoes_stack(
    shapes: Seq<Seq<DimView>>,
    a: Seq<char>,
    position: usize,
    coordinate: usize,
)
    requires
        forall|i: int| 0 <= i < shapes.len() ==> axis::valid_dims(#[trigger] shapes[i]),
        coordinate < shapes.len(),
        shapes.len() <= usize::MAX,
    ensures
        stack_outcome(shapes, a, position) is Ok ==> select_outcome(
            stack_outcome(shapes, a, position)->Ok_0,
            a,
            coordinate,
        ) == Ok::<Seq<DimView>, Seq<char>>(shapes[0]),
{
    if let Ok(d) = stack_outcome(shapes, a, position) {
        let x = shapes[0];
        assert(axis::valid_dims(x));
        let e = (a, shapes.len() as usize);
        assert(d == x.insert(position as int, e));
        assert(d[position as int] == e);
        axis::lemma_axis_position_unique(d, a, position as int);
        lemma_rewrite_insert_dropped(x, position as int, e, geometry::drop_axis(a));
        assert forall|i: int| 0 <= i < x.len() implies #[trigger] geometry::drop_axis(a)(x[i]) == Some(
            x[i],
        ) by {
            if x[i].0 == a {
                assert(axis::has_axis(x, a));
            }
        }
        geometry::lemma_rewrite_identity(x, geometry::drop_axis(a));
        assert(geometry::rewrite(d, geometry::drop_axis(a)) == x);
        assert(axis::axis_extent(d, a) == shapes.len());
        assert(axis::shape_outcome(x) == Ok::<Seq<DimView>, Seq<char>>(x));
    }
}

} // verus!
