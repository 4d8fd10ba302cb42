//! Named axes, sized dimensions and shapes whose axes are distinct.
use crate::error::Error;
use vstd::prelude::*;
use vstd::string::StrSliceExecFns;
use vstd::string::StringExecFns;

verus! {

/// The spec view of one dimension: axis name and extent.
pub type DimView = (Seq<char>, usize);

/// A named axis. Two axes are the same axis exactly when their names agree.
#[derive(Clone, Copy, Debug)]
pub struct Axis {
    name: &'static str,
}

impl View for Axis {
    type V = Seq<char>;

    closed spec fn view(&self) -> Seq<char> {
        self.name@
    }
}

/// An axis together with its extent.
#[derive(Clone, Copy, Debug)]
pub struct Dim {
    pub axis: Axis,
    pub extent: usize,
}

impl View for Dim {
    type V = DimView;

    open spec fn view(&self) -> DimView {
        (self.axis@, self.extent)
    }
}

/// The view of a sequence of dimensions.
pub open spec fn dims_view(dims: Seq<Dim>) -> Seq<DimView> {
    dims.map_values(|d: Dim| d@)
}

/// The number of elements a sequence of dimensions spans.
pub open spec fn element_count(v: Seq<DimView>) -> nat
    decreases v.len(),
{
    if v.len() == 0 {
        1
    } else {
        element_count(v.drop_last()) * (v.last().1 as nat)
    }
}

/// No axis name occurs twice.
pub open spec fn distinct_axes(v: Seq<DimView>) -> bool {
    forall|i: int, j: int| 0 <= i < j < v.len() ==> v[i].0 != v[j].0
}

/// What every shape satisfies: distinct axes and an element count that fits `usize`.
pub open spec fn valid_dims(v: Seq<DimView>) -> bool {
    distinct_axes(v) && element_count(v) <= usize::MAX
}

/// `v` carries an axis named `a`.
pub open spec fn has_axis(v: Seq<DimView>, a: Seq<char>) -> bool {
    exists|i: int| 0 <= i < v.len() && v[i].0 == a
}

/// The position of the axis named `a` in `v` (meaningful when `has_axis(v, a)`).
pub open spec fn axis_position(v: Seq<DimView>, a: Seq<char>) -> int {
    choose|i: int| 0 <= i < v.len() && v[i].0 == a
}

/// The extent of the axis named `a` in `v` (meaningful when `has_axis(v, a)`).
pub open spec fn axis_extent(v: Seq<DimView>, a: Seq<char>) -> usize {
    v[axis_position(v, a)].1
}

pub open spec fn missing_axis_message(a: Seq<char>) -> Seq<char> {
    "shape has no axis "@ + a
}

pub open spec fn duplicate_axis_message() -> Seq<char> {
    "shape axes must be distinct"@
}

pub open spec fn element_count_message() -> Seq<char> {
    "shape element count overflows usize"@
}

/// In a shape with distinct axes, a matching position is the position.
pub proof fn lemma_axis_position_unique(v: Seq<DimView>, a: Seq<char>, i: int)
    requires
        distinct_axes(v),
        0 <= i < v.len(),
        v[i].0 == a,
    ensures
        has_axis(v, a),
        axis_position(v, a) == i,
        axis_extent(v, a) == v[i].1,
{
    let j = axis_position(v, a);
    assert(0 <= j < v.len() && v[j].0 == a);
    if j < i {
        assert(v[j].0 != v[i].0);
    } else if i < j {
        assert(v[i].0 != v[j].0);
    }
}

proof fn lemma_element_count_step(v: Seq<DimView>, i: int)
    requires
        0 <= i < v.len(),
    ensures
        element_count(v.take(i + 1)) == element_count(v.take(i)) * (v[i].1 as nat),
{
    assert(v.take(i + 1).drop_last() =~= v.take(i));
}

impl Axis {
    /// An axis named `name`.
    pub fn new(name: &'static str) -> (a: Axis)
        ensures
            a@ == name@,
    {
        Axis { name }
    }

    pub fn name(&self) -> (s: &'static str)
        ensures
            s@ == self@,
    {
        self.name
    }

    /// Whether both axes carry the same name.
    pub fn same(&self, other: &Axis) -> (b: bool)
        ensures
            b == (self@ == other@),
    {
        let n = self.name.unicode_len();
        if n != other.name.unicode_len() {
            return false;
        }
        let mut i: usize = 0;
        while i < n
            invariant
                n == self@.len(),
                n == other@.len(),
                i <= n,
                forall|j: int| 0 <= j < i ==> self@[j] == other@[j],
            decreases n - i,
        {
            if self.name.get_char(i) != other.name.get_char(i) {
                return false;
            }
            i = i + 1;
        }
        assert(self@ =~= other@);
        true
    }

    /// This axis at the given extent.
    pub fn of(self, extent: usize) -> (d: Dim)
        ensures
            d.axis == self,
            d.extent == extent,
    {
        Dim { axis: self, extent }
    }
}

/// An ordered list of dimensions with distinct axes.
#[derive(Debug)]
pub struct Shape {
    dims: Vec<Dim>,
}

impl View for Shape {
    type V = Seq<DimView>;

    closed spec fn view(&self) -> Seq<DimView> {
        dims_view(self.dims@)
    }
}

impl Clone for Shape {
    fn clone(&self) -> (s: Self)
        ensures
            s@ == self@,
    {
        proof {
            use_type_invariant(self);
        }
        Shape { dims: self.dims.clone() }
    }
}

impl Shape {
    /// Every shape has distinct axes and an element count that fits `usize`.
    #[verifier::type_invariant]
    pub open spec fn well_formed(self) -> bool {
        valid_dims(self@)
    }

    /// A shape over `dims`; rejects a repeated axis, then an element count beyond `usize`.
    pub fn new(dims: Vec<Dim>) -> (r: Result<Shape, Error>)
        ensures
            r is Ok <==> valid_dims(dims_view(dims@)),
            r matches Ok(s) ==> s@ == dims_view(dims@),
            !distinct_axes(dims_view(dims@)) ==> r is Err && r->Err_0@ == duplicate_axis_message(),
            distinct_axes(dims_view(dims@)) && !valid_dims(dims_view(dims@)) ==> r is Err
                && r->Err_0@ == element_count_message(),
    {
        let ghost v = dims_view(dims@);
        let n = dims.len();
        let mut i: usize = 0;
        while i < n
            invariant
                n == dims@.len(),
                v == dims_view(dims@),
                i <= n,
                distinct_axes(v.take(i as int)),
            decreases n - i,
        {
            let mut j: usize = 0;
            while j < i
                invariant
                    n == dims@.len(),
                    v == dims_view(dims@),
                    i < n,
                    j <= i,
                    forall|k: int| 0 <= k < j ==> v[k].0 != v[i as int].0,
                decreases i - j,
            {
                if dims[j].axis.same(&dims[i].axis) {
                    proof {
                        assert(v[j as int].0 == v[i as int].0);
                        assert(!distinct_axes(v));
                    }
                    return Err(Error::new(String::from_str("shape axes must be distinct")));
                }
                j = j + 1;
            }
            proof {
                let t = v.take(i + 1);
                assert forall|a: int, b: int| 0 <= a < b < t.len() implies #[trigger] t[a].0
                    != #[trigger] t[b].0 by {
                    if b < i {
                        assert(v.take(i as int)[a] == v[a]);
                        assert(v.take(i as int)[b] == v[b]);
                    }
                }
            }
            i = i + 1;
        }
        assert(v.take(n as int) =~= v);
        if !has_zero_extent(&dims) {
            let mut count: usize = 1;
            let mut k: usize = 0;
            while k < n
                invariant
                    n == dims@.len(),
                    v == dims_view(dims@),
                    distinct_axes(v),
                    forall|i: int| 0 <= i < v.len() ==> #[trigger] v[i].1 != 0,
                    k <= n,
                    count as nat == element_count(v.take(k as int)),
                decreases n - k,
            {
                proof {
                    lemma_element_count_step(v, k as int);
                }
                match count.checked_mul(dims[k].extent) {
                    Some(next) => {
                        count = next;
                    },
                    None => {
                        proof {
                            lemma_element_count_prefix_bound(v, k as int + 1);
                        }
                        return Err(
                            Error::new(String::from_str("shape element count overflows usize")),
                        );
                    },
                }
                k = k + 1;
            }
            assert(v.take(n as int) =~= v);
        } else {
            proof {
                lemma_element_count_zero(v);
            }
        }
        Ok(Shape { dims })
    }

    /// The dimensions in order.
    pub fn dims(&self) -> (d: &[Dim])
        ensures
            dims_view(d@) == self@,
    {
        self.dims.as_slice()
    }

    pub fn rank(&self) -> (n: usize)
        ensures
            n == self@.len(),
    {
        self.dims.len()
    }

    /// The number of elements.
    pub fn len(&self) -> (n: usize)
        ensures
            n as nat == element_count(self@),
    {
        proof {
            use_type_invariant(self);
        }
        let ghost v = self@;
        if has_zero_extent(&self.dims) {
            proof {
                lemma_element_count_zero(v);
            }
            return 0;
        }
        let n = self.dims.len();
        let mut count: usize = 1;
        let mut k: usize = 0;
        while k < n
            invariant
                n == v.len(),
                v == dims_view(self.dims@),
                valid_dims(v),
                forall|i: int| 0 <= i < v.len() ==> #[trigger] v[i].1 != 0,
                k <= n,
                count as nat == element_count(v.take(k as int)),
            decreases n - k,
        {
            proof {
                lemma_element_count_step(v, k as int);
                lemma_element_count_prefix_bound(v, k as int + 1);
            }
            count = count * self.dims[k].extent;
            k = k + 1;
        }
        assert(v.take(n as int) =~= v);
        count
    }

    pub fn contains(&self, axis: Axis) -> (b: bool)
        ensures
            b == has_axis(self@, axis@),
    {
        match self.position(axis) {
            Some(_) => true,
            None => false,
        }
    }

    fn position(&self, axis: Axis) -> (p: Option<usize>)
        ensures
            p matches Some(i) ==> i < self@.len() && self@[i as int].0 == axis@ && axis_position(
                self@,
                axis@,
            ) == i && axis_extent(self@, axis@) == self@[i as int].1,
            p is None <==> !has_axis(self@, axis@),
    {
        proof {
            use_type_invariant(self);
        }
        let n = self.dims.len();
        let mut i: usize = 0;
        while i < n
            invariant
                n == self@.len(),
                self@ == dims_view(self.dims@),
                valid_dims(self@),
                i <= n,
                forall|j: int| 0 <= j < i ==> self@[j].0 != axis@,
            decreases n - i,
        {
            if self.dims[i].axis.same(&axis) {
                proof {
                    lemma_axis_position_unique(self@, axis@, i as int);
                }
                return Some(i);
            }
            i = i + 1;
        }
        None
    }

    /// The position of `axis`, or an error when the shape lacks it.
    pub fn index(&self, axis: Axis) -> (r: Result<usize, Error>)
        ensures
            r is Ok <==> has_axis(self@, axis@),
            r matches Ok(i) ==> i < self@.len() && self@[i as int].0 == axis@ && i
                == axis_position(self@, axis@),
            r matches Err(e) ==> e@ == missing_axis_message(axis@),
    {
        match self.position(axis) {
            Some(i) => Ok(i),
            None => Err(missing_axis(axis)),
        }
    }

    /// The extent of `axis`, or an error when the shape lacks it.
    pub fn extent(&self, axis: Axis) -> (r: Result<usize, Error>)
        ensures
            r is Ok <==> has_axis(self@, axis@),
            r matches Ok(e) ==> e == axis_extent(self@, axis@),
            r matches Err(e) ==> e@ == missing_axis_message(axis@),
    {
        match self.position(axis) {
            Some(i) => Ok(self.dims[i].extent),
            None => Err(missing_axis(axis)),
        }
    }

    /// The axes in order.
    pub fn axes(&self) -> (a: Vec<Axis>)
        ensures
            a@.len() == self@.len(),
            forall|i: int| 0 <= i < a@.len() ==> #[trigger] a@[i]@ == self@[i].0,
    {
        let n = self.dims.len();
        let mut out: Vec<Axis> = Vec::new();
        let mut i: usize = 0;
        while i < n
            invariant
                n == self@.len(),
                self@ == dims_view(self.dims@),
                i <= n,
                out@.len() == i,
                forall|j: int| 0 <= j < i ==> #[trigger] out@[j]@ == self@[j].0,
            decreases n - i,
        {
            out.push(self.dims[i].axis);
            i = i + 1;
        }
        out
    }
}

/// An element count beyond `usize` stays beyond it once more extents multiply in.
proof fn lemma_element_count_prefix_bound(v: Seq<DimView>, k: int)
    requires
        0 <= k <= v.len(),
    ensures
        element_count(v.take(k)) > usize::MAX ==> element_count(v) > usize::MAX || exists|i: int|
            0 <= i < v.len() && v[i].1 == 0,
    decreases v.len() - k,
{
    if k < v.len() {
        lemma_element_count_prefix_bound(v, k + 1);
        lemma_element_count_step(v, k);
        if element_count(v.take(k)) > usize::MAX && v[k].1 != 0 {
            assert(element_count(v.take(k)) * (v[k].1 as nat) >= element_count(v.take(k)))
                by (nonlinear_arith)
                requires
                    v[k].1 != 0,
            ;
        }
    } else {
        assert(v.take(k) =~= v);
    }
}

/// Whether some dimension has extent zero.
fn has_zero_extent(dims: &Vec<Dim>) -> (b: bool)
    ensures
        b == exists|i: int| 0 <= i < dims@.len() && #[trigger] dims_view(dims@)[i].1 == 0,
{
    let n = dims.len();
    let mut i: usize = 0;
    while i < n
        invariant
            n == dims@.len(),
            i <= n,
            forall|j: int| 0 <= j < i ==> #[trigger] dims_view(dims@)[j].1 != 0,
        decreases n - i,
    {
        if dims[i].extent == 0 {
            assert(dims_view(dims@)[i as int].1 == 0);
            return true;
        }
        i = i + 1;
    }
    false
}

/// A zero extent makes the element count zero.
proof fn lemma_element_count_zero(v: Seq<DimView>)
    requires
        exists|i: int| 0 <= i < v.len() && #[trigger] v[i].1 == 0,
    ensures
        element_count(v) == 0,
    decreases v.len(),
{
    let i = choose|i: int| 0 <= i < v.len() && #[trigger] v[i].1 == 0;
    if i == v.len() - 1 {
        assert(element_count(v) == element_count(v.drop_last()) * 0);
    } else {
        assert(v.drop_last()[i] == v[i]);
        lemma_element_count_zero(v.drop_last());
        assert(element_count(v) == 0 * (v.last().1 as nat));
    }
}

/// The first problem with selecting the axes named `sel` from `v`, in order: a missing
/// axis, or an axis named twice.
pub open spec fn selection_error(v: Seq<DimView>, sel: Seq<Seq<char>>) -> Option<Seq<char>>
    decreases sel.len(),
{
    if sel.len() == 0 {
        None
    } else {
        match selection_error(v, sel.drop_last()) {
            Some(m) => Some(m),
            None => {
                let a = sel.last();
                if !has_axis(v, a) {
                    Some(missing_axis_message(a))
                } else if sel.drop_last().contains(a) {
                    Some("duplicate axis "@ + crate::text::debug_text(a))
                } else {
                    None
                }
            },
        }
    }
}

/// A clean selection names present, distinct axes.
pub proof fn lemma_selection_present(v: Seq<DimView>, sel: Seq<Seq<char>>, i: int)
    requires
        selection_error(v, sel) is None,
        0 <= i < sel.len(),
    ensures
        has_axis(v, sel[i]),
        forall|j: int| 0 <= j < sel.len() && j != i ==> sel[j] != sel[i],
    decreases sel.len(),
{
    if i < sel.len() - 1 {
        lemma_selection_present(v, sel.drop_last(), i);
        assert(sel.drop_last()[i] == sel[i]);
        assert forall|j: int| 0 <= j < sel.len() && j != i implies sel[j] != sel[i] by {
            if j < sel.len() - 1 {
                assert(sel.drop_last()[j] == sel[j]);
            } else {
                assert(!sel.drop_last().contains(sel.last()));
                assert(sel.drop_last()[i] == sel[i]);
            }
        }
    } else {
        assert forall|j: int| 0 <= j < sel.len() && j != i implies sel[j] != sel[i] by {
            assert(sel.drop_last()[j] == sel[j]);
        }
    }
}

proof fn lemma_selection_error_sticks(v: Seq<DimView>, sel: Seq<Seq<char>>, k: int)
    requires
        0 <= k <= sel.len(),
        selection_error(v, sel.take(k)) is Some,
    ensures
        selection_error(v, sel) == selection_error(v, sel.take(k)),
    decreases sel.len() - k,
{
    if k < sel.len() {
        assert(sel.take(k + 1).drop_last() =~= sel.take(k));
        lemma_selection_error_sticks(v, sel, k + 1);
    } else {
        assert(sel.take(k) =~= sel);
    }
}

impl Shape {
    /// Select `axes` from this shape: each must be present, and none named twice.
    #[verifier::loop_isolation(false)]
    pub fn select_axes(&self, axes: &[Axis]) -> (r: Result<Vec<Axis>, Error>)
        ensures
            selection_error(self@, crate::geometry::names(axes@)) matches Some(m) ==> r is Err
                && r->Err_0@ == m,
            selection_error(self@, crate::geometry::names(axes@)) is None ==> r is Ok && r->Ok_0@
                == axes@,
    {
        let ghost sel = crate::geometry::names(axes@);
        let n = axes.len();
        let mut out: Vec<Axis> = Vec::new();
        let mut i: usize = 0;
        assert(sel.take(0) =~= Seq::<Seq<char>>::empty());
        while i < n
            invariant
                n == axes@.len(),
                sel == crate::geometry::names(axes@),
                i <= n,
                selection_error(self@, sel.take(i as int)) is None,
                out@ == axes@.take(i as int),
            decreases n - i,
        {
            let ghost t = sel.take(i as int + 1);
            assert(t.drop_last() =~= sel.take(i as int));
            assert(t.last() == axes@[i as int]@);
            let a = axes[i];
            if !self.contains(a) {
                proof {
                    lemma_selection_error_sticks(self@, sel, i as int + 1);
                }
                return Err(missing_axis(a));
            }
            let mut j: usize = 0;
            while j < i
                invariant
                    n == axes@.len(),
                    sel == crate::geometry::names(axes@),
                    i < n,
                    j <= i,
                    forall|k: int| 0 <= k < j ==> sel[k] != sel[i as int],
                decreases i - j,
            {
                if axes[j].same(&a) {
                    assert(sel[j as int] == axes@[j as int]@);
                    let mut m = String::from_str("duplicate axis ");
                    m.append(crate::text::debug_quoted(a.name()).as_str());
                    proof {
                        assert(sel.take(i as int)[j as int] == sel[i as int]);
                        assert(t.drop_last().contains(t.last()));
                        lemma_selection_error_sticks(self@, sel, i as int + 1);
                    }
                    return Err(Error::new(m));
                }
                j = j + 1;
            }
            proof {
                if t.drop_last().contains(t.last()) {
                    let k = choose|k: int| 0 <= k < t.drop_last().len() && t.drop_last()[k] == t.last();
                    assert(sel[k] == sel[i as int]);
                }
            }
            out.push(a);
            assert(out@ =~= axes@.take(i as int + 1));
            i = i + 1;
        }
        assert(axes@.take(n as int) =~= axes@);
        assert(sel.take(n as int) =~= sel);
        Ok(out)
    }
}

pub fn missing_axis(axis: Axis) -> (e: Error)
    ensures
        e@ == missing_axis_message(axis@),
{
    let mut message = String::from_str("shape has no axis ");
    message.append(axis.name);
    Error::new(message)
}

} // verus!

verus! {

/// What `Shape::new` makes of `v`: the shape's view, or its rejection message.
pub open spec fn shape_outcome(v: Seq<DimView>) -> Result<Seq<DimView>, Seq<char>> {
    if !distinct_axes(v) {
        Err(duplicate_axis_message())
    } else if element_count(v) > usize::MAX {
        Err(element_count_message())
    } else {
        Ok(v)
    }
}

} // verus!
