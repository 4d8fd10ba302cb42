//! Layer shape contracts: parameter identities, shape-preserving activations, axis merging
//! and splitting, dense, embedding and bilinear layers, and embedding-bag assignment.
use crate::axis::{self, Axis, Dim, DimView, Shape};
use crate::contraction;
use crate::error::Error;
use crate::geometry;
use crate::text;
use vstd::prelude::*;
use vstd::string::StringExecFns;

verus! {

/// The identity of a parameter's shared storage.
#[derive(Clone, Copy, Debug, PartialEq, Eq, Hash, Structural)]
pub struct ParamId(u64);

impl ParamId {
    /// The identity with the given raw number.
    pub fn from_raw(raw: u64) -> (p: ParamId)
        ensures
            p.raw_spec() == raw,
    {
        ParamId(raw)
    }

    pub closed spec fn raw_spec(&self) -> u64 {
        self.0
    }

    /// The raw number of this identity.
    pub fn raw(&self) -> (r: u64)
        ensures
            r == self.raw_spec(),
    {
        self.0
    }
}

/// Parameter-free rectified linear unit; keeps the input shape.
#[derive(Clone, Copy, Debug)]
pub struct ReLU;

/// Parameter-free tanh-form GELU; keeps the input shape.
#[derive(Clone, Copy, Debug)]
pub struct GELU;

/// Parameter-free erf-form GELU; keeps the input shape.
#[derive(Clone, Copy, Debug)]
pub struct ExactGELU;

/// Parameter-free sigmoid linear unit, `x * sigmoid(x)`; keeps the input shape.
#[derive(Clone, Copy, Debug)]
pub struct SiLU;

/// Parameter-free elementwise hyperbolic tangent; keeps the input shape.
#[derive(Clone, Copy, Debug)]
pub struct Tanh;

/// Parameter-free sign quantization with a straight-through backward; keeps the input shape.
#[derive(Clone, Copy, Debug)]
pub struct SignStraightThrough;

/// Parameter-free passthrough, PyTorch's `nn.Identity`.
#[derive(Clone, Copy, Debug)]
pub struct Identity;

impl ReLU {
    pub fn output_shape(&self, input: &Shape) -> (r: Result<Shape, Error>)
        ensures
            r matches Ok(s) && s@ == input@,
    {
        Ok(input.clone())
    }
}

impl GELU {
    pub fn output_shape(&self, input: &Shape) -> (r: Result<Shape, Error>)
        ensures
            r matches Ok(s) && s@ == input@,
    {
        Ok(input.clone())
    }
}

impl ExactGELU {
    pub fn output_shape(&self, input: &Shape) -> (r: Result<Shape, Error>)
        ensures
            r matches Ok(s) && s@ == input@,
    {
        Ok(input.clone())
    }
}

impl SiLU {
    pub fn output_shape(&self, input: &Shape) -> (r: Result<Shape, Error>)
        ensures
            r matches Ok(s) && s@ == input@,
    {
        Ok(input.clone())
    }
}

impl Tanh {
    pub fn output_shape(&self, input: &Shape) -> (r: Result<Shape, Error>)
        ensures
            r matches Ok(s) && s@ == input@,
    {
        Ok(input.clone())
    }
}

impl SignStraightThrough {
    pub fn output_shape(&self, input: &Shape) -> (r: Result<Shape, Error>)
        ensures
            r matches Ok(s) && s@ == input@,
    {
        Ok(input.clone())
    }
}

impl Identity {
    pub fn output_shape(&self, input: &Shape) -> (r: Result<Shape, Error>)
        ensures
            r matches Ok(s) && s@ == input@,
    {
        Ok(input.clone())
    }
}

/// The product of `e`, or `None` when some running product overflows `usize`.
pub open spec fn checked_product(e: Seq<usize>) -> Option<nat>
    decreases e.len(),
{
    if e.len() == 0 {
        Some(1)
    } else {
        match checked_product(e.drop_last()) {
            None => None,
            Some(p) => if p * (e.last() as nat) > usize::MAX {
                None
            } else {
                Some(p * (e.last() as nat))
            },
        }
    }
}

/// Some dimension of `v` has an axis named in `sel`.
pub open spec fn any_selected(v: Seq<DimView>, sel: Seq<Seq<char>>) -> bool {
    exists|i: int| 0 <= i < v.len() && sel.contains(#[trigger] v[i].0)
}

/// `v` with the dimensions named in `sel` merged into `out`, placed where the first of them
/// stood.
pub open spec fn merged(v: Seq<DimView>, sel: Seq<Seq<char>>, out: DimView) -> Seq<DimView>
    decreases v.len(),
{
    if v.len() == 0 {
        Seq::empty()
    } else {
        let r = merged(v.drop_last(), sel, out);
        let d = v.last();
        if sel.contains(d.0) {
            if any_selected(v.drop_last(), sel) {
                r
            } else {
                r.push(out)
            }
        } else {
            r.push(d)
        }
    }
}

/// Flattening `v`: the selected axes must exist and be distinct and nonempty, and their
/// merged extent must fit `usize`.
pub open spec fn flatten_outcome(v: Seq<DimView>, sel: Seq<Seq<char>>, out: Seq<char>) -> Result<
    Seq<DimView>,
    Seq<char>,
> {
    match axis::selection_error(v, sel) {
        Some(m) => Err(m),
        None => if sel.len() == 0 {
            Err("Flatten requires at least one axis to merge"@)
        } else {
            match checked_product(sel.map_values(|a: Seq<char>| axis::axis_extent(v, a))) {
                None => Err("Flatten merged extent overflow"@),
                Some(total) => axis::shape_outcome(merged(v, sel, (out, total as usize))),
            }
        },
    }
}

/// Merge a run of named axes into one, PyTorch's `nn.Flatten` over identities: the caller
/// names the exact axes to fold and the single `output` axis that replaces them.
pub struct Flatten {
    axes: Vec<Axis>,
    output: Axis,
}

impl Flatten {
    pub fn new(axes: Vec<Axis>, output: Axis) -> (f: Self)
        ensures
            f.axes_spec() == geometry::names(axes@),
            f.output_spec() == output@,
    {
        Flatten { axes, output }
    }

    pub closed spec fn axes_spec(&self) -> Seq<Seq<char>> {
        geometry::names(self.axes@)
    }

    pub closed spec fn output_spec(&self) -> Seq<char> {
        self.output@
    }

    /// The merged shape: the selected axes replaced, at the first of them, by the output axis
    /// whose extent is their product.
    pub fn output_shape(&self, input: &Shape) -> (r: Result<Shape, Error>)
        ensures
            flatten_outcome(input@, self.axes_spec(), self.output_spec()) matches Ok(d) ==> r is Ok
                && r->Ok_0@ == d,
            flatten_outcome(input@, self.axes_spec(), self.output_spec()) matches Err(m) ==> r is Err
                && r->Err_0@ == m,
    {
        let ghost sel = geometry::names(self.axes@);
        input.select_axes(self.axes.as_slice())?;
        if self.axes.len() == 0 {
            return Err(Error::new(String::from_str("Flatten requires at least one axis to merge")));
        }
        let ghost ext = sel.map_values(|a: Seq<char>| axis::axis_extent(input@, a));
        let n = self.axes.len();
        let mut total: usize = 1;
        let mut i: usize = 0;
        assert(ext.take(0) =~= Seq::<usize>::empty());
        while i < n
            invariant
                n == self.axes@.len(),
                sel == geometry::names(self.axes@),
                ext == sel.map_values(|a: Seq<char>| axis::axis_extent(input@, a)),
                axis::selection_error(input@, sel) is None,
                i <= n,
                checked_product(ext.take(i as int)) == Some(total as nat),
            decreases n - i,
        {
            assert(ext.take(i as int + 1).drop_last() =~= ext.take(i as int));
            proof {
                axis::lemma_selection_present(input@, sel, i as int);
            }
            let e = match input.extent(self.axes[i]) {
                Ok(e) => e,
                Err(_) => 0,
            };
            assert(ext[i as int] == e);
            match total.checked_mul(e) {
                Some(t) => {
                    total = t;
                },
                None => {
                    proof {
                        lemma_checked_product_none_sticks(ext, i as int + 1);
                    }
                    return Err(Error::new(String::from_str("Flatten merged extent overflow")));
                },
            }
            i = i + 1;
        }
        assert(ext.take(n as int) =~= ext);
        let ghost out = (self.output@, total);
        let ghost v = input@;
        let source = input.dims();
        let m = source.len();
        let mut dims: Vec<Dim> = Vec::new();
        let mut inserted = false;
        let mut j: usize = 0;
        assert(v.take(0) =~= Seq::<DimView>::empty());
        while j < m
            invariant
                m == v.len(),
                v == input@,
                axis::dims_view(source@) == v,
                sel == geometry::names(self.axes@),
                out == (self.output@, total),
                j <= m,
                axis::dims_view(dims@) == merged(v.take(j as int), sel, out),
                inserted == any_selected(v.take(j as int), sel),
            decreases m - j,
        {
            let ghost t = v.take(j as int + 1);
            assert(t.drop_last() =~= v.take(j as int));
            let d = source[j];
            assert(d@ == v[j as int]);
            match geometry::find_axis(self.axes.as_slice(), d.axis) {
                Some(_) => {
                    if !inserted {
                        dims.push(self.output.of(total));
                    }
                    inserted = true;
                    assert(sel.contains(t[j as int].0));
                    assert(any_selected(t, sel));
                },
                None => {
                    dims.push(d);
                    proof {
                        if any_selected(t, sel) {
                            let k = choose|k: int| 0 <= k < t.len() && sel.contains(#[trigger] t[k].0);
                            if k < j {
                                assert(v.take(j as int)[k] == t[k]);
                            }
                        }
                    }
                },
            }
            proof {
                if any_selected(v.take(j as int), sel) {
                    let k = choose|k: int| 0 <= k < j && sel.contains(#[trigger] v.take(j as int)[k].0);
                    assert(t[k] == v.take(j as int)[k]);
                }
            }
            assert(axis::dims_view(dims@) =~= merged(t, sel, out));
            j = j + 1;
        }
        assert(v.take(m as int) =~= v);
        Shape::new(dims)
    }
}

proof fn lemma_checked_product_none_sticks(e: Seq<usize>, k: int)
    requires
        0 <= k <= e.len(),
        checked_product(e.take(k)) is None,
    ensures
        checked_product(e) is None,
    decreases e.len() - k,
{
    if k < e.len() {
        assert(e.take(k + 1).drop_last() =~= e.take(k));
        lemma_checked_product_none_sticks(e, k + 1);
    } else {
        assert(e.take(k) =~= e);
    }
}


/// Splitting axis `a` of `v` into `parts`, spliced in its place.
pub open spec fn unflatten_outcome(v: Seq<DimView>, a: Seq<char>, parts: Seq<DimView>) -> Result<
    Seq<DimView>,
    Seq<char>,
> {
    if !axis::has_axis(v, a) {
        Err(axis::missing_axis_message(a))
    } else {
        match axis::shape_outcome(parts) {
            Err(m) => Err(m),
            Ok(p) => if p.len() == 0 || axis::element_count(p) != axis::axis_extent(v, a) as nat {
                Err("Unflatten output extents must multiply to the source extent"@)
            } else {
                let i = axis::axis_position(v, a);
                axis::shape_outcome(v.take(i) + p + v.skip(i + 1))
            },
        }
    }
}

/// Split one named axis into an ordered list of named axes whose extents multiply back to it,
/// PyTorch's `nn.Unflatten` over identities.
pub struct Unflatten {
    axis: Axis,
    dims: Vec<Dim>,
}

impl Unflatten {
    pub fn new(axis: Axis, dims: Vec<Dim>) -> (u: Self)
        ensures
            u.axis_spec() == axis@,
            u.dims_spec() == axis::dims_view(dims@),
    {
        Unflatten { axis, dims }
    }

    pub closed spec fn axis_spec(&self) -> Seq<char> {
        self.axis@
    }

    pub closed spec fn dims_spec(&self) -> Seq<DimView> {
        axis::dims_view(self.dims@)
    }

    /// The split shape: the source axis replaced in place by the parts.
    pub fn output_shape(&self, input: &Shape) -> (r: Result<Shape, Error>)
        ensures
            unflatten_outcome(input@, self.axis_spec(), self.dims_spec()) matches Ok(d) ==> r is Ok
                && r->Ok_0@ == d,
            unflatten_outcome(input@, self.axis_spec(), self.dims_spec()) matches Err(m) ==> r is Err
                && r->Err_0@ == m,
    {
        let index = input.index(self.axis)?;
        let extent = input.extent(self.axis)?;
        let parts = Shape::new(copy_dims(self.dims.as_slice()))?;
        if parts.rank() == 0 || parts.len() != extent {
            return Err(
                Error::new(
                    String::from_str("Unflatten output extents must multiply to the source extent"),
                ),
            );
        }
        let source = input.dims();
        let source_len = source.len();
        assert(index < source_len);
        let pieces = parts.dims();
        let mut dims: Vec<Dim> = Vec::new();
        let mut i: usize = 0;
        while i < index
            invariant
                i <= index < source@.len(),
                dims@ == source@.take(i as int),
            decreases index - i,
        {
            dims.push(source[i]);
            assert(dims@ =~= source@.take(i as int + 1));
            i = i + 1;
        }
        let mut k: usize = 0;
        while k < pieces.len()
            invariant
                index < source@.len(),
                k <= pieces@.len(),
                dims@ == source@.take(index as int) + pieces@.take(k as int),
            decreases pieces@.len() - k,
        {
            dims.push(pieces[k]);
            assert(dims@ =~= source@.take(index as int) + pieces@.take(k as int + 1));
            k = k + 1;
        }
        assert(pieces@.take(pieces@.len() as int) =~= pieces@);
        let mut j: usize = index + 1;
        while j < source.len()
            invariant
                index < source@.len(),
                index + 1 <= j <= source@.len(),
                dims@ == source@.take(index as int) + pieces@ + source@.subrange(
                    index as int + 1,
                    j as int,
                ),
            decreases source@.len() - j,
        {
            dims.push(source[j]);
            assert(dims@ =~= source@.take(index as int) + pieces@ + source@.subrange(
                index as int + 1,
                j as int + 1,
            ));
            j = j + 1;
        }
        assert(dims@ =~= source@.take(index as int) + pieces@ + source@.skip(index as int + 1));
        assert(axis::dims_view(dims@) =~= input@.take(index as int) + parts@ + input@.skip(
            index as int + 1,
        ));
        Shape::new(dims)
    }
}

/// A copy of `dims`.
fn copy_dims(dims: &[Dim]) -> (r: Vec<Dim>)
    ensures
        r@ == dims@,
{
    let mut r: Vec<Dim> = Vec::new();
    let mut i: usize = 0;
    while i < dims.len()
        invariant
            i <= dims@.len(),
            r@ == dims@.take(i as int),
        decreases dims@.len() - i,
    {
        r.push(dims[i]);
        assert(r@ =~= dims@.take(i as int + 1));
        i = i + 1;
    }
    assert(dims@.take(dims@.len() as int) =~= dims@);
    r
}

/// Pooling mode for an embedding bag, matching PyTorch's `mode` argument.
#[derive(Clone, Copy, Debug, PartialEq, Eq, Structural)]
pub enum EmbeddingBagMode {
    Sum,
    Mean,
    Max,
}

/// Offsets that start at zero, never decrease and stay within `total`; or the first rule
/// they break.
pub open spec fn offsets_error(offsets: Seq<usize>, total: usize) -> Option<Seq<char>> {
    if offsets.len() == 0 {
        Some("EmbeddingBag requires at least one bag"@)
    } else if offsets[0] != 0 {
        Some("EmbeddingBag offsets must start at zero"@)
    } else if exists|i: int| 0 <= i < offsets.len() - 1 && offsets[i] > #[trigger] offsets[i + 1] {
        Some("EmbeddingBag offsets must be non-decreasing"@)
    } else if offsets.last() > total {
        Some("EmbeddingBag offsets exceed the index length"@)
    } else {
        None
    }
}

/// Bag `b` covers positions from `offsets[b]` up to the next bag's start (or `total`).
pub open spec fn bag_end(offsets: Seq<usize>, total: usize, b: int) -> int {
    if b + 1 < offsets.len() {
        offsets[b + 1] as int
    } else {
        total as int
    }
}

/// Expand PyTorch's CSR-style `offsets` (bag `b` starts at `offsets[b]`) into one bag number
/// per position of a length-`total` index.
pub fn embedding_bag_assignment(offsets: &[usize], total: usize) -> (r: Result<Vec<usize>, Error>)
    ensures
        offsets_error(offsets@, total) matches Some(m) ==> r is Err && r->Err_0@ == m,
        offsets_error(offsets@, total) is None ==> r is Ok && r->Ok_0@.len() == total && forall|i: int|
            0 <= i < total ==> {
                let b = #[trigger] r->Ok_0@[i] as int;
                &&& 0 <= b < offsets@.len()
                &&& offsets@[b] <= i < bag_end(offsets@, total, b)
            },
{
    let n = offsets.len();
    if n == 0 {
        return Err(Error::new(String::from_str("EmbeddingBag requires at least one bag")));
    }
    if offsets[0] != 0 {
        return Err(Error::new(String::from_str("EmbeddingBag offsets must start at zero")));
    }
    let mut k: usize = 0;
    while k + 1 < n
        invariant
            n == offsets@.len(),
            n > 0,
            offsets@[0] == 0,
            k + 1 <= n,
            forall|i: int| 0 <= i < k ==> offsets@[i] <= #[trigger] offsets@[i + 1],
        decreases n - k,
    {
        if offsets[k] > offsets[k + 1] {
            assert(offsets@[k as int] > offsets@[k as int + 1]);
            return Err(Error::new(String::from_str("EmbeddingBag offsets must be non-decreasing")));
        }
        k = k + 1;
    }
    if offsets[n - 1] > total {
        return Err(Error::new(String::from_str("EmbeddingBag offsets exceed the index length")));
    }
    proof {
        assert forall|a: int, b: int| 0 <= a <= b < n implies offsets@[a] <= offsets@[b] by {
            lemma_nondecreasing(offsets@, a, b);
        }
    }
    let mut bag: Vec<usize> = Vec::new();
    let mut b: usize = 0;
    while b < n
        invariant
            n == offsets@.len(),
            0 < n,
            offsets@[0] == 0,
            offsets@[n - 1] <= total,
            forall|a: int, c: int| 0 <= a <= c < n ==> offsets@[a] <= offsets@[c],
            b <= n,
            bag@.len() == (if b < n {
                offsets@[b as int] as int
            } else {
                total as int
            }),
            forall|i: int|
                0 <= i < bag@.len() ==> {
                    let c = #[trigger] bag@[i] as int;
                    &&& 0 <= c < n
                    &&& offsets@[c] <= i < bag_end(offsets@, total, c)
                },
        decreases n - b,
    {
        let end = if b + 1 < n {
            offsets[b + 1]
        } else {
            total
        };
        let ghost before = bag@;
        while bag.len() < end
            invariant
                before.len() <= bag@.len() <= end,
                bag@.take(before.len() as int) == before,
                forall|i: int| before.len() <= i < bag@.len() ==> #[trigger] bag@[i] == b,
            decreases end - bag@.len(),
        {
            bag.push(b);
        }
        proof {
            assert forall|i: int| 0 <= i < bag@.len() implies {
                let c = #[trigger] bag@[i] as int;
                &&& 0 <= c < n
                &&& offsets@[c] <= i < bag_end(offsets@, total, c)
            } by {
                if i < before.len() {
                    assert(bag@.take(before.len() as int)[i] == before[i]);
                }
            }
        }
        b = b + 1;
    }
    Ok(bag)
}

proof fn lemma_nondecreasing(s: Seq<usize>, a: int, b: int)
    requires
        0 <= a <= b < s.len(),
        forall|i: int| 0 <= i < s.len() - 1 ==> s[i] <= #[trigger] s[i + 1],
    ensures
        s[a] <= s[b],
    decreases b - a,
{
    if a < b {
        lemma_nondecreasing(s, a, b - 1);
        let i = b - 1;
        assert(s[i] <= s[i + 1]);
    }
}

/// The axis names of `v`, in order.
pub open spec fn dim_names(v: Seq<DimView>) -> Seq<Seq<char>> {
    v.map_values(|d: DimView| d.0)
}

/// Selecting present, pairwise distinct axes raises no problem.
proof fn lemma_selection_clean(v: Seq<DimView>, sel: Seq<Seq<char>>)
    requires
        forall|j: int| 0 <= j < sel.len() ==> axis::has_axis(v, #[trigger] sel[j]),
        forall|a: int, b: int| 0 <= a < b < sel.len() ==> sel[a] != sel[b],
    ensures
        axis::selection_error(v, sel) is None,
    decreases sel.len(),
{
    if sel.len() > 0 {
        let p = sel.drop_last();
        assert forall|j: int| 0 <= j < p.len() implies axis::has_axis(v, #[trigger] p[j]) by {
            assert(p[j] == sel[j]);
        }
        lemma_selection_clean(v, p);
        assert(axis::has_axis(v, sel[sel.len() - 1]));
        if p.contains(sel.last()) {
            let j = choose|j: int| 0 <= j < p.len() && p[j] == sel.last();
            assert(sel[j] != sel[sel.len() - 1]);
        }
    }
}

/// A running product that never overflowed is the element count.
proof fn lemma_checked_product_count(p: Seq<DimView>)
    ensures
        checked_product(p.map_values(|d: DimView| d.1)) matches Some(t) ==> t
            == axis::element_count(p),
    decreases p.len(),
{
    if p.len() > 0 {
        let q = p.drop_last();
        assert(p.map_values(|d: DimView| d.1).drop_last() =~= q.map_values(|d: DimView| d.1));
        lemma_checked_product_count(q);
    }
}

/// The merge of the run `v[i..i + k]` over the first `n` dimensions of `v`.
proof fn lemma_merged_run(v: Seq<DimView>, i: int, k: int, o: DimView, n: int)
    requires
        axis::distinct_axes(v),
        0 <= i,
        0 < k,
        i + k <= v.len(),
        0 <= n <= v.len(),
    ensures
        merged(v.take(n), dim_names(v.subrange(i, i + k)), o) == (if n <= i {
            v.take(n)
        } else if n <= i + k {
            v.take(i).push(o)
        } else {
            v.take(i).push(o) + v.subrange(i + k, n)
        }),
    decreases n,
{
    let sel = dim_names(v.subrange(i, i + k));
    if n > 0 {
        lemma_merged_run(v, i, k, o, n - 1);
        let t = v.take(n);
        assert(t.drop_last() =~= v.take(n - 1));
        assert(t.last() == v[n - 1]);
        assert(sel.contains(v[n - 1].0) <==> i <= n - 1 < i + k) by {
            if i <= n - 1 < i + k {
                assert(sel[n - 1 - i] == v[n - 1].0);
            }
            if sel.contains(v[n - 1].0) {
                let j = choose|j: int| 0 <= j < sel.len() && sel[j] == v[n - 1].0;
                assert(sel[j] == v[i + j].0);
                if i + j != n - 1 {
                    if i + j < n - 1 {
                        assert(v[i + j].0 != v[n - 1].0);
                    } else {
                        assert(v[n - 1].0 != v[i + j].0);
                    }
                }
            }
        }
        assert(any_selected(v.take(n - 1), sel) <==> n - 1 > i) by {
            if n - 1 > i {
                assert(v.take(n - 1)[i] == v[i]);
                assert(sel[0] == v[i].0);
                assert(sel.contains(v.take(n - 1)[i].0));
            }
            if any_selected(v.take(n - 1), sel) {
                let j = choose|j: int|
                    0 <= j < v.take(n - 1).len() && sel.contains(#[trigger] v.take(n - 1)[j].0);
                let m = choose|m: int| 0 <= m < sel.len() && sel[m] == v.take(n - 1)[j].0;
                assert(sel[m] == v[i + m].0);
                assert(v.take(n - 1)[j] == v[j]);
                if j != i + m {
                    if j < i + m {
                        assert(v[j].0 != v[i + m].0);
                    } else {
                        assert(v[i + m].0 != v[j].0);
                    }
                }
            }
        }
        if n <= i {
            assert(v.take(n - 1).push(v[n - 1]) =~= v.take(n));
        } else if n == i + 1 {
            assert(v.take(n - 1) =~= v.take(i));
        } else if n <= i + k {
        } else if n == i + k + 1 {
            assert(v.take(i).push(o).push(v[n - 1]) =~= v.take(i).push(o) + v.subrange(i + k, n));
        } else {
            assert((v.take(i).push(o) + v.subrange(i + k, n - 1)).push(v[n - 1]) =~= v.take(i).push(
                o,
            ) + v.subrange(i + k, n));
        }
    }
}

proof fn lemma_checked_product_fits(e: Seq<usize>)
    ensures
        checked_product(e) matches Some(t) ==> t <= usize::MAX,
    decreases e.len(),
{
    if e.len() > 0 {
        lemma_checked_product_fits(e.drop_last());
    }
}

/// The element count of a concatenation is the product of the parts' counts.
proof fn lemma_element_count_concat(a: Seq<DimView>, b: Seq<DimView>)
    ensures
        axis::element_count(a + b) == axis::element_count(a) * axis::element_count(b),
    decreases b.len(),
{
    if b.len() == 0 {
        assert(a + b =~= a);
    } else {
        let c = b.drop_last();
        lemma_element_count_concat(a, c);
        assert((a + b).drop_last() =~= a + c);
        assert((a + b).last() == b.last());
        let x = axis::element_count(a);
        let y = axis::element_count(c);
        let z = b.last().1 as nat;
        assert(x * y * z == x * (y * z)) by (nonlinear_arith);
    }
}

/// Unflatten undoes Flatten: flattening a contiguous run of a shape's axes, in their order,
/// into an output axis that none of the other axes is named, and then splitting that output
/// axis back into the run's dimensions gives back the input shape.
pub proof fn lemma_unflatten_undoes_flatten(v: Seq<DimView>, i: int, k: int, out: Seq<char>)
    requires
        axis::valid_dims(v),
        0 <= i,
        0 < k,
        i + k <= v.len(),
        forall|j: int| 0 <= j < v.len() && !(i <= j < i + k) ==> (#[trigger] v[j]).0 != out,
    ensures
        checked_product(v.subrange(i, i + k).map_values(|d: DimView| d.1)) is Some
            ==> flatten_outcome(v, dim_names(v.subrange(i, i + k)), out) is Ok,
        flatten_outcome(v, dim_names(v.subrange(i, i + k)), out) matches Ok(w) ==> unflatten_outcome(
            w,
            out,
            v.subrange(i, i + k),
        ) == Ok::<Seq<DimView>, Seq<char>>(v),
{
    let p = v.subrange(i, i + k);
    let sel = dim_names(p);
    assert forall|j: int| 0 <= j < sel.len() implies axis::has_axis(v, #[trigger] sel[j]) by {
        assert(v[i + j].0 == sel[j]);
    }
    assert forall|a: int, b: int| 0 <= a < b < sel.len() implies sel[a] != sel[b] by {
        assert(v[i + a].0 != v[i + b].0);
    }
    lemma_selection_clean(v, sel);
    let ext = sel.map_values(|a: Seq<char>| axis::axis_extent(v, a));
    assert(ext =~= p.map_values(|d: DimView| d.1)) by {
        assert forall|j: int| 0 <= j < ext.len() implies ext[j] == p.map_values(|d: DimView| d.1)[j] by {
            axis::lemma_axis_position_unique(v, sel[j], i + j);
        }
    }
    lemma_checked_product_count(p);
    if let Some(total) = checked_product(ext) {
        let o = (out, total as usize);
        let rest = v.subrange(i + k, v.len() as int);
        lemma_merged_run(v, i, k, o, v.len() as int);
        assert(v.take(v.len() as int) =~= v);
        let m = v.take(i).push(o) + rest;
        assert(v =~= v.take(i) + p + rest);
        lemma_element_count_concat(v.take(i) + p, rest);
        lemma_element_count_concat(v.take(i), p);
        lemma_element_count_concat(v.take(i).push(o), rest);
        lemma_checked_product_fits(ext);
        assert(v.take(i).push(o).drop_last() =~= v.take(i));
        assert(axis::element_count(v.take(i).push(o)) == axis::element_count(v.take(i)) * total);
        assert(axis::distinct_axes(m)) by {
            assert forall|a: int, b: int| 0 <= a < b < m.len() implies m[a].0 != m[b].0 by {
                let va = if a < i { a } else if a == i { i } else { a + k - 1 };
                let vb = if b < i { b } else if b == i { i } else { b + k - 1 };
                if a == i {
                    assert(m[b] == v[vb]);
                } else if b == i {
                    assert(m[a] == v[va]);
                } else {
                    assert(m[a] == v[va] && m[b] == v[vb]);
                    assert(v[va].0 != v[vb].0);
                }
            }
        }
    }
    if let Ok(w) = flatten_outcome(v, sel, out) {
        let total = checked_product(ext)->Some_0;
        let o = (out, total as usize);
        lemma_merged_run(v, i, k, o, v.len() as int);
        assert(v.take(v.len() as int) =~= v);
        assert(w == v.take(i).push(o) + v.subrange(i + k, v.len() as int));
        assert(w[i] == o);
        axis::lemma_axis_position_unique(w, out, i);
        assert(axis::distinct_axes(p)) by {
            assert forall|a: int, b: int| 0 <= a < b < p.len() implies p[a].0 != p[b].0 by {
                assert(v[i + a].0 != v[i + b].0);
            }
        }
        assert(axis::shape_outcome(p) == Ok::<Seq<DimView>, Seq<char>>(p));
        assert(w.take(i) + p + w.skip(i + 1) =~= v);
    }
}

} // verus!

verus! {

/// A layer that contracts axis `a` of `v` away and appends `out`, whose parameters, once
/// built, fix the extent of `a` (a different one is rejected with `mismatch`).
pub open spec fn contracted_outcome(
    v: Seq<DimView>,
    a: Seq<char>,
    out: DimView,
    bound: Option<usize>,
    mismatch: Seq<char>,
) -> Result<Seq<DimView>, Seq<char>> {
    if !axis::has_axis(v, a) {
        Err(axis::missing_axis_message(a))
    } else if bound is Some && bound->Some_0 != axis::axis_extent(v, a) {
        Err(mismatch)
    } else {
        axis::shape_outcome(geometry::rewrite(v, geometry::drop_axis(a)).push(out))
    }
}

/// The shape part of [`contracted_outcome`].
pub(crate) fn contract_axis(input: &Shape, a: Axis, out: Dim, bound: Option<usize>, mismatch: &str) -> (r:
    Result<Shape, Error>)
    ensures
        contracted_outcome(input@, a@, out@, bound, mismatch@) matches Ok(d) ==> r is Ok && r->Ok_0@
            == d,
        contracted_outcome(input@, a@, out@, bound, mismatch@) matches Err(m) ==> r is Err
            && r->Err_0@ == m,
{
    let extent = input.extent(a)?;
    if let Some(b) = bound {
        if b != extent {
            return Err(Error::new(String::from_str(mismatch)));
        }
    }
    let mut dims = geometry::dims_without(input.dims(), a);
    let ghost kept = dims@;
    dims.push(out);
    assert(axis::dims_view(dims@) =~= axis::dims_view(kept).push(out@));
    Shape::new(dims)
}

/// A learned affine map over one named axis: the `input` axis is contracted away and the
/// `output` dimension appended, every other axis passing through. Only the layer's shape
/// algebra lives here: the extent of `input` its parameters were built for, and the bias flag.
pub struct Linear {
    input: Axis,
    output: Dim,
    bias: bool,
    bound: Option<usize>,
}

impl Linear {
    pub closed spec fn input_spec(&self) -> Seq<char> {
        self.input@
    }

    pub closed spec fn output_spec(&self) -> DimView {
        self.output@
    }

    pub closed spec fn has_bias(&self) -> bool {
        self.bias
    }

    /// The input extent recorded when the parameters were built, if they were.
    pub closed spec fn bound_spec(&self) -> Option<usize> {
        self.bound
    }

    pub fn new(input: Axis, output: Dim) -> (l: Self)
        ensures
            l.input_spec() == input@,
            l.output_spec() == output@,
            l.has_bias(),
            l.bound_spec() is None,
    {
        Linear { input, output, bias: true, bound: None }
    }

    /// Keep or drop the learned bias term; it decides nothing once the layer is built.
    pub fn bias(self, bias: bool) -> (l: Self)
        ensures
            l.input_spec() == self.input_spec(),
            l.output_spec() == self.output_spec(),
            l.has_bias() == bias,
            l.bound_spec() == self.bound_spec(),
    {
        Linear { bias, ..self }
    }

    /// The input without the `input` axis, then the output dimension.
    pub fn output_shape(&self, input: &Shape) -> (r: Result<Shape, Error>)
        ensures
            contracted_outcome(
                input@,
                self.input_spec(),
                self.output_spec(),
                self.bound_spec(),
                "Linear input extent differs from its built extent"@,
            ) matches Ok(d) ==> r is Ok && r->Ok_0@ == d,
            contracted_outcome(
                input@,
                self.input_spec(),
                self.output_spec(),
                self.bound_spec(),
                "Linear input extent differs from its built extent"@,
            ) matches Err(m) ==> r is Err && r->Err_0@ == m,
    {
        contract_axis(
            input,
            self.input,
            self.output,
            self.bound,
            "Linear input extent differs from its built extent",
        )
    }

    /// Record that the layer's parameters were built for `input`, as a successful build does,
    /// and give the output shape. The first record keeps the input extent; a later one changes
    /// nothing.
    pub fn bind(&mut self, input: &Shape) -> (r: Result<Shape, Error>)
        ensures
            contracted_outcome(
                input@,
                old(self).input_spec(),
                old(self).output_spec(),
                old(self).bound_spec(),
                "Linear input extent differs from its built extent"@,
            ) matches Ok(d) ==> r is Ok && r->Ok_0@ == d,
            contracted_outcome(
                input@,
                old(self).input_spec(),
                old(self).output_spec(),
                old(self).bound_spec(),
                "Linear input extent differs from its built extent"@,
            ) matches Err(m) ==> r is Err && r->Err_0@ == m,
            final(self).input_spec() == old(self).input_spec(),
            final(self).output_spec() == old(self).output_spec(),
            final(self).has_bias() == old(self).has_bias(),
            final(self).bound_spec() == (if r is Ok && old(self).bound_spec() is None {
                Some(axis::axis_extent(input@, old(self).input_spec()))
            } else {
                old(self).bound_spec()
            }),
    {
        let shape = self.output_shape(input)?;
        if self.bound.is_none() {
            self.bound = Some(input.extent(self.input)?);
        }
        Ok(shape)
    }
}

/// A lookup table over a one-hot `vocabulary` axis: that axis is contracted away and the
/// `feature` dimension appended. Only the shape algebra lives here, with the vocabulary
/// extent the table was built for.
pub struct Embedding {
    vocabulary: Axis,
    feature: Dim,
    bound: Option<usize>,
}

impl Embedding {
    pub closed spec fn vocabulary_spec(&self) -> Seq<char> {
        self.vocabulary@
    }

    pub closed spec fn feature_spec(&self) -> DimView {
        self.feature@
    }

    /// The vocabulary extent recorded when the table was built, if it was.
    pub closed spec fn bound_spec(&self) -> Option<usize> {
        self.bound
    }

    pub fn new(vocabulary: Axis, feature: Dim) -> (e: Self)
        ensures
            e.vocabulary_spec() == vocabulary@,
            e.feature_spec() == feature@,
            e.bound_spec() is None,
    {
        Embedding { vocabulary, feature, bound: None }
    }

    /// The input without the vocabulary axis, then the feature dimension.
    pub fn output_shape(&self, input: &Shape) -> (r: Result<Shape, Error>)
        ensures
            contracted_outcome(
                input@,
                self.vocabulary_spec(),
                self.feature_spec(),
                self.bound_spec(),
                "Embedding vocabulary extent differs from its built extent"@,
            ) matches Ok(d) ==> r is Ok && r->Ok_0@ == d,
            contracted_outcome(
                input@,
                self.vocabulary_spec(),
                self.feature_spec(),
                self.bound_spec(),
                "Embedding vocabulary extent differs from its built extent"@,
            ) matches Err(m) ==> r is Err && r->Err_0@ == m,
    {
        contract_axis(
            input,
            self.vocabulary,
            self.feature,
            self.bound,
            "Embedding vocabulary extent differs from its built extent",
        )
    }

    /// Record that the layer's parameters were built for `input`, as a successful build does,
    /// and give the output shape. The first record keeps the vocabulary extent; a later one
    /// changes nothing.
    pub fn bind(&mut self, input: &Shape) -> (r: Result<Shape, Error>)
        ensures
            contracted_outcome(
                input@,
                old(self).vocabulary_spec(),
                old(self).feature_spec(),
                old(self).bound_spec(),
                "Embedding vocabulary extent differs from its built extent"@,
            ) matches Ok(d) ==> r is Ok && r->Ok_0@ == d,
            contracted_outcome(
                input@,
                old(self).vocabulary_spec(),
                old(self).feature_spec(),
                old(self).bound_spec(),
                "Embedding vocabulary extent differs from its built extent"@,
            ) matches Err(m) ==> r is Err && r->Err_0@ == m,
            final(self).vocabulary_spec() == old(self).vocabulary_spec(),
            final(self).feature_spec() == old(self).feature_spec(),
            final(self).bound_spec() == (if r is Ok && old(self).bound_spec() is None {
                Some(axis::axis_extent(input@, old(self).vocabulary_spec()))
            } else {
                old(self).bound_spec()
            }),
    {
        let shape = self.output_shape(input)?;
        if self.bound.is_none() {
            self.bound = Some(input.extent(self.vocabulary)?);
        }
        Ok(shape)
    }
}

/// Adding a `[position, feature]` table: the shape is unchanged, the two axes must differ
/// and be present, and a built table fixes both extents.
pub open spec fn position_embedding_outcome(
    v: Seq<DimView>,
    position: Seq<char>,
    feature: Seq<char>,
    bound: Option<(usize, usize)>,
) -> Result<Seq<DimView>, Seq<char>> {
    if position == feature {
        Err("PositionEmbedding requires distinct position and feature axes"@)
    } else if !axis::has_axis(v, position) {
        Err(axis::missing_axis_message(position))
    } else if !axis::has_axis(v, feature) {
        Err(axis::missing_axis_message(feature))
    } else if bound is Some && bound->Some_0 != (
    axis::axis_extent(v, position),
    axis::axis_extent(v, feature),
    ) {
        Err("PositionEmbedding input extents differ from its built extents"@)
    } else {
        Ok(v)
    }
}

/// One learned vector per position, added over every other axis. Only the shape algebra
/// lives here, with the position and feature extents the table was built for.
pub struct PositionEmbedding {
    position: Axis,
    feature: Axis,
    bound: Option<(usize, usize)>,
}

impl PositionEmbedding {
    pub closed spec fn position_spec(&self) -> Seq<char> {
        self.position@
    }

    pub closed spec fn feature_spec(&self) -> Seq<char> {
        self.feature@
    }

    /// The (position, feature) extents recorded when the table was built, if it was.
    pub closed spec fn bound_spec(&self) -> Option<(usize, usize)> {
        self.bound
    }

    pub fn new(position: Axis, feature: Axis) -> (p: Self)
        ensures
            p.position_spec() == position@,
            p.feature_spec() == feature@,
            p.bound_spec() is None,
    {
        PositionEmbedding { position, feature, bound: None }
    }

    /// The input shape itself, once the axes check out.
    pub fn output_shape(&self, input: &Shape) -> (r: Result<Shape, Error>)
        ensures
            position_embedding_outcome(
                input@,
                self.position_spec(),
                self.feature_spec(),
                self.bound_spec(),
            ) matches Ok(d) ==> r is Ok && r->Ok_0@ == d,
            position_embedding_outcome(
                input@,
                self.position_spec(),
                self.feature_spec(),
                self.bound_spec(),
            ) matches Err(m) ==> r is Err && r->Err_0@ == m,
    {
        if self.position.same(&self.feature) {
            return Err(
                Error::new(
                    String::from_str(
                        "PositionEmbedding requires distinct position and feature axes",
                    ),
                ),
            );
        }
        let positions = input.extent(self.position)?;
        let features = input.extent(self.feature)?;
        if let Some((p, f)) = self.bound {
            if p != positions || f != features {
                return Err(
                    Error::new(
                        String::from_str(
                            "PositionEmbedding input extents differ from its built extents",
                        ),
                    ),
                );
            }
        }
        Ok(input.clone())
    }

    /// Record that the layer's parameters were built for `input`, as a successful build does,
    /// and give the output shape. The first record keeps the extents; a later one changes
    /// nothing.
    pub fn bind(&mut self, input: &Shape) -> (r: Result<Shape, Error>)
        ensures
            position_embedding_outcome(
                input@,
                old(self).position_spec(),
                old(self).feature_spec(),
                old(self).bound_spec(),
            ) matches Ok(d) ==> r is Ok && r->Ok_0@ == d,
            position_embedding_outcome(
                input@,
                old(self).position_spec(),
                old(self).feature_spec(),
                old(self).bound_spec(),
            ) matches Err(m) ==> r is Err && r->Err_0@ == m,
            final(self).position_spec() == old(self).position_spec(),
            final(self).feature_spec() == old(self).feature_spec(),
            final(self).bound_spec() == (if r is Ok && old(self).bound_spec() is None {
                Some(
                    (
                        axis::axis_extent(input@, old(self).position_spec()),
                        axis::axis_extent(input@, old(self).feature_spec()),
                    ),
                )
            } else {
                old(self).bound_spec()
            }),
    {
        let shape = self.output_shape(input)?;
        if self.bound.is_none() {
            let positions = input.extent(self.position)?;
            let features = input.extent(self.feature)?;
            self.bound = Some((positions, features));
        }
        Ok(shape)
    }
}

/// A family of linear maps sharing one `population` axis: the input axis is contracted away,
/// the population dimension appended unless the input already carries it (at the same
/// extent), then the output dimension.
pub open spec fn population_linear_outcome(
    v: Seq<DimView>,
    population: DimView,
    input: Seq<char>,
    output: DimView,
    bound: Option<usize>,
) -> Result<Seq<DimView>, Seq<char>> {
    if !axis::has_axis(v, input) {
        Err(axis::missing_axis_message(input))
    } else if bound is Some && bound->Some_0 != axis::axis_extent(v, input) {
        Err("PopulationLinear input extent differs from its built extent"@)
    } else if axis::has_axis(v, population.0) && axis::axis_extent(v, population.0)
        != population.1 {
        Err("PopulationLinear population extent mismatch"@)
    } else {
        let kept = geometry::rewrite(v, geometry::drop_axis(input));
        if axis::has_axis(v, population.0) {
            axis::shape_outcome(kept.push(output))
        } else {
            axis::shape_outcome(kept.push(population).push(output))
        }
    }
}

/// Independent linear maps, one per member of an explicit population axis. Inputs without
/// the population axis are broadcast to every member. Only the shape algebra lives here,
/// with the input extent the parameters were built for.
pub struct PopulationLinear {
    population: Dim,
    input: Axis,
    output: Dim,
    bound: Option<usize>,
}

impl PopulationLinear {
    pub closed spec fn population_spec(&self) -> DimView {
        self.population@
    }

    pub closed spec fn input_spec(&self) -> Seq<char> {
        self.input@
    }

    pub closed spec fn output_spec(&self) -> DimView {
        self.output@
    }

    /// The input extent recorded when the parameters were built, if they were.
    pub closed spec fn bound_spec(&self) -> Option<usize> {
        self.bound
    }

    pub fn new(population: Dim, input: Axis, output: Dim) -> (l: Self)
        ensures
            l.population_spec() == population@,
            l.input_spec() == input@,
            l.output_spec() == output@,
            l.bound_spec() is None,
    {
        PopulationLinear { population, input, output, bound: None }
    }

    /// The input without the input axis, the population dimension if the input lacks it, then
    /// the output dimension.
    pub fn output_shape(&self, input: &Shape) -> (r: Result<Shape, Error>)
        ensures
            population_linear_outcome(
                input@,
                self.population_spec(),
                self.input_spec(),
                self.output_spec(),
                self.bound_spec(),
            ) matches Ok(d) ==> r is Ok && r->Ok_0@ == d,
            population_linear_outcome(
                input@,
                self.population_spec(),
                self.input_spec(),
                self.output_spec(),
                self.bound_spec(),
            ) matches Err(m) ==> r is Err && r->Err_0@ == m,
    {
        let extent = input.extent(self.input)?;
        if let Some(b) = self.bound {
            if b != extent {
                return Err(
                    Error::new(
                        String::from_str(
                            "PopulationLinear input extent differs from its built extent",
                        ),
                    ),
                );
            }
        }
        let present = input.contains(self.population.axis);
        if present {
            let members = input.extent(self.population.axis)?;
            if members != self.population.extent {
                return Err(
                    Error::new(String::from_str("PopulationLinear population extent mismatch")),
                );
            }
        }
        let mut dims = geometry::dims_without(input.dims(), self.input);
        let ghost kept = dims@;
        if !present {
            dims.push(self.population);
        }
        dims.push(self.output);
        if present {
            assert(axis::dims_view(dims@) =~= axis::dims_view(kept).push(self.output@));
        } else {
            assert(axis::dims_view(dims@) =~= axis::dims_view(kept).push(self.population@).push(
                self.output@,
            ));
        }
        Shape::new(dims)
    }

    /// Record that the layer's parameters were built for `input`, as a successful build does,
    /// and give the output shape. The first record keeps the input extent; a later one changes
    /// nothing.
    pub fn bind(&mut self, input: &Shape) -> (r: Result<Shape, Error>)
        ensures
            population_linear_outcome(
                input@,
                old(self).population_spec(),
                old(self).input_spec(),
                old(self).output_spec(),
                old(self).bound_spec(),
            ) matches Ok(d) ==> r is Ok && r->Ok_0@ == d,
            population_linear_outcome(
                input@,
                old(self).population_spec(),
                old(self).input_spec(),
                old(self).output_spec(),
                old(self).bound_spec(),
            ) matches Err(m) ==> r is Err && r->Err_0@ == m,
            final(self).population_spec() == old(self).population_spec(),
            final(self).input_spec() == old(self).input_spec(),
            final(self).output_spec() == old(self).output_spec(),
            final(self).bound_spec() == (if r is Ok && old(self).bound_spec() is None {
                Some(axis::axis_extent(input@, old(self).input_spec()))
            } else {
                old(self).bound_spec()
            }),
    {
        let shape = self.output_shape(input)?;
        if self.bound.is_none() {
            self.bound = Some(input.extent(self.input)?);
        }
        Ok(shape)
    }
}

/// The first dimension of `l`, other than `skip`, that `r` carries at another extent, as
/// the bilinear layer's rejection.
pub open spec fn shared_mismatch(l: Seq<DimView>, r: Seq<DimView>, skip: Seq<char>) -> Option<
    Seq<char>,
>
    decreases l.len(),
{
    if l.len() == 0 {
        None
    } else {
        match shared_mismatch(l.drop_last(), r, skip) {
            Some(m) => Some(m),
            None => {
                let d = l.last();
                if d.0 != skip && axis::has_axis(r, d.0) && axis::axis_extent(r, d.0) != d.1 {
                    Some("Bilinear shared axis "@ + text::debug_text(d.0) + " extent mismatch"@)
                } else {
                    None
                }
            },
        }
    }
}

proof fn lemma_shared_mismatch_sticks(l: Seq<DimView>, r: Seq<DimView>, skip: Seq<char>, k: int)
    requires
        0 <= k <= l.len(),
        shared_mismatch(l.take(k), r, skip) is Some,
    ensures
        shared_mismatch(l, r, skip) == shared_mismatch(l.take(k), r, skip),
    decreases l.len() - k,
{
    if k < l.len() {
        assert(l.take(k + 1).drop_last() =~= l.take(k));
        lemma_shared_mismatch_sticks(l, r, skip, k + 1);
    } else {
        assert(l.take(k) =~= l);
    }
}

/// The bilinear form `x1^T A x2 + b`: `in1` and `in2` are contracted away, the remaining axes
/// of `x1` kept, then those of `x2` that `x1` does not already carry, then the output
/// dimension. Axes the two inputs share must agree in extent.
pub open spec fn bilinear_outcome(
    v1: Seq<DimView>,
    v2: Seq<DimView>,
    in1: Seq<char>,
    in2: Seq<char>,
    output: DimView,
    bound: Option<(usize, usize)>,
) -> Result<Seq<DimView>, Seq<char>> {
    if !axis::has_axis(v1, in1) {
        Err(axis::missing_axis_message(in1))
    } else if !axis::has_axis(v2, in2) {
        Err(axis::missing_axis_message(in2))
    } else {
        match shared_mismatch(v1, v2, in1) {
            Some(m) => Err(m),
            None => if bound is Some && bound->Some_0 != (
            axis::axis_extent(v1, in1),
            axis::axis_extent(v2, in2),
            ) {
                Err("Bilinear input extents differ from its built extents"@)
            } else {
                let kept = geometry::rewrite(v1, geometry::drop_axis(in1));
                axis::shape_outcome(
                    (kept + geometry::rewrite(v2, contraction::right_rule(seq![in2], kept))).push(
                        output,
                    ),
                )
            },
        }
    }
}

/// A learned bilinear form over two inputs, PyTorch's `nn.Bilinear`. Only the shape algebra
/// lives here, with the two input extents its weight was built for and the bias flag.
pub struct Bilinear {
    in1: Axis,
    in2: Axis,
    output: Dim,
    bias: bool,
    bound: Option<(usize, usize)>,
}

impl Bilinear {
    pub closed spec fn in1_spec(&self) -> Seq<char> {
        self.in1@
    }

    pub closed spec fn in2_spec(&self) -> Seq<char> {
        self.in2@
    }

    pub closed spec fn output_spec(&self) -> DimView {
        self.output@
    }

    pub closed spec fn has_bias(&self) -> bool {
        self.bias
    }

    /// The (`in1`, `in2`) extents recorded when the weight was built, if it was.
    pub closed spec fn bound_spec(&self) -> Option<(usize, usize)> {
        self.bound
    }

    pub fn new(in1: Axis, in2: Axis, output: Dim) -> (b: Self)
        ensures
            b.in1_spec() == in1@,
            b.in2_spec() == in2@,
            b.output_spec() == output@,
            b.has_bias(),
            b.bound_spec() is None,
    {
        Bilinear { in1, in2, output, bias: true, bound: None }
    }

    /// Keep or drop the learned bias term; it decides nothing once the layer is built.
    pub fn bias(self, bias: bool) -> (b: Self)
        ensures
            b.in1_spec() == self.in1_spec(),
            b.in2_spec() == self.in2_spec(),
            b.output_spec() == self.output_spec(),
            b.has_bias() == bias,
            b.bound_spec() == self.bound_spec(),
    {
        Bilinear { bias, ..self }
    }

    /// The output shape for inputs shaped `x1` and `x2`; see [`bilinear_outcome`].
    pub fn output_shape(&self, x1: &Shape, x2: &Shape) -> (r: Result<Shape, Error>)
        ensures
            bilinear_outcome(
                x1@,
                x2@,
                self.in1_spec(),
                self.in2_spec(),
                self.output_spec(),
                self.bound_spec(),
            ) matches Ok(d) ==> r is Ok && r->Ok_0@ == d,
            bilinear_outcome(
                x1@,
                x2@,
                self.in1_spec(),
                self.in2_spec(),
                self.output_spec(),
                self.bound_spec(),
            ) matches Err(m) ==> r is Err && r->Err_0@ == m,
    {
        let extent1 = x1.extent(self.in1)?;
        let extent2 = x2.extent(self.in2)?;
        let ghost l = x1@;
        let ghost skip = self.in1@;
        let ld = x1.dims();
        let n = ld.len();
        let mut i: usize = 0;
        assert(l.take(0) =~= Seq::<DimView>::empty());
        while i < n
            invariant
                n == l.len(),
                l == x1@,
                skip == self.in1@,
                axis::has_axis(x1@, self.in1@),
                axis::has_axis(x2@, self.in2@),
                axis::dims_view(ld@) == l,
                i <= n,
                shared_mismatch(l.take(i as int), x2@, skip) is None,
            decreases n - i,
        {
            let d = ld[i];
            assert(d@ == l[i as int]);
            assert(l.take(i as int + 1).drop_last() =~= l.take(i as int));
            if !d.axis.same(&self.in1) && x2.contains(d.axis) {
                let e = match x2.extent(d.axis) {
                    Ok(e) => e,
                    Err(_) => 0,
                };
                if e != d.extent {
                    let mut m = String::from_str("Bilinear shared axis ");
                    m.append(text::debug_quoted(d.axis.name()).as_str());
                    m.append(" extent mismatch");
                    proof {
                        assert(l.take(i as int + 1).last() == d@);
                        assert(m@ =~= "Bilinear shared axis "@ + text::debug_text(d.axis@)
                            + " extent mismatch"@);
                        assert(shared_mismatch(l.take(i as int + 1), x2@, skip) == Some(m@));
                        lemma_shared_mismatch_sticks(l, x2@, skip, i as int + 1);
                    }
                    return Err(Error::new(m));
                }
            }
            i = i + 1;
        }
        assert(l.take(n as int) =~= l);
        if let Some((b1, b2)) = self.bound {
            if b1 != extent1 || b2 != extent2 {
                return Err(
                    Error::new(
                        String::from_str("Bilinear input extents differ from its built extents"),
                    ),
                );
            }
        }
        let mut dims = geometry::dims_without(ld, self.in1);
        let ghost kept = axis::dims_view(dims@);
        let ghost rf = contraction::right_rule(seq![self.in2@], kept);
        let ghost rv = x2@;
        let rd = x2.dims();
        let rn = rd.len();
        let mut right: Vec<Dim> = Vec::new();
        let mut j: usize = 0;
        assert(rv.take(0) =~= Seq::<DimView>::empty());
        while j < rn
            invariant
                rn == rv.len(),
                rv == x2@,
                axis::dims_view(rd@) == rv,
                kept == axis::dims_view(dims@),
                rf == contraction::right_rule(seq![self.in2@], kept),
                j <= rn,
                axis::dims_view(right@) == geometry::rewrite(rv.take(j as int), rf),
            decreases rn - j,
        {
            proof {
                geometry::lemma_rewrite_step(rv, rf, j as int);
            }
            let d = rd[j];
            assert(d@ == rv[j as int]);
            assert(seq![self.in2@].contains(d.axis@) <==> d.axis@ == self.in2@) by {
                if d.axis@ == self.in2@ {
                    assert(seq![self.in2@][0] == d.axis@);
                }
            }
            if !d.axis.same(&self.in2) && !contraction::has_dim(&dims, d.axis) {
                right.push(d);
            }
            assert(axis::dims_view(right@) =~= geometry::rewrite(rv.take(j as int + 1), rf));
            j = j + 1;
        }
        assert(rv.take(rn as int) =~= rv);
        let ghost rightv = axis::dims_view(right@);
        let ghost kept_dims = dims@;
        let mut k: usize = 0;
        while k < right.len()
            invariant
                k <= right@.len(),
                dims@ == kept_dims + right@.take(k as int),
            decreases right@.len() - k,
        {
            dims.push(right[k]);
            assert(dims@ =~= kept_dims + right@.take(k as int + 1));
            k = k + 1;
        }
        assert(right@.take(right@.len() as int) =~= right@);
        dims.push(self.output);
        assert(axis::dims_view(dims@) =~= (kept + rightv).push(self.output@));
        Shape::new(dims)
    }

    /// Record that the layer's parameters were built for `x1` and `x2`, as a successful build
    /// does, and give the output shape. The first record keeps the input extents; a later one
    /// changes nothing.
    pub fn bind(&mut self, x1: &Shape, x2: &Shape) -> (r: Result<Shape, Error>)
        ensures
            bilinear_outcome(
                x1@,
                x2@,
                old(self).in1_spec(),
                old(self).in2_spec(),
                old(self).output_spec(),
                old(self).bound_spec(),
            ) matches Ok(d) ==> r is Ok && r->Ok_0@ == d,
            bilinear_outcome(
                x1@,
                x2@,
                old(self).in1_spec(),
                old(self).in2_spec(),
                old(self).output_spec(),
                old(self).bound_spec(),
            ) matches Err(m) ==> r is Err && r->Err_0@ == m,
            final(self).in1_spec() == old(self).in1_spec(),
            final(self).in2_spec() == old(self).in2_spec(),
            final(self).output_spec() == old(self).output_spec(),
            final(self).has_bias() == old(self).has_bias(),
            final(self).bound_spec() == (if r is Ok && old(self).bound_spec() is None {
                Some(
                    (
                        axis::axis_extent(x1@, old(self).in1_spec()),
                        axis::axis_extent(x2@, old(self).in2_spec()),
                    ),
                )
            } else {
                old(self).bound_spec()
            }),
    {
        let shape = self.output_shape(x1, x2)?;
        if self.bound.is_none() {
            let extent1 = x1.extent(self.in1)?;
            let extent2 = x2.extent(self.in2)?;
            self.bound = Some((extent1, extent2));
        }
        Ok(shape)
    }
}

} // verus!
