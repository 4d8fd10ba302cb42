//! Shared shape bookkeeping for windowed operators: axis lookups, per-axis
//! window counts and dimension rewrites.
use crate::axis::{self, Axis, Dim, DimView, Shape};
use crate::error::Error;
use vstd::prelude::*;
use vstd::string::StringExecFns;

verus! {

/// The names of a list of axes.
pub open spec fn names(axes: Seq<Axis>) -> Seq<Seq<char>> {
    axes.map_values(|a: Axis| a@)
}

/// No name occurs twice.
pub open spec fn distinct_names(n: Seq<Seq<char>>) -> bool {
    forall|i: int, j: int| 0 <= i < j < n.len() ==> n[i] != n[j]
}

/// Distinct names, none equal to `c`.
pub open spec fn distinct_and_avoiding(n: Seq<Seq<char>>, c: Seq<char>) -> bool {
    distinct_names(n) && !n.contains(c)
}

/// Where `a` stands in `n` (meaningful when `n` contains it).
pub open spec fn slot(n: Seq<Seq<char>>, a: Seq<char>) -> int {
    choose|i: int| 0 <= i < n.len() && n[i] == a
}

/// Keep, replace or drop each dimension in order, as `f` says.
pub open spec fn rewrite(v: Seq<DimView>, f: spec_fn(DimView) -> Option<DimView>) -> Seq<DimView>
    decreases v.len(),
{
    if v.len() == 0 {
        Seq::empty()
    } else {
        let r = rewrite(v.drop_last(), f);
        match f(v.last()) {
            Some(d) => r.push(d),
            None => r,
        }
    }
}

pub proof fn lemma_rewrite_step(v: Seq<DimView>, f: spec_fn(DimView) -> Option<DimView>, i: int)
    requires
        0 <= i < v.len(),
    ensures
        rewrite(v.take(i + 1), f) == (match f(v[i]) {
            Some(d) => rewrite(v.take(i), f).push(d),
            None => rewrite(v.take(i), f),
        }),
{
    assert(v.take(i + 1).drop_last() =~= v.take(i));
}

/// Drop the dimension named `a`.
pub open spec fn drop_axis(a: Seq<char>) -> spec_fn(DimView) -> Option<DimView> {
    |d: DimView|
        if d.0 == a {
            None
        } else {
            Some(d)
        }
}

/// The dimensions of `source` other than `axis`, in order.
pub fn dims_without(source: &[Dim], axis: Axis) -> (r: Vec<Dim>)
    ensures
        axis::dims_view(r@) == rewrite(axis::dims_view(source@), drop_axis(axis@)),
{
    let ghost v = axis::dims_view(source@);
    let ghost f = drop_axis(axis@);
    let n = source.len();
    let mut dims: Vec<Dim> = Vec::new();
    let mut i: usize = 0;
    assert(v.take(0) =~= Seq::<DimView>::empty());
    while i < n
        invariant
            n == v.len(),
            v == axis::dims_view(source@),
            f == drop_axis(axis@),
            i <= n,
            axis::dims_view(dims@) == rewrite(v.take(i as int), f),
        decreases n - i,
    {
        proof {
            lemma_rewrite_step(v, f, i as int);
        }
        let d = source[i];
        assert(d@ == v[i as int]);
        if !d.axis.same(&axis) {
            dims.push(d);
        }
        assert(axis::dims_view(dims@) =~= rewrite(v.take(i as int + 1), f));
        i = i + 1;
    }
    assert(v.take(n as int) =~= v);
    dims
}

/// The extents of `n` in `v`, or the message naming the first missing axis.
pub open spec fn extents_of(v: Seq<DimView>, n: Seq<Seq<char>>) -> Result<Seq<usize>, Seq<char>>
    decreases n.len(),
{
    if n.len() == 0 {
        Ok(Seq::empty())
    } else {
        match extents_of(v, n.drop_last()) {
            Err(m) => Err(m),
            Ok(e) => if axis::has_axis(v, n.last()) {
                Ok(e.push(axis::axis_extent(v, n.last())))
            } else {
                Err(axis::missing_axis_message(n.last()))
            },
        }
    }
}

/// The product of a sequence of extents.
pub open spec fn product(k: Seq<usize>) -> nat
    decreases k.len(),
{
    if k.len() == 0 {
        1
    } else {
        product(k.drop_last()) * (k.last() as nat)
    }
}

/// Some entry is zero.
pub open spec fn has_zero(k: Seq<usize>) -> bool {
    exists|i: int| 0 <= i < k.len() && k[i] == 0
}

/// How the per-axis window count rejects an axis; the message follows the operator's name.
pub enum WindowRule {
    /// Convolution and pooling: the kernel must fit the padded axis.
    Fit,
    /// Patch extraction: the padded axis must also stay within the `i32` index range.
    Unfold,
}

/// The number of windows along one axis, or the rejection message's tail.
pub open spec fn window_count(extent: usize, kernel: usize, stride: usize, padding: usize, rule: WindowRule) -> Result<
    usize,
    Seq<char>,
> {
    if padding * 2 > usize::MAX {
        Err(" padding overflow"@)
    } else if extent + padding * 2 > usize::MAX {
        Err(" padded spatial extent overflow"@)
    } else if rule is Unfold && extent + padding * 2 > i32::MAX {
        Err(" padded spatial extent exceeds the i32 kernel index range"@)
    } else if kernel > extent + padding * 2 {
        if rule is Unfold {
            Err(" kernel exceeds the padded spatial extent"@)
        } else {
            Err(" kernel must fit the padded spatial axes"@)
        }
    } else {
        Ok(((extent + padding * 2 - kernel) / (stride as int) + 1) as usize)
    }
}

/// The window counts along every axis, or the first axis's rejection.
pub open spec fn window_counts(
    extents: Seq<usize>,
    kernel: Seq<usize>,
    stride: Seq<usize>,
    padding: Seq<usize>,
    rule: WindowRule,
) -> Result<Seq<usize>, Seq<char>>
    decreases extents.len(),
{
    if extents.len() == 0 {
        Ok(Seq::empty())
    } else {
        let i = extents.len() - 1;
        match window_counts(extents.drop_last(), kernel, stride, padding, rule) {
            Err(m) => Err(m),
            Ok(c) => match window_count(extents[i], kernel[i], stride[i], padding[i], rule) {
                Err(m) => Err(m),
                Ok(w) => Ok(c.push(w)),
            },
        }
    }
}

/// The results of `f` on the axes `0..n`, or the first axis's rejection.
pub open spec fn each_axis(n: nat, f: spec_fn(int) -> Result<usize, Seq<char>>) -> Result<
    Seq<usize>,
    Seq<char>,
>
    decreases n,
{
    if n == 0 {
        Ok(Seq::empty())
    } else {
        match each_axis((n - 1) as nat, f) {
            Err(m) => Err(m),
            Ok(c) => match f(n - 1) {
                Err(m) => Err(m),
                Ok(w) => Ok(c.push(w)),
            },
        }
    }
}

/// Once an axis is rejected, later axes change nothing.
pub proof fn lemma_each_axis_err_sticks(
    n: nat,
    f: spec_fn(int) -> Result<usize, Seq<char>>,
    k: nat,
)
    requires
        k <= n,
        each_axis(k, f) is Err,
    ensures
        each_axis(n, f) == each_axis(k, f),
    decreases n - k,
{
    if k < n {
        lemma_each_axis_err_sticks(n, f, k + 1);
    }
}

/// Every successful result has one entry per axis.
pub proof fn lemma_each_axis_len(n: nat, f: spec_fn(int) -> Result<usize, Seq<char>>)
    ensures
        each_axis(n, f) matches Ok(c) ==> c.len() == n,
    decreases n,
{
    if n > 0 {
        lemma_each_axis_len((n - 1) as nat, f);
    }
}

/// Drop the `c` dimension and give each axis of `sp` its entry of `w`; keep the rest.
pub open spec fn replace_rule(c: Seq<char>, sp: Seq<Seq<char>>, w: Seq<usize>) -> spec_fn(
    DimView,
) -> Option<DimView> {
    |d: DimView|
        if d.0 == c {
            None
        } else if sp.contains(d.0) {
            Some((d.0, w[slot(sp, d.0)]))
        } else {
            Some(d)
        }
}

/// The dimensions of `input` rewritten by [`replace_rule`].
pub fn replace_dims(input: &Shape, c: Axis, spatial: &[Axis], w: &Vec<usize>) -> (dims: Vec<Dim>)
    requires
        distinct_names(names(spatial@)),
        w@.len() == spatial@.len(),
    ensures
        axis::dims_view(dims@) == rewrite(input@, replace_rule(c@, names(spatial@), w@)),
{
    let ghost sp = names(spatial@);
    let ghost f = replace_rule(c@, sp, w@);
    let ghost v = input@;
    let source = input.dims();
    let n = source.len();
    let mut dims: Vec<Dim> = Vec::new();
    let mut i: usize = 0;
    assert(v.take(0) =~= Seq::<DimView>::empty());
    while i < n
        invariant
            n == v.len(),
            v == input@,
            axis::dims_view(source@) == v,
            distinct_names(sp),
            sp == names(spatial@),
            w@.len() == spatial@.len(),
            f == replace_rule(c@, sp, w@),
            i <= n,
            axis::dims_view(dims@) == rewrite(v.take(i as int), f),
        decreases n - i,
    {
        proof {
            lemma_rewrite_step(v, f, i as int);
        }
        let d = source[i];
        assert(d@ == v[i as int]);
        if !d.axis.same(&c) {
            match find_axis(spatial, d.axis) {
                Some(j) => {
                    proof {
                        assert(sp[j as int] == d.axis@);
                        lemma_slot_unique(sp, d.axis@, j as int);
                    }
                    dims.push(d.axis.of(w[j]));
                },
                None => {
                    dims.push(d);
                },
            }
        }
        assert(axis::dims_view(dims@) =~= rewrite(v.take(i as int + 1), f));
        i = i + 1;
    }
    assert(v.take(n as int) =~= v);
    dims
}

/// Give each axis of `sp` its entry of `w`; keep every other dimension.
pub open spec fn resize_rule(sp: Seq<Seq<char>>, w: Seq<usize>) -> spec_fn(DimView) -> Option<
    DimView,
> {
    |d: DimView|
        if sp.contains(d.0) {
            Some((d.0, w[slot(sp, d.0)]))
        } else {
            Some(d)
        }
}

/// The dimensions of `input` rewritten by [`resize_rule`].
pub fn resize_dims(input: &Shape, spatial: &[Axis], w: &[usize]) -> (dims: Vec<Dim>)
    requires
        distinct_names(names(spatial@)),
        w@.len() == spatial@.len(),
    ensures
        axis::dims_view(dims@) == rewrite(input@, resize_rule(names(spatial@), w@)),
{
    let ghost sp = names(spatial@);
    let ghost f = resize_rule(sp, w@);
    let ghost v = input@;
    let source = input.dims();
    let n = source.len();
    let mut dims: Vec<Dim> = Vec::new();
    let mut i: usize = 0;
    assert(v.take(0) =~= Seq::<DimView>::empty());
    while i < n
        invariant
            n == v.len(),
            v == input@,
            axis::dims_view(source@) == v,
            distinct_names(sp),
            sp == names(spatial@),
            w@.len() == spatial@.len(),
            f == resize_rule(sp, w@),
            i <= n,
            axis::dims_view(dims@) == rewrite(v.take(i as int), f),
        decreases n - i,
    {
        proof {
            lemma_rewrite_step(v, f, i as int);
        }
        let d = source[i];
        assert(d@ == v[i as int]);
        match find_axis(spatial, d.axis) {
            Some(j) => {
                proof {
                    assert(sp[j as int] == d.axis@);
                    lemma_slot_unique(sp, d.axis@, j as int);
                }
                dims.push(d.axis.of(w[j]));
            },
            None => {
                dims.push(d);
            },
        }
        assert(axis::dims_view(dims@) =~= rewrite(v.take(i as int + 1), f));
        i = i + 1;
    }
    assert(v.take(n as int) =~= v);
    dims
}

/// The position of `a` among `axes`.
pub fn find_axis(axes: &[Axis], a: Axis) -> (r: Option<usize>)
    ensures
        r is None <==> !names(axes@).contains(a@),
        r matches Some(i) ==> i < axes@.len() && axes@[i as int]@ == a@,
{
    let n = axes.len();
    let mut i: usize = 0;
    while i < n
        invariant
            n == axes@.len(),
            i <= n,
            forall|j: int| 0 <= j < i ==> axes@[j]@ != a@,
        decreases n - i,
    {
        if axes[i].same(&a) {
            assert(names(axes@)[i as int] == a@);
            return Some(i);
        }
        i = i + 1;
    }
    proof {
        if names(axes@).contains(a@) {
            let j = choose|j: int| 0 <= j < names(axes@).len() && names(axes@)[j] == a@;
            assert(axes@[j]@ == a@);
        }
    }
    None
}

/// In distinct names, a matching position is the slot.
pub proof fn lemma_slot_unique(n: Seq<Seq<char>>, a: Seq<char>, i: int)
    requires
        distinct_names(n),
        0 <= i < n.len(),
        n[i] == a,
    ensures
        slot(n, a) == i,
{
    let j = slot(n, a);
    assert(0 <= j < n.len() && n[j] == a);
    if j != i {
        if j < i {
            assert(n[j] != n[i]);
        } else {
            assert(n[i] != n[j]);
        }
    }
}

/// Whether the axes are distinct and, when `avoid` is given, all differ from it.
pub fn check_distinct(axes: &[Axis], avoid: Option<Axis>) -> (b: bool)
    ensures
        avoid is None ==> b == distinct_names(names(axes@)),
        avoid matches Some(c) ==> b == distinct_and_avoiding(names(axes@), c@),
{
    let ghost nm = names(axes@);
    let n = axes.len();
    let mut i: usize = 0;
    while i < n
        invariant
            n == axes@.len(),
            nm == names(axes@),
            i <= n,
            forall|a: int, b: int| 0 <= a < b < i ==> nm[a] != nm[b],
            avoid matches Some(c) ==> forall|a: int| 0 <= a < i ==> nm[a] != c@,
        decreases n - i,
    {
        match avoid {
            Some(c) => {
                if axes[i].same(&c) {
                    proof {
                        assert(nm[i as int] == c@);
                        assert(nm.contains(c@));
                    }
                    return false;
                }
            },
            None => {},
        }
        let mut j: usize = 0;
        while j < i
            invariant
                n == axes@.len(),
                nm == names(axes@),
                i < n,
                j <= i,
                forall|a: int| 0 <= a < j ==> nm[a] != nm[i as int],
            decreases i - j,
        {
            if axes[j].same(&axes[i]) {
                assert(nm[j as int] == nm[i as int]);
                return false;
            }
            j = j + 1;
        }
        i = i + 1;
    }
    proof {
        match avoid {
            Some(c) => {
                if nm.contains(c@) {
                    let k = choose|k: int| 0 <= k < nm.len() && nm[k] == c@;
                    assert(nm[k] != c@);
                }
            },
            None => {},
        }
    }
    true
}

/// Whether some entry is zero.
pub fn any_zero(k: &[usize]) -> (b: bool)
    ensures
        b == has_zero(k@),
{
    let n = k.len();
    let mut i: usize = 0;
    while i < n
        invariant
            n == k@.len(),
            i <= n,
            forall|j: int| 0 <= j < i ==> k@[j] != 0,
        decreases n - i,
    {
        if k[i] == 0 {
            return true;
        }
        i = i + 1;
    }
    false
}

/// The extents of `axes` in `input`, or the error naming the first missing axis.
pub fn extents(input: &Shape, axes: &[Axis]) -> (r: Result<Vec<usize>, Error>)
    ensures
        extents_of(input@, names(axes@)) matches Ok(e) ==> r is Ok && r->Ok_0@ == e,
        extents_of(input@, names(axes@)) matches Err(m) ==> r is Err && r->Err_0@ == m,
        r matches Ok(e) ==> e@.len() == axes@.len(),
{
    let ghost nm = names(axes@);
    let n = axes.len();
    let mut out: Vec<usize> = Vec::new();
    let mut i: usize = 0;
    assert(nm.take(0) =~= Seq::<Seq<char>>::empty());
    while i < n
        invariant
            n == axes@.len(),
            nm == names(axes@),
            i <= n,
            extents_of(input@, nm.take(i as int)) == Ok::<Seq<usize>, Seq<char>>(out@),
            out@.len() == i,
        decreases n - i,
    {
        assert(nm.take(i as int + 1).drop_last() =~= nm.take(i as int));
        assert(nm.take(i as int + 1).last() == axes@[i as int]@);
        match input.extent(axes[i]) {
            Ok(e) => {
                out.push(e);
            },
            Err(err) => {
                proof {
                    lemma_extents_err_sticks(input@, nm, i as int + 1);
                }
                return Err(err);
            },
        }
        i = i + 1;
    }
    assert(nm.take(n as int) =~= nm);
    Ok(out)
}

proof fn lemma_extents_err_sticks(v: Seq<DimView>, n: Seq<Seq<char>>, k: int)
    requires
        0 <= k <= n.len(),
        extents_of(v, n.take(k)) is Err,
    ensures
        extents_of(v, n) == extents_of(v, n.take(k)),
    decreases n.len() - k,
{
    if k < n.len() {
        assert(n.take(k + 1).drop_last() =~= n.take(k));
        lemma_extents_err_sticks(v, n, k + 1);
    } else {
        assert(n.take(k) =~= n);
    }
}

proof fn lemma_counts_err_sticks(
    e: Seq<usize>,
    k: Seq<usize>,
    s: Seq<usize>,
    p: Seq<usize>,
    rule: WindowRule,
    j: int,
)
    requires
        0 <= j <= e.len(),
        window_counts(e.take(j), k, s, p, rule) is Err,
    ensures
        window_counts(e, k, s, p, rule) == window_counts(e.take(j), k, s, p, rule),
    decreases e.len() - j,
{
    if j < e.len() {
        assert(e.take(j + 1).drop_last() =~= e.take(j));
        lemma_counts_err_sticks(e, k, s, p, rule, j + 1);
    } else {
        assert(e.take(j) =~= e);
    }
}

/// The window counts along every axis; an error message starts with `name`.
pub fn counts(
    name: &str,
    extents: &Vec<usize>,
    kernel: &[usize],
    stride: &[usize],
    padding: &[usize],
    rule: WindowRule,
) -> (r: Result<Vec<usize>, Error>)
    requires
        kernel@.len() == extents@.len(),
        stride@.len() == extents@.len(),
        padding@.len() == extents@.len(),
        !has_zero(stride@),
        !has_zero(kernel@),
    ensures
        window_counts(extents@, kernel@, stride@, padding@, rule) matches Ok(c) ==> r is Ok
            && r->Ok_0@ == c,
        window_counts(extents@, kernel@, stride@, padding@, rule) matches Err(m) ==> r is Err
            && r->Err_0@ == name@ + m,
        r matches Ok(c) ==> c@.len() == extents@.len(),
{
    let n = extents.len();
    let mut out: Vec<usize> = Vec::new();
    let mut i: usize = 0;
    assert(extents@.take(0) =~= Seq::<usize>::empty());
    while i < n
        invariant
            n == extents@.len(),
            kernel@.len() == n,
            stride@.len() == n,
            padding@.len() == n,
            !has_zero(stride@),
            !has_zero(kernel@),
            i <= n,
            window_counts(extents@.take(i as int), kernel@, stride@, padding@, rule) == Ok::<
                Seq<usize>,
                Seq<char>,
            >(out@),
            out@.len() == i,
        decreases n - i,
    {
        let ghost t = extents@.take(i as int + 1);
        assert(t.drop_last() =~= extents@.take(i as int));
        assert(t[i as int] == extents@[i as int]);
        assert(stride@[i as int] != 0);
        assert(kernel@[i as int] != 0);
        let tail: &str;
        if padding[i] > usize::MAX / 2 {
            tail = " padding overflow";
        } else if extents[i] > usize::MAX - padding[i] * 2 {
            tail = " padded spatial extent overflow";
        } else {
            let padded = extents[i] + padding[i] * 2;
            let too_wide = match rule {
                WindowRule::Unfold => padded > 2147483647,
                WindowRule::Fit => false,
            };
            if too_wide {
                tail = " padded spatial extent exceeds the i32 kernel index range";
            } else if kernel[i] > padded {
                tail = match rule {
                    WindowRule::Unfold => " kernel exceeds the padded spatial extent",
                    WindowRule::Fit => " kernel must fit the padded spatial axes",
                };
            } else {
                out.push((padded - kernel[i]) / stride[i] + 1);
                i = i + 1;
                continue;
            }
        }
        let mut message = String::from_str(name);
        message.append(tail);
        proof {
            lemma_counts_err_sticks(extents@, kernel@, stride@, padding@, rule, i as int + 1);
        }
        return Err(Error::new(message));
    }
    assert(extents@.take(n as int) =~= extents@);
    Ok(out)
}

/// `start` times the product of `k`, or `None` when it overflows `usize`;
/// `k` has no zero entry.
pub fn scaled_product(start: usize, k: &[usize]) -> (r: Option<usize>)
    requires
        !has_zero(k@),
    ensures
        (start as nat) * product(k@) <= usize::MAX ==> r == Some((start as nat * product(k@)) as usize),
        (start as nat) * product(k@) > usize::MAX ==> r is None,
{
    let n = k.len();
    let mut acc = start;
    let mut i: usize = 0;
    assert(k@.take(0) =~= Seq::<usize>::empty());
    assert(product(k@.take(0)) == 1);
    assert((start as nat) * 1 == start as nat);
    while i < n
        invariant
            n == k@.len(),
            !has_zero(k@),
            i <= n,
            acc as nat == (start as nat) * product(k@.take(i as int)),
        decreases n - i,
    {
        assert(k@.take(i as int + 1).drop_last() =~= k@.take(i as int));
        assert(k@[i as int] != 0);
        match acc.checked_mul(k[i]) {
            Some(next) => {
                proof {
                    assert((start as nat) * product(k@.take(i as int + 1)) == (start as nat) * (
                    product(k@.take(i as int)) * (k@[i as int] as nat))) by {
                        assert(k@.take(i as int + 1).last() == k@[i as int]);
                    }
                    vstd::arithmetic::mul::lemma_mul_is_associative(
                        start as int,
                        product(k@.take(i as int)) as int,
                        k@[i as int] as int,
                    );
                }
                acc = next;
            },
            None => {
                proof {
                    lemma_product_grows(start as nat, k@, i as int + 1);
                    vstd::arithmetic::mul::lemma_mul_is_associative(
                        start as int,
                        product(k@.take(i as int)) as int,
                        k@[i as int] as int,
                    );
                    assert(k@.take(i as int + 1).last() == k@[i as int]);
                }
                return None;
            },
        }
        i = i + 1;
    }
    assert(k@.take(n as int) =~= k@);
    Some(acc)
}

/// The product of two entries.
pub proof fn lemma_product_pair(k: Seq<usize>)
    requires
        k.len() == 2,
    ensures
        product(k) == (k[0] as nat) * (k[1] as nat),
{
    assert(k.drop_last().drop_last() =~= Seq::<usize>::empty());
    assert(k.drop_last().last() == k[0]);
    assert(product(k.drop_last().drop_last()) == 1);
    assert(product(k.drop_last()) == 1 * (k[0] as nat));
}

/// With no zero entries, a longer prefix has a product at least as large.
proof fn lemma_product_grows(start: nat, k: Seq<usize>, j: int)
    requires
        0 <= j <= k.len(),
        !has_zero(k),
    ensures
        start * product(k.take(j)) <= start * product(k),
    decreases k.len() - j,
{
    if j < k.len() {
        lemma_product_grows(start, k, j + 1);
        assert(k.take(j + 1).drop_last() =~= k.take(j));
        assert(k.take(j + 1).last() == k[j]);
        assert(k[j] != 0);
        let a = product(k.take(j));
        assert(start * a <= start * (a * (k[j] as nat))) by (nonlinear_arith)
            requires
                k[j] as nat >= 1,
        ;
    } else {
        assert(k.take(j) =~= k);
    }
}

} // verus!

verus! {

/// Rewriting twice is rewriting once by the composed rule.
pub proof fn lemma_rewrite_compose(
    v: Seq<DimView>,
    f: spec_fn(DimView) -> Option<DimView>,
    g: spec_fn(DimView) -> Option<DimView>,
    h: spec_fn(DimView) -> Option<DimView>,
)
    requires
        forall|i: int|
            0 <= i < v.len() ==> #[trigger] h(v[i]) == (match f(v[i]) {
                Some(d) => g(d),
                None => None,
            }),
    ensures
        rewrite(rewrite(v, f), g) == rewrite(v, h),
    decreases v.len(),
{
    if v.len() > 0 {
        let dl = v.drop_last();
        assert forall|i: int| 0 <= i < dl.len() implies #[trigger] h(dl[i]) == (match f(dl[i]) {
            Some(d) => g(d),
            None => None,
        }) by {
            assert(dl[i] == v[i]);
        }
        lemma_rewrite_compose(dl, f, g, h);
        let x = v.last();
        assert(h(v[v.len() - 1]) == (match f(v[v.len() - 1]) {
            Some(d) => g(d),
            None => None,
        }));
        match f(x) {
            Some(d) => {
                assert(rewrite(v, f) == rewrite(dl, f).push(d));
                assert(rewrite(v, f).drop_last() =~= rewrite(dl, f));
            },
            None => {},
        }
    }
}

/// Rules that agree on every dimension of `v` rewrite it alike.
pub proof fn lemma_rewrite_congruent(
    v: Seq<DimView>,
    f: spec_fn(DimView) -> Option<DimView>,
    g: spec_fn(DimView) -> Option<DimView>,
)
    requires
        forall|i: int| 0 <= i < v.len() ==> #[trigger] f(v[i]) == g(v[i]),
    ensures
        rewrite(v, f) == rewrite(v, g),
    decreases v.len(),
{
    if v.len() > 0 {
        let dl = v.drop_last();
        assert forall|i: int| 0 <= i < dl.len() implies #[trigger] f(dl[i]) == g(dl[i]) by {
            assert(dl[i] == v[i]);
        }
        lemma_rewrite_congruent(dl, f, g);
        assert(f(v[v.len() - 1]) == g(v[v.len() - 1]));
    }
}

/// A rule that never drops keeps the length and maps position by position.
pub proof fn lemma_rewrite_total(v: Seq<DimView>, f: spec_fn(DimView) -> Option<DimView>)
    requires
        forall|i: int| 0 <= i < v.len() ==> (#[trigger] f(v[i])) is Some,
    ensures
        rewrite(v, f).len() == v.len(),
        forall|i: int| 0 <= i < v.len() ==> #[trigger] rewrite(v, f)[i] == f(v[i])->Some_0,
    decreases v.len(),
{
    if v.len() > 0 {
        let dl = v.drop_last();
        assert forall|i: int| 0 <= i < dl.len() implies (#[trigger] f(dl[i])) is Some by {
            assert(dl[i] == v[i]);
        }
        lemma_rewrite_total(dl, f);
        assert(f(v[v.len() - 1]) is Some);
        assert forall|i: int| 0 <= i < v.len() implies #[trigger] rewrite(v, f)[i] == f(
            v[i],
        )->Some_0 by {
            if i < v.len() - 1 {
                assert(dl[i] == v[i]);
            }
        }
    }
}

/// Whatever holds of every dimension a keep-or-drop rule keeps holds of its result.
pub proof fn lemma_rewrite_keeps(
    v: Seq<DimView>,
    f: spec_fn(DimView) -> Option<DimView>,
    q: spec_fn(DimView) -> bool,
)
    requires
        forall|i: int| 0 <= i < v.len() ==> (#[trigger] f(v[i])) is None || f(v[i]) == Some(v[i]),
        forall|i: int| 0 <= i < v.len() && (#[trigger] f(v[i])) is Some ==> q(v[i]),
    ensures
        forall|k: int| 0 <= k < rewrite(v, f).len() ==> q(#[trigger] rewrite(v, f)[k]),
        rewrite(v, f).len() <= v.len(),
    decreases v.len(),
{
    if v.len() == 0 {
        assert(rewrite(v, f) =~= Seq::<DimView>::empty());
    } else {
        let dl = v.drop_last();
        assert forall|i: int| 0 <= i < dl.len() implies (#[trigger] f(dl[i])) is None || f(dl[i])
            == Some(dl[i]) by {
            assert(dl[i] == v[i]);
        }
        assert forall|i: int| 0 <= i < dl.len() && (#[trigger] f(dl[i])) is Some implies q(dl[i]) by {
            assert(dl[i] == v[i]);
        }
        lemma_rewrite_keeps(dl, f, q);
        let x = v.last();
        assert(f(v[v.len() - 1]) is None || f(v[v.len() - 1]) == Some(v[v.len() - 1]));
        assert(f(v[v.len() - 1]) is Some ==> q(v[v.len() - 1]));
        let r = rewrite(v, f);
        let rd = rewrite(dl, f);
        assert forall|k: int| 0 <= k < r.len() implies q(#[trigger] r[k]) by {
            if k < rd.len() {
                assert(r[k] == rd[k]);
            } else {
                assert(r[k] == x);
            }
        }
    }
}

/// A keep-or-drop rule keeps the names of a distinct sequence distinct.
pub proof fn lemma_rewrite_distinct(v: Seq<DimView>, f: spec_fn(DimView) -> Option<DimView>)
    requires
        forall|i: int| 0 <= i < v.len() ==> (#[trigger] f(v[i])) is None || f(v[i]) == Some(v[i]),
        axis::distinct_axes(v),
    ensures
        axis::distinct_axes(rewrite(v, f)),
    decreases v.len(),
{
    if v.len() > 0 {
        let dl = v.drop_last();
        let x = v.last();
        assert forall|i: int| 0 <= i < dl.len() implies (#[trigger] f(dl[i])) is None || f(dl[i])
            == Some(dl[i]) by {
            assert(dl[i] == v[i]);
        }
        assert(axis::distinct_axes(dl)) by {
            assert forall|p: int, q: int| 0 <= p < q < dl.len() implies dl[p].0 != dl[q].0 by {
                assert(dl[p] == v[p] && dl[q] == v[q]);
            }
        }
        lemma_rewrite_distinct(dl, f);
        let q = |d: DimView| d.0 != x.0;
        assert forall|i: int| 0 <= i < dl.len() && (#[trigger] f(dl[i])) is Some implies q(dl[i]) by {
            assert(dl[i] == v[i]);
            assert(v[i].0 != v[v.len() - 1].0);
        }
        lemma_rewrite_keeps(dl, f, q);
        assert(f(v[v.len() - 1]) is None || f(v[v.len() - 1]) == Some(v[v.len() - 1]));
        let r = rewrite(v, f);
        let rd = rewrite(dl, f);
        assert forall|a: int, b: int| 0 <= a < b < r.len() implies r[a].0 != r[b].0 by {
            assert(r[a] == rd[a]);
            if b < rd.len() {
                assert(r[b] == rd[b]);
            } else {
                assert(r[b] == x);
                assert(q(rd[a]));
            }
        }
    }
}

/// Drop every dimension named in `names`.
pub open spec fn drop_names(names: Seq<Seq<char>>) -> spec_fn(DimView) -> Option<DimView> {
    |d: DimView|
        if names.contains(d.0) {
            None
        } else {
            Some(d)
        }
}

/// Removing one present axis of a distinct sequence divides its element count by that
/// axis's extent.
pub proof fn lemma_count_without(v: Seq<DimView>, a: Seq<char>)
    requires
        axis::distinct_axes(v),
        axis::has_axis(v, a),
    ensures
        axis::element_count(v) == axis::element_count(rewrite(v, drop_names(seq![a])))
            * (axis::axis_extent(v, a) as nat),
    decreases v.len(),
{
    let dl = v.drop_last();
    let x = v.last();
    let f = drop_names(seq![a]);
    assert(axis::distinct_axes(dl)) by {
        assert forall|p: int, q: int| 0 <= p < q < dl.len() implies dl[p].0 != dl[q].0 by {
            assert(dl[p] == v[p] && dl[q] == v[q]);
        }
    }
    assert(seq![a].contains(a)) by {
        assert(seq![a][0] == a);
    }
    if x.0 == a {
        axis::lemma_axis_position_unique(v, a, v.len() - 1);
        assert(!axis::has_axis(dl, a)) by {
            if axis::has_axis(dl, a) {
                let i = choose|i: int| 0 <= i < dl.len() && dl[i].0 == a;
                assert(v[i] == dl[i]);
            }
        }
        assert forall|i: int| 0 <= i < dl.len() implies #[trigger] f(dl[i]) == Some(dl[i]) by {
            if seq![a].contains(dl[i].0) {
                assert(dl[i].0 == a);
            }
        }
        lemma_rewrite_identity(dl, f);
    } else {
        assert(!seq![a].contains(x.0)) by {
            if seq![a].contains(x.0) {
                let j = choose|j: int| 0 <= j < 1 && seq![a][j] == x.0;
                assert(seq![a][j] == a);
            }
        }
        let i = choose|i: int| 0 <= i < v.len() && v[i].0 == a;
        assert(i < v.len() - 1);
        assert(dl[i] == v[i]);
        axis::lemma_axis_position_unique(v, a, i);
        axis::lemma_axis_position_unique(dl, a, i);
        lemma_count_without(dl, a);
        let cd = axis::element_count(rewrite(dl, f));
        let e = axis::axis_extent(v, a) as nat;
        let l = x.1 as nat;
        assert(f(x) == Some(x));
        assert(rewrite(v, f) == rewrite(dl, f).push(x));
        assert(rewrite(v, f).drop_last() =~= rewrite(dl, f));
        assert(axis::element_count(rewrite(v, f)) == cd * l);
        assert(cd * e * l == cd * l * e) by (nonlinear_arith);
    }
}

/// A rule that keeps every dimension of `v` rewrites it to itself.
pub proof fn lemma_rewrite_identity(v: Seq<DimView>, f: spec_fn(DimView) -> Option<DimView>)
    requires
        forall|i: int| 0 <= i < v.len() ==> #[trigger] f(v[i]) == Some(v[i]),
    ensures
        rewrite(v, f) == v,
    decreases v.len(),
{
    if v.len() > 0 {
        let dl = v.drop_last();
        assert forall|i: int| 0 <= i < dl.len() implies #[trigger] f(dl[i]) == Some(dl[i]) by {
            assert(dl[i] == v[i]);
        }
        lemma_rewrite_identity(dl, f);
        assert(f(v[v.len() - 1]) == Some(v[v.len() - 1]));
        assert(dl.push(v.last()) =~= v);
    }
}

} // verus!

verus! {

/// A name is in a two- or three-name list exactly when it is one of its entries.
pub proof fn lemma_contains_listed(n: Seq<Seq<char>>, x: Seq<char>)
    requires
        n.len() <= 3,
    ensures
        n.contains(x) <==> (exists|i: int| 0 <= i < n.len() && n[i] == x),
        n.len() == 1 ==> (n.contains(x) <==> x == n[0]),
        n.len() == 2 ==> (n.contains(x) <==> x == n[0] || x == n[1]),
        n.len() == 3 ==> (n.contains(x) <==> x == n[0] || x == n[1] || x == n[2]),
{
    if n.len() >= 1 && x == n[0] {
        assert(n[0] == x);
    }
    if n.len() >= 2 && x == n[1] {
        assert(n[1] == x);
    }
    if n.len() >= 3 && x == n[2] {
        assert(n[2] == x);
    }
}

/// A dimension a keep-or-drop rule keeps is in its result.
pub proof fn lemma_kept_present(v: Seq<DimView>, f: spec_fn(DimView) -> Option<DimView>, i: int)
    requires
        forall|j: int| 0 <= j < v.len() ==> (#[trigger] f(v[j])) is None || f(v[j]) == Some(v[j]),
        0 <= i < v.len(),
        f(v[i]) is Some,
    ensures
        rewrite(v, f).contains(v[i]),
    decreases v.len(),
{
    let dl = v.drop_last();
    let r = rewrite(v, f);
    assert(f(v[v.len() - 1]) is None || f(v[v.len() - 1]) == Some(v[v.len() - 1]));
    if i == v.len() - 1 {
        assert(r == rewrite(dl, f).push(v[i]));
        assert(r[r.len() - 1] == v[i]);
    } else {
        assert forall|j: int| 0 <= j < dl.len() implies (#[trigger] f(dl[j])) is None || f(dl[j])
            == Some(dl[j]) by {
            assert(dl[j] == v[j]);
        }
        assert(dl[i] == v[i]);
        lemma_kept_present(dl, f, i);
        let rd = rewrite(dl, f);
        let k = choose|k: int| 0 <= k < rd.len() && rd[k] == dl[i];
        match f(v.last()) {
            Some(d) => {
                assert(r == rd.push(d));
                assert(r[k] == rd[k]);
            },
            None => {},
        }
    }
}

/// In a distinct sequence, a dimension that is present fixes the axis's extent.
pub proof fn lemma_present_extent(v: Seq<DimView>, d: DimView)
    requires
        axis::distinct_axes(v),
        v.contains(d),
    ensures
        axis::has_axis(v, d.0),
        axis::axis_extent(v, d.0) == d.1,
{
    let k = choose|k: int| 0 <= k < v.len() && v[k] == d;
    axis::lemma_axis_position_unique(v, d.0, k);
}

/// Removing three distinct present axes of a distinct sequence divides its element count by
/// their extents.
pub proof fn lemma_count_without3(x: Seq<DimView>, a: Seq<Seq<char>>)
    requires
        axis::distinct_axes(x),
        a.len() == 3,
        a[0] != a[1] && a[0] != a[2] && a[1] != a[2],
        axis::has_axis(x, a[0]) && axis::has_axis(x, a[1]) && axis::has_axis(x, a[2]),
    ensures
        axis::element_count(x) == axis::element_count(rewrite(x, drop_names(a))) * (
        axis::axis_extent(x, a[0]) as nat) * (axis::axis_extent(x, a[1]) as nat) * (
        axis::axis_extent(x, a[2]) as nat),
{
    let a0 = seq![a[0]];
    let a1 = seq![a[1]];
    let a2 = seq![a[2]];
    let a01 = seq![a[0], a[1]];
    let f0 = drop_names(a0);
    let f1 = drop_names(a1);
    let f2 = drop_names(a2);
    let f01 = drop_names(a01);
    let fa = drop_names(a);
    assert forall|y: Seq<char>| #[trigger] a0.contains(y) <==> y == a[0] by {
        lemma_contains_listed(a0, y);
    }
    assert forall|y: Seq<char>| #[trigger] a1.contains(y) <==> y == a[1] by {
        lemma_contains_listed(a1, y);
    }
    assert forall|y: Seq<char>| #[trigger] a2.contains(y) <==> y == a[2] by {
        lemma_contains_listed(a2, y);
    }
    assert forall|y: Seq<char>| #[trigger] a01.contains(y) <==> y == a[0] || y == a[1] by {
        lemma_contains_listed(a01, y);
    }
    assert forall|y: Seq<char>| #[trigger] a.contains(y) <==> y == a[0] || y == a[1] || y == a[2] by {
        lemma_contains_listed(a, y);
    }
    let e0 = axis::axis_extent(x, a[0]) as nat;
    let e1 = axis::axis_extent(x, a[1]) as nat;
    let e2 = axis::axis_extent(x, a[2]) as nat;
    // first removal
    lemma_count_without(x, a[0]);
    let x1 = rewrite(x, f0);
    assert forall|j: int| 0 <= j < x.len() implies (#[trigger] f0(x[j])) is None || f0(x[j]) == Some(
        x[j],
    ) by {}
    lemma_rewrite_distinct(x, f0);
    let i1 = axis::axis_position(x, a[1]);
    axis::lemma_axis_position_unique(x, a[1], i1);
    lemma_kept_present(x, f0, i1);
    lemma_present_extent(x1, x[i1]);
    // second removal
    lemma_count_without(x1, a[1]);
    let x2 = rewrite(x1, f1);
    assert forall|j: int| 0 <= j < x1.len() implies (#[trigger] f1(x1[j])) is None || f1(x1[j])
        == Some(x1[j]) by {}
    lemma_rewrite_distinct(x1, f1);
    let i2 = axis::axis_position(x, a[2]);
    axis::lemma_axis_position_unique(x, a[2], i2);
    lemma_kept_present(x, f0, i2);
    lemma_present_extent(x1, x[i2]);
    let k2 = axis::axis_position(x1, a[2]);
    axis::lemma_axis_position_unique(x1, a[2], k2);
    lemma_kept_present(x1, f1, k2);
    lemma_present_extent(x2, x1[k2]);
    // third removal
    lemma_count_without(x2, a[2]);
    let x3 = rewrite(x2, f2);
    // x3 is x without all three
    assert forall|j: int| 0 <= j < x.len() implies #[trigger] f01(x[j]) == (match f0(x[j]) {
        Some(d) => f1(d),
        None => None,
    }) by {}
    lemma_rewrite_compose(x, f0, f1, f01);
    assert forall|j: int| 0 <= j < x.len() implies #[trigger] fa(x[j]) == (match f01(x[j]) {
        Some(d) => f2(d),
        None => None,
    }) by {}
    lemma_rewrite_compose(x, f01, f2, fa);
    assert(x3 == rewrite(x, fa));
    let c3 = axis::element_count(x3);
    assert(axis::element_count(x) == c3 * e2 * e1 * e0);
    assert(c3 * e2 * e1 * e0 == c3 * e0 * e1 * e2) by (nonlinear_arith);
}

} // verus!
