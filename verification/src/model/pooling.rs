//! Shape geometry of named-axis pooling: fixed-window max and average pooling,
//! adaptive pooling and max unpooling.
use crate::axis::{self, Axis, Dim, DimView, Shape};
use crate::error::Error;
use crate::geometry;
use vstd::prelude::*;
use vstd::string::StringExecFns;

verus! {

/// The window count along one axis of extent `e` (PyTorch's `pooling_output_shape`): with
/// `ceil` the count rounds up, then drops a last window that would start past the input and
/// its left padding.
pub open spec fn pool_count(e: usize, k: usize, s: usize, p: usize, ceil: bool) -> int {
    let padded = e + p * 2;
    let span = if ceil {
        padded + s - 1
    } else {
        padded
    };
    let c = (span - k) / (s as int) + 1;
    if ceil && (c - 1) * s >= e + p {
        c - 1
    } else {
        c
    }
}

/// Zero positions needed past the right padding so the last window exists.
pub open spec fn pool_overhang(e: usize, k: usize, s: usize, p: usize, count: usize) -> int {
    let end = (count - 1) * s + k;
    if end > e + p * 2 {
        end - (e + p * 2)
    } else {
        0
    }
}

/// The window count along axis `a` of `v`, or the first rejection.
pub open spec fn pool_axis(
    name: Seq<char>,
    v: Seq<DimView>,
    a: Seq<char>,
    k: usize,
    s: usize,
    p: usize,
    ceil: bool,
) -> Result<usize, Seq<char>> {
    if p * 2 > usize::MAX {
        Err(name + " padding overflow"@)
    } else if p * 2 > k {
        Err(name + " padding must be at most half the kernel extent"@)
    } else if !axis::has_axis(v, a) {
        Err(axis::missing_axis_message(a))
    } else {
        let e = axis::axis_extent(v, a);
        let padded = e + p * 2;
        if padded > usize::MAX {
            Err(name + " padded spatial extent overflow"@)
        } else if k > (if ceil {
            padded + s - 1
        } else {
            padded
        }) {
            Err(name + " kernel must fit the padded spatial axes"@)
        } else {
            Ok(pool_count(e, k, s, p, ceil) as usize)
        }
    }
}

/// With `ceil`, axis `a` (when present) stays within `usize` once the stride is added, and
/// with neither extent nor padding it is not asked for a window narrower than its stride.
pub open spec fn ceil_safe_axis(v: Seq<DimView>, a: Seq<char>, k: usize, s: usize, p: usize, ceil: bool) -> bool {
    ceil && axis::has_axis(v, a) ==> {
        let e = axis::axis_extent(v, a);
        &&& (e + p * 2 <= usize::MAX ==> e + p * 2 + s - 1 <= usize::MAX)
        &&& !(e + p == 0 && k < s)
    }
}

/// [`ceil_safe_axis`] for every spatial axis.
pub open spec fn ceil_safe(
    v: Seq<DimView>,
    sp: Seq<Seq<char>>,
    k: Seq<usize>,
    s: Seq<usize>,
    p: Seq<usize>,
    ceil: bool,
) -> bool {
    forall|i: int| 0 <= i < sp.len() ==> ceil_safe_axis(v, #[trigger] sp[i], k[i], s[i], p[i], ceil)
}

/// Pooling over `v`: the output dimensions (the channel axis moved last, each spatial axis at
/// its window count), the channel extent and the window counts; or the first rejection.
pub open spec fn pool_outcome(
    name: Seq<char>,
    v: Seq<DimView>,
    c: Seq<char>,
    sp: Seq<Seq<char>>,
    k: Seq<usize>,
    s: Seq<usize>,
    p: Seq<usize>,
    ceil: bool,
    divisor: Option<usize>,
) -> Result<(Seq<DimView>, usize, Seq<usize>), Seq<char>> {
    if !(sp.len() == 2 || sp.len() == 3) {
        Err("Axis pooling supports exactly two or three spatial axes"@)
    } else if !geometry::distinct_and_avoiding(sp, c) {
        Err(name + " requires distinct channel and spatial axes"@)
    } else if geometry::has_zero(k) {
        Err(name + " kernel extents must be positive"@)
    } else if geometry::has_zero(s) {
        Err(name + " stride extents must be positive"@)
    } else if divisor == Some(0usize) {
        Err(name + " divisor_override must be positive"@)
    } else if !axis::has_axis(v, c) {
        Err(axis::missing_axis_message(c))
    } else {
        match geometry::each_axis(
            sp.len(),
            |i: int| pool_axis(name, v, sp[i], k[i], s[i], p[i], ceil),
        ) {
            Err(m) => Err(m),
            Ok(w) => {
                let ch = axis::axis_extent(v, c);
                match axis::shape_outcome(
                    geometry::rewrite(v, geometry::replace_rule(c, sp, w)).push((c, ch)),
                ) {
                    Err(m) => Err(m),
                    Ok(d) => Ok((d, ch, w)),
                }
            },
        }
    }
}

/// Host-side geometry of one pooling call: the output shape, the channel extent, and per
/// spatial axis the input extent, the window count and the zero positions appended past the
/// right padding so every window exists.
#[derive(Debug)]
pub struct PoolGeometry {
    pub shape: Shape,
    pub channels: usize,
    pub input: Vec<usize>,
    pub output: Vec<usize>,
    pub overhang: Vec<usize>,
}

fn named(name: &str, tail: &str) -> (e: Error)
    ensures
        e@ == name@ + tail@,
{
    let mut m = String::from_str(name);
    m.append(tail);
    Error::new(m)
}

/// One spatial axis of a pooling: its input extent, window count and overhang.
fn pool_axis_exec(
    name: &str,
    input: &Shape,
    a: Axis,
    k: usize,
    s: usize,
    p: usize,
    ceil_mode: bool,
) -> (r: Result<(usize, usize, usize), Error>)
    requires
        k > 0,
        s > 0,
        ceil_safe_axis(input@, a@, k, s, p, ceil_mode),
    ensures
        pool_axis(name@, input@, a@, k, s, p, ceil_mode) matches Ok(c) ==> r is Ok && r->Ok_0.1 == c
            && r->Ok_0.0 == axis::axis_extent(input@, a@) && r->Ok_0.2 == pool_overhang(
            r->Ok_0.0,
            k,
            s,
            p,
            c,
        ),
        pool_axis(name@, input@, a@, k, s, p, ceil_mode) matches Err(m) ==> r is Err && r->Err_0@
            == m,
{
    if p > usize::MAX / 2 {
        return Err(named(name, " padding overflow"));
    }
    let doubled = p * 2;
    if doubled > k {
        return Err(named(name, " padding must be at most half the kernel extent"));
    }
    let e = input.extent(a)?;
    if e > usize::MAX - doubled {
        return Err(named(name, " padded spatial extent overflow"));
    }
    let padded = e + doubled;
    let span = if ceil_mode {
        padded + (s - 1)
    } else {
        padded
    };
    if k > span {
        return Err(named(name, " kernel must fit the padded spatial axes"));
    }
    let first = (span - k) / s + 1;
    proof {
        assert((first - 1) * (s as int) <= span - k) by (nonlinear_arith)
            requires
                first - 1 == (span - k) / (s as int),
                s > 0,
                span >= k,
        ;
    }
    let count = if ceil_mode && (first - 1) * s >= e + p {
        first - 1
    } else {
        first
    };
    proof {
        if first == 1 {
            assert((first - 1) * (s as int) == 0) by (nonlinear_arith)
                requires
                    first == 1,
            ;
            if ceil_mode && e + p == 0 {
                assert(k >= s);
                assert(span == s - 1);
            }
        }
    }
    assert(count >= 1);
    proof {
        assert((count - 1) * (s as int) <= (first - 1) * (s as int)) by (nonlinear_arith)
            requires
                count <= first,
                count >= 1,
                s > 0,
        ;
    }
    let end = (count - 1) * s + k;
    let extra = if end > padded {
        end - padded
    } else {
        0
    };
    Ok((e, count, extra))
}

/// Per spatial axis `sp[i]` of `v`, a pooling's recorded input extent, and the zero positions
/// past the right padding that its last window needs.
pub open spec fn pool_sides(
    input: Seq<usize>,
    output: Seq<usize>,
    overhang: Seq<usize>,
    v: Seq<DimView>,
    sp: Seq<Seq<char>>,
    kernel: Seq<usize>,
    stride: Seq<usize>,
    padding: Seq<usize>,
) -> bool {
    &&& input.len() == sp.len()
    &&& overhang.len() == sp.len()
    &&& forall|i: int|
        0 <= i < sp.len() ==> {
            &&& #[trigger] input[i] == axis::axis_extent(v, sp[i])
            &&& overhang[i] == pool_overhang(input[i], kernel[i], stride[i], padding[i], output[i])
        }
}

/// Along one axis of extent `e` with kernel `k`, stride `s` and padding `p`, the extent of the
/// window at `position`: the window clipped to the padded input or, without
/// `include_padding`, to the real input.
pub open spec fn window_extent(e: usize, k: usize, s: usize, p: usize, position: int, include_padding: bool) -> int {
    let start = position * s;
    let end = if start + k < e + 2 * p {
        start + k
    } else {
        e + 2 * p
    };
    if include_padding {
        end - start
    } else {
        let hi = if end < e + p {
            end
        } else {
            e + p
        };
        let lo = if start > p {
            start
        } else {
            p as int
        };
        hi - lo
    }
}

/// The element count of window `w`, its position along each axis read off `w` with the last
/// axis fastest: the product of its per-axis extents.
pub open spec fn window_element_count(
    input: Seq<usize>,
    output: Seq<usize>,
    kernel: Seq<usize>,
    stride: Seq<usize>,
    padding: Seq<usize>,
    include_padding: bool,
    w: int,
) -> int
    decreases input.len(),
{
    if input.len() == 0 {
        1
    } else {
        let a = input.len() - 1;
        window_element_count(
            input.drop_last(),
            output.drop_last(),
            kernel.drop_last(),
            stride.drop_last(),
            padding.drop_last(),
            include_padding,
            w / (output[a] as int),
        ) * window_extent(
            input[a],
            kernel[a],
            stride[a],
            padding[a],
            w % (output[a] as int),
            include_padding,
        )
    }
}

/// The windows of a pooling along each axis: one extent, window count, kernel, stride and
/// padding per axis; every axis has windows; every window starts inside the input or its left
/// padding and, the padding being narrower than the kernel, reaches past the left padding;
/// the padded extent plus a kernel fits `usize`; and the window total and the kernel volume
/// fit `usize`.
pub open spec fn windows_fit(
    input: Seq<usize>,
    output: Seq<usize>,
    kernel: Seq<usize>,
    stride: Seq<usize>,
    padding: Seq<usize>,
) -> bool {
    &&& output.len() == input.len()
    &&& kernel.len() == input.len()
    &&& stride.len() == input.len()
    &&& padding.len() == input.len()
    &&& forall|a: int|
        0 <= a < input.len() ==> {
            &&& 0 < #[trigger] output[a]
            &&& 0 < stride[a]
            &&& padding[a] < kernel[a]
            &&& (output[a] - 1) * stride[a] < input[a] + padding[a]
            &&& input[a] + 2 * padding[a] + kernel[a] <= usize::MAX
        }
    &&& geometry::product(output) <= usize::MAX
    &&& geometry::product(kernel) <= usize::MAX
}

/// Taking the first `a` axes of every sequence keeps the windows fitting.
proof fn lemma_windows_fit_take(
    input: Seq<usize>,
    output: Seq<usize>,
    kernel: Seq<usize>,
    stride: Seq<usize>,
    padding: Seq<usize>,
    a: int,
)
    requires
        windows_fit(input, output, kernel, stride, padding),
        0 < a <= input.len(),
    ensures
        input.take(a).drop_last() =~= input.take(a - 1),
        output.take(a).drop_last() =~= output.take(a - 1),
        kernel.take(a).drop_last() =~= kernel.take(a - 1),
        stride.take(a).drop_last() =~= stride.take(a - 1),
        padding.take(a).drop_last() =~= padding.take(a - 1),
{
}

/// The element count of window `w` of a pooling.
fn window_count_at(
    input: &[usize],
    output: &[usize],
    kernel: &[usize],
    stride: &[usize],
    padding: &[usize],
    include_padding: bool,
    w: usize,
) -> (c: usize)
    requires
        windows_fit(input@, output@, kernel@, stride@, padding@),
    ensures
        c == window_element_count(input@, output@, kernel@, stride@, padding@, include_padding, w as int),
{
    let m = input.len();
    let mut count: usize = 1;
    let mut rem: usize = w;
    let mut a: usize = m;
    assert(input@.take(m as int) =~= input@);
    assert(output@.take(m as int) =~= output@);
    assert(kernel@.take(m as int) =~= kernel@);
    assert(stride@.take(m as int) =~= stride@);
    assert(padding@.take(m as int) =~= padding@);
    while a > 0
        invariant
            a <= m,
            m == input@.len(),
            windows_fit(input@, output@, kernel@, stride@, padding@),
            count * window_element_count(
                input@.take(a as int),
                output@.take(a as int),
                kernel@.take(a as int),
                stride@.take(a as int),
                padding@.take(a as int),
                include_padding,
                rem as int,
            ) == window_element_count(input@, output@, kernel@, stride@, padding@, include_padding, w as int),
            count * geometry::product(kernel@.take(a as int)) <= geometry::product(kernel@),
        decreases a,
    {
        proof {
            lemma_windows_fit_take(input@, output@, kernel@, stride@, padding@, a as int);
        }
        let ghost before = rem as int;
        let ghost prefix_product = geometry::product(kernel@.take(a as int - 1));
        a = a - 1;
        let e = input[a];
        let o = output[a];
        let k = kernel[a];
        let s = stride[a];
        let p = padding[a];
        assert(0 < o && 0 < s && p < k && (o - 1) * s < e + p && e + 2 * p + k <= usize::MAX);
        let position = rem % o;
        rem = rem / o;
        assert(position * s <= (o - 1) * s) by (nonlinear_arith)
            requires
                position < o,
        ;
        let start = position * s;
        let full = e + 2 * p;
        let end = if start + k < full {
            start + k
        } else {
            full
        };
        let extent = if include_padding {
            end - start
        } else {
            let hi = if end < e + p {
                end
            } else {
                e + p
            };
            let lo = if start > p {
                start
            } else {
                p
            };
            hi - lo
        };
        proof {
            assert(extent as int == window_extent(e, k, s, p, before % (o as int), include_padding));
            assert(extent <= k);
            assert(kernel@.take(a as int + 1).last() == k);
            assert(geometry::product(kernel@.take(a as int + 1)) == prefix_product * (k as nat));
            assert(prefix_product >= 1) by {
                assert forall|i: int| 0 <= i < a implies kernel@.take(a as int)[i] > 0 by {
                    assert(0 < output@[i]);
                }
                lemma_product_positive(kernel@.take(a as int));
            }
            assert(count * extent * prefix_product <= count * geometry::product(kernel@.take(a as int + 1)))
                by (nonlinear_arith)
                requires
                    extent <= k,
                    geometry::product(kernel@.take(a as int + 1)) == prefix_product * (k as nat),
            ;
            assert(count * extent <= count * extent * prefix_product) by (nonlinear_arith)
                requires
                    prefix_product >= 1,
            ;
            let x = window_element_count(
                input@.take(a as int),
                output@.take(a as int),
                kernel@.take(a as int),
                stride@.take(a as int),
                padding@.take(a as int),
                include_padding,
                rem as int,
            );
            assert(count * (x * extent) == (count * extent) * x) by (nonlinear_arith);
        }
        count = count * extent;
    }
    count
}

/// A product of positive extents is positive.
proof fn lemma_product_positive(k: Seq<usize>)
    requires
        forall|i: int| 0 <= i < k.len() ==> k[i] > 0,
    ensures
        geometry::product(k) >= 1,
    decreases k.len(),
{
    if k.len() > 0 {
        lemma_product_positive(k.drop_last());
        assert(geometry::product(k.drop_last()) * (k.last() as nat) >= 1) by (nonlinear_arith)
            requires
                geometry::product(k.drop_last()) >= 1,
                k.last() as nat >= 1,
        ;
    }
}

/// The element count of every window of a pooling, last axis fastest: the product of the
/// window's per-axis extents, each clipped to the padded input or, without
/// `include_padding`, to the real input. These are average pooling's divisors when no
/// override is set.
pub fn pool_window_counts(
    input: &[usize],
    output: &[usize],
    kernel: &[usize],
    stride: &[usize],
    padding: &[usize],
    include_padding: bool,
) -> (r: Vec<usize>)
    requires
        windows_fit(input@, output@, kernel@, stride@, padding@),
    ensures
        r@.len() == geometry::product(output@),
        forall|w: int|
            0 <= w < r@.len() ==> #[trigger] r@[w] == window_element_count(
                input@,
                output@,
                kernel@,
                stride@,
                padding@,
                include_padding,
                w,
            ),
{
    proof {
        assert forall|i: int| 0 <= i < output@.len() implies output@[i] != 0 by {
            assert(0 < output@[i]);
        }
    }
    let total = match geometry::scaled_product(1, output) {
        Some(t) => t,
        None => 0,
    };
    let mut counts: Vec<usize> = Vec::new();
    let mut w: usize = 0;
    while w < total
        invariant
            total == geometry::product(output@),
            windows_fit(input@, output@, kernel@, stride@, padding@),
            w <= total,
            counts@.len() == w,
            forall|j: int|
                0 <= j < w ==> #[trigger] counts@[j] == window_element_count(
                    input@,
                    output@,
                    kernel@,
                    stride@,
                    padding@,
                    include_padding,
                    j,
                ),
        decreases total - w,
    {
        let c = window_count_at(input, output, kernel, stride, padding, include_padding, w);
        counts.push(c);
        w = w + 1;
    }
    counts
}

/// Window extent law. For a window that starts inside the input or its left padding, with
/// padding narrower than the kernel: the extent counting padding is at most the kernel and at
/// least the extent counting only real positions, which is not negative; a window inside the
/// padded input counts the whole kernel with padding, and one inside the real input counts
/// the whole kernel either way; a window overhanging the padded end counts up to that end;
/// and the two extents differ by exactly the left and right padding positions the window
/// covers.
pub proof fn lemma_window_extent(e: usize, k: usize, s: usize, p: usize, position: int)
    requires
        p < k,
        0 <= position,
        position * s < e + p,
    ensures
        0 <= window_extent(e, k, s, p, position, false),
        window_extent(e, k, s, p, position, false) <= window_extent(e, k, s, p, position, true),
        window_extent(e, k, s, p, position, true) <= k,
        position * s + k <= e + 2 * p ==> window_extent(e, k, s, p, position, true) == k,
        p <= position * s && position * s + k <= e + p ==> window_extent(
            e,
            k,
            s,
            p,
            position,
            false,
        ) == k,
        position * s + k > e + 2 * p ==> window_extent(e, k, s, p, position, true) == e + 2 * p
            - position * s,
        window_extent(e, k, s, p, position, true) == window_extent(e, k, s, p, position, false) + (
        if position * s < p {
            p - position * s
        } else {
            0
        }) + (if position * s + k > e + p {
            (if position * s + k < e + 2 * p {
                position * s + k
            } else {
                e + 2 * p
            }) - (e + p)
        } else {
            0
        }),
{
    assert(0 <= position * s) by (nonlinear_arith)
        requires
            0 <= position,
    ;
}

/// Window count law. Every window of a pooling counts no more real positions than positions
/// of the padded input, and no more of those than the kernel volume; when every axis's last
/// window ends inside the padded input, every window counting padding has the whole kernel
/// volume as its count.
pub proof fn lemma_window_counts(
    input: Seq<usize>,
    output: Seq<usize>,
    kernel: Seq<usize>,
    stride: Seq<usize>,
    padding: Seq<usize>,
    w: int,
)
    requires
        windows_fit(input, output, kernel, stride, padding),
        0 <= w < geometry::product(output),
    ensures
        0 <= window_element_count(input, output, kernel, stride, padding, false, w),
        window_element_count(input, output, kernel, stride, padding, false, w)
            <= window_element_count(input, output, kernel, stride, padding, true, w),
        window_element_count(input, output, kernel, stride, padding, true, w) <= geometry::product(
            kernel,
        ),
        (forall|a: int|
            0 <= a < input.len() ==> (#[trigger] output[a] - 1) * stride[a] + kernel[a] <= input[a]
                + 2 * padding[a]) ==> window_element_count(
            input,
            output,
            kernel,
            stride,
            padding,
            true,
            w,
        ) == geometry::product(kernel),
    decreases input.len(),
{
    if input.len() > 0 {
        let a = input.len() - 1;
        let o = output[a] as int;
        assert(0 < output[a]);
        let (di, dout, dk, ds, dp) = (
            input.drop_last(),
            output.drop_last(),
            kernel.drop_last(),
            stride.drop_last(),
            padding.drop_last(),
        );
        let pd = geometry::product(dout);
        let kd = geometry::product(dk);
        assert(geometry::product(output) == pd * (o as nat));
        assert(geometry::product(kernel) == kd * (kernel[a] as nat));
        assert(pd <= geometry::product(output)) by (nonlinear_arith)
            requires
                geometry::product(output) == pd * (o as nat),
                o >= 1,
        ;
        assert(kd <= geometry::product(kernel)) by (nonlinear_arith)
            requires
                geometry::product(kernel) == kd * (kernel[a] as nat),
                kernel[a] >= 1,
        ;
        assert(windows_fit(di, dout, dk, ds, dp)) by {
            assert forall|b: int| 0 <= b < di.len() implies {
                &&& 0 < #[trigger] dout[b]
                &&& 0 < ds[b]
                &&& dp[b] < dk[b]
                &&& (dout[b] - 1) * ds[b] < di[b] + dp[b]
                &&& di[b] + 2 * dp[b] + dk[b] <= usize::MAX
            } by {
                assert(0 < output[b]);
            }
        }
        assert(w < o * pd) by (nonlinear_arith)
            requires
                w < pd * (o as nat),
                o >= 1,
        ;
        vstd::arithmetic::div_mod::lemma_multiply_divide_lt(w, o, pd as int);
        vstd::arithmetic::div_mod::lemma_div_pos_is_pos(w, o);
        vstd::arithmetic::div_mod::lemma_mod_pos_bound(w, o);
        let q = w / o;
        let r = w % o;
        lemma_window_counts(di, dout, dk, ds, dp, q);
        assert(r * stride[a] <= (o - 1) * stride[a]) by (nonlinear_arith)
            requires
                r <= o - 1,
        ;
        lemma_window_extent(input[a], kernel[a], stride[a], padding[a], r);
        let xf = window_element_count(di, dout, dk, ds, dp, false, q);
        let xt = window_element_count(di, dout, dk, ds, dp, true, q);
        let ef = window_extent(input[a], kernel[a], stride[a], padding[a], r, false);
        let et = window_extent(input[a], kernel[a], stride[a], padding[a], r, true);
        assert(0 <= xf * ef && xf * ef <= xt * et && xt * et <= kd * kernel[a]) by (nonlinear_arith)
            requires
                0 <= xf <= xt <= kd,
                0 <= ef <= et <= kernel[a],
        ;
        if forall|b: int|
            0 <= b < input.len() ==> (#[trigger] output[b] - 1) * stride[b] + kernel[b] <= input[b]
                + 2 * padding[b] {
            assert forall|b: int| 0 <= b < di.len() implies (#[trigger] dout[b] - 1) * ds[b] + dk[b]
                <= di[b] + 2 * dp[b] by {
                assert((output[b] - 1) * stride[b] + kernel[b] <= input[b] + 2 * padding[b]);
            }
            assert((output[a] - 1) * stride[a] + kernel[a] <= input[a] + 2 * padding[a]);
        }
    }
}

/// Window order law. Over two spatial axes, window `i * o1 + j` (for `i < o0`, `j < o1`) is
/// the window at position `i` along the first axis and `j` along the second: its count is the
/// product of those two positions' extents.
pub proof fn lemma_window_order(
    input: Seq<usize>,
    output: Seq<usize>,
    kernel: Seq<usize>,
    stride: Seq<usize>,
    padding: Seq<usize>,
    include_padding: bool,
    i: int,
    j: int,
)
    requires
        input.len() == 2,
        output.len() == 2,
        kernel.len() == 2,
        stride.len() == 2,
        padding.len() == 2,
        0 <= i < output[0],
        0 <= j < output[1],
    ensures
        window_element_count(input, output, kernel, stride, padding, include_padding, i * output[1] + j)
            == window_extent(input[0], kernel[0], stride[0], padding[0], i, include_padding)
            * window_extent(input[1], kernel[1], stride[1], padding[1], j, include_padding),
{
    let w = i * output[1] + j;
    vstd::arithmetic::div_mod::lemma_fundamental_div_mod_converse(w, output[1] as int, i, j);
    vstd::arithmetic::div_mod::lemma_fundamental_div_mod_converse(i, output[0] as int, 0, i);
    let (di, dout, dk, ds, dp) = (
        input.drop_last(),
        output.drop_last(),
        kernel.drop_last(),
        stride.drop_last(),
        padding.drop_last(),
    );
    assert(di.drop_last().len() == 0);
    let inner = window_element_count(di, dout, dk, ds, dp, include_padding, i);
    assert(inner == window_element_count(
        di.drop_last(),
        dout.drop_last(),
        dk.drop_last(),
        ds.drop_last(),
        dp.drop_last(),
        include_padding,
        i / (dout[0] as int),
    ) * window_extent(di[0], dk[0], ds[0], dp[0], i % (dout[0] as int), include_padding));
    assert(inner == window_extent(input[0], kernel[0], stride[0], padding[0], i, include_padding));
}

/// The divisor of every window of an average pooling, last axis fastest: `divisor_override`
/// when set, otherwise the window's element count from [`pool_window_counts`], padding
/// counted exactly when `include_padding`.
pub fn pool_divisors(
    input: &[usize],
    output: &[usize],
    kernel: &[usize],
    stride: &[usize],
    padding: &[usize],
    include_padding: bool,
    divisor_override: Option<usize>,
) -> (r: Vec<usize>)
    requires
        windows_fit(input@, output@, kernel@, stride@, padding@),
    ensures
        r@.len() == geometry::product(output@),
        forall|w: int|
            0 <= w < r@.len() ==> #[trigger] r@[w] == match divisor_override {
                Some(d) => d as int,
                None => window_element_count(
                    input@,
                    output@,
                    kernel@,
                    stride@,
                    padding@,
                    include_padding,
                    w,
                ),
            },
{
    match divisor_override {
        None => pool_window_counts(input, output, kernel, stride, padding, include_padding),
        Some(d) => {
            proof {
                assert forall|i: int| 0 <= i < output@.len() implies output@[i] != 0 by {
                    assert(0 < output@[i]);
                }
            }
            let total = match geometry::scaled_product(1, output) {
                Some(t) => t,
                None => 0,
            };
            let mut divisors: Vec<usize> = Vec::new();
            let mut w: usize = 0;
            while w < total
                invariant
                    total == geometry::product(output@),
                    w <= total,
                    divisors@.len() == w,
                    forall|j: int| 0 <= j < w ==> #[trigger] divisors@[j] == d,
                decreases total - w,
            {
                divisors.push(d);
                w = w + 1;
            }
            divisors
        },
    }
}

/// Fixed-window pooling geometry over two or three spatial axes.
#[verifier::loop_isolation(false)]
pub fn pool_geometry(
    name: &str,
    input: &Shape,
    channels: Axis,
    spatial: &[Axis],
    kernel: &[usize],
    stride: &[usize],
    padding: &[usize],
    ceil_mode: bool,
    divisor_override: Option<usize>,
) -> (r: Result<PoolGeometry, Error>)
    requires
        kernel@.len() == spatial@.len(),
        stride@.len() == spatial@.len(),
        padding@.len() == spatial@.len(),
        ceil_safe(input@, geometry::names(spatial@), kernel@, stride@, padding@, ceil_mode),
    ensures
        pool_outcome(
            name@,
            input@,
            channels@,
            geometry::names(spatial@),
            kernel@,
            stride@,
            padding@,
            ceil_mode,
            divisor_override,
        ) matches Ok((d, ch, w)) ==> r is Ok && r->Ok_0.shape@ == d && r->Ok_0.channels == ch
            && r->Ok_0.output@ == w,
        pool_outcome(
            name@,
            input@,
            channels@,
            geometry::names(spatial@),
            kernel@,
            stride@,
            padding@,
            ceil_mode,
            divisor_override,
        ) matches Err(m) ==> r is Err && r->Err_0@ == m,
        r matches Ok(g) ==> g.input@.len() == spatial@.len() && g.overhang@.len() == spatial@.len()
            && forall|i: int|
            0 <= i < spatial@.len() ==> {
                &&& #[trigger] g.input@[i] == axis::axis_extent(input@, spatial@[i]@)
                &&& g.overhang@[i] == pool_overhang(
                    g.input@[i],
                    kernel@[i],
                    stride@[i],
                    padding@[i],
                    g.output@[i],
                )
            },
{
    let ghost sp = geometry::names(spatial@);
    let n = spatial.len();
    if !(n == 2 || n == 3) {
        proof {
            reveal_strlit("Axis pooling supports exactly two or three spatial axes");
        }
        return Err(
            Error::new(String::from_str("Axis pooling supports exactly two or three spatial axes")),
        );
    }
    if !geometry::check_distinct(spatial, Some(channels)) {
        return Err(named(name, " requires distinct channel and spatial axes"));
    }
    if geometry::any_zero(kernel) {
        return Err(named(name, " kernel extents must be positive"));
    }
    if geometry::any_zero(stride) {
        return Err(named(name, " stride extents must be positive"));
    }
    if divisor_override == Some(0usize) {
        return Err(named(name, " divisor_override must be positive"));
    }
    let ch = input.extent(channels)?;
    let ghost f = |i: int| pool_axis(name@, input@, sp[i], kernel@[i], stride@[i], padding@[i], ceil_mode);
    let mut sizes: Vec<usize> = Vec::new();
    let mut output: Vec<usize> = Vec::new();
    let mut overhang: Vec<usize> = Vec::new();
    let mut i: usize = 0;
    while i < n
        invariant
            n == spatial@.len(),
            sp == geometry::names(spatial@),
            kernel@.len() == n,
            stride@.len() == n,
            padding@.len() == n,
            !geometry::has_zero(kernel@),
            !geometry::has_zero(stride@),
            ceil_safe(input@, sp, kernel@, stride@, padding@, ceil_mode),
            f == (|i: int| pool_axis(name@, input@, sp[i], kernel@[i], stride@[i], padding@[i], ceil_mode)),
            i <= n,
            geometry::each_axis(i as nat, f) == Ok::<Seq<usize>, Seq<char>>(output@),
            sizes@.len() == i,
            overhang@.len() == i,
            forall|j: int|
                0 <= j < i ==> {
                    &&& #[trigger] sizes@[j] == axis::axis_extent(input@, spatial@[j]@)
                    &&& overhang@[j] == pool_overhang(
                        sizes@[j],
                        kernel@[j],
                        stride@[j],
                        padding@[j],
                        output@[j],
                    )
                },
        decreases n - i,
    {
        proof {
            geometry::lemma_each_axis_len(i as nat, f);
        }
        assert(kernel@[i as int] != 0);
        assert(stride@[i as int] != 0);
        assert(sp[i as int] == spatial@[i as int]@);
        let (e, count, extra) = match pool_axis_exec(
            name,
            input,
            spatial[i],
            kernel[i],
            stride[i],
            padding[i],
            ceil_mode,
        ) {
            Ok(t) => t,
            Err(err) => {
                proof {
                    geometry::lemma_each_axis_err_sticks(n as nat, f, i as nat + 1);
                }
                return Err(err);
            },
        };
        sizes.push(e);
        output.push(count);
        overhang.push(extra);
        i = i + 1;
    }
    proof {
        geometry::lemma_each_axis_len(n as nat, f);
    }
    let mut dims = geometry::replace_dims(input, channels, spatial, &output);
    dims.push(channels.of(ch));
    proof {
        assert(axis::dims_view(dims@) =~= geometry::rewrite(
            input@,
            geometry::replace_rule(channels@, sp, output@),
        ).push((channels@, ch)));
    }
    let shape = Shape::new(dims)?;
    Ok(PoolGeometry { shape, channels: ch, input: sizes, output, overhang })
}

} // verus!

verus! {

/// Adaptive pooling over `v`: each spatial axis takes its target extent, the rest stay; or the
/// first rejection (repeated spatial axis, zero target, missing axis, then the shape itself).
pub open spec fn adaptive_outcome(name: Seq<char>, v: Seq<DimView>, sp: Seq<Seq<char>>, t: Seq<usize>) -> Result<
    Seq<DimView>,
    Seq<char>,
> {
    if !geometry::distinct_names(sp) {
        Err(name + " requires distinct spatial axes"@)
    } else if geometry::has_zero(t) {
        Err(name + " target extents must be positive"@)
    } else {
        match geometry::extents_of(v, sp) {
            Err(m) => Err(m),
            Ok(_) => axis::shape_outcome(geometry::rewrite(v, geometry::resize_rule(sp, t))),
        }
    }
}

/// The output shape of adaptive pooling of `spatial` to `target` extents.
pub fn adaptive_output_shape(name: &str, input: &Shape, spatial: &[Axis], target: &[usize]) -> (r:
    Result<Shape, Error>)
    requires
        target@.len() == spatial@.len(),
    ensures
        adaptive_outcome(name@, input@, geometry::names(spatial@), target@) matches Ok(d) ==> r is Ok
            && r->Ok_0@ == d,
        adaptive_outcome(name@, input@, geometry::names(spatial@), target@) matches Err(m) ==> r is Err
            && r->Err_0@ == m,
{
    if !geometry::check_distinct(spatial, None) {
        return Err(named(name, " requires distinct spatial axes"));
    }
    if geometry::any_zero(target) {
        return Err(named(name, " target extents must be positive"));
    }
    let _ = geometry::extents(input, spatial)?;
    let dims = geometry::resize_dims(input, spatial, target);
    Shape::new(dims)
}

/// The default unpooled extent along axis `a`, `(in - 1) * stride - 2 * padding + kernel`, or
/// the rejection.
pub open spec fn unpool_default(
    name: Seq<char>,
    v: Seq<DimView>,
    a: Seq<char>,
    k: usize,
    s: usize,
    p: usize,
) -> Result<usize, Seq<char>> {
    if !axis::has_axis(v, a) {
        Err(axis::missing_axis_message(a))
    } else {
        let e = axis::axis_extent(v, a);
        let span = (e - 1) * s + k;
        if e == 0 || span > usize::MAX || span <= p * 2 {
            Err(name + " default output size is not positive"@)
        } else {
            Ok((span - p * 2) as usize)
        }
    }
}

/// Unpooling can restore the extent a pooling reduced: when a pooling window with kernel `k`,
/// stride `s` and padding `p` takes extent `e` to `o` windows, an unpooling with the same
/// kernel, stride and padding accepts `e` as the explicit output extent of an axis of extent
/// `o`, whenever its default output extent is positive. The default itself is `e` less the
/// remainder the floor division dropped.
pub proof fn lemma_unpool_accepts_pooled_extent(
    name: Seq<char>,
    v: Seq<DimView>,
    a: Seq<char>,
    e: usize,
    k: usize,
    s: usize,
    p: usize,
    index: nat,
)
    requires
        k > 0,
        s > 0,
        geometry::window_count(e, k, s, p, geometry::WindowRule::Fit) is Ok,
        axis::has_axis(v, a),
        axis::axis_extent(v, a) == geometry::window_count(e, k, s, p, geometry::WindowRule::Fit)->Ok_0,
        unpool_default(name, v, a, k, s, p) is Ok,
    ensures
        unpool_default(name, v, a, k, s, p)->Ok_0 == e - (e + p * 2 - k) % (s as int),
        unpool_sized_axis(name, v, a, k, s, p, e, index) == Ok::<usize, Seq<char>>(e),
{
    let x: int = e + p * 2 - k;
    let q: int = x / (s as int);
    let r: int = x % (s as int);
    assert(x == q * s + r && 0 <= r < s) by (nonlinear_arith)
        requires
            s > 0,
            x >= 0,
            q == x / (s as int),
            r == x % (s as int),
    ;
    let o = axis::axis_extent(v, a);
    assert(o == q + 1);
    assert((o - 1) * s == q * s) by (nonlinear_arith)
        requires
            o == q + 1,
    ;
}

/// Along axis `a` (when present and its expanded extent fits `usize`), doubling the padding
/// fits `usize`.
pub open spec fn unpool_padding_fits(v: Seq<DimView>, a: Seq<char>, k: usize, s: usize, p: usize) -> bool {
    axis::has_axis(v, a) && axis::axis_extent(v, a) > 0 && (axis::axis_extent(v, a) - 1) * s + k
        <= usize::MAX ==> p * 2 <= usize::MAX
}

/// Max unpooling over `v` at the default output extents.
pub open spec fn unpool_outcome(
    name: Seq<char>,
    v: Seq<DimView>,
    sp: Seq<Seq<char>>,
    k: Seq<usize>,
    s: Seq<usize>,
    p: Seq<usize>,
) -> Result<Seq<DimView>, Seq<char>> {
    if !geometry::distinct_names(sp) {
        Err(name + " requires distinct spatial axes"@)
    } else if geometry::has_zero(k) || geometry::has_zero(s) {
        Err(name + " kernel and stride extents must be positive"@)
    } else {
        match geometry::each_axis(sp.len(), |i: int| unpool_default(name, v, sp[i], k[i], s[i], p[i])) {
            Err(m) => Err(m),
            Ok(w) => axis::shape_outcome(geometry::rewrite(v, geometry::resize_rule(sp, w))),
        }
    }
}

fn unpool_default_exec(name: &str, input: &Shape, a: Axis, k: usize, s: usize, p: usize) -> (r: Result<
    usize,
    Error,
>)
    requires
        unpool_padding_fits(input@, a@, k, s, p),
    ensures
        unpool_default(name@, input@, a@, k, s, p) matches Ok(d) ==> r == Ok::<usize, Error>(d),
        unpool_default(name@, input@, a@, k, s, p) matches Err(m) ==> r is Err && r->Err_0@ == m,
{
    let e = input.extent(a)?;
    let default = match e.checked_sub(1) {
        None => None,
        Some(steps) => match steps.checked_mul(s) {
            None => None,
            Some(span) => match span.checked_add(k) {
                None => None,
                Some(span) => match span.checked_sub(2 * p) {
                    Some(size) => if size > 0 {
                        Some(size)
                    } else {
                        None
                    },
                    None => None,
                },
            },
        },
    };
    match default {
        Some(size) => Ok(size),
        None => Err(named(name, " default output size is not positive")),
    }
}

/// `a - b` as a signed decimal.
pub open spec fn signed_difference_text(a: nat, b: nat) -> Seq<char> {
    if a >= b {
        crate::text::decimal_text((a - b) as nat)
    } else {
        "-"@ + crate::text::decimal_text((b - a) as nat)
    }
}

/// An explicit unpooled extent along one axis: it must lie strictly within `stride` of the
/// default.
pub open spec fn unpool_sized_axis(
    name: Seq<char>,
    v: Seq<DimView>,
    a: Seq<char>,
    k: usize,
    s: usize,
    p: usize,
    requested: usize,
    index: nat,
) -> Result<usize, Seq<char>> {
    match unpool_default(name, v, a, k, s, p) {
        Err(m) => Err(m),
        Ok(d) => if requested + s <= d || requested >= d + s {
            Err(
                name + " output size "@ + crate::text::decimal_text(requested as nat) + " is outside ("@
                    + signed_difference_text(d as nat, s as nat) + ", "@ + crate::text::decimal_text(
                    (d + s) as nat,
                ) + ") for axis "@ + crate::text::decimal_text(index),
            )
        } else {
            Ok(requested)
        },
    }
}

/// Along every present axis the explicit size, the default extent and the stride leave room
/// for the window check in `usize` and `isize`.
pub open spec fn unpool_sizes_fit(
    name: Seq<char>,
    v: Seq<DimView>,
    sp: Seq<Seq<char>>,
    k: Seq<usize>,
    s: Seq<usize>,
    p: Seq<usize>,
    requested: Seq<usize>,
) -> bool {
    forall|i: int|
        0 <= i < sp.len() ==> {
            &&& unpool_padding_fits(v, #[trigger] sp[i], k[i], s[i], p[i])
            &&& requested[i] + s[i] <= usize::MAX
            &&& s[i] <= isize::MAX
            &&& unpool_default(name, v, sp[i], k[i], s[i], p[i]) matches Ok(d) ==> d + s[i] <= usize::MAX
                && d <= isize::MAX
        }
}

/// The unpooled extents: the defaults, or the explicit sizes checked against them.
pub open spec fn unpool_sizes_outcome(
    name: Seq<char>,
    v: Seq<DimView>,
    sp: Seq<Seq<char>>,
    k: Seq<usize>,
    s: Seq<usize>,
    p: Seq<usize>,
    requested: Option<Seq<usize>>,
) -> Result<Seq<usize>, Seq<char>> {
    if !geometry::distinct_names(sp) {
        Err(name + " requires distinct spatial axes"@)
    } else if geometry::has_zero(k) || geometry::has_zero(s) {
        Err(name + " kernel and stride extents must be positive"@)
    } else {
        match requested {
            None => geometry::each_axis(sp.len(), |i: int| unpool_default(name, v, sp[i], k[i], s[i], p[i])),
            Some(req) => geometry::each_axis(
                sp.len(),
                |i: int| unpool_sized_axis(name, v, sp[i], k[i], s[i], p[i], req[i], i as nat),
            ),
        }
    }
}

/// The unpooled extents along `spatial`: the defaults, or `requested` checked against them.
#[verifier::loop_isolation(false)]
pub fn unpool_sizes(
    name: &str,
    input: &Shape,
    spatial: &[Axis],
    kernel: &[usize],
    stride: &[usize],
    padding: &[usize],
    requested: Option<&[usize]>,
) -> (r: Result<Vec<usize>, Error>)
    requires
        kernel@.len() == spatial@.len(),
        stride@.len() == spatial@.len(),
        padding@.len() == spatial@.len(),
        requested matches Some(req) ==> req@.len() == spatial@.len(),
        unpool_sizes_fit(
            name@,
            input@,
            geometry::names(spatial@),
            kernel@,
            stride@,
            padding@,
            match requested {
                Some(req) => req@,
                None => kernel@,
            },
        ),
    ensures
        unpool_sizes_outcome(
            name@,
            input@,
            geometry::names(spatial@),
            kernel@,
            stride@,
            padding@,
            match requested {
                Some(req) => Some(req@),
                None => None,
            },
        ) matches Ok(w) ==> r is Ok && r->Ok_0@ == w,
        unpool_sizes_outcome(
            name@,
            input@,
            geometry::names(spatial@),
            kernel@,
            stride@,
            padding@,
            match requested {
                Some(req) => Some(req@),
                None => None,
            },
        ) matches Err(m) ==> r is Err && r->Err_0@ == m,
{
    let ghost sp = geometry::names(spatial@);
    if !geometry::check_distinct(spatial, None) {
        return Err(named(name, " requires distinct spatial axes"));
    }
    if geometry::any_zero(kernel) || geometry::any_zero(stride) {
        return Err(named(name, " kernel and stride extents must be positive"));
    }
    let n = spatial.len();
    let ghost f = match requested {
        None => |i: int| unpool_default(name@, input@, sp[i], kernel@[i], stride@[i], padding@[i]),
        Some(req) => |i: int|
            unpool_sized_axis(
                name@,
                input@,
                sp[i],
                kernel@[i],
                stride@[i],
                padding@[i],
                req@[i],
                i as nat,
            ),
    };
    let mut sizes: Vec<usize> = Vec::new();
    let mut i: usize = 0;
    while i < n
        invariant
            i <= n,
            geometry::each_axis(i as nat, f) == Ok::<Seq<usize>, Seq<char>>(sizes@),
        decreases n - i,
    {
        assert(sp[i as int] == spatial@[i as int]@);
        let d = match unpool_default_exec(name, input, spatial[i], kernel[i], stride[i], padding[i]) {
            Ok(d) => d,
            Err(err) => {
                proof {
                    geometry::lemma_each_axis_err_sticks(n as nat, f, i as nat + 1);
                }
                return Err(err);
            },
        };
        let size = match requested {
            None => d,
            Some(req) => {
                let want = req[i];
                let st = stride[i];
                if want + st <= d || want >= d + st {
                    let mut m = String::from_str(name);
                    m.append(" output size ");
                    crate::text::push_decimal(&mut m, want);
                    m.append(" is outside (");
                    if d >= st {
                        crate::text::push_decimal(&mut m, d - st);
                    } else {
                        m.append("-");
                        crate::text::push_decimal(&mut m, st - d);
                    }
                    m.append(", ");
                    crate::text::push_decimal(&mut m, d + st);
                    m.append(") for axis ");
                    crate::text::push_decimal(&mut m, i);
                    proof {
                        assert(m@ =~= name@ + " output size "@ + crate::text::decimal_text(want as nat)
                            + " is outside ("@ + signed_difference_text(d as nat, st as nat) + ", "@
                            + crate::text::decimal_text((d + st) as nat) + ") for axis "@
                            + crate::text::decimal_text(i as nat));
                        geometry::lemma_each_axis_err_sticks(n as nat, f, i as nat + 1);
                    }
                    return Err(Error::new(m));
                }
                want
            },
        };
        sizes.push(size);
        i = i + 1;
    }
    Ok(sizes)
}

/// The output shape of max unpooling at the default output extents.
pub fn unpool_output_shape(
    name: &str,
    input: &Shape,
    spatial: &[Axis],
    kernel: &[usize],
    stride: &[usize],
    padding: &[usize],
) -> (r: Result<Shape, Error>)
    requires
        kernel@.len() == spatial@.len(),
        stride@.len() == spatial@.len(),
        padding@.len() == spatial@.len(),
        forall|i: int|
            0 <= i < spatial@.len() ==> unpool_padding_fits(
                input@,
                #[trigger] spatial@[i]@,
                kernel@[i],
                stride@[i],
                padding@[i],
            ),
    ensures
        unpool_outcome(name@, input@, geometry::names(spatial@), kernel@, stride@, padding@) matches Ok(
            d,
        ) ==> r is Ok && r->Ok_0@ == d,
        unpool_outcome(name@, input@, geometry::names(spatial@), kernel@, stride@, padding@) matches Err(
            m,
        ) ==> r is Err && r->Err_0@ == m,
{
    let ghost sp = geometry::names(spatial@);
    if !geometry::check_distinct(spatial, None) {
        return Err(named(name, " requires distinct spatial axes"));
    }
    if geometry::any_zero(kernel) || geometry::any_zero(stride) {
        return Err(named(name, " kernel and stride extents must be positive"));
    }
    let n = spatial.len();
    let ghost f = |i: int| unpool_default(name@, input@, sp[i], kernel@[i], stride@[i], padding@[i]);
    let mut sizes: Vec<usize> = Vec::new();
    let mut i: usize = 0;
    while i < n
        invariant
            n == spatial@.len(),
            sp == geometry::names(spatial@),
            kernel@.len() == n,
            stride@.len() == n,
            padding@.len() == n,
            forall|i: int|
                0 <= i < spatial@.len() ==> unpool_padding_fits(
                    input@,
                    #[trigger] spatial@[i]@,
                    kernel@[i],
                    stride@[i],
                    padding@[i],
                ),
            f == (|i: int| unpool_default(name@, input@, sp[i], kernel@[i], stride@[i], padding@[i])),
            i <= n,
            geometry::each_axis(i as nat, f) == Ok::<Seq<usize>, Seq<char>>(sizes@),
            geometry::distinct_names(sp),
            !geometry::has_zero(kernel@),
            !geometry::has_zero(stride@),
            unpool_outcome(name@, input@, sp, kernel@, stride@, padding@) == match geometry::each_axis(
                n as nat,
                f,
            ) {
                Err(m) => Err(m),
                Ok(w) => axis::shape_outcome(geometry::rewrite(input@, geometry::resize_rule(sp, w))),
            },
        decreases n - i,
    {
        assert(sp[i as int] == spatial@[i as int]@);
        match unpool_default_exec(name, input, spatial[i], kernel[i], stride[i], padding[i]) {
            Ok(size) => {
                sizes.push(size);
            },
            Err(err) => {
                proof {
                    geometry::lemma_each_axis_err_sticks(n as nat, f, i as nat + 1);
                }
                return Err(err);
            },
        }
        i = i + 1;
    }
    proof {
        geometry::lemma_each_axis_len(n as nat, f);
    }
    let dims = geometry::resize_dims(input, spatial, sizes.as_slice());
    Shape::new(dims)
}

} // verus!

verus! {

/// The configuration of a fixed-window pooling: channel axis, spatial axes, kernel, stride,
/// padding, whether the window count rounds up, and for average pooling whether padding counts
/// toward the divisor and the divisor override.
pub ghost struct PoolView {
    pub channels: Seq<char>,
    pub spatial: Seq<Seq<char>>,
    pub kernel: Seq<usize>,
    pub stride: Seq<usize>,
    pub padding: Seq<usize>,
    pub ceil_mode: bool,
    pub count_include_pad: bool,
    pub divisor_override: Option<usize>,
}

/// The configuration of an adaptive pooling: spatial axes and their target extents.
pub ghost struct AdaptiveView {
    pub spatial: Seq<Seq<char>>,
    pub target: Seq<usize>,
}

/// The configuration of a max unpooling: spatial axes, kernel, stride and padding.
pub ghost struct UnpoolView {
    pub spatial: Seq<Seq<char>>,
    pub kernel: Seq<usize>,
    pub stride: Seq<usize>,
    pub padding: Seq<usize>,
}

/// Named-channel 2D max pooling: each spatial axis shrinks to its window count and the channel
/// axis moves last. Stride defaults to the kernel extent and padding to zeros; padding must be
/// at most half the kernel extent.
pub struct MaxPool2d {
    channels: Axis,
    spatial: [Axis; 2],
    kernel: [usize; 2],
    stride: [usize; 2],
    padding: [usize; 2],
}

impl View for MaxPool2d {
    type V = PoolView;

    closed spec fn view(&self) -> PoolView {
        PoolView {
            channels: self.channels@,
            spatial: geometry::names(self.spatial@),
            kernel: self.kernel@,
            stride: self.stride@,
            padding: self.padding@,
            ceil_mode: false,
            count_include_pad: true,
            divisor_override: None,
        }
    }
}

impl MaxPool2d {
    pub fn new(channels: Axis, spatial: [Axis; 2], kernel: [usize; 2]) -> (q: Self)
        ensures
            q@ == (PoolView {
                channels: channels@,
                spatial: geometry::names(spatial@),
                kernel: kernel@,
                stride: kernel@,
                padding: seq![0usize, 0usize],
                ceil_mode: false,
                count_include_pad: true,
                divisor_override: None,
            }),
    {
        let q = MaxPool2d {
            channels,
            spatial,
            kernel,
            stride: kernel,
            padding: [0, 0],
        };
        assert(q.padding@ =~= seq![0usize, 0usize]);
        q
    }

    /// Set stride in the order of the supplied spatial axes. Defaults to the kernel extent.
    pub fn stride(self, stride: [usize; 2]) -> (q: Self)
        ensures
            q@ == (PoolView { stride: stride@, ..self@ }),
    {
        MaxPool2d { stride, ..self }
    }

    /// Set symmetric padding in the order of the supplied spatial axes. Defaults to zeros.
    pub fn padding(self, padding: [usize; 2]) -> (q: Self)
        ensures
            q@ == (PoolView { padding: padding@, ..self@ }),
    {
        MaxPool2d { padding, ..self }
    }

    /// The pooling geometry for `input`.
    pub fn geometry(&self, input: &Shape) -> (r: Result<PoolGeometry, Error>)
        requires
            ceil_safe(input@, self@.spatial, self@.kernel, self@.stride, self@.padding, self@.ceil_mode),
        ensures
            ({
                let name = "MaxPool2d"@;
                &&& pool_outcome(
                name,
                input@,
                self@.channels,
                self@.spatial,
                self@.kernel,
                self@.stride,
                self@.padding,
                self@.ceil_mode,
                self@.divisor_override,
            ) matches Ok((d, ch, w)) ==> r is Ok && r->Ok_0.shape@ == d
                    && r->Ok_0.channels == ch && r->Ok_0.output@ == w
                &&& pool_outcome(
                name,
                input@,
                self@.channels,
                self@.spatial,
                self@.kernel,
                self@.stride,
                self@.padding,
                self@.ceil_mode,
                self@.divisor_override,
            ) matches Err(m) ==> r is Err && r->Err_0@ == m
            }),
            r matches Ok(g) ==> pool_sides(
                g.input@,
                g.output@,
                g.overhang@,
                input@,
                self@.spatial,
                self@.kernel,
                self@.stride,
                self@.padding,
            ),
    {
        pool_geometry(
            "MaxPool2d",
            input,
            self.channels,
            self.spatial.as_slice(),
            self.kernel.as_slice(),
            self.stride.as_slice(),
            self.padding.as_slice(),
            false,
            None,
        )
    }

    /// The output shape for `input`; see [`MaxPool2d::geometry`].
    pub fn output_shape(&self, input: &Shape) -> (r: Result<Shape, Error>)
        requires
            ceil_safe(input@, self@.spatial, self@.kernel, self@.stride, self@.padding, self@.ceil_mode),
        ensures
            ({
                let name = "MaxPool2d"@;
                &&& pool_outcome(
                name,
                input@,
                self@.channels,
                self@.spatial,
                self@.kernel,
                self@.stride,
                self@.padding,
                self@.ceil_mode,
                self@.divisor_override,
            ) matches Ok((d, ch, w)) ==> r is Ok && r->Ok_0@ == d
                &&& pool_outcome(
                name,
                input@,
                self@.channels,
                self@.spatial,
                self@.kernel,
                self@.stride,
                self@.padding,
                self@.ceil_mode,
                self@.divisor_override,
            ) matches Err(m) ==> r is Err && r->Err_0@ == m
            }),
    {
        let g = self.geometry(input)?;
        Ok(g.shape)
    }
}

/// Named-channel 3D max pooling: each spatial axis shrinks to its window count and the channel
/// axis moves last. Stride defaults to the kernel extent and padding to zeros; padding must be
/// at most half the kernel extent.
pub struct MaxPool3d {
    channels: Axis,
    spatial: [Axis; 3],
    kernel: [usize; 3],
    stride: [usize; 3],
    padding: [usize; 3],
}

impl View for MaxPool3d {
    type V = PoolView;

    closed spec fn view(&self) -> PoolView {
        PoolView {
            channels: self.channels@,
            spatial: geometry::names(self.spatial@),
            kernel: self.kernel@,
            stride: self.stride@,
            padding: self.padding@,
            ceil_mode: false,
            count_include_pad: true,
            divisor_override: None,
        }
    }
}

impl MaxPool3d {
    pub fn new(channels: Axis, spatial: [Axis; 3], kernel: [usize; 3]) -> (q: Self)
        ensures
            q@ == (PoolView {
                channels: channels@,
                spatial: geometry::names(spatial@),
                kernel: kernel@,
                stride: kernel@,
                padding: seq![0usize, 0usize, 0usize],
                ceil_mode: false,
                count_include_pad: true,
                divisor_override: None,
            }),
    {
        let q = MaxPool3d {
            channels,
            spatial,
            kernel,
            stride: kernel,
            padding: [0, 0, 0],
        };
        assert(q.padding@ =~= seq![0usize, 0usize, 0usize]);
        q
    }

    /// Set stride in the order of the supplied spatial axes. Defaults to the kernel extent.
    pub fn stride(self, stride: [usize; 3]) -> (q: Self)
        ensures
            q@ == (PoolView { stride: stride@, ..self@ }),
    {
        MaxPool3d { stride, ..self }
    }

    /// Set symmetric padding in the order of the supplied spatial axes. Defaults to zeros.
    pub fn padding(self, padding: [usize; 3]) -> (q: Self)
        ensures
            q@ == (PoolView { padding: padding@, ..self@ }),
    {
        MaxPool3d { padding, ..self }
    }

    /// The pooling geometry for `input`.
    pub fn geometry(&self, input: &Shape) -> (r: Result<PoolGeometry, Error>)
        requires
            ceil_safe(input@, self@.spatial, self@.kernel, self@.stride, self@.padding, self@.ceil_mode),
        ensures
            ({
                let name = "MaxPool3d"@;
                &&& pool_outcome(
                name,
                input@,
                self@.channels,
                self@.spatial,
                self@.kernel,
                self@.stride,
                self@.padding,
                self@.ceil_mode,
                self@.divisor_override,
            ) matches Ok((d, ch, w)) ==> r is Ok && r->Ok_0.shape@ == d
                    && r->Ok_0.channels == ch && r->Ok_0.output@ == w
                &&& pool_outcome(
                name,
                input@,
                self@.channels,
                self@.spatial,
                self@.kernel,
                self@.stride,
                self@.padding,
                self@.ceil_mode,
                self@.divisor_override,
            ) matches Err(m) ==> r is Err && r->Err_0@ == m
            }),
            r matches Ok(g) ==> pool_sides(
                g.input@,
                g.output@,
                g.overhang@,
                input@,
                self@.spatial,
                self@.kernel,
                self@.stride,
                self@.padding,
            ),
    {
        pool_geometry(
            "MaxPool3d",
            input,
            self.channels,
            self.spatial.as_slice(),
            self.kernel.as_slice(),
            self.stride.as_slice(),
            self.padding.as_slice(),
            false,
            None,
        )
    }

    /// The output shape for `input`; see [`MaxPool3d::geometry`].
    pub fn output_shape(&self, input: &Shape) -> (r: Result<Shape, Error>)
        requires
            ceil_safe(input@, self@.spatial, self@.kernel, self@.stride, self@.padding, self@.ceil_mode),
        ensures
            ({
                let name = "MaxPool3d"@;
                &&& pool_outcome(
                name,
                input@,
                self@.channels,
                self@.spatial,
                self@.kernel,
                self@.stride,
                self@.padding,
                self@.ceil_mode,
                self@.divisor_override,
            ) matches Ok((d, ch, w)) ==> r is Ok && r->Ok_0@ == d
                &&& pool_outcome(
                name,
                input@,
                self@.channels,
                self@.spatial,
                self@.kernel,
                self@.stride,
                self@.padding,
                self@.ceil_mode,
                self@.divisor_override,
            ) matches Err(m) ==> r is Err && r->Err_0@ == m
            }),
    {
        let g = self.geometry(input)?;
        Ok(g.shape)
    }
}

/// Named-channel 2D average pooling: the shape rule of `sum(window) / divisor` per channel,
/// and the divisors of PyTorch's rule ([`AvgPool2d::window_divisors`]); the sums themselves are
/// floating point and not computed here. Stride defaults to the kernel extent, padding to
/// zeros, `ceil_mode` to `false`, `count_include_pad` to `true` and no divisor override.
pub struct AvgPool2d {
    channels: Axis,
    spatial: [Axis; 2],
    kernel: [usize; 2],
    stride: [usize; 2],
    padding: [usize; 2],
    ceil_mode: bool,
    count_include_pad: bool,
    divisor_override: Option<usize>,
}

impl View for AvgPool2d {
    type V = PoolView;

    closed spec fn view(&self) -> PoolView {
        PoolView {
            channels: self.channels@,
            spatial: geometry::names(self.spatial@),
            kernel: self.kernel@,
            stride: self.stride@,
            padding: self.padding@,
            ceil_mode: self.ceil_mode,
            count_include_pad: self.count_include_pad,
            divisor_override: self.divisor_override,
        }
    }
}

impl AvgPool2d {
    pub fn new(channels: Axis, spatial: [Axis; 2], kernel: [usize; 2]) -> (q: Self)
        ensures
            q@ == (PoolView {
                channels: channels@,
                spatial: geometry::names(spatial@),
                kernel: kernel@,
                stride: kernel@,
                padding: seq![0usize, 0usize],
                ceil_mode: false,
                count_include_pad: true,
                divisor_override: None,
            }),
    {
        let q = AvgPool2d {
            channels,
            spatial,
            kernel,
            stride: kernel,
            padding: [0, 0],
            ceil_mode: false,
            count_include_pad: true,
            divisor_override: None,
        };
        assert(q.padding@ =~= seq![0usize, 0usize]);
        q
    }

    /// Set stride in the order of the supplied spatial axes. Defaults to the kernel extent.
    pub fn stride(self, stride: [usize; 2]) -> (q: Self)
        ensures
            q@ == (PoolView { stride: stride@, ..self@ }),
    {
        AvgPool2d { stride, ..self }
    }

    /// Set symmetric padding in the order of the supplied spatial axes. Defaults to zeros.
    pub fn padding(self, padding: [usize; 2]) -> (q: Self)
        ensures
            q@ == (PoolView { padding: padding@, ..self@ }),
    {
        AvgPool2d { padding, ..self }
    }

    /// Round the window count up (PyTorch's `ceil_mode=True`); a last window that would start
    /// in the right padding is still dropped. Defaults to `false`.
    pub fn ceil_mode(self, ceil_mode: bool) -> (q: Self)
        ensures
            q@ == (PoolView { ceil_mode, ..self@ }),
    {
        AvgPool2d { ceil_mode, ..self }
    }

    /// Whether padding positions count toward the divisor. Defaults to `true`.
    pub fn count_include_pad(self, counted: bool) -> (q: Self)
        ensures
            q@ == (PoolView { count_include_pad: counted, ..self@ }),
    {
        AvgPool2d { count_include_pad: counted, ..self }
    }

    /// Divide every window by `divisor` instead of its element count; must be positive.
    pub fn divisor_override(self, divisor: usize) -> (q: Self)
        ensures
            q@ == (PoolView { divisor_override: Some(divisor), ..self@ }),
    {
        AvgPool2d { divisor_override: Some(divisor), ..self }
    }

    /// The pooling geometry for `input`.
    pub fn geometry(&self, input: &Shape) -> (r: Result<PoolGeometry, Error>)
        requires
            ceil_safe(input@, self@.spatial, self@.kernel, self@.stride, self@.padding, self@.ceil_mode),
        ensures
            ({
                let name = "AvgPool2d"@;
                &&& pool_outcome(
                name,
                input@,
                self@.channels,
                self@.spatial,
                self@.kernel,
                self@.stride,
                self@.padding,
                self@.ceil_mode,
                self@.divisor_override,
            ) matches Ok((d, ch, w)) ==> r is Ok && r->Ok_0.shape@ == d
                    && r->Ok_0.channels == ch && r->Ok_0.output@ == w
                &&& pool_outcome(
                name,
                input@,
                self@.channels,
                self@.spatial,
                self@.kernel,
                self@.stride,
                self@.padding,
                self@.ceil_mode,
                self@.divisor_override,
            ) matches Err(m) ==> r is Err && r->Err_0@ == m
            }),
            r matches Ok(g) ==> pool_sides(
                g.input@,
                g.output@,
                g.overhang@,
                input@,
                self@.spatial,
                self@.kernel,
                self@.stride,
                self@.padding,
            ),
    {
        pool_geometry(
            "AvgPool2d",
            input,
            self.channels,
            self.spatial.as_slice(),
            self.kernel.as_slice(),
            self.stride.as_slice(),
            self.padding.as_slice(),
            self.ceil_mode,
            self.divisor_override,
        )
    }

    /// The divisor of every window of `geometry`, last axis fastest: the override when set,
    /// otherwise the window's element count, padding counted when `count_include_pad` is; see
    /// [`pool_divisors`].
    pub fn window_divisors(&self, geometry: &PoolGeometry) -> (r: Vec<usize>)
        requires
            windows_fit(geometry.input@, geometry.output@, self@.kernel, self@.stride, self@.padding),
        ensures
            r@.len() == geometry::product(geometry.output@),
            forall|w: int|
                0 <= w < r@.len() ==> #[trigger] r@[w] == match self@.divisor_override {
                    Some(d) => d as int,
                    None => window_element_count(
                        geometry.input@,
                        geometry.output@,
                        self@.kernel,
                        self@.stride,
                        self@.padding,
                        self@.count_include_pad,
                        w,
                    ),
                },
    {
        pool_divisors(
            geometry.input.as_slice(),
            geometry.output.as_slice(),
            self.kernel.as_slice(),
            self.stride.as_slice(),
            self.padding.as_slice(),
            self.count_include_pad,
            self.divisor_override,
        )
    }

    /// The output shape for `input`; see [`AvgPool2d::geometry`].
    pub fn output_shape(&self, input: &Shape) -> (r: Result<Shape, Error>)
        requires
            ceil_safe(input@, self@.spatial, self@.kernel, self@.stride, self@.padding, self@.ceil_mode),
        ensures
            ({
                let name = "AvgPool2d"@;
                &&& pool_outcome(
                name,
                input@,
                self@.channels,
                self@.spatial,
                self@.kernel,
                self@.stride,
                self@.padding,
                self@.ceil_mode,
                self@.divisor_override,
            ) matches Ok((d, ch, w)) ==> r is Ok && r->Ok_0@ == d
                &&& pool_outcome(
                name,
                input@,
                self@.channels,
                self@.spatial,
                self@.kernel,
                self@.stride,
                self@.padding,
                self@.ceil_mode,
                self@.divisor_override,
            ) matches Err(m) ==> r is Err && r->Err_0@ == m
            }),
    {
        let g = self.geometry(input)?;
        Ok(g.shape)
    }
}

/// Named-channel 3D average pooling: the shape rule of `sum(window) / divisor` per channel,
/// and the divisors of PyTorch's rule ([`AvgPool3d::window_divisors`]); the sums themselves are
/// floating point and not computed here. Stride defaults to the kernel extent, padding to
/// zeros, `ceil_mode` to `false`, `count_include_pad` to `true` and no divisor override.
pub struct AvgPool3d {
    channels: Axis,
    spatial: [Axis; 3],
    kernel: [usize; 3],
    stride: [usize; 3],
    padding: [usize; 3],
    ceil_mode: bool,
    count_include_pad: bool,
    divisor_override: Option<usize>,
}

impl View for AvgPool3d {
    type V = PoolView;

    closed spec fn view(&self) -> PoolView {
        PoolView {
            channels: self.channels@,
            spatial: geometry::names(self.spatial@),
            kernel: self.kernel@,
            stride: self.stride@,
            padding: self.padding@,
            ceil_mode: self.ceil_mode,
            count_include_pad: self.count_include_pad,
            divisor_override: self.divisor_override,
        }
    }
}

impl AvgPool3d {
    pub fn new(channels: Axis, spatial: [Axis; 3], kernel: [usize; 3]) -> (q: Self)
        ensures
            q@ == (PoolView {
                channels: channels@,
                spatial: geometry::names(spatial@),
                kernel: kernel@,
                stride: kernel@,
                padding: seq![0usize, 0usize, 0usize],
                ceil_mode: false,
                count_include_pad: true,
                divisor_override: None,
            }),
    {
        let q = AvgPool3d {
            channels,
            spatial,
            kernel,
            stride: kernel,
            padding: [0, 0, 0],
            ceil_mode: false,
            count_include_pad: true,
            divisor_override: None,
        };
        assert(q.padding@ =~= seq![0usize, 0usize, 0usize]);
        q
    }

    /// Set stride in the order of the supplied spatial axes. Defaults to the kernel extent.
    pub fn stride(self, stride: [usize; 3]) -> (q: Self)
        ensures
            q@ == (PoolView { stride: stride@, ..self@ }),
    {
        AvgPool3d { stride, ..self }
    }

    /// Set symmetric padding in the order of the supplied spatial axes. Defaults to zeros.
    pub fn padding(self, padding: [usize; 3]) -> (q: Self)
        ensures
            q@ == (PoolView { padding: padding@, ..self@ }),
    {
        AvgPool3d { padding, ..self }
    }

    /// Round the window count up (PyTorch's `ceil_mode=True`); a last window that would start
    /// in the right padding is still dropped. Defaults to `false`.
    pub fn ceil_mode(self, ceil_mode: bool) -> (q: Self)
        ensures
            q@ == (PoolView { ceil_mode, ..self@ }),
    {
        AvgPool3d { ceil_mode, ..self }
    }

    /// Whether padding positions count toward the divisor. Defaults to `true`.
    pub fn count_include_pad(self, counted: bool) -> (q: Self)
        ensures
            q@ == (PoolView { count_include_pad: counted, ..self@ }),
    {
        AvgPool3d { count_include_pad: counted, ..self }
    }

    /// Divide every window by `divisor` instead of its element count; must be positive.
    pub fn divisor_override(self, divisor: usize) -> (q: Self)
        ensures
            q@ == (PoolView { divisor_override: Some(divisor), ..self@ }),
    {
        AvgPool3d { divisor_override: Some(divisor), ..self }
    }

    /// The pooling geometry for `input`.
    pub fn geometry(&self, input: &Shape) -> (r: Result<PoolGeometry, Error>)
        requires
            ceil_safe(input@, self@.spatial, self@.kernel, self@.stride, self@.padding, self@.ceil_mode),
        ensures
            ({
                let name = "AvgPool3d"@;
                &&& pool_outcome(
                name,
                input@,
                self@.channels,
                self@.spatial,
                self@.kernel,
                self@.stride,
                self@.padding,
                self@.ceil_mode,
                self@.divisor_override,
            ) matches Ok((d, ch, w)) ==> r is Ok && r->Ok_0.shape@ == d
                    && r->Ok_0.channels == ch && r->Ok_0.output@ == w
                &&& pool_outcome(
                name,
                input@,
                self@.channels,
                self@.spatial,
                self@.kernel,
                self@.stride,
                self@.padding,
                self@.ceil_mode,
                self@.divisor_override,
            ) matches Err(m) ==> r is Err && r->Err_0@ == m
            }),
            r matches Ok(g) ==> pool_sides(
                g.input@,
                g.output@,
                g.overhang@,
                input@,
                self@.spatial,
                self@.kernel,
                self@.stride,
                self@.padding,
            ),
    {
        pool_geometry(
            "AvgPool3d",
            input,
            self.channels,
            self.spatial.as_slice(),
            self.kernel.as_slice(),
            self.stride.as_slice(),
            self.padding.as_slice(),
            self.ceil_mode,
            self.divisor_override,
        )
    }

    /// The divisor of every window of `geometry`, last axis fastest: the override when set,
    /// otherwise the window's element count, padding counted when `count_include_pad` is; see
    /// [`pool_divisors`].
    pub fn window_divisors(&self, geometry: &PoolGeometry) -> (r: Vec<usize>)
        requires
            windows_fit(geometry.input@, geometry.output@, self@.kernel, self@.stride, self@.padding),
        ensures
            r@.len() == geometry::product(geometry.output@),
            forall|w: int|
                0 <= w < r@.len() ==> #[trigger] r@[w] == match self@.divisor_override {
                    Some(d) => d as int,
                    None => window_element_count(
                        geometry.input@,
                        geometry.output@,
                        self@.kernel,
                        self@.stride,
                        self@.padding,
                        self@.count_include_pad,
                        w,
                    ),
                },
    {
        pool_divisors(
            geometry.input.as_slice(),
            geometry.output.as_slice(),
            self.kernel.as_slice(),
            self.stride.as_slice(),
            self.padding.as_slice(),
            self.count_include_pad,
            self.divisor_override,
        )
    }

    /// The output shape for `input`; see [`AvgPool3d::geometry`].
    pub fn output_shape(&self, input: &Shape) -> (r: Result<Shape, Error>)
        requires
            ceil_safe(input@, self@.spatial, self@.kernel, self@.stride, self@.padding, self@.ceil_mode),
        ensures
            ({
                let name = "AvgPool3d"@;
                &&& pool_outcome(
                name,
                input@,
                self@.channels,
                self@.spatial,
                self@.kernel,
                self@.stride,
                self@.padding,
                self@.ceil_mode,
                self@.divisor_override,
            ) matches Ok((d, ch, w)) ==> r is Ok && r->Ok_0@ == d
                &&& pool_outcome(
                name,
                input@,
                self@.channels,
                self@.spatial,
                self@.kernel,
                self@.stride,
                self@.padding,
                self@.ceil_mode,
                self@.divisor_override,
            ) matches Err(m) ==> r is Err && r->Err_0@ == m
            }),
    {
        let g = self.geometry(input)?;
        Ok(g.shape)
    }
}

/// Named-axis adaptive average pooling over one spatial axis: each is reduced to a fixed target extent
/// with PyTorch's per-axis bin formula.
pub struct AdaptiveAvgPool1d {
    spatial: [Axis; 1],
    target: [usize; 1],
}

impl View for AdaptiveAvgPool1d {
    type V = AdaptiveView;

    closed spec fn view(&self) -> AdaptiveView {
        AdaptiveView { spatial: geometry::names(self.spatial@), target: self.target@ }
    }
}

impl AdaptiveAvgPool1d {
    pub fn new(spatial: Axis, target: usize) -> (q: Self)
        ensures
            q@ == (AdaptiveView { spatial: seq![spatial@], target: seq![target] }),
    {
        let q = AdaptiveAvgPool1d { spatial: [spatial], target: [target] };
        assert(q@.spatial =~= seq![spatial@]);
        assert(q@.target =~= seq![target]);
        q
    }

    /// The output shape: each spatial axis at its target extent.
    pub fn output_shape(&self, input: &Shape) -> (r: Result<Shape, Error>)
        ensures
            adaptive_outcome("AdaptiveAvgPool1d"@, input@, self@.spatial, self@.target) matches Ok(d) ==> r is Ok
                && r->Ok_0@ == d,
            adaptive_outcome("AdaptiveAvgPool1d"@, input@, self@.spatial, self@.target) matches Err(m) ==> r is Err
                && r->Err_0@ == m,
    {
        adaptive_output_shape("AdaptiveAvgPool1d", input, self.spatial.as_slice(), self.target.as_slice())
    }
}

/// Named-axis adaptive average pooling over 2 spatial axes: each is reduced to a fixed target extent
/// with PyTorch's per-axis bin formula.
pub struct AdaptiveAvgPool2d {
    spatial: [Axis; 2],
    target: [usize; 2],
}

impl View for AdaptiveAvgPool2d {
    type V = AdaptiveView;

    closed spec fn view(&self) -> AdaptiveView {
        AdaptiveView { spatial: geometry::names(self.spatial@), target: self.target@ }
    }
}

impl AdaptiveAvgPool2d {
    pub fn new(spatial: [Axis; 2], target: [usize; 2]) -> (q: Self)
        ensures
            q@ == (AdaptiveView { spatial: geometry::names(spatial@), target: target@ }),
    {
        let q = AdaptiveAvgPool2d { spatial, target };
        assert(q@.spatial =~= geometry::names(spatial@));
        assert(q@.target =~= target@);
        q
    }

    /// The output shape: each spatial axis at its target extent.
    pub fn output_shape(&self, input: &Shape) -> (r: Result<Shape, Error>)
        ensures
            adaptive_outcome("AdaptiveAvgPool2d"@, input@, self@.spatial, self@.target) matches Ok(d) ==> r is Ok
                && r->Ok_0@ == d,
            adaptive_outcome("AdaptiveAvgPool2d"@, input@, self@.spatial, self@.target) matches Err(m) ==> r is Err
                && r->Err_0@ == m,
    {
        adaptive_output_shape("AdaptiveAvgPool2d", input, self.spatial.as_slice(), self.target.as_slice())
    }
}

/// Named-axis adaptive average pooling over 3 spatial axes: each is reduced to a fixed target extent
/// with PyTorch's per-axis bin formula.
pub struct AdaptiveAvgPool3d {
    spatial: [Axis; 3],
    target: [usize; 3],
}

impl View for AdaptiveAvgPool3d {
    type V = AdaptiveView;

    closed spec fn view(&self) -> AdaptiveView {
        AdaptiveView { spatial: geometry::names(self.spatial@), target: self.target@ }
    }
}

impl AdaptiveAvgPool3d {
    pub fn new(spatial: [Axis; 3], target: [usize; 3]) -> (q: Self)
        ensures
            q@ == (AdaptiveView { spatial: geometry::names(spatial@), target: target@ }),
    {
        let q = AdaptiveAvgPool3d { spatial, target };
        assert(q@.spatial =~= geometry::names(spatial@));
        assert(q@.target =~= target@);
        q
    }

    /// The output shape: each spatial axis at its target extent.
    pub fn output_shape(&self, input: &Shape) -> (r: Result<Shape, Error>)
        ensures
            adaptive_outcome("AdaptiveAvgPool3d"@, input@, self@.spatial, self@.target) matches Ok(d) ==> r is Ok
                && r->Ok_0@ == d,
            adaptive_outcome("AdaptiveAvgPool3d"@, input@, self@.spatial, self@.target) matches Err(m) ==> r is Err
                && r->Err_0@ == m,
    {
        adaptive_output_shape("AdaptiveAvgPool3d", input, self.spatial.as_slice(), self.target.as_slice())
    }
}

/// Named-axis adaptive max pooling over one spatial axis: each is reduced to a fixed target extent
/// with PyTorch's per-axis bin formula.
pub struct AdaptiveMaxPool1d {
    spatial: [Axis; 1],
    target: [usize; 1],
}

impl View for AdaptiveMaxPool1d {
    type V = AdaptiveView;

    closed spec fn view(&self) -> AdaptiveView {
        AdaptiveView { spatial: geometry::names(self.spatial@), target: self.target@ }
    }
}

impl AdaptiveMaxPool1d {
    pub fn new(spatial: Axis, target: usize) -> (q: Self)
        ensures
            q@ == (AdaptiveView { spatial: seq![spatial@], target: seq![target] }),
    {
        let q = AdaptiveMaxPool1d { spatial: [spatial], target: [target] };
        assert(q@.spatial =~= seq![spatial@]);
        assert(q@.target =~= seq![target]);
        q
    }

    /// The output shape: each spatial axis at its target extent.
    pub fn output_shape(&self, input: &Shape) -> (r: Result<Shape, Error>)
        ensures
            adaptive_outcome("AdaptiveMaxPool1d"@, input@, self@.spatial, self@.target) matches Ok(d) ==> r is Ok
                && r->Ok_0@ == d,
            adaptive_outcome("AdaptiveMaxPool1d"@, input@, self@.spatial, self@.target) matches Err(m) ==> r is Err
                && r->Err_0@ == m,
    {
        adaptive_output_shape("AdaptiveMaxPool1d", input, self.spatial.as_slice(), self.target.as_slice())
    }
}

/// Named-axis adaptive max pooling over 2 spatial axes: each is reduced to a fixed target extent
/// with PyTorch's per-axis bin formula.
pub struct AdaptiveMaxPool2d {
    spatial: [Axis; 2],
    target: [usize; 2],
}

impl View for AdaptiveMaxPool2d {
    type V = AdaptiveView;

    closed spec fn view(&self) -> AdaptiveView {
        AdaptiveView { spatial: geometry::names(self.spatial@), target: self.target@ }
    }
}

impl AdaptiveMaxPool2d {
    pub fn new(spatial: [Axis; 2], target: [usize; 2]) -> (q: Self)
        ensures
            q@ == (AdaptiveView { spatial: geometry::names(spatial@), target: target@ }),
    {
        let q = AdaptiveMaxPool2d { spatial, target };
        assert(q@.spatial =~= geometry::names(spatial@));
        assert(q@.target =~= target@);
        q
    }

    /// The output shape: each spatial axis at its target extent.
    pub fn output_shape(&self, input: &Shape) -> (r: Result<Shape, Error>)
        ensures
            adaptive_outcome("AdaptiveMaxPool2d"@, input@, self@.spatial, self@.target) matches Ok(d) ==> r is Ok
                && r->Ok_0@ == d,
            adaptive_outcome("AdaptiveMaxPool2d"@, input@, self@.spatial, self@.target) matches Err(m) ==> r is Err
                && r->Err_0@ == m,
    {
        adaptive_output_shape("AdaptiveMaxPool2d", input, self.spatial.as_slice(), self.target.as_slice())
    }
}

/// Named-axis adaptive max pooling over 3 spatial axes: each is reduced to a fixed target extent
/// with PyTorch's per-axis bin formula.
pub struct AdaptiveMaxPool3d {
    spatial: [Axis; 3],
    target: [usize; 3],
}

impl View for AdaptiveMaxPool3d {
    type V = AdaptiveView;

    closed spec fn view(&self) -> AdaptiveView {
        AdaptiveView { spatial: geometry::names(self.spatial@), target: self.target@ }
    }
}

impl AdaptiveMaxPool3d {
    pub fn new(spatial: [Axis; 3], target: [usize; 3]) -> (q: Self)
        ensures
            q@ == (AdaptiveView { spatial: geometry::names(spatial@), target: target@ }),
    {
        let q = AdaptiveMaxPool3d { spatial, target };
        assert(q@.spatial =~= geometry::names(spatial@));
        assert(q@.target =~= target@);
        q
    }

    /// The output shape: each spatial axis at its target extent.
    pub fn output_shape(&self, input: &Shape) -> (r: Result<Shape, Error>)
        ensures
            adaptive_outcome("AdaptiveMaxPool3d"@, input@, self@.spatial, self@.target) matches Ok(d) ==> r is Ok
                && r->Ok_0@ == d,
            adaptive_outcome("AdaptiveMaxPool3d"@, input@, self@.spatial, self@.target) matches Err(m) ==> r is Err
                && r->Err_0@ == m,
    {
        adaptive_output_shape("AdaptiveMaxPool3d", input, self.spatial.as_slice(), self.target.as_slice())
    }
}

/// Named-axis 1D max unpooling, PyTorch's `nn.MaxUnpool1d`: the partial inverse of max
/// pooling. Each spatial axis grows to `(in - 1) * stride - 2 * padding + kernel`. Stride
/// defaults to the kernel extent and padding to zeros.
pub struct MaxUnpool1d {
    spatial: [Axis; 1],
    kernel: [usize; 1],
    stride: [usize; 1],
    padding: [usize; 1],
}

impl View for MaxUnpool1d {
    type V = UnpoolView;

    closed spec fn view(&self) -> UnpoolView {
        UnpoolView {
            spatial: geometry::names(self.spatial@),
            kernel: self.kernel@,
            stride: self.stride@,
            padding: self.padding@,
        }
    }
}

impl MaxUnpool1d {
    pub fn new(spatial: Axis, kernel: usize) -> (q: Self)
        ensures
            q@ == (UnpoolView { spatial: seq![spatial@], kernel: seq![kernel], stride: seq![kernel], padding: seq![0usize] }),
    {
        let q = MaxUnpool1d { spatial: [spatial], kernel: [kernel], stride: [kernel], padding: [0] };
        assert(q@.spatial =~= seq![spatial@]);
        assert(q@.kernel =~= seq![kernel]);
        assert(q@.stride =~= seq![kernel]);
        assert(q@.padding =~= seq![0usize]);
        q
    }

    /// Set stride. Defaults to the kernel extent.
    pub fn stride(self, stride: usize) -> (q: Self)
        ensures
            q@ == (UnpoolView { stride: seq![stride], ..self@ }),
    {
        let q = MaxUnpool1d { stride: [stride], ..self };
        assert(q@.stride =~= seq![stride]);
        q
    }

    /// Set padding. Defaults to `0`.
    pub fn padding(self, padding: usize) -> (q: Self)
        ensures
            q@ == (UnpoolView { padding: seq![padding], ..self@ }),
    {
        let q = MaxUnpool1d { padding: [padding], ..self };
        assert(q@.padding =~= seq![padding]);
        q
    }

    /// The output shape at the default output extents.
    pub fn output_shape(&self, input: &Shape) -> (r: Result<Shape, Error>)
        requires
            forall|i: int|
                0 <= i < self@.spatial.len() ==> unpool_padding_fits(
                    input@,
                    #[trigger] self@.spatial[i],
                    self@.kernel[i],
                    self@.stride[i],
                    self@.padding[i],
                ),
        ensures
            unpool_outcome("MaxUnpool1d"@, input@, self@.spatial, self@.kernel, self@.stride, self@.padding)
                matches Ok(d) ==> r is Ok && r->Ok_0@ == d,
            unpool_outcome("MaxUnpool1d"@, input@, self@.spatial, self@.kernel, self@.stride, self@.padding)
                matches Err(m) ==> r is Err && r->Err_0@ == m,
    {
        proof {
            assert forall|i: int| 0 <= i < self.spatial@.len() implies unpool_padding_fits(
                input@,
                #[trigger] self.spatial@[i]@,
                self.kernel@[i],
                self.stride@[i],
                self.padding@[i],
            ) by {
                assert(self@.spatial[i] == self.spatial@[i]@);
            }
        }
        unpool_output_shape(
            "MaxUnpool1d",
            input,
            self.spatial.as_slice(),
            self.kernel.as_slice(),
            self.stride.as_slice(),
            self.padding.as_slice(),
        )
    }

    /// The unpooled extents of the spatial axes: the defaults, or explicit sizes (PyTorch's
    /// `output_size`), each strictly within `stride` of its default.
    pub fn output_sizes(&self, input: &Shape, size: Option<[usize; 1]>) -> (r: Result<Vec<usize>, Error>)
        requires
            unpool_sizes_fit(
                "MaxUnpool1d"@,
                input@,
                self@.spatial,
                self@.kernel,
                self@.stride,
                self@.padding,
                match size {
                    Some(req) => req@,
                    None => self@.kernel,
                },
            ),
        ensures
            unpool_sizes_outcome(
                "MaxUnpool1d"@,
                input@,
                self@.spatial,
                self@.kernel,
                self@.stride,
                self@.padding,
                match size {
                    Some(req) => Some(req@),
                    None => None,
                },
            ) matches Ok(w) ==> r is Ok && r->Ok_0@ == w,
            unpool_sizes_outcome(
                "MaxUnpool1d"@,
                input@,
                self@.spatial,
                self@.kernel,
                self@.stride,
                self@.padding,
                match size {
                    Some(req) => Some(req@),
                    None => None,
                },
            ) matches Err(m) ==> r is Err && r->Err_0@ == m,
    {
        match size {
            Some(req) => unpool_sizes(
                "MaxUnpool1d",
                input,
                self.spatial.as_slice(),
                self.kernel.as_slice(),
                self.stride.as_slice(),
                self.padding.as_slice(),
                Some(req.as_slice()),
            ),
            None => unpool_sizes(
                "MaxUnpool1d",
                input,
                self.spatial.as_slice(),
                self.kernel.as_slice(),
                self.stride.as_slice(),
                self.padding.as_slice(),
                None,
            ),
        }
    }
}

/// Named-axis 2D max unpooling, PyTorch's `nn.MaxUnpool2d`: the partial inverse of max
/// pooling. Each spatial axis grows to `(in - 1) * stride - 2 * padding + kernel`. Stride
/// defaults to the kernel extent and padding to zeros.
pub struct MaxUnpool2d {
    spatial: [Axis; 2],
    kernel: [usize; 2],
    stride: [usize; 2],
    padding: [usize; 2],
}

impl View for MaxUnpool2d {
    type V = UnpoolView;

    closed spec fn view(&self) -> UnpoolView {
        UnpoolView {
            spatial: geometry::names(self.spatial@),
            kernel: self.kernel@,
            stride: self.stride@,
            padding: self.padding@,
        }
    }
}

impl MaxUnpool2d {
    pub fn new(spatial: [Axis; 2], kernel: [usize; 2]) -> (q: Self)
        ensures
            q@ == (UnpoolView { spatial: geometry::names(spatial@), kernel: kernel@, stride: kernel@, padding: seq![0usize, 0usize] }),
    {
        let q = MaxUnpool2d { spatial, kernel, stride: kernel, padding: [0, 0] };
        assert(q@.spatial =~= geometry::names(spatial@));
        assert(q@.kernel =~= kernel@);
        assert(q@.stride =~= kernel@);
        assert(q@.padding =~= seq![0usize, 0usize]);
        q
    }

    /// Set stride in the order of the supplied spatial axes. Defaults to the kernel extent.
    pub fn stride(self, stride: [usize; 2]) -> (q: Self)
        ensures
            q@ == (UnpoolView { stride: stride@, ..self@ }),
    {
        let q = MaxUnpool2d { stride: stride, ..self };
        assert(q@.stride =~= stride@);
        q
    }

    /// Set padding in the order of the supplied spatial axes. Defaults to zeros.
    pub fn padding(self, padding: [usize; 2]) -> (q: Self)
        ensures
            q@ == (UnpoolView { padding: padding@, ..self@ }),
    {
        let q = MaxUnpool2d { padding: padding, ..self };
        assert(q@.padding =~= padding@);
        q
    }

    /// The output shape at the default output extents.
    pub fn output_shape(&self, input: &Shape) -> (r: Result<Shape, Error>)
        requires
            forall|i: int|
                0 <= i < self@.spatial.len() ==> unpool_padding_fits(
                    input@,
                    #[trigger] self@.spatial[i],
                    self@.kernel[i],
                    self@.stride[i],
                    self@.padding[i],
                ),
        ensures
            unpool_outcome("MaxUnpool2d"@, input@, self@.spatial, self@.kernel, self@.stride, self@.padding)
                matches Ok(d) ==> r is Ok && r->Ok_0@ == d,
            unpool_outcome("MaxUnpool2d"@, input@, self@.spatial, self@.kernel, self@.stride, self@.padding)
                matches Err(m) ==> r is Err && r->Err_0@ == m,
    {
        proof {
            assert forall|i: int| 0 <= i < self.spatial@.len() implies unpool_padding_fits(
                input@,
                #[trigger] self.spatial@[i]@,
                self.kernel@[i],
                self.stride@[i],
                self.padding@[i],
            ) by {
                assert(self@.spatial[i] == self.spatial@[i]@);
            }
        }
        unpool_output_shape(
            "MaxUnpool2d",
            input,
            self.spatial.as_slice(),
            self.kernel.as_slice(),
            self.stride.as_slice(),
            self.padding.as_slice(),
        )
    }

    /// The unpooled extents of the spatial axes: the defaults, or explicit sizes (PyTorch's
    /// `output_size`), each strictly within `stride` of its default.
    pub fn output_sizes(&self, input: &Shape, size: Option<[usize; 2]>) -> (r: Result<Vec<usize>, Error>)
        requires
            unpool_sizes_fit(
                "MaxUnpool2d"@,
                input@,
                self@.spatial,
                self@.kernel,
                self@.stride,
                self@.padding,
                match size {
                    Some(req) => req@,
                    None => self@.kernel,
                },
            ),
        ensures
            unpool_sizes_outcome(
                "MaxUnpool2d"@,
                input@,
                self@.spatial,
                self@.kernel,
                self@.stride,
                self@.padding,
                match size {
                    Some(req) => Some(req@),
                    None => None,
                },
            ) matches Ok(w) ==> r is Ok && r->Ok_0@ == w,
            unpool_sizes_outcome(
                "MaxUnpool2d"@,
                input@,
                self@.spatial,
                self@.kernel,
                self@.stride,
                self@.padding,
                match size {
                    Some(req) => Some(req@),
                    None => None,
                },
            ) matches Err(m) ==> r is Err && r->Err_0@ == m,
    {
        match size {
            Some(req) => unpool_sizes(
                "MaxUnpool2d",
                input,
                self.spatial.as_slice(),
                self.kernel.as_slice(),
                self.stride.as_slice(),
                self.padding.as_slice(),
                Some(req.as_slice()),
            ),
            None => unpool_sizes(
                "MaxUnpool2d",
                input,
                self.spatial.as_slice(),
                self.kernel.as_slice(),
                self.stride.as_slice(),
                self.padding.as_slice(),
                None,
            ),
        }
    }
}

/// Named-axis 3D max unpooling, PyTorch's `nn.MaxUnpool3d`: the partial inverse of max
/// pooling. Each spatial axis grows to `(in - 1) * stride - 2 * padding + kernel`. Stride
/// defaults to the kernel extent and padding to zeros.
pub struct MaxUnpool3d {
    spatial: [Axis; 3],
    kernel: [usize; 3],
    stride: [usize; 3],
    padding: [usize; 3],
}

impl View for MaxUnpool3d {
    type V = UnpoolView;

    closed spec fn view(&self) -> UnpoolView {
        UnpoolView {
            spatial: geometry::names(self.spatial@),
            kernel: self.kernel@,
            stride: self.stride@,
            padding: self.padding@,
        }
    }
}

impl MaxUnpool3d {
    pub fn new(spatial: [Axis; 3], kernel: [usize; 3]) -> (q: Self)
        ensures
            q@ == (UnpoolView { spatial: geometry::names(spatial@), kernel: kernel@, stride: kernel@, padding: seq![0usize, 0usize, 0usize] }),
    {
        let q = MaxUnpool3d { spatial, kernel, stride: kernel, padding: [0, 0, 0] };
        assert(q@.spatial =~= geometry::names(spatial@));
        assert(q@.kernel =~= kernel@);
        assert(q@.stride =~= kernel@);
        assert(q@.padding =~= seq![0usize, 0usize, 0usize]);
        q
    }

    /// Set stride in the order of the supplied spatial axes. Defaults to the kernel extent.
    pub fn stride(self, stride: [usize; 3]) -> (q: Self)
        ensures
            q@ == (UnpoolView { stride: stride@, ..self@ }),
    {
        let q = MaxUnpool3d { stride: stride, ..self };
        assert(q@.stride =~= stride@);
        q
    }

    /// Set padding in the order of the supplied spatial axes. Defaults to zeros.
    pub fn padding(self, padding: [usize; 3]) -> (q: Self)
        ensures
            q@ == (UnpoolView { padding: padding@, ..self@ }),
    {
        let q = MaxUnpool3d { padding: padding, ..self };
        assert(q@.padding =~= padding@);
        q
    }

    /// The output shape at the default output extents.
    pub fn output_shape(&self, input: &Shape) -> (r: Result<Shape, Error>)
        requires
            forall|i: int|
                0 <= i < self@.spatial.len() ==> unpool_padding_fits(
                    input@,
                    #[trigger] self@.spatial[i],
                    self@.kernel[i],
                    self@.stride[i],
                    self@.padding[i],
                ),
        ensures
            unpool_outcome("MaxUnpool3d"@, input@, self@.spatial, self@.kernel, self@.stride, self@.padding)
                matches Ok(d) ==> r is Ok && r->Ok_0@ == d,
            unpool_outcome("MaxUnpool3d"@, input@, self@.spatial, self@.kernel, self@.stride, self@.padding)
                matches Err(m) ==> r is Err && r->Err_0@ == m,
    {
        proof {
            assert forall|i: int| 0 <= i < self.spatial@.len() implies unpool_padding_fits(
                input@,
                #[trigger] self.spatial@[i]@,
                self.kernel@[i],
                self.stride@[i],
                self.padding@[i],
            ) by {
                assert(self@.spatial[i] == self.spatial@[i]@);
            }
        }
        unpool_output_shape(
            "MaxUnpool3d",
            input,
            self.spatial.as_slice(),
            self.kernel.as_slice(),
            self.stride.as_slice(),
            self.padding.as_slice(),
        )
    }

    /// The unpooled extents of the spatial axes: the defaults, or explicit sizes (PyTorch's
    /// `output_size`), each strictly within `stride` of its default.
    pub fn output_sizes(&self, input: &Shape, size: Option<[usize; 3]>) -> (r: Result<Vec<usize>, Error>)
        requires
            unpool_sizes_fit(
                "MaxUnpool3d"@,
                input@,
                self@.spatial,
                self@.kernel,
                self@.stride,
                self@.padding,
                match size {
                    Some(req) => req@,
                    None => self@.kernel,
                },
            ),
        ensures
            unpool_sizes_outcome(
                "MaxUnpool3d"@,
                input@,
                self@.spatial,
                self@.kernel,
                self@.stride,
                self@.padding,
                match size {
                    Some(req) => Some(req@),
                    None => None,
                },
            ) matches Ok(w) ==> r is Ok && r->Ok_0@ == w,
            unpool_sizes_outcome(
                "MaxUnpool3d"@,
                input@,
                self@.spatial,
                self@.kernel,
                self@.stride,
                self@.padding,
                match size {
                    Some(req) => Some(req@),
                    None => None,
                },
            ) matches Err(m) ==> r is Err && r->Err_0@ == m,
    {
        match size {
            Some(req) => unpool_sizes(
                "MaxUnpool3d",
                input,
                self.spatial.as_slice(),
                self.kernel.as_slice(),
                self.stride.as_slice(),
                self.padding.as_slice(),
                Some(req.as_slice()),
            ),
            None => unpool_sizes(
                "MaxUnpool3d",
                input,
                self.spatial.as_slice(),
                self.kernel.as_slice(),
                self.stride.as_slice(),
                self.padding.as_slice(),
                None,
            ),
        }
    }
}

} // verus!
