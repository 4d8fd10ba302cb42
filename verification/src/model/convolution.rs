//! Shape geometry of named-axis convolution and transposed convolution, patch extraction
//! and folding.
use crate::axis::{self, Axis, Dim, DimView, Shape};
use crate::error::Error;
use crate::geometry::{self, WindowRule};
use vstd::prelude::*;
use vstd::string::StringExecFns;

verus! {

/// How patch extraction rewrites one input dimension: the channel axis becomes
/// the patch axis, each spatial axis takes its window count, others stay.
pub open spec fn unfold_rule(
    c: Seq<char>,
    sp: Seq<Seq<char>>,
    pa: Seq<char>,
    pe: usize,
    w: Seq<usize>,
) -> spec_fn(DimView) -> Option<DimView> {
    |d: DimView|
        if d.0 == c {
            Some((pa, pe))
        } else if sp.contains(d.0) {
            Some((d.0, w[geometry::slot(sp, d.0)]))
        } else {
            Some(d)
        }
}

/// Patch extraction over `v`: the output dimensions and patch extent, or the
/// first rejection (axis distinctness, kernel, stride, missing axes, window
/// counts, patch overflow, then the output shape itself).
pub open spec fn unfold_outcome(
    name: Seq<char>,
    v: Seq<DimView>,
    c: Seq<char>,
    sp: Seq<Seq<char>>,
    pa: Seq<char>,
    k: Seq<usize>,
    s: Seq<usize>,
    p: Seq<usize>,
) -> Result<(Seq<DimView>, usize), Seq<char>> {
    if !geometry::distinct_and_avoiding(sp, c) {
        Err(name + " requires distinct channel and spatial axes"@)
    } else if geometry::has_zero(k) {
        Err(name + " kernel extents must be positive"@)
    } else if geometry::has_zero(s) {
        Err(name + " stride extents must be positive"@)
    } else if !axis::has_axis(v, c) {
        Err(axis::missing_axis_message(c))
    } else {
        match geometry::extents_of(v, sp) {
            Err(m) => Err(m),
            Ok(e) => match geometry::window_counts(e, k, s, p, WindowRule::Unfold) {
                Err(m) => Err(name + m),
                Ok(w) => {
                    let total = axis::axis_extent(v, c) * geometry::product(k);
                    if total > usize::MAX {
                        Err(name + " patch extent overflow"@)
                    } else {
                        match axis::shape_outcome(
                            geometry::rewrite(v, unfold_rule(c, sp, pa, total as usize, w)),
                        ) {
                            Err(m) => Err(m),
                            Ok(d) => Ok((d, total as usize)),
                        }
                    }
                },
            },
        }
    }
}

/// Patch extraction geometry: the output shape and the patch extent
/// `channels * kernel volume`.
pub fn unfold_geometry(
    name: &str,
    input: &Shape,
    channels: Axis,
    spatial: &[Axis],
    patch: Axis,
    kernel: &[usize],
    stride: &[usize],
    padding: &[usize],
) -> (r: Result<(Shape, usize), Error>)
    requires
        kernel@.len() == spatial@.len(),
        stride@.len() == spatial@.len(),
        padding@.len() == spatial@.len(),
    ensures
        unfold_outcome(
            name@,
            input@,
            channels@,
            geometry::names(spatial@),
            patch@,
            kernel@,
            stride@,
            padding@,
        ) matches Ok((d, pe)) ==> r is Ok && r->Ok_0.0@ == d && r->Ok_0.1 == pe,
        unfold_outcome(
            name@,
            input@,
            channels@,
            geometry::names(spatial@),
            patch@,
            kernel@,
            stride@,
            padding@,
        ) matches Err(m) ==> r is Err && r->Err_0@ == m,
{
    let ghost sp = geometry::names(spatial@);
    if !geometry::check_distinct(spatial, Some(channels)) {
        let mut m = String::from_str(name);
        m.append(" requires distinct channel and spatial axes");
        return Err(Error::new(m));
    }
    if geometry::any_zero(kernel) {
        let mut m = String::from_str(name);
        m.append(" kernel extents must be positive");
        return Err(Error::new(m));
    }
    if geometry::any_zero(stride) {
        let mut m = String::from_str(name);
        m.append(" stride extents must be positive");
        return Err(Error::new(m));
    }
    let channel_extent = input.extent(channels)?;
    let input_spatial = geometry::extents(input, spatial)?;
    let windows = geometry::counts(name, &input_spatial, kernel, stride, padding, WindowRule::Unfold)?;
    let patch_extent = match geometry::scaled_product(channel_extent, kernel) {
        Some(pe) => pe,
        None => {
            let mut m = String::from_str(name);
            m.append(" patch extent overflow");
            return Err(Error::new(m));
        },
    };
    let ghost f = unfold_rule(channels@, sp, patch@, patch_extent, windows@);
    let ghost v = input@;
    let source = input.dims();
    let n = source.len();
    let mut dims: Vec<Dim> = Vec::new();
    let mut i: usize = 0;
    assert(v.take(0) =~= Seq::<DimView>::empty());
    while i < n
        invariant
            n == v.len(),
            v == input@,
            axis::dims_view(source@) == v,
            geometry::distinct_and_avoiding(sp, channels@),
            sp == geometry::names(spatial@),
            windows@.len() == spatial@.len(),
            f == unfold_rule(channels@, sp, patch@, patch_extent, windows@),
            i <= n,
            axis::dims_view(dims@) == geometry::rewrite(v.take(i as int), f),
        decreases n - i,
    {
        proof {
            geometry::lemma_rewrite_step(v, f, i as int);
        }
        let d = source[i];
        assert(d@ == v[i as int]);
        if d.axis.same(&channels) {
            dims.push(patch.of(patch_extent));
        } else {
            match geometry::find_axis(spatial, d.axis) {
                Some(j) => {
                    proof {
                        assert(sp[j as int] == d.axis@);
                        geometry::lemma_slot_unique(sp, d.axis@, j as int);
                    }
                    dims.push(d.axis.of(windows[j]));
                },
                None => {
                    dims.push(d);
                },
            }
        }
        assert(axis::dims_view(dims@) =~= geometry::rewrite(v.take(i as int + 1), f));
        i = i + 1;
    }
    assert(v.take(n as int) =~= v);
    let shape = Shape::new(dims)?;
    Ok((shape, patch_extent))
}

/// The configuration of a patch extraction or fold over two named spatial axes.
pub ghost struct PatchView {
    pub channels: Seq<char>,
    pub spatial: Seq<Seq<char>>,
    pub patch: Seq<char>,
    pub kernel: Seq<usize>,
    pub stride: Seq<usize>,
    pub padding: Seq<usize>,
}

/// Named-axis `im2col` (PyTorch's `nn.Unfold`): extracts sliding local kernel-sized blocks,
/// replacing `channels` in place with `patch` (extent `channels * kernel volume`) and shrinking
/// `spatial` to their windowed count. Stride defaults to `[1, 1]` and padding to `[0, 0]`.
pub struct Unfold {
    channels: Axis,
    spatial: [Axis; 2],
    patch: Axis,
    kernel: [usize; 2],
    stride: [usize; 2],
    padding: [usize; 2],
}

impl View for Unfold {
    type V = PatchView;

    closed spec fn view(&self) -> PatchView {
        PatchView {
            channels: self.channels@,
            spatial: geometry::names(self.spatial@),
            patch: self.patch@,
            kernel: self.kernel@,
            stride: self.stride@,
            padding: self.padding@,
        }
    }
}

impl Unfold {
    pub fn new(channels: Axis, spatial: [Axis; 2], patch: Axis, kernel: [usize; 2]) -> (u: Self)
        ensures
            u@ == (PatchView {
                channels: channels@,
                spatial: geometry::names(spatial@),
                patch: patch@,
                kernel: kernel@,
                stride: seq![1usize, 1usize],
                padding: seq![0usize, 0usize],
            }),
    {
        let u = Unfold { channels, spatial, patch, kernel, stride: [1, 1], padding: [0, 0] };
        assert(u.stride@ =~= seq![1usize, 1usize]);
        assert(u.padding@ =~= seq![0usize, 0usize]);
        u
    }

    /// Set stride in the order of the supplied spatial axes. Defaults to `[1, 1]`.
    pub fn stride(self, stride: [usize; 2]) -> (u: Self)
        ensures
            u@ == (PatchView { stride: stride@, ..self@ }),
    {
        Unfold { stride, ..self }
    }

    /// Set symmetric zero-padding in the order of the supplied spatial axes. Defaults to `[0, 0]`.
    pub fn padding(self, padding: [usize; 2]) -> (u: Self)
        ensures
            u@ == (PatchView { padding: padding@, ..self@ }),
    {
        Unfold { padding, ..self }
    }

    /// The output shape: `channels` replaced in place by `patch`, each spatial
    /// axis at its window count.
    pub fn output_shape(&self, input: &Shape) -> (r: Result<Shape, Error>)
        ensures
            unfold_outcome(
                "Unfold"@,
                input@,
                self@.channels,
                self@.spatial,
                self@.patch,
                self@.kernel,
                self@.stride,
                self@.padding,
            ) matches Ok((d, pe)) ==> r is Ok && r->Ok_0@ == d,
            unfold_outcome(
                "Unfold"@,
                input@,
                self@.channels,
                self@.spatial,
                self@.patch,
                self@.kernel,
                self@.stride,
                self@.padding,
            ) matches Err(m) ==> r is Err && r->Err_0@ == m,
    {
        let (shape, _) = unfold_geometry(
            "Unfold",
            input,
            self.channels,
            self.spatial.as_slice(),
            self.patch,
            self.kernel.as_slice(),
            self.stride.as_slice(),
            self.padding.as_slice(),
        )?;
        Ok(shape)
    }
}


/// Fold keeps every input dimension except the patch and spatial axes.
pub open spec fn fold_keep(pa: Seq<char>, sp: Seq<Seq<char>>) -> spec_fn(DimView) -> Option<DimView> {
    |d: DimView|
        if d.0 == pa || sp.contains(d.0) {
            None
        } else {
            Some(d)
        }
}

/// The first dimension of `expected` that `v` lacks or sizes differently, as a message.
pub open spec fn first_extent_mismatch(v: Seq<DimView>, expected: Seq<DimView>) -> Option<Seq<char>>
    decreases expected.len(),
{
    if expected.len() == 0 {
        None
    } else {
        match first_extent_mismatch(v, expected.drop_last()) {
            Some(m) => Some(m),
            None => {
                let d = expected.last();
                if !axis::has_axis(v, d.0) {
                    Some(axis::missing_axis_message(d.0))
                } else if axis::axis_extent(v, d.0) != d.1 {
                    Some(
                        "Fold input extent for "@ + crate::text::debug_text(d.0)
                            + " does not match output_size, kernel, stride and padding"@,
                    )
                } else {
                    None
                }
            },
        }
    }
}

/// Folding `v` back to an image: the image dimensions and the patch extent, or
/// the first rejection.
pub open spec fn fold_outcome(
    v: Seq<DimView>,
    c: Seq<char>,
    sp: Seq<Seq<char>>,
    img: Seq<usize>,
    pa: Seq<char>,
    k: Seq<usize>,
    s: Seq<usize>,
    p: Seq<usize>,
) -> Result<(Seq<DimView>, usize), Seq<char>> {
    let kv = geometry::product(k);
    if !axis::has_axis(v, pa) {
        Err(axis::missing_axis_message(pa))
    } else {
        let pe = axis::axis_extent(v, pa);
        if kv == 0 || pe == 0 || (pe as nat) % kv != 0 {
            Err("Fold patch extent must be a positive multiple of the kernel volume"@)
        } else {
            let image = geometry::rewrite(v, fold_keep(pa, sp)).push(
                (c, ((pe as nat) / kv) as usize),
            ).push((sp[0], img[0])).push((sp[1], img[1]));
            match axis::shape_outcome(image) {
                Err(m) => Err(m),
                Ok(iv) => match unfold_outcome("Fold"@, iv, c, sp, pa, k, s, p) {
                    Err(m) => Err(m),
                    Ok((ev, epe)) => if epe != pe {
                        Err(
                            "Fold patch extent does not match output_size, kernel, stride and padding"@,
                        )
                    } else {
                        match first_extent_mismatch(v, ev) {
                            Some(m) => Err(m),
                            None => Ok((iv, pe)),
                        }
                    },
                },
            }
        }
    }
}

/// The configuration of a fold: its patch view and the image's spatial extents.
pub ghost struct FoldView {
    pub patch: PatchView,
    pub output_size: Seq<usize>,
}

/// Named-axis `col2im` (PyTorch's `nn.Fold`), the adjoint of [`Unfold`]: combines sliding
/// kernel-sized blocks (`patch` in place of a channel axis) into `output_size`-shaped `spatial`
/// axes, reconstructing `channels` from the patch extent divided by the kernel volume.
/// Stride defaults to `[1, 1]` and padding to `[0, 0]`.
pub struct Fold {
    channels: Axis,
    spatial: [Axis; 2],
    image_spatial: [usize; 2],
    patch: Axis,
    kernel: [usize; 2],
    stride: [usize; 2],
    padding: [usize; 2],
}

impl View for Fold {
    type V = FoldView;

    closed spec fn view(&self) -> FoldView {
        FoldView {
            patch: PatchView {
                channels: self.channels@,
                spatial: geometry::names(self.spatial@),
                patch: self.patch@,
                kernel: self.kernel@,
                stride: self.stride@,
                padding: self.padding@,
            },
            output_size: self.image_spatial@,
        }
    }
}

impl Fold {
    pub fn new(
        channels: Axis,
        spatial: [Axis; 2],
        output_size: [usize; 2],
        patch: Axis,
        kernel: [usize; 2],
    ) -> (f: Self)
        ensures
            f@ == (FoldView {
                patch: PatchView {
                    channels: channels@,
                    spatial: geometry::names(spatial@),
                    patch: patch@,
                    kernel: kernel@,
                    stride: seq![1usize, 1usize],
                    padding: seq![0usize, 0usize],
                },
                output_size: output_size@,
            }),
    {
        let f = Fold {
            channels,
            spatial,
            image_spatial: output_size,
            patch,
            kernel,
            stride: [1, 1],
            padding: [0, 0],
        };
        assert(f.stride@ =~= seq![1usize, 1usize]);
        assert(f.padding@ =~= seq![0usize, 0usize]);
        f
    }

    /// Set stride in the order of the supplied spatial axes. Defaults to `[1, 1]`.
    pub fn stride(self, stride: [usize; 2]) -> (f: Self)
        ensures
            f@ == (FoldView { patch: PatchView { stride: stride@, ..self@.patch }, ..self@ }),
    {
        Fold { stride, ..self }
    }

    /// Set symmetric zero-padding in the order of the supplied spatial axes. Defaults to `[0, 0]`.
    pub fn padding(self, padding: [usize; 2]) -> (f: Self)
        ensures
            f@ == (FoldView { patch: PatchView { padding: padding@, ..self@.patch }, ..self@ }),
    {
        Fold { padding, ..self }
    }

    /// The reconstructed image shape and the input's own patch extent, after checking that the
    /// input's extents are consistent with `output_size`/`kernel`/`stride`/`padding`. The kernel
    /// volume must fit `usize`.
    pub fn geometry(&self, input: &Shape) -> (r: Result<(Shape, usize), Error>)
        requires
            geometry::product(self@.patch.kernel) <= usize::MAX,
        ensures
            fold_outcome(
                input@,
                self@.patch.channels,
                self@.patch.spatial,
                self@.output_size,
                self@.patch.patch,
                self@.patch.kernel,
                self@.patch.stride,
                self@.patch.padding,
            ) matches Ok((d, pe)) ==> r is Ok && r->Ok_0.0@ == d && r->Ok_0.1 == pe,
            fold_outcome(
                input@,
                self@.patch.channels,
                self@.patch.spatial,
                self@.output_size,
                self@.patch.patch,
                self@.patch.kernel,
                self@.patch.stride,
                self@.patch.padding,
            ) matches Err(m) ==> r is Err && r->Err_0@ == m,
    {
        let ghost sp = geometry::names(self.spatial@);
        proof {
            geometry::lemma_product_pair(self.kernel@);
        }
        let kernel_volume = self.kernel[0] * self.kernel[1];
        let patch_extent = input.extent(self.patch)?;
        if kernel_volume == 0 || patch_extent == 0 || patch_extent % kernel_volume != 0 {
            return Err(
                Error::new(
                    String::from_str(
                        "Fold patch extent must be a positive multiple of the kernel volume",
                    ),
                ),
            );
        }
        let channel_extent = patch_extent / kernel_volume;
        let ghost v = input@;
        let ghost f = fold_keep(self.patch@, sp);
        let source = input.dims();
        let n = source.len();
        let mut dims: Vec<Dim> = Vec::new();
        let mut i: usize = 0;
        assert(v.take(0) =~= Seq::<DimView>::empty());
        while i < n
            invariant
                n == v.len(),
                v == input@,
                axis::dims_view(source@) == v,
                sp == geometry::names(self.spatial@),
                f == fold_keep(self.patch@, sp),
                i <= n,
                axis::dims_view(dims@) == geometry::rewrite(v.take(i as int), f),
            decreases n - i,
        {
            proof {
                geometry::lemma_rewrite_step(v, f, i as int);
            }
            let d = source[i];
            assert(d@ == v[i as int]);
            if !d.axis.same(&self.patch) {
                match geometry::find_axis(self.spatial.as_slice(), d.axis) {
                    Some(_) => {},
                    None => {
                        dims.push(d);
                    },
                }
            }
            assert(axis::dims_view(dims@) =~= geometry::rewrite(v.take(i as int + 1), f));
            i = i + 1;
        }
        assert(v.take(n as int) =~= v);
        dims.push(self.channels.of(channel_extent));
        dims.push(self.spatial[0].of(self.image_spatial[0]));
        dims.push(self.spatial[1].of(self.image_spatial[1]));
        assert(axis::dims_view(dims@) =~= geometry::rewrite(v, f).push(
            (self.channels@, channel_extent),
        ).push((sp[0], self.image_spatial@[0])).push((sp[1], self.image_spatial@[1])));
        let image_shape = Shape::new(dims)?;
        let (expected, expected_patch_extent) = unfold_geometry(
            "Fold",
            &image_shape,
            self.channels,
            self.spatial.as_slice(),
            self.patch,
            self.kernel.as_slice(),
            self.stride.as_slice(),
            self.padding.as_slice(),
        )?;
        if expected_patch_extent != patch_extent {
            return Err(
                Error::new(
                    String::from_str(
                        "Fold patch extent does not match output_size, kernel, stride and padding",
                    ),
                ),
            );
        }
        let ghost ev = expected@;
        let ghost outcome = fold_outcome(
            input@,
            self@.patch.channels,
            self@.patch.spatial,
            self@.output_size,
            self@.patch.patch,
            self@.patch.kernel,
            self@.patch.stride,
            self@.patch.padding,
        );
        assert(outcome == match first_extent_mismatch(input@, ev) {
            Some(m) => Err(m),
            None => Ok((image_shape@, patch_extent)),
        });
        let expected_dims = expected.dims();
        let m = expected_dims.len();
        let mut j: usize = 0;
        assert(ev.take(0) =~= Seq::<DimView>::empty());
        while j < m
            invariant
                m == ev.len(),
                ev == expected@,
                axis::dims_view(expected_dims@) == ev,
                j <= m,
                first_extent_mismatch(input@, ev.take(j as int)) is None,
                outcome == fold_outcome(
                    input@,
                    self@.patch.channels,
                    self@.patch.spatial,
                    self@.output_size,
                    self@.patch.patch,
                    self@.patch.kernel,
                    self@.patch.stride,
                    self@.patch.padding,
                ),
                outcome == match first_extent_mismatch(input@, ev) {
                    Some(m) => Err(m),
                    None => Ok((image_shape@, patch_extent)),
                },
            decreases m - j,
        {
            let d = expected_dims[j];
            assert(d@ == ev[j as int]);
            assert(ev.take(j as int + 1).drop_last() =~= ev.take(j as int));
            let e = match input.extent(d.axis) {
                Ok(e) => e,
                Err(err) => {
                    proof {
                        lemma_mismatch_sticks(input@, ev, j as int + 1);
                    }
                    return Err(err);
                },
            };
            if e != d.extent {
                let mut message = String::from_str("Fold input extent for ");
                message.append(crate::text::debug_quoted(d.axis.name()).as_str());
                message.append(" does not match output_size, kernel, stride and padding");
                proof {
                    lemma_mismatch_sticks(input@, ev, j as int + 1);
                }
                return Err(Error::new(message));
            }
            j = j + 1;
        }
        assert(ev.take(m as int) =~= ev);
        Ok((image_shape, patch_extent))
    }

    /// The reconstructed image shape; see [`Fold::geometry`].
    pub fn output_shape(&self, input: &Shape) -> (r: Result<Shape, Error>)
        requires
            geometry::product(self@.patch.kernel) <= usize::MAX,
        ensures
            fold_outcome(
                input@,
                self@.patch.channels,
                self@.patch.spatial,
                self@.output_size,
                self@.patch.patch,
                self@.patch.kernel,
                self@.patch.stride,
                self@.patch.padding,
            ) matches Ok((d, pe)) ==> r is Ok && r->Ok_0@ == d,
            fold_outcome(
                input@,
                self@.patch.channels,
                self@.patch.spatial,
                self@.output_size,
                self@.patch.patch,
                self@.patch.kernel,
                self@.patch.stride,
                self@.patch.padding,
            ) matches Err(m) ==> r is Err && r->Err_0@ == m,
    {
        let (shape, _) = self.geometry(input)?;
        Ok(shape)
    }
}

proof fn lemma_mismatch_sticks(v: Seq<DimView>, e: Seq<DimView>, k: int)
    requires
        0 <= k <= e.len(),
        first_extent_mismatch(v, e.take(k)) is Some,
    ensures
        first_extent_mismatch(v, e) == first_extent_mismatch(v, e.take(k)),
    decreases e.len() - k,
{
    if k < e.len() {
        assert(e.take(k + 1).drop_last() =~= e.take(k));
        lemma_mismatch_sticks(v, e, k + 1);
    } else {
        assert(e.take(k) =~= e);
    }
}

} // verus!

verus! {

/// The group geometry a convolution's parameters were built for.
#[derive(Clone, Copy, Debug, PartialEq, Eq)]
pub struct ConvolutionBinding {
    pub input_channels: usize,
    pub groups: usize,
    pub patch: usize,
    pub output_in_group: usize,
}

/// A convolution's output shape and group geometry for one input: the input channel extent,
/// the per-group patch extent and the per-group extent of the other channel side.
#[derive(Debug)]
pub struct ConvolutionGeometry {
    pub shape: Shape,
    pub channels: usize,
    pub patch: usize,
    pub output_in_group: usize,
}

/// The spec view of a [`ConvolutionGeometry`].
pub type ConvolutionGeometryView = (Seq<DimView>, usize, usize, usize);

impl ConvolutionGeometry {
    pub open spec fn view_tuple(&self) -> ConvolutionGeometryView {
        (self.shape@, self.channels, self.patch, self.output_in_group)
    }
}

/// The operator name for a convolution over `n` spatial axes.
pub open spec fn convolution_name_spec(n: nat) -> Seq<char> {
    if n == 2 {
        "Conv2d"@
    } else if n == 3 {
        "Conv3d"@
    } else {
        "convolution"@
    }
}

/// The operator name for a transposed convolution over `n` spatial axes.
pub open spec fn transposed_name_spec(n: nat) -> Seq<char> {
    if n == 2 {
        "ConvTranspose2d"@
    } else if n == 3 {
        "ConvTranspose3d"@
    } else {
        "transposed convolution"@
    }
}

/// The name a convolution over `n` spatial axes reports in its errors.
pub fn convolution_name(n: usize) -> (s: &'static str)
    ensures
        s@ == convolution_name_spec(n as nat),
{
    proof {
        reveal_strlit("Conv2d");
        reveal_strlit("Conv3d");
        reveal_strlit("convolution");
    }
    if n == 2 {
        "Conv2d"
    } else if n == 3 {
        "Conv3d"
    } else {
        "convolution"
    }
}

/// The name a transposed convolution over `n` spatial axes reports in its errors.
pub fn transposed_name(n: usize) -> (s: &'static str)
    ensures
        s@ == transposed_name_spec(n as nat),
{
    proof {
        reveal_strlit("ConvTranspose2d");
        reveal_strlit("ConvTranspose3d");
        reveal_strlit("transposed convolution");
    }
    if n == 2 {
        "ConvTranspose2d"
    } else if n == 3 {
        "ConvTranspose3d"
    } else {
        "transposed convolution"
    }
}

/// A recorded binding, checked against the geometry just computed: the rejection, if any.
pub open spec fn binding_mismatch(
    name: Seq<char>,
    bound: Option<ConvolutionBinding>,
    channels: usize,
    groups: usize,
    patch: usize,
    other_in_group: usize,
) -> Option<Seq<char>> {
    match bound {
        None => None,
        Some(b) => if b.input_channels != channels {
            Some(name + " input channels differ from its built extent"@)
        } else if b.groups != groups || b.patch != patch || b.output_in_group != other_in_group {
            Some(name + " group geometry differs from its built parameters"@)
        } else {
            None
        },
    }
}

/// Convolution over `v`: output dimensions (the input-channel axis dropped, each spatial axis
/// at its window count, then the output dimension appended), the input channel extent, the
/// per-group patch extent and the output channels per group; or the first rejection.
pub open spec fn convolution_outcome(
    v: Seq<DimView>,
    c: Seq<char>,
    out: DimView,
    sp: Seq<Seq<char>>,
    k: Seq<usize>,
    s: Seq<usize>,
    p: Seq<usize>,
    groups: usize,
    bound: Option<ConvolutionBinding>,
) -> Result<ConvolutionGeometryView, Seq<char>> {
    let name = convolution_name_spec(sp.len());
    if !(sp.len() == 2 || sp.len() == 3) {
        Err("Axis convolution supports exactly two or three spatial axes"@)
    } else if !geometry::distinct_and_avoiding(sp, c) {
        Err(name + " requires distinct input-channel and spatial axes"@)
    } else if !axis::has_axis(v, c) {
        Err(axis::missing_axis_message(c))
    } else {
        match geometry::extents_of(v, sp) {
            Err(m) => Err(m),
            Ok(e) => {
                let ch = axis::axis_extent(v, c);
                if geometry::has_zero(k) {
                    Err(name + " kernel extents must be positive"@)
                } else if geometry::has_zero(s) {
                    Err(name + " stride extents must be positive"@)
                } else if groups == 0 {
                    Err(name + " groups must be positive"@)
                } else if ch % groups != 0 {
                    Err(name + " input channels must be divisible by groups"@)
                } else if out.1 % groups != 0 {
                    Err(name + " output channels must be divisible by groups"@)
                } else {
                    match geometry::window_counts(e, k, s, p, WindowRule::Fit) {
                        Err(m) => Err(name + m),
                        Ok(w) => {
                            let patch = ((ch / groups) as nat) * geometry::product(k);
                            let oig = (out.1 / groups) as usize;
                            if patch > usize::MAX {
                                Err(name + " patch extent overflow"@)
                            } else {
                                match binding_mismatch(name, bound, ch, groups, patch as usize, oig) {
                                    Some(m) => Err(m),
                                    None => match axis::shape_outcome(
                                        geometry::rewrite(v, geometry::replace_rule(c, sp, w)).push(
                                            out,
                                        ),
                                    ) {
                                        Err(m) => Err(m),
                                        Ok(d) => Ok((d, ch, patch as usize, oig)),
                                    },
                                }
                            }
                        },
                    }
                }
            },
        }
    }
}

/// Appends `tail` to the operator's name.
fn named(name: &str, tail: &str) -> (e: Error)
    ensures
        e@ == name@ + tail@,
{
    let mut m = String::from_str(name);
    m.append(tail);
    Error::new(m)
}

/// Named-channel cross-correlation geometry over two or three spatial axes, with optional
/// groups and an optional recorded binding to check against.
pub fn convolution_geometry(
    input: &Shape,
    channels: Axis,
    output: Dim,
    spatial: &[Axis],
    kernel: &[usize],
    stride: &[usize],
    padding: &[usize],
    groups: usize,
    bound: Option<ConvolutionBinding>,
) -> (r: Result<ConvolutionGeometry, Error>)
    requires
        kernel@.len() == spatial@.len(),
        stride@.len() == spatial@.len(),
        padding@.len() == spatial@.len(),
    ensures
        convolution_outcome(
            input@,
            channels@,
            output@,
            geometry::names(spatial@),
            kernel@,
            stride@,
            padding@,
            groups,
            bound,
        ) matches Ok(g) ==> r is Ok && r->Ok_0.view_tuple() == g,
        convolution_outcome(
            input@,
            channels@,
            output@,
            geometry::names(spatial@),
            kernel@,
            stride@,
            padding@,
            groups,
            bound,
        ) matches Err(m) ==> r is Err && r->Err_0@ == m,
{
    let ghost sp = geometry::names(spatial@);
    let n = spatial.len();
    if !(n == 2 || n == 3) {
        proof {
            reveal_strlit("Axis convolution supports exactly two or three spatial axes");
        }
        return Err(
            Error::new(
                String::from_str("Axis convolution supports exactly two or three spatial axes"),
            ),
        );
    }
    let name = convolution_name(n);
    if !geometry::check_distinct(spatial, Some(channels)) {
        return Err(named(name, " requires distinct input-channel and spatial axes"));
    }
    let ch = input.extent(channels)?;
    let input_spatial = geometry::extents(input, spatial)?;
    if geometry::any_zero(kernel) {
        return Err(named(name, " kernel extents must be positive"));
    }
    if geometry::any_zero(stride) {
        return Err(named(name, " stride extents must be positive"));
    }
    if groups == 0 {
        return Err(named(name, " groups must be positive"));
    }
    if ch % groups != 0 {
        return Err(named(name, " input channels must be divisible by groups"));
    }
    if output.extent % groups != 0 {
        return Err(named(name, " output channels must be divisible by groups"));
    }
    let windows = geometry::counts(
        name,
        &input_spatial,
        kernel,
        stride,
        padding,
        WindowRule::Fit,
    )?;
    let patch = match geometry::scaled_product(ch / groups, kernel) {
        Some(pe) => pe,
        None => {
            return Err(named(name, " patch extent overflow"));
        },
    };
    let output_in_group = output.extent / groups;
    match bound {
        Some(b) => {
            if b.input_channels != ch {
                return Err(named(name, " input channels differ from its built extent"));
            }
            if b.groups != groups || b.patch != patch || b.output_in_group != output_in_group {
                return Err(named(name, " group geometry differs from its built parameters"));
            }
        },
        None => {},
    }
    let mut dims = geometry::replace_dims(input, channels, spatial, &windows);
    dims.push(output);
    proof {
        assert(axis::dims_view(dims@) =~= geometry::rewrite(
            input@,
            geometry::replace_rule(channels@, sp, windows@),
        ).push(output@));
    }
    let shape = Shape::new(dims)?;
    Ok(ConvolutionGeometry { shape, channels: ch, patch, output_in_group })
}

} // verus!

verus! {

/// The output extent of a transposed convolution along one axis,
/// `(e - 1) * s + k - 2p + op`, or the rejection message's tail.
pub open spec fn transposed_extent(e: usize, k: usize, s: usize, p: usize, op: usize) -> Result<
    usize,
    Seq<char>,
> {
    let expanded = (e - 1) * s;
    if expanded > usize::MAX || expanded + k > usize::MAX {
        Err(" expanded spatial extent overflow"@)
    } else if p * 2 > usize::MAX {
        Err(" padding overflow"@)
    } else if expanded + k < p * 2 {
        Err(" padding exceeds the expanded spatial extent"@)
    } else if expanded + k - p * 2 + op > usize::MAX {
        Err(" expanded spatial extent overflow"@)
    } else {
        Ok((expanded + k - p * 2 + op) as usize)
    }
}

/// A transposed convolution undoes a convolution's change of extent: when a convolution with
/// kernel `k`, stride `s` and padding `p` takes extent `e` to `o` windows, the transposed
/// convolution with the same kernel, stride and padding, and output padding `(e + 2p - k) % s`
/// (always below `s`), takes `o` back to `e`. The output padding picks which of the `s`
/// extents that give `o` windows is meant.
pub proof fn lemma_transposed_restores_extent(e: usize, k: usize, s: usize, p: usize)
    requires
        k > 0,
        s > 0,
        geometry::window_count(e, k, s, p, geometry::WindowRule::Fit) is Ok,
        (e + p * 2 - k) % (s as int) <= e,
    ensures
        ({
            let o = geometry::window_count(e, k, s, p, geometry::WindowRule::Fit)->Ok_0;
            let op = ((e + p * 2 - k) % (s as int)) as usize;
            &&& op < s
            &&& transposed_extent(o, k, s, p, op) == Ok::<usize, Seq<char>>(e)
        }),
{
    let x: int = e + p * 2 - k;
    let q: int = x / (s as int);
    let r: int = x % (s as int);
    assert(x == q * s + r && 0 <= r < s) by (nonlinear_arith)
        requires
            s > 0,
            x >= 0,
            q == x / (s as int),
            r == x % (s as int),
    ;
    assert(q >= 0) by (nonlinear_arith)
        requires
            s > 0,
            x >= 0,
            q == x / (s as int),
    ;
    let o = geometry::window_count(e, k, s, p, geometry::WindowRule::Fit)->Ok_0;
    assert(o == q + 1);
    assert((o - 1) * s == q * s) by (nonlinear_arith)
        requires
            o == q + 1,
    ;
}

/// Some axis has an output padding not below its stride.
pub open spec fn output_padding_too_large(op: Seq<usize>, s: Seq<usize>) -> bool {
    exists|i: int| 0 <= i < op.len() && op[i] >= s[i]
}

/// Every spatial axis present in `v` has a positive extent.
pub open spec fn spatial_extents_positive(v: Seq<DimView>, sp: Seq<Seq<char>>) -> bool {
    forall|i: int|
        0 <= i < sp.len() && axis::has_axis(v, #[trigger] sp[i]) ==> axis::axis_extent(v, sp[i]) > 0
}

/// Transposed convolution over `v`: output dimensions, input channel extent, per-group patch
/// extent (output channels per group times the kernel volume) and input channels per group;
/// or the first rejection.
pub open spec fn transposed_outcome(
    v: Seq<DimView>,
    c: Seq<char>,
    out: DimView,
    sp: Seq<Seq<char>>,
    k: Seq<usize>,
    s: Seq<usize>,
    p: Seq<usize>,
    op: Seq<usize>,
    groups: usize,
    bound: Option<ConvolutionBinding>,
) -> Result<ConvolutionGeometryView, Seq<char>> {
    let name = transposed_name_spec(sp.len());
    if !(sp.len() == 2 || sp.len() == 3) {
        Err("Axis transposed convolution supports exactly two or three spatial axes"@)
    } else if !geometry::distinct_and_avoiding(sp, c) {
        Err(name + " requires distinct input-channel and spatial axes"@)
    } else if !axis::has_axis(v, c) {
        Err(axis::missing_axis_message(c))
    } else {
        match geometry::extents_of(v, sp) {
            Err(m) => Err(m),
            Ok(e) => {
                let ch = axis::axis_extent(v, c);
                if geometry::has_zero(k) {
                    Err(name + " kernel extents must be positive"@)
                } else if geometry::has_zero(s) {
                    Err(name + " stride extents must be positive"@)
                } else if groups == 0 {
                    Err(name + " groups must be positive"@)
                } else if ch % groups != 0 {
                    Err(name + " input channels must be divisible by groups"@)
                } else if out.1 % groups != 0 {
                    Err(name + " output channels must be divisible by groups"@)
                } else if output_padding_too_large(op, s) {
                    Err(name + " output_padding must be less than stride"@)
                } else {
                    match geometry::each_axis(
                        sp.len(),
                        |i: int| transposed_extent(e[i], k[i], s[i], p[i], op[i]),
                    ) {
                        Err(m) => Err(name + m),
                        Ok(w) => {
                            let patch = ((out.1 / groups) as nat) * geometry::product(k);
                            let iig = (ch / groups) as usize;
                            if patch > usize::MAX {
                                Err(name + " patch extent overflow"@)
                            } else {
                                match binding_mismatch(name, bound, ch, groups, patch as usize, iig) {
                                    Some(m) => Err(m),
                                    None => match axis::shape_outcome(
                                        geometry::rewrite(v, geometry::replace_rule(c, sp, w)).push(
                                            out,
                                        ),
                                    ) {
                                        Err(m) => Err(m),
                                        Ok(d) => Ok((d, ch, patch as usize, iig)),
                                    },
                                }
                            }
                        },
                    }
                }
            },
        }
    }
}

/// Group law of convolution. An accepted convolution splits its channels evenly: the input
/// channels are the input's channel extent, each group's patch covers its share of them over
/// the whole kernel (so the patches of all groups cover every input channel at every kernel
/// position), each group produces its share of the output channels, and the output ends with
/// the output dimension.
pub proof fn lemma_convolution_groups(
    v: Seq<DimView>,
    c: Seq<char>,
    out: DimView,
    sp: Seq<Seq<char>>,
    k: Seq<usize>,
    s: Seq<usize>,
    p: Seq<usize>,
    groups: usize,
    bound: Option<ConvolutionBinding>,
)
    ensures
        convolution_outcome(v, c, out, sp, k, s, p, groups, bound) matches Ok((d, ch, patch, oig)) ==> {
            &&& ch == axis::axis_extent(v, c)
            &&& groups > 0
            &&& patch * groups == ch * geometry::product(k)
            &&& oig * groups == out.1
            &&& d.last() == out
        },
{
    if let Ok((d, ch, patch, oig)) = convolution_outcome(v, c, out, sp, k, s, p, groups, bound) {
        let g = groups as int;
        let x = ch as int;
        let y = out.1 as int;
        vstd::arithmetic::div_mod::lemma_fundamental_div_mod(x, g);
        vstd::arithmetic::div_mod::lemma_fundamental_div_mod(y, g);
        let pk = geometry::product(k) as int;
        assert((x / g) * pk * g == x * pk) by (nonlinear_arith)
            requires
                x == g * (x / g),
        ;
        assert((y / g) * g == y) by (nonlinear_arith)
            requires
                y == g * (y / g),
        ;
    }
}

/// Group law of transposed convolution. An accepted transposed convolution splits its
/// channels evenly: each group's patch covers its share of the output channels over the whole
/// kernel (so the patches of all groups cover every output channel at every kernel position),
/// each group takes its share of the input channels, and the output ends with the output
/// dimension.
pub proof fn lemma_transposed_groups(
    v: Seq<DimView>,
    c: Seq<char>,
    out: DimView,
    sp: Seq<Seq<char>>,
    k: Seq<usize>,
    s: Seq<usize>,
    p: Seq<usize>,
    op: Seq<usize>,
    groups: usize,
    bound: Option<ConvolutionBinding>,
)
    ensures
        transposed_outcome(v, c, out, sp, k, s, p, op, groups, bound) matches Ok((d, ch, patch, iig)) ==> {
            &&& ch == axis::axis_extent(v, c)
            &&& groups > 0
            &&& patch * groups == out.1 * geometry::product(k)
            &&& iig * groups == ch
            &&& d.last() == out
        },
{
    if let Ok((d, ch, patch, iig)) = transposed_outcome(v, c, out, sp, k, s, p, op, groups, bound) {
        let g = groups as int;
        let x = ch as int;
        let y = out.1 as int;
        vstd::arithmetic::div_mod::lemma_fundamental_div_mod(x, g);
        vstd::arithmetic::div_mod::lemma_fundamental_div_mod(y, g);
        let pk = geometry::product(k) as int;
        assert((y / g) * pk * g == y * pk) by (nonlinear_arith)
            requires
                y == g * (y / g),
        ;
        assert((x / g) * g == x) by (nonlinear_arith)
            requires
                x == g * (x / g),
        ;
    }
}

/// Transposed (fractionally-strided) convolution geometry over two or three spatial axes. The
/// last field of the result is the input channels per group. Each spatial extent present must
/// be positive.
#[verifier::loop_isolation(false)]
pub fn transposed_geometry(
    input: &Shape,
    channels: Axis,
    output: Dim,
    spatial: &[Axis],
    kernel: &[usize],
    stride: &[usize],
    padding: &[usize],
    output_padding: &[usize],
    groups: usize,
    bound: Option<ConvolutionBinding>,
) -> (r: Result<ConvolutionGeometry, Error>)
    requires
        kernel@.len() == spatial@.len(),
        stride@.len() == spatial@.len(),
        padding@.len() == spatial@.len(),
        output_padding@.len() == spatial@.len(),
        spatial_extents_positive(input@, geometry::names(spatial@)),
    ensures
        transposed_outcome(
            input@,
            channels@,
            output@,
            geometry::names(spatial@),
            kernel@,
            stride@,
            padding@,
            output_padding@,
            groups,
            bound,
        ) matches Ok(g) ==> r is Ok && r->Ok_0.view_tuple() == g,
        transposed_outcome(
            input@,
            channels@,
            output@,
            geometry::names(spatial@),
            kernel@,
            stride@,
            padding@,
            output_padding@,
            groups,
            bound,
        ) matches Err(m) ==> r is Err && r->Err_0@ == m,
{
    let ghost sp = geometry::names(spatial@);
    let n = spatial.len();
    if !(n == 2 || n == 3) {
        proof {
            reveal_strlit("Axis transposed convolution supports exactly two or three spatial axes");
        }
        return Err(
            Error::new(
                String::from_str(
                    "Axis transposed convolution supports exactly two or three spatial axes",
                ),
            ),
        );
    }
    let name = transposed_name(n);
    if !geometry::check_distinct(spatial, Some(channels)) {
        return Err(named(name, " requires distinct input-channel and spatial axes"));
    }
    let ch = input.extent(channels)?;
    let input_spatial = geometry::extents(input, spatial)?;
    if geometry::any_zero(kernel) {
        return Err(named(name, " kernel extents must be positive"));
    }
    if geometry::any_zero(stride) {
        return Err(named(name, " stride extents must be positive"));
    }
    if groups == 0 {
        return Err(named(name, " groups must be positive"));
    }
    if ch % groups != 0 {
        return Err(named(name, " input channels must be divisible by groups"));
    }
    if output.extent % groups != 0 {
        return Err(named(name, " output channels must be divisible by groups"));
    }
    let mut i: usize = 0;
    while i < n
        invariant
            n == spatial@.len(),
            output_padding@.len() == n,
            stride@.len() == n,
            i <= n,
            forall|j: int| 0 <= j < i ==> output_padding@[j] < stride@[j],
        decreases n - i,
    {
        if output_padding[i] >= stride[i] {
            return Err(named(name, " output_padding must be less than stride"));
        }
        i = i + 1;
    }
    let ghost e = input_spatial@;
    let ghost f = |j: int| transposed_extent(e[j], kernel@[j], stride@[j], padding@[j], output_padding@[j]);
    proof {
        assert forall|j: int| 0 <= j < n implies e[j] > 0 by {
            lemma_extents_entry(input@, sp, j);
        }
    }
    let mut sizes: Vec<usize> = Vec::new();
    let mut i: usize = 0;
    while i < n
        invariant
            n == spatial@.len(),
            e.len() == n,
            e == input_spatial@,
            kernel@.len() == n,
            stride@.len() == n,
            padding@.len() == n,
            output_padding@.len() == n,
            forall|j: int| 0 <= j < n ==> e[j] > 0,
            f == (|j: int| transposed_extent(e[j], kernel@[j], stride@[j], padding@[j], output_padding@[j])),
            i <= n,
            geometry::each_axis(i as nat, f) == Ok::<Seq<usize>, Seq<char>>(sizes@),
        decreases n - i,
    {
        let steps = input_spatial[i] - 1;
        let tail: &str;
        match steps.checked_mul(stride[i]) {
            None => {
                tail = " expanded spatial extent overflow";
            },
            Some(expanded) => match expanded.checked_add(kernel[i]) {
                None => {
                    tail = " expanded spatial extent overflow";
                },
                Some(with_kernel) => match padding[i].checked_mul(2) {
                    None => {
                        tail = " padding overflow";
                    },
                    Some(doubled) => match with_kernel.checked_sub(doubled) {
                        None => {
                            tail = " padding exceeds the expanded spatial extent";
                        },
                        Some(unpadded) => match unpadded.checked_add(output_padding[i]) {
                            None => {
                                tail = " expanded spatial extent overflow";
                            },
                            Some(size) => {
                                sizes.push(size);
                                i = i + 1;
                                continue;
                            },
                        },
                    },
                },
            },
        }
        proof {
            geometry::lemma_each_axis_err_sticks(n as nat, f, i as nat + 1);
        }
        return Err(named(name, tail));
    }
    proof {
        geometry::lemma_each_axis_len(n as nat, f);
    }
    let patch = match geometry::scaled_product(output.extent / groups, kernel) {
        Some(pe) => pe,
        None => {
            return Err(named(name, " patch extent overflow"));
        },
    };
    let input_in_group = ch / groups;
    match bound {
        Some(b) => {
            if b.input_channels != ch {
                return Err(named(name, " input channels differ from its built extent"));
            }
            if b.groups != groups || b.patch != patch || b.output_in_group != input_in_group {
                return Err(named(name, " group geometry differs from its built parameters"));
            }
        },
        None => {},
    }
    let mut dims = geometry::replace_dims(input, channels, spatial, &sizes);
    dims.push(output);
    proof {
        assert(axis::dims_view(dims@) =~= geometry::rewrite(
            input@,
            geometry::replace_rule(channels@, sp, sizes@),
        ).push(output@));
    }
    let shape = Shape::new(dims)?;
    Ok(ConvolutionGeometry { shape, channels: ch, patch, output_in_group: input_in_group })
}

/// An entry of the extents of `n` in `v` is that axis's extent.
proof fn lemma_extents_entry(v: Seq<DimView>, n: Seq<Seq<char>>, j: int)
    requires
        0 <= j < n.len(),
        geometry::extents_of(v, n) is Ok,
    ensures
        geometry::extents_of(v, n)->Ok_0.len() == n.len(),
        axis::has_axis(v, n[j]),
        geometry::extents_of(v, n)->Ok_0[j] == axis::axis_extent(v, n[j]),
    decreases n.len(),
{
    if j < n.len() - 1 {
        lemma_extents_entry(v, n.drop_last(), j);
    } else if n.len() > 1 {
        lemma_extents_entry(v, n.drop_last(), 0);
    }
}

} // verus!

verus! {

/// The configuration of a convolution: input-channel axis, output dimension, spatial axes,
/// kernel, stride, symmetric padding, groups and the binding recorded when it was built.
pub ghost struct ConvolutionView {
    pub input: Seq<char>,
    pub output: DimView,
    pub spatial: Seq<Seq<char>>,
    pub kernel: Seq<usize>,
    pub stride: Seq<usize>,
    pub padding: Seq<usize>,
    pub groups: usize,
    pub bound: Option<ConvolutionBinding>,
}

/// The configuration of a transposed convolution: a convolution's, plus output padding.
pub ghost struct TransposedView {
    pub conv: ConvolutionView,
    pub output_padding: Seq<usize>,
}

/// The binding a freshly built convolution records for geometry `g`.
pub open spec fn binding_of(g: ConvolutionGeometryView, groups: usize) -> ConvolutionBinding {
    ConvolutionBinding { input_channels: g.1, groups, patch: g.2, output_in_group: g.3 }
}


/// Named-channel 2D cross-correlation followed by bias addition: the input-channel axis is
/// contracted away, each spatial axis shrinks to its window count and the output dimension is
/// appended. Stride defaults to all ones, padding to all zeros and groups to `1`.
pub struct Conv2d {
    input: Axis,
    output: Dim,
    spatial: [Axis; 2],
    kernel: [usize; 2],
    stride: [usize; 2],
    padding: [usize; 2],
    groups: usize,
    bound: Option<ConvolutionBinding>,
}

impl View for Conv2d {
    type V = ConvolutionView;

    closed spec fn view(&self) -> ConvolutionView {
        ConvolutionView {
            input: self.input@,
            output: self.output@,
            spatial: geometry::names(self.spatial@),
            kernel: self.kernel@,
            stride: self.stride@,
            padding: self.padding@,
            groups: self.groups,
            bound: self.bound,
        }
    }
}

impl Conv2d {
    pub fn new(input: Axis, output: Dim, spatial: [Axis; 2], kernel: [usize; 2]) -> (c: Self)
        ensures
            c@ == (ConvolutionView {
                input: input@,
                output: output@,
                spatial: geometry::names(spatial@),
                kernel: kernel@,
                stride: seq![1usize, 1usize],
                padding: seq![0usize, 0usize],
                groups: 1,
                bound: None,
            }),
    {
        let c = Conv2d {
            input,
            output,
            spatial,
            kernel,
            stride: [1, 1],
            padding: [0, 0],
            groups: 1,
            bound: None,
        };
        assert(c.stride@ =~= seq![1usize, 1usize]);
        assert(c.padding@ =~= seq![0usize, 0usize]);
        c
    }

    /// Set stride in the order of the supplied spatial axes.
    pub fn stride(self, stride: [usize; 2]) -> (c: Self)
        ensures
            c@ == (ConvolutionView { stride: stride@, ..self@ }),
    {
        Conv2d { stride, ..self }
    }

    /// Set symmetric zero-padding in the order of the supplied spatial axes.
    pub fn padding(self, padding: [usize; 2]) -> (c: Self)
        ensures
            c@ == (ConvolutionView { padding: padding@, ..self@ }),
    {
        Conv2d { padding, ..self }
    }

    /// Partition input and output channels into independent convolution groups.
    pub fn groups(self, groups: usize) -> (c: Self)
        ensures
            c@ == (ConvolutionView { groups, ..self@ }),
    {
        Conv2d { groups, ..self }
    }

    /// The output shape and group geometry for `input`, checked against the recorded binding.
    pub fn geometry(&self, input: &Shape) -> (r: Result<ConvolutionGeometry, Error>)
        ensures
            convolution_outcome(
                input@,
                self@.input,
                self@.output,
                self@.spatial,
                self@.kernel,
                self@.stride,
                self@.padding,
                self@.groups,
                self@.bound,
            ) matches Ok(g) ==> r is Ok && r->Ok_0.view_tuple() == g,
            convolution_outcome(
                input@,
                self@.input,
                self@.output,
                self@.spatial,
                self@.kernel,
                self@.stride,
                self@.padding,
                self@.groups,
                self@.bound,
            ) matches Err(m) ==> r is Err && r->Err_0@ == m,
    {
        convolution_geometry(
            input,
            self.input,
            self.output,
            self.spatial.as_slice(),
            self.kernel.as_slice(),
            self.stride.as_slice(),
            self.padding.as_slice(),
            self.groups,
            self.bound,
        )
    }

    /// The output shape for `input`; see [`Conv2d::geometry`].
    pub fn output_shape(&self, input: &Shape) -> (r: Result<Shape, Error>)
        ensures
            convolution_outcome(
                input@,
                self@.input,
                self@.output,
                self@.spatial,
                self@.kernel,
                self@.stride,
                self@.padding,
                self@.groups,
                self@.bound,
            ) matches Ok(g) ==> r is Ok && r->Ok_0@ == g.0,
            convolution_outcome(
                input@,
                self@.input,
                self@.output,
                self@.spatial,
                self@.kernel,
                self@.stride,
                self@.padding,
                self@.groups,
                self@.bound,
            ) matches Err(m) ==> r is Err && r->Err_0@ == m,
    {
        let g = self.geometry(input)?;
        Ok(g.shape)
    }

    /// Record that parameters were built for `geometry`; later geometry must agree with it.
    pub fn bind(&mut self, geometry: &ConvolutionGeometry)
        ensures
            final(self)@ == (ConvolutionView {
                bound: Some(binding_of(geometry.view_tuple(), old(self)@.groups)),
                ..old(self)@
            }),
    {
        self.bound = Some(
            ConvolutionBinding {
                input_channels: geometry.channels,
                groups: self.groups,
                patch: geometry.patch,
                output_in_group: geometry.output_in_group,
            },
        );
    }
}

/// Named-channel 3D cross-correlation followed by bias addition: the input-channel axis is
/// contracted away, each spatial axis shrinks to its window count and the output dimension is
/// appended. Stride defaults to all ones, padding to all zeros and groups to `1`.
pub struct Conv3d {
    input: Axis,
    output: Dim,
    spatial: [Axis; 3],
    kernel: [usize; 3],
    stride: [usize; 3],
    padding: [usize; 3],
    groups: usize,
    bound: Option<ConvolutionBinding>,
}

impl View for Conv3d {
    type V = ConvolutionView;

    closed spec fn view(&self) -> ConvolutionView {
        ConvolutionView {
            input: self.input@,
            output: self.output@,
            spatial: geometry::names(self.spatial@),
            kernel: self.kernel@,
            stride: self.stride@,
            padding: self.padding@,
            groups: self.groups,
            bound: self.bound,
        }
    }
}

impl Conv3d {
    pub fn new(input: Axis, output: Dim, spatial: [Axis; 3], kernel: [usize; 3]) -> (c: Self)
        ensures
            c@ == (ConvolutionView {
                input: input@,
                output: output@,
                spatial: geometry::names(spatial@),
                kernel: kernel@,
                stride: seq![1usize, 1usize, 1usize],
                padding: seq![0usize, 0usize, 0usize],
                groups: 1,
                bound: None,
            }),
    {
        let c = Conv3d {
            input,
            output,
            spatial,
            kernel,
            stride: [1, 1, 1],
            padding: [0, 0, 0],
            groups: 1,
            bound: None,
        };
        assert(c.stride@ =~= seq![1usize, 1usize, 1usize]);
        assert(c.padding@ =~= seq![0usize, 0usize, 0usize]);
        c
    }

    /// Set stride in the order of the supplied spatial axes.
    pub fn stride(self, stride: [usize; 3]) -> (c: Self)
        ensures
            c@ == (ConvolutionView { stride: stride@, ..self@ }),
    {
        Conv3d { stride, ..self }
    }

    /// Set symmetric zero-padding in the order of the supplied spatial axes.
    pub fn padding(self, padding: [usize; 3]) -> (c: Self)
        ensures
            c@ == (ConvolutionView { padding: padding@, ..self@ }),
    {
        Conv3d { padding, ..self }
    }

    /// Partition input and output channels into independent convolution groups.
    pub fn groups(self, groups: usize) -> (c: Self)
        ensures
            c@ == (ConvolutionView { groups, ..self@ }),
    {
        Conv3d { groups, ..self }
    }

    /// The output shape and group geometry for `input`, checked against the recorded binding.
    pub fn geometry(&self, input: &Shape) -> (r: Result<ConvolutionGeometry, Error>)
        ensures
            convolution_outcome(
                input@,
                self@.input,
                self@.output,
                self@.spatial,
                self@.kernel,
                self@.stride,
                self@.padding,
                self@.groups,
                self@.bound,
            ) matches Ok(g) ==> r is Ok && r->Ok_0.view_tuple() == g,
            convolution_outcome(
                input@,
                self@.input,
                self@.output,
                self@.spatial,
                self@.kernel,
                self@.stride,
                self@.padding,
                self@.groups,
                self@.bound,
            ) matches Err(m) ==> r is Err && r->Err_0@ == m,
    {
        convolution_geometry(
            input,
            self.input,
            self.output,
            self.spatial.as_slice(),
            self.kernel.as_slice(),
            self.stride.as_slice(),
            self.padding.as_slice(),
            self.groups,
            self.bound,
        )
    }

    /// The output shape for `input`; see [`Conv3d::geometry`].
    pub fn output_shape(&self, input: &Shape) -> (r: Result<Shape, Error>)
        ensures
            convolution_outcome(
                input@,
                self@.input,
                self@.output,
                self@.spatial,
                self@.kernel,
                self@.stride,
                self@.padding,
                self@.groups,
                self@.bound,
            ) matches Ok(g) ==> r is Ok && r->Ok_0@ == g.0,
            convolution_outcome(
                input@,
                self@.input,
                self@.output,
                self@.spatial,
                self@.kernel,
                self@.stride,
                self@.padding,
                self@.groups,
                self@.bound,
            ) matches Err(m) ==> r is Err && r->Err_0@ == m,
    {
        let g = self.geometry(input)?;
        Ok(g.shape)
    }

    /// Record that parameters were built for `geometry`; later geometry must agree with it.
    pub fn bind(&mut self, geometry: &ConvolutionGeometry)
        ensures
            final(self)@ == (ConvolutionView {
                bound: Some(binding_of(geometry.view_tuple(), old(self)@.groups)),
                ..old(self)@
            }),
    {
        self.bound = Some(
            ConvolutionBinding {
                input_channels: geometry.channels,
                groups: self.groups,
                patch: geometry.patch,
                output_in_group: geometry.output_in_group,
            },
        );
    }
}

/// Transposed (fractionally-strided) named-channel 2D cross-correlation, the adjoint of
/// [`Conv2d`]: each spatial axis grows to `(in - 1) * stride + kernel - 2 * padding +
/// output_padding`. Stride defaults to all ones, padding and output padding to all zeros and
/// groups to `1`.
pub struct ConvTranspose2d {
    input: Axis,
    output: Dim,
    spatial: [Axis; 2],
    kernel: [usize; 2],
    stride: [usize; 2],
    padding: [usize; 2],
    output_padding: [usize; 2],
    groups: usize,
    bound: Option<ConvolutionBinding>,
}

impl View for ConvTranspose2d {
    type V = TransposedView;

    closed spec fn view(&self) -> TransposedView {
        TransposedView {
            conv: ConvolutionView {
                input: self.input@,
                output: self.output@,
                spatial: geometry::names(self.spatial@),
                kernel: self.kernel@,
                stride: self.stride@,
                padding: self.padding@,
                groups: self.groups,
                bound: self.bound,
            },
            output_padding: self.output_padding@,
        }
    }
}

impl ConvTranspose2d {
    pub fn new(input: Axis, output: Dim, spatial: [Axis; 2], kernel: [usize; 2]) -> (c: Self)
        ensures
            c@ == (TransposedView {
                conv: ConvolutionView {
                    input: input@,
                    output: output@,
                    spatial: geometry::names(spatial@),
                    kernel: kernel@,
                    stride: seq![1usize, 1usize],
                    padding: seq![0usize, 0usize],
                    groups: 1,
                    bound: None,
                },
                output_padding: seq![0usize, 0usize],
            }),
    {
        let c = ConvTranspose2d {
            input,
            output,
            spatial,
            kernel,
            stride: [1, 1],
            padding: [0, 0],
            output_padding: [0, 0],
            groups: 1,
            bound: None,
        };
        assert(c.stride@ =~= seq![1usize, 1usize]);
        assert(c.padding@ =~= seq![0usize, 0usize]);
        assert(c.output_padding@ =~= seq![0usize, 0usize]);
        c
    }

    /// Set stride in the order of the supplied spatial axes.
    pub fn stride(self, stride: [usize; 2]) -> (c: Self)
        ensures
            c@ == (TransposedView { conv: ConvolutionView { stride: stride@, ..self@.conv }, ..self@ }),
    {
        ConvTranspose2d { stride, ..self }
    }

    /// Set symmetric padding, removed from both ends of each expanded spatial axis.
    pub fn padding(self, padding: [usize; 2]) -> (c: Self)
        ensures
            c@ == (TransposedView { conv: ConvolutionView { padding: padding@, ..self@.conv }, ..self@ }),
    {
        ConvTranspose2d { padding, ..self }
    }

    /// Set the extra extent added to one side of each spatial axis; must be below the stride.
    pub fn output_padding(self, output_padding: [usize; 2]) -> (c: Self)
        ensures
            c@ == (TransposedView { output_padding: output_padding@, ..self@ }),
    {
        ConvTranspose2d { output_padding, ..self }
    }

    /// Partition input and output channels into independent convolution groups.
    pub fn groups(self, groups: usize) -> (c: Self)
        ensures
            c@ == (TransposedView { conv: ConvolutionView { groups, ..self@.conv }, ..self@ }),
    {
        ConvTranspose2d { groups, ..self }
    }

    /// The output shape and group geometry for `input`, checked against the recorded binding;
    /// each spatial extent present in `input` must be positive.
    pub fn geometry(&self, input: &Shape) -> (r: Result<ConvolutionGeometry, Error>)
        requires
            spatial_extents_positive(input@, self@.conv.spatial),
        ensures
            transposed_outcome(
                input@,
                self@.conv.input,
                self@.conv.output,
                self@.conv.spatial,
                self@.conv.kernel,
                self@.conv.stride,
                self@.conv.padding,
                self@.output_padding,
                self@.conv.groups,
                self@.conv.bound,
            ) matches Ok(g) ==> r is Ok && r->Ok_0.view_tuple() == g,
            transposed_outcome(
                input@,
                self@.conv.input,
                self@.conv.output,
                self@.conv.spatial,
                self@.conv.kernel,
                self@.conv.stride,
                self@.conv.padding,
                self@.output_padding,
                self@.conv.groups,
                self@.conv.bound,
            ) matches Err(m) ==> r is Err && r->Err_0@ == m,
    {
        transposed_geometry(
            input,
            self.input,
            self.output,
            self.spatial.as_slice(),
            self.kernel.as_slice(),
            self.stride.as_slice(),
            self.padding.as_slice(),
            self.output_padding.as_slice(),
            self.groups,
            self.bound,
        )
    }

    /// The output shape for `input`; see [`ConvTranspose2d::geometry`].
    pub fn output_shape(&self, input: &Shape) -> (r: Result<Shape, Error>)
        requires
            spatial_extents_positive(input@, self@.conv.spatial),
        ensures
            transposed_outcome(
                input@,
                self@.conv.input,
                self@.conv.output,
                self@.conv.spatial,
                self@.conv.kernel,
                self@.conv.stride,
                self@.conv.padding,
                self@.output_padding,
                self@.conv.groups,
                self@.conv.bound,
            ) matches Ok(g) ==> r is Ok && r->Ok_0@ == g.0,
            transposed_outcome(
                input@,
                self@.conv.input,
                self@.conv.output,
                self@.conv.spatial,
                self@.conv.kernel,
                self@.conv.stride,
                self@.conv.padding,
                self@.output_padding,
                self@.conv.groups,
                self@.conv.bound,
            ) matches Err(m) ==> r is Err && r->Err_0@ == m,
    {
        let g = self.geometry(input)?;
        Ok(g.shape)
    }

    /// Record that parameters were built for `geometry`; later geometry must agree with it.
    pub fn bind(&mut self, geometry: &ConvolutionGeometry)
        ensures
            final(self)@ == (TransposedView {
                conv: ConvolutionView {
                    bound: Some(binding_of(geometry.view_tuple(), old(self)@.conv.groups)),
                    ..old(self)@.conv
                },
                ..old(self)@
            }),
    {
        self.bound = Some(
            ConvolutionBinding {
                input_channels: geometry.channels,
                groups: self.groups,
                patch: geometry.patch,
                output_in_group: geometry.output_in_group,
            },
        );
    }
}

/// Transposed (fractionally-strided) named-channel 3D cross-correlation, the adjoint of
/// [`Conv3d`]: each spatial axis grows to `(in - 1) * stride + kernel - 2 * padding +
/// output_padding`. Stride defaults to all ones, padding and output padding to all zeros and
/// groups to `1`.
pub struct ConvTranspose3d {
    input: Axis,
    output: Dim,
    spatial: [Axis; 3],
    kernel: [usize; 3],
    stride: [usize; 3],
    padding: [usize; 3],
    output_padding: [usize; 3],
    groups: usize,
    bound: Option<ConvolutionBinding>,
}

impl View for ConvTranspose3d {
    type V = TransposedView;

    closed spec fn view(&self) -> TransposedView {
        TransposedView {
            conv: ConvolutionView {
                input: self.input@,
                output: self.output@,
                spatial: geometry::names(self.spatial@),
                kernel: self.kernel@,
                stride: self.stride@,
                padding: self.padding@,
                groups: self.groups,
                bound: self.bound,
            },
            output_padding: self.output_padding@,
        }
    }
}

impl ConvTranspose3d {
    pub fn new(input: Axis, output: Dim, spatial: [Axis; 3], kernel: [usize; 3]) -> (c: Self)
        ensures
            c@ == (TransposedView {
                conv: ConvolutionView {
                    input: input@,
                    output: output@,
                    spatial: geometry::names(spatial@),
                    kernel: kernel@,
                    stride: seq![1usize, 1usize, 1usize],
                    padding: seq![0usize, 0usize, 0usize],
                    groups: 1,
                    bound: None,
                },
                output_padding: seq![0usize, 0usize, 0usize],
            }),
    {
        let c = ConvTranspose3d {
            input,
            output,
            spatial,
            kernel,
            stride: [1, 1, 1],
            padding: [0, 0, 0],
            output_padding: [0, 0, 0],
            groups: 1,
            bound: None,
        };
        assert(c.stride@ =~= seq![1usize, 1usize, 1usize]);
        assert(c.padding@ =~= seq![0usize, 0usize, 0usize]);
        assert(c.output_padding@ =~= seq![0usize, 0usize, 0usize]);
        c
    }

    /// Set stride in the order of the supplied spatial axes.
    pub fn stride(self, stride: [usize; 3]) -> (c: Self)
        ensures
            c@ == (TransposedView { conv: ConvolutionView { stride: stride@, ..self@.conv }, ..self@ }),
    {
        ConvTranspose3d { stride, ..self }
    }

    /// Set symmetric padding, removed from both ends of each expanded spatial axis.
    pub fn padding(self, padding: [usize; 3]) -> (c: Self)
        ensures
            c@ == (TransposedView { conv: ConvolutionView { padding: padding@, ..self@.conv }, ..self@ }),
    {
        ConvTranspose3d { padding, ..self }
    }

    /// Set the extra extent added to one side of each spatial axis; must be below the stride.
    pub fn output_padding(self, output_padding: [usize; 3]) -> (c: Self)
        ensures
            c@ == (TransposedView { output_padding: output_padding@, ..self@ }),
    {
        ConvTranspose3d { output_padding, ..self }
    }

    /// Partition input and output channels into independent convolution groups.
    pub fn groups(self, groups: usize) -> (c: Self)
        ensures
            c@ == (TransposedView { conv: ConvolutionView { groups, ..self@.conv }, ..self@ }),
    {
        ConvTranspose3d { groups, ..self }
    }

    /// The output shape and group geometry for `input`, checked against the recorded binding;
    /// each spatial extent present in `input` must be positive.
    pub fn geometry(&self, input: &Shape) -> (r: Result<ConvolutionGeometry, Error>)
        requires
            spatial_extents_positive(input@, self@.conv.spatial),
        ensures
            transposed_outcome(
                input@,
                self@.conv.input,
                self@.conv.output,
                self@.conv.spatial,
                self@.conv.kernel,
                self@.conv.stride,
                self@.conv.padding,
                self@.output_padding,
                self@.conv.groups,
                self@.conv.bound,
            ) matches Ok(g) ==> r is Ok && r->Ok_0.view_tuple() == g,
            transposed_outcome(
                input@,
                self@.conv.input,
                self@.conv.output,
                self@.conv.spatial,
                self@.conv.kernel,
                self@.conv.stride,
                self@.conv.padding,
                self@.output_padding,
                self@.conv.groups,
                self@.conv.bound,
            ) matches Err(m) ==> r is Err && r->Err_0@ == m,
    {
        transposed_geometry(
            input,
            self.input,
            self.output,
            self.spatial.as_slice(),
            self.kernel.as_slice(),
            self.stride.as_slice(),
            self.padding.as_slice(),
            self.output_padding.as_slice(),
            self.groups,
            self.bound,
        )
    }

    /// The output shape for `input`; see [`ConvTranspose3d::geometry`].
    pub fn output_shape(&self, input: &Shape) -> (r: Result<Shape, Error>)
        requires
            spatial_extents_positive(input@, self@.conv.spatial),
        ensures
            transposed_outcome(
                input@,
                self@.conv.input,
                self@.conv.output,
                self@.conv.spatial,
                self@.conv.kernel,
                self@.conv.stride,
                self@.conv.padding,
                self@.output_padding,
                self@.conv.groups,
                self@.conv.bound,
            ) matches Ok(g) ==> r is Ok && r->Ok_0@ == g.0,
            transposed_outcome(
                input@,
                self@.conv.input,
                self@.conv.output,
                self@.conv.spatial,
                self@.conv.kernel,
                self@.conv.stride,
                self@.conv.padding,
                self@.output_padding,
                self@.conv.groups,
                self@.conv.bound,
            ) matches Err(m) ==> r is Err && r->Err_0@ == m,
    {
        let g = self.geometry(input)?;
        Ok(g.shape)
    }

    /// Record that parameters were built for `geometry`; later geometry must agree with it.
    pub fn bind(&mut self, geometry: &ConvolutionGeometry)
        ensures
            final(self)@ == (TransposedView {
                conv: ConvolutionView {
                    bound: Some(binding_of(geometry.view_tuple(), old(self)@.conv.groups)),
                    ..old(self)@.conv
                },
                ..old(self)@
            }),
    {
        self.bound = Some(
            ConvolutionBinding {
                input_channels: geometry.channels,
                groups: self.groups,
                patch: geometry.patch,
                output_in_group: geometry.output_in_group,
            },
        );
    }
}

} // verus!

verus! {

/// The image layout a fold rebuilds: every dimension of `v` other than the channel and
/// spatial axes, in order, then the channel axis, then the spatial axes.
pub open spec fn channels_last(v: Seq<DimView>, c: Seq<char>, sp: Seq<Seq<char>>) -> Seq<DimView> {
    geometry::rewrite(v, geometry::drop_names(seq![c] + sp)).push((c, axis::axis_extent(v, c))).push(
        (sp[0], axis::axis_extent(v, sp[0])),
    ).push((sp[1], axis::axis_extent(v, sp[1])))
}

/// Every dimension of `ev` is in `u` at the same extent: nothing mismatches.
proof fn lemma_no_mismatch(u: Seq<DimView>, ev: Seq<DimView>)
    requires
        forall|k: int|
            0 <= k < ev.len() ==> axis::has_axis(u, #[trigger] ev[k].0) && axis::axis_extent(
                u,
                ev[k].0,
            ) == ev[k].1,
    ensures
        first_extent_mismatch(u, ev) is None,
    decreases ev.len(),
{
    if ev.len() > 0 {
        let dl = ev.drop_last();
        assert forall|k: int| 0 <= k < dl.len() implies axis::has_axis(u, #[trigger] dl[k].0)
            && axis::axis_extent(u, dl[k].0) == dl[k].1 by {
            assert(dl[k] == ev[k]);
        }
        lemma_no_mismatch(u, dl);
        assert(ev.last() == ev[ev.len() - 1]);
        assert(axis::has_axis(u, ev[ev.len() - 1].0));
    }
}

/// Folding the patches of an image, with the unfold's own channel, spatial and patch axes,
/// kernel, stride and padding and the image's spatial extents as the output size, rebuilds the
/// image's shape with the channel and spatial axes moved last, and the same patch extent. A
/// channel axis of extent zero is the exception: its patches have no extent to fold.
pub proof fn lemma_fold_undoes_unfold(
    name: Seq<char>,
    v: Seq<DimView>,
    c: Seq<char>,
    sp: Seq<Seq<char>>,
    pa: Seq<char>,
    k: Seq<usize>,
    s: Seq<usize>,
    p: Seq<usize>,
)
    requires
        axis::valid_dims(v),
        sp.len() == 2 && k.len() == 2 && s.len() == 2 && p.len() == 2,
        unfold_outcome(name, v, c, sp, pa, k, s, p) is Ok,
        axis::axis_extent(v, c) > 0,
    ensures
        fold_outcome(
            unfold_outcome(name, v, c, sp, pa, k, s, p)->Ok_0.0,
            c,
            sp,
            seq![axis::axis_extent(v, sp[0]), axis::axis_extent(v, sp[1])],
            pa,
            k,
            s,
            p,
        ) == Ok::<(Seq<DimView>, usize), Seq<char>>(
            (channels_last(v, c, sp), unfold_outcome(name, v, c, sp, pa, k, s, p)->Ok_0.1),
        ),
{
    let ec = axis::axis_extent(v, c);
    let e = geometry::extents_of(v, sp)->Ok_0;
    let w = geometry::window_counts(e, k, s, p, WindowRule::Unfold)->Ok_0;
    let kv = geometry::product(k);
    let pe = (ec * kv) as usize;
    let r = unfold_rule(c, sp, pa, pe, w);
    let u = geometry::rewrite(v, r);
    assert(unfold_outcome(name, v, c, sp, pa, k, s, p) == Ok::<(Seq<DimView>, usize), Seq<char>>(
        (u, pe),
    ));
    assert(axis::valid_dims(u));
    // spatial extents and window counts
    lemma_extents_entry(v, sp, 0);
    lemma_extents_entry(v, sp, 1);
    let e0 = e[0];
    let e1 = e[1];
    lemma_window_counts_len(e, k, s, p);
    let w0 = w[0];
    let w1 = w[1];
    geometry::lemma_slot_unique(sp, sp[0], 0);
    geometry::lemma_slot_unique(sp, sp[1], 1);
    assert forall|y: Seq<char>| #[trigger] sp.contains(y) <==> y == sp[0] || y == sp[1] by {
        geometry::lemma_contains_listed(sp, y);
    }
    let csp = seq![c] + sp;
    assert(csp =~= seq![c, sp[0], sp[1]]);
    assert forall|y: Seq<char>| #[trigger] csp.contains(y) <==> y == c || y == sp[0] || y == sp[1] by {
        geometry::lemma_contains_listed(csp, y);
    }
    let pasp = seq![pa, sp[0], sp[1]];
    assert forall|y: Seq<char>| #[trigger] pasp.contains(y) <==> y == pa || y == sp[0] || y == sp[1] by {
        geometry::lemma_contains_listed(pasp, y);
    }
    // the unfold output, position by position
    geometry::lemma_rewrite_total(v, r);
    let pc = axis::axis_position(v, c);
    let p0 = axis::axis_position(v, sp[0]);
    let p1 = axis::axis_position(v, sp[1]);
    axis::lemma_axis_position_unique(v, c, pc);
    axis::lemma_axis_position_unique(v, sp[0], p0);
    axis::lemma_axis_position_unique(v, sp[1], p1);
    assert(u[pc] == (pa, pe));
    assert(u[p0] == (sp[0], w0));
    assert(u[p1] == (sp[1], w1));
    axis::lemma_axis_position_unique(u, pa, pc);
    axis::lemma_axis_position_unique(u, sp[0], p0);
    axis::lemma_axis_position_unique(u, sp[1], p1);
    assert(pa != sp[0] && pa != sp[1]);
    // every other dimension passes through unchanged and is not named `pa`
    assert forall|i: int| 0 <= i < v.len() && !csp.contains(#[trigger] v[i].0) implies u[i] == v[i]
        && v[i].0 != pa by {
        assert(u[i] == v[i]);
        if v[i].0 == pa {
            assert(u[i].0 == u[pc].0);
        }
    }
    // what the fold keeps of the unfold output is what remains of the image
    let others = geometry::rewrite(v, geometry::drop_names(csp));
    let keep = fold_keep(pa, sp);
    assert forall|i: int| 0 <= i < v.len() implies #[trigger] geometry::drop_names(csp)(v[i]) == (
    match r(v[i]) {
        Some(d) => keep(d),
        None => None,
    }) by {
        if v[i].0 == c {
        } else if sp.contains(v[i].0) {
        } else {
            assert(!csp.contains(v[i].0));
            assert(u[i] == v[i] && v[i].0 != pa);
        }
    }
    geometry::lemma_rewrite_compose(v, r, keep, geometry::drop_names(csp));
    assert(geometry::rewrite(u, keep) == others);
    // the remaining dimensions: distinct, none of the moved axes, each in `u` as in `v`
    let dr = geometry::drop_names(csp);
    assert forall|i: int| 0 <= i < v.len() implies (#[trigger] dr(v[i])) is None || dr(v[i]) == Some(
        v[i],
    ) by {}
    geometry::lemma_rewrite_distinct(v, dr);
    let q = |d: DimView|
        !csp.contains(d.0) && d.0 != pa && axis::has_axis(u, d.0) && axis::axis_extent(u, d.0)
            == d.1;
    assert forall|i: int| 0 <= i < v.len() && (#[trigger] dr(v[i])) is Some implies q(v[i]) by {
        assert(u[i] == v[i] && v[i].0 != pa);
        axis::lemma_axis_position_unique(u, v[i].0, i);
    }
    geometry::lemma_rewrite_keeps(v, dr, q);
    // element counts
    let ce = axis::element_count(others);
    geometry::lemma_count_without3(v, csp);
    assert(axis::element_count(v) == ce * (ec as nat) * (e0 as nat) * (e1 as nat));
    assert(geometry::rewrite(u, geometry::drop_names(pasp)) == others) by {
        assert forall|i: int| 0 <= i < u.len() implies #[trigger] geometry::drop_names(pasp)(u[i])
            == keep(u[i]) by {}
        geometry::lemma_rewrite_congruent(u, geometry::drop_names(pasp), keep);
    }
    geometry::lemma_count_without3(u, pasp);
    assert(axis::element_count(u) == ce * (pe as nat) * (w0 as nat) * (w1 as nat));
    // kernel volume and channel extent
    geometry::lemma_product_pair(k);
    assert(k[0] != 0 && k[1] != 0);
    assert(kv > 0) by (nonlinear_arith)
        requires
            kv == (k[0] as nat) * (k[1] as nat),
            k[0] > 0,
            k[1] > 0,
    ;
    assert(pe > 0 && (pe as nat) % kv == 0 && (pe as nat) / kv == ec) by (nonlinear_arith)
        requires
            pe == ec * kv,
            kv > 0,
            ec > 0,
    ;
    // the rebuilt image
    let img = seq![e0, e1];
    let image = others.push((c, ec)).push((sp[0], e0)).push((sp[1], e1));
    assert(image == channels_last(v, c, sp));
    assert(axis::distinct_axes(image)) by {
        assert forall|a: int, b: int| 0 <= a < b < image.len() implies image[a].0 != image[b].0 by {
            if b < others.len() {
                assert(image[a] == others[a] && image[b] == others[b]);
            } else if a < others.len() {
                assert(image[a] == others[a]);
                assert(q(others[a]));
            }
        }
    }
    assert(axis::element_count(image) == ce * (ec as nat) * (e0 as nat) * (e1 as nat)) by {
        let i1 = others.push((c, ec));
        let i2 = i1.push((sp[0], e0));
        assert(image.drop_last() =~= i2);
        assert(i2.drop_last() =~= i1);
        assert(i1.drop_last() =~= others);
        assert(axis::element_count(i1) == ce * (ec as nat));
        assert(axis::element_count(i2) == ce * (ec as nat) * (e0 as nat));
    }
    assert(axis::shape_outcome(image) == Ok::<Seq<DimView>, Seq<char>>(image));
    // the patches of the rebuilt image
    axis::lemma_axis_position_unique(image, c, others.len() as int);
    axis::lemma_axis_position_unique(image, sp[0], others.len() as int + 1);
    axis::lemma_axis_position_unique(image, sp[1], others.len() as int + 2);
    assert(geometry::extents_of(image, sp) == Ok::<Seq<usize>, Seq<char>>(e)) by {
        let sp1 = sp.drop_last();
        assert(sp1.drop_last() =~= Seq::<Seq<char>>::empty());
        assert(sp1.last() == sp[0]);
        assert(geometry::extents_of(image, sp1.drop_last()) == Ok::<Seq<usize>, Seq<char>>(
            Seq::empty(),
        ));
        assert(Seq::<usize>::empty().push(e0) =~= seq![e0]);
        assert(geometry::extents_of(image, sp1) == Ok::<Seq<usize>, Seq<char>>(seq![e0]));
        assert(seq![e0].push(e1) =~= seq![e0, e1]);
        assert(e =~= seq![e0, e1]);
    }
    let r2 = unfold_rule(c, sp, pa, pe, w);
    assert forall|i: int| 0 <= i < others.len() implies #[trigger] r2(others[i]) == Some(others[i]) by {
        assert(q(others[i]));
    }
    geometry::lemma_rewrite_identity(others, r2);
    let ev = others.push((pa, pe)).push((sp[0], w0)).push((sp[1], w1));
    assert(geometry::rewrite(image, r2) == ev) by {
        let i1 = others.push((c, ec));
        let i2 = i1.push((sp[0], e0));
        assert(image.drop_last() =~= i2);
        assert(i2.drop_last() =~= i1);
        assert(i1.drop_last() =~= others);
        assert(sp[0] != c && sp[1] != c);
        assert(r2((c, ec)) == Some((pa, pe)));
        assert(r2((sp[0], e0)) == Some((sp[0], w0)));
        assert(r2((sp[1], e1)) == Some((sp[1], w1)));
        assert(geometry::rewrite(i1, r2) == geometry::rewrite(others, r2).push((pa, pe)));
        assert(geometry::rewrite(i2, r2) == geometry::rewrite(i1, r2).push((sp[0], w0)));
        assert(geometry::rewrite(image, r2) == geometry::rewrite(i2, r2).push((sp[1], w1)));
    }
    assert(axis::distinct_axes(ev)) by {
        assert forall|a: int, b: int| 0 <= a < b < ev.len() implies ev[a].0 != ev[b].0 by {
            if b < others.len() {
                assert(ev[a] == others[a] && ev[b] == others[b]);
            } else if a < others.len() {
                assert(ev[a] == others[a]);
                assert(q(others[a]));
            }
        }
    }
    assert(axis::element_count(ev) == ce * (pe as nat) * (w0 as nat) * (w1 as nat)) by {
        let i1 = others.push((pa, pe));
        let i2 = i1.push((sp[0], w0));
        assert(ev.drop_last() =~= i2);
        assert(i2.drop_last() =~= i1);
        assert(i1.drop_last() =~= others);
        assert(axis::element_count(i1) == ce * (pe as nat));
        assert(axis::element_count(i2) == ce * (pe as nat) * (w0 as nat));
    }
    assert(axis::shape_outcome(ev) == Ok::<Seq<DimView>, Seq<char>>(ev));
    assert(axis::axis_extent(image, c) == ec);
    assert(unfold_outcome("Fold"@, image, c, sp, pa, k, s, p) == Ok::<
        (Seq<DimView>, usize),
        Seq<char>,
    >((ev, pe)));
    // every patch dimension is in `u` at the same extent
    assert forall|j: int| 0 <= j < ev.len() implies axis::has_axis(u, #[trigger] ev[j].0)
        && axis::axis_extent(u, ev[j].0) == ev[j].1 by {
        if j < others.len() {
            assert(ev[j] == others[j]);
            assert(q(others[j]));
        }
    }
    lemma_no_mismatch(u, ev);
    assert(geometry::rewrite(u, fold_keep(pa, sp)).push((c, ((pe as nat) / kv) as usize)).push(
        (sp[0], img[0]),
    ).push((sp[1], img[1])) == image);
}

/// The window counts, when they exist, have one entry per axis.
proof fn lemma_window_counts_len(e: Seq<usize>, k: Seq<usize>, s: Seq<usize>, p: Seq<usize>)
    ensures
        geometry::window_counts(e, k, s, p, WindowRule::Unfold) matches Ok(w) ==> w.len() == e.len(),
    decreases e.len(),
{
    if e.len() > 0 {
        lemma_window_counts_len(e.drop_last(), k, s, p);
    }
}

} // verus!

verus! {

/// How a grouped patch extraction rewrites one dimension: the channel axis becomes the patch
/// dimension (or, with a group dimension, is dropped for both to be appended), each spatial
/// axis takes its window count, and the rest stay.
pub open spec fn grouped_rule(
    c: Seq<char>,
    sp: Seq<Seq<char>>,
    w: Seq<usize>,
    group: Option<DimView>,
    patch: DimView,
) -> spec_fn(DimView) -> Option<DimView> {
    |d: DimView|
        if d.0 == c {
            if group is None {
                Some(patch)
            } else {
                None
            }
        } else if sp.contains(d.0) {
            Some((d.0, w[geometry::slot(sp, d.0)]))
        } else {
            Some(d)
        }
}

/// The name a patch extraction over `n` spatial axes reports: `unfold2d` or `unfold3d`.
pub open spec fn unfold_name(n: nat) -> Seq<char> {
    "unfold"@ + crate::text::decimal_text(n) + "d"@
}

/// Grouped patch extraction over `v` with an explicit patch dimension: the output dimensions,
/// or the first rejection.
pub open spec fn grouped_unfold_outcome(
    v: Seq<DimView>,
    c: Seq<char>,
    sp: Seq<Seq<char>>,
    group: Option<DimView>,
    patch: DimView,
    k: Seq<usize>,
    s: Seq<usize>,
    p: Seq<usize>,
) -> Result<Seq<DimView>, Seq<char>> {
    let name = unfold_name(sp.len());
    if !(sp.len() == 2 || sp.len() == 3) {
        Err("Axis unfold supports exactly two or three spatial axes"@)
    } else if !geometry::distinct_and_avoiding(sp, c) {
        Err(name + " requires distinct channel and spatial axes"@)
    } else if geometry::has_zero(k) {
        Err(name + " kernel extents must be positive"@)
    } else if geometry::has_zero(s) {
        Err(name + " stride extents must be positive"@)
    } else if !axis::has_axis(v, c) {
        Err(axis::missing_axis_message(c))
    } else {
        match geometry::extents_of(v, sp) {
            Err(m) => Err(m),
            Ok(e) => {
                let ch = axis::axis_extent(v, c);
                let g = match group {
                    Some(d) => d.1,
                    None => 1usize,
                };
                if g == 0 {
                    Err(name + " groups must be positive"@)
                } else if ch % g != 0 {
                    Err(name + " channels must be divisible by groups"@)
                } else {
                    match geometry::window_counts(e, k, s, p, WindowRule::Unfold) {
                        Err(m) => Err(name + m),
                        Ok(w) => {
                            let expected = ((ch / g) as nat) * geometry::product(k);
                            if expected > usize::MAX {
                                Err(name + " patch extent overflow"@)
                            } else if patch.1 != expected {
                                Err(
                                    name
                                        + " patch extent must equal channels per group * kernel volume"@,
                                )
                            } else {
                                let body = geometry::rewrite(v, grouped_rule(c, sp, w, group, patch));
                                axis::shape_outcome(
                                    match group {
                                        Some(gd) => body.push(gd).push(patch),
                                        None => body,
                                    },
                                )
                            }
                        },
                    }
                }
            },
        }
    }
}

/// The output shape of a grouped patch extraction with an explicit patch dimension; with a
/// group dimension, the channel axis is split into `group` and `patch`, appended last.
pub fn unfold_grouped_geometry(
    input: &Shape,
    channels: Axis,
    spatial: &[Axis],
    group: Option<Dim>,
    patch: Dim,
    kernel: &[usize],
    stride: &[usize],
    padding: &[usize],
) -> (r: Result<Shape, Error>)
    requires
        kernel@.len() == spatial@.len(),
        stride@.len() == spatial@.len(),
        padding@.len() == spatial@.len(),
    ensures
        grouped_unfold_outcome(
            input@,
            channels@,
            geometry::names(spatial@),
            match group {
                Some(g) => Some(g@),
                None => None,
            },
            patch@,
            kernel@,
            stride@,
            padding@,
        ) matches Ok(d) ==> r is Ok && r->Ok_0@ == d,
        grouped_unfold_outcome(
            input@,
            channels@,
            geometry::names(spatial@),
            match group {
                Some(g) => Some(g@),
                None => None,
            },
            patch@,
            kernel@,
            stride@,
            padding@,
        ) matches Err(m) ==> r is Err && r->Err_0@ == m,
{
    let ghost sp = geometry::names(spatial@);
    let ghost gv: Option<DimView> = match group {
        Some(g) => Some(g@),
        None => None,
    };
    let n = spatial.len();
    if !(n == 2 || n == 3) {
        proof {
            reveal_strlit("Axis unfold supports exactly two or three spatial axes");
        }
        return Err(
            Error::new(String::from_str("Axis unfold supports exactly two or three spatial axes")),
        );
    }
    let mut name = String::from_str("unfold");
    crate::text::push_decimal(&mut name, n);
    name.append("d");
    assert(name@ == unfold_name(n as nat));
    let name = name.as_str();
    if !geometry::check_distinct(spatial, Some(channels)) {
        return Err(named(name, " requires distinct channel and spatial axes"));
    }
    if geometry::any_zero(kernel) {
        return Err(named(name, " kernel extents must be positive"));
    }
    if geometry::any_zero(stride) {
        return Err(named(name, " stride extents must be positive"));
    }
    let ch = input.extent(channels)?;
    let input_spatial = geometry::extents(input, spatial)?;
    let groups = match group {
        Some(d) => d.extent,
        None => 1,
    };
    if groups == 0 {
        return Err(named(name, " groups must be positive"));
    }
    if ch % groups != 0 {
        return Err(named(name, " channels must be divisible by groups"));
    }
    let windows = geometry::counts(
        name,
        &input_spatial,
        kernel,
        stride,
        padding,
        WindowRule::Unfold,
    )?;
    let expected = match geometry::scaled_product(ch / groups, kernel) {
        Some(pe) => pe,
        None => {
            return Err(named(name, " patch extent overflow"));
        },
    };
    if patch.extent != expected {
        return Err(named(name, " patch extent must equal channels per group * kernel volume"));
    }
    let ghost f = grouped_rule(channels@, sp, windows@, gv, patch@);
    let ghost v = input@;
    let source = input.dims();
    let len = source.len();
    let mut dims: Vec<Dim> = Vec::new();
    let mut i: usize = 0;
    assert(v.take(0) =~= Seq::<DimView>::empty());
    while i < len
        invariant
            len == v.len(),
            v == input@,
            axis::dims_view(source@) == v,
            geometry::distinct_and_avoiding(sp, channels@),
            sp == geometry::names(spatial@),
            windows@.len() == spatial@.len(),
            gv == (match group {
                Some(g) => Some(g@),
                None => None,
            }),
            f == grouped_rule(channels@, sp, windows@, gv, patch@),
            i <= len,
            axis::dims_view(dims@) == geometry::rewrite(v.take(i as int), f),
        decreases len - i,
    {
        proof {
            geometry::lemma_rewrite_step(v, f, i as int);
        }
        let d = source[i];
        assert(d@ == v[i as int]);
        if d.axis.same(&channels) {
            if group.is_none() {
                dims.push(patch);
            }
        } else {
            match geometry::find_axis(spatial, d.axis) {
                Some(j) => {
                    proof {
                        assert(sp[j as int] == d.axis@);
                        geometry::lemma_slot_unique(sp, d.axis@, j as int);
                    }
                    dims.push(d.axis.of(windows[j]));
                },
                None => {
                    dims.push(d);
                },
            }
        }
        assert(axis::dims_view(dims@) =~= geometry::rewrite(v.take(i as int + 1), f));
        i = i + 1;
    }
    assert(v.take(len as int) =~= v);
    let ghost body = axis::dims_view(dims@);
    match group {
        Some(g) => {
            dims.push(g);
            dims.push(patch);
            assert(axis::dims_view(dims@) =~= body.push(g@).push(patch@));
        },
        None => {},
    }
    Shape::new(dims)
}

} // verus!
