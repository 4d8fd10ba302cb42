//! Axis naming shared by the reference architectures, the residual blocks of a ResNet, and
//! parameter-path prefixing.
use crate::axis::{Axis, DimView, Shape};
use crate::error::Error;
use crate::geometry;
use crate::model::convolution::{self, Conv2d, ConvolutionView};
use crate::model::module::Module;
use crate::model::normalization::{self, BatchNorm};
use vstd::prelude::*;
use vstd::string::StringExecFns;

verus! {

/// The axes a ResNet's images use.
#[derive(Clone, Copy, Debug)]
pub struct ResNetAxes {
    pub channel: Axis,
    pub height: Axis,
    pub width: Axis,
}

/// The axes a VGG network's images use.
#[derive(Clone, Copy, Debug)]
pub struct VggAxes {
    pub channel: Axis,
    pub height: Axis,
    pub width: Axis,
}

/// Qualify each parameter path with `prefix.`, keeping the values and their order.
pub fn prefixed<T>(prefix: &str, pairs: Vec<(String, T)>) -> (r: Vec<(String, T)>)
    ensures
        r@.len() == pairs@.len(),
        forall|i: int|
            0 <= i < pairs@.len() ==> (#[trigger] r@[i]).0@ == prefix@ + "."@ + pairs@[i].0@
                && r@[i].1 == pairs@[i].1,
{
    let ghost given = pairs@;
    let mut rest = pairs;
    let mut out: Vec<(String, T)> = Vec::new();
    while rest.len() > 0
        invariant
            out@.len() + rest@.len() == given.len(),
            rest@ == given.skip(out@.len() as int),
            forall|i: int|
                0 <= i < out@.len() ==> (#[trigger] out@[i]).0@ == prefix@ + "."@ + given[i].0@
                    && out@[i].1 == given[i].1,
        decreases rest@.len(),
    {
        let ghost before = rest@;
        let (name, value) = rest.remove(0);
        assert(before[0] == given[out@.len() as int]);
        let mut path = String::from_str(prefix);
        path.append(".");
        path.append(name.as_str());
        out.push((path, value));
        assert(rest@ =~= given.skip(out@.len() as int));
    }
    out
}

/// How many output channels a bottleneck block has per channel of its width.
pub const BOTTLENECK_EXPANSION: usize = 4;

/// A square ResNet convolution over the channel and both spatial axes of `axes`: `out`
/// output channels, a `k` by `k` kernel, stride `s` and padding `p` on both axes.
pub open spec fn block_conv(axes: ResNetAxes, out: usize, k: usize, s: usize, p: usize) -> ConvolutionView {
    ConvolutionView {
        input: axes.channel@,
        output: (axes.channel@, out),
        spatial: geometry::names(seq![axes.height, axes.width]),
        kernel: seq![k, k],
        stride: seq![s, s],
        padding: seq![p, p],
        groups: 1,
        bound: None,
    }
}

/// A fresh batch normalization of the channel axis, as every ResNet block uses.
pub open spec fn fresh_batch_norm(b: BatchNorm, axes: ResNetAxes) -> bool {
    b.feature_spec() == axes.channel@ && b.affine_spec() && b.tracks_running_stats()
        && b.bound_spec() is None
}

/// The ResNet convolution `block_conv(axes, out, k, s, p)`.
fn square_conv(axes: ResNetAxes, out: usize, k: usize, s: usize, p: usize) -> (c: Conv2d)
    ensures
        c@ == block_conv(axes, out, k, s, p),
{
    let c = Conv2d::new(axes.channel, axes.channel.of(out), [axes.height, axes.width], [k, k])
        .stride([s, s])
        .padding([p, p]);
    assert(geometry::names(seq![axes.height, axes.width]) =~= geometry::names(
        [axes.height, axes.width]@,
    ));
    assert([k, k]@ =~= seq![k, k]);
    assert([s, s]@ =~= seq![s, s]);
    assert([p, p]@ =~= seq![p, p]);
    c
}

/// Applying `m` to a result so far, passing a rejection on.
pub open spec fn then_apply<M: Module>(r: Result<Seq<DimView>, Seq<char>>, m: M) -> Result<
    Seq<DimView>,
    Seq<char>,
> {
    match r {
        Err(e) => Err(e),
        Ok(v) => m.shape_rule(v),
    }
}

/// The output shape a ResNet convolution `c` gives an input shaped `v`.
pub open spec fn conv_rule(v: Seq<DimView>, c: ConvolutionView) -> Result<Seq<DimView>, Seq<char>> {
    match convolution::convolution_outcome(
        v,
        c.input,
        c.output,
        c.spatial,
        c.kernel,
        c.stride,
        c.padding,
        c.groups,
        c.bound,
    ) {
        Ok(g) => Ok(g.0),
        Err(m) => Err(m),
    }
}

/// A convolution `c` followed by a fresh batch normalization of the channel axis.
pub open spec fn conv_norm(r: Result<Seq<DimView>, Seq<char>>, axes: ResNetAxes, c: ConvolutionView) -> Result<
    Seq<DimView>,
    Seq<char>,
> {
    match r {
        Err(e) => Err(e),
        Ok(v) => match conv_rule(v, c) {
            Err(e) => Err(e),
            Ok(w) => normalization::batch_norm_outcome(w, axes.channel@, true, true, None),
        },
    }
}

/// The main path of a basic block to `out` channels with stride `stride`.
pub open spec fn basic_block_rule(axes: ResNetAxes, out: usize, stride: usize, v: Seq<DimView>) -> Result<
    Seq<DimView>,
    Seq<char>,
> {
    conv_norm(
        conv_norm(Ok(v), axes, block_conv(axes, out, 3, stride, 1)),
        axes,
        block_conv(axes, out, 3, 1, 1),
    )
}

/// The main path of a bottleneck block of width `width` with stride `stride`.
pub open spec fn bottleneck_rule(axes: ResNetAxes, width: usize, stride: usize, v: Seq<DimView>) -> Result<
    Seq<DimView>,
    Seq<char>,
> {
    conv_norm(
        conv_norm(
            conv_norm(Ok(v), axes, block_conv(axes, width, 1, 1, 0)),
            axes,
            block_conv(axes, width, 3, stride, 1),
        ),
        axes,
        block_conv(axes, (width * BOTTLENECK_EXPANSION) as usize, 1, 1, 0),
    )
}

/// Two 3x3 convolutions, each followed by batch normalization, with a 1x1 projection
/// shortcut when the block changes the channel count or the stride: ResNet-34's block. Its
/// output shape is that of the main path.
pub struct BasicBlock {
    conv1: Conv2d,
    bn1: BatchNorm,
    conv2: Conv2d,
    bn2: BatchNorm,
    downsample: Option<(Conv2d, BatchNorm)>,
}

impl BasicBlock {
    pub closed spec fn conv1_spec(&self) -> ConvolutionView {
        self.conv1@
    }

    pub closed spec fn conv2_spec(&self) -> ConvolutionView {
        self.conv2@
    }

    pub closed spec fn norms_fresh(&self, axes: ResNetAxes) -> bool {
        fresh_batch_norm(self.bn1, axes) && fresh_batch_norm(self.bn2, axes) && match self.downsample {
            Some((_, b)) => fresh_batch_norm(b, axes),
            None => true,
        }
    }

    /// The shortcut projection's convolution, when there is one.
    pub closed spec fn downsample_spec(&self) -> Option<ConvolutionView> {
        match self.downsample {
            Some((c, _)) => Some(c@),
            None => None,
        }
    }

    /// A block from `in_channels` to `out_channels` channels whose first convolution has
    /// stride `stride`.
    pub fn new(axes: ResNetAxes, in_channels: usize, out_channels: usize, stride: usize) -> (b: Self)
        ensures
            b.conv1_spec() == block_conv(axes, out_channels, 3, stride, 1),
            b.conv2_spec() == block_conv(axes, out_channels, 3, 1, 1),
            b.downsample_spec() == (if stride != 1 || in_channels != out_channels {
                Some(block_conv(axes, out_channels, 1, stride, 0))
            } else {
                None
            }),
            b.norms_fresh(axes),
            forall|v: Seq<DimView>| #[trigger] b.shape_rule(v) == basic_block_rule(axes, out_channels, stride, v),
    {
        let conv1 = square_conv(axes, out_channels, 3, stride, 1);
        let bn1 = BatchNorm::new(axes.channel);
        let conv2 = square_conv(axes, out_channels, 3, 1, 1);
        let bn2 = BatchNorm::new(axes.channel);
        let downsample = if stride != 1 || in_channels != out_channels {
            Some((square_conv(axes, out_channels, 1, stride, 0), BatchNorm::new(axes.channel)))
        } else {
            None
        };
        BasicBlock { conv1, bn1, conv2, bn2, downsample }
    }
}

impl Module for BasicBlock {
    open spec fn accepts(&self, v: Seq<DimView>) -> bool {
        true
    }

    closed spec fn shape_rule(&self, v: Seq<DimView>) -> Result<Seq<DimView>, Seq<char>> {
        then_apply(
            then_apply(then_apply(self.conv1.shape_rule(v), self.bn1), self.conv2),
            self.bn2,
        )
    }

    fn output_shape(&self, input: &Shape) -> (r: Result<Shape, Error>) {
        let shape = Module::output_shape(&self.conv1, input)?;
        let shape = Module::output_shape(&self.bn1, &shape)?;
        let shape = Module::output_shape(&self.conv2, &shape)?;
        Module::output_shape(&self.bn2, &shape)
    }
}

/// A 1x1 reduction to `width` channels, a 3x3 convolution with the block's stride, and a 1x1
/// expansion to `width * 4` channels, each followed by batch normalization, with a 1x1
/// projection shortcut when the block changes the channel count or the stride: ResNet-50's
/// block. Its output shape is that of the main path.
pub struct Bottleneck {
    conv1: Conv2d,
    bn1: BatchNorm,
    conv2: Conv2d,
    bn2: BatchNorm,
    conv3: Conv2d,
    bn3: BatchNorm,
    downsample: Option<(Conv2d, BatchNorm)>,
}

impl Bottleneck {
    pub closed spec fn conv1_spec(&self) -> ConvolutionView {
        self.conv1@
    }

    pub closed spec fn conv2_spec(&self) -> ConvolutionView {
        self.conv2@
    }

    pub closed spec fn conv3_spec(&self) -> ConvolutionView {
        self.conv3@
    }

    pub closed spec fn norms_fresh(&self, axes: ResNetAxes) -> bool {
        fresh_batch_norm(self.bn1, axes) && fresh_batch_norm(self.bn2, axes) && fresh_batch_norm(
            self.bn3,
            axes,
        ) && match self.downsample {
            Some((_, b)) => fresh_batch_norm(b, axes),
            None => true,
        }
    }

    /// The shortcut projection's convolution, when there is one.
    pub closed spec fn downsample_spec(&self) -> Option<ConvolutionView> {
        match self.downsample {
            Some((c, _)) => Some(c@),
            None => None,
        }
    }

    /// A block from `in_channels` channels through `width` to `width * 4`, whose 3x3
    /// convolution has stride `stride`.
    pub fn new(axes: ResNetAxes, in_channels: usize, width: usize, stride: usize) -> (b: Self)
        requires
            width * BOTTLENECK_EXPANSION <= usize::MAX,
        ensures
            b.conv1_spec() == block_conv(axes, width, 1, 1, 0),
            b.conv2_spec() == block_conv(axes, width, 3, stride, 1),
            b.conv3_spec() == block_conv(axes, (width * BOTTLENECK_EXPANSION) as usize, 1, 1, 0),
            b.downsample_spec() == (if stride != 1 || in_channels != width * BOTTLENECK_EXPANSION {
                Some(block_conv(axes, (width * BOTTLENECK_EXPANSION) as usize, 1, stride, 0))
            } else {
                None
            }),
            b.norms_fresh(axes),
            forall|v: Seq<DimView>| #[trigger] b.shape_rule(v) == bottleneck_rule(axes, width, stride, v),
    {
        let out_channels = width * BOTTLENECK_EXPANSION;
        let conv1 = square_conv(axes, width, 1, 1, 0);
        let bn1 = BatchNorm::new(axes.channel);
        let conv2 = square_conv(axes, width, 3, stride, 1);
        let bn2 = BatchNorm::new(axes.channel);
        let conv3 = square_conv(axes, out_channels, 1, 1, 0);
        let bn3 = BatchNorm::new(axes.channel);
        let downsample = if stride != 1 || in_channels != out_channels {
            Some((square_conv(axes, out_channels, 1, stride, 0), BatchNorm::new(axes.channel)))
        } else {
            None
        };
        Bottleneck { conv1, bn1, conv2, bn2, conv3, bn3, downsample }
    }
}

impl Module for Bottleneck {
    open spec fn accepts(&self, v: Seq<DimView>) -> bool {
        true
    }

    closed spec fn shape_rule(&self, v: Seq<DimView>) -> Result<Seq<DimView>, Seq<char>> {
        then_apply(
            then_apply(
                then_apply(
                    then_apply(then_apply(self.conv1.shape_rule(v), self.bn1), self.conv2),
                    self.bn2,
                ),
                self.conv3,
            ),
            self.bn3,
        )
    }

    fn output_shape(&self, input: &Shape) -> (r: Result<Shape, Error>) {
        let shape = Module::output_shape(&self.conv1, input)?;
        let shape = Module::output_shape(&self.bn1, &shape)?;
        let shape = Module::output_shape(&self.conv2, &shape)?;
        let shape = Module::output_shape(&self.bn2, &shape)?;
        let shape = Module::output_shape(&self.conv3, &shape)?;
        Module::output_shape(&self.bn3, &shape)
    }
}

} // verus!
