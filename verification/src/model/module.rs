//! The shape side of the module interface: what a layer accepts and the shape it produces,
//! and `Sequential`, which threads an input through its layers in order.
use crate::axis::{self, DimView, Shape};
use crate::error::Error;
use crate::geometry;
use crate::model::containers::{ModuleDict, ModuleList, ParameterDict, ParameterList};
use crate::model::convolution::{
    self, Conv2d, Conv3d, ConvTranspose2d, ConvTranspose3d, Fold, Unfold,
};
use crate::model::nn::{
    self, Embedding, ExactGELU, Flatten, Identity, Linear, PopulationLinear, PositionEmbedding,
    ReLU, SiLU, SignStraightThrough, Tanh, Unflatten, GELU,
};
use crate::model::normalization::{
    self, BatchNorm, GroupNorm, InstanceNorm, LayerNorm, LocalResponseNorm, RmsNorm,
};
use crate::model::pooling::{
    self, AdaptiveAvgPool1d, AdaptiveAvgPool2d, AdaptiveAvgPool3d, AdaptiveMaxPool1d,
    AdaptiveMaxPool2d, AdaptiveMaxPool3d, AvgPool2d, AvgPool3d, MaxPool2d, MaxPool3d,
};
use crate::model::recurrent::{self, Gru, GruCell, Lstm, LstmCell, Rnn, RnnCell};
use vstd::prelude::*;
use vstd::string::StringExecFns;

verus! {

/// A layer's shape algebra: the inputs it is defined on, and for each of them the output
/// shape or the rejection.
pub trait Module {
    /// The input shapes on which the output shape is defined.
    spec fn accepts(&self, v: Seq<DimView>) -> bool;

    /// The output shape for an input shaped `v`, or the rejection.
    spec fn shape_rule(&self, v: Seq<DimView>) -> Result<Seq<DimView>, Seq<char>>;

    fn output_shape(&self, input: &Shape) -> (r: Result<Shape, Error>)
        requires
            self.accepts(input@),
        ensures
            self.shape_rule(input@) matches Ok(d) ==> r is Ok && r->Ok_0@ == d,
            self.shape_rule(input@) matches Err(m) ==> r is Err && r->Err_0@ == m,
    ;
}

impl Module for ReLU {
    open spec fn accepts(&self, v: Seq<DimView>) -> bool {
        true
    }

    open spec fn shape_rule(&self, v: Seq<DimView>) -> Result<Seq<DimView>, Seq<char>> {
        Ok(v)
    }

    fn output_shape(&self, input: &Shape) -> (r: Result<Shape, Error>) {
        ReLU::output_shape(self, input)
    }
}

impl Module for GELU {
    open spec fn accepts(&self, v: Seq<DimView>) -> bool {
        true
    }

    open spec fn shape_rule(&self, v: Seq<DimView>) -> Result<Seq<DimView>, Seq<char>> {
        Ok(v)
    }

    fn output_shape(&self, input: &Shape) -> (r: Result<Shape, Error>) {
        GELU::output_shape(self, input)
    }
}

impl Module for ExactGELU {
    open spec fn accepts(&self, v: Seq<DimView>) -> bool {
        true
    }

    open spec fn shape_rule(&self, v: Seq<DimView>) -> Result<Seq<DimView>, Seq<char>> {
        Ok(v)
    }

    fn output_shape(&self, input: &Shape) -> (r: Result<Shape, Error>) {
        ExactGELU::output_shape(self, input)
    }
}

impl Module for SiLU {
    open spec fn accepts(&self, v: Seq<DimView>) -> bool {
        true
    }

    open spec fn shape_rule(&self, v: Seq<DimView>) -> Result<Seq<DimView>, Seq<char>> {
        Ok(v)
    }

    fn output_shape(&self, input: &Shape) -> (r: Result<Shape, Error>) {
        SiLU::output_shape(self, input)
    }
}

impl Module for Tanh {
    open spec fn accepts(&self, v: Seq<DimView>) -> bool {
        true
    }

    open spec fn shape_rule(&self, v: Seq<DimView>) -> Result<Seq<DimView>, Seq<char>> {
        Ok(v)
    }

    fn output_shape(&self, input: &Shape) -> (r: Result<Shape, Error>) {
        Tanh::output_shape(self, input)
    }
}

impl Module for SignStraightThrough {
    open spec fn accepts(&self, v: Seq<DimView>) -> bool {
        true
    }

    open spec fn shape_rule(&self, v: Seq<DimView>) -> Result<Seq<DimView>, Seq<char>> {
        Ok(v)
    }

    fn output_shape(&self, input: &Shape) -> (r: Result<Shape, Error>) {
        SignStraightThrough::output_shape(self, input)
    }
}

impl Module for Identity {
    open spec fn accepts(&self, v: Seq<DimView>) -> bool {
        true
    }

    open spec fn shape_rule(&self, v: Seq<DimView>) -> Result<Seq<DimView>, Seq<char>> {
        Ok(v)
    }

    fn output_shape(&self, input: &Shape) -> (r: Result<Shape, Error>) {
        Identity::output_shape(self, input)
    }
}

impl Module for Flatten {
    open spec fn accepts(&self, v: Seq<DimView>) -> bool {
        true
    }

    open spec fn shape_rule(&self, v: Seq<DimView>) -> Result<Seq<DimView>, Seq<char>> {
        nn::flatten_outcome(v, self.axes_spec(), self.output_spec())
    }

    fn output_shape(&self, input: &Shape) -> (r: Result<Shape, Error>) {
        Flatten::output_shape(self, input)
    }
}

impl Module for Unflatten {
    open spec fn accepts(&self, v: Seq<DimView>) -> bool {
        true
    }

    open spec fn shape_rule(&self, v: Seq<DimView>) -> Result<Seq<DimView>, Seq<char>> {
        nn::unflatten_outcome(v, self.axis_spec(), self.dims_spec())
    }

    fn output_shape(&self, input: &Shape) -> (r: Result<Shape, Error>) {
        Unflatten::output_shape(self, input)
    }
}

impl Module for Linear {
    open spec fn accepts(&self, v: Seq<DimView>) -> bool {
        true
    }

    open spec fn shape_rule(&self, v: Seq<DimView>) -> Result<Seq<DimView>, Seq<char>> {
        nn::contracted_outcome(
            v,
            self.input_spec(),
            self.output_spec(),
            self.bound_spec(),
            "Linear input extent differs from its built extent"@,
        )
    }

    fn output_shape(&self, input: &Shape) -> (r: Result<Shape, Error>) {
        Linear::output_shape(self, input)
    }
}

impl Module for Embedding {
    open spec fn accepts(&self, v: Seq<DimView>) -> bool {
        true
    }

    open spec fn shape_rule(&self, v: Seq<DimView>) -> Result<Seq<DimView>, Seq<char>> {
        nn::contracted_outcome(
            v,
            self.vocabulary_spec(),
            self.feature_spec(),
            self.bound_spec(),
            "Embedding vocabulary extent differs from its built extent"@,
        )
    }

    fn output_shape(&self, input: &Shape) -> (r: Result<Shape, Error>) {
        Embedding::output_shape(self, input)
    }
}

impl Module for PositionEmbedding {
    open spec fn accepts(&self, v: Seq<DimView>) -> bool {
        true
    }

    open spec fn shape_rule(&self, v: Seq<DimView>) -> Result<Seq<DimView>, Seq<char>> {
        nn::position_embedding_outcome(v, self.position_spec(), self.feature_spec(), self.bound_spec())
    }

    fn output_shape(&self, input: &Shape) -> (r: Result<Shape, Error>) {
        PositionEmbedding::output_shape(self, input)
    }
}

impl Module for PopulationLinear {
    open spec fn accepts(&self, v: Seq<DimView>) -> bool {
        true
    }

    open spec fn shape_rule(&self, v: Seq<DimView>) -> Result<Seq<DimView>, Seq<char>> {
        nn::population_linear_outcome(
            v,
            self.population_spec(),
            self.input_spec(),
            self.output_spec(),
            self.bound_spec(),
        )
    }

    fn output_shape(&self, input: &Shape) -> (r: Result<Shape, Error>) {
        PopulationLinear::output_shape(self, input)
    }
}

impl Module for Conv2d {
    open spec fn accepts(&self, v: Seq<DimView>) -> bool {
        true
    }

    open spec fn shape_rule(&self, v: Seq<DimView>) -> Result<Seq<DimView>, Seq<char>> {
        match convolution::convolution_outcome(
            v,
            self@.input,
            self@.output,
            self@.spatial,
            self@.kernel,
            self@.stride,
            self@.padding,
            self@.groups,
            self@.bound,
        ) {
            Ok(g) => Ok(g.0),
            Err(m) => Err(m),
        }
    }

    fn output_shape(&self, input: &Shape) -> (r: Result<Shape, Error>) {
        Conv2d::output_shape(self, input)
    }
}

impl Module for Conv3d {
    open spec fn accepts(&self, v: Seq<DimView>) -> bool {
        true
    }

    open spec fn shape_rule(&self, v: Seq<DimView>) -> Result<Seq<DimView>, Seq<char>> {
        match convolution::convolution_outcome(
            v,
            self@.input,
            self@.output,
            self@.spatial,
            self@.kernel,
            self@.stride,
            self@.padding,
            self@.groups,
            self@.bound,
        ) {
            Ok(g) => Ok(g.0),
            Err(m) => Err(m),
        }
    }

    fn output_shape(&self, input: &Shape) -> (r: Result<Shape, Error>) {
        Conv3d::output_shape(self, input)
    }
}

impl Module for ConvTranspose2d {
    open spec fn accepts(&self, v: Seq<DimView>) -> bool {
        convolution::spatial_extents_positive(v, self@.conv.spatial)
    }

    open spec fn shape_rule(&self, v: Seq<DimView>) -> Result<Seq<DimView>, Seq<char>> {
        match convolution::transposed_outcome(
            v,
            self@.conv.input,
            self@.conv.output,
            self@.conv.spatial,
            self@.conv.kernel,
            self@.conv.stride,
            self@.conv.padding,
            self@.output_padding,
            self@.conv.groups,
            self@.conv.bound,
        ) {
            Ok(g) => Ok(g.0),
            Err(m) => Err(m),
        }
    }

    fn output_shape(&self, input: &Shape) -> (r: Result<Shape, Error>) {
        ConvTranspose2d::output_shape(self, input)
    }
}

impl Module for ConvTranspose3d {
    open spec fn accepts(&self, v: Seq<DimView>) -> bool {
        convolution::spatial_extents_positive(v, self@.conv.spatial)
    }

    open spec fn shape_rule(&self, v: Seq<DimView>) -> Result<Seq<DimView>, Seq<char>> {
        match convolution::transposed_outcome(
            v,
            self@.conv.input,
            self@.conv.output,
            self@.conv.spatial,
            self@.conv.kernel,
            self@.conv.stride,
            self@.conv.padding,
            self@.output_padding,
            self@.conv.groups,
            self@.conv.bound,
        ) {
            Ok(g) => Ok(g.0),
            Err(m) => Err(m),
        }
    }

    fn output_shape(&self, input: &Shape) -> (r: Result<Shape, Error>) {
        ConvTranspose3d::output_shape(self, input)
    }
}

impl Module for Unfold {
    open spec fn accepts(&self, v: Seq<DimView>) -> bool {
        true
    }

    open spec fn shape_rule(&self, v: Seq<DimView>) -> Result<Seq<DimView>, Seq<char>> {
        match convolution::unfold_outcome(
            "Unfold"@,
            v,
            self@.channels,
            self@.spatial,
            self@.patch,
            self@.kernel,
            self@.stride,
            self@.padding,
        ) {
            Ok((d, _)) => Ok(d),
            Err(m) => Err(m),
        }
    }

    fn output_shape(&self, input: &Shape) -> (r: Result<Shape, Error>) {
        Unfold::output_shape(self, input)
    }
}

impl Module for Fold {
    open spec fn accepts(&self, v: Seq<DimView>) -> bool {
        geometry::product(self@.patch.kernel) <= usize::MAX
    }

    open spec fn shape_rule(&self, v: Seq<DimView>) -> Result<Seq<DimView>, Seq<char>> {
        match convolution::fold_outcome(
            v,
            self@.patch.channels,
            self@.patch.spatial,
            self@.output_size,
            self@.patch.patch,
            self@.patch.kernel,
            self@.patch.stride,
            self@.patch.padding,
        ) {
            Ok((d, _)) => Ok(d),
            Err(m) => Err(m),
        }
    }

    fn output_shape(&self, input: &Shape) -> (r: Result<Shape, Error>) {
        Fold::output_shape(self, input)
    }
}

impl Module for MaxPool2d {
    open spec fn accepts(&self, v: Seq<DimView>) -> bool {
        pooling::ceil_safe(v, self@.spatial, self@.kernel, self@.stride, self@.padding, self@.ceil_mode)
    }

    open spec fn shape_rule(&self, v: Seq<DimView>) -> Result<Seq<DimView>, Seq<char>> {
        match pooling::pool_outcome(
            "MaxPool2d"@,
            v,
            self@.channels,
            self@.spatial,
            self@.kernel,
            self@.stride,
            self@.padding,
            self@.ceil_mode,
            self@.divisor_override,
        ) {
            Ok((d, _, _)) => Ok(d),
            Err(m) => Err(m),
        }
    }

    fn output_shape(&self, input: &Shape) -> (r: Result<Shape, Error>) {
        MaxPool2d::output_shape(self, input)
    }
}

impl Module for MaxPool3d {
    open spec fn accepts(&self, v: Seq<DimView>) -> bool {
        pooling::ceil_safe(v, self@.spatial, self@.kernel, self@.stride, self@.padding, self@.ceil_mode)
    }

    open spec fn shape_rule(&self, v: Seq<DimView>) -> Result<Seq<DimView>, Seq<char>> {
        match pooling::pool_outcome(
            "MaxPool3d"@,
            v,
            self@.channels,
            self@.spatial,
            self@.kernel,
            self@.stride,
            self@.padding,
            self@.ceil_mode,
            self@.divisor_override,
        ) {
            Ok((d, _, _)) => Ok(d),
            Err(m) => Err(m),
        }
    }

    fn output_shape(&self, input: &Shape) -> (r: Result<Shape, Error>) {
        MaxPool3d::output_shape(self, input)
    }
}

impl Module for AvgPool2d {
    open spec fn accepts(&self, v: Seq<DimView>) -> bool {
        pooling::ceil_safe(v, self@.spatial, self@.kernel, self@.stride, self@.padding, self@.ceil_mode)
    }

    open spec fn shape_rule(&self, v: Seq<DimView>) -> Result<Seq<DimView>, Seq<char>> {
        match pooling::pool_outcome(
            "AvgPool2d"@,
            v,
            self@.channels,
            self@.spatial,
            self@.kernel,
            self@.stride,
            self@.padding,
            self@.ceil_mode,
            self@.divisor_override,
        ) {
            Ok((d, _, _)) => Ok(d),
            Err(m) => Err(m),
        }
    }

    fn output_shape(&self, input: &Shape) -> (r: Result<Shape, Error>) {
        AvgPool2d::output_shape(self, input)
    }
}

impl Module for AvgPool3d {
    open spec fn accepts(&self, v: Seq<DimView>) -> bool {
        pooling::ceil_safe(v, self@.spatial, self@.kernel, self@.stride, self@.padding, self@.ceil_mode)
    }

    open spec fn shape_rule(&self, v: Seq<DimView>) -> Result<Seq<DimView>, Seq<char>> {
        match pooling::pool_outcome(
            "AvgPool3d"@,
            v,
            self@.channels,
            self@.spatial,
            self@.kernel,
            self@.stride,
            self@.padding,
            self@.ceil_mode,
            self@.divisor_override,
        ) {
            Ok((d, _, _)) => Ok(d),
            Err(m) => Err(m),
        }
    }

    fn output_shape(&self, input: &Shape) -> (r: Result<Shape, Error>) {
        AvgPool3d::output_shape(self, input)
    }
}

impl Module for AdaptiveAvgPool1d {
    open spec fn accepts(&self, v: Seq<DimView>) -> bool {
        true
    }

    open spec fn shape_rule(&self, v: Seq<DimView>) -> Result<Seq<DimView>, Seq<char>> {
        pooling::adaptive_outcome("AdaptiveAvgPool1d"@, v, self@.spatial, self@.target)
    }

    fn output_shape(&self, input: &Shape) -> (r: Result<Shape, Error>) {
        AdaptiveAvgPool1d::output_shape(self, input)
    }
}

impl Module for AdaptiveAvgPool2d {
    open spec fn accepts(&self, v: Seq<DimView>) -> bool {
        true
    }

    open spec fn shape_rule(&self, v: Seq<DimView>) -> Result<Seq<DimView>, Seq<char>> {
        pooling::adaptive_outcome("AdaptiveAvgPool2d"@, v, self@.spatial, self@.target)
    }

    fn output_shape(&self, input: &Shape) -> (r: Result<Shape, Error>) {
        AdaptiveAvgPool2d::output_shape(self, input)
    }
}

impl Module for AdaptiveAvgPool3d {
    open spec fn accepts(&self, v: Seq<DimView>) -> bool {
        true
    }

    open spec fn shape_rule(&self, v: Seq<DimView>) -> Result<Seq<DimView>, Seq<char>> {
        pooling::adaptive_outcome("AdaptiveAvgPool3d"@, v, self@.spatial, self@.target)
    }

    fn output_shape(&self, input: &Shape) -> (r: Result<Shape, Error>) {
        AdaptiveAvgPool3d::output_shape(self, input)
    }
}

impl Module for AdaptiveMaxPool1d {
    open spec fn accepts(&self, v: Seq<DimView>) -> bool {
        true
    }

    open spec fn shape_rule(&self, v: Seq<DimView>) -> Result<Seq<DimView>, Seq<char>> {
        pooling::adaptive_outcome("AdaptiveMaxPool1d"@, v, self@.spatial, self@.target)
    }

    fn output_shape(&self, input: &Shape) -> (r: Result<Shape, Error>) {
        AdaptiveMaxPool1d::output_shape(self, input)
    }
}

impl Module for AdaptiveMaxPool2d {
    open spec fn accepts(&self, v: Seq<DimView>) -> bool {
        true
    }

    open spec fn shape_rule(&self, v: Seq<DimView>) -> Result<Seq<DimView>, Seq<char>> {
        pooling::adaptive_outcome("AdaptiveMaxPool2d"@, v, self@.spatial, self@.target)
    }

    fn output_shape(&self, input: &Shape) -> (r: Result<Shape, Error>) {
        AdaptiveMaxPool2d::output_shape(self, input)
    }
}

impl Module for AdaptiveMaxPool3d {
    open spec fn accepts(&self, v: Seq<DimView>) -> bool {
        true
    }

    open spec fn shape_rule(&self, v: Seq<DimView>) -> Result<Seq<DimView>, Seq<char>> {
        pooling::adaptive_outcome("AdaptiveMaxPool3d"@, v, self@.spatial, self@.target)
    }

    fn output_shape(&self, input: &Shape) -> (r: Result<Shape, Error>) {
        AdaptiveMaxPool3d::output_shape(self, input)
    }
}

impl Module for LayerNorm {
    open spec fn accepts(&self, v: Seq<DimView>) -> bool {
        true
    }

    open spec fn shape_rule(&self, v: Seq<DimView>) -> Result<Seq<DimView>, Seq<char>> {
        normalization::axis_norm_outcome(
            v,
            "LayerNorm"@,
            self.axes_spec(),
            self.affine_spec(),
            self.bound_spec(),
        )
    }

    fn output_shape(&self, input: &Shape) -> (r: Result<Shape, Error>) {
        LayerNorm::output_shape(self, input)
    }
}

impl Module for RmsNorm {
    open spec fn accepts(&self, v: Seq<DimView>) -> bool {
        true
    }

    open spec fn shape_rule(&self, v: Seq<DimView>) -> Result<Seq<DimView>, Seq<char>> {
        normalization::axis_norm_outcome(
            v,
            "RmsNorm"@,
            self.axes_spec(),
            self.affine_spec(),
            self.bound_spec(),
        )
    }

    fn output_shape(&self, input: &Shape) -> (r: Result<Shape, Error>) {
        RmsNorm::output_shape(self, input)
    }
}

impl Module for BatchNorm {
    open spec fn accepts(&self, v: Seq<DimView>) -> bool {
        true
    }

    open spec fn shape_rule(&self, v: Seq<DimView>) -> Result<Seq<DimView>, Seq<char>> {
        normalization::batch_norm_outcome(
            v,
            self.feature_spec(),
            self.affine_spec(),
            self.tracks_running_stats(),
            self.bound_spec(),
        )
    }

    fn output_shape(&self, input: &Shape) -> (r: Result<Shape, Error>) {
        BatchNorm::output_shape(self, input)
    }
}

impl Module for GroupNorm {
    open spec fn accepts(&self, v: Seq<DimView>) -> bool {
        self.well_formed()
    }

    open spec fn shape_rule(&self, v: Seq<DimView>) -> Result<Seq<DimView>, Seq<char>> {
        normalization::channel_norm_outcome(
            v,
            "GroupNorm"@,
            self.channel_spec(),
            Some(self.groups_spec()),
            self.sample_axes_spec(),
            self.affine_spec(),
            self.bound_spec(),
        )
    }

    fn output_shape(&self, input: &Shape) -> (r: Result<Shape, Error>) {
        GroupNorm::output_shape(self, input)
    }
}

impl Module for InstanceNorm {
    open spec fn accepts(&self, v: Seq<DimView>) -> bool {
        self.well_formed()
    }

    open spec fn shape_rule(&self, v: Seq<DimView>) -> Result<Seq<DimView>, Seq<char>> {
        normalization::instance_norm_outcome(
            v,
            self.channel_spec(),
            self.sample_axes_spec(),
            self.affine_spec(),
            self.bound_spec(),
            self.tracks_running_stats(),
            self.running_spec(),
        )
    }

    fn output_shape(&self, input: &Shape) -> (r: Result<Shape, Error>) {
        InstanceNorm::output_shape(self, input)
    }
}

impl Module for LocalResponseNorm {
    open spec fn accepts(&self, v: Seq<DimView>) -> bool {
        true
    }

    open spec fn shape_rule(&self, v: Seq<DimView>) -> Result<Seq<DimView>, Seq<char>> {
        if axis::has_axis(v, self.channel_spec()) {
            Ok(v)
        } else {
            Err(axis::missing_axis_message(self.channel_spec()))
        }
    }

    fn output_shape(&self, input: &Shape) -> (r: Result<Shape, Error>) {
        LocalResponseNorm::output_shape(self, input)
    }
}

impl Module for LstmCell {
    open spec fn accepts(&self, v: Seq<DimView>) -> bool {
        self.well_formed()
    }

    open spec fn shape_rule(&self, v: Seq<DimView>) -> Result<Seq<DimView>, Seq<char>> {
        nn::contracted_outcome(
            v,
            self.input_spec(),
            self.hidden_spec(),
            self.bound_spec(),
            recurrent::input_mismatch("LSTM"@),
        )
    }

    fn output_shape(&self, input: &Shape) -> (r: Result<Shape, Error>) {
        LstmCell::output_shape(self, input)
    }
}

impl Module for GruCell {
    open spec fn accepts(&self, v: Seq<DimView>) -> bool {
        self.well_formed()
    }

    open spec fn shape_rule(&self, v: Seq<DimView>) -> Result<Seq<DimView>, Seq<char>> {
        nn::contracted_outcome(
            v,
            self.input_spec(),
            self.hidden_spec(),
            self.bound_spec(),
            recurrent::input_mismatch("GRU"@),
        )
    }

    fn output_shape(&self, input: &Shape) -> (r: Result<Shape, Error>) {
        GruCell::output_shape(self, input)
    }
}

impl Module for RnnCell {
    open spec fn accepts(&self, v: Seq<DimView>) -> bool {
        self.well_formed()
    }

    open spec fn shape_rule(&self, v: Seq<DimView>) -> Result<Seq<DimView>, Seq<char>> {
        nn::contracted_outcome(
            v,
            self.input_spec(),
            self.hidden_spec(),
            self.bound_spec(),
            recurrent::input_mismatch("RNN"@),
        )
    }

    fn output_shape(&self, input: &Shape) -> (r: Result<Shape, Error>) {
        RnnCell::output_shape(self, input)
    }
}

impl Module for Lstm {
    open spec fn accepts(&self, v: Seq<DimView>) -> bool {
        self.well_formed()
    }

    open spec fn shape_rule(&self, v: Seq<DimView>) -> Result<Seq<DimView>, Seq<char>> {
        recurrent::sequence_outcome(
            v,
            self.time_spec(),
            "LSTM"@,
            self.cell_spec().input_spec(),
            self.cell_spec().hidden_spec(),
            self.cell_spec().bound_spec(),
        )
    }

    fn output_shape(&self, input: &Shape) -> (r: Result<Shape, Error>) {
        Lstm::output_shape(self, input)
    }
}

impl Module for Gru {
    open spec fn accepts(&self, v: Seq<DimView>) -> bool {
        self.well_formed()
    }

    open spec fn shape_rule(&self, v: Seq<DimView>) -> Result<Seq<DimView>, Seq<char>> {
        recurrent::sequence_outcome(
            v,
            self.time_spec(),
            "GRU"@,
            self.cell_spec().input_spec(),
            self.cell_spec().hidden_spec(),
            self.cell_spec().bound_spec(),
        )
    }

    fn output_shape(&self, input: &Shape) -> (r: Result<Shape, Error>) {
        Gru::output_shape(self, input)
    }
}

impl Module for Rnn {
    open spec fn accepts(&self, v: Seq<DimView>) -> bool {
        self.well_formed()
    }

    open spec fn shape_rule(&self, v: Seq<DimView>) -> Result<Seq<DimView>, Seq<char>> {
        recurrent::sequence_outcome(
            v,
            self.time_spec(),
            "RNN"@,
            self.cell_spec().input_spec(),
            self.cell_spec().hidden_spec(),
            self.cell_spec().bound_spec(),
        )
    }

    fn output_shape(&self, input: &Shape) -> (r: Result<Shape, Error>) {
        Rnn::output_shape(self, input)
    }
}

impl<T> Module for ModuleList<T> {
    open spec fn accepts(&self, v: Seq<DimView>) -> bool {
        true
    }

    open spec fn shape_rule(&self, v: Seq<DimView>) -> Result<Seq<DimView>, Seq<char>> {
        Err("ModuleList has no forward of its own; call output_shape on a held module directly"@)
    }

    fn output_shape(&self, input: &Shape) -> (r: Result<Shape, Error>) {
        Err(Error::new(String::from_str("ModuleList has no forward of its own; call output_shape on a held module directly")))
    }
}

impl<T> Module for ModuleDict<T> {
    open spec fn accepts(&self, v: Seq<DimView>) -> bool {
        true
    }

    open spec fn shape_rule(&self, v: Seq<DimView>) -> Result<Seq<DimView>, Seq<char>> {
        Err("ModuleDict has no forward of its own; call output_shape on a held module directly"@)
    }

    fn output_shape(&self, input: &Shape) -> (r: Result<Shape, Error>) {
        Err(Error::new(String::from_str("ModuleDict has no forward of its own; call output_shape on a held module directly")))
    }
}

impl<T> Module for ParameterList<T> {
    open spec fn accepts(&self, v: Seq<DimView>) -> bool {
        true
    }

    open spec fn shape_rule(&self, v: Seq<DimView>) -> Result<Seq<DimView>, Seq<char>> {
        Err("ParameterList has no forward of its own"@)
    }

    fn output_shape(&self, input: &Shape) -> (r: Result<Shape, Error>) {
        Err(Error::new(String::from_str("ParameterList has no forward of its own")))
    }
}

impl<T> Module for ParameterDict<T> {
    open spec fn accepts(&self, v: Seq<DimView>) -> bool {
        true
    }

    open spec fn shape_rule(&self, v: Seq<DimView>) -> Result<Seq<DimView>, Seq<char>> {
        Err("ParameterDict has no forward of its own"@)
    }

    fn output_shape(&self, input: &Shape) -> (r: Result<Shape, Error>) {
        Err(Error::new(String::from_str("ParameterDict has no forward of its own")))
    }
}


/// Threading `v` through `layers` in order: the last output shape, or the first rejection.
pub open spec fn chain_rule(layers: Seq<Box<dyn Module>>, v: Seq<DimView>) -> Result<
    Seq<DimView>,
    Seq<char>,
>
    decreases layers.len(),
{
    if layers.len() == 0 {
        Ok(v)
    } else {
        match chain_rule(layers.drop_last(), v) {
            Err(m) => Err(m),
            Ok(w) => layers.last().shape_rule(w),
        }
    }
}

/// Each layer accepts the shape the layers before it produce, as far as they produce one.
pub open spec fn chain_accepts(layers: Seq<Box<dyn Module>>, v: Seq<DimView>) -> bool {
    forall|i: int|
        0 <= i < layers.len() ==> (chain_rule(layers.take(i), v) matches Ok(w) ==> (
        #[trigger] layers[i]).accepts(w))
}

proof fn lemma_chain_err_sticks(layers: Seq<Box<dyn Module>>, v: Seq<DimView>, k: int)
    requires
        0 <= k <= layers.len(),
        chain_rule(layers.take(k), v) is Err,
    ensures
        chain_rule(layers, v) == chain_rule(layers.take(k), v),
    decreases layers.len() - k,
{
    if k < layers.len() {
        assert(layers.take(k + 1).drop_last() =~= layers.take(k));
        lemma_chain_err_sticks(layers, v, k + 1);
    } else {
        assert(layers.take(k) =~= layers);
    }
}

/// Layers applied in order, each to the previous one's output.
pub struct Sequential {
    layers: Vec<Box<dyn Module>>,
}

impl Sequential {
    /// The layers, in order.
    pub closed spec fn layers_spec(&self) -> Seq<Box<dyn Module>> {
        self.layers@
    }

    pub fn new(layers: Vec<Box<dyn Module>>) -> (s: Self)
        ensures
            s.layers_spec() == layers@,
    {
        Sequential { layers }
    }
}

impl Module for Sequential {
    open spec fn accepts(&self, v: Seq<DimView>) -> bool {
        chain_accepts(self.layers_spec(), v)
    }

    open spec fn shape_rule(&self, v: Seq<DimView>) -> Result<Seq<DimView>, Seq<char>> {
        chain_rule(self.layers_spec(), v)
    }

    fn output_shape(&self, input: &Shape) -> (r: Result<Shape, Error>) {
        let ghost layers = self.layers@;
        let mut shape = input.clone();
        let n = self.layers.len();
        let mut i: usize = 0;
        assert(layers.take(0) =~= Seq::<Box<dyn Module>>::empty());
        while i < n
            invariant
                n == layers.len(),
                layers == self.layers@,
                chain_accepts(layers, input@),
                i <= n,
                chain_rule(layers.take(i as int), input@) == Ok::<Seq<DimView>, Seq<char>>(shape@),
            decreases n - i,
        {
            assert(layers.take(i as int + 1).drop_last() =~= layers.take(i as int));
            assert(layers.take(i as int + 1).last() == layers[i as int]);
            assert(layers[i as int].accepts(shape@));
            match self.layers[i].output_shape(&shape) {
                Ok(s) => {
                    shape = s;
                },
                Err(e) => {
                    proof {
                        lemma_chain_err_sticks(layers, input@, i as int + 1);
                    }
                    return Err(e);
                },
            }
            i = i + 1;
        }
        assert(layers.take(n as int) =~= layers);
        Ok(shape)
    }
}

/// Threading through two runs of layers one after the other is threading through their
/// concatenation: nesting `Sequential`s changes no shape.
pub proof fn lemma_chain_concat(a: Seq<Box<dyn Module>>, b: Seq<Box<dyn Module>>, v: Seq<DimView>)
    ensures
        chain_rule(a + b, v) == (match chain_rule(a, v) {
            Err(m) => Err(m),
            Ok(w) => chain_rule(b, w),
        }),
    decreases b.len(),
{
    if b.len() == 0 {
        assert(a + b =~= a);
    } else {
        lemma_chain_concat(a, b.drop_last(), v);
        assert((a + b).drop_last() =~= a + b.drop_last());
        assert((a + b).last() == b.last());
    }
}

} // verus!
