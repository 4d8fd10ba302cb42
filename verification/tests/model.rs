use lib::architectures::{prefixed, BasicBlock, Bottleneck, ResNetAxes};
use lib::axis::{Axis, Dim, Shape};
use lib::error::Error;
use lib::broadcast::broadcast_shape;
use lib::loss::cross_entropy_shape;
use lib::structural::{concatenated_shape, renamed_shape, selected_shape, stacked_shape};
use lib::contraction::{contraction_geometry, contraction_group};
use lib::model::containers::{ModuleDict, ModuleList, ParameterDict, ParameterList};
use lib::model::module::{Module, Sequential};
use lib::model::convolution::{unfold_grouped_geometry, Conv2d, Conv3d, ConvTranspose2d, Fold, Unfold};
use lib::model::nn::{
    embedding_bag_assignment, Bilinear, Embedding, Flatten, Identity, Linear, ParamId,
    PopulationLinear, PositionEmbedding, ReLU, Unflatten,
};
use lib::model::normalization::{
    declared_axes, non_feature_axes, selected_dims, BatchNorm, GroupNorm, InstanceNorm, LayerNorm,
    LocalResponseNorm, RmsNorm,
};
use lib::model::optim::{collect_muon_selection, partition_parameters, MuonMatrix, MuonMatrixOrientation};
use lib::model::pooling::{
    pool_window_counts, AdaptiveAvgPool2d, AdaptiveMaxPool1d, AvgPool2d, MaxPool2d, MaxUnpool1d, MaxUnpool2d,
};
use lib::model::recurrent::{
    same_named_shape, without, Gru, GruCell, Lstm, LstmCell, Rnn, RnnCell, RnnNonlinearity,
};
use lib::research::data::{AdditionDataset, DataSource};

fn shape(dims: &[(&'static str, usize)]) -> Shape {
    Shape::new(dims.iter().map(|&(n, e)| Axis::new(n).of(e)).collect()).unwrap()
}

fn layout(s: &Shape) -> Vec<(&'static str, usize)> {
    s.dims().iter().map(|d| (d.axis.name(), d.extent)).collect()
}

fn a(n: &'static str) -> Axis {
    Axis::new(n)
}

#[test]
fn conv2d_shrinks_spatial_axes_and_appends_the_output_channel() -> Result<(), Error> {
    let input = shape(&[("batch", 2), ("c", 3), ("h", 8), ("w", 8)]);
    let conv = Conv2d::new(a("c"), a("o").of(4), [a("h"), a("w")], [3, 3]);
    assert_eq!(layout(&conv.output_shape(&input)?), [("batch", 2), ("h", 6), ("w", 6), ("o", 4)]);
    let strided = Conv2d::new(a("c"), a("o").of(4), [a("h"), a("w")], [3, 3])
        .stride([2, 2])
        .padding([1, 1]);
    let g = strided.geometry(&input)?;
    assert_eq!(layout(&g.shape), [("batch", 2), ("h", 4), ("w", 4), ("o", 4)]);
    assert_eq!((g.channels, g.patch, g.output_in_group), (3, 27, 4));
    Ok(())
}

#[test]
fn conv_groups_must_divide_both_channel_sides() {
    let input = shape(&[("c", 3), ("h", 4), ("w", 4)]);
    let grouped = Conv2d::new(a("c"), a("o").of(4), [a("h"), a("w")], [1, 1]).groups(2);
    let error = grouped.output_shape(&input).unwrap_err().to_string();
    assert_eq!(error, "Conv2d input channels must be divisible by groups");
    let zero = Conv2d::new(a("c"), a("o").of(4), [a("h"), a("w")], [1, 1]).groups(0);
    assert_eq!(zero.output_shape(&input).unwrap_err().to_string(), "Conv2d groups must be positive");
    let too_big = Conv2d::new(a("c"), a("o").of(4), [a("h"), a("w")], [5, 1]);
    assert_eq!(
        too_big.output_shape(&input).unwrap_err().to_string(),
        "Conv2d kernel must fit the padded spatial axes"
    );
    let clash = Conv2d::new(a("c"), a("o").of(4), [a("h"), a("c")], [1, 1]);
    assert_eq!(
        clash.output_shape(&input).unwrap_err().to_string(),
        "Conv2d requires distinct input-channel and spatial axes"
    );
}

#[test]
fn conv3d_and_binding_checks() -> Result<(), Error> {
    let input = shape(&[("c", 2), ("d", 4), ("h", 4), ("w", 4)]);
    let mut conv = Conv3d::new(a("c"), a("o").of(6), [a("d"), a("h"), a("w")], [2, 2, 2]).groups(2);
    let g = conv.geometry(&input)?;
    assert_eq!(layout(&g.shape), [("d", 3), ("h", 3), ("w", 3), ("o", 6)]);
    assert_eq!((g.channels, g.patch, g.output_in_group), (2, 8, 3));
    conv.bind(&g);
    let wider = shape(&[("c", 4), ("d", 4), ("h", 4), ("w", 4)]);
    assert_eq!(
        conv.output_shape(&wider).unwrap_err().to_string(),
        "Conv3d input channels differ from its built extent"
    );
    assert!(conv.output_shape(&input).is_ok());
    Ok(())
}

#[test]
fn transposed_convolution_expands_spatial_axes() -> Result<(), Error> {
    let input = shape(&[("b", 2), ("c", 4), ("h", 3), ("w", 3)]);
    let up = ConvTranspose2d::new(a("c"), a("o").of(2), [a("h"), a("w")], [3, 3])
        .stride([2, 2])
        .padding([1, 1])
        .output_padding([1, 1]);
    assert_eq!(layout(&up.output_shape(&input)?), [("b", 2), ("h", 6), ("w", 6), ("o", 2)]);
    let g = up.geometry(&input)?;
    assert_eq!((g.channels, g.patch, g.output_in_group), (4, 18, 4));
    let bad = ConvTranspose2d::new(a("c"), a("o").of(2), [a("h"), a("w")], [3, 3])
        .output_padding([1, 0]);
    assert_eq!(
        bad.output_shape(&input).unwrap_err().to_string(),
        "ConvTranspose2d output_padding must be less than stride"
    );
    let over = ConvTranspose2d::new(a("c"), a("o").of(2), [a("h"), a("w")], [1, 1]).padding([2, 2]);
    assert_eq!(
        over.output_shape(&input).unwrap_err().to_string(),
        "ConvTranspose2d padding exceeds the expanded spatial extent"
    );
    Ok(())
}

#[test]
fn pooling_moves_channels_last_and_counts_windows() -> Result<(), Error> {
    let input = shape(&[("b", 2), ("c", 3), ("h", 5), ("w", 5)]);
    let pool = MaxPool2d::new(a("c"), [a("h"), a("w")], [2, 2]);
    assert_eq!(layout(&pool.output_shape(&input)?), [("b", 2), ("h", 2), ("w", 2), ("c", 3)]);
    let ceil = AvgPool2d::new(a("c"), [a("h"), a("w")], [2, 2]).ceil_mode(true);
    let g = ceil.geometry(&input)?;
    assert_eq!(layout(&g.shape), [("b", 2), ("h", 3), ("w", 3), ("c", 3)]);
    assert_eq!(g.output, [3, 3]);
    assert_eq!(g.input, [5, 5]);
    assert_eq!(g.overhang, [1, 1]);
    let padded = AvgPool2d::new(a("c"), [a("h"), a("w")], [2, 2]).padding([2, 2]);
    assert_eq!(
        padded.output_shape(&input).unwrap_err().to_string(),
        "AvgPool2d padding must be at most half the kernel extent"
    );
    let divisor = AvgPool2d::new(a("c"), [a("h"), a("w")], [2, 2]).divisor_override(0);
    assert_eq!(
        divisor.output_shape(&input).unwrap_err().to_string(),
        "AvgPool2d divisor_override must be positive"
    );
    Ok(())
}

#[test]
fn ceil_mode_drops_a_window_starting_in_the_right_padding() -> Result<(), Error> {
    let input = shape(&[("c", 1), ("h", 4), ("w", 4)]);
    let pool = AvgPool2d::new(a("c"), [a("h"), a("w")], [2, 2])
        .stride([2, 2])
        .padding([1, 1])
        .ceil_mode(true);
    let g = pool.geometry(&input)?;
    assert_eq!(g.output, [3, 3]);
    Ok(())
}

#[test]
fn adaptive_pooling_and_max_unpooling_shapes() -> Result<(), Error> {
    let input = shape(&[("b", 1), ("c", 2), ("h", 5), ("w", 7)]);
    let adaptive = AdaptiveAvgPool2d::new([a("h"), a("w")], [2, 3]);
    assert_eq!(layout(&adaptive.output_shape(&input)?), [("b", 1), ("c", 2), ("h", 2), ("w", 3)]);
    let zero = AdaptiveAvgPool2d::new([a("h"), a("w")], [0, 3]);
    assert_eq!(
        zero.output_shape(&input).unwrap_err().to_string(),
        "AdaptiveAvgPool2d target extents must be positive"
    );
    let missing = AdaptiveMaxPool1d::new(a("t"), 4);
    assert_eq!(missing.output_shape(&input).unwrap_err().to_string(), "shape has no axis t");

    let pooled = shape(&[("b", 1), ("c", 1), ("h", 2), ("w", 2)]);
    let unpool = MaxUnpool2d::new([a("h"), a("w")], [2, 2]);
    assert_eq!(layout(&unpool.output_shape(&pooled)?), [("b", 1), ("c", 1), ("h", 4), ("w", 4)]);
    let line = shape(&[("t", 1)]);
    let shrinking = MaxUnpool1d::new(a("t"), 2).padding(1);
    assert_eq!(
        shrinking.output_shape(&line).unwrap_err().to_string(),
        "MaxUnpool1d default output size is not positive"
    );
    assert_eq!(layout(&MaxUnpool1d::new(a("t"), 3).stride(2).output_shape(&line)?), [("t", 3)]);
    Ok(())
}

#[test]
fn fold_undoes_the_shape_of_unfold() -> Result<(), Error> {
    let image = shape(&[("b", 1), ("c", 3), ("h", 4), ("w", 4)]);
    let unfold = Unfold::new(a("c"), [a("h"), a("w")], a("patch"), [2, 2]);
    let patches = unfold.output_shape(&image)?;
    assert_eq!(layout(&patches), [("b", 1), ("patch", 12), ("h", 3), ("w", 3)]);
    let fold = Fold::new(a("c"), [a("h"), a("w")], [4, 4], a("patch"), [2, 2]);
    assert_eq!(layout(&fold.output_shape(&patches)?), layout(&image));
    let wrong = Fold::new(a("c"), [a("h"), a("w")], [5, 4], a("patch"), [2, 2]);
    assert_eq!(
        wrong.output_shape(&patches).unwrap_err().to_string(),
        "Fold input extent for \"h\" does not match output_size, kernel, stride and padding"
    );
    let odd = shape(&[("patch", 7), ("h", 3), ("w", 3)]);
    assert_eq!(
        fold.output_shape(&odd).unwrap_err().to_string(),
        "Fold patch extent must be a positive multiple of the kernel volume"
    );
    Ok(())
}

#[test]
fn flatten_and_unflatten_are_inverse_on_shapes() -> Result<(), Error> {
    let input = shape(&[("b", 2), ("c", 3), ("h", 4), ("w", 5)]);
    let flat = Flatten::new(vec![a("h"), a("w")], a("hw")).output_shape(&input)?;
    assert_eq!(layout(&flat), [("b", 2), ("c", 3), ("hw", 20)]);
    let back = Unflatten::new(a("hw"), vec![a("h").of(4), a("w").of(5)]).output_shape(&flat)?;
    assert_eq!(layout(&back), layout(&input));
    assert_eq!(
        Flatten::new(vec![], a("x")).output_shape(&input).unwrap_err().to_string(),
        "Flatten requires at least one axis to merge"
    );
    assert_eq!(
        Flatten::new(vec![a("h"), a("h")], a("x")).output_shape(&input).unwrap_err().to_string(),
        "duplicate axis \"h\""
    );
    assert_eq!(
        Unflatten::new(a("hw"), vec![a("h").of(3), a("w").of(5)])
            .output_shape(&flat)
            .unwrap_err()
            .to_string(),
        "Unflatten output extents must multiply to the source extent"
    );
    let spread = Flatten::new(vec![a("w"), a("c")], a("wc")).output_shape(&input)?;
    assert_eq!(layout(&spread), [("b", 2), ("wc", 15), ("h", 4)]);
    Ok(())
}

#[test]
fn activations_and_identity_keep_the_shape() -> Result<(), Error> {
    let input = shape(&[("b", 2), ("f", 3)]);
    assert_eq!(layout(&ReLU.output_shape(&input)?), layout(&input));
    assert_eq!(layout(&Identity.output_shape(&input)?), layout(&input));
    Ok(())
}

#[test]
fn embedding_bag_assignment_expands_offsets() -> Result<(), Error> {
    assert_eq!(embedding_bag_assignment(&[0, 2, 2, 3], 5)?, [0, 0, 2, 3, 3]);
    assert_eq!(
        embedding_bag_assignment(&[], 3).unwrap_err().to_string(),
        "EmbeddingBag requires at least one bag"
    );
    assert_eq!(
        embedding_bag_assignment(&[1], 3).unwrap_err().to_string(),
        "EmbeddingBag offsets must start at zero"
    );
    assert_eq!(
        embedding_bag_assignment(&[0, 2, 1], 3).unwrap_err().to_string(),
        "EmbeddingBag offsets must be non-decreasing"
    );
    assert_eq!(
        embedding_bag_assignment(&[0, 4], 3).unwrap_err().to_string(),
        "EmbeddingBag offsets exceed the index length"
    );
    Ok(())
}

#[test]
fn normalization_axis_bookkeeping() -> Result<(), Error> {
    assert_eq!(
        declared_axes(&[a("x"), a("y"), a("x")], "LayerNorm", false).unwrap_err().to_string(),
        "LayerNorm contains duplicate axis \"x\""
    );
    assert_eq!(
        declared_axes(&[], "LayerNorm", false).unwrap_err().to_string(),
        "LayerNorm requires at least one normalized axis"
    );
    assert!(declared_axes(&[], "GroupNorm", true)?.is_empty());
    let input = shape(&[("b", 2), ("c", 3), ("h", 4)]);
    let dims = selected_dims(&input, &[a("h"), a("b")])?;
    assert_eq!(dims.iter().map(|d| (d.axis.name(), d.extent)).collect::<Vec<_>>(), [("h", 4), ("b", 2)]);
    let others = non_feature_axes(&input, a("c"))?;
    assert_eq!(others.iter().map(|x| x.name()).collect::<Vec<_>>(), ["b", "h"]);
    assert!(non_feature_axes(&input, a("z")).is_err());
    Ok(())
}

#[test]
fn recurrent_shape_helpers() -> Result<(), Error> {
    let x = shape(&[("b", 2), ("h", 3)]);
    let y = shape(&[("h", 3), ("b", 2)]);
    let z = shape(&[("h", 4), ("b", 2)]);
    assert!(same_named_shape(&x, &y));
    assert!(!same_named_shape(&x, &z));
    assert_eq!(layout(&without(&x, a("b"))?), [("h", 3)]);
    assert_eq!(without(&x, a("q")).unwrap_err().to_string(), "shape has no axis q");
    Ok(())
}

#[test]
fn muon_selection_keeps_one_orientation_per_parameter() -> Result<(), Error> {
    let p = ParamId::from_raw(7);
    let q = ParamId::from_raw(8);
    let selection = collect_muon_selection(vec![
        MuonMatrix::axis_linear(p),
        MuonMatrix::fan_out_fan_in(q),
        MuonMatrix::fan_in_fan_out(p),
    ])?;
    assert_eq!(selection.len(), 2);
    assert_eq!(selection[1].param_id(), q);
    assert_eq!(selection[1].orientation(), MuonMatrixOrientation::FanOutFanIn);
    let conflict = collect_muon_selection(vec![MuonMatrix::axis_linear(p), MuonMatrix::fan_out_fan_in(p)]);
    assert_eq!(
        conflict.unwrap_err().to_string(),
        "Muon parameter ParamId(7) was selected with conflicting matrix orientations"
    );
    assert_eq!(
        collect_muon_selection(vec![]).unwrap_err().to_string(),
        "Muon requires at least one explicit matrix selection"
    );
    Ok(())
}

#[test]
fn prefixed_qualifies_parameter_paths() {
    let pairs = prefixed("layer1", vec![("weight".to_string(), 1), ("bias".to_string(), 2)]);
    assert_eq!(pairs, [("layer1.weight".to_string(), 1), ("layer1.bias".to_string(), 2)]);
}

#[test]
fn addition_draws_are_seeded_counters() -> Result<(), Error> {
    assert_eq!(AdditionDataset::mix(0), 0xe220a8397b1dcdaf);
    let mut source = AdditionDataset::new(42);
    let first = source.next_draw()?;
    assert_eq!(first.id, 42u128 << 64);
    assert_eq!((first.left, first.right), (12441394, 12216812));
    assert_eq!(source.next_draw()?.id, (42u128 << 64) | 1);
    assert!(source.available().is_none());
    Ok(())
}

#[test]
fn dims_carry_their_axis() {
    let d: Dim = Axis::new("t").of(3);
    assert_eq!((d.axis.name(), d.extent), ("t", 3));
}

#[test]
fn contraction_keeps_both_sides_and_sums_the_shared_axis() -> Result<(), Error> {
    let lhs = shape(&[("b", 2), ("i", 3)]);
    let rhs = shape(&[("i", 3), ("o", 4)]);
    let g = contraction_geometry(&lhs, &rhs, &[a("i")])?;
    assert_eq!(layout(&g.shape), [("b", 2), ("o", 4)]);
    assert_eq!(layout(&g.reduction), [("i", 3)]);
    let batched = shape(&[("b", 2), ("o", 4)]);
    let outer = contraction_geometry(&shape(&[("b", 2)]), &batched, &[])?;
    assert_eq!(layout(&outer.shape), [("b", 2), ("o", 4)]);
    assert_eq!(
        contraction_geometry(&shape(&[("i", 3)]), &shape(&[("i", 4)]), &[a("i")])
            .unwrap_err()
            .to_string(),
        "extent mismatch for \"i\""
    );
    assert_eq!(
        contraction_geometry(&lhs, &shape(&[("o", 4)]), &[a("i")]).unwrap_err().to_string(),
        "shape has no axis i"
    );
    Ok(())
}

#[test]
fn grouped_unfold_splits_channels_into_group_and_patch() -> Result<(), Error> {
    let input = shape(&[("n", 1), ("c", 4), ("h", 3), ("w", 3)]);
    let grouped = unfold_grouped_geometry(
        &input,
        a("c"),
        &[a("h"), a("w")],
        Some(a("g").of(2)),
        a("p").of(8),
        &[2, 2],
        &[1, 1],
        &[0, 0],
    )?;
    assert_eq!(layout(&grouped), [("n", 1), ("h", 2), ("w", 2), ("g", 2), ("p", 8)]);
    let plain = unfold_grouped_geometry(
        &input,
        a("c"),
        &[a("h"), a("w")],
        None,
        a("p").of(16),
        &[2, 2],
        &[1, 1],
        &[0, 0],
    )?;
    assert_eq!(layout(&plain), [("n", 1), ("p", 16), ("h", 2), ("w", 2)]);
    let wrong = unfold_grouped_geometry(
        &input,
        a("c"),
        &[a("h"), a("w")],
        None,
        a("p").of(15),
        &[2, 2],
        &[1, 1],
        &[0, 0],
    );
    assert_eq!(
        wrong.unwrap_err().to_string(),
        "unfold2d patch extent must equal channels per group * kernel volume"
    );
    Ok(())
}

#[test]
fn explicit_unpool_sizes_stay_within_a_stride_of_the_default() -> Result<(), Error> {
    let line = shape(&[("t", 3)]);
    let unpool = MaxUnpool1d::new(a("t"), 2);
    assert_eq!(unpool.output_sizes(&line, None)?, [6]);
    assert_eq!(unpool.output_sizes(&line, Some([7]))?, [7]);
    assert_eq!(
        unpool.output_sizes(&line, Some([8])).unwrap_err().to_string(),
        "MaxUnpool1d output size 8 is outside (4, 8) for axis 0"
    );
    let narrow = MaxUnpool1d::new(a("t"), 1).stride(3);
    assert_eq!(
        narrow.output_sizes(&shape(&[("t", 1)]), Some([5])).unwrap_err().to_string(),
        "MaxUnpool1d output size 5 is outside (-2, 4) for axis 0"
    );
    Ok(())
}

#[test]
fn contraction_groups_factor_a_matrix_product() {
    let lhs = shape(&[("b", 2), ("m", 3), ("k", 4)]);
    let rhs = shape(&[("k", 4), ("b", 2), ("n", 5)]);
    let names = |g: Vec<Axis>| g.iter().map(|x| x.name()).collect::<Vec<_>>();
    assert_eq!(names(contraction_group(&lhs, &rhs, &[a("k")], true)), ["b"]);
    assert_eq!(names(contraction_group(&lhs, &rhs, &[a("k")], false)), ["m"]);
    assert_eq!(names(contraction_group(&rhs, &lhs, &[a("k")], false)), ["n"]);
}

#[test]
fn muon_partition_routes_selected_and_exact_remainder() -> Result<(), Error> {
    let a = ParamId::from_raw(1);
    let b = ParamId::from_raw(2);
    let c = ParamId::from_raw(3);
    let selection = collect_muon_selection(vec![MuonMatrix::fan_out_fan_in(b)])?;
    let (muon, auxiliary) = partition_parameters(&vec![a, b, a, c, b], &selection)?;
    assert_eq!(muon.len(), 1);
    assert_eq!(muon[0].param_id(), b);
    assert_eq!(muon[0].orientation(), MuonMatrixOrientation::FanOutFanIn);
    assert_eq!(auxiliary, vec![a, c]);
    Ok(())
}

#[test]
fn muon_partition_rejects_foreign_parameters_in_print_order() -> Result<(), Error> {
    let owned = ParamId::from_raw(1);
    let selection = collect_muon_selection(vec![
        MuonMatrix::axis_linear(ParamId::from_raw(9)),
        MuonMatrix::axis_linear(owned),
        MuonMatrix::axis_linear(ParamId::from_raw(10)),
    ])?;
    let error = partition_parameters(&vec![owned], &selection).unwrap_err();
    assert_eq!(
        error.to_string(),
        "Muon selection contains 2 ParamId(s) that do not belong to this model: [ParamId(10), ParamId(9)]"
    );
    Ok(())
}

#[test]
fn linear_replaces_the_input_axis_and_remembers_its_built_extent() -> Result<(), Error> {
    let mut linear = Linear::new(a("feature"), a("hidden").of(4));
    let input = shape(&[("batch", 2), ("feature", 3), ("time", 7)]);
    assert_eq!(layout(&linear.bind(&input)?), vec![("batch", 2), ("time", 7), ("hidden", 4)]);
    let wider = shape(&[("batch", 2), ("feature", 5)]);
    assert_eq!(
        linear.output_shape(&wider).unwrap_err().to_string(),
        "Linear input extent differs from its built extent"
    );
    let unbiased = Linear::new(a("feature"), a("hidden").of(4)).bias(false);
    assert_eq!(layout(&unbiased.output_shape(&wider)?), vec![("batch", 2), ("hidden", 4)]);
    assert_eq!(
        unbiased.output_shape(&shape(&[("batch", 2)])).unwrap_err().to_string(),
        "shape has no axis feature"
    );
    let clash = shape(&[("hidden", 2), ("feature", 3)]);
    assert_eq!(unbiased.output_shape(&clash).unwrap_err().to_string(), "shape axes must be distinct");
    Ok(())
}

#[test]
fn embedding_contracts_the_vocabulary_axis() -> Result<(), Error> {
    let mut embedding = Embedding::new(a("token"), a("feature").of(8));
    let input = shape(&[("batch", 2), ("token", 10)]);
    assert_eq!(layout(&embedding.bind(&input)?), vec![("batch", 2), ("feature", 8)]);
    assert_eq!(
        embedding.output_shape(&shape(&[("token", 11)])).unwrap_err().to_string(),
        "Embedding vocabulary extent differs from its built extent"
    );
    Ok(())
}

#[test]
fn position_embedding_keeps_the_shape_and_checks_its_axes() -> Result<(), Error> {
    let mut table = PositionEmbedding::new(a("position"), a("feature"));
    let input = shape(&[("batch", 2), ("position", 5), ("feature", 4)]);
    assert_eq!(layout(&table.bind(&input)?), layout(&input));
    assert_eq!(
        table.output_shape(&shape(&[("position", 6), ("feature", 4)])).unwrap_err().to_string(),
        "PositionEmbedding input extents differ from its built extents"
    );
    assert_eq!(
        PositionEmbedding::new(a("x"), a("x")).output_shape(&input).unwrap_err().to_string(),
        "PositionEmbedding requires distinct position and feature axes"
    );
    Ok(())
}

#[test]
fn population_linear_broadcasts_or_keeps_the_population_axis() -> Result<(), Error> {
    let mut layer = PopulationLinear::new(a("member").of(3), a("feature"), a("hidden").of(4));
    let plain = shape(&[("batch", 2), ("feature", 5)]);
    assert_eq!(layout(&layer.bind(&plain)?), vec![("batch", 2), ("member", 3), ("hidden", 4)]);
    let carried = shape(&[("member", 3), ("batch", 2), ("feature", 5)]);
    assert_eq!(layout(&layer.output_shape(&carried)?), vec![("member", 3), ("batch", 2), ("hidden", 4)]);
    let wrong = shape(&[("member", 2), ("feature", 5)]);
    assert_eq!(
        layer.output_shape(&wrong).unwrap_err().to_string(),
        "PopulationLinear population extent mismatch"
    );
    assert_eq!(
        layer.output_shape(&shape(&[("feature", 6)])).unwrap_err().to_string(),
        "PopulationLinear input extent differs from its built extent"
    );
    Ok(())
}

#[test]
fn bilinear_aligns_shared_axes_and_appends_the_output() -> Result<(), Error> {
    let mut layer = Bilinear::new(a("left"), a("right"), a("out").of(5));
    let x1 = shape(&[("batch", 2), ("left", 3)]);
    let x2 = shape(&[("right", 4), ("batch", 2), ("extra", 6)]);
    assert_eq!(layout(&layer.bind(&x1, &x2)?), vec![("batch", 2), ("extra", 6), ("out", 5)]);
    let skewed = shape(&[("right", 4), ("batch", 3)]);
    assert_eq!(
        layer.output_shape(&x1, &skewed).unwrap_err().to_string(),
        "Bilinear shared axis \"batch\" extent mismatch"
    );
    let other = shape(&[("batch", 2), ("left", 7)]);
    assert_eq!(
        layer.output_shape(&other, &x2).unwrap_err().to_string(),
        "Bilinear input extents differ from its built extents"
    );
    let bare = Bilinear::new(a("left"), a("right"), a("out").of(5)).bias(false);
    assert_eq!(
        bare.output_shape(&x1, &shape(&[("batch", 2)])).unwrap_err().to_string(),
        "shape has no axis right"
    );
    Ok(())
}

#[test]
fn layer_norm_keeps_the_shape_and_pins_its_built_extents() -> Result<(), Error> {
    assert_eq!(
        LayerNorm::new(vec![]).err().unwrap().to_string(),
        "LayerNorm requires at least one normalized axis"
    );
    assert_eq!(
        RmsNorm::new(vec![a("f"), a("f")]).err().unwrap().to_string(),
        "RmsNorm contains duplicate axis \"f\""
    );
    let mut norm = LayerNorm::new(vec![a("f")])?;
    let input = shape(&[("batch", 2), ("f", 4)]);
    assert_eq!(layout(&norm.bind(&input)?), layout(&input));
    assert_eq!(
        norm.output_shape(&shape(&[("f", 5)])).unwrap_err().to_string(),
        "LayerNorm normalized extents differ from its built extents"
    );
    let changed = norm.affine(false);
    assert_eq!(
        changed.output_shape(&input).unwrap_err().to_string(),
        "LayerNorm affine configuration changed after build"
    );
    let rms = RmsNorm::new(vec![a("f")])?.affine(false);
    assert_eq!(rms.output_shape(&shape(&[("g", 1)])).unwrap_err().to_string(), "shape has no axis f");
    Ok(())
}

#[test]
fn batch_norm_fixes_feature_extent_and_flags_after_build() -> Result<(), Error> {
    let mut norm = BatchNorm::new(a("c"));
    let input = shape(&[("batch", 8), ("c", 3), ("h", 4)]);
    assert_eq!(layout(&norm.bind(&input)?), layout(&input));
    assert_eq!(
        norm.output_shape(&shape(&[("c", 4)])).unwrap_err().to_string(),
        "BatchNorm feature extent differs from its built extent"
    );
    let untracked = norm.track_running_stats(false);
    assert_eq!(
        untracked.output_shape(&input).unwrap_err().to_string(),
        "BatchNorm track_running_stats changed after build"
    );
    let plain = BatchNorm::new(a("c")).affine(false);
    assert_eq!(layout(&plain.output_shape(&input)?), layout(&input));
    Ok(())
}

#[test]
fn group_and_instance_norm_check_channel_grouping() -> Result<(), Error> {
    assert_eq!(
        GroupNorm::new(a("c"), 0, vec![]).err().unwrap().to_string(),
        "GroupNorm groups must be positive"
    );
    assert_eq!(
        GroupNorm::new(a("c"), 2, vec![a("c")]).err().unwrap().to_string(),
        "GroupNorm channel cannot also be a sample axis"
    );
    let mut group = GroupNorm::new(a("c"), 2, vec![a("h")])?;
    let input = shape(&[("batch", 2), ("c", 6), ("h", 5)]);
    assert_eq!(layout(&group.bind(&input)?), layout(&input));
    assert_eq!(
        group.output_shape(&shape(&[("c", 7), ("h", 5)])).unwrap_err().to_string(),
        "GroupNorm channels must be divisible by groups"
    );
    assert_eq!(
        group.output_shape(&shape(&[("c", 8), ("h", 5)])).unwrap_err().to_string(),
        "GroupNorm channel geometry differs from its built geometry"
    );
    assert_eq!(
        InstanceNorm::new(a("c"), vec![]).err().unwrap().to_string(),
        "InstanceNorm requires at least one normalized axis"
    );
    let mut instance = InstanceNorm::new(a("c"), vec![a("h")])?.track_running_stats(true);
    assert_eq!(layout(&instance.bind(&input)?), layout(&input));
    assert_eq!(
        instance.output_shape(&shape(&[("c", 0), ("h", 5)])).unwrap_err().to_string(),
        "InstanceNorm groups must be positive"
    );
    let stopped = instance.track_running_stats(false);
    assert_eq!(
        stopped.output_shape(&input).unwrap_err().to_string(),
        "InstanceNorm track_running_stats changed after build"
    );
    assert_eq!(
        LocalResponseNorm::new(a("c"), 0).err().unwrap().to_string(),
        "LocalResponseNorm size must be positive"
    );
    let lrn = LocalResponseNorm::new(a("c"), 3)?;
    assert_eq!(layout(&lrn.output_shape(&input)?), layout(&input));
    Ok(())
}

#[test]
fn broadcast_takes_the_operand_whose_axes_cover_the_other() -> Result<(), Error> {
    let wide = shape(&[("batch", 2), ("f", 3)]);
    let narrow = shape(&[("f", 3)]);
    assert_eq!(layout(&broadcast_shape(&wide, &narrow)?), vec![("batch", 2), ("f", 3)]);
    assert_eq!(layout(&broadcast_shape(&narrow, &wide)?), vec![("batch", 2), ("f", 3)]);
    let swapped = shape(&[("f", 3), ("batch", 2)]);
    assert_eq!(layout(&broadcast_shape(&wide, &swapped)?), vec![("batch", 2), ("f", 3)]);
    assert_eq!(
        broadcast_shape(&shape(&[("batch", 2)]), &narrow).unwrap_err().to_string(),
        "incomparable axis sets: elementwise broadcasting cannot introduce an implicit outer product"
    );
    assert_eq!(
        broadcast_shape(&narrow, &shape(&[("f", 4)])).unwrap_err().to_string(),
        "extent mismatch for \"f\""
    );
    Ok(())
}

#[test]
fn rename_and_select_reshape_one_axis() -> Result<(), Error> {
    let input = shape(&[("batch", 2), ("f", 3)]);
    assert_eq!(layout(&renamed_shape(&input, a("f"), a("g"))?), vec![("batch", 2), ("g", 3)]);
    assert_eq!(
        renamed_shape(&input, a("f"), a("batch")).unwrap_err().to_string(),
        "shape axes must be distinct"
    );
    assert_eq!(renamed_shape(&input, a("x"), a("y")).unwrap_err().to_string(), "shape has no axis x");
    assert_eq!(layout(&selected_shape(&input, a("batch"), 1)?), vec![("f", 3)]);
    assert_eq!(
        selected_shape(&input, a("f"), 3).unwrap_err().to_string(),
        "coordinate 3 is outside \"f\" extent 3"
    );
    Ok(())
}

#[test]
fn stack_inserts_a_new_axis_over_equal_shapes() -> Result<(), Error> {
    let x = shape(&[("h", 2), ("w", 3)]);
    let y = shape(&[("w", 3), ("h", 2)]);
    let stacked = stacked_shape(&[x.clone(), y.clone(), x.clone()], a("s"), 1)?;
    assert_eq!(layout(&stacked), vec![("h", 2), ("s", 3), ("w", 3)]);
    assert_eq!(stacked_shape(&[], a("s"), 0).unwrap_err().to_string(), "stack requires at least one tensor");
    assert_eq!(
        stacked_shape(&[x.clone()], a("s"), 3).unwrap_err().to_string(),
        "stack position is outside the output rank"
    );
    assert_eq!(
        stacked_shape(&[x.clone()], a("h"), 0).unwrap_err().to_string(),
        "stack axis \"h\" already exists in its inputs"
    );
    assert_eq!(
        stacked_shape(&[x.clone(), shape(&[("h", 2)])], a("s"), 0).unwrap_err().to_string(),
        "stack requires identical input axis sets"
    );
    assert_eq!(
        stacked_shape(&[x.clone(), shape(&[("h", 2), ("w", 4)])], a("s"), 0).unwrap_err().to_string(),
        "extent mismatch for \"w\""
    );
    Ok(())
}

#[test]
fn concat_sums_extents_along_the_shared_axis() -> Result<(), Error> {
    let x = shape(&[("t", 2), ("f", 3)]);
    let y = shape(&[("f", 3), ("t", 5)]);
    assert_eq!(layout(&concatenated_shape(&[x.clone(), y.clone()], a("t"))?), vec![("t", 7), ("f", 3)]);
    assert_eq!(concatenated_shape(&[], a("t")).unwrap_err().to_string(), "concat requires at least one tensor");
    assert_eq!(concatenated_shape(&[x.clone()], a("q")).unwrap_err().to_string(), "shape has no axis q");
    assert_eq!(
        concatenated_shape(&[x.clone(), shape(&[("t", 1)])], a("t")).unwrap_err().to_string(),
        "concat requires identical input axis sets"
    );
    assert_eq!(
        concatenated_shape(&[x.clone(), shape(&[("t", 1), ("f", 4)])], a("t")).unwrap_err().to_string(),
        "concat requires matching extent for \"f\""
    );
    let huge = shape(&[("t", usize::MAX), ("f", 0)]);
    let zero = shape(&[("t", 1), ("f", 0)]);
    assert_eq!(
        concatenated_shape(&[huge, zero], a("t")).unwrap_err().to_string(),
        "concat extent overflow"
    );
    Ok(())
}

#[test]
fn select_after_stack_and_rename_back_restore_the_shape() -> Result<(), Error> {
    let x = shape(&[("h", 2), ("w", 3)]);
    let stacked = stacked_shape(&[x.clone(), x.clone()], a("s"), 2)?;
    assert_eq!(layout(&selected_shape(&stacked, a("s"), 1)?), layout(&x));
    let renamed = renamed_shape(&x, a("w"), a("width"))?;
    assert_eq!(layout(&renamed_shape(&renamed, a("width"), a("w"))?), layout(&x));
    Ok(())
}

#[test]
fn recurrent_cells_replace_the_input_axis_with_the_hidden_one() -> Result<(), Error> {
    assert_eq!(
        LstmCell::new(a("x"), a("h").of(0)).err().unwrap().to_string(),
        "LSTM hidden extent must be positive"
    );
    let mut cell = LstmCell::new(a("x"), a("h").of(4))?;
    let input = shape(&[("batch", 2), ("x", 3)]);
    assert_eq!(layout(&cell.bind(&input)?), vec![("batch", 2), ("h", 4)]);
    assert_eq!(
        cell.output_shape(&shape(&[("x", 5)])).unwrap_err().to_string(),
        "LSTM input extent differs from its built extent"
    );
    let mut huge = GruCell::new(a("x"), a("h").of(usize::MAX))?;
    assert_eq!(huge.bind(&shape(&[("x", 1)])).unwrap_err().to_string(), "GRU gate extent overflow");
    let rnn = RnnCell::new(a("x"), a("h").of(2))?.nonlinearity(RnnNonlinearity::Relu);
    assert_eq!(layout(&rnn.output_shape(&input)?), vec![("batch", 2), ("h", 2)]);
    Ok(())
}

#[test]
fn recurrent_sequences_keep_the_time_axis() -> Result<(), Error> {
    assert_eq!(
        Lstm::new(a("x"), a("h").of(4), a("x")).err().unwrap().to_string(),
        "LSTM time must be distinct from its input and hidden axes"
    );
    assert_eq!(
        Gru::new(a("x"), a("h").of(0), a("t")).err().unwrap().to_string(),
        "GRU hidden extent must be positive"
    );
    let mut lstm = Lstm::new(a("x"), a("h").of(4), a("t"))?;
    let input = shape(&[("batch", 2), ("t", 7), ("x", 3)]);
    assert_eq!(layout(&lstm.bind(&input)?), vec![("batch", 2), ("t", 7), ("h", 4)]);
    assert_eq!(
        lstm.output_shape(&shape(&[("batch", 2), ("x", 3)])).unwrap_err().to_string(),
        "shape has no axis t"
    );
    assert_eq!(
        lstm.output_shape(&shape(&[("t", 2), ("x", 9)])).unwrap_err().to_string(),
        "LSTM input extent differs from its built extent"
    );
    let rnn = Rnn::new(a("x"), a("h").of(2), a("t"))?.nonlinearity(RnnNonlinearity::Tanh);
    assert_eq!(layout(&rnn.output_shape(&input)?), vec![("batch", 2), ("t", 7), ("h", 2)]);
    Ok(())
}

#[test]
fn dictionaries_reject_repeated_keys_and_read_back_writes() -> Result<(), Error> {
    let repeated = ModuleDict::new(vec![("a".to_string(), 1), ("b".to_string(), 2), ("a".to_string(), 3)]);
    assert_eq!(repeated.err().unwrap().to_string(), "ModuleDict contains duplicate key \"a\"");
    let mut dict = ParameterDict::new(vec![("w".to_string(), 10)])?;
    dict.insert("b".to_string(), 20)?;
    assert_eq!(
        dict.insert("w".to_string(), 30).unwrap_err().to_string(),
        "ParameterDict contains duplicate key \"w\""
    );
    assert_eq!(dict.get("w"), Some(&10));
    assert_eq!(dict.get("b"), Some(&20));
    assert_eq!(dict.get("missing"), None);
    assert_eq!(dict.len(), 2);
    assert!(!dict.is_empty());
    Ok(())
}

#[test]
fn lists_index_their_entries_in_order() {
    let mut list = ModuleList::new(vec!["first"]);
    list.push("second");
    assert_eq!(list.len(), 2);
    assert_eq!(list.get(1), Some(&"second"));
    assert_eq!(list.get(2), None);
    let empty: ParameterList<u8> = ParameterList::new(vec![]);
    assert!(empty.is_empty());
}

#[test]
fn sequential_threads_the_shape_through_its_layers() -> Result<(), Error> {
    let layers: Vec<Box<dyn Module>> = vec![
        Box::new(Conv2d::new(a("c"), a("c").of(4), [a("h"), a("w")], [3, 3]).padding([1, 1])),
        Box::new(BatchNorm::new(a("c"))),
        Box::new(ReLU),
        Box::new(Flatten::new(vec![a("c"), a("h"), a("w")], a("c"))),
        Box::new(Linear::new(a("c"), a("c").of(10))),
    ];
    let net = Sequential::new(layers);
    let input = shape(&[("batch", 2), ("c", 3), ("h", 5), ("w", 5)]);
    assert_eq!(layout(&Module::output_shape(&net, &input)?), vec![("batch", 2), ("c", 10)]);
    let missing = shape(&[("batch", 2), ("h", 5), ("w", 5)]);
    assert_eq!(Module::output_shape(&net, &missing).unwrap_err().to_string(), "shape has no axis c");
    let list: ModuleList<Box<dyn Module>> = ModuleList::new(vec![Box::new(ReLU)]);
    assert_eq!(
        Module::output_shape(&list, &input).unwrap_err().to_string(),
        "ModuleList has no forward of its own; call output_shape on a held module directly"
    );
    Ok(())
}

#[test]
fn residual_blocks_follow_their_main_path() -> Result<(), Error> {
    let axes = ResNetAxes { channel: a("channel"), height: a("height"), width: a("width") };
    let input = shape(&[("batch", 1), ("channel", 64), ("height", 56), ("width", 56)]);
    let basic = BasicBlock::new(axes, 64, 128, 2);
    assert_eq!(
        layout(&Module::output_shape(&basic, &input)?),
        vec![("batch", 1), ("height", 28), ("width", 28), ("channel", 128)]
    );
    let bottleneck = Bottleneck::new(axes, 64, 64, 1);
    assert_eq!(
        layout(&Module::output_shape(&bottleneck, &input)?),
        vec![("batch", 1), ("height", 56), ("width", 56), ("channel", 256)]
    );
    assert_eq!(
        Module::output_shape(&basic, &shape(&[("channel", 64), ("height", 0), ("width", 2)]))
            .unwrap_err()
            .to_string(),
        "Conv2d kernel must fit the padded spatial axes"
    );
    Ok(())
}

#[test]
fn transposed_convolution_restores_the_extents_a_convolution_reduced() -> Result<(), Error> {
    let input = shape(&[("c", 3), ("h", 8), ("w", 7)]);
    let down = Conv2d::new(a("c"), a("c").of(8), [a("h"), a("w")], [3, 3]).stride([2, 2]).padding([1, 1]);
    let reduced = down.output_shape(&input)?;
    assert_eq!(layout(&reduced), vec![("h", 4), ("w", 4), ("c", 8)]);
    let up = ConvTranspose2d::new(a("c"), a("c").of(3), [a("h"), a("w")], [3, 3])
        .stride([2, 2])
        .padding([1, 1])
        .output_padding([1, 0]);
    assert_eq!(layout(&up.output_shape(&reduced)?), vec![("h", 8), ("w", 7), ("c", 3)]);
    Ok(())
}

#[test]
fn unpooling_accepts_the_extents_a_pooling_reduced() -> Result<(), Error> {
    let input = shape(&[("c", 1), ("h", 5), ("w", 4)]);
    let pooled = MaxPool2d::new(a("c"), [a("h"), a("w")], [2, 2]).output_shape(&input)?;
    assert_eq!(layout(&pooled), vec![("h", 2), ("w", 2), ("c", 1)]);
    let unpool = MaxUnpool2d::new([a("h"), a("w")], [2, 2]);
    assert_eq!(unpool.output_sizes(&pooled, None)?, [4, 4]);
    assert_eq!(unpool.output_sizes(&pooled, Some([5, 4]))?, [5, 4]);
    Ok(())
}

#[test]
fn average_pool_divisors_clip_overhanging_and_padded_windows() -> Result<(), Error> {
    let input = shape(&[("c", 2), ("h", 5), ("w", 5)]);
    let ceil = AvgPool2d::new(a("c"), [a("h"), a("w")], [2, 2]).ceil_mode(true);
    let g = ceil.geometry(&input)?;
    assert_eq!(g.output, [3, 3]);
    assert_eq!(ceil.window_divisors(&g), [4, 4, 2, 4, 4, 2, 2, 2, 1]);
    let overridden = ceil.divisor_override(7);
    assert_eq!(overridden.window_divisors(&g), [7; 9]);

    let input = shape(&[("c", 1), ("h", 4), ("w", 4)]);
    let padded = AvgPool2d::new(a("c"), [a("h"), a("w")], [3, 3]).stride([2, 2]).padding([1, 1]);
    let g = padded.geometry(&input)?;
    assert_eq!(g.output, [2, 2]);
    assert_eq!(padded.window_divisors(&g), [9, 9, 9, 9]);
    assert_eq!(padded.count_include_pad(false).window_divisors(&g), [4, 6, 6, 9]);
    assert_eq!(pool_window_counts(&[4], &[2], &[3], &[2], &[1], false), [2, 3]);
    Ok(())
}

#[test]
fn cross_entropy_drops_the_class_axis_and_checks_its_targets() -> Result<(), Error> {
    let logits = shape(&[("batch", 4), ("class", 3)]);
    let targets = shape(&[("batch", 4), ("class", 3)]);
    assert_eq!(layout(&cross_entropy_shape(&logits, &targets, a("class"))?), [("batch", 4)]);
    let broadcast = shape(&[("class", 3)]);
    assert_eq!(layout(&cross_entropy_shape(&logits, &broadcast, a("class"))?), [("batch", 4)]);
    let missing = shape(&[("batch", 4)]);
    assert_eq!(
        cross_entropy_shape(&logits, &missing, a("class")).unwrap_err().to_string(),
        "categorical_cross_entropy_with_logits targets must contain the class axis and may omit only broadcast axes"
    );
    let mismatched = shape(&[("batch", 2), ("class", 3)]);
    assert!(cross_entropy_shape(&logits, &mismatched, a("class"))
        .unwrap_err()
        .to_string()
        .starts_with("extent mismatch for"));
    let single = shape(&[("batch", 4), ("class", 1)]);
    assert_eq!(
        cross_entropy_shape(&single, &single, a("class")).unwrap_err().to_string(),
        "categorical cross-entropy requires at least two classes"
    );
    Ok(())
}
