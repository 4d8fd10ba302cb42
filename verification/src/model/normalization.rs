//! Shape algebra of the normalization layers: declared axes, normalized dimensions and what
//! a build fixes.
use crate::axis::{self, Axis, Dim, DimView, Shape};
use crate::error::Error;
use crate::geometry;
use crate::text;
use vstd::prelude::*;
use vstd::string::StringExecFns;

verus! {

/// The position of the first name in `n` that repeats an earlier one.
pub open spec fn first_repeat(n: Seq<Seq<char>>) -> Option<int>
    decreases n.len(),
{
    if n.len() == 0 {
        None
    } else {
        match first_repeat(n.drop_last()) {
            Some(i) => Some(i),
            None => if n.drop_last().contains(n.last()) {
                Some(n.len() - 1)
            } else {
                None
            },
        }
    }
}

/// The axes a normalization declares: nonempty unless `allow_empty`, and with no axis named
/// twice.
pub open spec fn declared_outcome(n: Seq<Seq<char>>, owner: Seq<char>, allow_empty: bool) -> Option<
    Seq<char>,
> {
    if !allow_empty && n.len() == 0 {
        Some(owner + " requires at least one normalized axis"@)
    } else {
        match first_repeat(n) {
            Some(i) => Some(owner + " contains duplicate axis "@ + text::debug_text(n[i])),
            None => None,
        }
    }
}

pub(crate) proof fn lemma_first_repeat_sticks(n: Seq<Seq<char>>, k: int)
    requires
        0 <= k <= n.len(),
        first_repeat(n.take(k)) is Some,
    ensures
        first_repeat(n) == first_repeat(n.take(k)),
    decreases n.len() - k,
{
    if k < n.len() {
        assert(n.take(k + 1).drop_last() =~= n.take(k));
        lemma_first_repeat_sticks(n, k + 1);
    } else {
        assert(n.take(k) =~= n);
    }
}

/// Validate a normalization's declared axes.
#[verifier::loop_isolation(false)]
pub fn declared_axes(axes: &[Axis], owner: &str, allow_empty: bool) -> (r: Result<Vec<Axis>, Error>)
    ensures
        declared_outcome(geometry::names(axes@), owner@, allow_empty) matches Some(m) ==> r is Err
            && r->Err_0@ == m,
        declared_outcome(geometry::names(axes@), owner@, allow_empty) is None ==> r is Ok
            && r->Ok_0@ == axes@,
{
    let ghost n = geometry::names(axes@);
    let len = axes.len();
    if !allow_empty && len == 0 {
        let mut m = String::from_str(owner);
        m.append(" requires at least one normalized axis");
        return Err(Error::new(m));
    }
    let mut out: Vec<Axis> = Vec::new();
    let mut i: usize = 0;
    assert(n.take(0) =~= Seq::<Seq<char>>::empty());
    while i < len
        invariant
            len == axes@.len(),
            n == geometry::names(axes@),
            i <= len,
            first_repeat(n.take(i as int)) is None,
            out@ == axes@.take(i as int),
        decreases len - i,
    {
        let ghost t = n.take(i as int + 1);
        assert(t.drop_last() =~= n.take(i as int));
        let mut j: usize = 0;
        while j < i
            invariant
                len == axes@.len(),
                n == geometry::names(axes@),
                i < len,
                j <= i,
                forall|k: int| 0 <= k < j ==> n[k] != n[i as int],
            decreases i - j,
        {
            if axes[j].same(&axes[i]) {
                let mut m = String::from_str(owner);
                m.append(" contains duplicate axis ");
                m.append(text::debug_quoted(axes[i].name()).as_str());
                proof {
                    assert(n[j as int] == n[i as int]);
                    assert(t.drop_last()[j as int] == t.last());
                    assert(first_repeat(t) == Some(i as int));
                    lemma_first_repeat_sticks(n, i as int + 1);
                }
                return Err(Error::new(m));
            }
            j = j + 1;
        }
        proof {
            if t.drop_last().contains(t.last()) {
                let k = choose|k: int| 0 <= k < t.drop_last().len() && t.drop_last()[k] == t.last();
                assert(n[k] == n[i as int]);
            }
        }
        out.push(axes[i]);
        assert(out@ =~= axes@.take(i as int + 1));
        i = i + 1;
    }
    assert(n.take(len as int) =~= n);
    assert(axes@.take(len as int) =~= axes@);
    Ok(out)
}

/// The dimensions of `axes` in `input`, in the order given.
pub fn selected_dims(input: &Shape, axes: &[Axis]) -> (r: Result<Vec<Dim>, Error>)
    ensures
        geometry::extents_of(input@, geometry::names(axes@)) matches Err(m) ==> r is Err
            && r->Err_0@ == m,
        geometry::extents_of(input@, geometry::names(axes@)) matches Ok(e) ==> r is Ok
            && r->Ok_0@.len() == axes@.len() && forall|i: int|
            0 <= i < axes@.len() ==> #[trigger] r->Ok_0@[i] == (Dim { axis: axes@[i], extent: e[i] }),
{
    let extents = geometry::extents(input, axes)?;
    let n = axes.len();
    let mut dims: Vec<Dim> = Vec::new();
    let mut i: usize = 0;
    while i < n
        invariant
            n == axes@.len(),
            extents@.len() == n,
            i <= n,
            dims@.len() == i,
            forall|k: int| 0 <= k < i ==> #[trigger] dims@[k] == (Dim { axis: axes@[k], extent: extents@[k] }),
        decreases n - i,
    {
        dims.push(axes[i].of(extents[i]));
        i = i + 1;
    }
    Ok(dims)
}

/// Every axis of `input` except `feature`, which must be present, in order.
pub fn non_feature_axes(input: &Shape, feature: Axis) -> (r: Result<Vec<Axis>, Error>)
    ensures
        !axis::has_axis(input@, feature@) ==> r is Err && r->Err_0@ == axis::missing_axis_message(
            feature@,
        ),
        axis::has_axis(input@, feature@) ==> r is Ok && geometry::names(r->Ok_0@) == input@.map_values(
            |d: DimView| d.0,
        ).filter(|a: Seq<char>| a != feature@),
{
    input.extent(feature)?;
    let dims = input.dims();
    let ghost names = input@.map_values(|d: DimView| d.0);
    let ghost keep = |a: Seq<char>| a != feature@;
    let n = dims.len();
    let mut out: Vec<Axis> = Vec::new();
    let mut i: usize = 0;
    assert(names.take(0) =~= Seq::<Seq<char>>::empty());
    proof {
        reveal(Seq::filter);
    }
    while i < n
        invariant
            n == dims@.len(),
            axis::dims_view(dims@) == input@,
            names == input@.map_values(|d: DimView| d.0),
            keep == (|a: Seq<char>| a != feature@),
            i <= n,
            geometry::names(out@) == names.take(i as int).filter(keep),
        decreases n - i,
    {
        let ghost t = names.take(i as int + 1);
        assert(t.drop_last() =~= names.take(i as int));
        assert(t.last() == dims@[i as int].axis@);
        let a = dims[i].axis;
        let ghost before = out@;
        proof {
            assert(t == names.take(i as int).push(t.last()));
            names.take(i as int).lemma_filter_push(t.last(), keep);
        }
        if !a.same(&feature) {
            out.push(a);
            assert(geometry::names(out@) =~= geometry::names(before).push(a@));
        }
        assert(geometry::names(out@) =~= t.filter(keep));
        i = i + 1;
    }
    assert(names.take(n as int) =~= names);
    Ok(out)
}

} // verus!

verus! {

/// The dimensions named `n`, at the extents `e`.
pub open spec fn named_dims(n: Seq<Seq<char>>, e: Seq<usize>) -> Seq<DimView> {
    Seq::new(n.len(), |i: int| (n[i], e[i]))
}

/// Normalizing over the axes `n` of `v`: the shape is unchanged; the axes must be present,
/// and once the layer is built their extents and the affine choice are fixed.
pub open spec fn axis_norm_outcome(
    v: Seq<DimView>,
    owner: Seq<char>,
    n: Seq<Seq<char>>,
    affine: bool,
    bound: Option<(Seq<DimView>, bool)>,
) -> Result<Seq<DimView>, Seq<char>> {
    match geometry::extents_of(v, n) {
        Err(m) => Err(m),
        Ok(e) => if bound is Some && bound->Some_0.0 != named_dims(n, e) {
            Err(owner + " normalized extents differ from its built extents"@)
        } else if bound is Some && bound->Some_0.1 != affine {
            Err(owner + " affine configuration changed after build"@)
        } else {
            Ok(v)
        },
    }
}

/// The view of a recorded axis-normalization binding.
pub open spec fn axis_norm_binding(bound: Option<(Vec<Dim>, bool)>) -> Option<(Seq<DimView>, bool)> {
    match bound {
        Some((d, a)) => Some((axis::dims_view(d@), a)),
        None => None,
    }
}

/// Whether two dimension lists agree axis for axis and extent for extent.
fn same_dims(a: &[Dim], b: &[Dim]) -> (r: bool)
    ensures
        r == (axis::dims_view(a@) == axis::dims_view(b@)),
{
    if a.len() != b.len() {
        assert(axis::dims_view(a@).len() != axis::dims_view(b@).len());
        return false;
    }
    let n = a.len();
    let mut i: usize = 0;
    while i < n
        invariant
            n == a@.len(),
            n == b@.len(),
            i <= n,
            forall|k: int| 0 <= k < i ==> a@[k]@ == b@[k]@,
        decreases n - i,
    {
        if !a[i].axis.same(&b[i].axis) || a[i].extent != b[i].extent {
            assert(axis::dims_view(a@)[i as int] != axis::dims_view(b@)[i as int]);
            return false;
        }
        i = i + 1;
    }
    assert(axis::dims_view(a@) =~= axis::dims_view(b@));
    true
}

/// The selected dimensions of `axes`, checked against a recorded binding.
fn axis_norm_dims(
    input: &Shape,
    owner: &str,
    axes: &[Axis],
    affine: bool,
    bound: &Option<(Vec<Dim>, bool)>,
) -> (r: Result<Vec<Dim>, Error>)
    ensures
        axis_norm_outcome(input@, owner@, geometry::names(axes@), affine, axis_norm_binding(*bound))
            matches Err(m) ==> r is Err && r->Err_0@ == m,
        axis_norm_outcome(input@, owner@, geometry::names(axes@), affine, axis_norm_binding(*bound))
            is Ok ==> r is Ok && geometry::extents_of(input@, geometry::names(axes@)) is Ok
            && axis::dims_view(r->Ok_0@) == named_dims(
            geometry::names(axes@),
            geometry::extents_of(input@, geometry::names(axes@))->Ok_0,
        ),
{
    let dims = selected_dims(input, axes)?;
    let ghost e = geometry::extents_of(input@, geometry::names(axes@))->Ok_0;
    assert(axis::dims_view(dims@) =~= named_dims(geometry::names(axes@), e));
    match bound {
        Some((built, was_affine)) => {
            if !same_dims(built.as_slice(), dims.as_slice()) {
                let mut m = String::from_str(owner);
                m.append(" normalized extents differ from its built extents");
                return Err(Error::new(m));
            }
            if *was_affine != affine {
                let mut m = String::from_str(owner);
                m.append(" affine configuration changed after build");
                return Err(Error::new(m));
            }
        },
        None => {},
    }
    Ok(dims)
}

/// Layer normalization over declared named axes. Only the shape algebra lives here: the
/// axes, the affine choice, and what a build recorded.
pub struct LayerNorm {
    axes: Vec<Axis>,
    affine: bool,
    bound: Option<(Vec<Dim>, bool)>,
}

impl LayerNorm {
    pub closed spec fn axes_spec(&self) -> Seq<Seq<char>> {
        geometry::names(self.axes@)
    }

    pub closed spec fn affine_spec(&self) -> bool {
        self.affine
    }

    /// The normalized dimensions and affine choice recorded by a build, if any.
    pub closed spec fn bound_spec(&self) -> Option<(Seq<DimView>, bool)> {
        axis_norm_binding(self.bound)
    }

    /// Normalize over `axes`, which must be nonempty and distinct; affine by default.
    pub fn new(axes: Vec<Axis>) -> (r: Result<Self, Error>)
        ensures
            declared_outcome(geometry::names(axes@), "LayerNorm"@, false) matches Some(m) ==> r is Err
                && r->Err_0@ == m,
            declared_outcome(geometry::names(axes@), "LayerNorm"@, false) is None ==> r is Ok
                && r->Ok_0.axes_spec() == geometry::names(axes@) && r->Ok_0.affine_spec()
                && r->Ok_0.bound_spec() is None,
    {
        let axes = declared_axes(axes.as_slice(), "LayerNorm", false)?;
        Ok(LayerNorm { axes, affine: true, bound: None })
    }

    pub fn affine(self, affine: bool) -> (l: Self)
        ensures
            l.axes_spec() == self.axes_spec(),
            l.affine_spec() == affine,
            l.bound_spec() == self.bound_spec(),
    {
        LayerNorm { affine, ..self }
    }

    /// The input shape itself, once the normalized axes check out.
    pub fn output_shape(&self, input: &Shape) -> (r: Result<Shape, Error>)
        ensures
            axis_norm_outcome(
                input@,
                "LayerNorm"@,
                self.axes_spec(),
                self.affine_spec(),
                self.bound_spec(),
            ) matches Ok(d) ==> r is Ok && r->Ok_0@ == d,
            axis_norm_outcome(
                input@,
                "LayerNorm"@,
                self.axes_spec(),
                self.affine_spec(),
                self.bound_spec(),
            ) matches Err(m) ==> r is Err && r->Err_0@ == m,
    {
        axis_norm_dims(input, "LayerNorm", self.axes.as_slice(), self.affine, &self.bound)?;
        Ok(input.clone())
    }

    /// Record that the layer's parameters were built for `input`, as a successful build does,
    /// and give the output shape. The first record keeps the normalized dimensions and affine
    /// choice; a later one changes nothing.
    pub fn bind(&mut self, input: &Shape) -> (r: Result<Shape, Error>)
        ensures
            axis_norm_outcome(
                input@,
                "LayerNorm"@,
                old(self).axes_spec(),
                old(self).affine_spec(),
                old(self).bound_spec(),
            ) matches Ok(d) ==> r is Ok && r->Ok_0@ == d,
            axis_norm_outcome(
                input@,
                "LayerNorm"@,
                old(self).axes_spec(),
                old(self).affine_spec(),
                old(self).bound_spec(),
            ) matches Err(m) ==> r is Err && r->Err_0@ == m,
            final(self).axes_spec() == old(self).axes_spec(),
            final(self).affine_spec() == old(self).affine_spec(),
            final(self).bound_spec() == (if r is Ok && old(self).bound_spec() is None {
                Some(
                    (
                        named_dims(
                            old(self).axes_spec(),
                            geometry::extents_of(input@, old(self).axes_spec())->Ok_0,
                        ),
                        old(self).affine_spec(),
                    ),
                )
            } else {
                old(self).bound_spec()
            }),
    {
        let dims = axis_norm_dims(input, "LayerNorm", self.axes.as_slice(), self.affine, &self.bound)?;
        if self.bound.is_none() {
            self.bound = Some((dims, self.affine));
        }
        Ok(input.clone())
    }
}

/// Root-mean-square normalization over declared named axes. Only the shape algebra lives
/// here: the axes, the affine choice, and what a build recorded.
pub struct RmsNorm {
    axes: Vec<Axis>,
    affine: bool,
    bound: Option<(Vec<Dim>, bool)>,
}

impl RmsNorm {
    pub closed spec fn axes_spec(&self) -> Seq<Seq<char>> {
        geometry::names(self.axes@)
    }

    pub closed spec fn affine_spec(&self) -> bool {
        self.affine
    }

    /// The normalized dimensions and affine choice recorded by a build, if any.
    pub closed spec fn bound_spec(&self) -> Option<(Seq<DimView>, bool)> {
        axis_norm_binding(self.bound)
    }

    /// Normalize over `axes`, which must be nonempty and distinct; affine by default.
    pub fn new(axes: Vec<Axis>) -> (r: Result<Self, Error>)
        ensures
            declared_outcome(geometry::names(axes@), "RmsNorm"@, false) matches Some(m) ==> r is Err
                && r->Err_0@ == m,
            declared_outcome(geometry::names(axes@), "RmsNorm"@, false) is None ==> r is Ok
                && r->Ok_0.axes_spec() == geometry::names(axes@) && r->Ok_0.affine_spec()
                && r->Ok_0.bound_spec() is None,
    {
        let axes = declared_axes(axes.as_slice(), "RmsNorm", false)?;
        Ok(RmsNorm { axes, affine: true, bound: None })
    }

    pub fn affine(self, affine: bool) -> (l: Self)
        ensures
            l.axes_spec() == self.axes_spec(),
            l.affine_spec() == affine,
            l.bound_spec() == self.bound_spec(),
    {
        RmsNorm { affine, ..self }
    }

    /// The input shape itself, once the normalized axes check out.
    pub fn output_shape(&self, input: &Shape) -> (r: Result<Shape, Error>)
        ensures
            axis_norm_outcome(
                input@,
                "RmsNorm"@,
                self.axes_spec(),
                self.affine_spec(),
                self.bound_spec(),
            ) matches Ok(d) ==> r is Ok && r->Ok_0@ == d,
            axis_norm_outcome(
                input@,
                "RmsNorm"@,
                self.axes_spec(),
                self.affine_spec(),
                self.bound_spec(),
            ) matches Err(m) ==> r is Err && r->Err_0@ == m,
    {
        axis_norm_dims(input, "RmsNorm", self.axes.as_slice(), self.affine, &self.bound)?;
        Ok(input.clone())
    }

    /// Record that the layer's parameters were built for `input`, as a successful build does,
    /// and give the output shape. The first record keeps the normalized dimensions and affine
    /// choice; a later one changes nothing.
    pub fn bind(&mut self, input: &Shape) -> (r: Result<Shape, Error>)
        ensures
            axis_norm_outcome(
                input@,
                "RmsNorm"@,
                old(self).axes_spec(),
                old(self).affine_spec(),
                old(self).bound_spec(),
            ) matches Ok(d) ==> r is Ok && r->Ok_0@ == d,
            axis_norm_outcome(
                input@,
                "RmsNorm"@,
                old(self).axes_spec(),
                old(self).affine_spec(),
                old(self).bound_spec(),
            ) matches Err(m) ==> r is Err && r->Err_0@ == m,
            final(self).axes_spec() == old(self).axes_spec(),
            final(self).affine_spec() == old(self).affine_spec(),
            final(self).bound_spec() == (if r is Ok && old(self).bound_spec() is None {
                Some(
                    (
                        named_dims(
                            old(self).axes_spec(),
                            geometry::extents_of(input@, old(self).axes_spec())->Ok_0,
                        ),
                        old(self).affine_spec(),
                    ),
                )
            } else {
                old(self).bound_spec()
            }),
    {
        let dims = axis_norm_dims(input, "RmsNorm", self.axes.as_slice(), self.affine, &self.bound)?;
        if self.bound.is_none() {
            self.bound = Some((dims, self.affine));
        }
        Ok(input.clone())
    }
}

/// Batch normalization over every axis but `feature`: the shape is unchanged, `feature`
/// must be present, and once built its extent, the affine choice and the running-statistics
/// choice are fixed.
pub open spec fn batch_norm_outcome(
    v: Seq<DimView>,
    feature: Seq<char>,
    affine: bool,
    track: bool,
    bound: Option<(usize, bool, bool)>,
) -> Result<Seq<DimView>, Seq<char>> {
    if !axis::has_axis(v, feature) {
        Err(axis::missing_axis_message(feature))
    } else if bound is Some && bound->Some_0.0 != axis::axis_extent(v, feature) {
        Err("BatchNorm feature extent differs from its built extent"@)
    } else if bound is Some && bound->Some_0.1 != affine {
        Err("BatchNorm affine configuration changed after build"@)
    } else if bound is Some && bound->Some_0.2 != track {
        Err("BatchNorm track_running_stats changed after build"@)
    } else {
        Ok(v)
    }
}

/// Batch normalization of one `feature` axis. Only the shape algebra lives here: the
/// affine and running-statistics choices, and what a build recorded (the feature extent and
/// both choices).
pub struct BatchNorm {
    feature: Axis,
    affine: bool,
    track_running_stats: bool,
    bound: Option<(usize, bool, bool)>,
}

impl BatchNorm {
    pub closed spec fn feature_spec(&self) -> Seq<char> {
        self.feature@
    }

    pub closed spec fn affine_spec(&self) -> bool {
        self.affine
    }

    pub closed spec fn tracks_running_stats(&self) -> bool {
        self.track_running_stats
    }

    /// The (feature extent, affine, running statistics) a build recorded, if any.
    pub closed spec fn bound_spec(&self) -> Option<(usize, bool, bool)> {
        self.bound
    }

    /// Affine, with running statistics, by default.
    pub fn new(feature: Axis) -> (b: Self)
        ensures
            b.feature_spec() == feature@,
            b.affine_spec(),
            b.tracks_running_stats(),
            b.bound_spec() is None,
    {
        BatchNorm { feature, affine: true, track_running_stats: true, bound: None }
    }

    pub fn affine(self, affine: bool) -> (b: Self)
        ensures
            b.feature_spec() == self.feature_spec(),
            b.affine_spec() == affine,
            b.tracks_running_stats() == self.tracks_running_stats(),
            b.bound_spec() == self.bound_spec(),
    {
        BatchNorm { affine, ..self }
    }

    pub fn track_running_stats(self, track: bool) -> (b: Self)
        ensures
            b.feature_spec() == self.feature_spec(),
            b.affine_spec() == self.affine_spec(),
            b.tracks_running_stats() == track,
            b.bound_spec() == self.bound_spec(),
    {
        BatchNorm { track_running_stats: track, ..self }
    }

    /// The input shape itself, once the feature axis and the recorded build check out.
    pub fn output_shape(&self, input: &Shape) -> (r: Result<Shape, Error>)
        ensures
            batch_norm_outcome(
                input@,
                self.feature_spec(),
                self.affine_spec(),
                self.tracks_running_stats(),
                self.bound_spec(),
            ) matches Ok(d) ==> r is Ok && r->Ok_0@ == d,
            batch_norm_outcome(
                input@,
                self.feature_spec(),
                self.affine_spec(),
                self.tracks_running_stats(),
                self.bound_spec(),
            ) matches Err(m) ==> r is Err && r->Err_0@ == m,
    {
        let extent = input.extent(self.feature)?;
        if let Some((built, was_affine, was_tracking)) = self.bound {
            if built != extent {
                return Err(
                    Error::new(
                        String::from_str("BatchNorm feature extent differs from its built extent"),
                    ),
                );
            }
            if was_affine != self.affine {
                return Err(
                    Error::new(
                        String::from_str("BatchNorm affine configuration changed after build"),
                    ),
                );
            }
            if was_tracking != self.track_running_stats {
                return Err(
                    Error::new(
                        String::from_str("BatchNorm track_running_stats changed after build"),
                    ),
                );
            }
        }
        Ok(input.clone())
    }

    /// Record that the layer's parameters were built for `input`, as a successful build does,
    /// and give the output shape. The first record keeps the feature extent and both choices; a
    /// later one changes nothing.
    pub fn bind(&mut self, input: &Shape) -> (r: Result<Shape, Error>)
        ensures
            batch_norm_outcome(
                input@,
                old(self).feature_spec(),
                old(self).affine_spec(),
                old(self).tracks_running_stats(),
                old(self).bound_spec(),
            ) matches Ok(d) ==> r is Ok && r->Ok_0@ == d,
            batch_norm_outcome(
                input@,
                old(self).feature_spec(),
                old(self).affine_spec(),
                old(self).tracks_running_stats(),
                old(self).bound_spec(),
            ) matches Err(m) ==> r is Err && r->Err_0@ == m,
            final(self).feature_spec() == old(self).feature_spec(),
            final(self).affine_spec() == old(self).affine_spec(),
            final(self).tracks_running_stats() == old(self).tracks_running_stats(),
            final(self).bound_spec() == (if r is Ok && old(self).bound_spec() is None {
                Some(
                    (
                        axis::axis_extent(input@, old(self).feature_spec()),
                        old(self).affine_spec(),
                        old(self).tracks_running_stats(),
                    ),
                )
            } else {
                old(self).bound_spec()
            }),
    {
        let shape = self.output_shape(input)?;
        if self.bound.is_none() {
            let extent = input.extent(self.feature)?;
            self.bound = Some((extent, self.affine, self.track_running_stats));
        }
        Ok(shape)
    }
}

/// A channel normalization's declaration: the sample axes (nonempty when required) must be
/// distinct and must not include the channel axis.
pub open spec fn channel_norm_declaration(
    owner: Seq<char>,
    channel: Seq<char>,
    samples: Seq<Seq<char>>,
    require_samples: bool,
) -> Option<Seq<char>> {
    match declared_outcome(samples, owner, !require_samples) {
        Some(m) => Some(m),
        None => if samples.contains(channel) {
            Some(owner + " channel cannot also be a sample axis"@)
        } else {
            None
        },
    }
}

/// Normalizing channel groups of `v` over the sample axes: the shape is unchanged. The
/// channel axis must be present and split evenly into the groups (`fixed` of them, or one per
/// channel); the sample axes must be present; and once built, the channel and group counts
/// and the affine choice are fixed.
pub open spec fn channel_norm_outcome(
    v: Seq<DimView>,
    owner: Seq<char>,
    channel: Seq<char>,
    fixed: Option<usize>,
    samples: Seq<Seq<char>>,
    affine: bool,
    bound: Option<(usize, usize, bool)>,
) -> Result<Seq<DimView>, Seq<char>> {
    if !axis::has_axis(v, channel) {
        Err(axis::missing_axis_message(channel))
    } else {
        let c = axis::axis_extent(v, channel);
        let g = match fixed {
            Some(g) => g,
            None => c,
        };
        if g == 0 {
            Err(owner + " groups must be positive"@)
        } else if c % g != 0 {
            Err(owner + " channels must be divisible by groups"@)
        } else {
            match geometry::extents_of(v, samples) {
                Err(m) => Err(m),
                Ok(_) => if bound is Some && (bound->Some_0.0 != c || bound->Some_0.1 != g) {
                    Err(owner + " channel geometry differs from its built geometry"@)
                } else if bound is Some && bound->Some_0.2 != affine {
                    Err(owner + " affine configuration changed after build"@)
                } else {
                    Ok(v)
                },
            }
        }
    }
}

/// The group count a channel normalization uses for `c` channels.
pub open spec fn group_count(fixed: Option<usize>, c: usize) -> usize {
    match fixed {
        Some(g) => g,
        None => c,
    }
}

/// The shape algebra shared by group and instance normalization.
struct ChannelNorm {
    owner: &'static str,
    channel: Axis,
    groups: Option<usize>,
    sample_axes: Vec<Axis>,
    affine: bool,
    bound: Option<(usize, usize, bool)>,
}

impl ChannelNorm {
    /// Declare the layer; `groups` is `None` for one group per channel.
    fn new(
        owner: &'static str,
        channel: Axis,
        groups: Option<usize>,
        sample_axes: Vec<Axis>,
        affine: bool,
        require_samples: bool,
    ) -> (r: Result<Self, Error>)
        ensures
            channel_norm_declaration(owner@, channel@, geometry::names(sample_axes@), require_samples)
                matches Some(m) ==> r is Err && r->Err_0@ == m,
            channel_norm_declaration(owner@, channel@, geometry::names(sample_axes@), require_samples)
                is None ==> r is Ok && r->Ok_0.owner@ == owner@ && r->Ok_0.channel@ == channel@
                && r->Ok_0.groups == groups && geometry::names(r->Ok_0.sample_axes@)
                == geometry::names(sample_axes@) && r->Ok_0.affine == affine && r->Ok_0.bound is None,
    {
        let sample_axes = declared_axes(sample_axes.as_slice(), owner, !require_samples)?;
        match geometry::find_axis(sample_axes.as_slice(), channel) {
            Some(_) => {
                let mut m = String::from_str(owner);
                m.append(" channel cannot also be a sample axis");
                Err(Error::new(m))
            },
            None => Ok(ChannelNorm { owner, channel, groups, sample_axes, affine, bound: None }),
        }
    }

    /// The channel and group counts for `input`, once the axes and the recorded build check
    /// out.
    fn geometry(&self, input: &Shape) -> (r: Result<(usize, usize), Error>)
        ensures
            channel_norm_outcome(
                input@,
                self.owner@,
                self.channel@,
                self.groups,
                geometry::names(self.sample_axes@),
                self.affine,
                self.bound,
            ) matches Err(m) ==> r is Err && r->Err_0@ == m,
            channel_norm_outcome(
                input@,
                self.owner@,
                self.channel@,
                self.groups,
                geometry::names(self.sample_axes@),
                self.affine,
                self.bound,
            ) is Ok ==> r is Ok && r->Ok_0 == (
                axis::axis_extent(input@, self.channel@),
                group_count(self.groups, axis::axis_extent(input@, self.channel@)),
            ),
    {
        let channels = input.extent(self.channel)?;
        let groups = match self.groups {
            Some(g) => g,
            None => channels,
        };
        if groups == 0 {
            let mut m = String::from_str(self.owner);
            m.append(" groups must be positive");
            return Err(Error::new(m));
        }
        if channels % groups != 0 {
            let mut m = String::from_str(self.owner);
            m.append(" channels must be divisible by groups");
            return Err(Error::new(m));
        }
        geometry::extents(input, self.sample_axes.as_slice())?;
        if let Some((built_channels, built_groups, was_affine)) = self.bound {
            if built_channels != channels || built_groups != groups {
                let mut m = String::from_str(self.owner);
                m.append(" channel geometry differs from its built geometry");
                return Err(Error::new(m));
            }
            if was_affine != self.affine {
                let mut m = String::from_str(self.owner);
                m.append(" affine configuration changed after build");
                return Err(Error::new(m));
            }
        }
        Ok((channels, groups))
    }

    /// Record the channel and group counts and the affine choice on the first successful
    /// build.
    fn bind(&mut self, input: &Shape) -> (r: Result<Shape, Error>)
        ensures
            channel_norm_outcome(
                input@,
                old(self).owner@,
                old(self).channel@,
                old(self).groups,
                geometry::names(old(self).sample_axes@),
                old(self).affine,
                old(self).bound,
            ) matches Ok(d) ==> r is Ok && r->Ok_0@ == d,
            channel_norm_outcome(
                input@,
                old(self).owner@,
                old(self).channel@,
                old(self).groups,
                geometry::names(old(self).sample_axes@),
                old(self).affine,
                old(self).bound,
            ) matches Err(m) ==> r is Err && r->Err_0@ == m,
            final(self).owner == old(self).owner,
            final(self).channel == old(self).channel,
            final(self).groups == old(self).groups,
            final(self).sample_axes@ == old(self).sample_axes@,
            final(self).affine == old(self).affine,
            final(self).bound == (if r is Ok && old(self).bound is None {
                Some(
                    (
                        axis::axis_extent(input@, old(self).channel@),
                        group_count(old(self).groups, axis::axis_extent(input@, old(self).channel@)),
                        old(self).affine,
                    ),
                )
            } else {
                old(self).bound
            }),
    {
        let (channels, groups) = self.geometry(input)?;
        if self.bound.is_none() {
            self.bound = Some((channels, groups, self.affine));
        }
        Ok(input.clone())
    }
}

/// Group normalization: the channel axis split into a fixed number of groups, each
/// normalized over its channels and the declared sample axes. Only the shape algebra lives
/// here.
pub struct GroupNorm {
    inner: ChannelNorm,
}

impl GroupNorm {
    pub closed spec fn channel_spec(&self) -> Seq<char> {
        self.inner.channel@
    }

    pub closed spec fn groups_spec(&self) -> usize {
        self.inner.groups->Some_0
    }

    pub closed spec fn sample_axes_spec(&self) -> Seq<Seq<char>> {
        geometry::names(self.inner.sample_axes@)
    }

    pub closed spec fn affine_spec(&self) -> bool {
        self.inner.affine
    }

    /// The (channels, groups, affine) a build recorded, if any.
    pub closed spec fn bound_spec(&self) -> Option<(usize, usize, bool)> {
        self.inner.bound
    }

    pub closed spec fn well_formed(&self) -> bool {
        self.inner.owner@ == "GroupNorm"@ && self.inner.groups is Some
    }

    /// `groups` groups of `channel`, normalized over the distinct `sample_axes` (which may be
    /// empty); affine by default.
    pub fn new(channel: Axis, groups: usize, sample_axes: Vec<Axis>) -> (r: Result<Self, Error>)
        ensures
            groups == 0 ==> r is Err && r->Err_0@ == "GroupNorm groups must be positive"@,
            groups != 0 ==> match channel_norm_declaration(
                "GroupNorm"@,
                channel@,
                geometry::names(sample_axes@),
                false,
            ) {
                Some(m) => r is Err && r->Err_0@ == m,
                None => r is Ok && r->Ok_0.well_formed() && r->Ok_0.channel_spec() == channel@
                    && r->Ok_0.groups_spec() == groups && r->Ok_0.sample_axes_spec()
                    == geometry::names(sample_axes@) && r->Ok_0.affine_spec()
                    && r->Ok_0.bound_spec() is None,
            },
    {
        proof {
            reveal_strlit("GroupNorm");
        }
        if groups == 0 {
            return Err(Error::new(String::from_str("GroupNorm groups must be positive")));
        }
        let inner = ChannelNorm::new("GroupNorm", channel, Some(groups), sample_axes, true, false)?;
        Ok(GroupNorm { inner })
    }

    pub fn affine(self, affine: bool) -> (g: Self)
        ensures
            self.well_formed() ==> g.well_formed(),
            g.channel_spec() == self.channel_spec(),
            g.groups_spec() == self.groups_spec(),
            g.sample_axes_spec() == self.sample_axes_spec(),
            g.affine_spec() == affine,
            g.bound_spec() == self.bound_spec(),
    {
        GroupNorm { inner: ChannelNorm { affine, ..self.inner } }
    }

    /// The input shape itself, once the channel grouping, the sample axes and the recorded
    /// build check out.
    pub fn output_shape(&self, input: &Shape) -> (r: Result<Shape, Error>)
        requires
            self.well_formed(),
        ensures
            channel_norm_outcome(
                input@,
                "GroupNorm"@,
                self.channel_spec(),
                Some(self.groups_spec()),
                self.sample_axes_spec(),
                self.affine_spec(),
                self.bound_spec(),
            ) matches Ok(d) ==> r is Ok && r->Ok_0@ == d,
            channel_norm_outcome(
                input@,
                "GroupNorm"@,
                self.channel_spec(),
                Some(self.groups_spec()),
                self.sample_axes_spec(),
                self.affine_spec(),
                self.bound_spec(),
            ) matches Err(m) ==> r is Err && r->Err_0@ == m,
    {
        self.inner.geometry(input)?;
        Ok(input.clone())
    }

    /// Record that the layer's parameters were built for `input`, as a successful build does,
    /// and give the output shape. The first record keeps the channel and group counts and
    /// affine choice; a later one changes nothing.
    pub fn bind(&mut self, input: &Shape) -> (r: Result<Shape, Error>)
        requires
            old(self).well_formed(),
        ensures
            channel_norm_outcome(
                input@,
                "GroupNorm"@,
                old(self).channel_spec(),
                Some(old(self).groups_spec()),
                old(self).sample_axes_spec(),
                old(self).affine_spec(),
                old(self).bound_spec(),
            ) matches Ok(d) ==> r is Ok && r->Ok_0@ == d,
            channel_norm_outcome(
                input@,
                "GroupNorm"@,
                old(self).channel_spec(),
                Some(old(self).groups_spec()),
                old(self).sample_axes_spec(),
                old(self).affine_spec(),
                old(self).bound_spec(),
            ) matches Err(m) ==> r is Err && r->Err_0@ == m,
            final(self).well_formed(),
            final(self).channel_spec() == old(self).channel_spec(),
            final(self).groups_spec() == old(self).groups_spec(),
            final(self).sample_axes_spec() == old(self).sample_axes_spec(),
            final(self).affine_spec() == old(self).affine_spec(),
            final(self).bound_spec() == (if r is Ok && old(self).bound_spec() is None {
                Some(
                    (
                        axis::axis_extent(input@, old(self).channel_spec()),
                        old(self).groups_spec(),
                        old(self).affine_spec(),
                    ),
                )
            } else {
                old(self).bound_spec()
            }),
    {
        self.inner.bind(input)
    }
}

/// Instance normalization: each channel normalized on its own over the declared sample
/// axes, optionally tracking running statistics. Only the shape algebra lives here.
pub struct InstanceNorm {
    inner: ChannelNorm,
    track_running_stats: bool,
    running: Option<usize>,
}

impl InstanceNorm {
    pub closed spec fn channel_spec(&self) -> Seq<char> {
        self.inner.channel@
    }

    pub closed spec fn sample_axes_spec(&self) -> Seq<Seq<char>> {
        geometry::names(self.inner.sample_axes@)
    }

    pub closed spec fn affine_spec(&self) -> bool {
        self.inner.affine
    }

    pub closed spec fn tracks_running_stats(&self) -> bool {
        self.track_running_stats
    }

    /// The (channels, groups, affine) a build recorded, if any.
    pub closed spec fn bound_spec(&self) -> Option<(usize, usize, bool)> {
        self.inner.bound
    }

    /// The channel extent the running statistics were built for, if they were.
    pub closed spec fn running_spec(&self) -> Option<usize> {
        self.running
    }

    pub closed spec fn well_formed(&self) -> bool {
        self.inner.owner@ == "InstanceNorm"@ && self.inner.groups is None
    }

    /// Normalize each channel over the nonempty, distinct `sample_axes`; not affine and not
    /// tracking running statistics by default.
    pub fn new(channel: Axis, sample_axes: Vec<Axis>) -> (r: Result<Self, Error>)
        ensures
            channel_norm_declaration(
                "InstanceNorm"@,
                channel@,
                geometry::names(sample_axes@),
                true,
            ) matches Some(m) ==> r is Err && r->Err_0@ == m,
            channel_norm_declaration(
                "InstanceNorm"@,
                channel@,
                geometry::names(sample_axes@),
                true,
            ) is None ==> r is Ok && r->Ok_0.well_formed() && r->Ok_0.channel_spec() == channel@
                && r->Ok_0.sample_axes_spec() == geometry::names(sample_axes@)
                && !r->Ok_0.affine_spec() && !r->Ok_0.tracks_running_stats()
                && r->Ok_0.bound_spec() is None && r->Ok_0.running_spec() is None,
    {
        let inner = ChannelNorm::new("InstanceNorm", channel, None, sample_axes, false, true)?;
        Ok(InstanceNorm { inner, track_running_stats: false, running: None })
    }

    pub fn affine(self, affine: bool) -> (n: Self)
        ensures
            self.well_formed() ==> n.well_formed(),
            n.channel_spec() == self.channel_spec(),
            n.sample_axes_spec() == self.sample_axes_spec(),
            n.affine_spec() == affine,
            n.tracks_running_stats() == self.tracks_running_stats(),
            n.bound_spec() == self.bound_spec(),
            n.running_spec() == self.running_spec(),
    {
        InstanceNorm { inner: ChannelNorm { affine, ..self.inner }, ..self }
    }

    pub fn track_running_stats(self, track: bool) -> (n: Self)
        ensures
            self.well_formed() ==> n.well_formed(),
            n.channel_spec() == self.channel_spec(),
            n.sample_axes_spec() == self.sample_axes_spec(),
            n.affine_spec() == self.affine_spec(),
            n.tracks_running_stats() == track,
            n.bound_spec() == self.bound_spec(),
            n.running_spec() == self.running_spec(),
    {
        InstanceNorm { track_running_stats: track, ..self }
    }

    /// The input shape itself, once the channel normalization and the recorded running
    /// statistics check out.
    pub fn output_shape(&self, input: &Shape) -> (r: Result<Shape, Error>)
        requires
            self.well_formed(),
        ensures
            instance_norm_outcome(
                input@,
                self.channel_spec(),
                self.sample_axes_spec(),
                self.affine_spec(),
                self.bound_spec(),
                self.tracks_running_stats(),
                self.running_spec(),
            ) matches Ok(d) ==> r is Ok && r->Ok_0@ == d,
            instance_norm_outcome(
                input@,
                self.channel_spec(),
                self.sample_axes_spec(),
                self.affine_spec(),
                self.bound_spec(),
                self.tracks_running_stats(),
                self.running_spec(),
            ) matches Err(m) ==> r is Err && r->Err_0@ == m,
    {
        self.inner.geometry(input)?;
        if let Some(built) = self.running {
            let channels = input.extent(self.inner.channel)?;
            if channels != built {
                return Err(
                    Error::new(
                        String::from_str("InstanceNorm channel extent differs from its built extent"),
                    ),
                );
            }
            if !self.track_running_stats {
                return Err(
                    Error::new(
                        String::from_str("InstanceNorm track_running_stats changed after build"),
                    ),
                );
            }
        }
        Ok(input.clone())
    }

    /// Record that the layer's parameters were built for `input`, as a successful build does,
    /// and give the output shape: the shape and recording of the channel normalization, then
    /// the channel extent for the running statistics when they are tracked and not yet built.
    pub fn bind(&mut self, input: &Shape) -> (r: Result<Shape, Error>)
        requires
            old(self).well_formed(),
        ensures
            channel_norm_outcome(
                input@,
                "InstanceNorm"@,
                old(self).channel_spec(),
                None,
                old(self).sample_axes_spec(),
                old(self).affine_spec(),
                old(self).bound_spec(),
            ) matches Ok(d) ==> r is Ok && r->Ok_0@ == d,
            channel_norm_outcome(
                input@,
                "InstanceNorm"@,
                old(self).channel_spec(),
                None,
                old(self).sample_axes_spec(),
                old(self).affine_spec(),
                old(self).bound_spec(),
            ) matches Err(m) ==> r is Err && r->Err_0@ == m,
            final(self).well_formed(),
            final(self).channel_spec() == old(self).channel_spec(),
            final(self).sample_axes_spec() == old(self).sample_axes_spec(),
            final(self).affine_spec() == old(self).affine_spec(),
            final(self).tracks_running_stats() == old(self).tracks_running_stats(),
            final(self).bound_spec() == (if r is Ok && old(self).bound_spec() is None {
                Some(
                    (
                        axis::axis_extent(input@, old(self).channel_spec()),
                        axis::axis_extent(input@, old(self).channel_spec()),
                        old(self).affine_spec(),
                    ),
                )
            } else {
                old(self).bound_spec()
            }),
            final(self).running_spec() == (if r is Ok && old(self).running_spec() is None
                && old(self).tracks_running_stats() {
                Some(axis::axis_extent(input@, old(self).channel_spec()))
            } else {
                old(self).running_spec()
            }),
    {
        let shape = self.inner.bind(input)?;
        if self.running.is_none() && self.track_running_stats {
            let channels = input.extent(self.inner.channel)?;
            self.running = Some(channels);
        }
        Ok(shape)
    }
}

/// Instance normalization's output: the channel normalization's, then a built running
/// statistic must match the channel extent and still be tracked.
pub open spec fn instance_norm_outcome(
    v: Seq<DimView>,
    channel: Seq<char>,
    samples: Seq<Seq<char>>,
    affine: bool,
    bound: Option<(usize, usize, bool)>,
    track: bool,
    running: Option<usize>,
) -> Result<Seq<DimView>, Seq<char>> {
    match channel_norm_outcome(v, "InstanceNorm"@, channel, None, samples, affine, bound) {
        Err(m) => Err(m),
        Ok(d) => match running {
            None => Ok(d),
            Some(built) => if axis::axis_extent(v, channel) != built {
                Err("InstanceNorm channel extent differs from its built extent"@)
            } else if !track {
                Err("InstanceNorm track_running_stats changed after build"@)
            } else {
                Ok(d)
            },
        },
    }
}

/// Response normalization across a window of `size` channels. Only the shape algebra lives
/// here: the channel axis must be present, and the shape is unchanged.
pub struct LocalResponseNorm {
    channel: Axis,
    size: usize,
}

impl LocalResponseNorm {
    pub closed spec fn channel_spec(&self) -> Seq<char> {
        self.channel@
    }

    pub closed spec fn size_spec(&self) -> usize {
        self.size
    }

    /// A window of `size` channels, which must be positive.
    pub fn new(channel: Axis, size: usize) -> (r: Result<Self, Error>)
        ensures
            size == 0 ==> r is Err && r->Err_0@ == "LocalResponseNorm size must be positive"@,
            size != 0 ==> r is Ok && r->Ok_0.channel_spec() == channel@ && r->Ok_0.size_spec()
                == size,
    {
        if size == 0 {
            return Err(Error::new(String::from_str("LocalResponseNorm size must be positive")));
        }
        Ok(LocalResponseNorm { channel, size })
    }

    /// The input shape itself; the channel axis must be present.
    pub fn output_shape(&self, input: &Shape) -> (r: Result<Shape, Error>)
        ensures
            !axis::has_axis(input@, self.channel_spec()) ==> r is Err && r->Err_0@
                == axis::missing_axis_message(self.channel_spec()),
            axis::has_axis(input@, self.channel_spec()) ==> r is Ok && r->Ok_0@ == input@,
    {
        input.extent(self.channel)?;
        Ok(input.clone())
    }
}

} // verus!
