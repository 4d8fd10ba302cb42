//! Shape algebra of recurrent cells and sequence models, and of recurrent state.
use crate::axis::{self, Axis, Dim, DimView, Shape};
use crate::error::Error;
use crate::geometry;
use crate::model::nn;
use vstd::string::StringExecFns;
use vstd::prelude::*;

verus! {

/// The pointwise nonlinearity applied at each Elman RNN transition. PyTorch's default is
/// `Tanh`; `Relu` matches `nonlinearity="relu"`.
#[derive(Clone, Copy, Debug, PartialEq, Eq, Structural)]
pub enum RnnNonlinearity {
    Tanh,
    Relu,
}

/// Two shapes name the same axes with the same extents, whatever their order.
pub open spec fn same_named(actual: Seq<DimView>, expected: Seq<DimView>) -> bool {
    &&& actual.len() == expected.len()
    &&& forall|i: int|
        0 <= i < expected.len() ==> axis::has_axis(actual, #[trigger] expected[i].0)
            && axis::axis_extent(actual, expected[i].0) == expected[i].1
}

/// Whether `actual` has the same rank as `expected` and each of `expected`'s axes at the same
/// extent.
pub fn same_named_shape(actual: &Shape, expected: &Shape) -> (b: bool)
    ensures
        b == same_named(actual@, expected@),
{
    if actual.rank() != expected.rank() {
        return false;
    }
    let dims = expected.dims();
    let n = dims.len();
    let mut i: usize = 0;
    while i < n
        invariant
            n == expected@.len(),
            axis::dims_view(dims@) == expected@,
            actual@.len() == expected@.len(),
            i <= n,
            forall|j: int|
                0 <= j < i ==> axis::has_axis(actual@, #[trigger] expected@[j].0)
                    && axis::axis_extent(actual@, expected@[j].0) == expected@[j].1,
        decreases n - i,
    {
        let d = dims[i];
        assert(d@ == expected@[i as int]);
        assert(expected@[i as int].0 == d.axis@);
        match actual.extent(d.axis) {
            Ok(e) => {
                if e != d.extent {
                    return false;
                }
            },
            Err(_) => {
                return false;
            },
        }
        i = i + 1;
    }
    true
}

/// `shape` without `axis`, which must be present.
pub fn without(shape: &Shape, axis: Axis) -> (r: Result<Shape, Error>)
    ensures
        !axis::has_axis(shape@, axis@) ==> r is Err && r->Err_0@ == axis::missing_axis_message(
            axis@,
        ),
        axis::has_axis(shape@, axis@) ==> match axis::shape_outcome(
            geometry::rewrite(shape@, geometry::drop_axis(axis@)),
        ) {
            Ok(d) => r is Ok && r->Ok_0@ == d,
            Err(m) => r is Err && r->Err_0@ == m,
        },
{
    shape.extent(axis)?;
    Shape::new(geometry::dims_without(shape.dims(), axis))
}

} // verus!

verus! {

/// The shape algebra shared by the recurrent cells of one `family` ("LSTM", "GRU", "RNN"):
/// the input axis is projected away and the hidden dimension appended; building fixes the
/// input extent and needs `gates` hidden-sized gate blocks to fit `usize`.
struct Cell {
    family: &'static str,
    gates: usize,
    input: Axis,
    hidden: Dim,
    bound: Option<usize>,
}

/// The rejection of an input extent other than the one a `family` cell was built for.
pub open spec fn input_mismatch(family: Seq<char>) -> Seq<char> {
    family + " input extent differs from its built extent"@
}

impl Cell {
    fn new(family: &'static str, gates: usize, input: Axis, hidden: Dim) -> (r: Result<Self, Error>)
        ensures
            hidden.extent == 0 ==> r is Err && r->Err_0@ == family@
                + " hidden extent must be positive"@,
            hidden.extent != 0 ==> r is Ok && r->Ok_0.family == family && r->Ok_0.gates == gates
                && r->Ok_0.input == input && r->Ok_0.hidden == hidden && r->Ok_0.bound is None,
    {
        if hidden.extent == 0 {
            let mut m = String::from_str(family);
            m.append(" hidden extent must be positive");
            return Err(Error::new(m));
        }
        Ok(Cell { family, gates, input, hidden, bound: None })
    }

    fn output_shape(&self, input: &Shape) -> (r: Result<Shape, Error>)
        ensures
            nn::contracted_outcome(
                input@,
                self.input@,
                self.hidden@,
                self.bound,
                input_mismatch(self.family@),
            ) matches Ok(d) ==> r is Ok && r->Ok_0@ == d,
            nn::contracted_outcome(
                input@,
                self.input@,
                self.hidden@,
                self.bound,
                input_mismatch(self.family@),
            ) matches Err(m) ==> r is Err && r->Err_0@ == m,
    {
        let mut mismatch = String::from_str(self.family);
        mismatch.append(" input extent differs from its built extent");
        nn::contract_axis(input, self.input, self.hidden, self.bound, mismatch.as_str())
    }

    fn bind(&mut self, input: &Shape) -> (r: Result<Shape, Error>)
        ensures
            cell_bind_outcome(
                input@,
                old(self).family@,
                old(self).gates,
                old(self).input@,
                old(self).hidden@,
                old(self).bound,
            ) matches Ok(d) ==> r is Ok && r->Ok_0@ == d,
            cell_bind_outcome(
                input@,
                old(self).family@,
                old(self).gates,
                old(self).input@,
                old(self).hidden@,
                old(self).bound,
            ) matches Err(m) ==> r is Err && r->Err_0@ == m,
            final(self).family == old(self).family,
            final(self).gates == old(self).gates,
            final(self).input == old(self).input,
            final(self).hidden == old(self).hidden,
            final(self).bound == (if r is Ok && old(self).bound is None {
                Some(axis::axis_extent(input@, old(self).input@))
            } else {
                old(self).bound
            }),
    {
        let shape = self.output_shape(input)?;
        if self.bound.is_none() {
            let extent = input.extent(self.input)?;
            if self.hidden.extent.checked_mul(self.gates).is_none() {
                let mut m = String::from_str(self.family);
                m.append(" gate extent overflow");
                return Err(Error::new(m));
            }
            self.bound = Some(extent);
        }
        Ok(shape)
    }
}

/// Building a cell: its output shape, and on the first build its `gates` hidden-sized gate
/// blocks must fit `usize`.
pub open spec fn cell_bind_outcome(
    v: Seq<DimView>,
    family: Seq<char>,
    gates: usize,
    input: Seq<char>,
    hidden: DimView,
    bound: Option<usize>,
) -> Result<Seq<DimView>, Seq<char>> {
    match nn::contracted_outcome(v, input, hidden, bound, input_mismatch(family)) {
        Err(m) => Err(m),
        Ok(d) => if bound is None && hidden.1 * gates > usize::MAX {
            Err(family + " gate extent overflow"@)
        } else {
            Ok(d)
        },
    }
}

/// A sequence model over `time`: the time axis must be present, then the cell's shape rule
/// applies with the time axis kept.
pub open spec fn sequence_outcome(
    v: Seq<DimView>,
    time: Seq<char>,
    family: Seq<char>,
    input: Seq<char>,
    hidden: DimView,
    bound: Option<usize>,
) -> Result<Seq<DimView>, Seq<char>> {
    if !axis::has_axis(v, time) {
        Err(axis::missing_axis_message(time))
    } else {
        nn::contracted_outcome(v, input, hidden, bound, input_mismatch(family))
    }
}

/// Building a sequence model: its output shape, then its cell built for the input without
/// the time axis.
pub open spec fn sequence_bind_outcome(
    v: Seq<DimView>,
    time: Seq<char>,
    family: Seq<char>,
    gates: usize,
    input: Seq<char>,
    hidden: DimView,
    bound: Option<usize>,
) -> Result<Seq<DimView>, Seq<char>> {
    match sequence_outcome(v, time, family, input, hidden, bound) {
        Err(m) => Err(m),
        Ok(d) => match axis::shape_outcome(geometry::rewrite(v, geometry::drop_axis(time))) {
            Err(m) => Err(m),
            Ok(w) => match cell_bind_outcome(w, family, gates, input, hidden, bound) {
                Err(m) => Err(m),
                Ok(_) => Ok(d),
            },
        },
    }
}

/// A time axis distinct from the cell's input and hidden axes, or the `family`'s rejection.
pub open spec fn time_declaration(
    family: Seq<char>,
    time: Seq<char>,
    input: Seq<char>,
    hidden: Seq<char>,
) -> Option<Seq<char>> {
    if time == input || time == hidden {
        Some(family + " time must be distinct from its input and hidden axes"@)
    } else {
        None
    }
}

/// The time axis of a sequence model, checked against its cell's axes.
fn check_time(family: &'static str, time: Axis, input: Axis, hidden: Dim) -> (r: Result<(), Error>)
    ensures
        time_declaration(family@, time@, input@, hidden.axis@) matches Some(m) ==> r is Err
            && r->Err_0@ == m,
        time_declaration(family@, time@, input@, hidden.axis@) is None ==> r is Ok,
{
    if time.same(&input) || time.same(&hidden.axis) {
        let mut m = String::from_str(family);
        m.append(" time must be distinct from its input and hidden axes");
        return Err(Error::new(m));
    }
    Ok(())
}

/// One standard input-forget-gate-output LSTM transition with explicit hidden and cell state. Only the shape algebra lives here: the input axis is projected away and the
/// hidden dimension appended, and a build fixes the input extent.
pub struct LstmCell {
    cell: Cell,
}

impl LstmCell {
    pub closed spec fn input_spec(&self) -> Seq<char> {
        self.cell.input@
    }

    pub closed spec fn hidden_spec(&self) -> DimView {
        self.cell.hidden@
    }

    /// The input extent recorded when the parameters were built, if they were.
    pub closed spec fn bound_spec(&self) -> Option<usize> {
        self.cell.bound
    }

    pub closed spec fn well_formed(&self) -> bool {
        self.cell.family@ == "LSTM"@ && self.cell.gates == 4
    }

    /// A cell from `input` to `hidden`, whose extent must be positive.
    pub fn new(input: Axis, hidden: Dim) -> (r: Result<Self, Error>)
        ensures
            hidden.extent == 0 ==> r is Err && r->Err_0@ == "LSTM hidden extent must be positive"@,
            hidden.extent != 0 ==> r is Ok && r->Ok_0.well_formed() && r->Ok_0.input_spec()
                == input@ && r->Ok_0.hidden_spec() == hidden@ && r->Ok_0.bound_spec() is None,
    {
        proof {
            reveal_strlit("LSTM");
            reveal_strlit(" hidden extent must be positive");
            reveal_strlit("LSTM hidden extent must be positive");
            assert("LSTM"@ + " hidden extent must be positive"@ =~= "LSTM hidden extent must be positive"@);
        }
        let cell = Cell::new("LSTM", 4, input, hidden)?;
        Ok(LstmCell { cell })
    }

    /// The input without its input axis, then the hidden dimension.
    pub fn output_shape(&self, input: &Shape) -> (r: Result<Shape, Error>)
        requires
            self.well_formed(),
        ensures
            nn::contracted_outcome(
                input@,
                self.input_spec(),
                self.hidden_spec(),
                self.bound_spec(),
                input_mismatch("LSTM"@),
            ) matches Ok(d) ==> r is Ok && r->Ok_0@ == d,
            nn::contracted_outcome(
                input@,
                self.input_spec(),
                self.hidden_spec(),
                self.bound_spec(),
                input_mismatch("LSTM"@),
            ) matches Err(m) ==> r is Err && r->Err_0@ == m,
    {
        self.cell.output_shape(input)
    }

    /// Record that the cell's parameters were built for `input`, as a successful build does,
    /// and give the output shape. The first record keeps the input extent; a later one
    /// changes nothing.
    pub fn bind(&mut self, input: &Shape) -> (r: Result<Shape, Error>)
        requires
            old(self).well_formed(),
        ensures
            cell_bind_outcome(
                input@,
                "LSTM"@,
                4,
                old(self).input_spec(),
                old(self).hidden_spec(),
                old(self).bound_spec(),
            ) matches Ok(d) ==> r is Ok && r->Ok_0@ == d,
            cell_bind_outcome(
                input@,
                "LSTM"@,
                4,
                old(self).input_spec(),
                old(self).hidden_spec(),
                old(self).bound_spec(),
            ) matches Err(m) ==> r is Err && r->Err_0@ == m,
            final(self).well_formed(),
            final(self).input_spec() == old(self).input_spec(),
            final(self).hidden_spec() == old(self).hidden_spec(),
            final(self).bound_spec() == (if r is Ok && old(self).bound_spec() is None {
                Some(axis::axis_extent(input@, old(self).input_spec()))
            } else {
                old(self).bound_spec()
            }),
    {
        self.cell.bind(input)
    }
}

/// An LSTM run over a named `time` axis. Only the shape algebra lives here: the time axis must be present and is kept,
/// and the cell's shape rule applies.
pub struct Lstm {
    time: Axis,
    cell: LstmCell,
}

impl Lstm {
    pub closed spec fn time_spec(&self) -> Seq<char> {
        self.time@
    }

    pub closed spec fn cell_spec(&self) -> LstmCell {
        self.cell
    }

    pub closed spec fn well_formed(&self) -> bool {
        self.cell.well_formed() && self.time@ != self.cell.input_spec() && self.time@
            != self.cell.hidden_spec().0
    }

    /// A run of a cell from `input` to `hidden` over `time`, which must differ from both.
    pub fn new(input: Axis, hidden: Dim, time: Axis) -> (r: Result<Self, Error>)
        ensures
            time_declaration("LSTM"@, time@, input@, hidden.axis@) matches Some(m) ==> r is Err
                && r->Err_0@ == m,
            time_declaration("LSTM"@, time@, input@, hidden.axis@) is None && hidden.extent == 0
                ==> r is Err && r->Err_0@ == "LSTM hidden extent must be positive"@,
            time_declaration("LSTM"@, time@, input@, hidden.axis@) is None && hidden.extent != 0
                ==> r is Ok && r->Ok_0.well_formed() && r->Ok_0.time_spec() == time@
                && r->Ok_0.cell_spec().input_spec() == input@ && r->Ok_0.cell_spec().hidden_spec()
                == hidden@ && r->Ok_0.cell_spec().bound_spec() is None,
    {
        check_time("LSTM", time, input, hidden)?;
        let cell = LstmCell::new(input, hidden)?;
        Ok(Lstm { time, cell })
    }

    /// The input with the cell's input axis replaced by its hidden dimension; the time axis
    /// must be present.
    pub fn output_shape(&self, input: &Shape) -> (r: Result<Shape, Error>)
        requires
            self.well_formed(),
        ensures
            sequence_outcome(
                input@,
                self.time_spec(),
                "LSTM"@,
                self.cell_spec().input_spec(),
                self.cell_spec().hidden_spec(),
                self.cell_spec().bound_spec(),
            ) matches Ok(d) ==> r is Ok && r->Ok_0@ == d,
            sequence_outcome(
                input@,
                self.time_spec(),
                "LSTM"@,
                self.cell_spec().input_spec(),
                self.cell_spec().hidden_spec(),
                self.cell_spec().bound_spec(),
            ) matches Err(m) ==> r is Err && r->Err_0@ == m,
    {
        input.extent(self.time)?;
        self.cell.output_shape(input)
    }

    /// Record that the cell's parameters were built, for the input without its time axis, as
    /// a successful build does, and give the output shape. The first record keeps the input
    /// extent; a later one changes nothing.
    pub fn bind(&mut self, input: &Shape) -> (r: Result<Shape, Error>)
        requires
            old(self).well_formed(),
        ensures
            sequence_bind_outcome(
                input@,
                old(self).time_spec(),
                "LSTM"@,
                4,
                old(self).cell_spec().input_spec(),
                old(self).cell_spec().hidden_spec(),
                old(self).cell_spec().bound_spec(),
            ) matches Ok(d) ==> r is Ok && r->Ok_0@ == d,
            sequence_bind_outcome(
                input@,
                old(self).time_spec(),
                "LSTM"@,
                4,
                old(self).cell_spec().input_spec(),
                old(self).cell_spec().hidden_spec(),
                old(self).cell_spec().bound_spec(),
            ) matches Err(m) ==> r is Err && r->Err_0@ == m,
            final(self).well_formed(),
            final(self).time_spec() == old(self).time_spec(),
            final(self).cell_spec().input_spec() == old(self).cell_spec().input_spec(),
            final(self).cell_spec().hidden_spec() == old(self).cell_spec().hidden_spec(),
            final(self).cell_spec().bound_spec() == (if r is Ok && old(self).cell_spec().bound_spec()
                is None {
                Some(axis::axis_extent(input@, old(self).cell_spec().input_spec()))
            } else {
                old(self).cell_spec().bound_spec()
            }),
    {
        let shape = self.output_shape(input)?;
        let rest = without(input, self.time)?;
        proof {
            use_type_invariant(input);
            use_type_invariant(&rest);
            lemma_extent_kept(input@, self.time@, self.cell.input_spec());
        }
        self.cell.bind(&rest)?;
        Ok(shape)
    }
}

/// One gated recurrent unit transition. Only the shape algebra lives here: the input axis is projected away and the
/// hidden dimension appended, and a build fixes the input extent.
pub struct GruCell {
    cell: Cell,
}

impl GruCell {
    pub closed spec fn input_spec(&self) -> Seq<char> {
        self.cell.input@
    }

    pub closed spec fn hidden_spec(&self) -> DimView {
        self.cell.hidden@
    }

    /// The input extent recorded when the parameters were built, if they were.
    pub closed spec fn bound_spec(&self) -> Option<usize> {
        self.cell.bound
    }

    pub closed spec fn well_formed(&self) -> bool {
        self.cell.family@ == "GRU"@ && self.cell.gates == 3
    }

    /// A cell from `input` to `hidden`, whose extent must be positive.
    pub fn new(input: Axis, hidden: Dim) -> (r: Result<Self, Error>)
        ensures
            hidden.extent == 0 ==> r is Err && r->Err_0@ == "GRU hidden extent must be positive"@,
            hidden.extent != 0 ==> r is Ok && r->Ok_0.well_formed() && r->Ok_0.input_spec()
                == input@ && r->Ok_0.hidden_spec() == hidden@ && r->Ok_0.bound_spec() is None,
    {
        proof {
            reveal_strlit("GRU");
            reveal_strlit(" hidden extent must be positive");
            reveal_strlit("GRU hidden extent must be positive");
            assert("GRU"@ + " hidden extent must be positive"@ =~= "GRU hidden extent must be positive"@);
        }
        let cell = Cell::new("GRU", 3, input, hidden)?;
        Ok(GruCell { cell })
    }

    /// The input without its input axis, then the hidden dimension.
    pub fn output_shape(&self, input: &Shape) -> (r: Result<Shape, Error>)
        requires
            self.well_formed(),
        ensures
            nn::contracted_outcome(
                input@,
                self.input_spec(),
                self.hidden_spec(),
                self.bound_spec(),
                input_mismatch("GRU"@),
            ) matches Ok(d) ==> r is Ok && r->Ok_0@ == d,
            nn::contracted_outcome(
                input@,
                self.input_spec(),
                self.hidden_spec(),
                self.bound_spec(),
                input_mismatch("GRU"@),
            ) matches Err(m) ==> r is Err && r->Err_0@ == m,
    {
        self.cell.output_shape(input)
    }

    /// Record that the cell's parameters were built for `input`, as a successful build does,
    /// and give the output shape. The first record keeps the input extent; a later one
    /// changes nothing.
    pub fn bind(&mut self, input: &Shape) -> (r: Result<Shape, Error>)
        requires
            old(self).well_formed(),
        ensures
            cell_bind_outcome(
                input@,
                "GRU"@,
                3,
                old(self).input_spec(),
                old(self).hidden_spec(),
                old(self).bound_spec(),
            ) matches Ok(d) ==> r is Ok && r->Ok_0@ == d,
            cell_bind_outcome(
                input@,
                "GRU"@,
                3,
                old(self).input_spec(),
                old(self).hidden_spec(),
                old(self).bound_spec(),
            ) matches Err(m) ==> r is Err && r->Err_0@ == m,
            final(self).well_formed(),
            final(self).input_spec() == old(self).input_spec(),
            final(self).hidden_spec() == old(self).hidden_spec(),
            final(self).bound_spec() == (if r is Ok && old(self).bound_spec() is None {
                Some(axis::axis_extent(input@, old(self).input_spec()))
            } else {
                old(self).bound_spec()
            }),
    {
        self.cell.bind(input)
    }
}

/// A GRU run over a named `time` axis. Only the shape algebra lives here: the time axis must be present and is kept,
/// and the cell's shape rule applies.
pub struct Gru {
    time: Axis,
    cell: GruCell,
}

impl Gru {
    pub closed spec fn time_spec(&self) -> Seq<char> {
        self.time@
    }

    pub closed spec fn cell_spec(&self) -> GruCell {
        self.cell
    }

    pub closed spec fn well_formed(&self) -> bool {
        self.cell.well_formed() && self.time@ != self.cell.input_spec() && self.time@
            != self.cell.hidden_spec().0
    }

    /// A run of a cell from `input` to `hidden` over `time`, which must differ from both.
    pub fn new(input: Axis, hidden: Dim, time: Axis) -> (r: Result<Self, Error>)
        ensures
            time_declaration("GRU"@, time@, input@, hidden.axis@) matches Some(m) ==> r is Err
                && r->Err_0@ == m,
            time_declaration("GRU"@, time@, input@, hidden.axis@) is None && hidden.extent == 0
                ==> r is Err && r->Err_0@ == "GRU hidden extent must be positive"@,
            time_declaration("GRU"@, time@, input@, hidden.axis@) is None && hidden.extent != 0
                ==> r is Ok && r->Ok_0.well_formed() && r->Ok_0.time_spec() == time@
                && r->Ok_0.cell_spec().input_spec() == input@ && r->Ok_0.cell_spec().hidden_spec()
                == hidden@ && r->Ok_0.cell_spec().bound_spec() is None,
    {
        check_time("GRU", time, input, hidden)?;
        let cell = GruCell::new(input, hidden)?;
        Ok(Gru { time, cell })
    }

    /// The input with the cell's input axis replaced by its hidden dimension; the time axis
    /// must be present.
    pub fn output_shape(&self, input: &Shape) -> (r: Result<Shape, Error>)
        requires
            self.well_formed(),
        ensures
            sequence_outcome(
                input@,
                self.time_spec(),
                "GRU"@,
                self.cell_spec().input_spec(),
                self.cell_spec().hidden_spec(),
                self.cell_spec().bound_spec(),
            ) matches Ok(d) ==> r is Ok && r->Ok_0@ == d,
            sequence_outcome(
                input@,
                self.time_spec(),
                "GRU"@,
                self.cell_spec().input_spec(),
                self.cell_spec().hidden_spec(),
                self.cell_spec().bound_spec(),
            ) matches Err(m) ==> r is Err && r->Err_0@ == m,
    {
        input.extent(self.time)?;
        self.cell.output_shape(input)
    }

    /// Record that the cell's parameters were built, for the input without its time axis, as
    /// a successful build does, and give the output shape. The first record keeps the input
    /// extent; a later one changes nothing.
    pub fn bind(&mut self, input: &Shape) -> (r: Result<Shape, Error>)
        requires
            old(self).well_formed(),
        ensures
            sequence_bind_outcome(
                input@,
                old(self).time_spec(),
                "GRU"@,
                3,
                old(self).cell_spec().input_spec(),
                old(self).cell_spec().hidden_spec(),
                old(self).cell_spec().bound_spec(),
            ) matches Ok(d) ==> r is Ok && r->Ok_0@ == d,
            sequence_bind_outcome(
                input@,
                old(self).time_spec(),
                "GRU"@,
                3,
                old(self).cell_spec().input_spec(),
                old(self).cell_spec().hidden_spec(),
                old(self).cell_spec().bound_spec(),
            ) matches Err(m) ==> r is Err && r->Err_0@ == m,
            final(self).well_formed(),
            final(self).time_spec() == old(self).time_spec(),
            final(self).cell_spec().input_spec() == old(self).cell_spec().input_spec(),
            final(self).cell_spec().hidden_spec() == old(self).cell_spec().hidden_spec(),
            final(self).cell_spec().bound_spec() == (if r is Ok && old(self).cell_spec().bound_spec()
                is None {
                Some(axis::axis_extent(input@, old(self).cell_spec().input_spec()))
            } else {
                old(self).cell_spec().bound_spec()
            }),
    {
        let shape = self.output_shape(input)?;
        let rest = without(input, self.time)?;
        proof {
            use_type_invariant(input);
            use_type_invariant(&rest);
            lemma_extent_kept(input@, self.time@, self.cell.input_spec());
        }
        self.cell.bind(&rest)?;
        Ok(shape)
    }
}

/// One Elman RNN transition with a choice of pointwise nonlinearity. Only the shape algebra lives here: the input axis is projected away and the
/// hidden dimension appended, and a build fixes the input extent.
pub struct RnnCell {
    cell: Cell,
    nonlinearity: RnnNonlinearity,
}

impl RnnCell {
    pub closed spec fn input_spec(&self) -> Seq<char> {
        self.cell.input@
    }

    pub closed spec fn hidden_spec(&self) -> DimView {
        self.cell.hidden@
    }

    /// The input extent recorded when the parameters were built, if they were.
    pub closed spec fn bound_spec(&self) -> Option<usize> {
        self.cell.bound
    }

    pub closed spec fn nonlinearity_spec(&self) -> RnnNonlinearity {
        self.nonlinearity
    }

    pub closed spec fn well_formed(&self) -> bool {
        self.cell.family@ == "RNN"@ && self.cell.gates == 1
    }

    /// A cell from `input` to `hidden`, whose extent must be positive.
    pub fn new(input: Axis, hidden: Dim) -> (r: Result<Self, Error>)
        ensures
            hidden.extent == 0 ==> r is Err && r->Err_0@ == "RNN hidden extent must be positive"@,
            hidden.extent != 0 ==> r is Ok && r->Ok_0.well_formed() && r->Ok_0.input_spec()
                == input@ && r->Ok_0.hidden_spec() == hidden@ && r->Ok_0.bound_spec() is None
                && r->Ok_0.nonlinearity_spec() == RnnNonlinearity::Tanh,
    {
        proof {
            reveal_strlit("RNN");
            reveal_strlit(" hidden extent must be positive");
            reveal_strlit("RNN hidden extent must be positive");
            assert("RNN"@ + " hidden extent must be positive"@ =~= "RNN hidden extent must be positive"@);
        }
        let cell = Cell::new("RNN", 1, input, hidden)?;
        Ok(RnnCell { cell, nonlinearity: RnnNonlinearity::Tanh })
    }

    /// Choose the pointwise nonlinearity; it changes no shape.
    pub fn nonlinearity(self, nonlinearity: RnnNonlinearity) -> (c: Self)
        ensures
            self.well_formed() ==> c.well_formed(),
            c.input_spec() == self.input_spec(),
            c.hidden_spec() == self.hidden_spec(),
            c.bound_spec() == self.bound_spec(),
            c.nonlinearity_spec() == nonlinearity,
    {
        RnnCell { nonlinearity, ..self }
    }

    /// The input without its input axis, then the hidden dimension.
    pub fn output_shape(&self, input: &Shape) -> (r: Result<Shape, Error>)
        requires
            self.well_formed(),
        ensures
            nn::contracted_outcome(
                input@,
                self.input_spec(),
                self.hidden_spec(),
                self.bound_spec(),
                input_mismatch("RNN"@),
            ) matches Ok(d) ==> r is Ok && r->Ok_0@ == d,
            nn::contracted_outcome(
                input@,
                self.input_spec(),
                self.hidden_spec(),
                self.bound_spec(),
                input_mismatch("RNN"@),
            ) matches Err(m) ==> r is Err && r->Err_0@ == m,
    {
        self.cell.output_shape(input)
    }

    /// Record that the cell's parameters were built for `input`, as a successful build does,
    /// and give the output shape. The first record keeps the input extent; a later one
    /// changes nothing.
    pub fn bind(&mut self, input: &Shape) -> (r: Result<Shape, Error>)
        requires
            old(self).well_formed(),
        ensures
            cell_bind_outcome(
                input@,
                "RNN"@,
                1,
                old(self).input_spec(),
                old(self).hidden_spec(),
                old(self).bound_spec(),
            ) matches Ok(d) ==> r is Ok && r->Ok_0@ == d,
            cell_bind_outcome(
                input@,
                "RNN"@,
                1,
                old(self).input_spec(),
                old(self).hidden_spec(),
                old(self).bound_spec(),
            ) matches Err(m) ==> r is Err && r->Err_0@ == m,
            final(self).well_formed(),
            final(self).input_spec() == old(self).input_spec(),
            final(self).hidden_spec() == old(self).hidden_spec(),
            final(self).nonlinearity_spec() == old(self).nonlinearity_spec(),
            final(self).bound_spec() == (if r is Ok && old(self).bound_spec() is None {
                Some(axis::axis_extent(input@, old(self).input_spec()))
            } else {
                old(self).bound_spec()
            }),
    {
        self.cell.bind(input)
    }
}

/// An Elman RNN run over a named `time` axis. Only the shape algebra lives here: the time axis must be present and is kept,
/// and the cell's shape rule applies.
pub struct Rnn {
    time: Axis,
    cell: RnnCell,
}

impl Rnn {
    pub closed spec fn time_spec(&self) -> Seq<char> {
        self.time@
    }

    pub closed spec fn cell_spec(&self) -> RnnCell {
        self.cell
    }

    pub closed spec fn well_formed(&self) -> bool {
        self.cell.well_formed() && self.time@ != self.cell.input_spec() && self.time@
            != self.cell.hidden_spec().0
    }

    /// A run of a cell from `input` to `hidden` over `time`, which must differ from both.
    pub fn new(input: Axis, hidden: Dim, time: Axis) -> (r: Result<Self, Error>)
        ensures
            time_declaration("RNN"@, time@, input@, hidden.axis@) matches Some(m) ==> r is Err
                && r->Err_0@ == m,
            time_declaration("RNN"@, time@, input@, hidden.axis@) is None && hidden.extent == 0
                ==> r is Err && r->Err_0@ == "RNN hidden extent must be positive"@,
            time_declaration("RNN"@, time@, input@, hidden.axis@) is None && hidden.extent != 0
                ==> r is Ok && r->Ok_0.well_formed() && r->Ok_0.time_spec() == time@
                && r->Ok_0.cell_spec().input_spec() == input@ && r->Ok_0.cell_spec().hidden_spec()
                == hidden@ && r->Ok_0.cell_spec().bound_spec() is None,
    {
        check_time("RNN", time, input, hidden)?;
        let cell = RnnCell::new(input, hidden)?;
        Ok(Rnn { time, cell })
    }

    /// Choose the cell's pointwise nonlinearity; it changes no shape.
    pub fn nonlinearity(self, nonlinearity: RnnNonlinearity) -> (r: Self)
        ensures
            self.well_formed() ==> r.well_formed(),
            r.time_spec() == self.time_spec(),
            r.cell_spec().input_spec() == self.cell_spec().input_spec(),
            r.cell_spec().hidden_spec() == self.cell_spec().hidden_spec(),
            r.cell_spec().bound_spec() == self.cell_spec().bound_spec(),
            r.cell_spec().nonlinearity_spec() == nonlinearity,
    {
        Rnn { time: self.time, cell: self.cell.nonlinearity(nonlinearity) }
    }

    /// The input with the cell's input axis replaced by its hidden dimension; the time axis
    /// must be present.
    pub fn output_shape(&self, input: &Shape) -> (r: Result<Shape, Error>)
        requires
            self.well_formed(),
        ensures
            sequence_outcome(
                input@,
                self.time_spec(),
                "RNN"@,
                self.cell_spec().input_spec(),
                self.cell_spec().hidden_spec(),
                self.cell_spec().bound_spec(),
            ) matches Ok(d) ==> r is Ok && r->Ok_0@ == d,
            sequence_outcome(
                input@,
                self.time_spec(),
                "RNN"@,
                self.cell_spec().input_spec(),
                self.cell_spec().hidden_spec(),
                self.cell_spec().bound_spec(),
            ) matches Err(m) ==> r is Err && r->Err_0@ == m,
    {
        input.extent(self.time)?;
        self.cell.output_shape(input)
    }

    /// Record that the cell's parameters were built, for the input without its time axis, as
    /// a successful build does, and give the output shape. The first record keeps the input
    /// extent; a later one changes nothing.
    pub fn bind(&mut self, input: &Shape) -> (r: Result<Shape, Error>)
        requires
            old(self).well_formed(),
        ensures
            sequence_bind_outcome(
                input@,
                old(self).time_spec(),
                "RNN"@,
                1,
                old(self).cell_spec().input_spec(),
                old(self).cell_spec().hidden_spec(),
                old(self).cell_spec().bound_spec(),
            ) matches Ok(d) ==> r is Ok && r->Ok_0@ == d,
            sequence_bind_outcome(
                input@,
                old(self).time_spec(),
                "RNN"@,
                1,
                old(self).cell_spec().input_spec(),
                old(self).cell_spec().hidden_spec(),
                old(self).cell_spec().bound_spec(),
            ) matches Err(m) ==> r is Err && r->Err_0@ == m,
            final(self).well_formed(),
            final(self).time_spec() == old(self).time_spec(),
            final(self).cell_spec().input_spec() == old(self).cell_spec().input_spec(),
            final(self).cell_spec().hidden_spec() == old(self).cell_spec().hidden_spec(),
            final(self).cell_spec().bound_spec() == (if r is Ok && old(self).cell_spec().bound_spec()
                is None {
                Some(axis::axis_extent(input@, old(self).cell_spec().input_spec()))
            } else {
                old(self).cell_spec().bound_spec()
            }),
    {
        let shape = self.output_shape(input)?;
        let rest = without(input, self.time)?;
        proof {
            use_type_invariant(input);
            use_type_invariant(&rest);
            lemma_extent_kept(input@, self.time@, self.cell.input_spec());
        }
        self.cell.bind(&rest)?;
        Ok(shape)
    }
}

/// Dropping one axis keeps the extent of every other present axis.
proof fn lemma_extent_kept(v: Seq<DimView>, dropped: Seq<char>, a: Seq<char>)
    requires
        axis::valid_dims(v),
        axis::has_axis(v, a),
        a != dropped,
        axis::valid_dims(geometry::rewrite(v, geometry::drop_axis(dropped))),
    ensures
        axis::has_axis(geometry::rewrite(v, geometry::drop_axis(dropped)), a),
        axis::axis_extent(geometry::rewrite(v, geometry::drop_axis(dropped)), a) == axis::axis_extent(
            v,
            a,
        ),
{
    let f = geometry::drop_axis(dropped);
    let k = axis::axis_position(v, a);
    assert(forall|j: int| 0 <= j < v.len() ==> (#[trigger] f(v[j])) is None || f(v[j]) == Some(v[j]));
    geometry::lemma_kept_present(v, f, k);
    geometry::lemma_present_extent(geometry::rewrite(v, f), v[k]);
}

} // verus!
