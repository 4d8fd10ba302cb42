//! Identity-aware sources and batching.
use crate::error::Error;
use crate::research::regime::{self, FinitePasses, FinitePassesReceipt, FinitePassesView, RegimeSnapshot, SinglePass};
use crate::text;
use vstd::prelude::*;
use vstd::string::StringExecFns;

verus! {

/// One observation with its sample identity.
#[derive(Debug)]
pub struct Sample<T> {
    pub id: u128,
    pub value: T,
}

/// A source may be finite or generated. `None` availability means no finite corpus exists.
pub trait DataSource: Sized {
    type Item;

    /// Whether the spec functions below describe this source. A source that does not say so
    /// is described by none of them.
    open spec fn described(&self) -> bool {
        false
    }

    /// The source never fails to produce its next sample or its end.
    open spec fn infallible(&self) -> bool {
        false
    }

    /// How many samples are still to come; `None` for a source without end.
    open spec fn remaining(&self) -> Option<nat> {
        None
    }

    /// The identity of the sample `k` places ahead; the next sample is `k == 0`.
    open spec fn upcoming_id(&self, k: nat) -> u128 {
        0
    }

    /// Whether `value` is what the source hands out as the sample `k` places ahead.
    open spec fn upcoming(&self, k: nat, value: Self::Item) -> bool {
        false
    }

    /// The finite population the source reports, if it has one.
    open spec fn population(&self) -> Option<usize> {
        None
    }

    /// The next sample, or `None` once the source has nothing more. A described source hands
    /// out its upcoming samples in order, each with its own identity, and ends exactly when
    /// none remain; an infallible one never fails.
    fn next_sample(&mut self) -> (r: Result<Option<Sample<Self::Item>>, Error>)
        ensures
            old(self).described() ==> {
                &&& r matches Ok(Some(s)) ==> {
                    &&& old(self).remaining() != Some(0nat)
                    &&& s.id == old(self).upcoming_id(0)
                    &&& old(self).upcoming(0, s.value)
                    &&& final(self).described()
                    &&& old(self).infallible() ==> final(self).infallible()
                    &&& final(self).remaining() == match old(self).remaining() {
                        Some(m) => Some((m - 1) as nat),
                        None => None,
                    }
                    &&& forall|k: nat| #[trigger]
                        final(self).upcoming_id(k) == old(self).upcoming_id(k + 1)
                    &&& forall|k: nat, v: Self::Item| #[trigger]
                        final(self).upcoming(k, v) == old(self).upcoming(k + 1, v)
                }
                &&& r matches Ok(None) ==> {
                    &&& old(self).remaining() == Some(0nat)
                    &&& final(self).described()
                    &&& old(self).infallible() ==> final(self).infallible()
                    &&& final(self).remaining() == old(self).remaining()
                    &&& forall|k: nat| #[trigger]
                        final(self).upcoming_id(k) == old(self).upcoming_id(k)
                    &&& forall|k: nat, v: Self::Item| #[trigger]
                        final(self).upcoming(k, v) == old(self).upcoming(k, v)
                }
                &&& old(self).infallible() ==> r is Ok
            },
    ;

    /// The finite population, if any.
    fn available(&self) -> (r: Option<usize>)
        ensures
            self.described() ==> r == self.population(),
    ;
}

/// `after` is the described source `before` with its next `j` samples handed out: what
/// remains, and the identities and values still to come, are those of `before` shifted by
/// `j`, and an infallible source stays so.
pub open spec fn advanced<S: DataSource>(before: S, after: S, j: nat) -> bool {
    &&& after.described()
    &&& before.infallible() ==> after.infallible()
    &&& after.remaining() == match before.remaining() {
        Some(m) => Some((m - j) as nat),
        None => None,
    }
    &&& forall|k: nat| #[trigger] after.upcoming_id(k) == before.upcoming_id(k + j)
    &&& forall|k: nat, v: S::Item| #[trigger] after.upcoming(k, v) == before.upcoming(k + j, v)
}

/// Handing out `i` samples and then `j` more is handing out `i + j`.
pub proof fn lemma_advanced_compose<S: DataSource>(a: S, b: S, c: S, i: nat, j: nat)
    requires
        advanced(a, b, i),
        advanced(b, c, j),
        a.remaining() matches Some(m) ==> i <= m,
    ensures
        advanced(a, c, i + j),
{
    assert forall|k: nat| #[trigger] c.upcoming_id(k) == a.upcoming_id(k + (i + j)) by {
        assert(c.upcoming_id(k) == b.upcoming_id(k + j));
        assert(b.upcoming_id((k + j) as nat) == a.upcoming_id((k + j) as nat + i));
    }
    assert forall|k: nat, v: S::Item| #[trigger] c.upcoming(k, v) == a.upcoming(k + (i + j), v) by {
        assert(c.upcoming(k, v) == b.upcoming(k + j, v));
        assert(b.upcoming((k + j) as nat, v) == a.upcoming((k + j) as nat + i, v));
    }
}

/// A finite in-memory corpus with one identity per sample, yielded in order; it starts over
/// only when explicitly made repeating.
pub struct InMemoryDataset<T> {
    samples: Vec<T>,
    ids: Vec<u128>,
    cursor: usize,
    repeat: bool,
}

/// The spec view of an [`InMemoryDataset`].
pub ghost struct InMemoryView<T> {
    pub samples: Seq<T>,
    pub ids: Seq<u128>,
    pub cursor: nat,
    pub repeat: bool,
}

impl<T> View for InMemoryDataset<T> {
    type V = InMemoryView<T>;

    closed spec fn view(&self) -> InMemoryView<T> {
        InMemoryView {
            samples: self.samples@,
            ids: self.ids@,
            cursor: self.cursor as nat,
            repeat: self.repeat,
        }
    }
}

/// The identities `0, 1, ..., n - 1`.
pub open spec fn positional_ids(n: nat) -> Seq<u128> {
    Seq::new(n, |i: int| i as u128)
}

/// The identities `0, 1, ..., n - 1`.
fn positions(n: usize) -> (ids: Vec<u128>)
    ensures
        ids@ == positional_ids(n as nat),
{
    let mut ids: Vec<u128> = Vec::new();
    let mut i: usize = 0;
    while i < n
        invariant
            i <= n,
            ids@ == positional_ids(i as nat),
        decreases n - i,
    {
        ids.push(i as u128);
        assert(ids@ =~= positional_ids(i as nat + 1));
        i = i + 1;
    }
    ids
}

impl<T> InMemoryDataset<T> {
    #[verifier::type_invariant]
    spec fn well_formed(self) -> bool {
        0 < self.samples.len() && self.samples.len() == self.ids.len() && self.cursor
            <= self.samples.len()
    }

    /// A corpus whose identities are the sample positions.
    pub fn new(samples: Vec<T>) -> (r: Result<Self, Error>)
        ensures
            r is Ok <==> samples@.len() > 0,
            r matches Ok(d) ==> d@ == (InMemoryView {
                samples: samples@,
                ids: positional_ids(samples@.len()),
                cursor: 0,
                repeat: false,
            }),
            r matches Err(e) ==> e@ == "dataset must contain at least one sample"@,
    {
        let ids = positions(samples.len());
        Self::with_ids(samples, ids)
    }

    /// A corpus with caller-supplied identities, one per sample.
    pub fn with_ids(samples: Vec<T>, ids: Vec<u128>) -> (r: Result<Self, Error>)
        ensures
            r is Ok <==> samples@.len() > 0 && samples@.len() == ids@.len(),
            r matches Ok(d) ==> d@ == (InMemoryView {
                samples: samples@,
                ids: ids@,
                cursor: 0,
                repeat: false,
            }),
            samples@.len() == 0 ==> r is Err && r->Err_0@ == "dataset must contain at least one sample"@,
            samples@.len() > 0 && samples@.len() != ids@.len() ==> r is Err && r->Err_0@
                == "dataset samples and IDs must have equal lengths"@,
    {
        if samples.len() == 0 {
            return Err(Error::new(String::from_str("dataset must contain at least one sample")));
        }
        if samples.len() != ids.len() {
            return Err(Error::new(String::from_str("dataset samples and IDs must have equal lengths")));
        }
        Ok(InMemoryDataset { samples, ids, cursor: 0, repeat: false })
    }

    /// Explicitly turn a finite pass into a repeating source.
    pub fn repeat(self) -> (d: Self)
        ensures
            d@ == (InMemoryView { repeat: true, ..self@ }),
    {
        proof {
            use_type_invariant(&self);
        }
        InMemoryDataset { repeat: true, ..self }
    }
}

impl<T: Clone> DataSource for InMemoryDataset<T> {
    type Item = T;

    open spec fn described(&self) -> bool {
        true
    }

    /// An in-memory corpus never fails.
    open spec fn infallible(&self) -> bool {
        true
    }

    /// What is left of the pass; a repeating corpus has no end.
    open spec fn remaining(&self) -> Option<nat> {
        if self@.repeat {
            None
        } else {
            Some((self@.samples.len() - self@.cursor) as nat)
        }
    }

    /// The identity at the position `k` past the cursor, starting over at the end.
    open spec fn upcoming_id(&self, k: nat) -> u128 {
        self@.ids[((self@.cursor + k) % self@.samples.len()) as int]
    }

    /// A copy of the sample at the position `k` past the cursor, starting over at the end.
    open spec fn upcoming(&self, k: nat, value: T) -> bool {
        cloned(self@.samples[((self@.cursor + k) % self@.samples.len()) as int], value)
    }

    /// The corpus size.
    open spec fn population(&self) -> Option<usize> {
        Some(self@.samples.len() as usize)
    }

    /// The next sample in order; at the end, `None` unless repeating, in which case the
    /// corpus starts over.
    fn next_sample(&mut self) -> (r: Result<Option<Sample<T>>, Error>)
        ensures
            ({
                let v = old(self)@;
                let n = v.samples.len();
                if v.cursor == n && !v.repeat {
                    r == Ok::<Option<Sample<T>>, Error>(None) && final(self)@ == v
                } else {
                    let index = if v.cursor == n {
                        0
                    } else {
                        v.cursor as int
                    };
                    &&& r matches Ok(Some(s)) && s.id == v.ids[index] && cloned(
                        v.samples[index],
                        s.value,
                    )
                    &&& final(self)@ == (InMemoryView { cursor: (index + 1) as nat, ..v })
                }
            }),
    {
        proof {
            use_type_invariant(&*self);
        }
        let wrapped = self.cursor == self.samples.len();
        if wrapped {
            if !self.repeat {
                return Ok(None);
            }
            self.cursor = 0;
        }
        let index = self.cursor;
        self.cursor = self.cursor + 1;
        proof {
            let n = self@.samples.len() as int;
            let c = old(self)@.cursor;
            if wrapped {
                vstd::arithmetic::div_mod::lemma_mod_add_multiples_vanish(0, n);
                vstd::arithmetic::div_mod::lemma_small_mod(0, n as nat);
                assert(old(self).upcoming_id(0) == self@.ids[0]);
            } else {
                vstd::arithmetic::div_mod::lemma_small_mod(c, n as nat);
                assert(old(self).upcoming_id(0) == self@.ids[c as int]);
            }
            if wrapped {
                assert forall|k: nat| #[trigger] self.upcoming_id(k) == old(self).upcoming_id(k + 1) by {
                    vstd::arithmetic::div_mod::lemma_mod_add_multiples_vanish((k + 1) as int, n);
                }
                assert forall|k: nat, x: T| #[trigger] self.upcoming(k, x) == old(self).upcoming(k + 1, x) by {
                    vstd::arithmetic::div_mod::lemma_mod_add_multiples_vanish((k + 1) as int, n);
                }
            }
        }
        Ok(Some(Sample { id: self.ids[index], value: self.samples[index].clone() }))
    }

    /// The corpus size.
    fn available(&self) -> (r: Option<usize>)
        ensures
            r == Some(self@.samples.len() as usize),
    {
        Some(self.samples.len())
    }
}

/// One batch: its samples and their identities, how many observations came before it, and
/// the receipt of the regime that checked it.
#[derive(Debug)]
pub struct Batch<T> {
    pub samples: Vec<T>,
    pub sample_ids: Vec<u128>,
    /// Total observations delivered before this batch.
    pub samples_seen_before: usize,
    pub regime: DataRegimeReceipt,
}

/// What the data regime guarding a batch recorded.
#[derive(Clone, Copy, Debug, PartialEq, Eq, Structural)]
pub enum DataRegimeReceipt {
    Unchecked,
    SinglePass(RegimeSnapshot),
    FinitePasses(FinitePassesReceipt),
}

/// The text of a single-pass snapshot over a population of `available`.
pub open spec fn single_pass_text(consumed: nat, available: nat) -> Seq<char> {
    "SINGLE PASS STATUS\n\nsamples consumed:      "@ + text::decimal_text(consumed)
        + "\navailable population:  "@ + text::decimal_text(available)
        + "\ncoverage:              "@ + text::percent_text(consumed, available) + "%\n\nPASS"@
}

impl DataRegimeReceipt {
    /// The receipt as text. A single-pass snapshot reports its coverage of the population,
    /// which it never exceeds.
    pub fn to_string(&self) -> (s: String)
        requires
            self matches DataRegimeReceipt::SinglePass(snapshot) ==> snapshot.available matches Some(
                a,
            ) && 0 < a && snapshot.consumed <= a,
        ensures
            self matches DataRegimeReceipt::Unchecked ==> s@ == "DATA REGIME\n\nunchecked"@,
            self matches DataRegimeReceipt::SinglePass(snapshot) ==> s@ == single_pass_text(
                snapshot.consumed as nat,
                snapshot.available->Some_0 as nat,
            ),
            self matches DataRegimeReceipt::FinitePasses(receipt) ==> s@ == receipt.to_string_spec(),
    {
        match self {
            DataRegimeReceipt::Unchecked => String::from_str("DATA REGIME\n\nunchecked"),
            DataRegimeReceipt::SinglePass(snapshot) => {
                let available = match snapshot.available {
                    Some(a) => a,
                    None => 0,
                };
                let mut s = String::from_str("SINGLE PASS STATUS\n\nsamples consumed:      ");
                text::push_decimal(&mut s, snapshot.consumed);
                s.append("\navailable population:  ");
                text::push_decimal(&mut s, available);
                s.append("\ncoverage:              ");
                text::push_percent(&mut s, snapshot.consumed, available);
                s.append("%\n\nPASS");
                s
            },
            DataRegimeReceipt::FinitePasses(receipt) => receipt.to_string(),
        }
    }
}


enum Guard {
    Unchecked,
    SinglePass(SinglePass),
}

/// The guard's population and consumed count, when it is a single-pass guard.
spec fn guard_view(g: Guard) -> Option<(usize, usize)> {
    match g {
        Guard::Unchecked => None,
        Guard::SinglePass(p) => Some(p@),
    }
}

/// Let the guard check a batch of `count` samples: an unchecked guard accepts anything, a
/// single-pass guard consumes them when the population allows.
fn consume_guard(guard: &mut Guard, count: usize) -> (r: Result<DataRegimeReceipt, Error>)
    ensures
        match guard_view(*old(guard)) {
            None => r == Ok::<DataRegimeReceipt, Error>(DataRegimeReceipt::Unchecked)
                && guard_view(*final(guard)) is None,
            Some((a, c)) => if c + count > a {
                r is Err && r->Err_0@
                    == "single-pass violation: more samples consumed than the population holds"@
                    && guard_view(*final(guard)) == Some((a, c))
            } else {
                r == Ok::<DataRegimeReceipt, Error>(
                    DataRegimeReceipt::SinglePass(
                        RegimeSnapshot { consumed: (c + count) as usize, available: Some(a) },
                    ),
                ) && guard_view(*final(guard)) == Some((a, (c + count) as usize))
            },
        },
{
    match guard {
        Guard::Unchecked => Ok(DataRegimeReceipt::Unchecked),
        Guard::SinglePass(pass) => Ok(DataRegimeReceipt::SinglePass(pass.consume(count)?)),
    }
}

/// Batches samples from a source, optionally under a single-pass guard.
pub struct DataLoader<S> {
    source: S,
    batch_size: usize,
    delivered: usize,
    guard: Guard,
}

/// The spec view of a [`DataLoader`], apart from its source: batch size, samples delivered,
/// and the single-pass guard's population and consumed count, when one is asserted.
pub ghost struct LoaderView {
    pub batch_size: nat,
    pub delivered: nat,
    pub guard: Option<(usize, usize)>,
}

impl<S> View for DataLoader<S> {
    type V = LoaderView;

    closed spec fn view(&self) -> LoaderView {
        LoaderView {
            batch_size: self.batch_size as nat,
            delivered: self.delivered as nat,
            guard: match self.guard {
                Guard::Unchecked => None,
                Guard::SinglePass(g) => Some(g@),
            },
        }
    }
}

/// The receipt for a batch of `len > 0` samples, or the rejection: a single-pass guard that
/// would be exceeded, then a delivered count that would overflow.
pub open spec fn batch_regime(v: LoaderView, len: nat) -> Result<DataRegimeReceipt, Seq<char>> {
    match v.guard {
        None => if v.delivered + len > usize::MAX {
            Err("DataLoader delivered-sample count overflow"@)
        } else {
            Ok(DataRegimeReceipt::Unchecked)
        },
        Some((a, c)) => if c + len > a {
            Err("single-pass violation: more samples consumed than the population holds"@)
        } else if v.delivered + len > usize::MAX {
            Err("DataLoader delivered-sample count overflow"@)
        } else {
            Ok(
                DataRegimeReceipt::SinglePass(
                    RegimeSnapshot { consumed: (c + len) as usize, available: Some(a) },
                ),
            )
        },
    }
}

/// The loader after a batch of `len > 0` samples: the guard consumes them when it can, and
/// the delivered count grows only when the batch is accepted.
pub open spec fn batch_state(v: LoaderView, len: nat) -> LoaderView {
    let guard = match v.guard {
        None => None,
        Some((a, c)) => if c + len > a {
            Some((a, c))
        } else {
            Some((a, (c + len) as usize))
        },
    };
    let delivered = if batch_regime(v, len) is Ok {
        v.delivered + len
    } else {
        v.delivered
    };
    LoaderView { batch_size: v.batch_size, delivered, guard }
}

impl<S> DataLoader<S> {
    /// The source the loader draws from.
    pub closed spec fn source_spec(&self) -> S {
        self.source
    }
}

impl<S: DataSource> DataLoader<S> {
    /// A loader over `source` with no regime asserted.
    pub fn new(source: S, batch_size: usize) -> (r: Result<Self, Error>)
        ensures
            r is Ok <==> batch_size > 0,
            r matches Ok(l) ==> l@ == (LoaderView {
                batch_size: batch_size as nat,
                delivered: 0,
                guard: None,
            }) && l.source_spec() == source,
            r matches Err(e) ==> e@ == "DataLoader batch size must be positive"@,
    {
        if batch_size == 0 {
            return Err(Error::new(String::from_str("DataLoader batch size must be positive")));
        }
        Ok(DataLoader { source, batch_size, delivered: 0, guard: Guard::Unchecked })
    }

    /// Assert a single pass over the source's finite population: for a described source,
    /// refused when it has no finite population, and when it is empty.
    pub fn assert_single_pass(self) -> (r: Result<Self, Error>)
        ensures
            r matches Ok(l) ==> l@.batch_size == self@.batch_size && l@.delivered == self@.delivered
                && (l@.guard matches Some((a, c)) && a > 0 && c == 0) && l.source_spec()
                == self.source_spec(),
            self.source_spec().described() ==> {
                &&& r is Ok <==> (self.source_spec().population() matches Some(a) && a > 0)
                &&& r matches Ok(l) ==> l@ == (LoaderView {
                    guard: Some((self.source_spec().population()->Some_0, 0usize)),
                    ..self@
                })
                &&& self.source_spec().population() is None ==> r is Err && r->Err_0@
                    == "single-pass assertion requires a finite source"@
                &&& self.source_spec().population() == Some(0usize) ==> r is Err && r->Err_0@
                    == "single-pass population must be nonempty"@
            },
    {
        let available = self.source.available();
        self.single_pass_over(available)
    }

    /// Assert a single pass over a population of `available` samples: refused for a source
    /// with no finite population, and for an empty one.
    pub fn single_pass_over(self, available: Option<usize>) -> (r: Result<Self, Error>)
        ensures
            r is Ok <==> (available matches Some(a) && a > 0),
            r matches Ok(l) ==> l@ == (LoaderView { guard: Some((available->Some_0, 0usize)), ..self@ })
                && l.source_spec() == self.source_spec(),
            available is None ==> r is Err && r->Err_0@
                == "single-pass assertion requires a finite source"@,
            available == Some(0usize) ==> r is Err && r->Err_0@ == "single-pass population must be nonempty"@,
    {
        let a = match available {
            Some(a) => a,
            None => {
                return Err(
                    Error::new(String::from_str("single-pass assertion requires a finite source")),
                );
            },
        };
        let guard = SinglePass::new(a)?;
        Ok(DataLoader { guard: Guard::SinglePass(guard), ..self })
    }

    /// Accept a collected batch: the guard checks it and the delivered count grows. An empty
    /// batch is the end of the source.
    pub fn record_batch(&mut self, samples: Vec<S::Item>, sample_ids: Vec<u128>) -> (r: Result<
        Option<Batch<S::Item>>,
        Error,
    >)
        requires
            samples@.len() == sample_ids@.len(),
        ensures
            samples@.len() == 0 ==> r is Ok && r->Ok_0 is None && final(self)@ == old(self)@,
            samples@.len() > 0 ==> final(self)@ == batch_state(old(self)@, samples@.len()),
            samples@.len() > 0 ==> (batch_regime(old(self)@, samples@.len()) matches Ok(regime) ==> r
                matches Ok(Some(b)) && b.samples@ == samples@ && b.sample_ids@ == sample_ids@
                && b.samples_seen_before == old(self)@.delivered && b.regime == regime),
            samples@.len() > 0 ==> (batch_regime(old(self)@, samples@.len()) matches Err(m) ==> r
                is Err && r->Err_0@ == m),
            final(self).source_spec() == old(self).source_spec(),
    {
        if samples.len() == 0 {
            return Ok(None);
        }
        let seen_before = self.delivered;
        let count = samples.len();
        let regime = consume_guard(&mut self.guard, count)?;
        if self.delivered > usize::MAX - count {
            return Err(Error::new(String::from_str("DataLoader delivered-sample count overflow")));
        }
        self.delivered = self.delivered + count;
        Ok(Some(Batch { samples, sample_ids, samples_seen_before: seen_before, regime }))
    }

    /// One draw of a batch being collected: a drawn sample joins the batch under its identity
    /// and collection goes on while the batch has room; the end of the source closes the
    /// batch as it stands.
    pub fn take_draw(
        samples: &mut Vec<S::Item>,
        sample_ids: &mut Vec<u128>,
        draw: Option<Sample<S::Item>>,
        batch_size: usize,
    ) -> (open: bool)
        requires
            old(samples)@.len() < batch_size,
        ensures
            draw matches Some(d) ==> final(samples)@ == old(samples)@.push(d.value)
                && final(sample_ids)@ == old(sample_ids)@.push(d.id)
                && open == (final(samples)@.len() < batch_size),
            draw is None ==> final(samples)@ == old(samples)@
                && final(sample_ids)@ == old(sample_ids)@ && !open,
    {
        match draw {
            Some(sample) => {
                samples.push(sample.value);
                sample_ids.push(sample.id);
                samples.len() < batch_size
            },
            None => false,
        }
    }

    /// Collect up to a batch of samples from the source and record them. Whatever the source
    /// returns, a batch holds between one and `batch_size` samples, and it is recorded as
    /// [`DataLoader::record_batch`] says. Of a described source: the batch holds its next
    /// samples in order, each with its own identity; it falls short only when that is all the
    /// source had left, there is no batch only when nothing was left, and an infallible
    /// source's batch fails only as the regime rejects it.
    pub fn next_batch(&mut self) -> (r: Result<Option<Batch<S::Item>>, Error>)
        ensures
            r matches Ok(Some(b)) ==> 0 < b.samples@.len() <= old(self)@.batch_size
                && b.sample_ids@.len() == b.samples@.len() && b.samples_seen_before == old(
                self,
            )@.delivered && batch_regime(old(self)@, b.samples@.len()) == Ok::<
                DataRegimeReceipt,
                Seq<char>,
            >(b.regime) && final(self)@ == batch_state(old(self)@, b.samples@.len()),
            r matches Ok(None) ==> final(self)@ == old(self)@,
            r is Err ==> final(self)@ == old(self)@ || exists|len: nat|
                0 < len <= old(self)@.batch_size && batch_regime(old(self)@, len) is Err
                    && final(self)@ == batch_state(old(self)@, len),
            old(self).source_spec().described() ==> (r matches Ok(Some(b)) ==> {
                &&& advanced(old(self).source_spec(), final(self).source_spec(), b.samples@.len())
                &&& old(self).source_spec().remaining() matches Some(m) ==> b.samples@.len() <= m
                &&& b.samples@.len() < old(self)@.batch_size ==> old(self).source_spec().remaining()
                    == Some(b.samples@.len())
                &&& forall|i: int|
                    #![trigger b.sample_ids@[i]]
                    #![trigger b.samples@[i]]
                    0 <= i < b.samples@.len() ==> b.sample_ids@[i] == old(
                        self,
                    ).source_spec().upcoming_id(i as nat) && old(self).source_spec().upcoming(
                        i as nat,
                        b.samples@[i],
                    )
            }),
            old(self).source_spec().described() && old(self)@.batch_size > 0 ==> (r matches Ok(None)
                ==> old(self).source_spec().remaining() == Some(0nat) && advanced(
                old(self).source_spec(),
                final(self).source_spec(),
                0,
            )),
            old(self).source_spec().described() && old(self).source_spec().infallible() && r is Err
                ==> exists|len: nat|
                0 < len <= old(self)@.batch_size && (batch_regime(old(self)@, len) matches Err(m)
                    && r->Err_0@ == m) && final(self)@ == batch_state(old(self)@, len) && (old(
                    self,
                ).source_spec().remaining() matches Some(m) ==> len <= m) && advanced(
                    old(self).source_spec(),
                    final(self).source_spec(),
                    len,
                ),
    {
        let ghost start = self.source;
        let mut samples: Vec<S::Item> = Vec::new();
        let mut sample_ids: Vec<u128> = Vec::new();
        let mut open = true;
        proof {
            if start.described() {
                assert forall|k: nat| #[trigger] start.upcoming_id(k) == start.upcoming_id(k + 0) by {}
                assert forall|k: nat, v: S::Item| #[trigger] start.upcoming(k, v) == start.upcoming(
                    k + 0,
                    v,
                ) by {}
            }
        }
        while open && samples.len() < self.batch_size
            invariant
                samples@.len() == sample_ids@.len(),
                samples@.len() <= self.batch_size,
                self@ == old(self)@,
                start == old(self).source_spec(),
                start.described() ==> advanced(start, self.source, samples@.len()),
                start.described() ==> (start.remaining() matches Some(m) ==> samples@.len() <= m),
                start.described() && !open && samples@.len() < self.batch_size ==> start.remaining()
                    == Some(samples@.len()),
                start.described() ==> forall|i: int|
                    #![trigger sample_ids@[i]]
                    #![trigger samples@[i]]
                    0 <= i < samples@.len() ==> sample_ids@[i] == start.upcoming_id(i as nat)
                        && start.upcoming(i as nat, samples@[i]),
            decreases self.batch_size - samples@.len() + (if open { 1int } else { 0int }),
        {
            let ghost before = self.source;
            let ghost len = samples@.len();
            let draw = match self.source.next_sample() {
                Err(e) => {
                    return Err(e);
                },
                Ok(draw) => draw,
            };
            let ghost drawn = draw;
            proof {
                if start.described() {
                    match drawn {
                        None => {
                            lemma_advanced_compose(start, before, self.source, len, 0);
                        },
                        Some(sample) => {
                            lemma_advanced_compose(start, before, self.source, len, 1);
                            assert(before.upcoming_id(0) == start.upcoming_id(0 + len));
                            assert(before.upcoming(0, sample.value) == start.upcoming(
                                0 + len,
                                sample.value,
                            ));
                        },
                    }
                }
            }
            open = Self::take_draw(&mut samples, &mut sample_ids, draw, self.batch_size);
        }
        self.record_batch(samples, sample_ids)
    }

    /// The number of samples delivered in accepted batches.
    pub fn samples_delivered(&self) -> (n: usize)
        ensures
            n == self@.delivered,
    {
        self.delivered
    }
}


/// One step of the xorshift generator that drives shuffling.
pub open spec fn xorshift(s: u64) -> u64 {
    let a = s ^ (s << 13u64);
    let b = a ^ (a >> 7u64);
    b ^ (b << 17u64)
}

/// The generator state a pass starts from: `seed + pass + 1`, wrapping, and never zero.
pub open spec fn pass_state(seed: u64, pass: nat) -> u64 {
    let s = vstd::wrapping::u64_specs::wrapping_add(
        vstd::wrapping::u64_specs::wrapping_add(seed, pass as u64),
        1,
    );
    if s == 0 {
        1
    } else {
        s
    }
}

/// Fisher-Yates from position `end` down to `1`: each step advances the generator and swaps
/// position `end` with a position drawn from `0..=end`.
pub open spec fn shuffle_from(order: Seq<usize>, state: u64, end: nat) -> Seq<usize>
    decreases end,
{
    if end == 0 {
        order
    } else {
        let st = xorshift(state);
        let j = ((st as usize) % ((end + 1) as usize)) as int;
        shuffle_from(order.update(end as int, order[j]).update(j, order[end as int]), st, (end - 1) as nat)
    }
}

/// The positions `0, 1, ..., n - 1`.
pub open spec fn identity_order(n: nat) -> Seq<usize> {
    Seq::new(n, |i: int| i as usize)
}

/// The order of pass `pass` over `n` samples.
pub open spec fn pass_order(n: nat, seed: u64, pass: nat) -> Seq<usize> {
    shuffle_from(identity_order(n), pass_state(seed, pass), (n - 1) as nat)
}

/// Every position `0..n` occurs exactly once.
pub open spec fn is_permutation(order: Seq<usize>, n: nat) -> bool {
    &&& order.len() == n
    &&& forall|i: int| 0 <= i < n ==> #[trigger] order[i] < n
    &&& order.no_duplicates()
}

/// Swapping two positions keeps a permutation.
proof fn lemma_swap_permutation(order: Seq<usize>, n: nat, a: int, b: int)
    requires
        is_permutation(order, n),
        0 <= a < n,
        0 <= b < n,
    ensures
        is_permutation(order.update(a, order[b]).update(b, order[a]), n),
{
    let o = order.update(a, order[b]).update(b, order[a]);
    assert forall|i: int, j: int| 0 <= i < o.len() && 0 <= j < o.len() && i != j implies o[i] != o[j] by {
        let si = if i == b {
            a
        } else if i == a {
            b
        } else {
            i
        };
        let sj = if j == b {
            a
        } else if j == a {
            b
        } else {
            j
        };
        assert(o[i] == order[si]);
        assert(o[j] == order[sj]);
    }
}

/// Shuffling keeps a permutation.
pub proof fn lemma_shuffle_permutation(order: Seq<usize>, n: nat, state: u64, end: nat)
    requires
        is_permutation(order, n),
        end < n,
        n <= usize::MAX,
    ensures
        is_permutation(shuffle_from(order, state, end), n),
    decreases end,
{
    if end > 0 {
        let st = xorshift(state);
        let j = ((st as usize) % ((end + 1) as usize)) as int;
        assert(0 <= j < end + 1);
        lemma_swap_permutation(order, n, end as int, j);
        lemma_shuffle_permutation(
            order.update(end as int, order[j]).update(j, order[end as int]),
            n,
            st,
            (end - 1) as nat,
        );
    }
}

/// The order of every pass is a permutation of the sample positions.
pub proof fn lemma_pass_order_permutation(n: nat, seed: u64, pass: nat)
    requires
        0 < n <= usize::MAX,
    ensures
        is_permutation(pass_order(n, seed, pass), n),
{
    let o = identity_order(n);
    assert forall|i: int, j: int| 0 <= i < o.len() && 0 <= j < o.len() && i != j implies o[i] != o[j] by {
        assert(o[i] == i as usize && o[j] == j as usize);
    }
    lemma_shuffle_permutation(o, n, pass_state(seed, pass), (n - 1) as nat);
}

/// Positions past `end` keep their elements through the shuffle from `end` down.
proof fn lemma_shuffle_keeps_tail(order: Seq<usize>, state: u64, end: nat, i: int)
    requires
        end < order.len() <= usize::MAX,
        end < i < order.len(),
    ensures
        shuffle_from(order, state, end).len() == order.len(),
        shuffle_from(order, state, end)[i] == order[i],
    decreases end,
{
    if end > 0 {
        let st = xorshift(state);
        let j = ((st as usize) % ((end + 1) as usize)) as int;
        assert(0 <= j <= end);
        let next = order.update(end as int, order[j]).update(j, order[end as int]);
        lemma_shuffle_keeps_tail(next, st, (end - 1) as nat, i);
    }
}

/// Fisher-Yates law. Each step of the shuffle settles position `end` for good with the
/// element the generator draws from positions `0..=end`: after the shuffle from `end` down,
/// position `end` holds the element that stood at `xorshift(state) mod (end + 1)`, and every
/// position past `end` keeps its element.
pub proof fn lemma_shuffle_draw(order: Seq<usize>, state: u64, end: nat)
    requires
        0 < end < order.len() <= usize::MAX,
    ensures
        shuffle_from(order, state, end)[end as int] == order[((xorshift(state) as usize) % ((end
            + 1) as usize)) as int],
        forall|i: int| end < i < order.len() ==> #[trigger] shuffle_from(order, state, end)[i] == order[i],
{
    let st = xorshift(state);
    let j = ((st as usize) % ((end + 1) as usize)) as int;
    assert(0 <= j <= end);
    let next = order.update(end as int, order[j]).update(j, order[end as int]);
    assert(next[end as int] == order[j]);
    if end > 1 {
        lemma_shuffle_keeps_tail(next, st, (end - 1) as nat, end as int);
    }
    assert forall|i: int| end < i < order.len() implies #[trigger] shuffle_from(order, state, end)[i]
        == order[i] by {
        lemma_shuffle_keeps_tail(order, state, end, i);
    }
}

/// Pass order law. The generator of pass `pass` starts from `seed + pass + 1` (modulo
/// `2^64`), or from 1 where that is 0; the pass's order over `n > 1` samples is a permutation
/// of the positions, and it ends with the position the generator's first draw picks among
/// all `n`.
pub proof fn lemma_pass_order_draw(n: nat, seed: u64, pass: nat)
    requires
        1 < n <= usize::MAX,
        pass <= u64::MAX,
    ensures
        pass_state(seed, pass) as int == (if (seed + pass + 1) % 0x1_0000_0000_0000_0000 == 0 {
            1
        } else {
            (seed + pass + 1) % 0x1_0000_0000_0000_0000
        }),
        is_permutation(pass_order(n, seed, pass), n),
        pass_order(n, seed, pass)[n - 1] == (xorshift(pass_state(seed, pass)) as usize) % (n as usize),
{
    lemma_pass_order_permutation(n, seed, pass);
    lemma_shuffle_draw(identity_order(n), pass_state(seed, pass), (n - 1) as nat);
    let st = xorshift(pass_state(seed, pass));
    assert(identity_order(n)[((st as usize) % (n as usize)) as int] == (st as usize) % (n as usize));
    let v = seed + pass + 1;
    let m = 0x1_0000_0000_0000_0000int;
    if v < m {
        vstd::arithmetic::div_mod::lemma_fundamental_div_mod_converse(v, m, 0, v);
    } else if v < 2 * m {
        vstd::arithmetic::div_mod::lemma_fundamental_div_mod_converse(v, m, 1, v - m);
    }
}

/// The order of pass `pass` over `n > 0` samples.
fn shuffled(n: usize, seed: u64, pass: usize) -> (order: Vec<usize>)
    requires
        n > 0,
    ensures
        order@ == pass_order(n as nat, seed, pass as nat),
        is_permutation(order@, n as nat),
{
    let mut order: Vec<usize> = Vec::new();
    let mut i: usize = 0;
    while i < n
        invariant
            i <= n,
            order@ == identity_order(i as nat),
        decreases n - i,
    {
        order.push(i);
        assert(order@ =~= identity_order(i as nat + 1));
        i = i + 1;
    }
    let start = seed.wrapping_add(pass as u64).wrapping_add(1);
    let mut state: u64 = if start == 0 {
        1
    } else {
        start
    };
    let mut end: usize = n - 1;
    while end >= 1
        invariant
            order@.len() == n,
            end < n,
            shuffle_from(order@, state, end as nat) == pass_order(n as nat, seed, pass as nat),
        decreases end,
    {
        state = state ^ (state << 13u64);
        state = state ^ (state >> 7u64);
        state = state ^ (state << 17u64);
        let j = (state as usize) % (end + 1);
        let a = order[end];
        let b = order[j];
        order.set(end, b);
        order.set(j, a);
        end = end - 1;
    }
    proof {
        lemma_pass_order_permutation(n as nat, seed, pass as nat);
    }
    order
}


/// Batches a finite population for exactly N independently shuffled complete passes; a batch
/// never crosses a pass boundary.
pub struct FinitePassesLoader<T> {
    samples: Vec<T>,
    ids: Vec<u128>,
    batch_size: usize,
    seed: u64,
    progress: PassProgress,
}

/// The current pass's order, and the guard that records where the passes stand: how many
/// are complete, how far the current one has come, and how many samples went out.
struct PassProgress {
    order: Vec<usize>,
    guard: FinitePasses,
}

/// The spec view of a [`FinitePassesLoader`]: its population and identities, the current
/// pass's order, the pass and the position in it, the samples delivered, and the guard.
pub ghost struct PassesLoaderView<T> {
    pub samples: Seq<T>,
    pub ids: Seq<u128>,
    pub order: Seq<usize>,
    pub batch_size: nat,
    pub seed: u64,
    pub pass: nat,
    pub cursor: nat,
    pub delivered: nat,
    pub guard: FinitePassesView,
}

impl<T> View for FinitePassesLoader<T> {
    type V = PassesLoaderView<T>;

    closed spec fn view(&self) -> PassesLoaderView<T> {
        let g = self.progress.guard@;
        PassesLoaderView {
            samples: self.samples@,
            ids: self.ids@,
            order: self.progress.order@,
            batch_size: self.batch_size as nat,
            seed: self.seed,
            pass: g.state.completed,
            cursor: g.state.current.len(),
            delivered: g.state.observations,
            guard: g,
        }
    }
}

/// The end of the batch that starts at the loader's cursor.
pub open spec fn batch_end<T>(v: PassesLoaderView<T>) -> nat {
    if v.cursor + v.batch_size < v.samples.len() {
        v.cursor + v.batch_size
    } else {
        v.samples.len()
    }
}

/// The identities of the batch that starts at the loader's cursor.
pub open spec fn batch_ids<T>(v: PassesLoaderView<T>) -> Seq<u128> {
    v.order.subrange(v.cursor as int, batch_end(v) as int).map_values(|k: usize| v.ids[k as int])
}

/// The loader after it hands out the batch at its cursor and the guard moves to `t`: at the
/// pass's end the next pass starts from position 0 in a fresh order (none after the last).
pub open spec fn batch_step<T>(v: PassesLoaderView<T>, t: regime::PassState) -> PassesLoaderView<T> {
    let n = v.samples.len();
    let end = batch_end(v);
    let next_pass = if end == n {
        v.pass + 1
    } else {
        v.pass
    };
    PassesLoaderView {
        order: if end == n && next_pass < v.guard.declared {
            pass_order(n, v.seed, next_pass)
        } else {
            v.order
        },
        pass: next_pass,
        cursor: if end == n {
            0
        } else {
            end
        },
        delivered: (v.delivered + (end - v.cursor)) as nat,
        guard: FinitePassesView { state: t, ..v.guard },
        ..v
    }
}

/// A batch of identities seen by a guard that has seen `t.current` in this pass: as long as
/// the pass is not full it grows the pass, and the identity that fills it completes the pass.
proof fn lemma_observe_run(t: regime::PassState, pop: nat, dec: nat, batch: Seq<u128>)
    requires
        regime::pass_observe(t, pop, dec, batch) is Ok,
        t.current.len() + batch.len() <= pop,
    ensures
        t.current.len() + batch.len() < pop ==> regime::pass_observe(t, pop, dec, batch)
            == Ok::<regime::PassState, Seq<char>>(
            regime::PassState {
                completed: t.completed,
                current: t.current + batch,
                observations: t.observations + batch.len(),
            },
        ),
        t.current.len() + batch.len() == pop && batch.len() > 0 ==> regime::pass_observe(
            t,
            pop,
            dec,
            batch,
        ) == Ok::<regime::PassState, Seq<char>>(
            regime::PassState {
                completed: t.completed + 1,
                current: Seq::empty(),
                observations: t.observations + batch.len(),
            },
        ),
    decreases batch.len(),
{
    if batch.len() == 0 {
        assert(t.current + batch =~= t.current);
    } else {
        let pre = batch.drop_last();
        lemma_observe_run(t, pop, dec, pre);
        assert(t.current + pre.push(batch.last()) =~= (t.current + pre).push(batch.last()));
        assert(pre.push(batch.last()) =~= batch);
    }
}

/// The loader after `j` more calls of [`FinitePassesLoader::next_batch`], as its contract
/// describes each call: an accepted batch moves it by [`batch_step`], while a refused batch,
/// or a call after the last declared pass, leaves it as it is.
pub open spec fn after_calls<T>(v: PassesLoaderView<T>, j: nat) -> PassesLoaderView<T>
    decreases j,
{
    if j == 0 {
        v
    } else {
        let u = after_calls(v, (j - 1) as nat);
        if u.pass == u.guard.declared {
            u
        } else {
            match regime::pass_observe(u.guard.state, u.guard.population, u.guard.declared, batch_ids(u)) {
                Ok(t) => batch_step(u, t),
                Err(_) => u,
            }
        }
    }
}

/// One call after `j` calls is `j + 1` calls.
pub proof fn lemma_after_calls_step<T>(v: PassesLoaderView<T>, j: nat)
    ensures
        after_calls(v, j + 1) == after_calls(after_calls(v, j), 1),
{
    reveal_with_fuel(after_calls, 2);
}

/// The positions of the `k`-th batch of a pass over `order` cut every `b` positions: from
/// `k * b` up to `(k + 1) * b`, or to the end of the pass if that comes first.
pub open spec fn pass_chunk(order: Seq<usize>, b: nat, k: nat) -> Seq<usize> {
    let n = order.len();
    let lo = if k * b < n {
        k * b
    } else {
        n
    };
    let hi = if (k + 1) * b < n {
        (k + 1) * b
    } else {
        n
    };
    order.subrange(lo as int, hi as int)
}

/// The first `k` batches of a pass over `order`, one after another.
pub open spec fn pass_chunks(order: Seq<usize>, b: nat, k: nat) -> Seq<usize>
    decreases k,
{
    if k == 0 {
        Seq::empty()
    } else {
        pass_chunks(order, b, (k - 1) as nat) + pass_chunk(order, b, (k - 1) as nat)
    }
}

/// What a loader stands at when pass `v.pass` is about to begin: its guard has completed the
/// earlier passes and seen nothing of this one, and the pass's order is the declared shuffle.
pub open spec fn at_pass_start<T>(v: PassesLoaderView<T>) -> bool {
    let n = v.samples.len();
    &&& 0 < n <= usize::MAX
    &&& v.ids.len() == n
    &&& 0 < v.batch_size
    &&& v.guard.population == n
    &&& v.pass < v.guard.declared
    &&& v.cursor == 0
    &&& v.order == pass_order(n, v.seed, v.pass)
    &&& v.guard.state == (regime::PassState {
        completed: v.pass,
        current: Seq::empty(),
        observations: v.delivered,
    })
}

/// A batch whose identities, with those the pass has seen, are all distinct is accepted,
/// while the pass has room, the declared passes are not done, and the count fits.
#[verifier::spinoff_prover]
#[verifier::rlimit(30)]
proof fn lemma_observe_ok(t: regime::PassState, pop: nat, dec: nat, batch: Seq<u128>)
    requires
        t.completed < dec,
        (t.current + batch).no_duplicates(),
        t.current.len() + batch.len() <= pop,
        t.observations + batch.len() <= usize::MAX,
    ensures
        regime::pass_observe(t, pop, dec, batch) is Ok,
    decreases batch.len(),
{
    if batch.len() > 0 {
        let pre = batch.drop_last();
        let all = t.current + batch;
        assert(t.current + pre =~= all.drop_last());
        assert forall|i: int, j: int|
            0 <= i < all.len() - 1 && 0 <= j < all.len() - 1 && i != j implies all.drop_last()[i]
            != all.drop_last()[j] by {
            assert(all.drop_last()[i] == all[i] && all.drop_last()[j] == all[j]);
        }
        lemma_observe_ok(t, pop, dec, pre);
        lemma_observe_run(t, pop, dec, pre);
        if (t.current + pre).contains(batch.last()) {
            let i = choose|i: int| 0 <= i < (t.current + pre).len() && (t.current + pre)[i] == batch.last();
            assert(all[i] == all[all.len() - 1]);
        }
    }
}

/// The identities at the first `m` positions of a permutation are distinct when the
/// identities are.
proof fn lemma_distinct_prefix(order: Seq<usize>, ids: Seq<u128>, m: int)
    requires
        is_permutation(order, ids.len()),
        ids.no_duplicates(),
        0 <= m <= order.len(),
    ensures
        order.take(m).map_values(|k: usize| ids[k as int]).no_duplicates(),
{
    let s = order.take(m).map_values(|k: usize| ids[k as int]);
    assert forall|i: int, j: int| 0 <= i < s.len() && 0 <= j < s.len() && i != j implies s[i] != s[j] by {
        assert(s[i] == ids[order[i] as int] && s[j] == ids[order[j] as int]);
        assert(order[i] != order[j]);
    }
}

/// The calls within a pass: after `j` of them, with `j * B` short of the population, the
/// loader is `j * B` positions into the same pass and its guard has seen those positions'
/// identities; the batches so far are the order's first `j * B` positions.
#[verifier::spinoff_prover]
#[verifier::rlimit(30)]
proof fn lemma_pass_prefix<T>(v: PassesLoaderView<T>, j: nat)
    requires
        at_pass_start(v),
        v.ids.no_duplicates(),
        v.delivered + v.samples.len() <= usize::MAX,
        j * v.batch_size < v.samples.len(),
    ensures
        after_calls(v, j) == (PassesLoaderView {
            cursor: j * v.batch_size,
            delivered: v.delivered + j * v.batch_size,
            guard: FinitePassesView {
                state: regime::PassState {
                    completed: v.pass,
                    current: v.order.take((j * v.batch_size) as int).map_values(|k: usize| v.ids[k as int]),
                    observations: v.delivered + j * v.batch_size,
                },
                ..v.guard
            },
            ..v
        }),
        pass_chunks(v.order, v.batch_size, j) == v.order.take((j * v.batch_size) as int),
    decreases j,
{
    let n = v.samples.len();
    let b = v.batch_size;
    lemma_pass_order_permutation(n, v.seed, v.pass);
    if j == 0 {
        assert(v.order.take(0).map_values(|k: usize| v.ids[k as int]) =~= Seq::<u128>::empty());
        assert(pass_chunks(v.order, b, 0) =~= v.order.take(0));
    } else {
        let i = (j - 1) as nat;
        assert(i * b + b == j * b) by (nonlinear_arith)
            requires
                i == j - 1,
        ;
        lemma_pass_prefix(v, i);
        let u = after_calls(v, i);
        assert(batch_end(u) == j * b);
        let batch = batch_ids(u);
        assert(u.guard.state.current + batch =~= v.order.take((j * b) as int).map_values(
            |k: usize| v.ids[k as int],
        ));
        lemma_distinct_prefix(v.order, v.ids, (j * b) as int);
        lemma_observe_ok(u.guard.state, n, v.guard.declared, batch);
        lemma_observe_run(u.guard.state, n, v.guard.declared, batch);
        assert(pass_chunk(v.order, b, i) =~= v.order.subrange((i * b) as int, (j * b) as int));
        assert(pass_chunks(v.order, b, j) =~= v.order.take((j * b) as int));
    }
}

/// Pass law. From the start of a declared pass, with distinct identities and room in the
/// delivered count, the following calls of `next_batch` hand the pass out batch by batch:
/// call `j` (while `j * B` is short of the population `n`) is accepted, and its batch holds
/// the positions `pass_chunk(order, B, j)` of the pass's order with their own identities,
/// `B` of them or what remains of the pass, never reaching into the next pass. The call that
/// reaches the end of the pass moves the loader to the start of the next one with `n` more
/// samples delivered; the batches of the pass, one after another, are the pass's order, in
/// which every position of the population occurs exactly once.
#[verifier::spinoff_prover]
#[verifier::rlimit(30)]
pub proof fn lemma_pass_law<T>(v: PassesLoaderView<T>, last: nat)
    requires
        at_pass_start(v),
        v.ids.no_duplicates(),
        v.delivered + v.samples.len() <= usize::MAX,
        last * v.batch_size < v.samples.len() <= (last + 1) * v.batch_size,
    ensures
        forall|j: nat|
            j <= last ==> {
                let u = #[trigger] after_calls(v, j);
                &&& u.pass == v.pass
                &&& u.cursor == j * v.batch_size
                &&& u.delivered == v.delivered + j * v.batch_size
                &&& u.order == v.order
                &&& regime::pass_observe(u.guard.state, u.guard.population, u.guard.declared, batch_ids(u)) is Ok
                &&& batch_ids(u) == pass_chunk(v.order, v.batch_size, j).map_values(
                    |k: usize| v.ids[k as int],
                )
                &&& batch_end(u) - u.cursor == pass_chunk(v.order, v.batch_size, j).len()
                &&& pass_chunk(v.order, v.batch_size, j).len() == if j < last {
                    v.batch_size as int
                } else {
                    v.samples.len() - j * v.batch_size
                }
            },
        after_calls(v, last + 1).pass == v.pass + 1,
        after_calls(v, last + 1).cursor == 0,
        after_calls(v, last + 1).delivered == v.delivered + v.samples.len(),
        v.pass + 1 < v.guard.declared ==> at_pass_start(after_calls(v, last + 1)),
        after_calls(v, last + 1).samples == v.samples,
        after_calls(v, last + 1).ids == v.ids,
        after_calls(v, last + 1).batch_size == v.batch_size,
        after_calls(v, last + 1).seed == v.seed,
        after_calls(v, last + 1).guard.population == v.guard.population,
        after_calls(v, last + 1).guard.declared == v.guard.declared,
        pass_chunks(v.order, v.batch_size, last + 1) == v.order,
        is_permutation(v.order, v.samples.len()),
{
    let n = v.samples.len();
    let b = v.batch_size;
    lemma_pass_order_permutation(n, v.seed, v.pass);
    assert forall|j: nat| j <= last implies {
        let u = #[trigger] after_calls(v, j);
        &&& u.pass == v.pass
        &&& u.cursor == j * b
        &&& u.delivered == v.delivered + j * b
        &&& u.order == v.order
        &&& regime::pass_observe(u.guard.state, u.guard.population, u.guard.declared, batch_ids(u)) is Ok
        &&& batch_ids(u) == pass_chunk(v.order, b, j).map_values(|k: usize| v.ids[k as int])
        &&& batch_end(u) - u.cursor == pass_chunk(v.order, b, j).len()
        &&& pass_chunk(v.order, b, j).len() == if j < last {
            b as int
        } else {
            n - j * b
        }
    } by {
        assert(j * b <= last * b) by (nonlinear_arith)
            requires
                j <= last,
        ;
        if j < last {
            assert((j + 1) * b <= last * b) by (nonlinear_arith)
                requires
                    j + 1 <= last,
            ;
        } else {
            assert((j + 1) * b == (last + 1) * b);
        }
        assert((j + 1) * b == j * b + b) by (nonlinear_arith);
        lemma_pass_prefix(v, j);
        let u = after_calls(v, j);
        let end = batch_end(u);
        assert(u.guard.state.current + batch_ids(u) =~= v.order.take(end as int).map_values(
            |k: usize| v.ids[k as int],
        ));
        lemma_distinct_prefix(v.order, v.ids, end as int);
        lemma_observe_ok(u.guard.state, n, v.guard.declared, batch_ids(u));
        assert(batch_ids(u) =~= pass_chunk(v.order, b, j).map_values(|k: usize| v.ids[k as int]));
    }
    lemma_pass_prefix(v, last);
    let u = after_calls(v, last);
    assert((last + 1) * b == last * b + b) by (nonlinear_arith);
    assert(batch_end(u) == n);
    assert(u.guard.state.current + batch_ids(u) =~= v.order.take(n as int).map_values(
        |k: usize| v.ids[k as int],
    ));
    lemma_distinct_prefix(v.order, v.ids, n as int);
    lemma_observe_ok(u.guard.state, n, v.guard.declared, batch_ids(u));
    lemma_observe_run(u.guard.state, n, v.guard.declared, batch_ids(u));
    assert(pass_chunk(v.order, b, last) =~= v.order.subrange((last * b) as int, n as int));
    assert(pass_chunks(v.order, b, last + 1) =~= v.order);
}

/// Calls compose: `a` calls and then `b` more are `a + b` calls.
pub proof fn lemma_after_calls_add<T>(v: PassesLoaderView<T>, a: nat, b: nat)
    ensures
        after_calls(v, a + b) == after_calls(after_calls(v, a), b),
    decreases b,
{
    if b > 0 {
        let c = (b - 1) as nat;
        lemma_after_calls_add(v, a, c);
        lemma_after_calls_step(v, a + c);
        lemma_after_calls_step(after_calls(v, a), c);
    }
}

/// Whole-run pass law. A fresh loader (pass 0, nothing delivered) with distinct identities,
/// whose declared passes' deliveries fit `usize`, and whose passes take `last + 1` batches
/// each, is after `p * (last + 1)` calls at the start of pass `p` with `p * n` samples
/// delivered, each pass handed out as [`lemma_pass_law`] says. Once every declared pass is
/// complete, a further call leaves the loader as it is ([`FinitePassesLoader::next_batch`]
/// then returns `None`).
pub proof fn lemma_passes_law<T>(v: PassesLoaderView<T>, last: nat, p: nat)
    requires
        at_pass_start(v),
        v.pass == 0,
        v.delivered == 0,
        v.ids.no_duplicates(),
        v.guard.declared * v.samples.len() <= usize::MAX,
        last * v.batch_size < v.samples.len() <= (last + 1) * v.batch_size,
        p <= v.guard.declared,
    ensures
        after_calls(v, p * (last + 1)).pass == p,
        after_calls(v, p * (last + 1)).cursor == 0,
        after_calls(v, p * (last + 1)).delivered == p * v.samples.len(),
        after_calls(v, p * (last + 1)).samples == v.samples,
        after_calls(v, p * (last + 1)).ids == v.ids,
        after_calls(v, p * (last + 1)).batch_size == v.batch_size,
        after_calls(v, p * (last + 1)).guard.declared == v.guard.declared,
        p < v.guard.declared ==> at_pass_start(after_calls(v, p * (last + 1))),
        p == v.guard.declared ==> after_calls(after_calls(v, p * (last + 1)), 1) == after_calls(
            v,
            p * (last + 1),
        ),
    decreases p,
{
    let n = v.samples.len();
    if p == 0 {
        assert(p * (last + 1) == 0 && p * n == 0) by (nonlinear_arith)
            requires
                p == 0,
        ;
    } else {
        let q = (p - 1) as nat;
        lemma_passes_law(v, last, q);
        let u = after_calls(v, q * (last + 1));
        assert(q * n + n == p * n) by (nonlinear_arith)
            requires
                q == p - 1,
        ;
        assert(p * n <= v.guard.declared * n) by (nonlinear_arith)
            requires
                p <= v.guard.declared,
        ;
        lemma_pass_law(u, last);
        lemma_after_calls_add(v, q * (last + 1), last + 1);
        assert(q * (last + 1) + (last + 1) == p * (last + 1)) by (nonlinear_arith)
            requires
                q == p - 1,
        ;
    }
    if p == v.guard.declared {
        reveal_with_fuel(after_calls, 2);
    }
}

impl<T> FinitePassesLoader<T> {
    #[verifier::type_invariant]
    spec fn well_formed(self) -> bool {
        let n = self.samples.len();
        let g = self.progress.guard@;
        let c = g.state.current.len();
        &&& 0 < n
        &&& self.ids.len() == n
        &&& is_permutation(self.progress.order@, n as nat)
        &&& 0 < self.batch_size
        &&& g.population == n
        &&& c < n
        &&& c % (self.batch_size as nat) == 0
        &&& g.state.current == self.progress.order@.take(c as int).map_values(
            |k: usize| self.ids@[k as int],
        )
        &&& g.state.completed < g.declared ==> self.progress.order@ == pass_order(
            n as nat,
            self.seed,
            g.state.completed,
        )
        &&& g.state.completed == g.declared ==> c == 0
    }

    /// The receipt of the finite-passes guard. Its observations are the samples delivered,
    /// which are the complete passes' populations plus the current pass's position, and no
    /// more passes complete than were declared. The position is a whole number of batches
    /// into the pass, and at the start of a declared pass the loader is as the pass law
    /// ([`lemma_pass_law`]) takes it.
    pub fn receipt(&self) -> (r: FinitePassesReceipt)
        ensures
            r == (FinitePassesReceipt {
                population: self@.guard.population as usize,
                declared_passes: self@.guard.declared as usize,
                completed_passes: self@.guard.state.completed as usize,
                observations: self@.guard.state.observations as usize,
            }),
            r.observations == self@.delivered,
            r.completed_passes == self@.pass,
            r.completed_passes <= r.declared_passes,
            r.population == self@.samples.len(),
            self@.delivered == self@.pass * self@.samples.len() + self@.cursor,
            self@.cursor < self@.samples.len(),
            self@.cursor % self@.batch_size == 0,
            self@.cursor == 0 && self@.pass < self@.guard.declared ==> at_pass_start(self@),
    {
        proof {
            use_type_invariant(self);
            if self@.cursor == 0 {
                assert(self@.guard.state.current =~= Seq::<u128>::empty());
            }
        }
        let population = self.samples.len();
        assert(self@.samples.len() == population);
        self.progress.guard.receipt()
    }

    /// The number of samples delivered in accepted batches.
    pub fn samples_delivered(&self) -> (n: usize)
        ensures
            n == self@.delivered,
    {
        self.progress.guard.receipt().observations
    }
}

impl<T: Clone> FinitePassesLoader<T> {
    /// A loader whose identities are the sample positions.
    pub fn new(samples: Vec<T>, batch_size: usize, passes: usize, seed: u64) -> (r: Result<
        Self,
        Error,
    >)
        ensures
            r is Ok <==> samples@.len() > 0 && batch_size > 0 && passes > 0,
            r matches Ok(l) ==> l@ == (PassesLoaderView {
                samples: samples@,
                ids: positional_ids(samples@.len()),
                order: pass_order(samples@.len(), seed, 0),
                batch_size: batch_size as nat,
                seed,
                pass: 0,
                cursor: 0,
                delivered: 0,
                guard: FinitePassesView {
                    population: samples@.len(),
                    declared: passes as nat,
                    state: regime::PassState { completed: 0, current: Seq::empty(), observations: 0 },
                },
            }),
            samples@.len() == 0 ==> r is Err && r->Err_0@
                == "finite-pass samples and IDs must be nonempty and equal in length"@,
            samples@.len() > 0 && batch_size == 0 ==> r is Err && r->Err_0@
                == "finite-pass batch size must be positive"@,
            samples@.len() > 0 && batch_size > 0 && passes == 0 ==> r is Err && r->Err_0@
                == "finite passes must declare at least one pass"@,
    {
        let ids = positions(samples.len());
        Self::with_ids(samples, ids, batch_size, passes, seed)
    }

    /// A loader with caller-supplied identities, one per sample.
    pub fn with_ids(
        samples: Vec<T>,
        ids: Vec<u128>,
        batch_size: usize,
        passes: usize,
        seed: u64,
    ) -> (r: Result<Self, Error>)
        ensures
            r is Ok <==> samples@.len() > 0 && samples@.len() == ids@.len() && batch_size > 0
                && passes > 0,
            r matches Ok(l) ==> l@ == (PassesLoaderView {
                samples: samples@,
                ids: ids@,
                order: pass_order(samples@.len(), seed, 0),
                batch_size: batch_size as nat,
                seed,
                pass: 0,
                cursor: 0,
                delivered: 0,
                guard: FinitePassesView {
                    population: samples@.len(),
                    declared: passes as nat,
                    state: regime::PassState { completed: 0, current: Seq::empty(), observations: 0 },
                },
            }),
            (samples@.len() == 0 || samples@.len() != ids@.len()) ==> r is Err && r->Err_0@
                == "finite-pass samples and IDs must be nonempty and equal in length"@,
            samples@.len() > 0 && samples@.len() == ids@.len() && batch_size == 0 ==> r is Err
                && r->Err_0@ == "finite-pass batch size must be positive"@,
            samples@.len() > 0 && samples@.len() == ids@.len() && batch_size > 0 && passes == 0
                ==> r is Err && r->Err_0@ == "finite passes must declare at least one pass"@,
    {
        if samples.len() == 0 || samples.len() != ids.len() {
            return Err(
                Error::new(
                    String::from_str(
                        "finite-pass samples and IDs must be nonempty and equal in length",
                    ),
                ),
            );
        }
        if batch_size == 0 {
            return Err(Error::new(String::from_str("finite-pass batch size must be positive")));
        }
        let guard = FinitePasses::new(samples.len(), passes)?;
        let order = shuffled(samples.len(), seed, 0);
        proof {
            vstd::arithmetic::div_mod::lemma_small_mod(0, batch_size as nat);
            assert(order@.take(0).map_values(|k: usize| ids@[k as int]) =~= Seq::<u128>::empty());
        }
        Ok(FinitePassesLoader { samples, ids, batch_size, seed, progress: PassProgress { order, guard } })
    }

    /// The next batch: the following positions of the current pass's order, up to the batch
    /// size and never past the pass's end, checked by the finite-passes guard. After the last
    /// declared pass there are no more batches, and every pass has delivered the population.
    pub fn next_batch(&mut self) -> (r: Result<Option<Batch<T>>, Error>)
        ensures
            final(self)@ == after_calls(old(self)@, 1),
            ({
                let v = old(self)@;
                let n = v.samples.len();
                let end = batch_end(v);
                let ids = batch_ids(v);
                if v.pass == v.guard.declared {
                    &&& r is Ok && r->Ok_0 is None
                    &&& final(self)@ == v
                    &&& v.delivered == v.guard.declared * n
                } else {
                    match regime::pass_observe(v.guard.state, v.guard.population, v.guard.declared, ids) {
                        Err(m) => r is Err && r->Err_0@ == m && final(self)@ == v,
                        Ok(t) => {
                            &&& r matches Ok(Some(b)) && b.sample_ids@ == ids
                                && b.samples@.len() == end - v.cursor && b.samples_seen_before
                                == v.delivered && b.regime == DataRegimeReceipt::FinitePasses(
                                FinitePassesReceipt {
                                    population: n as usize,
                                    declared_passes: v.guard.declared as usize,
                                    completed_passes: t.completed as usize,
                                    observations: t.observations as usize,
                                },
                            ) && forall|i: int|
                                0 <= i < b.samples@.len() ==> cloned(
                                    v.samples[v.order[v.cursor + i] as int],
                                    #[trigger] b.samples@[i],
                                )
                            &&& final(self)@ == batch_step(v, t)
                        },
                    }
                }
            }),
    {
        proof {
            use_type_invariant(&*self);
            reveal_with_fuel(after_calls, 2);
        }
        let before = self.progress.guard.receipt();
        let declared = before.declared_passes;
        if before.completed_passes == declared {
            return Ok(None);
        }
        let ghost v = self@;
        let n = self.samples.len();
        let cursor = self.progress.guard.seen_in_pass();
        let end = if self.batch_size < n - cursor {
            cursor + self.batch_size
        } else {
            n
        };
        let mut samples: Vec<T> = Vec::new();
        let mut sample_ids: Vec<u128> = Vec::new();
        let mut k = cursor;
        while k < end
            invariant
                v == self@,
                n == self.samples@.len(),
                self.ids@.len() == n,
                is_permutation(self.progress.order@, n as nat),
                cursor == v.cursor,
                cursor <= k <= end <= n,
                end == batch_end(v),
                sample_ids@ == batch_ids(v).take(k - cursor),
                samples@.len() == k - cursor,
                forall|i: int|
                    0 <= i < samples@.len() ==> cloned(
                        v.samples[v.order[v.cursor + i] as int],
                        #[trigger] samples@[i],
                    ),
            decreases end - k,
        {
            let index = self.progress.order[k];
            assert(index < n);
            samples.push(self.samples[index].clone());
            sample_ids.push(self.ids[index]);
            assert(sample_ids@ =~= batch_ids(v).take(k + 1 - cursor));
            k = k + 1;
        }
        assert(sample_ids@ =~= batch_ids(v));
        let guard = self.progress.guard.observed(sample_ids.as_slice())?;
        let after = guard.receipt();
        let ghost t = guard@.state;
        proof {
            lemma_observe_run(v.guard.state, n as nat, v.guard.declared, batch_ids(v));
            let b = self.batch_size as nat;
            assert(v.guard.state.current + batch_ids(v) =~= v.order.take(end as int).map_values(
                |k: usize| v.ids[k as int],
            ));
            if end < n {
                vstd::arithmetic::div_mod::lemma_mod_add_multiples_vanish(cursor as int, b as int);
            } else {
                vstd::arithmetic::div_mod::lemma_small_mod(0, b);
                assert(v.order.take(0).map_values(|k: usize| v.ids[k as int]) =~= Seq::<u128>::empty());
            }
        }
        if end == n && after.completed_passes < declared {
            let order = shuffled(n, self.seed, after.completed_passes);
            assert(order@.take(0).map_values(|k: usize| self.ids@[k as int]) =~= Seq::<u128>::empty());
            self.progress = PassProgress { order, guard };
        } else {
            self.progress.guard = guard;
        }
        Ok(
            Some(
                Batch {
                    samples,
                    sample_ids,
                    samples_seen_before: before.observations,
                    regime: DataRegimeReceipt::FinitePasses(after),
                },
            ),
        )
    }
}

/// The splitmix64 finalizer that turns a draw counter into well-mixed bits.
pub open spec fn mix_spec(value: u64) -> u64 {
    let a = vstd::wrapping::u64_specs::wrapping_add(value, 0x9e3779b97f4a7c15u64);
    let b = vstd::wrapping::u64_specs::wrapping_mul(a ^ (a >> 30u64), 0xbf58476d1ce4e5b9u64);
    let c = vstd::wrapping::u64_specs::wrapping_mul(b ^ (b >> 27u64), 0x94d049bb133111ebu64);
    c ^ (c >> 31u64)
}

/// An inexhaustible deterministic stream of fresh addition problems. Identities are unique
/// draw counters under the seed; each draw yields two 24-bit operand numerators, which the
/// caller scales to `[-1, 1)` as `numerator / 2^24 * 2 - 1`.
pub struct AdditionDataset {
    seed: u64,
    next_id: u64,
}

/// One draw: its sample identity and the 24-bit numerators of its two operands.
#[derive(Clone, Copy, Debug, PartialEq, Eq, Structural)]
pub struct AdditionDraw {
    pub id: u128,
    pub left: u64,
    pub right: u64,
}

impl View for AdditionDataset {
    /// (seed, next draw counter)
    type V = (u64, u64);

    closed spec fn view(&self) -> (u64, u64) {
        (self.seed, self.next_id)
    }
}

impl AdditionDataset {
    pub fn new(seed: u64) -> (d: Self)
        ensures
            d@ == (seed, 0u64),
    {
        AdditionDataset { seed, next_id: 0 }
    }

    /// The splitmix64 finalizer.
    pub fn mix(value: u64) -> (r: u64)
        ensures
            r == mix_spec(value),
    {
        let a = value.wrapping_add(0x9e3779b97f4a7c15u64);
        let b = (a ^ (a >> 30u64)).wrapping_mul(0xbf58476d1ce4e5b9u64);
        let c = (b ^ (b >> 27u64)).wrapping_mul(0x94d049bb133111ebu64);
        c ^ (c >> 31u64)
    }

    /// The next draw; refused, with nothing consumed, once the counter space is exhausted.
    pub fn next_draw(&mut self) -> (r: Result<AdditionDraw, Error>)
        ensures
            old(self)@.1 == u64::MAX ==> r is Err && final(self)@ == old(self)@ && r->Err_0@
                == "AdditionDataset exhausted its u64 sample identity space"@,
            old(self)@.1 < u64::MAX ==> final(self)@ == (old(self)@.0, (old(self)@.1 + 1) as u64)
                && r == Ok::<AdditionDraw, Error>(addition_draw(old(self)@.0, old(self)@.1)),
    {
        let id = self.next_id;
        if id == u64::MAX {
            return Err(
                Error::new(
                    String::from_str("AdditionDataset exhausted its u64 sample identity space"),
                ),
            );
        }
        self.next_id = id + 1;
        let twice = id.wrapping_mul(2);
        let left = Self::mix(self.seed ^ twice) >> 40u64;
        let right = Self::mix(self.seed ^ twice.wrapping_add(1)) >> 40u64;
        Ok(AdditionDraw { id: ((self.seed as u128) << 64u128) | (id as u128), left, right })
    }
}

/// The draw with counter `c` under `seed`: identity `seed << 64 | c`, and the top 24 bits of
/// the mixed `seed ^ 2c` and `seed ^ (2c + 1)` as its operands' numerators.
pub open spec fn addition_draw(seed: u64, c: u64) -> AdditionDraw {
    let twice = vstd::wrapping::u64_specs::wrapping_mul(c, 2);
    AdditionDraw {
        id: ((seed as u128) << 64u128) | (c as u128),
        left: mix_spec(seed ^ twice) >> 40u64,
        right: mix_spec(seed ^ vstd::wrapping::u64_specs::wrapping_add(twice, 1)) >> 40u64,
    }
}

impl DataSource for AdditionDataset {
    type Item = AdditionDraw;

    open spec fn described(&self) -> bool {
        true
    }

    /// A generated stream has no end.
    open spec fn remaining(&self) -> Option<nat> {
        None
    }

    /// The identity of the draw `k` counters ahead.
    open spec fn upcoming_id(&self, k: nat) -> u128 {
        addition_draw(self@.0, (self@.1 + k) as u64).id
    }

    /// The draw `k` counters ahead.
    open spec fn upcoming(&self, k: nat, value: AdditionDraw) -> bool {
        value == addition_draw(self@.0, (self@.1 + k) as u64)
    }

    /// The next draw as a sample under its identity; refused once the counter space is
    /// exhausted.
    fn next_sample(&mut self) -> (r: Result<Option<Sample<AdditionDraw>>, Error>)
        ensures
            old(self)@.1 == u64::MAX ==> r is Err && final(self)@ == old(self)@,
            old(self)@.1 < u64::MAX ==> final(self)@ == (old(self)@.0, (old(self)@.1 + 1) as u64)
                && r == Ok::<Option<Sample<AdditionDraw>>, Error>(
                Some(
                    Sample {
                        id: addition_draw(old(self)@.0, old(self)@.1).id,
                        value: addition_draw(old(self)@.0, old(self)@.1),
                    },
                ),
            ),
    {
        let draw = self.next_draw()?;
        Ok(Some(Sample { id: draw.id, value: draw }))
    }

    /// A generated stream has no finite population.
    fn available(&self) -> (r: Option<usize>)
        ensures
            r is None,
    {
        None
    }
}


} // verus!
