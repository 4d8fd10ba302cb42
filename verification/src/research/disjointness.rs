//! Executable separation contracts for caller-defined semantic identities.
use crate::error::Error;
use crate::text;
use vstd::prelude::*;
use vstd::string::StringExecFns;

verus! {

/// A scientific identity that can be compared exactly. Two identities are the
/// same unit when their views agree.
pub trait Identity: View + Sized {
    fn same_identity(&self, other: &Self) -> (b: bool)
        ensures
            b == (self@ == other@),
    ;
}

impl Identity for String {
    fn same_identity(&self, other: &Self) -> (b: bool) {
        text::text_eq(self.as_str(), other.as_str())
    }
}

impl Identity for u8 {
    fn same_identity(&self, other: &Self) -> (b: bool) {
        *self == *other
    }
}

impl Identity for u32 {
    fn same_identity(&self, other: &Self) -> (b: bool) {
        *self == *other
    }
}

impl Identity for u64 {
    fn same_identity(&self, other: &Self) -> (b: bool) {
        *self == *other
    }
}

impl Identity for u128 {
    fn same_identity(&self, other: &Self) -> (b: bool) {
        *self == *other
    }
}

impl Identity for usize {
    fn same_identity(&self, other: &Self) -> (b: bool) {
        *self == *other
    }
}

/// Names the equivalence relation used to decide whether two observations are
/// the same scientific unit.
#[derive(Clone, Debug, Eq, PartialEq)]
pub struct IdentityScheme {
    name: String,
    version: String,
    unit: String,
}

impl View for IdentityScheme {
    type V = (Seq<char>, Seq<char>, Seq<char>);

    closed spec fn view(&self) -> (Seq<char>, Seq<char>, Seq<char>) {
        (self.name@, self.version@, self.unit@)
    }
}

impl IdentityScheme {
    /// A scheme whose name, version and unit are all labels; the first invalid
    /// one, in that order, is reported.
    pub fn new(name: &str, version: &str, unit: &str) -> (r: Result<IdentityScheme, Error>)
        ensures
            r is Ok <==> text::is_label(name@) && text::is_label(version@) && text::is_label(unit@),
            r matches Ok(s) ==> s@ == (name@, version@, unit@),
            !text::is_label(name@) ==> r is Err && r->Err_0@ == text::label_message(
                "identity scheme name"@,
            ),
            text::is_label(name@) && !text::is_label(version@) ==> r is Err && r->Err_0@ == text::label_message(
                "identity scheme version"@,
            ),
            text::is_label(name@) && text::is_label(version@) && !text::is_label(unit@) ==> r is Err
                && r->Err_0@ == text::label_message("identity unit"@),
    {
        let name = text::label("identity scheme name", name.to_owned())?;
        let version = text::label("identity scheme version", version.to_owned())?;
        let unit = text::label("identity unit", unit.to_owned())?;
        Ok(IdentityScheme { name, version, unit })
    }

    pub fn name(&self) -> (s: &str)
        ensures
            s@ == self@.0,
    {
        self.name.as_str()
    }

    pub fn version(&self) -> (s: &str)
        ensures
            s@ == self@.1,
    {
        self.version.as_str()
    }

    pub fn unit(&self) -> (s: &str)
        ensures
            s@ == self@.2,
    {
        self.unit.as_str()
    }

    fn copy(&self) -> (s: IdentityScheme)
        ensures
            s@ == self@,
    {
        IdentityScheme {
            name: self.name.clone(),
            version: self.version.clone(),
            unit: self.unit.clone(),
        }
    }
}

/// The strength of the evidence recorded by a disjointness receipt.
#[derive(Clone, Copy, Debug, Eq, PartialEq)]
pub enum DisjointnessEvidence {
    /// Every identity delivered to this ledger was compared exactly. This says
    /// nothing about observations that were not delivered or the soundness of
    /// the caller's canonicalization function.
    VerifiedObservations,
}

impl DisjointnessEvidence {
    pub fn to_string(&self) -> (s: String)
        ensures
            s@ == "verified observed identities"@,
    {
        String::from_str("verified observed identities")
    }
}

/// A population's spec state: name, distinct identities in first-seen order,
/// observation count and within-population repeat count.
pub type PopulationView<V> = (Seq<char>, Seq<V>, usize, usize);

struct Population<K> {
    name: String,
    identities: Vec<K>,
    observations: usize,
    repeats: usize,
}

impl<K: View> Population<K> {
    spec fn spec_view(&self) -> PopulationView<K::V> {
        (self.name@, self.identities@.map_values(|k: K| k@), self.observations, self.repeats)
    }
}

spec fn populations_view<K: View>(p: Seq<Population<K>>) -> Seq<PopulationView<K::V>> {
    p.map_values(|x: Population<K>| x.spec_view())
}

/// Names strictly increase, identities are distinct within a population and
/// never shared across two, and every observation is a unique identity or a repeat.
pub open spec fn ledger_wf<V>(v: Seq<PopulationView<V>>) -> bool {
    &&& forall|i: int, j: int| 0 <= i < j < v.len() ==> text::text_lt(#[trigger] v[i].0, #[trigger] v[j].0)
    &&& forall|i: int| 0 <= i < v.len() ==> (#[trigger] v[i]).1.no_duplicates()
    &&& forall|i: int| 0 <= i < v.len() ==> (#[trigger] v[i]).2 == v[i].1.len() + v[i].3
    &&& forall|i: int, j: int, x: V|
        0 <= i < v.len() && 0 <= j < v.len() && i != j && #[trigger] v[i].1.contains(x)
            ==> !(#[trigger] v[j].1.contains(x))
}

/// `v` declares a population named `name`.
pub open spec fn declares<V>(v: Seq<PopulationView<V>>, name: Seq<char>) -> bool {
    exists|i: int| 0 <= i < v.len() && v[i].0 == name
}

/// Where the population named `name` stands in `v`.
pub open spec fn population_index<V>(v: Seq<PopulationView<V>>, name: Seq<char>) -> int {
    choose|i: int| 0 <= i < v.len() && v[i].0 == name
}

/// Some population other than the `p`th already holds `x`.
pub open spec fn held_elsewhere<V>(v: Seq<PopulationView<V>>, p: int, x: V) -> bool {
    exists|q: int| 0 <= q < v.len() && q != p && v[q].1.contains(x)
}

/// The population other than the `p`th that holds `x`.
pub open spec fn holder<V>(v: Seq<PopulationView<V>>, p: int, x: V) -> int {
    choose|q: int| 0 <= q < v.len() && q != p && v[q].1.contains(x)
}

/// The batch holds an identity some other population already holds.
pub open spec fn clashes<V>(v: Seq<PopulationView<V>>, p: int, batch: Seq<V>) -> bool {
    exists|i: int| 0 <= i < batch.len() && held_elsewhere(v, p, #[trigger] batch[i])
}

/// The first batch position whose identity another population holds.
pub open spec fn first_clash<V>(v: Seq<PopulationView<V>>, p: int, batch: Seq<V>) -> int {
    choose|i: int|
        0 <= i < batch.len() && held_elsewhere(v, p, #[trigger] batch[i]) && forall|j: int|
            0 <= j < i ==> !held_elsewhere(v, p, #[trigger] batch[j])
}

/// `seen` extended by the identities of `batch` not yet seen, in first-seen order.
pub open spec fn absorb<V>(seen: Seq<V>, batch: Seq<V>) -> Seq<V>
    decreases batch.len(),
{
    if batch.len() == 0 {
        seen
    } else {
        let s = absorb(seen, batch.drop_last());
        if s.contains(batch.last()) {
            s
        } else {
            s.push(batch.last())
        }
    }
}

/// The population state after recording `batch`.
pub open spec fn recorded<V>(pop: PopulationView<V>, batch: Seq<V>) -> PopulationView<V> {
    let ids = absorb(pop.1, batch);
    (
        pop.0,
        ids,
        (pop.2 + batch.len()) as usize,
        (pop.3 + batch.len() - (ids.len() - pop.1.len())) as usize,
    )
}

pub open spec fn undeclared_message(name: Seq<char>) -> Seq<char> {
    "undeclared disjointness population "@ + text::debug_text(name)
}

pub open spec fn contamination_message<V>(
    scheme: (Seq<char>, Seq<char>, Seq<char>),
    v: Seq<PopulationView<V>>,
    name: Seq<char>,
    batch: Seq<V>,
) -> Seq<char> {
    let p = population_index(v, name);
    let i = first_clash(v, p, batch);
    "semantic contamination under "@ + scheme.0 + "@"@ + scheme.1 + ": "@ + text::debug_text(name)
        + " identity at batch index "@ + text::decimal_text(i as nat) + " was already observed in "@
        + text::debug_text(v[holder(v, p, batch[i])].0) + "\nidentity unit: "@ + scheme.2
}

pub open spec fn duplicate_population_message(name: Seq<char>) -> Seq<char> {
    "population "@ + text::debug_text(name) + " was declared more than once"@
}

pub open spec fn too_few_populations_message() -> Seq<char> {
    "disjointness requires at least two declared populations"@
}

/// Declaring `names` in order: the declared names, or the first failure.
pub open spec fn declare(names: Seq<Seq<char>>) -> Result<Seq<Seq<char>>, Seq<char>>
    decreases names.len(),
{
    if names.len() == 0 {
        Ok(Seq::empty())
    } else {
        match declare(names.drop_last()) {
            Err(m) => Err(m),
            Ok(d) => {
                let n = names.last();
                if !text::is_label(n) {
                    Err(text::label_message("population name"@))
                } else if d.contains(n) {
                    Err(duplicate_population_message(n))
                } else {
                    Ok(d.push(n))
                }
            },
        }
    }
}

/// The incompleteness message: the unobserved populations, in name order.
pub open spec fn unobserved_names<V>(v: Seq<PopulationView<V>>) -> Seq<Seq<char>>
    decreases v.len(),
{
    if v.len() == 0 {
        Seq::empty()
    } else {
        let rest = unobserved_names(v.drop_last());
        if v.last().2 == 0 {
            rest.push(v.last().0)
        } else {
            rest
        }
    }
}

/// `parts` joined by `", "`.
pub open spec fn join_names(parts: Seq<Seq<char>>) -> Seq<char>
    decreases parts.len(),
{
    if parts.len() == 0 {
        Seq::empty()
    } else if parts.len() == 1 {
        parts[0]
    } else {
        join_names(parts.drop_last()) + ", "@ + parts.last()
    }
}

pub open spec fn incomplete_message<V>(v: Seq<PopulationView<V>>) -> Seq<char> {
    "disjointness evidence is incomplete; no identities were observed for "@ + join_names(
        unobserved_names(v),
    )
}

/// Every population has at least one observation.
pub open spec fn complete<V>(v: Seq<PopulationView<V>>) -> bool {
    forall|i: int| 0 <= i < v.len() ==> (#[trigger] v[i]).2 > 0
}

/// Pairwise separation across two or more declared populations.
///
/// `K` is the scientific identity. A raw source ID checks draw separation;
/// a canonicalized problem value can check a stronger semantic equivalence.
pub struct Disjointness<K> {
    scheme: IdentityScheme,
    populations: Vec<Population<K>>,
}

/// One population's counts in a receipt.
#[derive(Clone, Debug, Eq, PartialEq)]
pub struct PopulationReceipt {
    pub name: String,
    pub observations: usize,
    pub unique_identities: usize,
    pub within_population_repeats: usize,
}

/// The ledger's state when it was issued.
#[derive(Clone, Debug, Eq, PartialEq)]
pub struct DisjointnessReceipt {
    pub scheme: IdentityScheme,
    pub evidence: DisjointnessEvidence,
    pub populations: Vec<PopulationReceipt>,
    pub complete: bool,
}

/// `r` reports the ledger `v` of scheme `scheme`.
pub open spec fn receipt_reports<V>(
    r: DisjointnessReceipt,
    scheme: (Seq<char>, Seq<char>, Seq<char>),
    v: Seq<PopulationView<V>>,
) -> bool {
    &&& r.scheme@ == scheme
    &&& r.evidence == DisjointnessEvidence::VerifiedObservations
    &&& r.populations@.len() == v.len()
    &&& forall|i: int|
        0 <= i < v.len() ==> {
            &&& (#[trigger] r.populations@[i]).name@ == v[i].0
            &&& r.populations@[i].observations == v[i].2
            &&& r.populations@[i].unique_identities == v[i].1.len()
            &&& r.populations@[i].within_population_repeats == v[i].3
        }
    &&& r.complete == complete(v)
}

impl<K: Identity> Disjointness<K> {
    /// The declared scheme.
    pub closed spec fn scheme_view(&self) -> (Seq<char>, Seq<char>, Seq<char>) {
        self.scheme@
    }

    /// The populations in name order.
    pub closed spec fn ledger(&self) -> Seq<PopulationView<K::V>> {
        populations_view(self.populations@)
    }

    /// The ledger is consistent; every ledger built by `new` is, and every
    /// operation keeps it so.
    pub closed spec fn wf(&self) -> bool {
        ledger_wf(self.ledger()) && self.ledger().len() >= 2
    }
}

/// No identity recorded by a consistent ledger belongs to two of its populations.
pub proof fn lemma_populations_disjoint<K: Identity>(d: Disjointness<K>, i: int, j: int, x: K::V)
    requires
        d.wf(),
        0 <= i < d.ledger().len(),
        0 <= j < d.ledger().len(),
        i != j,
        d.ledger()[i].1.contains(x),
    ensures
        !d.ledger()[j].1.contains(x),
{
}

/// In a consistent ledger every observation of a population is either one of its distinct
/// identities or a repeat within it, and no distinct identity is listed twice.
pub proof fn lemma_observations_split<K: Identity>(d: Disjointness<K>, i: int)
    requires
        d.wf(),
        0 <= i < d.ledger().len(),
    ensures
        d.ledger()[i].2 == d.ledger()[i].1.len() + d.ledger()[i].3,
        d.ledger()[i].1.no_duplicates(),
{
}

/// A consistent ledger declares at least two populations, in strictly increasing name order.
pub proof fn lemma_populations_ordered<K: Identity>(d: Disjointness<K>, i: int, j: int)
    requires
        d.wf(),
        0 <= i < j < d.ledger().len(),
    ensures
        text::text_lt(d.ledger()[i].0, d.ledger()[j].0),
        d.ledger().len() >= 2,
{
}


/// The names of a list of population declarations.
pub open spec fn names_view(names: Seq<&str>) -> Seq<Seq<char>> {
    names.map_values(|n: &str| n@)
}

/// Once a prefix of the declarations fails, the whole declaration fails the same way.
proof fn lemma_declare_err_sticks(names: Seq<Seq<char>>, k: int)
    requires
        0 <= k <= names.len(),
        declare(names.take(k)) is Err,
    ensures
        declare(names) == declare(names.take(k)),
    decreases names.len() - k,
{
    if k < names.len() {
        assert(names.take(k + 1).drop_last() =~= names.take(k));
        lemma_declare_err_sticks(names, k + 1);
    } else {
        assert(names.take(k) =~= names);
    }
}

proof fn lemma_absorb_props<V>(s: Seq<V>, b: Seq<V>)
    ensures
        s.len() <= absorb(s, b).len() <= s.len() + b.len(),
        s.no_duplicates() ==> absorb(s, b).no_duplicates(),
        forall|x: V| #[trigger] absorb(s, b).contains(x) <==> s.contains(x) || b.contains(x),
    decreases b.len(),
{
    if b.len() > 0 {
        let r = absorb(s, b.drop_last());
        lemma_absorb_props(s, b.drop_last());
        let a = absorb(s, b);
        let last = b.last();
        assert forall|x: V| #[trigger] a.contains(x) <==> r.contains(x) || x == last by {
            if r.contains(last) {
                assert(a == r);
            } else {
                assert(a == r.push(last));
                if a.contains(x) {
                    let i = choose|i: int| 0 <= i < a.len() && a[i] == x;
                    if i < r.len() {
                        assert(r[i] == x);
                    }
                }
                if r.contains(x) {
                    let i = choose|i: int| 0 <= i < r.len() && r[i] == x;
                    assert(a[i] == x);
                }
                if x == last {
                    assert(a[r.len() as int] == x);
                }
            }
        }
        assert forall|x: V| #[trigger] b.contains(x) <==> b.drop_last().contains(x) || x == last by {
            if b.contains(x) {
                let i = choose|i: int| 0 <= i < b.len() && b[i] == x;
                if i < b.len() - 1 {
                    assert(b.drop_last()[i] == x);
                }
            }
            if b.drop_last().contains(x) {
                let i = choose|i: int| 0 <= i < b.drop_last().len() && b.drop_last()[i] == x;
                assert(b[i] == x);
            }
            if x == last {
                assert(b[b.len() - 1] == x);
            }
        }
        if s.no_duplicates() && !r.contains(b.last()) {
            assert forall|i: int, j: int|
                0 <= i < absorb(s, b).len() && 0 <= j < absorb(s, b).len() && i != j implies absorb(
                s,
                b,
            )[i] != absorb(s, b)[j] by {
                if i < r.len() && j == r.len() {
                    assert(r[i] == absorb(s, b)[i]);
                } else if j < r.len() && i == r.len() {
                    assert(r[j] == absorb(s, b)[j]);
                }
            }
        }
    }
}

proof fn lemma_absorb_step<V>(s: Seq<V>, b: Seq<V>, i: int)
    requires
        0 <= i < b.len(),
    ensures
        absorb(s, b.take(i + 1)) == (if absorb(s, b.take(i)).contains(b[i]) {
            absorb(s, b.take(i))
        } else {
            absorb(s, b.take(i)).push(b[i])
        }),
{
    assert(b.take(i + 1).drop_last() =~= b.take(i));
}

/// Whether `ids` holds an identity equal to `x`.
fn holds<K: Identity>(ids: &Vec<K>, x: &K) -> (b: bool)
    ensures
        b == ids@.map_values(|k: K| k@).contains(x@),
{
    let ghost v = ids@.map_values(|k: K| k@);
    let n = ids.len();
    let mut i: usize = 0;
    while i < n
        invariant
            n == ids@.len(),
            v == ids@.map_values(|k: K| k@),
            i <= n,
            forall|j: int| 0 <= j < i ==> v[j] != x@,
        decreases n - i,
    {
        if ids[i].same_identity(x) {
            assert(v[i as int] == x@);
            return true;
        }
        i = i + 1;
    }
    false
}

impl<K: Identity> Disjointness<K> {
    fn find(&self, name: &str) -> (p: Option<usize>)
        requires
            self.wf(),
        ensures
            p matches Some(i) ==> i < self.ledger().len() && self.ledger()[i as int].0 == name@
                && population_index(self.ledger(), name@) == i,
            p is None <==> !declares(self.ledger(), name@),
    {
        let ghost v = self.ledger();
        let n = self.populations.len();
        let mut i: usize = 0;
        while i < n
            invariant
                n == v.len(),
                v == populations_view(self.populations@),
                ledger_wf(v),
                i <= n,
                forall|j: int| 0 <= j < i ==> v[j].0 != name@,
            decreases n - i,
        {
            if text::text_eq(self.populations[i].name.as_str(), name) {
                proof {
                    let q = population_index(v, name@);
                    assert(v[i as int].0 == name@);
                    if q != i {
                        if q < i {
                            assert(text::text_lt(v[q].0, v[i as int].0));
                        } else {
                            assert(text::text_lt(v[i as int].0, v[q].0));
                        }
                        text::lemma_text_lt_irreflexive(name@);
                    }
                }
                return Some(i);
            }
            i = i + 1;
        }
        None
    }

    /// The ledger's receipt.
    pub fn receipt(&self) -> (r: DisjointnessReceipt)
        requires
            self.wf(),
        ensures
            receipt_reports(r, self.scheme_view(), self.ledger()),
    {
        let ghost v = self.ledger();
        let n = self.populations.len();
        let mut out: Vec<PopulationReceipt> = Vec::new();
        let mut all = true;
        let mut i: usize = 0;
        while i < n
            invariant
                n == v.len(),
                v == populations_view(self.populations@),
                i <= n,
                out@.len() == i,
                forall|j: int|
                    0 <= j < i ==> {
                        &&& (#[trigger] out@[j]).name@ == v[j].0
                        &&& out@[j].observations == v[j].2
                        &&& out@[j].unique_identities == v[j].1.len()
                        &&& out@[j].within_population_repeats == v[j].3
                    },
                all == forall|j: int| 0 <= j < i ==> (#[trigger] v[j]).2 > 0,
            decreases n - i,
        {
            let pop = &self.populations[i];
            out.push(
                PopulationReceipt {
                    name: pop.name.clone(),
                    observations: pop.observations,
                    unique_identities: pop.identities.len(),
                    within_population_repeats: pop.repeats,
                },
            );
            assert(v[i as int].2 == pop.observations);
            if pop.observations == 0 {
                all = false;
            }
            i = i + 1;
        }
        DisjointnessReceipt {
            scheme: self.scheme.copy(),
            evidence: DisjointnessEvidence::VerifiedObservations,
            populations: out,
            complete: all,
        }
    }
}


/// Every population of `v` is still empty.
pub open spec fn all_empty<V>(v: Seq<PopulationView<V>>) -> bool {
    forall|i: int|
        0 <= i < v.len() ==> (#[trigger] v[i]).1.len() == 0 && v[i].2 == 0 && v[i].3 == 0
}

/// `v` declares exactly the names `d`.
pub open spec fn declares_exactly<V>(v: Seq<PopulationView<V>>, d: Seq<Seq<char>>) -> bool {
    &&& v.len() == d.len()
    &&& forall|n: Seq<char>| #[trigger] d.contains(n) <==> declares(v, n)
}

impl<K: Identity> Disjointness<K> {
    /// A ledger over the declared populations, each a label, none twice, at
    /// least two; the first failure in declaration order is reported.
    pub fn new(scheme: IdentityScheme, populations: &[&str]) -> (r: Result<Self, Error>)
        ensures
            declare(names_view(populations@)) matches Err(m) ==> r is Err && r->Err_0@ == m,
            declare(names_view(populations@)) matches Ok(d) ==> (if d.len() < 2 {
                r is Err && r->Err_0@ == too_few_populations_message()
            } else {
                r is Ok && r->Ok_0.wf() && r->Ok_0.scheme_view() == scheme@ && declares_exactly(
                    r->Ok_0.ledger(),
                    d,
                ) && all_empty(r->Ok_0.ledger())
            }),
    {
        let ghost names = names_view(populations@);
        let mut pops: Vec<Population<K>> = Vec::new();
        let ghost mut d: Seq<Seq<char>> = Seq::empty();
        let n = populations.len();
        let mut i: usize = 0;
        assert(names.take(0) =~= Seq::<Seq<char>>::empty());
        while i < n
            invariant
                n == populations@.len(),
                names == names_view(populations@),
                i <= n,
                declare(names.take(i as int)) == Ok::<Seq<Seq<char>>, Seq<char>>(d),
                ledger_wf(populations_view(pops@)),
                declares_exactly(populations_view(pops@), d),
                all_empty(populations_view(pops@)),
            decreases n - i,
        {
            let ghost v = populations_view(pops@);
            assert(names.take(i as int + 1).drop_last() =~= names.take(i as int));
            assert(names.take(i as int + 1).last() == populations@[i as int]@);
            let name = match text::label("population name", populations[i].to_owned()) {
                Ok(name) => name,
                Err(e) => {
                    proof {
                        lemma_declare_err_sticks(names, i as int + 1);
                    }
                    return Err(e);
                },
            };
            // Find the sorted position, rejecting a repeated name.
            let m = pops.len();
            let mut p: usize = 0;
            while p < m && text::text_less(pops[p].name.as_str(), name.as_str())
                invariant
                    m == pops@.len(),
                    v == populations_view(pops@),
                    p <= m,
                    forall|j: int| 0 <= j < p ==> text::text_lt(#[trigger] v[j].0, name@),
                decreases m - p,
            {
                p = p + 1;
            }
            if p < m && text::text_eq(pops[p].name.as_str(), name.as_str()) {
                let mut message = String::from_str("population ");
                message.append(text::debug_quoted(name.as_str()).as_str());
                message.append(" was declared more than once");
                proof {
                    assert(v[p as int].0 == name@);
                    assert(declares(v, name@));
                    assert(d.contains(name@));
                    lemma_declare_err_sticks(names, i as int + 1);
                }
                return Err(Error::new(message));
            }
            proof {
                if d.contains(name@) {
                    assert(declares(v, name@));
                    let q = choose|q: int| 0 <= q < v.len() && v[q].0 == name@;
                    if q < p {
                        crate::text::lemma_text_lt_irreflexive(name@);
                    } else if q > p {
                        crate::text::lemma_text_lt_total(v[p as int].0, name@);
                        crate::text::lemma_text_lt_transitive(name@, v[p as int].0, v[q].0);
                        crate::text::lemma_text_lt_irreflexive(name@);
                    }
                }
                if p < m {
                    crate::text::lemma_text_lt_total(v[p as int].0, name@);
                }
            }
            let ghost newpop = (name@, Seq::<K::V>::empty(), 0usize, 0usize);
            let ghost old_pops = pops@;
            pops.insert(
                p,
                Population { name, identities: Vec::new(), observations: 0, repeats: 0 },
            );
            proof {
                let w = populations_view(pops@);
                assert(pops@[p as int].identities@.map_values(|k: K| k@) =~= Seq::<K::V>::empty());
                assert(pops@[p as int].spec_view() == newpop);
                assert(w =~= v.insert(p as int, newpop));
                assert forall|a: int, b: int| 0 <= a < b < w.len() implies text::text_lt(
                    #[trigger] w[a].0,
                    #[trigger] w[b].0,
                ) by {
                    if b < p {
                    } else if b == p {
                    } else if a == p {
                        if b - 1 > p {
                            crate::text::lemma_text_lt_transitive(newpop.0, v[p as int].0, v[b - 1].0);
                        }
                    } else if a < p {
                        if b - 1 > p {
                            crate::text::lemma_text_lt_transitive(newpop.0, v[p as int].0, v[b - 1].0);
                        }
                        crate::text::lemma_text_lt_transitive(v[a].0, newpop.0, v[b - 1].0);
                    }
                }
                assert forall|a: int, b: int, x: K::V|
                    0 <= a < w.len() && 0 <= b < w.len() && a != b && #[trigger] w[a].1.contains(
                        x,
                    ) implies !(#[trigger] w[b].1.contains(x)) by {
                    if a != p && b != p {
                        let a0 = if a < p { a } else { a - 1 };
                        let b0 = if b < p { b } else { b - 1 };
                        assert(v[a0].1.contains(x));
                    }
                }
                let d2 = d.push(name@);
                assert forall|nm: Seq<char>| #[trigger] d2.contains(nm) <==> declares(w, nm) by {
                    if d2.contains(nm) {
                        if nm == name@ {
                            assert(w[p as int].0 == nm);
                        } else {
                            assert(d.contains(nm)) by {
                                let k = choose|k: int| 0 <= k < d2.len() && d2[k] == nm;
                                assert(d[k] == nm);
                            }
                            let q = choose|q: int| 0 <= q < v.len() && v[q].0 == nm;
                            if q < p {
                                assert(w[q].0 == nm);
                            } else {
                                assert(w[q + 1].0 == nm);
                            }
                        }
                    }
                    if declares(w, nm) {
                        let q = choose|q: int| 0 <= q < w.len() && w[q].0 == nm;
                        if q == p {
                            assert(d2[d.len() as int] == nm);
                        } else {
                            let q0 = if q < p { q } else { q - 1 };
                            assert(v[q0].0 == nm);
                            assert(declares(v, nm));
                            assert(d.contains(nm));
                            let k = choose|k: int| 0 <= k < d.len() && d[k] == nm;
                            assert(d2[k] == nm);
                        }
                    }
                }
                d = d2;
            }
            i = i + 1;
        }
        assert(names.take(n as int) =~= names);
        if pops.len() < 2 {
            return Err(
                Error::new(
                    String::from_str("disjointness requires at least two declared populations"),
                ),
            );
        }
        Ok(Disjointness { scheme, populations: pops })
    }
}


/// The views of a batch of identities.
pub open spec fn batch_view<K: View>(b: Seq<K>) -> Seq<K::V> {
    b.map_values(|k: K| k@)
}

pub open spec fn observation_overflow_message() -> Seq<char> {
    "disjointness observation count overflow"@
}

pub open spec fn repeat_overflow_message() -> Seq<char> {
    "disjointness repeat count overflow"@
}

impl<K: Identity> Disjointness<K> {
    /// Atomically compare and record one batch of canonical identities: an
    /// undeclared population, an identity another population already holds
    /// (the first such batch position is reported) or a count overflow leaves
    /// the ledger unchanged.
    pub fn observe(&mut self, population: &str, identities: Vec<K>) -> (r: Result<
        DisjointnessReceipt,
        Error,
    >)
        requires
            old(self).wf(),
        ensures
            final(self).wf(),
            final(self).scheme_view() == old(self).scheme_view(),
            r is Err ==> final(self).ledger() == old(self).ledger(),
            !declares(old(self).ledger(), population@) ==> r is Err && r->Err_0@
                == undeclared_message(population@),
            declares(old(self).ledger(), population@) && clashes(
                old(self).ledger(),
                population_index(old(self).ledger(), population@),
                batch_view(identities@),
            ) ==> r is Err && r->Err_0@ == contamination_message(
                old(self).scheme_view(),
                old(self).ledger(),
                population@,
                batch_view(identities@),
            ),
            declares(old(self).ledger(), population@) && !clashes(
                old(self).ledger(),
                population_index(old(self).ledger(), population@),
                batch_view(identities@),
            ) ==> ({
                let v = old(self).ledger();
                let p = population_index(v, population@);
                let b = batch_view(identities@);
                if v[p].2 + b.len() > usize::MAX {
                    r is Err && r->Err_0@ == observation_overflow_message()
                } else if v[p].3 + b.len() > usize::MAX {
                    r is Err && r->Err_0@ == repeat_overflow_message()
                } else {
                    &&& r is Ok
                    &&& final(self).ledger() == v.update(p, recorded(v[p], b))
                    &&& receipt_reports(r->Ok_0, final(self).scheme_view(), final(self).ledger())
                }
            }),
    {
        let ghost v = self.ledger();
        let ghost b = batch_view(identities@);
        let p = match self.find(population) {
            Some(p) => p,
            None => {
                let mut message = String::from_str("undeclared disjointness population ");
                message.append(text::debug_quoted(population).as_str());
                return Err(Error::new(message));
            },
        };
        assert(v[p as int].0 == population@);
        let n = identities.len();
        match self.find_clash(p, &identities) {
            Some((i, q)) => {
                return Err(self.contamination(population, i, q));
            },
            None => {},
        }
        if self.populations[p].observations > usize::MAX - n {
            return Err(Error::new(String::from_str("disjointness observation count overflow")));
        }
        if self.populations[p].repeats > usize::MAX - n {
            return Err(Error::new(String::from_str("disjointness repeat count overflow")));
        }
        let ghost old_pops = self.populations@;
        let mut pop = self.populations.remove(p);
        let ghost start = pop.spec_view();
        assert(start == v[p as int]);
        let mut batch = identities;
        let mut k: usize = 0;
        assert(b.take(0) =~= Seq::<K::V>::empty());
        assert(b.skip(0) =~= b);
        while k < n
            invariant
                n == b.len(),
                k <= n,
                batch_view(batch@) == b.skip(k as int),
                pop.name@ == start.0,
                pop.observations == start.2,
                pop.identities@.map_values(|x: K| x@) == absorb(start.1, b.take(k as int)),
                pop.repeats == start.3 + k - (absorb(start.1, b.take(k as int)).len()
                    - start.1.len()),
                start.3 + n <= usize::MAX,
                start.1.no_duplicates(),
            decreases n - k,
        {
            let ghost before = pop.identities@.map_values(|x: K| x@);
            assert(batch@.len() == batch_view(batch@).len());
            let ghost old_batch = batch@;
            let x = batch.remove(0);
            assert(b.skip(k as int)[0] == b[k as int]);
            assert(batch@ =~= old_batch.drop_first());
            assert(batch_view(batch@) =~= batch_view(old_batch).drop_first());
            assert(b.skip(k as int).drop_first() =~= b.skip(k as int + 1));
            proof {
                lemma_absorb_step(start.1, b, k as int);
                lemma_absorb_props(start.1, b.take(k as int));
            }
            if holds(&pop.identities, &x) {
                pop.repeats = pop.repeats + 1;
            } else {
                pop.identities.push(x);
                assert(pop.identities@.map_values(|y: K| y@) =~= before.push(b[k as int]));
            }
            k = k + 1;
        }
        assert(b.take(n as int) =~= b);
        pop.observations = pop.observations + n;
        self.populations.insert(p, pop);
        proof {
            lemma_absorb_props(start.1, b);
            let w = self.ledger();
            assert(w =~= v.update(p as int, recorded(v[p as int], b))) by {
                assert(self.populations@ =~= old_pops.update(p as int, self.populations@[p as int]));
            }
            assert forall|a: int, c: int, x: K::V|
                0 <= a < w.len() && 0 <= c < w.len() && a != c && #[trigger] w[a].1.contains(x)
                    implies !(#[trigger] w[c].1.contains(x)) by {
                if a == p {
                    if !v[p as int].1.contains(x) {
                        let j = choose|j: int| 0 <= j < b.len() && b[j] == x;
                        assert(!held_elsewhere(v, p as int, b[j]));
                    }
                } else if c == p {
                    if !v[p as int].1.contains(x) && b.contains(x) {
                        let j = choose|j: int| 0 <= j < b.len() && b[j] == x;
                        assert(!held_elsewhere(v, p as int, b[j]));
                        assert(v[a].1.contains(b[j]));
                    }
                }
            }
            assert forall|a: int, c: int| 0 <= a < c < w.len() implies text::text_lt(
                #[trigger] w[a].0,
                #[trigger] w[c].0,
            ) by {
                assert(w[a].0 == v[a].0);
                assert(w[c].0 == v[c].0);
            }
            assert forall|a: int| 0 <= a < w.len() implies (#[trigger] w[a]).1.no_duplicates()
                && w[a].2 == w[a].1.len() + w[a].3 by {
                if a != p {
                    assert(w[a] == v[a]);
                }
            }
        }
        Ok(self.receipt())
    }

    /// Require at least one observed identity in every declared population.
    pub fn assert_disjoint(&self) -> (r: Result<DisjointnessReceipt, Error>)
        requires
            self.wf(),
        ensures
            complete(self.ledger()) ==> r is Ok && receipt_reports(
                r->Ok_0,
                self.scheme_view(),
                self.ledger(),
            ),
            !complete(self.ledger()) ==> r is Err && r->Err_0@ == incomplete_message(self.ledger()),
    {
        let ghost v = self.ledger();
        let n = self.populations.len();
        let mut names = String::new();
        let mut any = false;
        let mut i: usize = 0;
        assert(v.take(0) =~= Seq::<PopulationView<K::V>>::empty());
        while i < n
            invariant
                n == v.len(),
                v == populations_view(self.populations@),
                i <= n,
                names@ == join_names(unobserved_names(v.take(i as int))),
                any == (unobserved_names(v.take(i as int)).len() > 0),
                any == !complete(v.take(i as int)),
            decreases n - i,
        {
            let ghost t = v.take(i as int + 1);
            assert(t.drop_last() =~= v.take(i as int));
            assert(t.last() == v[i as int]);
            if self.populations[i].observations == 0 {
                if any {
                    names.append(", ");
                }
                names.append(self.populations[i].name.as_str());
                any = true;
                proof {
                    let u = unobserved_names(v.take(i as int));
                    if u.len() > 0 {
                        assert(u.push(v[i as int].0).drop_last() =~= u);
                    } else {
                        assert(u.push(v[i as int].0) =~= seq![v[i as int].0]);
                    }
                }
                assert(names@ =~= join_names(unobserved_names(t)));
                assert(!complete(t)) by {
                    assert(t[i as int] == v[i as int]);
                }
            } else {
                assert(complete(t) == complete(v.take(i as int))) by {
                    if complete(v.take(i as int)) {
                        assert forall|j: int| 0 <= j < t.len() implies (#[trigger] t[j]).2 > 0 by {
                            if j < i {
                                assert(t[j] == v.take(i as int)[j]);
                            }
                        }
                    } else {
                        let j = choose|j: int|
                            0 <= j < v.take(i as int).len() && !((#[trigger] v.take(
                                i as int,
                            )[j]).2 > 0);
                        assert(t[j] == v.take(i as int)[j]);
                    }
                }
            }
            i = i + 1;
        }
        assert(v.take(n as int) =~= v);
        if any {
            let mut message = String::from_str(
                "disjointness evidence is incomplete; no identities were observed for ",
            );
            message.append(names.as_str());
            return Err(Error::new(message));
        }
        Ok(self.receipt())
    }
}

/// The first clashing batch position and the population holding it.
proof fn lemma_first_clash<V>(v: Seq<PopulationView<V>>, p: int, b: Seq<V>, i: int, q: int)
    requires
        ledger_wf(v),
        0 <= p < v.len(),
        0 <= q < v.len(),
        q != p,
        0 <= i < b.len(),
        v[q].1.contains(b[i]),
        forall|j: int| 0 <= j < i ==> !held_elsewhere(v, p, #[trigger] b[j]),
    ensures
        clashes(v, p, b),
        first_clash(v, p, b) == i,
        holder(v, p, b[i]) == q,
{
    assert(held_elsewhere(v, p, b[i]));
    assert(clashes(v, p, b));
    let c = first_clash(v, p, b);
    if c < i {
        assert(!held_elsewhere(v, p, b[c]));
    }
    if c > i {
        assert(!held_elsewhere(v, p, b[i]));
    }
    let h = holder(v, p, b[i]);
    if h != q {
        assert(v[h].1.contains(b[i]));
    }
}

impl<K: Identity> Disjointness<K> {
    /// The first batch position whose identity another population holds, with that population.
    fn find_clash(&self, p: usize, identities: &Vec<K>) -> (r: Option<(usize, usize)>)
        requires
            self.wf(),
            p < self.ledger().len(),
        ensures
            r is None <==> !clashes(self.ledger(), p as int, batch_view(identities@)),
            r matches Some((i, q)) ==> q < self.ledger().len() && first_clash(
                self.ledger(),
                p as int,
                batch_view(identities@),
            ) == i && holder(self.ledger(), p as int, batch_view(identities@)[i as int]) == q,
    {
        let ghost v = self.ledger();
        let ghost b = batch_view(identities@);
        let n = identities.len();
        let m = self.populations.len();
        let mut i: usize = 0;
        while i < n
            invariant
                n == identities@.len(),
                m == v.len(),
                b == batch_view(identities@),
                v == populations_view(self.populations@),
                ledger_wf(v),
                p < m,
                i <= n,
                forall|j: int| 0 <= j < i ==> !held_elsewhere(v, p as int, #[trigger] b[j]),
            decreases n - i,
        {
            let mut q: usize = 0;
            while q < m
                invariant
                    n == identities@.len(),
                    m == v.len(),
                    b == batch_view(identities@),
                    v == populations_view(self.populations@),
                    ledger_wf(v),
                    p < m,
                    i < n,
                    q <= m,
                    forall|j: int| 0 <= j < i ==> !held_elsewhere(v, p as int, #[trigger] b[j]),
                    forall|k: int| 0 <= k < q && k != p ==> !(#[trigger] v[k]).1.contains(b[i as int]),
                decreases m - q,
            {
                if q != p && holds(&self.populations[q].identities, &identities[i]) {
                    proof {
                        lemma_first_clash(v, p as int, b, i as int, q as int);
                    }
                    return Some((i, q));
                }
                q = q + 1;
            }
            i = i + 1;
        }
        proof {
            if clashes(v, p as int, b) {
                let j = choose|j: int| 0 <= j < b.len() && held_elsewhere(v, p as int, #[trigger] b[j]);
                assert(!held_elsewhere(v, p as int, b[j]));
            }
        }
        None
    }

    fn contamination(&self, population: &str, i: usize, q: usize) -> (e: Error)
        requires
            q < self.ledger().len(),
        ensures
            e@ == "semantic contamination under "@ + self.scheme_view().0 + "@"@
                + self.scheme_view().1 + ": "@ + text::debug_text(population@)
                + " identity at batch index "@ + text::decimal_text(i as nat)
                + " was already observed in "@ + text::debug_text(self.ledger()[q as int].0)
                + "\nidentity unit: "@ + self.scheme_view().2,
    {
        let mut message = String::from_str("semantic contamination under ");
        message.append(self.scheme.name.as_str());
        message.append("@");
        message.append(self.scheme.version.as_str());
        message.append(": ");
        message.append(text::debug_quoted(population).as_str());
        message.append(" identity at batch index ");
        text::push_decimal(&mut message, i);
        message.append(" was already observed in ");
        message.append(text::debug_quoted(self.populations[q].name.as_str()).as_str());
        message.append("\nidentity unit: ");
        message.append(self.scheme.unit.as_str());
        Error::new(message)
    }
}

impl DisjointnessReceipt {
    /// The first population entry with the given name.
    pub fn population(&self, name: &str) -> (r: Option<&PopulationReceipt>)
        ensures
            r is None <==> forall|i: int|
                0 <= i < self.populations@.len() ==> (#[trigger] self.populations@[i]).name@
                    != name@,
            r matches Some(p) ==> exists|i: int|
                0 <= i < self.populations@.len() && self.populations@[i] == *p && p.name@
                    == name@ && forall|j: int|
                    0 <= j < i ==> (#[trigger] self.populations@[j]).name@ != name@,
    {
        let n = self.populations.len();
        let mut i: usize = 0;
        while i < n
            invariant
                n == self.populations@.len(),
                i <= n,
                forall|j: int| 0 <= j < i ==> (#[trigger] self.populations@[j]).name@ != name@,
            decreases n - i,
        {
            if text::text_eq(self.populations[i].name.as_str(), name) {
                return Some(&self.populations[i]);
            }
            i = i + 1;
        }
        None
    }
}


/// One population line of a receipt's text.
pub open spec fn population_line(p: PopulationReceipt) -> Seq<char> {
    p.name@ + ": observations="@ + text::decimal_text(p.observations as nat) + " unique="@
        + text::decimal_text(p.unique_identities as nat) + " repeats="@ + text::decimal_text(
        p.within_population_repeats as nat,
    ) + "\n"@
}

/// The population lines of a receipt's text, in order.
pub open spec fn population_lines(ps: Seq<PopulationReceipt>) -> Seq<char>
    decreases ps.len(),
{
    if ps.len() == 0 {
        Seq::empty()
    } else {
        population_lines(ps.drop_last()) + population_line(ps.last())
    }
}

/// The printed form of a receipt.
pub open spec fn receipt_text(r: DisjointnessReceipt) -> Seq<char> {
    "SEMANTIC DISJOINTNESS\n\nidentity scheme:       "@ + r.scheme@.0 + "@"@ + r.scheme@.1
        + "\nidentity unit:         "@ + r.scheme@.2 + "\nevidence:              "@
        + "verified observed identities"@ + "\n"@ + population_lines(r.populations@)
        + "observed cross-population overlap: 0\n\n"@ + (if r.complete {
        "PASS"@
    } else {
        "INCOMPLETE"@
    })
}

impl DisjointnessReceipt {
    /// The printed receipt, ending in `PASS` when every population was observed
    /// and `INCOMPLETE` otherwise.
    pub fn to_string(&self) -> (s: String)
        ensures
            s@ == receipt_text(*self),
    {
        let mut out = String::from_str("SEMANTIC DISJOINTNESS\n\nidentity scheme:       ");
        out.append(self.scheme.name());
        out.append("@");
        out.append(self.scheme.version());
        out.append("\nidentity unit:         ");
        out.append(self.scheme.unit());
        out.append("\nevidence:              ");
        out.append(self.evidence.to_string().as_str());
        out.append("\n");
        let ghost head = out@;
        let n = self.populations.len();
        let mut i: usize = 0;
        assert(self.populations@.take(0) =~= Seq::<PopulationReceipt>::empty());
        while i < n
            invariant
                n == self.populations@.len(),
                i <= n,
                out@ == head + population_lines(self.populations@.take(i as int)),
            decreases n - i,
        {
            let p = &self.populations[i];
            out.append(p.name.as_str());
            out.append(": observations=");
            text::push_decimal(&mut out, p.observations);
            out.append(" unique=");
            text::push_decimal(&mut out, p.unique_identities);
            out.append(" repeats=");
            text::push_decimal(&mut out, p.within_population_repeats);
            out.append("\n");
            assert(self.populations@.take(i as int + 1).drop_last() =~= self.populations@.take(
                i as int,
            ));
            assert(out@ =~= head + population_lines(self.populations@.take(i as int + 1)));
            i = i + 1;
        }
        assert(self.populations@.take(n as int) =~= self.populations@);
        out.append("observed cross-population overlap: 0\n\n");
        if self.complete {
            out.append("PASS");
        } else {
            out.append("INCOMPLETE");
        }
        assert(out@ =~= receipt_text(*self));
        out
    }
}

} // verus!
