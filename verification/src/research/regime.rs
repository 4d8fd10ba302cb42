//! Data-regime guards: a single pass over a finite population, and a declared
//! number of complete passes in which no sample identity repeats within a pass.
use crate::error::Error;
use crate::text;
use vstd::prelude::*;
use vstd::string::StringExecFns;

verus! {

/// How much of a finite population a single pass has consumed.
#[derive(Clone, Copy, Debug, PartialEq, Eq, Structural)]
pub struct RegimeSnapshot {
    pub consumed: usize,
    pub available: Option<usize>,
}

/// A single pass over `available` samples: no more may be consumed than exist.
pub struct SinglePass {
    available: usize,
    consumed: usize,
}

impl View for SinglePass {
    /// (available, consumed)
    type V = (usize, usize);

    closed spec fn view(&self) -> (usize, usize) {
        (self.available, self.consumed)
    }
}

impl SinglePass {
    #[verifier::type_invariant]
    spec fn well_formed(self) -> bool {
        0 < self.available && self.consumed <= self.available
    }

    /// A guard over a nonempty finite population.
    pub fn new(available: usize) -> (r: Result<SinglePass, Error>)
        ensures
            r is Ok <==> available > 0,
            r matches Ok(g) ==> g@ == (available, 0usize),
            r matches Err(e) ==> e@ == "single-pass population must be nonempty"@,
    {
        if available == 0 {
            return Err(Error::new(String::from_str("single-pass population must be nonempty")));
        }
        Ok(SinglePass { available, consumed: 0 })
    }

    /// Consume `count` more samples; refused, with nothing consumed, when the pass would
    /// exceed the population.
    pub fn consume(&mut self, count: usize) -> (r: Result<RegimeSnapshot, Error>)
        ensures
            r is Ok <==> old(self)@.1 + count <= old(self)@.0,
            r is Ok ==> final(self)@ == (old(self)@.0, (old(self)@.1 + count) as usize)
                && r->Ok_0 == (RegimeSnapshot {
                consumed: final(self)@.1,
                available: Some(old(self)@.0),
            }),
            r is Err ==> final(self)@ == old(self)@ && r->Err_0@
                == "single-pass violation: more samples consumed than the population holds"@,
            final(self)@.1 <= final(self)@.0,
            0 < final(self)@.0,
    {
        proof {
            use_type_invariant(&*self);
        }
        if count > self.available - self.consumed {
            return Err(
                Error::new(
                    String::from_str(
                        "single-pass violation: more samples consumed than the population holds",
                    ),
                ),
            );
        }
        self.consumed = self.consumed + count;
        Ok(RegimeSnapshot { consumed: self.consumed, available: Some(self.available) })
    }
}

/// What a finite-passes guard has recorded.
#[derive(Clone, Copy, Debug, PartialEq, Eq, Structural)]
pub struct FinitePassesReceipt {
    pub population: usize,
    pub declared_passes: usize,
    pub completed_passes: usize,
    pub observations: usize,
}

/// The state of a finite-passes guard between batches.
pub ghost struct PassState {
    pub completed: nat,
    pub current: Seq<u128>,
    pub observations: nat,
}

/// One more identity seen: the state after it, or the violation.
pub open spec fn pass_one(t: PassState, population: nat, declared: nat, id: u128) -> Result<
    PassState,
    Seq<char>,
> {
    if t.completed >= declared {
        Err("finite-pass violation: observation after the declared passes"@)
    } else if t.current.contains(id) {
        Err("finite-pass violation: a sample identity repeated within one pass"@)
    } else if t.observations + 1 > usize::MAX {
        Err("finite-pass observation count overflow"@)
    } else if t.current.len() + 1 == population {
        Ok(PassState { completed: t.completed + 1, current: Seq::empty(), observations: t.observations + 1 })
    } else {
        Ok(PassState { completed: t.completed, current: t.current.push(id), observations: t.observations + 1 })
    }
}

/// A batch of identities seen in order: the state after them, or the first violation.
pub open spec fn pass_observe(t: PassState, population: nat, declared: nat, ids: Seq<u128>) -> Result<
    PassState,
    Seq<char>,
>
    decreases ids.len(),
{
    if ids.len() == 0 {
        Ok(t)
    } else {
        match pass_observe(t, population, declared, ids.drop_last()) {
            Err(m) => Err(m),
            Ok(u) => pass_one(u, population, declared, ids.last()),
        }
    }
}

/// Exactly `declared` complete passes over a population of `population` identities.
pub struct FinitePasses {
    population: usize,
    declared: usize,
    completed: usize,
    current: Vec<u128>,
    observations: usize,
}

/// The spec view of a [`FinitePasses`] guard.
pub ghost struct FinitePassesView {
    pub population: nat,
    pub declared: nat,
    pub state: PassState,
}

impl View for FinitePasses {
    type V = FinitePassesView;

    closed spec fn view(&self) -> FinitePassesView {
        FinitePassesView {
            population: self.population as nat,
            declared: self.declared as nat,
            state: PassState {
                completed: self.completed as nat,
                current: self.current@,
                observations: self.observations as nat,
            },
        }
    }
}

/// What every state a guard reaches satisfies: within one pass no identity repeats and fewer
/// than `population` have been seen, at most the declared passes are complete, and the
/// observations are the complete passes' populations plus the current pass's identities.
pub open spec fn pass_state_ok(t: PassState, population: nat, declared: nat) -> bool {
    &&& t.current.no_duplicates()
    &&& t.current.len() < population
    &&& t.completed <= declared
    &&& t.observations <= usize::MAX
    &&& t.observations == t.completed * population + t.current.len()
}

impl FinitePasses {
    #[verifier::type_invariant]
    spec fn well_formed(self) -> bool {
        &&& 0 < self.population
        &&& 0 < self.declared
        &&& pass_state_ok(self@.state, self.population as nat, self.declared as nat)
    }

    /// A guard for `passes` complete passes over a nonempty population.
    pub fn new(population: usize, passes: usize) -> (r: Result<FinitePasses, Error>)
        ensures
            r is Ok <==> population > 0 && passes > 0,
            r matches Ok(g) ==> g@ == (FinitePassesView {
                population: population as nat,
                declared: passes as nat,
                state: PassState { completed: 0, current: Seq::empty(), observations: 0 },
            }),
            population == 0 ==> r is Err && r->Err_0@ == "finite-pass population must be nonempty"@,
            population > 0 && passes == 0 ==> r is Err && r->Err_0@
                == "finite passes must declare at least one pass"@,
    {
        if population == 0 {
            return Err(Error::new(String::from_str("finite-pass population must be nonempty")));
        }
        if passes == 0 {
            return Err(Error::new(String::from_str("finite passes must declare at least one pass")));
        }
        let g = FinitePasses {
            population,
            declared: passes,
            completed: 0,
            current: Vec::new(),
            observations: 0,
        };
        assert(g@.state.current =~= Seq::<u128>::empty());
        Ok(g)
    }

    /// The receipt of what has been recorded so far.
    pub fn receipt(&self) -> (r: FinitePassesReceipt)
        ensures
            r == (FinitePassesReceipt {
                population: self@.population as usize,
                declared_passes: self@.declared as usize,
                completed_passes: self@.state.completed as usize,
                observations: self@.state.observations as usize,
            }),
            self@.population <= usize::MAX,
            self@.declared <= usize::MAX,
            self@.state.completed <= usize::MAX,
            self@.state.observations <= usize::MAX,
            0 < self@.population,
            0 < self@.declared,
            pass_state_ok(self@.state, self@.population, self@.declared),
    {
        proof {
            use_type_invariant(self);
        }
        FinitePassesReceipt {
            population: self.population,
            declared_passes: self.declared,
            completed_passes: self.completed,
            observations: self.observations,
        }
    }

    /// How many identities the current pass has seen.
    pub fn seen_in_pass(&self) -> (r: usize)
        ensures
            r == self@.state.current.len(),
    {
        self.current.len()
    }

    /// Record a batch of identities in order. The whole batch is refused, and nothing is
    /// recorded, at the first identity that would follow the last declared pass or repeat
    /// within its pass.
    pub fn observe(&mut self, ids: &[u128]) -> (r: Result<FinitePassesReceipt, Error>)
        ensures
            pass_observe(old(self)@.state, old(self)@.population, old(self)@.declared, ids@) matches Ok(
                t,
            ) ==> r is Ok && final(self)@ == (FinitePassesView { state: t, ..old(self)@ })
                && r->Ok_0 == (FinitePassesReceipt {
                population: old(self)@.population as usize,
                declared_passes: old(self)@.declared as usize,
                completed_passes: t.completed as usize,
                observations: t.observations as usize,
            }),
            pass_observe(old(self)@.state, old(self)@.population, old(self)@.declared, ids@) matches Err(
                m,
            ) ==> r is Err && final(self)@ == old(self)@ && r->Err_0@ == m,
    {
        let next = self.observed(ids)?;
        *self = next;
        Ok(self.receipt())
    }

    /// The guard after a batch of identities, as [`FinitePasses::observe`] records it; this
    /// guard is left as it is.
    pub fn observed(&self, ids: &[u128]) -> (r: Result<FinitePasses, Error>)
        ensures
            pass_observe(self@.state, self@.population, self@.declared, ids@) matches Ok(t) ==> r is Ok
                && r->Ok_0@ == (FinitePassesView { state: t, ..self@ }),
            pass_observe(self@.state, self@.population, self@.declared, ids@) matches Err(m) ==> r is Err
                && r->Err_0@ == m,
    {
        proof {
            use_type_invariant(self);
        }
        let ghost start = self@.state;
        let ghost pop = self@.population;
        let ghost dec = self@.declared;
        let mut completed = self.completed;
        let mut current = copy_ids(&self.current);
        let mut observations = self.observations;
        let n = ids.len();
        let mut i: usize = 0;
        assert(ids@.take(0) =~= Seq::<u128>::empty());
        while i < n
            invariant
                n == ids@.len(),
                i <= n,
                pop == self.population as nat,
                dec == self.declared as nat,
                0 < self.population,
                start == self@.state,
                pass_observe(start, pop, dec, ids@.take(i as int)) == Ok::<PassState, Seq<char>>(
                    PassState {
                        completed: completed as nat,
                        current: current@,
                        observations: observations as nat,
                    },
                ),
                pass_state_ok(
                    PassState {
                        completed: completed as nat,
                        current: current@,
                        observations: observations as nat,
                    },
                    pop,
                    dec,
                ),
            decreases n - i,
        {
            let ghost before = PassState {
                completed: completed as nat,
                current: current@,
                observations: observations as nat,
            };
            assert(ids@.take(i as int + 1).drop_last() =~= ids@.take(i as int));
            assert(ids@.take(i as int + 1).last() == ids@[i as int]);
            let id = ids[i];
            let mut message: &str = "";
            let mut failed = false;
            if completed >= self.declared {
                message = "finite-pass violation: observation after the declared passes";
                failed = true;
            } else if contains_id(&current, id) {
                message = "finite-pass violation: a sample identity repeated within one pass";
                failed = true;
            } else if observations == usize::MAX {
                message = "finite-pass observation count overflow";
                failed = true;
            }
            if failed {
                proof {
                    reveal_strlit("finite-pass violation: observation after the declared passes");
                    reveal_strlit("finite-pass violation: a sample identity repeated within one pass");
                    reveal_strlit("finite-pass observation count overflow");
                    assert(pass_observe(start, pop, dec, ids@.take(i as int + 1)) == Err::<
                        PassState,
                        Seq<char>,
                    >(message@));
                    lemma_observe_err_sticks(start, pop, dec, ids@, i as int + 1);
                    assert(ids@.take(n as int) =~= ids@);
                }
                return Err(Error::new(String::from_str(message)));
            }
            observations = observations + 1;
            if current.len() + 1 == self.population {
                proof {
                    assert((completed + 1) * pop == completed * pop + pop) by (nonlinear_arith);
                }
                completed = completed + 1;
                current = Vec::new();
            } else {
                current.push(id);
                proof {
                    assert forall|a: int, b: int|
                        0 <= a < current@.len() && 0 <= b < current@.len() && a != b implies current@[a]
                        != current@[b] by {
                        if a < before.current.len() && b < before.current.len() {
                        } else if a == before.current.len() {
                            assert(current@[a] == id);
                            assert(current@[b] == before.current[b]);
                        } else {
                            assert(current@[b] == id);
                            assert(current@[a] == before.current[a]);
                        }
                    }
                }
            }
            assert(pass_observe(start, pop, dec, ids@.take(i as int + 1)) == Ok::<PassState, Seq<char>>(
                PassState {
                    completed: completed as nat,
                    current: current@,
                    observations: observations as nat,
                },
            ));
            i = i + 1;
        }
        assert(ids@.take(n as int) =~= ids@);
        Ok(
            FinitePasses {
                population: self.population,
                declared: self.declared,
                completed,
                current,
                observations,
            },
        )
    }

    /// Succeeds exactly when every declared pass has completed.
    pub fn finish(&self) -> (r: Result<(), Error>)
        ensures
            r is Ok <==> self@.state.completed == self@.declared,
            r matches Err(e) ==> e@ == "finite passes ended before every declared pass completed"@,
    {
        if self.completed != self.declared {
            return Err(
                Error::new(
                    String::from_str("finite passes ended before every declared pass completed"),
                ),
            );
        }
        Ok(())
    }
}

proof fn lemma_observe_err_sticks(t: PassState, pop: nat, dec: nat, ids: Seq<u128>, k: int)
    requires
        0 <= k <= ids.len(),
        pass_observe(t, pop, dec, ids.take(k)) is Err,
    ensures
        pass_observe(t, pop, dec, ids) == pass_observe(t, pop, dec, ids.take(k)),
    decreases ids.len() - k,
{
    if k < ids.len() {
        assert(ids.take(k + 1).drop_last() =~= ids.take(k));
        lemma_observe_err_sticks(t, pop, dec, ids, k + 1);
    } else {
        assert(ids.take(k) =~= ids);
    }
}

/// Whether `id` occurs in `v`.
fn contains_id(v: &Vec<u128>, id: u128) -> (b: bool)
    ensures
        b == v@.contains(id),
{
    let n = v.len();
    let mut i: usize = 0;
    while i < n
        invariant
            n == v@.len(),
            i <= n,
            forall|j: int| 0 <= j < i ==> v@[j] != id,
        decreases n - i,
    {
        if v[i] == id {
            assert(v@[i as int] == id);
            return true;
        }
        i = i + 1;
    }
    false
}

/// A copy of `v`.
fn copy_ids(v: &Vec<u128>) -> (r: Vec<u128>)
    ensures
        r@ == v@,
{
    let n = v.len();
    let mut r: Vec<u128> = Vec::new();
    let mut i: usize = 0;
    while i < n
        invariant
            n == v@.len(),
            i <= n,
            r@ == v@.take(i as int),
        decreases n - i,
    {
        r.push(v[i]);
        assert(r@ =~= v@.take(i as int + 1));
        i = i + 1;
    }
    assert(v@.take(n as int) =~= v@);
    r
}

impl FinitePassesReceipt {
    /// The receipt as text: population, declared and completed passes, observations, and
    /// `PASS` once every declared pass has completed (`IN PROGRESS` before).
    pub open spec fn to_string_spec(&self) -> Seq<char> {
        "FINITE PASSES STATUS\n\npopulation:            "@ + text::decimal_text(self.population as nat)
            + "\ndeclared passes:       "@ + text::decimal_text(self.declared_passes as nat)
            + "\ncompleted passes:      "@ + text::decimal_text(self.completed_passes as nat)
            + "\nobservations:          "@ + text::decimal_text(self.observations as nat) + (
        if self.completed_passes == self.declared_passes {
            "\n\nPASS"@
        } else {
            "\n\nIN PROGRESS"@
        })
    }

    /// The receipt as text; see [`FinitePassesReceipt::to_string_spec`].
    pub fn to_string(&self) -> (s: String)
        ensures
            s@ == self.to_string_spec(),
    {
        let mut s = String::from_str("FINITE PASSES STATUS\n\npopulation:            ");
        text::push_decimal(&mut s, self.population);
        s.append("\ndeclared passes:       ");
        text::push_decimal(&mut s, self.declared_passes);
        s.append("\ncompleted passes:      ");
        text::push_decimal(&mut s, self.completed_passes);
        s.append("\nobservations:          ");
        text::push_decimal(&mut s, self.observations);
        if self.completed_passes == self.declared_passes {
            s.append("\n\nPASS");
        } else {
            s.append("\n\nIN PROGRESS");
        }
        s
    }
}

} // verus!
