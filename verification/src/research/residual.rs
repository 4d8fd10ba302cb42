//! Declared scopes for caller-evaluated scientific residuals.
use crate::error::Error;
use crate::text;
use vstd::prelude::*;
use vstd::string::StringExecFns;

verus! {

/// Stable identity for the scientific law whose residual is being evaluated.
#[derive(Clone, Debug, Eq, PartialEq)]
pub struct LawIdentity {
    name: String,
    version: String,
}

impl View for LawIdentity {
    type V = (Seq<char>, Seq<char>);

    closed spec fn view(&self) -> (Seq<char>, Seq<char>) {
        (self.name@, self.version@)
    }
}

impl LawIdentity {
    /// A law identity whose name and version are labels; the name is checked first.
    pub fn new(name: &str, version: &str) -> (r: Result<LawIdentity, Error>)
        ensures
            r is Ok <==> text::is_label(name@) && text::is_label(version@),
            r matches Ok(law) ==> law@ == (name@, version@),
            !text::is_label(name@) ==> r is Err && r->Err_0@ == text::label_message("law name"@),
            text::is_label(name@) && !text::is_label(version@) ==> r is Err && r->Err_0@
                == text::label_message("law version"@),
    {
        let name = text::label("law name", name.to_owned())?;
        let version = text::label("law version", version.to_owned())?;
        Ok(LawIdentity { name, version })
    }

    pub fn name(&self) -> (s: &str)
        ensures
            s@ == self@.0,
    {
        self.name.as_str()
    }

    pub fn version(&self) -> (s: &str)
        ensures
            s@ == self@.1,
    {
        self.version.as_str()
    }
}

/// Declares what residual was evaluated, where, and by which numerical method.
#[derive(Clone, Debug, Eq, PartialEq)]
pub struct ResidualScope {
    law: LawIdentity,
    expression: String,
    region: String,
    evaluator: String,
}

impl View for ResidualScope {
    type V = ((Seq<char>, Seq<char>), Seq<char>, Seq<char>, Seq<char>);

    closed spec fn view(&self) -> ((Seq<char>, Seq<char>), Seq<char>, Seq<char>, Seq<char>) {
        (self.law@, self.expression@, self.region@, self.evaluator@)
    }
}

impl ResidualScope {
    /// A scope whose expression, region and evaluator are labels, checked in that order.
    pub fn new(law: LawIdentity, expression: &str, region: &str, evaluator: &str) -> (r: Result<
        ResidualScope,
        Error,
    >)
        ensures
            r is Ok <==> text::is_label(expression@) && text::is_label(region@) && text::is_label(
                evaluator@,
            ),
            r matches Ok(scope) ==> scope@ == (law@, expression@, region@, evaluator@),
            !text::is_label(expression@) ==> r is Err && r->Err_0@ == text::label_message(
                "residual expression"@,
            ),
            text::is_label(expression@) && !text::is_label(region@) ==> r is Err && r->Err_0@
                == text::label_message("residual region"@),
            text::is_label(expression@) && text::is_label(region@) && !text::is_label(evaluator@)
                ==> r is Err && r->Err_0@ == text::label_message("residual evaluator"@),
    {
        let expression = text::label("residual expression", expression.to_owned())?;
        let region = text::label("residual region", region.to_owned())?;
        let evaluator = text::label("residual evaluator", evaluator.to_owned())?;
        Ok(ResidualScope { law, expression, region, evaluator })
    }

    pub fn law(&self) -> (l: &LawIdentity)
        ensures
            l@ == self@.0,
    {
        &self.law
    }

    pub fn expression(&self) -> (s: &str)
        ensures
            s@ == self@.1,
    {
        self.expression.as_str()
    }

    pub fn region(&self) -> (s: &str)
        ensures
            s@ == self@.2,
    {
        self.region.as_str()
    }

    pub fn evaluator(&self) -> (s: &str)
        ensures
            s@ == self@.3,
    {
        self.evaluator.as_str()
    }
}

/// The claim made by a residual receipt. A guaranteed law requires a separate,
/// construction-backed API and cannot be selected by a caller here.
#[derive(Clone, Copy, Debug, Eq, PartialEq)]
pub enum ResidualClaim {
    Empirical,
}

impl ResidualClaim {
    pub fn to_string(&self) -> (s: String)
        ensures
            s@ == "empirical"@,
    {
        String::from_str("empirical")
    }
}

/// The evidence behind a residual receipt.
#[derive(Clone, Copy, Debug, Eq, PartialEq)]
pub enum ResidualEvidence {
    VerifiedObservations,
}

impl ResidualEvidence {
    pub fn to_string(&self) -> (s: String)
        ensures
            s@ == "verified sampled discretized observations"@,
    {
        String::from_str("verified sampled discretized observations")
    }
}

/// How many of `flags` are set.
pub open spec fn flagged(flags: Seq<bool>) -> nat
    decreases flags.len(),
{
    if flags.len() == 0 {
        0
    } else {
        flagged(flags.drop_last()) + if flags.last() {
            1nat
        } else {
            0nat
        }
    }
}

/// The observation and violation counts of a residual ledger after a batch whose `i`-th
/// residual exceeded the tolerance exactly when `flags[i]` is set. The batch is recorded
/// whole or not at all: it is refused when empty, then when the observation count would
/// overflow, then when the violation count would.
pub fn tally_residuals(observations: usize, violations: usize, flags: &[bool]) -> (r: Result<
    (usize, usize),
    Error,
>)
    ensures
        flags@.len() == 0 ==> r is Err && r->Err_0@ == "residual observation batch must be nonempty"@,
        flags@.len() > 0 && observations + flags@.len() > usize::MAX ==> r is Err && r->Err_0@
            == "residual observation count overflow"@,
        flags@.len() > 0 && observations + flags@.len() <= usize::MAX && violations + flagged(
            flags@,
        ) > usize::MAX ==> r is Err && r->Err_0@ == "residual violation count overflow"@,
        flags@.len() > 0 && observations + flags@.len() <= usize::MAX && violations + flagged(
            flags@,
        ) <= usize::MAX ==> r == Ok::<(usize, usize), Error>(
            ((observations + flags@.len()) as usize, (violations + flagged(flags@)) as usize),
        ),
{
    let n = flags.len();
    if n == 0 {
        return Err(Error::new(String::from_str("residual observation batch must be nonempty")));
    }
    if observations > usize::MAX - n {
        return Err(Error::new(String::from_str("residual observation count overflow")));
    }
    let mut count: usize = 0;
    let mut i: usize = 0;
    while i < n
        invariant
            n == flags@.len(),
            i <= n,
            count == flagged(flags@.take(i as int)),
            count <= i,
        decreases n - i,
    {
        assert(flags@.take(i as int + 1).drop_last() =~= flags@.take(i as int));
        if flags[i] {
            count = count + 1;
        }
        i = i + 1;
    }
    assert(flags@.take(n as int) =~= flags@);
    if violations > usize::MAX - count {
        return Err(Error::new(String::from_str("residual violation count overflow")));
    }
    Ok((observations + n, violations + count))
}

} // verus!
