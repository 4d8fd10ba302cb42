//! The declaration checks of empirical progress and monotonicity ledgers: which
//! observations are comparable, and which relations are named.
use crate::error::Error;
use crate::text;
use vstd::prelude::*;
use vstd::string::StrSliceExecFns;
use vstd::string::StringExecFns;

verus! {

/// Why an observation cannot extend a learning-progress ledger, if it cannot: another metric,
/// population or budget unit than the baseline's, or a budget that does not grow past the last
/// one's.
pub open spec fn progress_mismatch(
    metric: Seq<char>,
    population: Seq<char>,
    unit: Seq<char>,
    previous_budget: u64,
    observed_metric: Seq<char>,
    observed_population: Seq<char>,
    observed_unit: Seq<char>,
    observed_budget: u64,
) -> Option<Seq<char>> {
    if observed_metric != metric {
        Some(
            "learning-progress metric mismatch: expected "@ + text::debug_text(metric)
                + ", observed "@ + text::debug_text(observed_metric),
        )
    } else if observed_population != population {
        Some(
            "learning-progress population mismatch: expected "@ + text::debug_text(population)
                + ", observed "@ + text::debug_text(observed_population),
        )
    } else if observed_unit != unit {
        Some(
            "learning-progress budget-unit mismatch: expected "@ + text::debug_text(unit)
                + ", observed "@ + text::debug_text(observed_unit),
        )
    } else if observed_budget <= previous_budget {
        Some(
            "learning-progress budget must increase strictly: previous "@ + text::decimal_text(
                previous_budget as nat,
            ) + " "@ + unit + ", observed "@ + text::decimal_text(observed_budget as nat) + " "@
                + unit,
        )
    } else {
        None
    }
}

fn mismatch(kind: &str, expected: &str, observed: &str) -> (e: Error)
    ensures
        e@ == "learning-progress "@ + kind@ + " mismatch: expected "@ + text::debug_text(expected@)
            + ", observed "@ + text::debug_text(observed@),
{
    let mut m = String::from_str("learning-progress ");
    m.append(kind);
    m.append(" mismatch: expected ");
    m.append(text::debug_quoted(expected).as_str());
    m.append(", observed ");
    m.append(text::debug_quoted(observed).as_str());
    Error::new(m)
}

/// Whether an observation may follow the ledger's last one: same metric, population and budget
/// unit as the baseline, and a strictly larger budget.
pub fn progress_compatible(
    metric: &str,
    population: &str,
    unit: &str,
    previous_budget: u64,
    observed_metric: &str,
    observed_population: &str,
    observed_unit: &str,
    observed_budget: u64,
) -> (r: Result<(), Error>)
    ensures
        progress_mismatch(
            metric@,
            population@,
            unit@,
            previous_budget,
            observed_metric@,
            observed_population@,
            observed_unit@,
            observed_budget,
        ) matches Some(m) ==> r is Err && r->Err_0@ == m,
        progress_mismatch(
            metric@,
            population@,
            unit@,
            previous_budget,
            observed_metric@,
            observed_population@,
            observed_unit@,
            observed_budget,
        ) is None ==> r is Ok,
{
    proof {
        reveal_strlit("metric");
        reveal_strlit("population");
        reveal_strlit("budget-unit");
    }
    if !text::text_eq(observed_metric, metric) {
        let e = mismatch("metric", metric, observed_metric);
        assert(e@ =~= "learning-progress metric mismatch: expected "@ + text::debug_text(metric@)
            + ", observed "@ + text::debug_text(observed_metric@)) by {
            reveal_strlit("learning-progress ");
            reveal_strlit(" mismatch: expected ");
            reveal_strlit("learning-progress metric mismatch: expected ");
        }
        return Err(e);
    }
    if !text::text_eq(observed_population, population) {
        let e = mismatch("population", population, observed_population);
        assert(e@ =~= "learning-progress population mismatch: expected "@ + text::debug_text(
            population@,
        ) + ", observed "@ + text::debug_text(observed_population@)) by {
            reveal_strlit("learning-progress ");
            reveal_strlit(" mismatch: expected ");
            reveal_strlit("learning-progress population mismatch: expected ");
        }
        return Err(e);
    }
    if !text::text_eq(observed_unit, unit) {
        let e = mismatch("budget-unit", unit, observed_unit);
        assert(e@ =~= "learning-progress budget-unit mismatch: expected "@ + text::debug_text(unit@)
            + ", observed "@ + text::debug_text(observed_unit@)) by {
            reveal_strlit("learning-progress ");
            reveal_strlit(" mismatch: expected ");
            reveal_strlit("learning-progress budget-unit mismatch: expected ");
        }
        return Err(e);
    }
    if observed_budget <= previous_budget {
        let mut m = String::from_str("learning-progress budget must increase strictly: previous ");
        text::push_decimal_u64(&mut m, previous_budget);
        m.append(" ");
        m.append(unit);
        m.append(", observed ");
        text::push_decimal_u64(&mut m, observed_budget);
        m.append(" ");
        m.append(unit);
        return Err(Error::new(m));
    }
    Ok(())
}

/// Every character of `s` is whitespace (so `s` trims to nothing).
pub open spec fn blank(s: Seq<char>) -> bool {
    forall|i: int| 0 <= i < s.len() ==> text::is_whitespace_char(#[trigger] s[i])
}

/// Whether `s` trims to nothing.
pub fn is_blank(s: &str) -> (b: bool)
    ensures
        b == blank(s@),
{
    let n = s.unicode_len();
    let mut i: usize = 0;
    while i < n
        invariant
            n == s@.len(),
            i <= n,
            forall|j: int| 0 <= j < i ==> text::is_whitespace_char(#[trigger] s@[j]),
        decreases n - i,
    {
        if !text::is_whitespace(s.get_char(i)) {
            return false;
        }
        i = i + 1;
    }
    true
}

/// A monotonicity relation names its input and its output: neither may trim to nothing.
pub fn monotonicity_names(input: &str, output: &str) -> (r: Result<(), Error>)
    ensures
        r is Ok <==> !blank(input@) && !blank(output@),
        r matches Err(e) ==> e@ == "monotonicity input and output names must be nonempty"@,
{
    if is_blank(input) || is_blank(output) {
        return Err(
            Error::new(String::from_str("monotonicity input and output names must be nonempty")),
        );
    }
    Ok(())
}

} // verus!
