//! Properties of the runway simulation that span its days and functions.

use vstd::prelude::*;
use crate::forecast::{
    CashFlowDirection, RunwayResult, runway_outcome, ForecastRule, RuleContribution, RunwayError, RunwayInput, SimState, apply_rules, first_rule_defect,
    fits_i64, horizon, initial_state, input_defect, lemma_record_keeps_sorted, lower_bound, occurs_on,
    record_occurrence, signed_amount, simulate_day, simulate_from, simulation, sorted_by_id,
};

verus! {

/// The state after simulating days `1..=j`, regardless of where the
/// simulation would stop.
pub open spec fn state_after(input: RunwayInput, j: int) -> Result<SimState, RunwayError>
    decreases j,
{
    if j <= 0 {
        Ok(initial_state(input))
    } else {
        match state_after(input, j - 1) {
            Err(e) => Err(e),
            Ok(s) => simulate_day(input, s, j),
        }
    }
}

/// Sum of the signed contribution totals.
pub open spec fn total_amount(cs: Seq<RuleContribution>) -> int
    decreases cs.len(),
{
    if cs.len() == 0 {
        0
    } else {
        total_amount(cs.drop_last()) + cs.last().amount_minor
    }
}

proof fn lemma_total_update(cs: Seq<RuleContribution>, p: int, x: RuleContribution)
    requires
        0 <= p < cs.len(),
    ensures
        total_amount(cs.update(p, x)) == total_amount(cs) - cs[p].amount_minor + x.amount_minor,
    decreases cs.len(),
{
    let u = cs.update(p, x);
    if p == cs.len() - 1 {
        assert(u.drop_last() =~= cs.drop_last());
    } else {
        lemma_total_update(cs.drop_last(), p, x);
        assert(u.drop_last() =~= cs.drop_last().update(p, x));
    }
}

proof fn lemma_total_insert(cs: Seq<RuleContribution>, p: int, x: RuleContribution)
    requires
        0 <= p <= cs.len(),
    ensures
        total_amount(cs.insert(p, x)) == total_amount(cs) + x.amount_minor,
    decreases cs.len(),
{
    let u = cs.insert(p, x);
    if p == cs.len() {
        assert(u.drop_last() =~= cs);
    } else {
        lemma_total_insert(cs.drop_last(), p, x);
        assert(u.drop_last() =~= cs.drop_last().insert(p, x));
    }
}

proof fn lemma_lower_bound_range(cs: Seq<RuleContribution>, key: Seq<char>)
    ensures
        0 <= lower_bound(cs, key) <= cs.len(),
    decreases cs.len(),
{
    if cs.len() > 0 && crate::order::text_less(cs[0].rule_id@, key) {
        lemma_lower_bound_range(cs.drop_first(), key);
    }
}

proof fn lemma_record_total(cs: Seq<RuleContribution>, rule: ForecastRule, signed: int)
    requires
        fits_i64(signed),
        record_occurrence(cs, rule, signed) is Some,
    ensures
        total_amount(record_occurrence(cs, rule, signed)->0) == total_amount(cs) + signed,
{
    lemma_lower_bound_range(cs, rule.id@);
    let p = lower_bound(cs, rule.id@);
    if p < cs.len() && cs[p].rule_id@ == rule.id@ {
        let c = cs[p];
        lemma_total_update(
            cs,
            p,
            RuleContribution {
                rule_id: c.rule_id,
                label: c.label,
                direction: c.direction,
                occurrence_count: (c.occurrence_count + 1) as u32,
                amount_minor: (c.amount_minor + signed) as i64,
            },
        );
    } else {
        lemma_total_insert(
            cs,
            p,
            RuleContribution {
                rule_id: rule.id,
                label: rule.label,
                direction: rule.direction,
                occurrence_count: 1,
                amount_minor: signed as i64,
            },
        );
    }
}

/// What each day keeps: the balance equals the starting assets plus every
/// recorded rule effect minus the applied baseline, and the contributions
/// stay sorted by rule id.
pub open spec fn ledger_consistent(input: RunwayInput, st: SimState) -> bool {
    &&& st.balance == input.liquid_assets.amount_minor + total_amount(st.contributions)
        - st.applied
    &&& sorted_by_id(st.contributions)
}

proof fn lemma_valid_rule(input: RunwayInput, i: int)
    requires
        input_defect(input) is None,
        0 <= i < input.forecast_rules@.len(),
    ensures
        input.forecast_rules@[i].amount_minor > 0,
{
    lemma_valid_rule_rec(
        input.forecast_rules@,
        input.liquid_assets.currency@,
        input.forecast_rules@.len() as int,
        i,
    );
}

proof fn lemma_valid_rule_rec(rules: Seq<ForecastRule>, currency: Seq<char>, n: int, i: int)
    requires
        0 <= i < n <= rules.len(),
        first_rule_defect(rules, currency, n) is None,
    ensures
        rules[i].amount_minor > 0,
    decreases n,
{
    if i < n - 1 {
        lemma_valid_rule_rec(rules, currency, n - 1, i);
    }
}

proof fn lemma_apply_rules_keeps(input: RunwayInput, n: int, d: int, st: SimState)
    requires
        input_defect(input) is None,
        0 <= n <= input.forecast_rules@.len(),
        ledger_consistent(input, st),
    ensures
        apply_rules(input.forecast_rules@, n, d, st) matches Ok(s) ==> {
            &&& ledger_consistent(input, s)
            &&& s.remainder == st.remainder
            &&& s.applied == st.applied
        },
    decreases n,
{
    if n > 0 {
        lemma_apply_rules_keeps(input, n - 1, d, st);
        if let Ok(s) = apply_rules(input.forecast_rules@, n - 1, d, st) {
            let rule = input.forecast_rules@[n - 1];
            lemma_valid_rule(input, n - 1);
            if occurs_on(rule, d) == Some(true) && fits_i64(s.balance + signed_amount(rule))
                && record_occurrence(s.contributions, rule, signed_amount(rule)) is Some {
                lemma_record_total(s.contributions, rule, signed_amount(rule));
                lemma_record_keeps_sorted(
                    s.contributions,
                    rule,
                    signed_amount(rule),
                );
            }
        }
    }
}

/// Applies `j * expense / days` in closed form.
proof fn lemma_burn_step(j: int, e: int, d: int, q: int, r: int)
    requires
        j >= 0,
        e >= 0,
        d > 0,
        q == (j * e) / d,
        r == (j * e) % d,
    ensures
        q + (r + e) / d == ((j + 1) * e) / d,
        (r + e) % d == ((j + 1) * e) % d,
{
    vstd::arithmetic::div_mod::lemma_fundamental_div_mod(j * e, d);
    vstd::arithmetic::div_mod::lemma_fundamental_div_mod(r + e, d);
    let q2 = (r + e) / d;
    let r2 = (r + e) % d;
    assert((j + 1) * e == j * e + e) by (nonlinear_arith);
    assert((j + 1) * e == (q + q2) * d + r2) by (nonlinear_arith)
        requires
            j * e == d * q + r,
            r + e == d * q2 + r2,
            (j + 1) * e == j * e + e,
    ;
    vstd::arithmetic::div_mod::lemma_mod_pos_bound(r + e, d);
    vstd::arithmetic::div_mod::lemma_fundamental_div_mod_converse((j + 1) * e, d, q + q2, r2);
}

/// Each simulated day keeps the ledger consistent and applies exactly
/// `floor(j * expense / observed_days)` of baseline spending after `j` days.
pub proof fn lemma_state_after(input: RunwayInput, j: int)
    requires
        input_defect(input) is None,
        j >= 0,
    ensures
        state_after(input, j) matches Ok(s) ==> {
            &&& ledger_consistent(input, s)
            &&& s.applied == (j * input.historical_burn.expense_minor)
                / (input.historical_burn.observed_days as int)
            &&& s.remainder == (j * input.historical_burn.expense_minor)
                % (input.historical_burn.observed_days as int)
        },
    decreases j,
{
    let e = input.historical_burn.expense_minor as int;
    let d = input.historical_burn.observed_days as int;
    if j == 0 {
        assert(total_amount(Seq::<RuleContribution>::empty()) == 0);
        assert(0 * e == 0);
    } else {
        lemma_state_after(input, j - 1);
        if let Ok(s) = state_after(input, j - 1) {
            let day = input.as_of@ + j;
            let rules = input.forecast_rules@;
            lemma_apply_rules_keeps(input, rules.len() as int, day, s);
            if let Ok(s2) = apply_rules(rules, rules.len() as int, day, s) {
                lemma_burn_step(j - 1, e, d, s.applied, s.remainder);
            }
        }
    }
}

/// Running the simulation from day `k` in the state reached after `k - 1`
/// days, with every earlier day closing above the reserve.
proof fn lemma_simulate_from(input: RunwayInput, k: int)
    requires
        1 <= k <= horizon(input) + 1,
        state_after(input, k - 1) is Ok,
        forall|j: int|
            1 <= j < k ==> (#[trigger] state_after(input, j) matches Ok(s) && s.balance
                > input.reserve.amount_minor),
    ensures
        simulate_from(input, state_after(input, k - 1)->Ok_0, k) matches Ok((stop, st)) ==> match stop {
            Some(z) => {
                &&& k <= z <= horizon(input)
                &&& state_after(input, z) == Ok::<SimState, RunwayError>(st)
                &&& st.balance <= input.reserve.amount_minor
                &&& forall|j: int|
                    1 <= j < z ==> (#[trigger] state_after(input, j) matches Ok(s) && s.balance
                        > input.reserve.amount_minor)
            },
            None => {
                &&& state_after(input, horizon(input)) == Ok::<SimState, RunwayError>(st)
                &&& forall|j: int|
                    1 <= j <= horizon(input) ==> (#[trigger] state_after(input, j) matches Ok(s)
                        && s.balance > input.reserve.amount_minor)
            },
        },
        simulate_from(input, state_after(input, k - 1)->Ok_0, k) is Err ==> exists|j: int|
            k <= j <= horizon(input) && #[trigger] state_after(input, j) is Err,
    decreases horizon(input) + 1 - k,
{
    let st = state_after(input, k - 1)->Ok_0;
    if k > horizon(input) {
    } else {
        assert(state_after(input, k) == simulate_day(input, st, k));
        match simulate_day(input, st, k) {
            Err(e) => {},
            Ok(s) => {
                if s.balance > input.reserve.amount_minor {
                    assert forall|j: int|
                        1 <= j < k + 1 implies (#[trigger] state_after(input, j) matches Ok(s2)
                        && s2.balance > input.reserve.amount_minor) by {
                        if j == k {
                        }
                    }
                    lemma_simulate_from(input, k + 1);
                }
            },
        }
    }
}

/// The runway ends on the first future day whose closing balance is at or
/// below the reserve: every earlier day closes above it, the stop day lies
/// within the horizon, and the reported state is that day's state. When the
/// horizon passes first, every simulated day closed above the reserve.
pub proof fn law_first_day_at_or_below_reserve(input: RunwayInput)
    requires
        input_defect(input) is None,
    ensures
        simulation(input) matches Ok((stop, st)) ==> match stop {
            Some(z) => {
                &&& 1 <= z <= horizon(input)
                &&& state_after(input, z) == Ok::<SimState, RunwayError>(st)
                &&& st.balance <= input.reserve.amount_minor
                &&& forall|j: int|
                    1 <= j < z ==> (#[trigger] state_after(input, j) matches Ok(s) && s.balance
                        > input.reserve.amount_minor)
            },
            None => forall|j: int|
                1 <= j <= horizon(input) ==> (#[trigger] state_after(input, j) matches Ok(s)
                    && s.balance > input.reserve.amount_minor),
        },
{
    assert(state_after(input, 0) == Ok::<SimState, RunwayError>(initial_state(input)));
    lemma_simulate_from(input, 1);
}

/// No fractional minor unit is lost: after the simulation, the baseline
/// applied is exactly `floor(days * expense / observed_days)` for the number of
/// days simulated, and the projected balance equals the starting assets plus
/// every rule contribution minus that baseline. Contributions are sorted by
/// rule id, one entry per id.
pub proof fn law_simulation_ledger(input: RunwayInput)
    requires
        input_defect(input) is None,
    ensures
        simulation(input) matches Ok((stop, st)) ==> {
            let days = match stop {
                Some(z) => z,
                None => horizon(input),
            };
            &&& st.applied == (days * input.historical_burn.expense_minor)
                / (input.historical_burn.observed_days as int)
            &&& st.balance == input.liquid_assets.amount_minor + total_amount(st.contributions)
                - st.applied
            &&& sorted_by_id(st.contributions)
        },
{
    law_first_day_at_or_below_reserve(input);
    if let Ok((stop, st)) = simulation(input) {
        match stop {
            Some(z) => lemma_state_after(input, z),
            None => {
                assert(state_after(input, horizon(input)) == Ok::<SimState, RunwayError>(st)) by {
                    lemma_simulate_from(input, 1);
                }
                lemma_state_after(input, horizon(input));
            },
        }
    }
}

/// A one-time rule falls on exactly one day: its start day (unless the rule
/// ended before it), and on no other day.
pub proof fn law_one_time_rule_occurs_once(rule: ForecastRule, d: int)
    requires
        rule.cadence is Once,
    ensures
        occurs_on(rule, d) is Some,
        occurs_on(rule, d) == Some(true) ==> d == rule.starts_on@,
        d == rule.starts_on@ && !(rule.ends_on matches Some(end) && end@ < d) ==> occurs_on(rule, d)
            == Some(true),
{
}

/// Only explicit future facts are forecast: without forecast rules there are
/// no contributions, and each day's balance is the starting assets minus the
/// baseline applied so far.
pub proof fn law_no_rules_no_income(input: RunwayInput, j: int)
    requires
        input_defect(input) is None,
        input.forecast_rules@.len() == 0,
        j >= 0,
    ensures
        state_after(input, j) matches Ok(s) ==> {
            &&& s.contributions.len() == 0
            &&& s.balance == input.liquid_assets.amount_minor - s.applied
        },
    decreases j,
{
    lemma_state_after(input, j);
    if j > 0 {
        law_no_rules_no_income(input, j - 1);
    }
}


// ---------------------------------------------------------------------------
// Comparing two runways
// ---------------------------------------------------------------------------

/// The balance effect of the first `n` rules on day `d`: the signed amount
/// of each rule that occurs that day.
pub open spec fn day_effect(rules: Seq<ForecastRule>, n: int, d: int) -> int
    decreases n,
{
    if n <= 0 {
        0
    } else {
        day_effect(rules, n - 1, d) + if occurs_on(rules[n - 1], d) == Some(true) {
            signed_amount(rules[n - 1])
        } else {
            0
        }
    }
}

/// The rule effects of days `1..=j` after `as_of`.
pub open spec fn rules_effect(input: RunwayInput, j: int) -> int
    decreases j,
{
    if j <= 0 {
        0
    } else {
        rules_effect(input, j - 1) + day_effect(
            input.forecast_rules@,
            input.forecast_rules@.len() as int,
            input.as_of@ + j,
        )
    }
}

/// `a` looks no better than `b`: the same dates, reserve, horizon and
/// observation window; no more liquid assets; no less historical spending;
/// and the same forecast rules, except that `a` may have one extra expense
/// rule, or `b` one extra income rule, anywhere in the list.
pub open spec fn outlook_no_better(a: RunwayInput, b: RunwayInput) -> bool {
    let ra = a.forecast_rules@;
    let rb = b.forecast_rules@;
    &&& a.as_of@ == b.as_of@
    &&& a.reserve.amount_minor == b.reserve.amount_minor
    &&& a.max_horizon_days == b.max_horizon_days
    &&& a.historical_burn.observed_days == b.historical_burn.observed_days
    &&& a.liquid_assets.amount_minor <= b.liquid_assets.amount_minor
    &&& a.historical_burn.expense_minor >= b.historical_burn.expense_minor
    &&& {
        ||| ra == rb
        ||| exists|i: int, x: ForecastRule|
            0 <= i <= rb.len() && ra == rb.insert(i, x) && x.direction
                == CashFlowDirection::Expense
        ||| exists|i: int, x: ForecastRule|
            0 <= i <= ra.len() && rb == ra.insert(i, x) && x.direction
                == CashFlowDirection::Income
    }
}

/// Runway `x` lasts no longer than runway `y` (no runway day means the
/// reserve is never reached within the horizon, the longest outcome).
pub open spec fn lasts_no_longer(x: Option<u32>, y: Option<u32>) -> bool {
    match (x, y) {
        (_, None) => true,
        (None, Some(_)) => false,
        (Some(i), Some(j)) => i <= j,
    }
}

proof fn lemma_apply_rules_effect(rules: Seq<ForecastRule>, n: int, d: int, st: SimState)
    requires
        0 <= n <= rules.len(),
    ensures
        apply_rules(rules, n, d, st) matches Ok(s) ==> {
            &&& s.balance == st.balance + day_effect(rules, n, d)
            &&& s.applied == st.applied
        },
    decreases n,
{
    if n > 0 {
        lemma_apply_rules_effect(rules, n - 1, d, st);
    }
}

/// The effect of one rule on day `d`.
pub open spec fn rule_effect(rule: ForecastRule, d: int) -> int {
    if occurs_on(rule, d) == Some(true) {
        signed_amount(rule)
    } else {
        0
    }
}

proof fn lemma_day_effect_insert(rules: Seq<ForecastRule>, i: int, x: ForecastRule, n: int, d: int)
    requires
        0 <= i <= rules.len(),
        0 <= n <= rules.len(),
    ensures
        n < i ==> day_effect(rules.insert(i, x), n, d) == day_effect(rules, n, d),
        i <= n ==> day_effect(rules.insert(i, x), n + 1, d) == day_effect(rules, n, d)
            + rule_effect(x, d),
    decreases n,
{
    let r = rules.insert(i, x);
    if n > 0 {
        lemma_day_effect_insert(rules, i, x, n - 1, d);
    }
    if n < i {
        if n > 0 {
            assert(r[n - 1] == rules[n - 1]);
        }
    } else if n == i {
        if n > 0 {
            assert(r[n - 1] == rules[n - 1]);
            assert(day_effect(r, n, d) == day_effect(rules, n, d));
        }
        assert(r[n] == x);
    } else {
        assert(r[n] == rules[n - 1]);
    }
}

/// Each day that is simulated moves `balance + applied` by the day's rule
/// effects only.
proof fn lemma_net_after(input: RunwayInput, j: int)
    requires
        j >= 0,
    ensures
        state_after(input, j) matches Ok(s) ==> s.balance + s.applied
            == input.liquid_assets.amount_minor + rules_effect(input, j),
    decreases j,
{
    if j > 0 {
        lemma_net_after(input, j - 1);
        if let Ok(s) = state_after(input, j - 1) {
            let rules = input.forecast_rules@;
            lemma_apply_rules_effect(rules, rules.len() as int, input.as_of@ + j, s);
        }
    }
}

proof fn lemma_valid_rules_positive(input: RunwayInput)
    requires
        input_defect(input) is None,
    ensures
        forall|i: int|
            0 <= i < input.forecast_rules@.len() ==> (#[trigger] input.forecast_rules@[i]).amount_minor
                > 0,
{
    assert forall|i: int| 0 <= i < input.forecast_rules@.len() implies (
    #[trigger] input.forecast_rules@[i]).amount_minor > 0 by {
        lemma_valid_rule(input, i);
    }
}

proof fn lemma_rules_effect_ordered(a: RunwayInput, b: RunwayInput, j: int)
    requires
        input_defect(a) is None,
        input_defect(b) is None,
        outlook_no_better(a, b),
        j >= 0,
    ensures
        rules_effect(a, j) <= rules_effect(b, j),
    decreases j,
{
    if j > 0 {
        lemma_rules_effect_ordered(a, b, j - 1);
        let ra = a.forecast_rules@;
        let rb = b.forecast_rules@;
        let d = a.as_of@ + j;
        lemma_valid_rules_positive(a);
        lemma_valid_rules_positive(b);
        if ra != rb {
            if exists|i: int, x: ForecastRule|
                0 <= i <= rb.len() && ra == rb.insert(i, x) && x.direction
                    == CashFlowDirection::Expense {
                let (i, x) = choose|i: int, x: ForecastRule|
                    0 <= i <= rb.len() && ra == rb.insert(i, x) && x.direction
                        == CashFlowDirection::Expense;
                lemma_day_effect_insert(rb, i, x, rb.len() as int, d);
                assert(ra[i] == x);
            } else {
                let (i, x) = choose|i: int, x: ForecastRule|
                    0 <= i <= ra.len() && rb == ra.insert(i, x) && x.direction
                        == CashFlowDirection::Income;
                lemma_day_effect_insert(ra, i, x, ra.len() as int, d);
                assert(rb[i] == x);
            }
        }
    }
}

/// On a day that both runs reach, the balance of the worse outlook is not
/// higher.
proof fn lemma_balance_ordered(a: RunwayInput, b: RunwayInput, j: int)
    requires
        input_defect(a) is None,
        input_defect(b) is None,
        outlook_no_better(a, b),
        j >= 0,
        state_after(a, j) is Ok,
        state_after(b, j) is Ok,
    ensures
        state_after(a, j)->Ok_0.balance <= state_after(b, j)->Ok_0.balance,
{
    lemma_net_after(a, j);
    lemma_net_after(b, j);
    lemma_state_after(a, j);
    lemma_state_after(b, j);
    lemma_rules_effect_ordered(a, b, j);
    let ea = a.historical_burn.expense_minor as int;
    let eb = b.historical_burn.expense_minor as int;
    let d = a.historical_burn.observed_days as int;
    assert(j * eb <= j * ea) by (nonlinear_arith)
        requires
            j >= 0,
            eb <= ea,
    ;
    vstd::arithmetic::div_mod::lemma_div_is_ordered(j * eb, j * ea, d);
}

/// More liquid assets, an extra income rule, less historical spending or
/// one fewer expense rule never shortens the runway; dually, fewer assets,
/// an extra expense rule or more historical spending never lengthens it.
/// Stated for two valid inputs whose calculations both succeed: `a` looks no
/// better than `b`, so `a`'s runway ends no later than `b`'s.
pub proof fn law_better_outlook_never_shortens_runway(
    a: RunwayInput,
    b: RunwayInput,
    ra: RunwayResult,
    rb: RunwayResult,
)
    requires
        input_defect(a) is None,
        input_defect(b) is None,
        outlook_no_better(a, b),
        runway_outcome(a, Ok::<RunwayResult, RunwayError>(ra)),
        runway_outcome(b, Ok::<RunwayResult, RunwayError>(rb)),
    ensures
        lasts_no_longer(ra.runway_days, rb.runway_days),
{
    if a.liquid_assets.amount_minor <= a.reserve.amount_minor {
        return;
    }
    let reserve = a.reserve.amount_minor;
    law_first_day_at_or_below_reserve(a);
    law_first_day_at_or_below_reserve(b);
    assert(horizon(a) == horizon(b));
    let sa = simulation(a)->Ok_0.0;
    let sb = simulation(b)->Ok_0.0;
    if let Some(k) = sb {
        if b.liquid_assets.amount_minor > b.reserve.amount_minor {
            // `b` stops on day `k`: if `a` were still above the reserve on
            // day `k`, its balance would exceed `b`'s there.
            if !(sa matches Some(z) && z <= k) {
                assert(state_after(a, k) matches Ok(s) && s.balance > reserve);
                lemma_balance_ordered(a, b, k);
            }
        }
    }
}

} // verus!
