//! The course of a simulation: how the months follow each other until
//! everyone is dead, the balance is zero, or a month cannot be simulated.
use vstd::prelude::*;
use crate::error::SimulationError;
use crate::month::{after_month, everyone_dead, month_error, Household, Progress};
use crate::portfolio::AnnualReturns;
use crate::utils::lemma_next_month_valid;

verus! {

/// How a simulation that stands at `p` ends when month number `k` (counted
/// from the start of the simulation) is given the annual returns
/// `source(k)`: where it stands when everyone is dead or the balance is
/// zero at a month's end, or the error of the first month that cannot be
/// simulated.
pub open spec fn outcome(h: Household, p: Progress, source: spec_fn(nat) -> AnnualReturns)
    -> Result<Progress, SimulationError>
    decreases p.date.months_left(),
    when p.date.valid()
{
    if everyone_dead(p.date, h.input.retirees@) {
        Ok(p)
    } else {
        match month_error(h, p.date) {
            Some(e) => Err(e),
            None => {
                let q = after_month(h, p, source(p.months.len()));
                if q.balance == 0 {
                    Ok(q)
                } else {
                    outcome(h, q, source)
                }
            },
        }
    }
}

/// Where a stretch of months has led, and how it ended: `Ok(true)` where the
/// simulation is over, `Ok(false)` where the stretch is used up, or the error
/// of the month that could not be simulated.
pub struct Stretch {
    pub progress: Progress,
    pub result: Result<bool, SimulationError>,
}

/// A stretch of at most `n` months from `p`, all under the same annual returns.
pub open spec fn stretch(h: Household, p: Progress, yields: AnnualReturns, n: nat) -> Stretch
    decreases n,
{
    if n == 0 {
        Stretch { progress: p, result: Ok(false) }
    } else if everyone_dead(p.date, h.input.retirees@) {
        Stretch { progress: p, result: Ok(true) }
    } else {
        match month_error(h, p.date) {
            Some(e) => Stretch { progress: p, result: Err(e) },
            None => {
                let q = after_month(h, p, yields);
                if q.balance == 0 {
                    Stretch { progress: q, result: Ok(true) }
                } else {
                    stretch(h, q, yields, (n - 1) as nat)
                }
            },
        }
    }
}

/// The same annual returns for every month.
pub open spec fn uniform(yields: AnnualReturns) -> spec_fn(nat) -> AnnualReturns {
    |k: nat| yields
}

/// The month after a simulated month is a day of the calendar, one month
/// closer to the calendar's end.
pub proof fn lemma_after_month_date(h: Household, p: Progress, yields: AnnualReturns)
    requires
        p.date.valid(),
        month_error(h, p.date) is None,
    ensures
        after_month(h, p, yields).date.valid(),
        after_month(h, p, yields).date.months_left() + 1 == p.date.months_left(),
        after_month(h, p, yields).months.len() == p.months.len() + 1,
{
    lemma_next_month_valid(p.date);
}

/// No simulation runs on without end: it takes at most as many months as
/// the calendar has left after its current day.
pub proof fn lemma_outcome_is_bounded(
    h: Household,
    p: Progress,
    source: spec_fn(nat) -> AnnualReturns,
)
    requires
        p.date.valid(),
    ensures
        outcome(h, p, source) matches Ok(q) ==> q.date.valid() && p.months.len() <= q.months.len()
            <= p.months.len() + p.date.months_left(),
    decreases p.date.months_left(),
{
    if !everyone_dead(p.date, h.input.retirees@) && month_error(h, p.date) is None {
        let q = after_month(h, p, source(p.months.len()));
        lemma_after_month_date(h, p, source(p.months.len()));
        if q.balance != 0 {
            lemma_outcome_is_bounded(h, q, source);
        }
    }
}

/// A stretch of months under the returns that `source` gives those months
/// leads where the simulation under `source` leads: to its end, or to a
/// point from which the rest of the simulation is still to come.
pub proof fn lemma_stretch_outcome(
    h: Household,
    p: Progress,
    source: spec_fn(nat) -> AnnualReturns,
    yields: AnnualReturns,
    n: nat,
)
    requires
        p.date.valid(),
        forall|k: nat|
            p.months.len() <= k < p.months.len() + n ==> (#[trigger] source(k)) == yields,
    ensures
        stretch(h, p, yields, n).progress.date.valid(),
        outcome(h, p, source) == (match stretch(h, p, yields, n).result {
            Ok(true) => Ok(stretch(h, p, yields, n).progress),
            Ok(false) => outcome(h, stretch(h, p, yields, n).progress, source),
            Err(e) => Err(e),
        }),
        stretch(h, p, yields, n).result == Ok::<bool, SimulationError>(false) ==> stretch(
            h,
            p,
            yields,
            n,
        ).progress.months.len() == p.months.len() + n,
    decreases n,
{
    if n > 0 && !everyone_dead(p.date, h.input.retirees@) && month_error(h, p.date) is None {
        let q = after_month(h, p, yields);
        lemma_after_month_date(h, p, yields);
        assert(source(p.months.len()) == yields);
        if q.balance != 0 {
            lemma_stretch_outcome(h, q, source, yields, (n - 1) as nat);
        }
    }
}

/// How far a stretch of at most `n` months leads, and what holds where it
/// ends: a stretch that is used up has added `n` months and left money; a
/// stretch that ends the simulation has either run the balance down to zero
/// in its last month, or found everyone dead before using itself up.
pub proof fn lemma_stretch_end(h: Household, p: Progress, yields: AnnualReturns, n: nat)
    requires
        p.date.valid(),
    ensures
        ({
            let s = stretch(h, p, yields, n);
            let added = s.progress.months.len() - p.months.len();
            &&& 0 <= added <= n
            &&& s.progress.date.valid()
            &&& s.progress.date.months_left() + added == p.date.months_left()
            &&& s.progress.months.take(p.months.len() as int) == p.months
            &&& s.result is Err ==> added < n
            &&& s.result == Ok::<bool, SimulationError>(false) ==> added == n && (n > 0
                ==> s.progress.months.last().balance != 0)
            &&& s.result == Ok::<bool, SimulationError>(true) ==> {
                ||| added > 0 && s.progress.months.last().balance == 0
                ||| added < n && everyone_dead(s.progress.date, h.input.retirees@) && (added > 0
                    ==> s.progress.months.last().balance != 0)
            }
        }),
    decreases n,
{
    assert(p.months.take(p.months.len() as int) == p.months);
    if n > 0 && !everyone_dead(p.date, h.input.retirees@) && month_error(h, p.date) is None {
        let q = after_month(h, p, yields);
        lemma_after_month_date(h, p, yields);
        assert(q.months.take(p.months.len() as int) == p.months);
        if q.balance != 0 {
            lemma_stretch_end(h, q, yields, (n - 1) as nat);
            let s = stretch(h, q, yields, (n - 1) as nat);
            assert(s.progress.months.take(p.months.len() as int) == s.progress.months.take(
                q.months.len() as int,
            ).take(p.months.len() as int));
            if s.progress.months.len() == q.months.len() {
                assert(s.progress.months.take(q.months.len() as int) == s.progress.months);
            }
        }
    }
}

} // verus!
