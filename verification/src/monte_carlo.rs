//! A scan over drawn returns: a fixed number of scenarios, each given one
//! draw of annual returns for every year it lasts.
//!
//! The draws come from outside: a scan is handed the function that draws and
//! calls it once for every year. Underneath, a run takes the draws one year
//! at a time and tells whether the scan is complete.
use vstd::prelude::*;
use crate::error::SimulationError;
use crate::input::Input;
use crate::portfolio::AnnualReturns;
use crate::scan::{
    add_scenario_to_results, lemma_equal_endings, lemma_successes_bound, sorting_infos,
    ScanResults, Scenario,
};
use crate::course::{lemma_stretch_end, lemma_stretch_outcome, outcome, stretch, uniform};
use crate::month::{household_of, start_progress, Household, Progress};
use crate::simulate::{expected_returns, records, Simulation};
use crate::utils::{today, Date};

verus! {

/// The number of scenarios of a scan.
pub const SCENARIOS: usize = 1000;

/// A scan over drawn returns.
#[derive(Clone, Copy, Debug)]
pub struct MonteCarloScan {}

/// A scan under way: the scenarios that are finished, and the one that is
/// being simulated, with the draws it has been given so far.
pub struct MonteCarloRun<'a> {
    pub input: &'a Input,
    pub start: Date,
    pub results: ScanResults,
    pub simulation: Simulation<'a>,
    pub drawn: Ghost<Seq<AnnualReturns>>,
}

/// `source` gives every month of the years that were drawn the draw of its year.
pub open spec fn follows(source: spec_fn(nat) -> AnnualReturns, drawn: Seq<AnnualReturns>)
    -> bool {
    forall|k: nat| k < 12 * drawn.len() ==> (#[trigger] source(k)) == drawn[k as int / 12]
}

/// A scenario that has been given the draws ends as `end`, whatever
/// returns its later years might have been given.
pub open spec fn ends_as(
    input: Input,
    start: Date,
    draws: Seq<AnnualReturns>,
    end: Result<Progress, SimulationError>,
) -> bool {
    forall|source: spec_fn(nat) -> AnnualReturns| #[trigger]
        follows(source, draws) ==> outcome(
            household_of(input),
            start_progress(input, start),
            source,
        ) == end
}

/// Every one of the draws is something that `draw` can hand out.
pub open spec fn drawn_by<F: Fn() -> AnnualReturns>(draw: F, draws: Seq<AnnualReturns>) -> bool {
    forall|j: int| 0 <= j < draws.len() ==> call_ensures(draw, (), #[trigger] draws[j])
}

/// `draw` can hand out nothing but `yields`.
pub open spec fn draws_only<F: Fn() -> AnnualReturns>(draw: F, yields: AnnualReturns) -> bool {
    forall|y: AnnualReturns| #[trigger] call_ensures(draw, (), y) ==> y == yields
}

/// `scenario` is the record of a simulation from `start` that ended after at
/// least one month, and has no years.
pub open spec fn scenario_of(input: Input, scenario: Scenario, p: Progress) -> bool {
    &&& p.months.len() > 0
    &&& records(scenario.simulation_results, household_of(input), p)
    &&& scenario.starting_year == 0
    &&& scenario.ending_year == 0
}

/// `scenario` is a scenario of a scan that `draw` gave its returns: there
/// are draws of `draw`, one for each of its years, under which the
/// simulation from `start` ends where the scenario records it.
pub open spec fn drawn_scenario<F: Fn() -> AnnualReturns>(
    draw: F,
    input: Input,
    start: Date,
    scenario: Scenario,
) -> bool {
    exists|draws: Seq<AnnualReturns>, p: Progress|
        {
            &&& drawn_by(draw, draws)
            &&& #[trigger] ends_as(input, start, draws, Ok(p))
            &&& scenario_of(input, scenario, p)
        }
}

/// `e` is the fault of a scenario that `draw` gave its returns: under draws
/// of `draw` the simulation from `start` fails with `e`, or it ends before
/// its first month and `e` says so.
pub open spec fn drawn_fault<F: Fn() -> AnnualReturns>(
    draw: F,
    input: Input,
    start: Date,
    e: SimulationError,
) -> bool {
    exists|draws: Seq<AnnualReturns>, end: Result<Progress, SimulationError>|
        {
            &&& drawn_by(draw, draws)
            &&& #[trigger] ends_as(input, start, draws, end)
            &&& match end {
                Ok(p) => p.months.len() == 0 && e == SimulationError::NothingSimulated,
                Err(fault) => e == fault,
            }
        }
}

/// `r` is what a scan comes to that `draw` gives its returns: the ranked
/// results of `SCENARIOS` scenarios, each a scenario under draws of `draw`;
/// or the fault of the first scenario that has one.
pub open spec fn scan_drawn<F: Fn() -> AnnualReturns>(
    draw: F,
    input: Input,
    start: Date,
    r: Result<ScanResults, SimulationError>,
) -> bool {
    match r {
        Ok(results) => {
            &&& results.ranked()
            &&& results.scenario_results@.len() == SCENARIOS
            &&& forall|i: int|
                0 <= i < results.scenario_results@.len() ==> drawn_scenario(
                    draw,
                    input,
                    start,
                    #[trigger] results.scenario_results@[i],
                )
        },
        Err(e) => drawn_fault(draw, input, start, e),
    }
}

/// `r` is the scan in which every scenario is the simulation from `start`
/// under the portfolio's expected returns, month after month: that
/// simulation `SCENARIOS` times over, ranked; or its error; or, where it
/// has no month, the error that says so.
pub open spec fn scan_of_expected_returns(
    input: Input,
    start: Date,
    r: Result<ScanResults, SimulationError>,
) -> bool {
    match outcome(
        household_of(input),
        start_progress(input, start),
        uniform(expected_returns(input)),
    ) {
        Ok(p) => if p.months.len() == 0 {
            r == Err::<ScanResults, SimulationError>(SimulationError::NothingSimulated)
        } else {
            &&& r is Ok
            &&& r.unwrap().ranked()
            &&& r.unwrap().scenario_results@.len() == SCENARIOS
            &&& forall|i: int|
                0 <= i < r.unwrap().scenario_results@.len() ==> scenario_of(
                    input,
                    #[trigger] r.unwrap().scenario_results@[i],
                    p,
                )
        },
        Err(e) => r == Err::<ScanResults, SimulationError>(e),
    }
}

impl MonteCarloScan {
    /// A scan over drawn returns.
    pub fn new() -> (r: Self) {
        MonteCarloScan {  }
    }

    /// Begins a scan for the household, with simulations that start on `start`.
    pub fn begin<'a>(&self, input: &'a Input, start: Date) -> (r: MonteCarloRun<'a>)
        requires
            input.valid(),
            start.valid(),
        ensures
            r.wf(),
            r.input == input,
            r.start == start,
            r.results.scenario_results@.len() == 0,
            r.drawn@.len() == 0,
            r.simulation.progress() == start_progress(*input, start),
    {
        MonteCarloRun {
            input,
            start,
            results: ScanResults::new(),
            simulation: Simulation::starting(input, start),
            drawn: Ghost(Seq::empty()),
        }
    }

    /// Runs the scan for simulations that start on `start`: `SCENARIOS`
    /// scenarios, each asking `draw` for the annual returns of every year it
    /// lasts, and ranks them. Stops at the first scenario that fails or has
    /// no month. Where `draw` hands out nothing but the portfolio's expected
    /// returns, the scan is the simulation under those returns, `SCENARIOS`
    /// times over.
    #[verifier::loop_isolation(false)]
    pub fn run_scan_from<F: Fn() -> AnnualReturns>(
        &self,
        input: &Input,
        start: Date,
        draw: F,
    ) -> (r: Result<ScanResults, SimulationError>)
        requires
            input.valid(),
            start.valid(),
            call_requires(draw, ()),
        ensures
            scan_drawn(draw, *input, start, r),
            draws_only(draw, expected_returns(*input)) ==> scan_of_expected_returns(
                *input,
                start,
                r,
            ),
    {
        let mut run: MonteCarloRun = self.begin(input, start);
        let ghost h = household_of(*input);
        let ghost begin = start_progress(*input, start);
        let ghost expected = expected_returns(*input);
        loop
            invariant
                run.wf(),
                !run.is_complete(),
                run.input == input,
                run.start == start,
                drawn_by(draw, run.drawn@),
                forall|i: int|
                    0 <= i < run.results.scenario_results@.len() ==> drawn_scenario(
                        draw,
                        *input,
                        start,
                        #[trigger] run.results.scenario_results@[i],
                    ),
                draws_only(draw, expected) ==> forall|i: int|
                    0 <= i < run.results.scenario_results@.len() ==> outcome(
                        h,
                        begin,
                        uniform(expected),
                    ) is Ok && scenario_of(
                        *input,
                        #[trigger] run.results.scenario_results@[i],
                        outcome(h, begin, uniform(expected)).unwrap(),
                    ),
            decreases
                    SCENARIOS - run.results.scenario_results@.len(),
                    run.simulation.current_date_.months_left(),
        {
            let yields: AnnualReturns = draw();
            let ghost before = run.results.scenario_results@;
            let ghost draws = run.drawn@.push(yields);
            let ghost year = stretch(h, run.simulation.progress(), yields, 12);
            proof {
                lemma_stretch_end(h, run.simulation.progress(), yields, 12);
                assert(drawn_by(draw, draws)) by {
                    assert forall|j: int| 0 <= j < draws.len() implies call_ensures(
                        draw,
                        (),
                        #[trigger] draws[j],
                    ) by {
                        if j < run.drawn@.len() {
                            assert(draws[j] == run.drawn@[j]);
                        }
                    }
                }
                if draws_only(draw, expected) {
                    assert forall|j: int| 0 <= j < draws.len() implies (#[trigger] draws[j])
                        == expected by {
                        assert(call_ensures(draw, (), draws[j]));
                    }
                }
            }
            match run.supply_year(yields.us_equity, yields.international, yields.bonds) {
                Err(e) => {
                    proof {
                        let end: Result<Progress, SimulationError> = match year.result {
                            Ok(finished) => Ok(year.progress),
                            Err(fault) => Err(fault),
                        };
                        assert(ends_as(*input, start, draws, end));
                        if draws_only(draw, expected) {
                            lemma_expected_draws_are_uniform(*input, start, draws, end);
                        }
                    }
                    return Err(e);
                },
                Ok(complete) => {
                    proof {
                        if year.result == Ok::<bool, SimulationError>(true) {
                            let after = run.results.scenario_results@;
                            assert(ends_as(*input, start, draws, Ok(year.progress)));
                            assert(scenario_of(*input, after.last(), year.progress));
                            assert(drawn_scenario(draw, *input, start, after.last()));
                            if draws_only(draw, expected) {
                                lemma_expected_draws_are_uniform(
                                    *input,
                                    start,
                                    draws,
                                    Ok(year.progress),
                                );
                            }
                            assert forall|i: int| 0 <= i < after.len() - 1 implies (
                            #[trigger] after[i]) == before[i] by {
                                assert(after.drop_last()[i] == before[i]);
                            }
                        }
                    }
                    if complete {
                        return Ok(run.into_results());
                    }
                },
            }
        }
    }

    /// Runs the scan for simulations that start today, asking `draw` for the
    /// annual returns of every year of every scenario.
    pub fn run_scan<F: Fn() -> AnnualReturns>(&mut self, input: &Input, draw: F) -> (r: Result<
        ScanResults,
        SimulationError,
    >)
        requires
            input.valid(),
            call_requires(draw, ()),
        ensures
            exists|start: Date|
                {
                    &&& start.valid()
                    &&& #[trigger] scan_drawn(draw, *input, start, r)
                    &&& draws_only(draw, expected_returns(*input)) ==> scan_of_expected_returns(
                        *input,
                        start,
                        r,
                    )
                },
    {
        let start: Date = today();
        self.run_scan_from(input, start, draw)
    }
}

impl<'a> MonteCarloRun<'a> {
    /// Every scenario of the scan is finished.
    pub open spec fn is_complete(&self) -> bool {
        self.results.scenario_results@.len() == SCENARIOS
    }

    /// The run is one of its household: the scenario under way is a
    /// simulation of it that has had twelve months of each draw, so that it
    /// ends as every simulation from `start` ends whose returns follow the
    /// draws; and the finished scenarios are counted, and ranked once they
    /// are complete.
    pub open spec fn wf(&self) -> bool {
        &&& self.input.valid()
        &&& self.start.valid()
        &&& self.simulation.wf()
        &&& self.simulation.household() == household_of(*self.input)
        &&& self.results.scenario_results@.len() <= SCENARIOS
        &&& if self.is_complete() {
            self.results.ranked()
        } else {
            self.results.tallied()
        }
        &&& self.simulation.progress().months.len() == 12 * self.drawn@.len()
        &&& forall|source: spec_fn(nat) -> AnnualReturns| #[trigger]
            follows(source, self.drawn@) ==> outcome(
                household_of(*self.input),
                start_progress(*self.input, self.start),
                source,
            ) == outcome(household_of(*self.input), self.simulation.progress(), source)
    }

    /// Whether every scenario of the scan is finished.
    pub fn complete(&self) -> (r: bool)
        ensures
            r == self.is_complete(),
    {
        self.results.scenario_results.len() == SCENARIOS
    }

    /// Gives the scenario under way the annual returns of its next year and
    /// simulates that year. Where the year ends the scenario, the scenario
    /// is added to the results and the next one begun, or, after the last
    /// one, the results are ranked. Returns whether the scan is complete.
    /// After an error the run is of no further use.
    pub fn supply_year(
        &mut self,
        us_equity_returns: i32,
        international_equity_returns: i32,
        bonds_returns: i32,
    ) -> (r: Result<bool, SimulationError>)
        requires
            old(self).wf(),
            !old(self).is_complete(),
        ensures
            r is Ok ==> final(self).wf(),
            final(self).input == old(self).input,
            final(self).start == old(self).start,
            ({
                let h = household_of(*old(self).input);
                let begin = start_progress(*old(self).input, old(self).start);
                let yields = AnnualReturns {
                    us_equity: us_equity_returns,
                    international: international_equity_returns,
                    bonds: bonds_returns,
                };
                let year = stretch(h, old(self).simulation.progress(), yields, 12);
                let draws = old(self).drawn@.push(yields);
                match year.result {
                    Ok(false) => {
                        &&& r == Ok::<bool, SimulationError>(false)
                        &&& final(self).results == old(self).results
                        &&& final(self).simulation.progress() == year.progress
                        &&& final(self).drawn@ == draws
                    },
                    Err(e) => {
                        &&& r == Err::<bool, SimulationError>(e)
                        &&& final(self).results == old(self).results
                        &&& final(self).simulation.progress() == year.progress
                        &&& final(self).drawn@ == old(self).drawn@
                        &&& ends_as(*old(self).input, old(self).start, draws, Err(e))
                    },
                    Ok(true) => if year.progress.months.len() == 0 {
                        &&& r == Err::<bool, SimulationError>(SimulationError::NothingSimulated)
                        &&& final(self).results == old(self).results
                        &&& final(self).simulation.progress() == year.progress
                        &&& final(self).drawn@ == old(self).drawn@
                        &&& ends_as(*old(self).input, old(self).start, draws, Ok(year.progress))
                    } else {
                        &&& r == Ok::<bool, SimulationError>(final(self).is_complete())
                        &&& final(self).results.scenario_results@.len()
                            == old(self).results.scenario_results@.len() + 1
                        &&& final(self).results.scenario_results@.drop_last()
                            == old(self).results.scenario_results@
                        &&& records(
                            final(self).results.scenario_results@.last().simulation_results,
                            h,
                            year.progress,
                        )
                        &&& final(self).results.scenario_results@.last().starting_year == 0
                        &&& final(self).results.scenario_results@.last().ending_year == 0
                        &&& ends_as(*old(self).input, old(self).start, draws, Ok(year.progress))
                        &&& final(self).simulation.progress() == begin
                        &&& final(self).drawn@.len() == 0
                    },
                }
            }),
    {
        let ghost h: Household = household_of(*self.input);
        let ghost begin = start_progress(*self.input, self.start);
        let ghost before = self.simulation.progress();
        let ghost yields = AnnualReturns {
            us_equity: us_equity_returns,
            international: international_equity_returns,
            bonds: bonds_returns,
        };
        let ghost draws = self.drawn@.push(yields);
        let ghost year = stretch(h, before, yields, 12);
        proof {
            lemma_stretch_end(h, before, yields, 12);
            assert forall|source: spec_fn(nat) -> AnnualReturns| #[trigger]
                follows(source, draws) implies outcome(h, begin, source) == (match year.result {
                Ok(true) => Ok(year.progress),
                Ok(false) => outcome(h, year.progress, source),
                Err(e) => Err(e),
            }) by {
                assert forall|k: nat| k < 12 * self.drawn@.len() implies (#[trigger] source(k))
                    == self.drawn@[k as int / 12] by {
                    assert(draws[k as int / 12] == self.drawn@[k as int / 12]);
                }
                assert(follows(source, self.drawn@));
                assert forall|k: nat| before.months.len() <= k < before.months.len()
                    + 12 implies (#[trigger] source(k)) == yields by {
                    assert(k as int / 12 == self.drawn@.len());
                    assert(draws[k as int / 12] == yields);
                }
                lemma_stretch_outcome(h, before, source, yields, 12);
            }
        }
        match self.simulation.run_year(
            us_equity_returns,
            international_equity_returns,
            bonds_returns,
        ) {
            Err(e) => Err(e),
            Ok(false) => {
                proof {
                    self.drawn@ = draws;
                }
                Ok(false)
            },
            Ok(true) => {
                if self.simulation.simulation_results_.monthly_snapshot.len() == 0 {
                    return Err(SimulationError::NothingSimulated);
                }
                let mut finished: Simulation<'a> = Simulation::starting(self.input, self.start);
                std::mem::swap(&mut self.simulation, &mut finished);
                let index: usize = self.results.scenario_results.len();
                proof {
                    lemma_successes_bound(sorting_infos(self.results.scenario_results@));
                    self.drawn@ = Seq::empty();
                }
                add_scenario_to_results(
                    &mut self.results,
                    Scenario {
                        simulation_results: finished.simulation_results_,
                        starting_year: 0,
                        ending_year: 0,
                    },
                    index,
                );
                if self.results.scenario_results.len() == SCENARIOS {
                    self.results.sort_results();
                    Ok(true)
                } else {
                    Ok(false)
                }
            },
        }
    }

    /// The results of the scan.
    pub fn into_results(self) -> (r: ScanResults)
        requires
            self.wf(),
            self.is_complete(),
        ensures
            r == self.results,
            r.ranked(),
            r.scenario_results@.len() == SCENARIOS,
    {
        self.results
    }
}

/// A scenario all of whose draws are the portfolio's expected returns ends as
/// the simulation under those returns ends.
pub proof fn lemma_expected_draws_are_uniform(
    input: Input,
    start: Date,
    draws: Seq<AnnualReturns>,
    end: Result<Progress, SimulationError>,
)
    requires
        forall|i: int| 0 <= i < draws.len() ==> (#[trigger] draws[i]) == expected_returns(input),
        ends_as(input, start, draws, end),
    ensures
        follows(uniform(expected_returns(input)), draws),
        outcome(
            household_of(input),
            start_progress(input, start),
            uniform(expected_returns(input)),
        ) == end,
{
    let source = uniform(expected_returns(input));
    assert forall|k: nat| k < 12 * draws.len() implies (#[trigger] source(k)) == draws[k as int
        / 12] by {
        assert(draws[k as int / 12] == expected_returns(input));
    }
    assert(follows(source, draws));
}

/// In the scan of the expected returns every scenario ends with the balance
/// that the simulation under those returns ends with: where that balance is
/// above zero, it is the lowest and the highest of the scan and every
/// scenario is a success; where it is zero, none is.
pub proof fn lemma_scan_of_expected_returns_extremes(
    input: Input,
    start: Date,
    results: ScanResults,
)
    requires
        scan_of_expected_returns(input, start, Ok(results)),
    ensures
        ({
            let p = outcome(
                household_of(input),
                start_progress(input, start),
                uniform(expected_returns(input)),
            ).unwrap();
            let balance = p.months.last().balance;
            &&& results.num_simulations == SCENARIOS
            &&& results.max_balance == balance
            &&& balance > 0 ==> results.min_balance == balance && results.num_successful
                == SCENARIOS
            &&& balance == 0 ==> results.min_balance == u64::MAX && results.num_successful == 0
        }),
{
    let p = outcome(
        household_of(input),
        start_progress(input, start),
        uniform(expected_returns(input)),
    ).unwrap();
    let infos = sorting_infos(results.scenario_results@);
    assert forall|i: int| 0 <= i < infos.len() implies (#[trigger] infos[i]).ending_balance
        == p.months.last().balance by {
        assert(scenario_of(input, results.scenario_results@[i], p));
    }
    lemma_equal_endings(infos, p.months.last().balance);
}

} // verus!
