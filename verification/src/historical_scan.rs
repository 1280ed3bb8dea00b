//! A scan over recorded history: one scenario for every recorded year, each
//! replaying the years from its own on and starting over at the first year
//! after the last.
use vstd::prelude::*;
use crate::error::SimulationError;
use crate::input::Input;
use crate::portfolio::AnnualReturns;
use crate::scan::{add_scenario_to_results, ScanResults, Scannable, Scenario};
use crate::course::{lemma_stretch_end, lemma_stretch_outcome, outcome};
use crate::month::{household_of, start_progress, Progress};
use crate::simulate::{records, Simulation};
use crate::units::{div_floor, lemma_mod_successor, lemma_quotient_between};
use crate::utils::{today, Date};

verus! {

/// The real returns of one year, in parts per million.
#[derive(Clone, Copy, Debug, PartialEq, Eq)]
pub struct HistoricalReturnsOneYear {
    pub year: u32,
    pub inflation: i32,
    pub sp500return: i32,
    pub tbill3month: i32,
    pub tbill10year: i32,
    pub corp_bonds: i32,
    pub real_estate: i32,
    pub international: Option<i32>,
}

impl Default for HistoricalReturnsOneYear {
    /// A year that records nothing.
    fn default() -> (r: Self)
        ensures
            r == averages_of(Seq::empty()),
    {
        HistoricalReturnsOneYear {
            year: 0,
            inflation: 0,
            sp500return: 0,
            tbill3month: 0,
            tbill10year: 0,
            corp_bonds: 0,
            real_estate: 0,
            international: None,
        }
    }
}

/// The recorded years in the order of time, and their averages.
#[derive(Clone, Debug)]
pub struct HistoricalReturns {
    pub annual_returns: Vec<HistoricalReturnsOneYear>,
    pub averages: HistoricalReturnsOneYear,
}

/// A scan over recorded history.
#[derive(Clone, Debug)]
pub struct HistoricalScan {
    pub historical_returns: HistoricalReturns,
}

/// One of the series that a year of history records.
pub enum Series {
    Inflation,
    Sp500,
    Tbill3Month,
    Tbill10Year,
    CorpBonds,
    RealEstate,
    International,
    InternationalCount,
}

/// What a year records in a series: for the international return nothing
/// counts as zero, and the count is one where it is recorded.
pub open spec fn reading(year: HistoricalReturnsOneYear, series: Series) -> int {
    match series {
        Series::Inflation => year.inflation as int,
        Series::Sp500 => year.sp500return as int,
        Series::Tbill3Month => year.tbill3month as int,
        Series::Tbill10Year => year.tbill10year as int,
        Series::CorpBonds => year.corp_bonds as int,
        Series::RealEstate => year.real_estate as int,
        Series::International => match year.international {
            Some(v) => v as int,
            None => 0,
        },
        Series::InternationalCount => match year.international {
            Some(v) => 1,
            None => 0,
        },
    }
}

/// The sum of a series over the first `n` years.
pub open spec fn total(years: Seq<HistoricalReturnsOneYear>, series: Series, n: int) -> int
    decreases n,
{
    if n <= 0 {
        0
    } else {
        total(years, series, n - 1) + reading(years[n - 1], series)
    }
}

/// The mean of a series over all the years, rounded down.
pub open spec fn mean(years: Seq<HistoricalReturnsOneYear>, series: Series) -> int {
    total(years, series, years.len() as int) / (years.len() as int)
}

/// The averages of the recorded years: of no years, nothing at all; else the
/// mean of each series, the international return over the years that record
/// it (zero where none does).
pub open spec fn averages_of(years: Seq<HistoricalReturnsOneYear>) -> HistoricalReturnsOneYear {
    if years.len() == 0 {
        HistoricalReturnsOneYear {
            year: 0,
            inflation: 0,
            sp500return: 0,
            tbill3month: 0,
            tbill10year: 0,
            corp_bonds: 0,
            real_estate: 0,
            international: None,
        }
    } else {
        let recorded = total(years, Series::InternationalCount, years.len() as int);
        HistoricalReturnsOneYear {
            year: 0,
            inflation: mean(years, Series::Inflation) as i32,
            sp500return: mean(years, Series::Sp500) as i32,
            tbill3month: mean(years, Series::Tbill3Month) as i32,
            tbill10year: mean(years, Series::Tbill10Year) as i32,
            corp_bonds: mean(years, Series::CorpBonds) as i32,
            real_estate: mean(years, Series::RealEstate) as i32,
            international: Some(
                if recorded > 0 {
                    (total(years, Series::International, years.len() as int) / recorded) as i32
                } else {
                    0
                },
            ),
        }
    }
}

/// The annual returns that a simulation takes from a year of history: the
/// S&P 500 for domestic equity, the ten-year treasury for bonds, and for
/// international equity its own return or, where none is recorded, the S&P 500.
pub open spec fn returns_of(year: HistoricalReturnsOneYear) -> AnnualReturns {
    AnnualReturns {
        us_equity: year.sp500return,
        international: match year.international {
            Some(v) => v,
            None => year.sp500return,
        },
        bonds: year.tbill10year,
    }
}

/// The returns of each month of a scenario that starts with the year at
/// `starting_index`: twelve months of each year, and after the last year the
/// first again.
pub open spec fn replay(years: Seq<HistoricalReturnsOneYear>, starting_index: int) -> spec_fn(
    nat,
) -> AnnualReturns {
    |k: nat| returns_of(years[(starting_index + k / 12) % (years.len() as int)])
}

/// The index of the year a scenario ended in: the year of its last month
/// where that month emptied the portfolio, else the year of the month that
/// would have come next.
pub open spec fn ending_index(years: int, starting_index: int, p: Progress) -> int {
    let months = p.months.len() as int;
    let past = if months > 0 && p.months.last().balance == 0 {
        (months - 1) / 12
    } else {
        months / 12
    };
    (starting_index + past) % years
}

/// `r` is what the scenario that starts with the year at `starting_index`
/// comes to for a household whose simulation starts on `start`.
pub open spec fn replayed(
    years: Seq<HistoricalReturnsOneYear>,
    starting_index: int,
    input: Input,
    start: Date,
    r: Result<Scenario, SimulationError>,
) -> bool {
    match outcome(
        household_of(input),
        start_progress(input, start),
        replay(years, starting_index),
    ) {
        Ok(p) => {
            &&& r is Ok
            &&& records(r.unwrap().simulation_results, household_of(input), p)
            &&& r.unwrap().starting_year == years[starting_index].year
            &&& r.unwrap().ending_year == years[ending_index(
                years.len() as int,
                starting_index,
                p,
            )].year
        },
        Err(e) => r == Err::<Scenario, SimulationError>(e),
    }
}

/// Why the scenario that starts with the year at `starting_index` cannot be
/// added to a scan, if it cannot: its simulation fails, or it has no month.
pub open spec fn scenario_fault(
    years: Seq<HistoricalReturnsOneYear>,
    starting_index: int,
    input: Input,
    start: Date,
) -> Option<SimulationError> {
    match outcome(
        household_of(input),
        start_progress(input, start),
        replay(years, starting_index),
    ) {
        Ok(p) => if p.months.len() == 0 {
            Some(SimulationError::NothingSimulated)
        } else {
            None
        },
        Err(e) => Some(e),
    }
}

/// `r` is what the scan over `years` comes to for a household whose
/// simulations start on `start`: the ranked results of one scenario for each
/// year, in the order of the years; or the fault of the first scenario that has one.
pub open spec fn scanned(
    years: Seq<HistoricalReturnsOneYear>,
    input: Input,
    start: Date,
    r: Result<ScanResults, SimulationError>,
) -> bool {
    match r {
        Ok(results) => {
            &&& forall|i: int|
                0 <= i < years.len() ==> #[trigger] scenario_fault(years, i, input, start) is None
            &&& results.scenario_results@.len() == years.len()
            &&& forall|i: int|
                0 <= i < years.len() ==> replayed(
                    years,
                    i,
                    input,
                    start,
                    Ok(#[trigger] results.scenario_results@[i]),
                )
            &&& results.ranked()
        },
        Err(e) => exists|i: int|
            {
                &&& 0 <= i < years.len()
                &&& #[trigger] scenario_fault(years, i, input, start) == Some(e)
                &&& forall|j: int|
                    0 <= j < i ==> #[trigger] scenario_fault(years, j, input, start) is None
            },
    }
}

/// A scenario ends in one of the recorded years, whichever year it starts with.
pub proof fn lemma_ending_index_in_range(years: int, starting_index: int, p: Progress)
    requires
        0 < years,
    ensures
        0 <= ending_index(years, starting_index, p) < years,
{
    let months = p.months.len() as int;
    let past = if months > 0 && p.months.last().balance == 0 {
        (months - 1) / 12
    } else {
        months / 12
    };
    lemma_mod_successor(starting_index + past, years);
}

/// The scenario that starts with the last recorded year goes on with the
/// first: its second year of months has the returns of the year at index 0.
pub proof fn lemma_replay_starts_over(years: Seq<HistoricalReturnsOneYear>, k: nat)
    requires
        years.len() > 0,
        12 <= k < 24,
    ensures
        replay(years, years.len() - 1)(k) == returns_of(years[0]),
{
    assert(k / 12 == 1);
    vstd::arithmetic::div_mod::lemma_mod_self_0(years.len() as int);
}

/// The mean of the given sum over `count` items, rounded down, as a reading.
fn mean_of(sum: i128, count: usize) -> (r: i32)
    requires
        count > 0,
        -0x8000_0000 * count <= sum <= 0x7fff_ffff * count,
    ensures
        r == (sum as int) / (count as int),
{
    proof {
        lemma_quotient_between(sum as int, count as int, -0x8000_0000, 0x7fff_ffff);
    }
    let quotient: i128 = div_floor(sum, count as u64);
    quotient as i32
}

/// The averages of the recorded years.
pub fn calculate_averages(years: &Vec<HistoricalReturnsOneYear>) -> (r: HistoricalReturnsOneYear)
    ensures
        r == averages_of(years@),
{
    let count: usize = years.len();
    let mut inflation: i128 = 0;
    let mut sp500return: i128 = 0;
    let mut tbill3month: i128 = 0;
    let mut tbill10year: i128 = 0;
    let mut corp_bonds: i128 = 0;
    let mut real_estate: i128 = 0;
    let mut international: i128 = 0;
    let mut international_count: usize = 0;
    let mut i: usize = 0;
    while i < count
        invariant
            0 <= i <= count,
            count == years@.len(),
            inflation == total(years@, Series::Inflation, i as int),
            sp500return == total(years@, Series::Sp500, i as int),
            tbill3month == total(years@, Series::Tbill3Month, i as int),
            tbill10year == total(years@, Series::Tbill10Year, i as int),
            corp_bonds == total(years@, Series::CorpBonds, i as int),
            real_estate == total(years@, Series::RealEstate, i as int),
            international == total(years@, Series::International, i as int),
            international_count == total(years@, Series::InternationalCount, i as int),
            -0x8000_0000 * international_count <= international <= 0x7fff_ffff
                * international_count,
            international_count <= i,
            -0x8000_0000 * i <= inflation <= 0x7fff_ffff * i,
            -0x8000_0000 * i <= sp500return <= 0x7fff_ffff * i,
            -0x8000_0000 * i <= tbill3month <= 0x7fff_ffff * i,
            -0x8000_0000 * i <= tbill10year <= 0x7fff_ffff * i,
            -0x8000_0000 * i <= corp_bonds <= 0x7fff_ffff * i,
            -0x8000_0000 * i <= real_estate <= 0x7fff_ffff * i,
        decreases count - i,
    {
        let year: &HistoricalReturnsOneYear = &years[i];
        inflation = inflation + year.inflation as i128;
        sp500return = sp500return + year.sp500return as i128;
        tbill3month = tbill3month + year.tbill3month as i128;
        tbill10year = tbill10year + year.tbill10year as i128;
        corp_bonds = corp_bonds + year.corp_bonds as i128;
        real_estate = real_estate + year.real_estate as i128;
        match year.international {
            Some(v) => {
                international = international + v as i128;
                international_count = international_count + 1;
            },
            None => {},
        }
        i = i + 1;
    }
    if count == 0 {
        return HistoricalReturnsOneYear::default();
    }
    let mean_international: i32 = if international_count > 0 {
        mean_of(international, international_count)
    } else {
        0
    };
    HistoricalReturnsOneYear {
        year: 0,
        inflation: mean_of(inflation, count),
        sp500return: mean_of(sp500return, count),
        tbill3month: mean_of(tbill3month, count),
        tbill10year: mean_of(tbill10year, count),
        corp_bonds: mean_of(corp_bonds, count),
        real_estate: mean_of(real_estate, count),
        international: Some(mean_international),
    }
}

impl HistoricalScan {
    /// A scan over the given years, which come in the order of time.
    pub fn new(annual_returns: Vec<HistoricalReturnsOneYear>) -> (r: Self)
        ensures
            r.historical_returns.annual_returns == annual_returns,
            r.historical_returns.averages == averages_of(annual_returns@),
    {
        let averages: HistoricalReturnsOneYear = calculate_averages(&annual_returns);
        HistoricalScan { historical_returns: HistoricalReturns { annual_returns, averages } }
    }

    /// Runs the scenario that starts with the year at `starting_index`, for a
    /// simulation that starts on `start`.
    #[verifier::loop_isolation(false)]
    pub fn run_scenario_from(&self, starting_index: usize, input: &Input, start: Date) -> (r:
        Result<Scenario, SimulationError>)
        requires
            input.valid(),
            start.valid(),
            starting_index < self.historical_returns.annual_returns@.len(),
        ensures
            replayed(
                self.historical_returns.annual_returns@,
                starting_index as int,
                *input,
                start,
                r,
            ),
    {
        let years: &Vec<HistoricalReturnsOneYear> = &self.historical_returns.annual_returns;
        let mut simulation: Simulation = Simulation::starting(input, start);
        let mut index: usize = starting_index;
        let ghost source = replay(years@, starting_index as int);
        let ghost h = household_of(*input);
        let ghost begin = start_progress(*input, start);
        let ghost mut past: int = 0;
        let mut finished: bool = false;
        proof {
            vstd::arithmetic::div_mod::lemma_small_mod(starting_index as nat, years@.len());
        }
        while !finished
            invariant
                simulation.wf(),
                simulation.household() == h,
                0 <= past,
                index < years@.len(),
                index == (starting_index + past) % (years@.len() as int),
                !finished ==> {
                    &&& simulation.progress().months.len() == 12 * past
                    &&& outcome(h, begin, source) == outcome(h, simulation.progress(), source)
                    &&& past > 0 ==> simulation.progress().months.last().balance != 0
                },
                finished ==> {
                    &&& outcome(h, begin, source) == Ok::<Progress, SimulationError>(
                        simulation.progress(),
                    )
                    &&& index == ending_index(
                        years@.len() as int,
                        starting_index as int,
                        simulation.progress(),
                    )
                },
            decreases
                simulation.current_date_.months_left() + (if finished {
                    0nat
                } else {
                    1nat
                }),
        {
            let year: &HistoricalReturnsOneYear = &years[index];
            let international: i32 = match year.international {
                Some(v) => v,
                None => year.sp500return,
            };
            proof {
                let p = simulation.progress();
                assert forall|k: nat|
                    p.months.len() <= k < p.months.len() + 12 implies (#[trigger] source(k))
                    == returns_of(*year) by {
                    assert(k / 12 == past);
                }
                lemma_stretch_outcome(h, p, source, returns_of(*year), 12);
                lemma_stretch_end(h, p, returns_of(*year), 12);
            }
            match simulation.run_year(year.sp500return, international, year.tbill10year) {
                Ok(done) => {
                    if done {
                        finished = true;
                    } else {
                        proof {
                            lemma_mod_successor(starting_index + past, years@.len() as int);
                            past = past + 1;
                        }
                        index = if index == years.len() - 1 {
                            0
                        } else {
                            index + 1
                        };
                    }
                },
                Err(e) => {
                    return Err(e);
                },
            }
        }
        Ok(
            Scenario {
                simulation_results: simulation.simulation_results_,
                starting_year: years[starting_index].year,
                ending_year: years[index].year,
            },
        )
    }

    /// Runs the scenario that starts with the year at `starting_index` and
    /// finds the fault that keeps it out of a scan, if it has one.
    fn run_scenario_for_scan(&self, starting_index: usize, input: &Input, start: Date) -> (r:
        Result<Scenario, SimulationError>)
        requires
            input.valid(),
            start.valid(),
            starting_index < self.historical_returns.annual_returns@.len(),
        ensures
            match r {
                Ok(scenario) => {
                    &&& scenario_fault(
                        self.historical_returns.annual_returns@,
                        starting_index as int,
                        *input,
                        start,
                    ) is None
                    &&& replayed(
                        self.historical_returns.annual_returns@,
                        starting_index as int,
                        *input,
                        start,
                        Ok(scenario),
                    )
                    &&& scenario.simulation_results.monthly_snapshot@.len() > 0
                },
                Err(e) => scenario_fault(
                    self.historical_returns.annual_returns@,
                    starting_index as int,
                    *input,
                    start,
                ) == Some(e),
            },
    {
        match self.run_scenario_from(starting_index, input, start) {
            Ok(scenario) => {
                if scenario.simulation_results.monthly_snapshot.len() == 0 {
                    Err(SimulationError::NothingSimulated)
                } else {
                    Ok(scenario)
                }
            },
            Err(e) => Err(e),
        }
    }

    /// Runs one scenario for every recorded year, each for a simulation that
    /// starts on `start`, and ranks them. Stops at the first scenario that
    /// fails or has no month.
    pub fn run_scan_from(&self, input: &Input, start: Date) -> (r: Result<
        ScanResults,
        SimulationError,
    >)
        requires
            input.valid(),
            start.valid(),
            self.historical_returns.annual_returns@.len() <= u32::MAX,
        ensures
            scanned(self.historical_returns.annual_returns@, *input, start, r),
    {
        let ghost years = self.historical_returns.annual_returns@;
        let mut results: ScanResults = ScanResults::new();
        let mut index: usize = 0;
        while index < self.historical_returns.annual_returns.len()
            invariant
                input.valid(),
                start.valid(),
                years == self.historical_returns.annual_returns@,
                years.len() <= u32::MAX,
                0 <= index <= years.len(),
                results.tallied(),
                results.scenario_results@.len() == index,
                forall|i: int|
                    0 <= i < index ==> #[trigger] scenario_fault(years, i, *input, start) is None,
                forall|i: int|
                    0 <= i < index ==> replayed(
                        years,
                        i,
                        *input,
                        start,
                        Ok(#[trigger] results.scenario_results@[i]),
                    ),
            decreases years.len() - index,
        {
            let scenario: Scenario = match self.run_scenario_for_scan(index, input, start) {
                Ok(scenario) => scenario,
                Err(e) => {
                    assert(scanned(years, *input, start, Err(e))) by {
                        assert(scenario_fault(years, index as int, *input, start) == Some(e));
                    }
                    return Err(e);
                },
            };
            proof {
                crate::scan::lemma_successes_bound(crate::scan::sorting_infos(
                    results.scenario_results@,
                ));
            }
            let ghost before = results.scenario_results@;
            add_scenario_to_results(&mut results, scenario, index);
            assert forall|i: int| 0 <= i < index + 1 implies replayed(
                years,
                i,
                *input,
                start,
                Ok(#[trigger] results.scenario_results@[i]),
            ) by {
                if i < index {
                    assert(results.scenario_results@[i] == before[i]);
                }
            }
            index = index + 1;
        }
        results.sort_results();
        Ok(results)
    }
}

impl Scannable for HistoricalScan {
    /// The household is valid, and the years are no more than can be counted.
    open spec fn can_scan(&self, input: Input) -> bool {
        input.valid() && self.historical_returns.annual_returns@.len() <= u32::MAX
    }

    /// Runs the scan for simulations that start today.
    fn run_scan(&mut self, input: &Input) -> (r: Result<ScanResults, SimulationError>)
        ensures
            final(self).historical_returns == old(self).historical_returns,
            exists|start: Date|
                start.valid() && #[trigger] scanned(
                    old(self).historical_returns.annual_returns@,
                    *input,
                    start,
                    r,
                ),
    {
        let start: Date = today();
        self.run_scan_from(input, start)
    }
}

} // verus!
