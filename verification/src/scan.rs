//! What a scan collects: the scenarios it ran, how many of them ended with
//! money left, the lowest and the highest balance left, and the scenarios'
//! ranking from worst to best.
use vstd::prelude::*;
use crate::error::SimulationError;
use crate::input::Input;
use crate::simulate::SimulationResults;
use crate::sorting::{
    is_sorted, lemma_sorted_is_permutation, lemma_sorted_is_sorted, lemma_sorting_is_idempotent,
    lemma_sorting_sorted_is_identity, rank_le, sort_stably, stably_sorted, Ranked,
};

verus! {

/// One simulation of a scan, with the years its returns began and ended in
/// (zero where the returns have no years).
#[derive(Clone, Debug)]
pub struct Scenario {
    pub simulation_results: SimulationResults,
    pub starting_year: u32,
    pub ending_year: u32,
}

/// What a scenario is ranked by, and the index it is found under.
#[derive(Clone, Copy, Debug, PartialEq, Eq, Structural)]
pub struct ScenarioSortingInfo {
    pub index: usize,
    pub num_months: usize,
    pub ending_balance: u64,
}

/// The results of all the scenarios of a scan.
#[derive(Clone, Debug)]
pub struct ScanResults {
    pub scenario_results: Vec<Scenario>,
    pub num_simulations: u32,
    pub num_successful: u32,
    pub min_balance: u64,
    pub max_balance: u64,
    pub sorted_indices: Vec<usize>,
    pub sorting_info: Vec<ScenarioSortingInfo>,
}

impl Ranked for ScenarioSortingInfo {
    /// Fewer months survived rank lower; among equal months the lower balance.
    open spec fn rank(&self) -> (int, int) {
        (self.num_months as int, self.ending_balance as int)
    }

    fn ranks_above(&self, other: &Self) -> (r: bool) {
        self.num_months > other.num_months || (self.num_months == other.num_months
            && self.ending_balance > other.ending_balance)
    }
}

impl Scenario {
    /// The balance at the end of the scenario's last month.
    pub open spec fn ending_balance(&self) -> u64 {
        self.simulation_results.monthly_snapshot@.last().balance
    }

    /// What the scenario is ranked by when it is found under `index`.
    pub open spec fn sorting_info(&self, index: int) -> ScenarioSortingInfo {
        ScenarioSortingInfo {
            index: index as usize,
            num_months: self.simulation_results.monthly_snapshot@.len() as usize,
            ending_balance: self.ending_balance(),
        }
    }
}

/// How many of the scenarios ended with money left.
pub open spec fn successes(infos: Seq<ScenarioSortingInfo>) -> nat
    decreases infos.len(),
{
    if infos.len() == 0 {
        0
    } else {
        successes(infos.drop_last()) + (if infos.last().ending_balance > 0 {
            1nat
        } else {
            0nat
        })
    }
}

/// The lowest balance left by a scenario that ended with money left;
/// `u64::MAX` where none did.
pub open spec fn lowest_balance(infos: Seq<ScenarioSortingInfo>) -> u64
    decreases infos.len(),
{
    if infos.len() == 0 {
        u64::MAX
    } else {
        let rest = lowest_balance(infos.drop_last());
        let balance = infos.last().ending_balance;
        if 0 < balance < rest {
            balance
        } else {
            rest
        }
    }
}

/// The highest balance left by a scenario; zero where there is none.
pub open spec fn highest_balance(infos: Seq<ScenarioSortingInfo>) -> u64
    decreases infos.len(),
{
    if infos.len() == 0 {
        0
    } else {
        let rest = highest_balance(infos.drop_last());
        let balance = infos.last().ending_balance;
        if balance > rest {
            balance
        } else {
            rest
        }
    }
}

/// The indices that the given entries are found under, in the entries' order.
pub open spec fn indices(infos: Seq<ScenarioSortingInfo>) -> Seq<usize> {
    Seq::new(infos.len(), |i: int| infos[i].index)
}

/// What the scenarios are ranked by, each found under its position.
pub open spec fn sorting_infos(scenarios: Seq<Scenario>) -> Seq<ScenarioSortingInfo> {
    Seq::new(scenarios.len(), |i: int| scenarios[i].sorting_info(i))
}

/// No more scenarios ended with money left than there are scenarios.
pub proof fn lemma_successes_bound(infos: Seq<ScenarioSortingInfo>)
    ensures
        successes(infos) <= infos.len(),
    decreases infos.len(),
{
    if infos.len() > 0 {
        lemma_successes_bound(infos.drop_last());
    }
}

/// Where every scenario ended with the same balance, that balance is the
/// lowest and the highest, and all or none of the scenarios succeeded.
pub proof fn lemma_equal_endings(infos: Seq<ScenarioSortingInfo>, balance: u64)
    requires
        forall|i: int| 0 <= i < infos.len() ==> (#[trigger] infos[i]).ending_balance == balance,
    ensures
        successes(infos) == (if balance > 0 {
            infos.len()
        } else {
            0
        }),
        lowest_balance(infos) == (if balance > 0 && infos.len() > 0 {
            balance
        } else {
            u64::MAX
        }),
        highest_balance(infos) == (if infos.len() > 0 {
            balance
        } else {
            0
        }),
    decreases infos.len(),
{
    if infos.len() > 0 {
        let rest = infos.drop_last();
        assert forall|i: int| 0 <= i < rest.len() implies (#[trigger] rest[i]).ending_balance
            == balance by {
            assert(rest[i] == infos[i]);
        }
        lemma_equal_endings(rest, balance);
        assert(infos.last() == infos[infos.len() - 1]);
    }
}

impl ScanResults {
    /// The counts and the extremes are those of the scenarios.
    pub open spec fn counted(&self) -> bool {
        &&& self.num_simulations == self.scenario_results@.len()
        &&& self.num_successful == successes(sorting_infos(self.scenario_results@))
        &&& self.min_balance == lowest_balance(sorting_infos(self.scenario_results@))
        &&& self.max_balance == highest_balance(sorting_infos(self.scenario_results@))
        &&& forall|i: int|
            0 <= i < self.scenario_results@.len() ==> (
            #[trigger] self.scenario_results@[i]).simulation_results.monthly_snapshot@.len() > 0
    }

    /// The scenarios have been counted, each is entered for ranking under its
    /// position, and no ranking has been made.
    pub open spec fn tallied(&self) -> bool {
        &&& self.counted()
        &&& self.sorting_info@ == sorting_infos(self.scenario_results@)
        &&& self.sorted_indices@.len() == 0
    }

    /// The scenarios have been counted and ranked from worst to best.
    pub open spec fn ranked(&self) -> bool {
        &&& self.counted()
        &&& self.sorting_info@ == stably_sorted(sorting_infos(self.scenario_results@))
        &&& self.sorted_indices@ == indices(self.sorting_info@)
    }

    /// Results of no scenario.
    pub fn new() -> (r: Self)
        ensures
            r.scenario_results@.len() == 0,
            r.num_simulations == 0,
            r.num_successful == 0,
            r.min_balance == u64::MAX,
            r.max_balance == 0,
            r.sorted_indices@.len() == 0,
            r.sorting_info@.len() == 0,
            r.tallied(),
    {
        let r = ScanResults {
            scenario_results: Vec::new(),
            num_simulations: 0,
            num_successful: 0,
            min_balance: u64::MAX,
            max_balance: 0,
            sorted_indices: Vec::new(),
            sorting_info: Vec::new(),
        };
        assert(r.sorting_info@ == sorting_infos(r.scenario_results@));
        r
    }

    /// Enters a scenario for ranking.
    pub fn add_sorting_info(&mut self, index: usize, num_months: usize, ending_balance: u64)
        ensures
            final(self).sorting_info@ == old(self).sorting_info@.push(
                ScenarioSortingInfo { index, num_months, ending_balance },
            ),
            final(self).scenario_results == old(self).scenario_results,
            final(self).num_simulations == old(self).num_simulations,
            final(self).num_successful == old(self).num_successful,
            final(self).min_balance == old(self).min_balance,
            final(self).max_balance == old(self).max_balance,
            final(self).sorted_indices == old(self).sorted_indices,
    {
        self.sorting_info.push(ScenarioSortingInfo { index, num_months, ending_balance });
    }

    /// Ranks the entered scenarios from worst to best, fewer months survived
    /// first and among equal months the lower ending balance: the ranking
    /// becomes their indices in that order, whatever it held before. Ranking
    /// again what is ranked changes nothing.
    pub fn sort_results(&mut self)
        ensures
            final(self).sorting_info@ == stably_sorted(old(self).sorting_info@),
            is_sorted(final(self).sorting_info@),
            final(self).sorting_info@.to_multiset() == old(self).sorting_info@.to_multiset(),
            final(self).sorted_indices@ == indices(final(self).sorting_info@),
            final(self).scenario_results == old(self).scenario_results,
            final(self).num_simulations == old(self).num_simulations,
            final(self).num_successful == old(self).num_successful,
            final(self).min_balance == old(self).min_balance,
            final(self).max_balance == old(self).max_balance,
            is_sorted(old(self).sorting_info@) ==> final(self).sorting_info@
                == old(self).sorting_info@,
            old(self).tallied() ==> final(self).ranked(),
            old(self).ranked() ==> final(self).ranked() && final(self).sorted_indices@
                == old(self).sorted_indices@,
    {
        proof {
            lemma_sorting_is_idempotent(sorting_infos(self.scenario_results@));
            if is_sorted(self.sorting_info@) {
                lemma_sorting_sorted_is_identity(self.sorting_info@);
            }
        }
        sort_stably(&mut self.sorting_info);
        self.sorted_indices.clear();
        let mut i: usize = 0;
        assert(self.sorted_indices@ == indices(self.sorting_info@).take(0));
        while i < self.sorting_info.len()
            invariant
                0 <= i <= self.sorting_info@.len(),
                self.sorting_info@ == stably_sorted(old(self).sorting_info@),
                self.sorted_indices@ == indices(self.sorting_info@).take(i as int),
                self.scenario_results == old(self).scenario_results,
                self.num_simulations == old(self).num_simulations,
                self.num_successful == old(self).num_successful,
                self.min_balance == old(self).min_balance,
                self.max_balance == old(self).max_balance,
            decreases self.sorting_info@.len() - i,
        {
            let index: usize = self.sorting_info[i].index;
            self.sorted_indices.push(index);
            i = i + 1;
            assert(indices(self.sorting_info@).take(i as int) == indices(self.sorting_info@).take(
                i - 1,
            ).push(index));
        }
        assert(indices(self.sorting_info@).take(i as int) == indices(self.sorting_info@));
    }
}

/// What a ranking is: it names every scenario once, and goes from worst to
/// best, a scenario that survived fewer months before one that survived
/// more, and among equal months the lower ending balance first.
pub proof fn lemma_ranking_orders_scenarios(results: ScanResults)
    requires
        results.ranked(),
    ensures
        results.sorted_indices@.len() == results.scenario_results@.len(),
        forall|j: int|
            0 <= j < results.sorted_indices@.len() ==> (#[trigger] results.sorted_indices@[j])
                < results.scenario_results@.len(),
        forall|i: usize|
            i < results.scenario_results@.len() ==> #[trigger] results.sorted_indices@.contains(i),
        forall|j: int, k: int|
            0 <= j < k < results.sorted_indices@.len() ==> rank_le(
                results.scenario_results@[results.sorted_indices@[j] as int].sorting_info(
                    results.sorted_indices@[j] as int,
                ).rank(),
                results.scenario_results@[results.sorted_indices@[k] as int].sorting_info(
                    results.sorted_indices@[k] as int,
                ).rank(),
            ),
{
    broadcast use vstd::seq_lib::group_to_multiset_ensures;

    let scenarios = results.scenario_results@;
    let entered = sorting_infos(scenarios);
    let ranked = results.sorting_info@;
    lemma_sorted_is_sorted(entered);
    lemma_sorted_is_permutation(entered);
    assert(ranked.len() == entered.len()) by {
        assert(ranked.to_multiset().len() == ranked.len());
        assert(entered.to_multiset().len() == entered.len());
    }
    // every ranked entry is the entry of the scenario at its index
    assert forall|j: int| 0 <= j < ranked.len() implies (#[trigger] ranked[j]).index
        < scenarios.len() && ranked[j] == entered[ranked[j].index as int] by {
        assert(ranked.contains(ranked[j]));
        assert(entered.to_multiset().count(ranked[j]) > 0);
        assert(entered.contains(ranked[j]));
        let i = choose|i: int| 0 <= i < entered.len() && entered[i] == ranked[j];
        assert(entered[i].index == i);
    }
    assert forall|j: int| 0 <= j < results.sorted_indices@.len() implies (
    #[trigger] results.sorted_indices@[j]) < scenarios.len() by {
        assert(results.sorted_indices@[j] == ranked[j].index);
    }
    assert forall|i: usize| i < scenarios.len() implies #[trigger] results.sorted_indices@.contains(
        i,
    ) by {
        assert(entered.contains(entered[i as int]));
        assert(ranked.to_multiset().count(entered[i as int]) > 0);
        assert(ranked.contains(entered[i as int]));
        let j = choose|j: int| 0 <= j < ranked.len() && ranked[j] == entered[i as int];
        assert(results.sorted_indices@[j] == i);
    }
    assert forall|j: int, k: int| 0 <= j < k < results.sorted_indices@.len() implies rank_le(
        scenarios[results.sorted_indices@[j] as int].sorting_info(
            results.sorted_indices@[j] as int,
        ).rank(),
        scenarios[results.sorted_indices@[k] as int].sorting_info(
            results.sorted_indices@[k] as int,
        ).rank(),
    ) by {
        assert(results.sorted_indices@[j] == ranked[j].index);
        assert(results.sorted_indices@[k] == ranked[k].index);
        assert(ranked[j] == entered[ranked[j].index as int]);
        assert(ranked[k] == entered[ranked[k].index as int]);
        assert(rank_le(ranked[j].rank(), ranked[k].rank()));
    }
}

/// What can run a scan for a household.
pub trait Scannable {
    /// What `run_scan` needs of the scanner and the household.
    spec fn can_scan(&self, input: Input) -> bool;

    /// Runs every scenario of the scan and ranks them.
    fn run_scan(&mut self, input: &Input) -> (r: Result<ScanResults, SimulationError>)
        requires
            old(self).can_scan(*input),
    ;
}

/// Adds a finished scenario to the results: counts it, counts it as a
/// success where it ended with money left, widens the lowest and highest
/// balance left by successful scenarios, and enters it for ranking under `index`.
pub fn add_scenario_to_results(results: &mut ScanResults, scenario: Scenario, index: usize)
    requires
        scenario.simulation_results.monthly_snapshot@.len() > 0,
        old(results).num_successful <= old(results).num_simulations < u32::MAX,
    ensures
        final(results).scenario_results@ == old(results).scenario_results@.push(scenario),
        final(results).num_simulations == old(results).num_simulations + 1,
        final(results).num_successful == old(results).num_successful + (if scenario.ending_balance()
            > 0 {
            1int
        } else {
            0int
        }),
        final(results).min_balance == (if 0 < scenario.ending_balance()
            < old(results).min_balance {
            scenario.ending_balance()
        } else {
            old(results).min_balance
        }),
        final(results).max_balance == (if scenario.ending_balance() > old(results).max_balance {
            scenario.ending_balance()
        } else {
            old(results).max_balance
        }),
        final(results).sorting_info@ == old(results).sorting_info@.push(
            scenario.sorting_info(index as int),
        ),
        final(results).sorted_indices == old(results).sorted_indices,
        old(results).tallied() && index == old(results).scenario_results@.len()
            ==> final(results).tallied(),
{
    results.num_simulations = results.num_simulations + 1;
    let num_months: usize = scenario.simulation_results.monthly_snapshot.len();
    let last_index: usize = num_months - 1;
    let last_balance: u64 = scenario.simulation_results.monthly_snapshot[last_index].balance;
    if last_balance > 0 {
        if last_balance < results.min_balance {
            results.min_balance = last_balance;
        }
        if last_balance > results.max_balance {
            results.max_balance = last_balance;
        }
        results.num_successful = results.num_successful + 1;
    }
    results.add_sorting_info(index, num_months, last_balance);
    results.scenario_results.push(scenario);
    proof {
        if old(results).tallied() && index == old(results).scenario_results@.len() {
            let before = sorting_infos(old(results).scenario_results@);
            let after = sorting_infos(results.scenario_results@);
            assert(after.drop_last() == before);
            assert(after.last() == scenario.sorting_info(index as int));
            assert(results.sorting_info@ == after);
        }
    }
}

} // verus!
