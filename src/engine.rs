//! The island population engine: several populations of candidates, each
//! evolved on its own by mutation and elitist selection.
use vstd::prelude::*;
use crate::fitness::{fitness_error, sample_count, scored_in_box, FitnessError};
use crate::mutation::{apply_all, apply_spec, Mutation};
use crate::raster::Raster;
use crate::solution::{geometry_valid, same_images, ImageArrangement, Solution};

verus! {

/// A candidate together with its fitness.
#[derive(Clone, Debug)]
pub struct Scored {
    pub solution: Solution,
    pub fitness: u64,
}

impl View for Scored {
    type V = (Seq<ImageArrangement>, u64);

    open spec fn view(&self) -> (Seq<ImageArrangement>, u64) {
        (self.solution@, self.fitness)
    }
}

impl Scored {
    /// A copy of this scored candidate.
    pub fn duplicate(&self) -> (r: Scored)
        ensures
            r@ == self@,
    {
        Scored { solution: self.solution.duplicate(), fitness: self.fitness }
    }
}

/// The views of the scored candidates `v`.
pub open spec fn scored_views(v: Seq<Scored>) -> Seq<(Seq<ImageArrangement>, u64)> {
    v.map_values(|m: Scored| m@)
}

/// Of a parent and its child, the child where it is strictly fitter, else the parent.
pub open spec fn better(parent: (Seq<ImageArrangement>, u64), child: (Seq<ImageArrangement>, u64)) -> (
    Seq<ImageArrangement>,
    u64,
) {
    if child.1 < parent.1 {
        child
    } else {
        parent
    }
}

/// The survivors of one generation: slot by slot, the better of parent and child.
pub open spec fn survivors(
    parents: Seq<(Seq<ImageArrangement>, u64)>,
    children: Seq<(Seq<ImageArrangement>, u64)>,
) -> Seq<(Seq<ImageArrangement>, u64)> {
    Seq::new(parents.len(), |k: int| better(parents[k], children[k]))
}

/// The first of the fittest among the first `k` entries of `s` (`k >= 1`).
pub open spec fn fittest(s: Seq<(Seq<ImageArrangement>, u64)>, k: int) -> (Seq<ImageArrangement>, u64)
    decreases k,
{
    if k <= 1 {
        s[0]
    } else {
        let b = fittest(s, k - 1);
        if s[k - 1].1 < b.1 {
            s[k - 1]
        } else {
            b
        }
    }
}

/// A population of candidates that evolves on its own.
///
/// `best` is the fittest candidate this island has seen and `best_fitness`
/// its fitness; `stagnation` counts the generations since it last improved;
/// each child is made with `rate` mutations; `generations` counts the
/// generations run.
#[derive(Debug)]
pub struct Island {
    pub id: u32,
    pub generations: u64,
    pub members: Vec<Scored>,
    pub best: Solution,
    pub best_fitness: u64,
    pub stagnation: u32,
    pub rate: u32,
    pub stagnation_limit: u32,
    pub max_rate: u32,
}

/// `b` is the island `a` after `advance` with the children `children`.
pub open spec fn advanced(a: Island, children: Seq<(Seq<ImageArrangement>, u64)>, b: Island) -> bool {
    &&& b.wf()
    &&& b.best_fitness <= a.best_fitness
    &&& b.members@.len() == a.members@.len()
    &&& b.id == a.id
    &&& b.stagnation_limit == a.stagnation_limit
    &&& b.max_rate == a.max_rate
    &&& same_images(b.best@, a.best@)
    &&& {
        let sel = survivors(scored_views(a.members@), children);
        let top = fittest(sel, sel.len() as int);
        if top.1 < a.best_fitness {
            &&& b.best@ == top.0
            &&& b.best_fitness == top.1
            &&& b.stagnation == 0
            &&& b.rate == a.rate
            &&& scored_views(b.members@) == sel
        } else if a.stagnation + 1 < a.stagnation_limit {
            &&& b.best@ == a.best@
            &&& b.best_fitness == a.best_fitness
            &&& b.stagnation == a.stagnation + 1
            &&& b.rate == a.rate
            &&& scored_views(b.members@) == sel
        } else {
            &&& b.best@ == a.best@
            &&& b.best_fitness == a.best_fitness
            &&& b.stagnation == 0
            &&& b.rate == if a.rate < a.max_rate {
                a.rate + 1
            } else {
                a.rate as int
            }
            &&& scored_views(b.members@) == Seq::new(a.members@.len(), |k: int| (a.best@, a.best_fitness))
        }
    }
}

/// `child` is what `member` makes in one generation at mutation rate `rate`:
/// the member after `rate` valid mutations, scored at sample points of its
/// bounding box; or, where that candidate cannot be scored, the member itself.
pub open spec fn child_of(
    member: (Seq<ImageArrangement>, u64),
    child: (Seq<ImageArrangement>, u64),
    rate: int,
    rasters: Seq<Raster>,
) -> bool {
    exists|ms: Seq<Mutation>|
        ms.len() == rate && (forall|i: int| 0 <= i < ms.len() ==> (#[trigger] ms[i]).valid_for(member.0.len() as int))
            && {
            let m = #[trigger] apply_all(member.0, ms);
            if fitness_error(m, rasters, sample_count(m)) is None {
                child.0 == m && scored_in_box(m, rasters, child.1)
            } else {
                child == member
            }
        }
}

/// `b` is the island `a` after one generation: each member made one child,
/// `advance` selected among them, and the generation count went up by one.
pub open spec fn generation_step(a: Island, b: Island, rasters: Seq<Raster>) -> bool {
    &&& b.generations == a.generations + 1
    &&& exists|children: Seq<(Seq<ImageArrangement>, u64)>|
        children.len() == a.members@.len() && (forall|k: int|
            0 <= k < children.len() ==> child_of(a.members@[k]@, #[trigger] children[k], a.rate as int, rasters))
            && #[trigger] advanced(a, children, b)
}

/// `b` is the island `a` after exactly `n` generations.
pub open spec fn evolved(a: Island, b: Island, n: int, rasters: Seq<Raster>) -> bool {
    exists|states: Seq<Island>|
        states.len() == n + 1 && states[0] == a && #[trigger] states[n] == b && forall|i: int|
            0 <= i < n ==> #[trigger] generation_step(states[i], states[i + 1], rasters)
}

proof fn lemma_states_monotone(states: Seq<Island>, n: int, rasters: Seq<Raster>, i: int)
    requires
        states.len() == n + 1,
        forall|j: int| 0 <= j < n ==> #[trigger] generation_step(states[j], states[j + 1], rasters),
        0 <= i <= n,
    ensures
        forall|j: int| 0 <= j <= i ==> (#[trigger] states[j]).best_fitness >= states[i].best_fitness,
    decreases i,
{
    if i > 0 {
        lemma_states_monotone(states, n, rasters, i - 1);
        let k = i - 1;
        assert(generation_step(states[k], states[k + 1], rasters));
    }
}

/// Across any number of generations, an island's stored best fitness never
/// increases: after `n` generations it is at most what it was at each
/// generation before.
pub proof fn lemma_best_never_increases(a: Island, b: Island, n: int, rasters: Seq<Raster>)
    requires
        n >= 0,
        evolved(a, b, n, rasters),
    ensures
        b.best_fitness <= a.best_fitness,
        exists|states: Seq<Island>|
            states.len() == n + 1 && states[0] == a && states[n] == b && forall|i: int, j: int|
                0 <= i <= j <= n ==> #[trigger] states[j].best_fitness <= #[trigger] states[i].best_fitness,
{
    let states = choose|states: Seq<Island>|
        states.len() == n + 1 && states[0] == a && #[trigger] states[n] == b && forall|i: int|
            0 <= i < n ==> #[trigger] generation_step(states[i], states[i + 1], rasters);
    assert forall|i: int, j: int| 0 <= i <= j <= n implies #[trigger] states[j].best_fitness
        <= #[trigger] states[i].best_fitness by {
        lemma_states_monotone(states, n, rasters, j);
    }
}

impl Island {
    /// The population is not empty; every member places the photographs of
    /// `best` with its geometry in range; the counters are in range.
    pub open spec fn wf(&self) -> bool {
        &&& self.members@.len() > 0
        &&& self.best@.len() > 0
        &&& geometry_valid(self.best@)
        &&& forall|k: int|
            0 <= k < self.members@.len() ==> same_images((#[trigger] self.members@[k])@.0, self.best@)
                && geometry_valid(self.members@[k]@.0)
        &&& 1 <= self.rate <= self.max_rate
        &&& self.stagnation < self.stagnation_limit
    }

    /// Ends one generation: each member gives way to its child where the
    /// child is fitter. Where the fittest survivor beats `best`, it becomes
    /// `best`; else, after `stagnation_limit` such generations in a row, the
    /// population restarts from copies of `best` and `rate` goes up by one,
    /// up to `max_rate`.
    pub fn advance(&mut self, children: Vec<Scored>)
        requires
            old(self).wf(),
            children@.len() == old(self).members@.len(),
            forall|k: int|
                0 <= k < children@.len() ==> same_images((#[trigger] children@[k])@.0, old(self).best@)
                    && geometry_valid(children@[k]@.0),
        ensures
            advanced(*old(self), scored_views(children@), *final(self)),
            final(self).generations == old(self).generations,
    {
        let ghost parents = scored_views(self.members@);
        let ghost kids = scored_views(children@);
        let ghost sel = survivors(parents, kids);
        let n = self.members.len();
        let mut next: Vec<Scored> = Vec::new();
        let mut top: usize = 0;
        let mut k: usize = 0;
        while k < n
            invariant
                n == self.members@.len(),
                n == children@.len(),
                k <= n,
                self.wf(),
                parents == scored_views(self.members@),
                kids == scored_views(children@),
                sel == survivors(parents, kids),
                forall|j: int|
                    0 <= j < children@.len() ==> same_images((#[trigger] children@[j])@.0, self.best@)
                        && geometry_valid(children@[j]@.0),
                next@.len() == k,
                forall|j: int| 0 <= j < k ==> (#[trigger] next@[j])@ == sel[j],
                forall|j: int|
                    0 <= j < k ==> same_images((#[trigger] next@[j])@.0, self.best@) && geometry_valid(
                        next@[j]@.0,
                    ),
                k > 0 ==> top < k && next@[top as int]@ == fittest(sel, k as int),
            decreases n - k,
        {
            let survivor = if children[k].fitness < self.members[k].fitness {
                children[k].duplicate()
            } else {
                self.members[k].duplicate()
            };
            assert(survivor@ == sel[k as int]);
            if k == 0 || survivor.fitness < next[top].fitness {
                top = k;
            }
            next.push(survivor);
            k += 1;
        }
        assert(scored_views(next@) =~= sel);
        if next[top].fitness < self.best_fitness {
            self.best = next[top].solution.duplicate();
            self.best_fitness = next[top].fitness;
            self.stagnation = 0;
            self.members = next;
        } else if self.stagnation + 1 < self.stagnation_limit {
            self.stagnation = self.stagnation + 1;
            self.members = next;
        } else {
            let mut fresh: Vec<Scored> = Vec::new();
            let mut j: usize = 0;
            while j < n
                invariant
                    j <= n,
                    fresh@.len() == j,
                    forall|i: int| 0 <= i < j ==> (#[trigger] fresh@[i])@ == (self.best@, self.best_fitness),
                decreases n - j,
            {
                fresh.push(Scored { solution: self.best.duplicate(), fitness: self.best_fitness });
                j += 1;
            }
            assert(scored_views(fresh@) =~= Seq::new(n as nat, |i: int| (self.best@, self.best_fitness)));
            self.members = fresh;
            self.stagnation = 0;
            if self.rate < self.max_rate {
                self.rate = self.rate + 1;
            }
        }
    }
}

impl Island {
    /// One generation: every member makes a child by `rate` random mutations
    /// of a copy of itself; the child is scored, and `advance` selects. A
    /// child that cannot be scored is replaced by its parent, so it never
    /// survives.
    pub fn generation(&mut self, rasters: &Vec<Raster>)
        requires
            old(self).wf(),
            old(self).generations < u64::MAX,
        ensures
            generation_step(*old(self), *final(self), rasters@),
    {
        let ghost before = *self;
        let n = self.members.len();
        let mut children: Vec<Scored> = Vec::new();
        let mut k: usize = 0;
        while k < n
            invariant
                n == self.members@.len(),
                k <= n,
                self.wf(),
                *self == before,
                children@.len() == k,
                forall|j: int|
                    0 <= j < k ==> same_images((#[trigger] children@[j])@.0, self.best@) && geometry_valid(
                        children@[j]@.0,
                    ),
                forall|j: int|
                    0 <= j < k ==> child_of(self.members@[j]@, (#[trigger] children@[j])@, self.rate as int, rasters@),
            decreases n - k,
        {
            assert(same_images(self.members@[k as int]@.0, self.best@));
            let ghost member = self.members@[k as int]@;
            let mut child = self.members[k].solution.duplicate();
            let ghost mut ms: Seq<Mutation> = Seq::empty();
            assert(apply_all(member.0, ms) == member.0);
            let mut r: u32 = 0;
            while r < self.rate
                invariant
                    self.wf(),
                    *self == before,
                    k < n == self.members@.len(),
                    member == self.members@[k as int]@,
                    same_images(child@, self.best@),
                    same_images(member.0, self.best@),
                    geometry_valid(child@),
                    r <= self.rate,
                    ms.len() == r,
                    forall|i: int| 0 <= i < ms.len() ==> (#[trigger] ms[i]).valid_for(member.0.len() as int),
                    child@ == apply_all(member.0, ms),
                decreases self.rate - r,
            {
                let ghost prev = child@;
                child.mutate();
                proof {
                    let m = choose|m: Mutation| m.valid_for(prev.len() as int) && child@ == apply_spec(prev, m);
                    assert(ms.push(m).drop_last() =~= ms);
                    ms = ms.push(m);
                }
                r += 1;
            }
            match child.calculate_fitness(rasters) {
                Ok(f) => {
                    children.push(Scored { solution: child, fitness: f });
                },
                Err(_) => {
                    children.push(self.members[k].duplicate());
                },
            }
            assert(child_of(member, children@[k as int]@, self.rate as int, rasters@));
            k += 1;
        }
        let ghost kids = scored_views(children@);
        assert forall|j: int| 0 <= j < kids.len() implies child_of(
            before.members@[j]@,
            #[trigger] kids[j],
            before.rate as int,
            rasters@,
        ) by {
            assert(kids[j] == children@[j]@);
        }
        self.advance(children);
        self.generations = self.generations + 1;
        assert(advanced(before, kids, *self));
    }
}

/// Runs `island` for exactly `iterations` generations.
pub fn run_island(island: &mut Island, rasters: &Vec<Raster>, iterations: u32)
    requires
        old(island).wf(),
        old(island).generations + iterations <= u64::MAX,
    ensures
        final(island).wf(),
        evolved(*old(island), *final(island), iterations as int, rasters@),
        final(island).generations == old(island).generations + iterations,
        final(island).best_fitness <= old(island).best_fitness,
        final(island).id == old(island).id,
        same_images(final(island).best@, old(island).best@),
{
    let ghost init = *island;
    let ghost mut states: Seq<Island> = seq![init];
    let mut i: u32 = 0;
    while i < iterations
        invariant
            i <= iterations,
            island.wf(),
            init.generations + iterations <= u64::MAX,
            island.generations == init.generations + i,
            island.best_fitness <= init.best_fitness,
            island.id == init.id,
            same_images(island.best@, init.best@),
            states.len() == i + 1,
            states[0] == init,
            states[i as int] == *island,
            forall|j: int| 0 <= j < i ==> #[trigger] generation_step(states[j], states[j + 1], rasters@),
        decreases iterations - i,
    {
        let ghost before = *island;
        island.generation(rasters);
        proof {
            let next = states.push(*island);
            assert forall|j: int| 0 <= j < i + 1 implies #[trigger] generation_step(next[j], next[j + 1], rasters@) by {
                if j < i {
                    assert(next[j] == states[j] && next[j + 1] == states[j + 1]);
                } else {
                    assert(next[j] == before);
                }
            }
            states = next;
        }
        i += 1;
    }
    assert(states[iterations as int] == *island);
}

/// `isl` is a freshly made island: number `id`, `n` copies of `initial`,
/// nothing run yet.
pub open spec fn fresh_island(
    isl: Island,
    id: int,
    initial: (Seq<ImageArrangement>, u64),
    n: u32,
    stagnation_limit: u32,
    max_rate: u32,
) -> bool {
    &&& isl.wf()
    &&& isl.id == id
    &&& isl.generations == 0
    &&& isl.best@ == initial.0
    &&& isl.best_fitness == initial.1
    &&& isl.stagnation == 0
    &&& isl.rate == 1
    &&& isl.stagnation_limit == stagnation_limit
    &&& isl.max_rate == max_rate
    &&& scored_views(isl.members@) == Seq::new(n as nat, |k: int| initial)
}

/// Builds `num_of_populations` islands, numbered from 1, each holding
/// `num_of_individuals` copies of `initial`.
pub fn make_all_populations(
    num_of_individuals: u32,
    num_of_populations: u32,
    initial: &Scored,
    stagnation_limit: u32,
    max_rate: u32,
) -> (r: Vec<Island>)
    requires
        num_of_individuals > 0,
        initial.solution@.len() > 0,
        geometry_valid(initial.solution@),
        stagnation_limit > 0,
        max_rate > 0,
    ensures
        r@.len() == num_of_populations,
        forall|i: int|
            0 <= i < r@.len() ==> fresh_island(
                #[trigger] r@[i],
                i + 1,
                initial@,
                num_of_individuals,
                stagnation_limit,
                max_rate,
            ),
{
    let mut result: Vec<Island> = Vec::new();
    let mut i: u32 = 0;
    while i < num_of_populations
        invariant
            i <= num_of_populations,
            result@.len() == i,
            num_of_individuals > 0,
            initial.solution@.len() > 0,
            geometry_valid(initial.solution@),
            stagnation_limit > 0,
            max_rate > 0,
            forall|j: int|
                0 <= j < i ==> fresh_island(
                    #[trigger] result@[j],
                    j + 1,
                    initial@,
                    num_of_individuals,
                    stagnation_limit,
                    max_rate,
                ),
        decreases num_of_populations - i,
    {
        let mut members: Vec<Scored> = Vec::new();
        let mut k: u32 = 0;
        while k < num_of_individuals
            invariant
                k <= num_of_individuals,
                members@.len() == k,
                forall|j: int| 0 <= j < k ==> (#[trigger] members@[j])@ == initial@,
            decreases num_of_individuals - k,
        {
            members.push(initial.duplicate());
            k += 1;
        }
        assert(scored_views(members@) =~= Seq::new(num_of_individuals as nat, |k: int| initial@));
        let isl = Island {
            id: i + 1,
            generations: 0,
            members,
            best: initial.solution.duplicate(),
            best_fitness: initial.fitness,
            stagnation: 0,
            rate: 1,
            stagnation_limit,
            max_rate,
        };
        assert forall|j: int| 0 <= j < isl.members@.len() implies same_images(
            (#[trigger] isl.members@[j])@.0,
            isl.best@,
        ) && geometry_valid(isl.members@[j]@.0) by {
            assert(isl.members@[j]@ == initial@);
        }
        result.push(isl);
        i += 1;
    }
    result
}

/// The parameters of one run of the engine.
#[derive(Clone, Copy, PartialEq, Eq, Structural, Debug)]
pub struct EngineConfig {
    pub num_of_islands: u32,
    pub population_size: u32,
    pub max_iteration: u32,
    pub stagnation_limit: u32,
    pub max_rate: u32,
}

/// Why the engine could not start.
#[derive(Clone, Copy, PartialEq, Eq, Structural, Debug)]
pub enum EngineError {
    /// No island is configured.
    NoIslands,
    /// Islands of no member are configured.
    NoPopulation,
    /// The stagnation limit or the largest mutation rate is zero.
    NoSchedule,
    /// The initial candidate cannot be scored.
    Unscorable(FitnessError),
}

/// What a run of the engine hands back: the winner, with the fitness the
/// seed scored and the one the winner stored, and the islands as they ended;
/// or, with a warning, the input as it was and no island.
#[derive(Debug)]
pub struct EngineRun {
    pub solution: Solution,
    pub start_fitness: u64,
    pub fitness: u64,
    pub islands: Vec<Island>,
    pub warning: Option<EngineError>,
}

/// Why the engine cannot start on `initial` under `config`, if it can't.
pub open spec fn engine_error(config: EngineConfig, initial: Seq<ImageArrangement>, rasters: Seq<Raster>) -> Option<
    EngineError,
> {
    if config.num_of_islands == 0 {
        Some(EngineError::NoIslands)
    } else if config.population_size == 0 {
        Some(EngineError::NoPopulation)
    } else if config.stagnation_limit == 0 || config.max_rate == 0 {
        Some(EngineError::NoSchedule)
    } else {
        match fitness_error(initial, rasters, sample_count(initial)) {
            Some(e) => Some(EngineError::Unscorable(e)),
            None => None,
        }
    }
}

/// `run` is what the engine hands back for the seed `seed`. Where it could
/// not start: the reason, the seed unchanged, no island. Else: the seed's
/// score at sample points of its box; `num_of_islands` islands, each made
/// of copies of the scored seed and run for exactly `max_iteration`
/// generations; and the winner, the seed or the stored best of an island,
/// with a fitness no greater than the seed's nor than any island's best.
pub open spec fn run_from(run: EngineRun, seed: Seq<ImageArrangement>, config: EngineConfig, rasters: Seq<Raster>) -> bool {
    &&& run.warning == engine_error(config, seed, rasters)
    &&& run.warning is Some ==> run.solution@ == seed && run.islands@.len() == 0
    &&& run.warning is None ==> {
        &&& scored_in_box(seed, rasters, run.start_fitness)
        &&& run.islands@.len() == config.num_of_islands
        &&& forall|i: int|
            0 <= i < run.islands@.len() ==> (#[trigger] run.islands@[i]).generations == config.max_iteration
                && exists|init: Island|
                fresh_island(
                    init,
                    i + 1,
                    (seed, run.start_fitness),
                    config.population_size,
                    config.stagnation_limit,
                    config.max_rate,
                ) && evolved(init, run.islands@[i], config.max_iteration as int, rasters)
        &&& run.fitness <= run.start_fitness
        &&& forall|i: int| 0 <= i < run.islands@.len() ==> run.fitness <= (#[trigger] run.islands@[i]).best_fitness
        &&& stored_winner(run, seed)
        &&& same_images(run.solution@, seed)
        &&& geometry_valid(run.solution@)
    }
}

/// The winner of `run` is the seed with its score, or the stored best of
/// one of its islands with that island's best fitness.
pub open spec fn stored_winner(run: EngineRun, seed: Seq<ImageArrangement>) -> bool {
    ||| run.solution@ == seed && run.fitness == run.start_fitness
    ||| exists|i: int|
        0 <= i < run.islands@.len() && run.solution@ == (#[trigger] run.islands@[i]).best@ && run.fitness
            == run.islands@[i].best_fitness
}

/// Evolves `config.num_of_islands` islands of `config.population_size`
/// copies of `solution` for exactly `config.max_iteration` generations each,
/// then, once all have run, returns the fittest candidate any of them stored.
/// Where the engine cannot start, `solution` comes back unchanged with the
/// reason.
#[verifier::rlimit(30)]
pub fn run_darwin(solution: &Solution, rasters: &Vec<Raster>, config: &EngineConfig) -> (r: EngineRun)
    ensures
        run_from(r, solution@, *config, rasters@),
{
    let no_run = |w: EngineError| -> (run: EngineRun)
        ensures
            run.solution@ == solution@,
            run.islands@.len() == 0,
            run.warning == Some(w),
        {
            EngineRun {
                solution: solution.duplicate(),
                start_fitness: 0,
                fitness: 0,
                islands: Vec::new(),
                warning: Some(w),
            }
        };
    if config.num_of_islands == 0 {
        return no_run(EngineError::NoIslands);
    }
    if config.population_size == 0 {
        return no_run(EngineError::NoPopulation);
    }
    if config.stagnation_limit == 0 || config.max_rate == 0 {
        return no_run(EngineError::NoSchedule);
    }
    let start = match solution.calculate_fitness(rasters) {
        Ok(f) => f,
        Err(e) => {
            return no_run(EngineError::Unscorable(e));
        },
    };
    proof {
        assert(fitness_error(solution@, rasters@, sample_count(solution@)) is None);
        assert(solution@.len() > 0);
        assert forall|k: int| 0 <= k < solution@.len() implies (#[trigger] solution@[k]).geometry_in_range() by {
            assert(solution@[k].valid_for(rasters@));
        }
    }
    let initial = Scored { solution: solution.duplicate(), fitness: start };
    let mut islands = make_all_populations(
        config.population_size,
        config.num_of_islands,
        &initial,
        config.stagnation_limit,
        config.max_rate,
    );
    let ghost inits = islands@;
    let ghost seed = (solution@, start);
    let mut best = initial.duplicate();
    let mut i: usize = 0;
    while i < islands.len()
        invariant
            i <= islands@.len() == inits.len() == config.num_of_islands,
            initial@ == seed,
            seed == (solution@, start),
            forall|j: int|
                0 <= j < inits.len() ==> fresh_island(
                    #[trigger] inits[j],
                    j + 1,
                    seed,
                    config.population_size,
                    config.stagnation_limit,
                    config.max_rate,
                ),
            forall|j: int| i <= j < islands@.len() ==> #[trigger] islands@[j] == inits[j],
            forall|j: int|
                0 <= j < i ==> (#[trigger] islands@[j]).generations == config.max_iteration && evolved(
                    inits[j],
                    islands@[j],
                    config.max_iteration as int,
                    rasters@,
                ) && same_images(islands@[j].best@, solution@),
            same_images(best@.0, solution@),
            geometry_valid(best@.0),
            best.fitness <= start,
            forall|j: int| 0 <= j < i ==> best.fitness <= (#[trigger] islands@[j]).best_fitness,
            best@ == seed || exists|j: int|
                0 <= j < i && best@ == ((#[trigger] islands@[j]).best@, islands@[j].best_fitness),
        decreases islands@.len() - i,
    {
        let ghost prev = islands@;
        let mut island = islands.remove(i);
        assert(island == inits[i as int]);
        run_island(&mut island, rasters, config.max_iteration);
        if island.best_fitness < best.fitness {
            best = Scored { solution: island.best.duplicate(), fitness: island.best_fitness };
        }
        let ghost done = island;
        islands.insert(i, island);
        assert(islands@ =~= prev.update(i as int, done));
        proof {
            if best@ != seed && best@ != (done.best@, done.best_fitness) {
                let j = choose|j: int| 0 <= j < i && best@ == ((#[trigger] prev[j]).best@, prev[j].best_fitness);
                assert(islands@[j] == prev[j]);
            }
            if best@ == (done.best@, done.best_fitness) {
                assert(islands@[i as int] == done);
            }
            assert forall|j: int| 0 <= j < i + 1 implies best.fitness <= (#[trigger] islands@[j]).best_fitness by {
                if j < i {
                    assert(islands@[j] == prev[j]);
                }
            }
        }
        i += 1;
    }
    let r = EngineRun { solution: best.solution, start_fitness: start, fitness: best.fitness, islands, warning: None };
    proof {
        assert forall|j: int| 0 <= j < r.islands@.len() implies (#[trigger] r.islands@[j]).generations
            == config.max_iteration && exists|init: Island|
            fresh_island(
                init,
                j + 1,
                (solution@, r.start_fitness),
                config.population_size,
                config.stagnation_limit,
                config.max_rate,
            ) && evolved(init, r.islands@[j], config.max_iteration as int, rasters@) by {
            assert(r.islands@[j] == islands@[j]);
            assert(islands@[j].generations == config.max_iteration);
            assert(evolved(inits[j], r.islands@[j], config.max_iteration as int, rasters@));
            assert(fresh_island(
                inits[j],
                j + 1,
                (solution@, r.start_fitness),
                config.population_size,
                config.stagnation_limit,
                config.max_rate,
            ));
        }
        if r.solution@ != solution@ || r.fitness != r.start_fitness {
            let j = choose|j: int| 0 <= j < i && best@ == ((#[trigger] islands@[j]).best@, islands@[j].best_fitness);
            assert(r.islands@[j] == islands@[j]);
        }
    }
    r
}

} // verus!
