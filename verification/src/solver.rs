use vstd::prelude::*;

use crate::ant::Ant;
use crate::colony::Colony;
use crate::errors::AcoError;
use crate::graph::{locks_compatible, Graph};
use crate::input::Input;
use crate::params::AcoParameters;

verus! {

/// The top-level control loop: drives colony iterations, tracks the best
/// ant of the last iteration and the best ant ever seen, applies the
/// elitist reinforcement, and resets the pheromones on stagnation.
pub struct ACOSolver {
    parameters: AcoParameters,
    colony: Colony,
    best_ant: Option<Ant>,
    super_ant: Option<Ant>,
    cnt_super_not_change: u64,
    iterations_run: u64,
    input: Input,
}

impl ACOSolver {
    pub closed spec fn params_spec(&self) -> AcoParameters {
        self.parameters
    }

    pub closed spec fn colony_spec(&self) -> Colony {
        self.colony
    }

    pub open spec fn graph_spec(&self) -> Graph {
        self.colony_spec().graph_spec()
    }

    pub closed spec fn best_spec(&self) -> Option<Ant> {
        self.best_ant
    }

    pub closed spec fn super_spec(&self) -> Option<Ant> {
        self.super_ant
    }

    pub closed spec fn cnt_spec(&self) -> u64 {
        self.cnt_super_not_change
    }

    pub closed spec fn input_spec(&self) -> Input {
        self.input
    }

    /// The fitness of the best ant ever seen, over the solver's problem.
    pub open spec fn super_len_spec(&self) -> int {
        self.super_spec()->Some_0.l_total_spec(
            self.graph_spec().classes_spec(),
            self.graph_spec().rooms_spec(),
        )
    }

    /// Well-formedness: a valid colony, matching configuration, and the two
    /// distinguished ants (when present) complete and well-formed over the
    /// problem.
    pub open spec fn wf(&self) -> bool {
        &&& self.colony_spec().wf()
        &&& self.params_spec() == self.graph_spec().params_spec()
        &&& match self.best_spec() {
            Some(a) => a.params_spec() == self.params_spec() && a.wf(
                self.graph_spec().classes_spec(),
            ) && a.complete(),
            None => true,
        }
        &&& match self.super_spec() {
            Some(a) => a.params_spec() == self.params_spec() && a.wf(
                self.graph_spec().classes_spec(),
            ) && a.complete(),
            None => true,
        }
    }

    /// Assemble a solver over a colony; no iteration has run yet, so there
    /// is no best and no super ant.
    pub fn new(parameters: AcoParameters, colony: Colony, input: Input) -> (s: ACOSolver)
        requires
            colony.wf(),
            parameters == colony.graph_spec().params_spec(),
        ensures
            s.wf(),
            s.params_spec() == parameters,
            s.colony_spec() == colony,
            s.best_spec() is None,
            s.super_spec() is None,
            s.cnt_spec() == 0,
            s.input_spec() == input,
    {
        ACOSolver {
            parameters,
            colony,
            best_ant: None,
            super_ant: None,
            cnt_super_not_change: 0,
            iterations_run: 0,
            input,
        }
    }

    pub fn get_parameters(&self) -> (r: &AcoParameters)
        ensures
            *r == self.params_spec(),
    {
        &self.parameters
    }

    pub fn get_input(&self) -> (r: &Input)
        ensures
            *r == self.input_spec(),
    {
        &self.input
    }

    pub fn get_graph(&self) -> (g: &Graph)
        ensures
            *g == self.graph_spec(),
    {
        self.colony.get_graph()
    }

    /// The best ant of the most recent iteration, if one has run.
    pub fn get_best_ant(&self) -> (r: Option<&Ant>)
        ensures
            match r {
                Some(a) => self.best_spec() is Some && *a == self.best_spec()->Some_0,
                None => self.best_spec() is None,
            },
    {
        self.best_ant.as_ref()
    }

    /// The best ant ever seen.
    pub fn get_super_ant(&self) -> (r: Option<&Ant>)
        ensures
            match r {
                Some(a) => self.super_spec() is Some && *a == self.super_spec()->Some_0,
                None => self.super_spec() is None,
            },
    {
        self.super_ant.as_ref()
    }

    /// One solver iteration: commit the staged deposits with evaporation
    /// (after the first iteration), run the colony, stage the iteration
    /// best's deposits and the elitist deposit of the best ant ever, update
    /// the stagnation counter, and reset the pheromones when it hits the
    /// limit.
    ///
    /// On success the stored best ant is a fittest finished ant of the
    /// iteration; the best ant ever is replaced exactly when the iteration
    /// best is strictly fitter (or none was held yet), else the stagnation
    /// counter advances, and reaching the limit resets every pheromone to
    /// `tau_max` and clears the counter.  Both distinguished ants' deposits
    /// are staged.  The fitness of the best ant ever never gets worse, and a
    /// guaranteed-constructible problem never fails.
    pub fn run_aco_once(&mut self) -> (res: Result<(), AcoError>)
        requires
            old(self).wf(),
        ensures
            final(self).wf(),
            final(self).params_spec() == old(self).params_spec(),
            final(self).graph_spec().same_problem(&old(self).graph_spec()),
            final(self).graph_spec().locks_spec() == old(self).graph_spec().locks_spec(),
            final(self).input_spec() == old(self).input_spec(),
            old(self).super_spec() is Some ==> final(self).super_spec() is Some
                && final(self).super_len_spec() <= old(self).super_len_spec(),
            res is Err ==> res->Err_0 == AcoError::NoAllocatableCell,
            old(self).graph_spec().always_constructible() ==> res is Ok,
            old(self).graph_spec().always_constructible()
                ==> final(self).graph_spec().always_constructible(),
            res is Ok ==> final(self).best_spec() is Some && final(self).super_spec() is Some,
            res is Ok ==> ({
                let classes = final(self).graph_spec().classes_spec();
                let rooms = final(self).graph_spec().rooms_spec();
                let best = final(self).best_spec()->Some_0;
                let sup = final(self).super_spec()->Some_0;
                let best_len = best.l_total_spec(classes, rooms);
                let replaced = old(self).super_spec() is None || best_len
                    < old(self).super_len_spec();
                let stepped = if replaced {
                    0int
                } else if old(self).cnt_spec() < u64::MAX {
                    old(self).cnt_spec() + 1
                } else {
                    old(self).cnt_spec() as int
                };
                &&& best.locks_respected(&final(self).graph_spec())
                &&& forall|j: int|
                    0 <= j < final(self).colony_spec().ants_spec().len()
                        && (#[trigger] final(self).colony_spec().ants_spec()[j]).complete()
                        ==> best_len <= final(self).colony_spec().ants_spec()[j].l_total_spec(
                        classes,
                        rooms,
                    )
                &&& final(self).super_len_spec() == (if replaced {
                    best_len
                } else {
                    old(self).super_len_spec()
                })
                &&& final(self).cnt_spec() == (if stepped
                    >= old(self).params_spec().stagnation_limit {
                    0int
                } else {
                    stepped
                })
                &&& (stepped >= old(self).params_spec().stagnation_limit ==> forall|i: int|
                    0 <= i < final(self).graph_spec().pheromone_spec().len()
                        ==> final(self).graph_spec().pheromone_spec()[i]
                        == old(self).params_spec().tau_max)
                &&& forall|c: int|
                    0 <= c < classes.len()
                        ==> #[trigger] final(self).graph_spec().next_pheromone_at(
                        c,
                        best.room_of(c),
                        best.period_of(c),
                    ) >= best.deposit_of(classes, rooms, c)
                &&& forall|c: int|
                    0 <= c < classes.len()
                        ==> #[trigger] final(self).graph_spec().next_pheromone_at(
                        c,
                        sup.room_of(c),
                        sup.period_of(c),
                    ) >= sup.deposit_of(classes, rooms, c)
            }),
    {
        let ghost classes = self.graph_spec().classes_spec();
        let ghost rooms = self.graph_spec().rooms_spec();
        if self.iterations_run > 0 {
            let g = self.colony.get_graph_mut();
            g.commit_evaporation();
        }
        let ghost pre_iter = *self;
        let best_idx = match self.colony.run_iteration() {
            Ok(i) => i,
            Err(e) => {
                proof {
                    if old(self).graph_spec().always_constructible() {
                        crate::graph::lemma_constructible_transfer(
                            &old(self).graph_spec(),
                            &pre_iter.graph_spec(),
                        );
                        assert(false);
                    }
                }
                return Err(e);
            },
        };
        let ghost post_iter = *self;
        let ghost orig = post_iter.colony_spec().ants_spec()[best_idx as int];
        self.colony.stage_deposit(best_idx);
        let ghost post_stage = *self;
        let best_len = {
            let ant = self.colony.get_ant(best_idx);
            ant.calc_all_path_length(self.colony.get_graph())
        };
        let replace: bool = match self.super_ant.as_ref() {
            None => true,
            Some(sa) => {
                let super_len = sa.calc_all_path_length(self.colony.get_graph());
                best_len < super_len
            },
        };
        if replace {
            let copy = self.colony.get_ant(best_idx).duplicate();
            proof {
                copy.lemma_same_state_wf(&orig, classes);
                copy.lemma_same_state_l_total(&orig, classes, rooms);
            }
            self.super_ant = Some(copy);
            self.cnt_super_not_change = 0;
        } else {
            if self.cnt_super_not_change < u64::MAX {
                self.cnt_super_not_change = self.cnt_super_not_change + 1;
            }
        }
        match self.super_ant.as_ref() {
            Some(sa) => {
                let g = self.colony.get_graph_mut();
                sa.update_next_pheromone(g);
            },
            None => {
                proof {
                    assert(false);
                }
            },
        }
        let ghost post_super = *self;
        proof {
            assert forall|c2: int, r2: int, p2: int|
                0 <= c2 < classes.len() && 0 <= r2 < self.params_spec().num_of_rooms && 0 <= p2
                    < self.params_spec().num_of_periods implies
                #[trigger] post_super.graph_spec().next_pheromone_at(c2, r2, p2)
                >= post_stage.graph_spec().next_pheromone_at(c2, r2, p2) by {
                let a = post_stage.graph_spec().next_pheromone_at(c2, r2, p2);
            }
        }
        if self.cnt_super_not_change >= self.parameters.stagnation_limit {
            let g = self.colony.get_graph_mut();
            g.reset_pheromone_all();
            self.cnt_super_not_change = 0;
        }
        let copy = self.colony.get_ant(best_idx).duplicate();
        proof {
            copy.lemma_same_state_wf(&orig, classes);
            copy.lemma_same_state_l_total(&orig, classes, rooms);
        }
        self.best_ant = Some(copy);
        if self.iterations_run < u64::MAX {
            self.iterations_run = self.iterations_run + 1;
        }
        proof {
            if old(self).graph_spec().always_constructible() {
                crate::graph::lemma_constructible_transfer(
                    &old(self).graph_spec(),
                    &self.graph_spec(),
                );
            }
            let best = self.best_spec()->Some_0;
            let sup = self.super_spec()->Some_0;
            assert forall|c: int| 0 <= c < classes.len() implies
                #[trigger] self.graph_spec().next_pheromone_at(
                c,
                best.room_of(c),
                best.period_of(c),
            ) >= best.deposit_of(classes, rooms, c) by {
                assert(orig.placed(c));
                assert(orig.room_of(c) < self.params_spec().num_of_rooms);
                assert(orig.period_of(c) + classes[c].serial_size
                    <= self.params_spec().num_of_periods);
                assert(classes[c].serial_size >= 1);
                best.lemma_same_state_deposit(&orig, classes, rooms, c);
                orig.lemma_deposit_bounds(classes, rooms, c);
                let v1 = post_stage.graph_spec().next_pheromone_at(
                    c,
                    orig.room_of(c),
                    orig.period_of(c),
                );
                assert(v1 >= orig.deposit_of(classes, rooms, c));
                let v2 = post_super.graph_spec().next_pheromone_at(
                    c,
                    orig.room_of(c),
                    orig.period_of(c),
                );
                assert(v2 >= v1);
                assert(self.graph_spec().next_pheromone_at(c, orig.room_of(c), orig.period_of(c))
                    == v2);
            }
            assert forall|c: int| 0 <= c < classes.len() implies
                #[trigger] self.graph_spec().next_pheromone_at(
                c,
                sup.room_of(c),
                sup.period_of(c),
            ) >= sup.deposit_of(classes, rooms, c) by {
                assert(sup.placed(c));
                assert(sup.room_of(c) < self.params_spec().num_of_rooms);
                assert(sup.period_of(c) + classes[c].serial_size
                    <= self.params_spec().num_of_periods);
                assert(classes[c].serial_size >= 1);
                sup.lemma_deposit_bounds(classes, rooms, c);
                assert(post_super.graph_spec().next_pheromone_at(
                    c,
                    sup.room_of(c),
                    sup.period_of(c),
                ) >= sup.deposit_of(classes, rooms, c));
            }
            assert forall|j: int|
                0 <= j < self.colony_spec().ants_spec().len()
                    && (#[trigger] self.colony_spec().ants_spec()[j]).complete() implies
                best.l_total_spec(classes, rooms) <= self.colony_spec().ants_spec()[j].l_total_spec(
                classes,
                rooms,
            ) by {
                assert(post_iter.colony_spec().ants_spec()[j].complete());
            }
            assert forall|c: int|
                0 <= c < classes.len() && (#[trigger] self.graph_spec().lock_spec(c)) is Some
                    implies best.placed(c) && best.crp_spec()[c] == self.graph_spec().lock_spec(
                c,
            )->Some_0 by {
                assert(post_iter.graph_spec().lock_spec(c) is Some);
                assert(orig.placed(c) && orig.crp_spec()[c] == post_iter.graph_spec().lock_spec(
                    c,
                )->Some_0);
            }
        }
        Ok(())
    }

    /// Run up to `n` iterations, stopping at the first over-constrained
    /// failure.  The fitness of the best ant ever seen never gets worse.
    pub fn run_aco_times(&mut self, n: u64) -> (res: Result<(), AcoError>)
        requires
            old(self).wf(),
        ensures
            final(self).wf(),
            final(self).params_spec() == old(self).params_spec(),
            final(self).graph_spec().same_problem(&old(self).graph_spec()),
            final(self).graph_spec().locks_spec() == old(self).graph_spec().locks_spec(),
            final(self).input_spec() == old(self).input_spec(),
            old(self).super_spec() is Some ==> final(self).super_spec() is Some
                && final(self).super_len_spec() <= old(self).super_len_spec(),
            res is Err ==> res->Err_0 == AcoError::NoAllocatableCell,
            old(self).graph_spec().always_constructible() ==> res is Ok,
            old(self).graph_spec().always_constructible()
                ==> final(self).graph_spec().always_constructible(),
    {
        let mut i: u64 = 0;
        while i < n
            invariant
                i <= n,
                self.wf(),
                self.params_spec() == old(self).params_spec(),
                self.graph_spec().same_problem(&old(self).graph_spec()),
                self.graph_spec().locks_spec() == old(self).graph_spec().locks_spec(),
                self.input_spec() == old(self).input_spec(),
                old(self).super_spec() is Some ==> self.super_spec() is Some
                    && self.super_len_spec() <= old(self).super_len_spec(),
                old(self).graph_spec().always_constructible()
                    ==> self.graph_spec().always_constructible(),
            decreases n - i,
        {
            match self.run_aco_once() {
                Ok(()) => {},
                Err(e) => {
                    proof {
                        if old(self).graph_spec().always_constructible() {
                            assert(false);
                        }
                    }
                    return Err(e);
                },
            }
            i += 1;
        }
        Ok(())
    }

    /// Apply a user lock: bias the pheromones of class `c` toward `(r, p)`
    /// and record the lock, which the locked pass of every later
    /// construction honors.
    pub fn one_hot_pheromone(&mut self, c: usize, r: usize, p: usize)
        requires
            old(self).wf(),
            c < old(self).graph_spec().classes_spec().len(),
            r < old(self).params_spec().num_of_rooms,
            p + old(self).graph_spec().classes_spec()[c as int].serial_size <= old(
                self,
            ).params_spec().num_of_periods,
            forall|c2: int|
                0 <= c2 < old(self).graph_spec().classes_spec().len() && c2 != c
                    ==> locks_compatible(
                    Some((r, p)),
                    #[trigger] old(self).graph_spec().locks_spec()[c2],
                    old(self).graph_spec().classes_spec()[c as int],
                    old(self).graph_spec().classes_spec()[c2],
                ),
        ensures
            final(self).wf(),
            final(self).params_spec() == old(self).params_spec(),
            final(self).graph_spec().same_problem(&old(self).graph_spec()),
            final(self).graph_spec().lock_spec(c as int) == Some((r, p)),
            final(self).graph_spec().pheromone_at(c as int, r as int, p as int)
                == old(self).params_spec().tau_max,
            forall|r2: int, p2: int|
                0 <= r2 < old(self).params_spec().num_of_rooms && 0 <= p2 < old(
                    self,
                ).params_spec().num_of_periods && !(r2 == r && p2 == p)
                    ==> final(self).graph_spec().pheromone_at(c as int, r2, p2)
                    == old(self).params_spec().tau_min,
    {
        let g = self.colony.get_graph_mut();
        g.reset_pheromone_one_hot(c, r, p);
        let ghost g_mid = *g;
        g.set_lock(c, r, p);
        proof {
            assert forall|r2: int, p2: int|
                0 <= r2 < old(self).params_spec().num_of_rooms && 0 <= p2 < old(
                    self,
                ).params_spec().num_of_periods && !(r2 == r && p2 == p) implies
                self.graph_spec().pheromone_at(c as int, r2, p2) == old(
                self,
            ).params_spec().tau_min by {
                let x = g_mid.pheromone_at(c as int, r2, p2);
            }
        }
    }
}

} // verus!
