use vstd::prelude::*;

use crate::ant::Ant;
use crate::errors::AcoError;
use crate::graph::Graph;
use crate::params::AcoParameters;

verus! {

/// A fleet of ants over one pheromone graph; replays one iteration of the
/// colony: every ant constructs a path, and the fittest finished ant wins.
pub struct Colony {
    ants: Vec<Ant>,
    graph: Graph,
}

impl Colony {
    pub closed spec fn graph_spec(&self) -> Graph {
        self.graph
    }

    pub closed spec fn ants_spec(&self) -> Seq<Ant> {
        self.ants@
    }

    /// Well-formedness: a valid graph and one ant per configured slot, each
    /// shaped for the graph's configuration.
    pub open spec fn wf(&self) -> bool {
        &&& self.graph_spec().wf()
        &&& self.ants_spec().len() == self.graph_spec().params_spec().num_of_ants
        &&& forall|i: int|
            0 <= i < self.ants_spec().len() ==> (#[trigger] self.ants_spec()[i]).params_spec()
                == self.graph_spec().params_spec() && self.ants_spec()[i].dims_ok_pub()
    }

    /// Build a colony of `num_of_ants` fresh ants over the given graph.
    pub fn new(graph: Graph, parameters: AcoParameters) -> (colony: Colony)
        requires
            graph.wf(),
            parameters == graph.params_spec(),
        ensures
            colony.wf(),
            colony.graph_spec() == graph,
    {
        let num_of_ants = parameters.num_of_ants;
        let mut ants: Vec<Ant> = Vec::new();
        let mut i: usize = 0;
        while i < num_of_ants
            invariant
                parameters.wf(),
                i <= num_of_ants,
                ants@.len() == i,
                forall|j: int|
                    0 <= j < i ==> (#[trigger] ants@[j]).params_spec() == parameters
                        && ants@[j].dims_ok_pub(),
            decreases num_of_ants - i,
        {
            let ant = Ant::new(parameters.clone());
            ants.push(ant);
            i += 1;
        }
        Colony { ants, graph }
    }

    pub fn get_graph(&self) -> (g: &Graph)
        ensures
            *g == self.graph_spec(),
    {
        &self.graph
    }

    /// Mutable access to the graph, for the solver's pheromone updates.
    pub fn get_graph_mut(&mut self) -> (g: &mut Graph)
        ensures
            *g == old(self).graph_spec(),
            final(self).graph_spec() == *final(g),
            final(self).ants_spec() == old(self).ants_spec(),
    {
        &mut self.graph
    }

    /// A read-only view of one ant.
    pub fn get_ant(&self, i: usize) -> (a: &Ant)
        requires
            i < self.ants_spec().len(),
        ensures
            *a == self.ants_spec()[i as int],
    {
        &self.ants[i]
    }

    /// One colony iteration: every ant builds a fresh assignment, and the
    /// index of a finished ant with minimal fitness is returned.  Fails only
    /// when no ant could finish.
    pub fn run_iteration(&mut self) -> (res: Result<usize, AcoError>)
        requires
            old(self).wf(),
        ensures
            final(self).wf(),
            final(self).graph_spec() == old(self).graph_spec(),
            match res {
                Ok(best) => {
                    &&& best < final(self).ants_spec().len()
                    &&& final(self).ants_spec()[best as int].wf(
                        final(self).graph_spec().classes_spec(),
                    )
                    &&& final(self).ants_spec()[best as int].complete()
                    &&& final(self).ants_spec()[best as int].locks_respected(
                        &final(self).graph_spec(),
                    )
                    &&& forall|j: int|
                        0 <= j < final(self).ants_spec().len()
                            && (#[trigger] final(self).ants_spec()[j]).complete()
                            ==> final(self).ants_spec()[best as int].l_total_spec(
                            final(self).graph_spec().classes_spec(),
                            final(self).graph_spec().rooms_spec(),
                        ) <= final(self).ants_spec()[j].l_total_spec(
                            final(self).graph_spec().classes_spec(),
                            final(self).graph_spec().rooms_spec(),
                        )
                },
                Err(e) => e == AcoError::NoAllocatableCell,
            },
            old(self).graph_spec().always_constructible() ==> res is Ok,
    {
        let ghost classes = self.graph.classes_spec();
        let ghost rooms = self.graph.rooms_spec();
        let num_ants = self.ants.len();
        let mut best: usize = 0;
        let mut best_len: u64 = 0;
        let mut found = false;
        let mut i: usize = 0;
        while i < num_ants
            invariant
                self.graph_spec().wf(),
                self.graph_spec() == old(self).graph_spec(),
                classes == self.graph_spec().classes_spec(),
                rooms == self.graph_spec().rooms_spec(),
                num_ants == self.ants_spec().len(),
                self.ants_spec().len() == self.graph_spec().params_spec().num_of_ants,
                forall|j: int|
                    0 <= j < self.ants_spec().len() ==> (#[trigger] self.ants_spec()[j]).params_spec()
                        == self.graph_spec().params_spec() && self.ants_spec()[j].dims_ok_pub(),
                i <= num_ants,
                found ==> best < i && self.ants_spec()[best as int].wf(classes) && self.ants_spec()[
                    best as int
                ].complete() && self.ants_spec()[best as int].locks_respected(&self.graph_spec())
                    && best_len as int == self.ants_spec()[best as int].l_total_spec(
                    classes,
                    rooms,
                ),
                forall|j: int|
                    0 <= j < i && (#[trigger] self.ants_spec()[j]).complete() ==> found && best_len
                        as int <= self.ants_spec()[j].l_total_spec(classes, rooms),
                (self.graph_spec().always_constructible() && i > 0) ==> found,
            decreases num_ants - i,
        {
            let constructed = self.ants[i].construct_path(&self.graph);
            match constructed {
                Ok(()) => {
                    let len = self.ants[i].calc_all_path_length(&self.graph);
                    if !found || len < best_len {
                        best = i;
                        best_len = len;
                        found = true;
                    }
                },
                Err(_) => {
                    proof {
                        if self.graph_spec().always_constructible() {
                            assert(false);
                        }
                    }
                },
            }
            i += 1;
        }
        if found {
            Ok(best)
        } else {
            Err(AcoError::NoAllocatableCell)
        }
    }

    /// Stage the deposits of the ant at `idx` into the graph's shadow
    /// tensor.
    pub fn stage_deposit(&mut self, idx: usize)
        requires
            old(self).wf(),
            idx < old(self).ants_spec().len(),
            old(self).ants_spec()[idx as int].wf(old(self).graph_spec().classes_spec()),
            old(self).ants_spec()[idx as int].complete(),
        ensures
            final(self).wf(),
            final(self).ants_spec() == old(self).ants_spec(),
            final(self).graph_spec().wf(),
            final(self).graph_spec().same_problem(&old(self).graph_spec()),
            final(self).graph_spec().locks_spec() == old(self).graph_spec().locks_spec(),
            final(self).graph_spec().pheromone_spec() == old(self).graph_spec().pheromone_spec(),
            final(self).graph_spec().next_pheromone_spec().len()
                == old(self).graph_spec().next_pheromone_spec().len(),
            forall|c: int, r: int, p: int|
                0 <= c < old(self).graph_spec().classes_spec().len() && 0 <= r < old(
                    self,
                ).graph_spec().params_spec().num_of_rooms && 0 <= p < old(
                    self,
                ).graph_spec().params_spec().num_of_periods
                    ==> #[trigger] final(self).graph_spec().next_pheromone_at(c, r, p) == (if r
                    == old(self).ants_spec()[idx as int].room_of(c) && p == old(
                    self,
                ).ants_spec()[idx as int].period_of(c) {
                    if old(self).graph_spec().next_pheromone_at(c, r, p) + old(
                        self,
                    ).ants_spec()[idx as int].deposit_of(
                        old(self).graph_spec().classes_spec(),
                        old(self).graph_spec().rooms_spec(),
                        c,
                    ) <= u64::MAX {
                        old(self).graph_spec().next_pheromone_at(c, r, p) + old(
                            self,
                        ).ants_spec()[idx as int].deposit_of(
                            old(self).graph_spec().classes_spec(),
                            old(self).graph_spec().rooms_spec(),
                            c,
                        )
                    } else {
                        u64::MAX as int
                    }
                } else {
                    old(self).graph_spec().next_pheromone_at(c, r, p) as int
                }),
            forall|c: int|
                0 <= c < old(self).graph_spec().classes_spec().len()
                    ==> #[trigger] old(self).ants_spec()[idx as int].deposit_of(
                    old(self).graph_spec().classes_spec(),
                    old(self).graph_spec().rooms_spec(),
                    c,
                ) >= 1,
    {
        let ant = &self.ants[idx];
        ant.update_next_pheromone(&mut self.graph);
    }
}

} // verus!
