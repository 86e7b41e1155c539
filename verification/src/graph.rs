use vstd::prelude::*;

use crate::input::{Class, Room, Teacher};
use crate::params::{AcoParameters, RATE_DEN};

verus! {

/// Flat index of the pheromone cell `(c, r, p)` in a `C x R x P` tensor.
pub open spec fn cell_index_spec(params: AcoParameters, c: int, r: int, p: int) -> int {
    (c * params.num_of_rooms + r) * params.num_of_periods + p
}

/// Two spans `[p1, p1 + s1)` and `[p2, p2 + s2)` share a period.
pub open spec fn spans_overlap(p1: int, s1: int, p2: int, s2: int) -> bool {
    !(p1 + s1 <= p2 || p2 + s2 <= p1)
}

/// A lock points at a span that fits the grid for its class.
pub open spec fn lock_ok(lock: Option<(usize, usize)>, class: Class, params: AcoParameters) -> bool {
    match lock {
        Some((r, p)) => r < params.num_of_rooms && p + class.serial_size <= params.num_of_periods,
        None => true,
    }
}

/// Two locks never claim the same cell: if they name the same room, their
/// period spans are disjoint.
pub open spec fn locks_compatible(
    lock1: Option<(usize, usize)>,
    lock2: Option<(usize, usize)>,
    class1: Class,
    class2: Class,
) -> bool {
    match (lock1, lock2) {
        (Some((r1, p1)), Some((r2, p2))) => r1 == r2 ==> !spans_overlap(
            p1 as int,
            class1.serial_size as int,
            p2 as int,
            class2.serial_size as int,
        ),
        _ => true,
    }
}

/// In-bounds cells index injectively into the flat tensor.
pub proof fn lemma_cell_index_injective(
    params: AcoParameters,
    c1: int,
    r1: int,
    p1: int,
    c2: int,
    r2: int,
    p2: int,
)
    requires
        0 <= c1,
        0 <= r1 < params.num_of_rooms,
        0 <= p1 < params.num_of_periods,
        0 <= c2,
        0 <= r2 < params.num_of_rooms,
        0 <= p2 < params.num_of_periods,
        cell_index_spec(params, c1, r1, p1) == cell_index_spec(params, c2, r2, p2),
    ensures
        c1 == c2 && r1 == r2 && p1 == p2,
{
    let rooms = params.num_of_rooms as int;
    let periods = params.num_of_periods as int;
    assert(c1 * rooms + r1 == c2 * rooms + r2 && p1 == p2) by (nonlinear_arith)
        requires
            0 <= p1 < periods,
            0 <= p2 < periods,
            (c1 * rooms + r1) * periods + p1 == (c2 * rooms + r2) * periods + p2,
    ;
    assert(c1 == c2 && r1 == r2) by (nonlinear_arith)
        requires
            0 <= r1 < rooms,
            0 <= r2 < rooms,
            c1 * rooms + r1 == c2 * rooms + r2,
    ;
}

/// An in-bounds cell stays inside the flat tensor.
pub proof fn lemma_cell_index_bounds(params: AcoParameters, c: int, r: int, p: int)
    requires
        0 <= c < params.num_of_classes,
        0 <= r < params.num_of_rooms,
        0 <= p < params.num_of_periods,
    ensures
        0 <= cell_index_spec(params, c, r, p) < params.num_of_classes * params.num_of_rooms
            * params.num_of_periods,
{
    let classes = params.num_of_classes as int;
    let rooms = params.num_of_rooms as int;
    let periods = params.num_of_periods as int;
    assert(0 <= (c * rooms + r) * periods + p < classes * rooms * periods) by (nonlinear_arith)
        requires
            0 <= c < classes,
            0 <= r < rooms,
            0 <= p < periods,
    ;
}

/// One evaporate-and-deposit step on a single pheromone cell:
/// `tau` decays by the factor `(1 - rho)`, the staged deposit is added, and
/// the result is clamped into `[tau_min, tau_max]`.
pub open spec fn evaporated_value(tau: int, next: int, params: AcoParameters) -> int {
    let decayed = (tau * (RATE_DEN - params.rho_per_mille)) / (RATE_DEN as int) + next;
    if decayed < params.tau_min {
        params.tau_min as int
    } else if decayed > params.tau_max {
        params.tau_max as int
    } else {
        decayed
    }
}

/// Guaranteed constructibility carries over to any graph state with the
/// same classes and the same lock table.
pub proof fn lemma_constructible_transfer(g1: &Graph, g2: &Graph)
    requires
        g1.always_constructible(),
        g2.classes_spec() == g1.classes_spec(),
        g2.locks_spec() == g1.locks_spec(),
    ensures
        g2.always_constructible(),
{
    if g1.classes_spec().len() <= 1 {
    } else {
        assert forall|c: int|
            0 <= c < g2.classes_spec().len() implies #[trigger] g2.lock_spec(c) is Some by {
            assert(g1.lock_spec(c) is Some);
        }
    }
}

/// Static problem data, pheromone tensor and lock table.
///
/// The tensor is stored flat, cell `(c, r, p)` at `(c * R + r) * P + p`;
/// `next_pheromone` is the shadow tensor that accumulates deposits until
/// `commit_evaporation` folds them into `pheromone`.
pub struct Graph {
    parameters: AcoParameters,
    classes: Vec<Class>,
    rooms: Vec<Room>,
    teachers: Vec<Teacher>,
    pheromone: Vec<u64>,
    next_pheromone: Vec<u64>,
    locks: Vec<Option<(usize, usize)>>,
}

impl Graph {
    pub closed spec fn params_spec(&self) -> AcoParameters {
        self.parameters
    }

    pub closed spec fn classes_spec(&self) -> Seq<Class> {
        self.classes@
    }

    pub closed spec fn rooms_spec(&self) -> Seq<Room> {
        self.rooms@
    }

    pub closed spec fn teachers_spec(&self) -> Seq<Teacher> {
        self.teachers@
    }

    pub closed spec fn pheromone_spec(&self) -> Seq<u64> {
        self.pheromone@
    }

    pub closed spec fn next_pheromone_spec(&self) -> Seq<u64> {
        self.next_pheromone@
    }

    pub closed spec fn locks_spec(&self) -> Seq<Option<(usize, usize)>> {
        self.locks@
    }

    /// The pheromone at cell `(c, r, p)`.
    pub open spec fn pheromone_at(&self, c: int, r: int, p: int) -> u64 {
        self.pheromone_spec()[cell_index_spec(self.params_spec(), c, r, p)]
    }

    /// The staged deposit at cell `(c, r, p)`.
    pub open spec fn next_pheromone_at(&self, c: int, r: int, p: int) -> u64 {
        self.next_pheromone_spec()[cell_index_spec(self.params_spec(), c, r, p)]
    }

    /// The lock of class `c`, if any.
    pub open spec fn lock_spec(&self, c: int) -> Option<(usize, usize)> {
        self.locks_spec()[c]
    }

    /// Well-formedness: valid configuration, tables of the configured sizes,
    /// valid classes, tensors of the right shape, and a consistent lock
    /// table whose spans fit the grid and never collide.
    pub open spec fn wf(&self) -> bool {
        &&& self.params_spec().wf()
        &&& self.classes_spec().len() == self.params_spec().num_of_classes
        &&& self.rooms_spec().len() == self.params_spec().num_of_rooms
        &&& self.teachers_spec().len() == self.params_spec().num_of_teachers
        &&& forall|c: int|
            0 <= c < self.classes_spec().len() ==> (#[trigger] self.classes_spec()[c]).wf(
                self.params_spec(),
            )
        &&& self.pheromone_spec().len() == self.params_spec().num_of_classes
            * self.params_spec().num_of_rooms * self.params_spec().num_of_periods
        &&& self.next_pheromone_spec().len() == self.pheromone_spec().len()
        &&& self.locks_spec().len() == self.params_spec().num_of_classes
        &&& forall|c: int|
            0 <= c < self.classes_spec().len() ==> lock_ok(
                #[trigger] self.locks_spec()[c],
                self.classes_spec()[c],
                self.params_spec(),
            )
        &&& forall|c1: int, c2: int|
            0 <= c1 < self.classes_spec().len() && 0 <= c2 < self.classes_spec().len() && c1 != c2
                ==> locks_compatible(
                #[trigger] self.locks_spec()[c1],
                #[trigger] self.locks_spec()[c2],
                self.classes_spec()[c1],
                self.classes_spec()[c2],
            )
    }

    /// Construction can never fail over this graph: either every class is
    /// locked (the locked pass places them all), or there is at most one
    /// class (a single class always finds a free span in an empty grid).
    pub open spec fn always_constructible(&self) -> bool {
        ||| forall|c: int|
            0 <= c < self.classes_spec().len() ==> #[trigger] self.lock_spec(c) is Some
        ||| self.classes_spec().len() <= 1
    }

    /// The static problem data (configuration and tables) of two graph states
    /// agree.
    pub open spec fn same_problem(&self, other: &Graph) -> bool {
        &&& self.params_spec() == other.params_spec()
        &&& self.classes_spec() == other.classes_spec()
        &&& self.rooms_spec() == other.rooms_spec()
        &&& self.teachers_spec() == other.teachers_spec()
    }

    /// Build a graph over the given problem tables.  Every pheromone cell
    /// starts at `tau_max`, no deposit is staged, and no class is locked.
    pub fn new(
        parameters: AcoParameters,
        classes: Vec<Class>,
        rooms: Vec<Room>,
        teachers: Vec<Teacher>,
    ) -> (g: Graph)
        requires
            parameters.wf(),
            classes@.len() == parameters.num_of_classes,
            rooms@.len() == parameters.num_of_rooms,
            teachers@.len() == parameters.num_of_teachers,
            forall|c: int| 0 <= c < classes@.len() ==> (#[trigger] classes@[c]).wf(parameters),
        ensures
            g.wf(),
            g.params_spec() == parameters,
            g.classes_spec() == classes@,
            g.rooms_spec() == rooms@,
            g.teachers_spec() == teachers@,
            forall|i: int|
                0 <= i < g.pheromone_spec().len() ==> g.pheromone_spec()[i] == parameters.tau_max,
            forall|i: int|
                0 <= i < g.next_pheromone_spec().len() ==> g.next_pheromone_spec()[i] == 0,
            forall|c: int| 0 <= c < g.classes_spec().len() ==> g.lock_spec(c) is None,
    {
        proof {
            assert(parameters.num_of_classes * parameters.num_of_rooms <= 1000 * 1000
                && parameters.num_of_classes * parameters.num_of_rooms * parameters.num_of_periods
                <= 1000 * 1000 * 1000) by (nonlinear_arith)
                requires
                    0 <= parameters.num_of_classes <= 1000,
                    0 <= parameters.num_of_rooms <= 1000,
                    0 <= parameters.num_of_periods <= 1000,
            ;
        }
        let len: usize = parameters.num_of_classes * parameters.num_of_rooms
            * parameters.num_of_periods;
        let pheromone: Vec<u64> = vec![parameters.tau_max; len];
        let next_pheromone: Vec<u64> = vec![0u64; len];
        let locks: Vec<Option<(usize, usize)>> = vec![None; parameters.num_of_classes];
        Graph { parameters, classes, rooms, teachers, pheromone, next_pheromone, locks }
    }

    pub fn get_parameters(&self) -> (r: &AcoParameters)
        ensures
            *r == self.params_spec(),
    {
        &self.parameters
    }

    pub fn get_class_ref(&self, c: usize) -> (r: &Class)
        requires
            c < self.classes_spec().len(),
        ensures
            *r == self.classes_spec()[c as int],
    {
        &self.classes[c]
    }

    pub fn get_room_ref(&self, r: usize) -> (room: &Room)
        requires
            r < self.rooms_spec().len(),
        ensures
            *room == self.rooms_spec()[r as int],
    {
        &self.rooms[r]
    }

    pub fn get_classes_ref(&self) -> (r: &Vec<Class>)
        ensures
            r@ == self.classes_spec(),
    {
        &self.classes
    }

    /// The locked `(room, start period)` of class `c`, if the class is locked.
    pub fn get_classes_is_locked(&self, c: usize) -> (r: Option<(usize, usize)>)
        requires
            self.wf(),
            c < self.classes_spec().len(),
        ensures
            r == self.lock_spec(c as int),
    {
        self.locks[c]
    }

    /// Flat index of an in-bounds cell.
    fn cell_index(&self, c: usize, r: usize, p: usize) -> (idx: usize)
        requires
            self.wf(),
            c < self.params_spec().num_of_classes,
            r < self.params_spec().num_of_rooms,
            p < self.params_spec().num_of_periods,
        ensures
            idx == cell_index_spec(self.params_spec(), c as int, r as int, p as int),
            idx < self.pheromone_spec().len(),
            idx < self.next_pheromone_spec().len(),
    {
        proof {
            lemma_cell_index_bounds(self.params_spec(), c as int, r as int, p as int);
            let ci = c as int;
            let ri = r as int;
            let rooms = self.params_spec().num_of_rooms as int;
            let periods = self.params_spec().num_of_periods as int;
            assert(ci * rooms <= 999000 && (ci * rooms + ri) * periods <= 999999000) by (
            nonlinear_arith)
                requires
                    0 <= ci < 1000,
                    0 <= ri < rooms,
                    0 < rooms <= 1000,
                    0 <= periods <= 1000,
            ;
        }
        (c * self.parameters.num_of_rooms + r) * self.parameters.num_of_periods + p
    }

    pub fn get_pheromone(&self, c: usize, r: usize, p: usize) -> (tau: u64)
        requires
            self.wf(),
            c < self.params_spec().num_of_classes,
            r < self.params_spec().num_of_rooms,
            p < self.params_spec().num_of_periods,
        ensures
            tau == self.pheromone_at(c as int, r as int, p as int),
    {
        let idx = self.cell_index(c, r, p);
        self.pheromone[idx]
    }

    /// Write one cell of the main tensor; every other cell and every other
    /// component stays as it was.
    fn set_pheromone_cell(&mut self, c: usize, r: usize, p: usize, v: u64)
        requires
            old(self).wf(),
            c < old(self).params_spec().num_of_classes,
            r < old(self).params_spec().num_of_rooms,
            p < old(self).params_spec().num_of_periods,
        ensures
            final(self).wf(),
            final(self).same_problem(old(self)),
            final(self).locks_spec() == old(self).locks_spec(),
            final(self).next_pheromone_spec() == old(self).next_pheromone_spec(),
            final(self).pheromone_at(c as int, r as int, p as int) == v,
            forall|c2: int, r2: int, p2: int|
                0 <= c2 < old(self).params_spec().num_of_classes && 0 <= r2 < old(
                    self,
                ).params_spec().num_of_rooms && 0 <= p2 < old(self).params_spec().num_of_periods
                    && !(c2 == c && r2 == r && p2 == p) ==> final(self).pheromone_at(c2, r2, p2)
                    == old(self).pheromone_at(c2, r2, p2),
            final(self).pheromone_spec().len() == old(self).pheromone_spec().len(),
    {
        let idx = self.cell_index(c, r, p);
        self.pheromone[idx] = v;
        proof {
            assert forall|c2: int, r2: int, p2: int|
                0 <= c2 < old(self).params_spec().num_of_classes && 0 <= r2 < old(
                    self,
                ).params_spec().num_of_rooms && 0 <= p2 < old(self).params_spec().num_of_periods
                    && !(c2 == c && r2 == r && p2 == p) implies self.pheromone_at(c2, r2, p2) == old(
                self,
            ).pheromone_at(c2, r2, p2) by {
                lemma_cell_index_bounds(self.params_spec(), c2, r2, p2);
                if cell_index_spec(self.params_spec(), c2, r2, p2) == cell_index_spec(
                    self.params_spec(),
                    c as int,
                    r as int,
                    p as int,
                ) {
                    lemma_cell_index_injective(
                        self.params_spec(),
                        c2,
                        r2,
                        p2,
                        c as int,
                        r as int,
                        p as int,
                    );
                }
            }
        }
    }

    /// Accumulate the deposit `delta` into the shadow tensor at `(c, r, p)`,
    /// saturating at the integer ceiling.
    pub fn add_next_pheromone(&mut self, c: usize, r: usize, p: usize, delta: u64)
        requires
            old(self).wf(),
            c < old(self).params_spec().num_of_classes,
            r < old(self).params_spec().num_of_rooms,
            p < old(self).params_spec().num_of_periods,
        ensures
            final(self).wf(),
            final(self).same_problem(old(self)),
            final(self).locks_spec() == old(self).locks_spec(),
            final(self).pheromone_spec() == old(self).pheromone_spec(),
            final(self).next_pheromone_spec().len() == old(self).next_pheromone_spec().len(),
            final(self).next_pheromone_at(c as int, r as int, p as int) == (if old(
                self,
            ).next_pheromone_at(c as int, r as int, p as int) + delta <= u64::MAX {
                old(self).next_pheromone_at(c as int, r as int, p as int) + delta
            } else {
                u64::MAX as int
            }),
            forall|c2: int, r2: int, p2: int|
                0 <= c2 < old(self).params_spec().num_of_classes && 0 <= r2 < old(
                    self,
                ).params_spec().num_of_rooms && 0 <= p2 < old(self).params_spec().num_of_periods
                    && !(c2 == c && r2 == r && p2 == p) ==> final(self).next_pheromone_at(c2, r2, p2)
                    == old(self).next_pheromone_at(c2, r2, p2),
    {
        let idx = self.cell_index(c, r, p);
        let cur: u64 = self.next_pheromone[idx];
        let v: u64 = if delta <= u64::MAX - cur {
            cur + delta
        } else {
            u64::MAX
        };
        self.next_pheromone[idx] = v;
        proof {
            assert forall|c2: int, r2: int, p2: int|
                0 <= c2 < old(self).params_spec().num_of_classes && 0 <= r2 < old(
                    self,
                ).params_spec().num_of_rooms && 0 <= p2 < old(self).params_spec().num_of_periods
                    && !(c2 == c && r2 == r && p2 == p) implies self.next_pheromone_at(c2, r2, p2)
                == old(self).next_pheromone_at(c2, r2, p2) by {
                lemma_cell_index_bounds(self.params_spec(), c2, r2, p2);
                if cell_index_spec(self.params_spec(), c2, r2, p2) == cell_index_spec(
                    self.params_spec(),
                    c as int,
                    r as int,
                    p as int,
                ) {
                    lemma_cell_index_injective(
                        self.params_spec(),
                        c2,
                        r2,
                        p2,
                        c as int,
                        r as int,
                        p as int,
                    );
                }
            }
        }
    }

    /// Fold the staged deposits into the tensor: every cell decays by
    /// `(1 - rho)`, receives its staged deposit, and is clamped into
    /// `[tau_min, tau_max]`; the shadow tensor is zeroed.
    ///
    /// Afterwards every pheromone value lies inside `[tau_min, tau_max]`.
    pub fn commit_evaporation(&mut self)
        requires
            old(self).wf(),
        ensures
            final(self).wf(),
            final(self).same_problem(old(self)),
            final(self).locks_spec() == old(self).locks_spec(),
            final(self).pheromone_spec().len() == old(self).pheromone_spec().len(),
            forall|i: int|
                0 <= i < old(self).pheromone_spec().len() ==> final(self).pheromone_spec()[i]
                    == evaporated_value(
                    old(self).pheromone_spec()[i] as int,
                    old(self).next_pheromone_spec()[i] as int,
                    old(self).params_spec(),
                ),
            forall|i: int|
                0 <= i < old(self).pheromone_spec().len() ==> old(self).params_spec().tau_min
                    <= #[trigger] final(self).pheromone_spec()[i]
                    && final(self).pheromone_spec()[i] <= old(self).params_spec().tau_max,
            forall|i: int|
                0 <= i < final(self).next_pheromone_spec().len()
                    ==> #[trigger] final(self).next_pheromone_spec()[i] == 0,
            final(self).next_pheromone_spec().len() == old(self).next_pheromone_spec().len(),
    {
        let rho = self.parameters.rho_per_mille;
        let keep: u64 = RATE_DEN - rho;
        let tau_min = self.parameters.tau_min;
        let tau_max = self.parameters.tau_max;
        let mut i: usize = 0;
        let len: usize = self.pheromone.len();
        while i < len
            invariant
                len == old(self).pheromone_spec().len(),
                i <= len,
                self.parameters == old(self).params_spec(),
                self.classes@ == old(self).classes_spec(),
                self.rooms@ == old(self).rooms_spec(),
                self.teachers@ == old(self).teachers_spec(),
                self.locks@ == old(self).locks_spec(),
                self.next_pheromone@ == old(self).next_pheromone_spec(),
                self.pheromone@.len() == len,
                keep == RATE_DEN - old(self).params_spec().rho_per_mille,
                tau_min == old(self).params_spec().tau_min,
                tau_max == old(self).params_spec().tau_max,
                old(self).wf(),
                forall|j: int|
                    0 <= j < i ==> self.pheromone@[j] == evaporated_value(
                        old(self).pheromone_spec()[j] as int,
                        old(self).next_pheromone_spec()[j] as int,
                        old(self).params_spec(),
                    ),
                forall|j: int| i <= j < len ==> self.pheromone@[j] == old(self).pheromone_spec()[j],
            decreases len - i,
        {
            let tau: u64 = self.pheromone[i];
            let next: u64 = self.next_pheromone[i];
            proof {
                assert((tau as int) * (keep as int) <= (u64::MAX as int) * (RATE_DEN as int)) by (
                nonlinear_arith)
                    requires
                        0 <= tau as int <= u64::MAX as int,
                        0 <= keep as int <= RATE_DEN as int,
                ;
            }
            let decayed_wide: u128 = (tau as u128) * (keep as u128) / (RATE_DEN as u128) + (
            next as u128);
            let v: u64 = if decayed_wide < (tau_min as u128) {
                tau_min
            } else if decayed_wide > (tau_max as u128) {
                tau_max
            } else {
                decayed_wide as u64
            };
            self.pheromone[i] = v;
            i += 1;
        }
        let mut i: usize = 0;
        while i < len
            invariant
                len == old(self).pheromone_spec().len(),
                i <= len,
                self.parameters == old(self).params_spec(),
                self.classes@ == old(self).classes_spec(),
                self.rooms@ == old(self).rooms_spec(),
                self.teachers@ == old(self).teachers_spec(),
                self.locks@ == old(self).locks_spec(),
                self.next_pheromone@.len() == old(self).next_pheromone_spec().len(),
                len == old(self).next_pheromone_spec().len(),
                old(self).wf(),
                self.pheromone@.len() == len,
                forall|j: int|
                    0 <= j < len ==> self.pheromone@[j] == evaporated_value(
                        old(self).pheromone_spec()[j] as int,
                        old(self).next_pheromone_spec()[j] as int,
                        old(self).params_spec(),
                    ),
                forall|j: int| 0 <= j < i ==> self.next_pheromone@[j] == 0,
                forall|j: int|
                    i <= j < len ==> self.next_pheromone@[j] == old(self).next_pheromone_spec()[j],
            decreases len - i,
        {
            self.next_pheromone[i] = 0;
            i += 1;
        }
    }

    /// Reset every pheromone cell to `tau_max` (the stagnation reset).
    pub fn reset_pheromone_all(&mut self)
        requires
            old(self).wf(),
        ensures
            final(self).wf(),
            final(self).same_problem(old(self)),
            final(self).locks_spec() == old(self).locks_spec(),
            final(self).next_pheromone_spec() == old(self).next_pheromone_spec(),
            final(self).pheromone_spec().len() == old(self).pheromone_spec().len(),
            forall|i: int|
                0 <= i < final(self).pheromone_spec().len() ==> final(self).pheromone_spec()[i]
                    == old(self).params_spec().tau_max,
    {
        let tau_max = self.parameters.tau_max;
        let mut i: usize = 0;
        let len: usize = self.pheromone.len();
        while i < len
            invariant
                len == old(self).pheromone_spec().len(),
                i <= len,
                self.parameters == old(self).params_spec(),
                self.classes@ == old(self).classes_spec(),
                self.rooms@ == old(self).rooms_spec(),
                self.teachers@ == old(self).teachers_spec(),
                self.locks@ == old(self).locks_spec(),
                self.next_pheromone@ == old(self).next_pheromone_spec(),
                self.pheromone@.len() == len,
                tau_max == old(self).params_spec().tau_max,
                old(self).wf(),
                forall|j: int| 0 <= j < i ==> self.pheromone@[j] == tau_max,
                forall|j: int| i <= j < len ==> self.pheromone@[j] == old(self).pheromone_spec()[j],
            decreases len - i,
        {
            self.pheromone[i] = tau_max;
            i += 1;
        }
    }

    /// Bias the tensor toward one cell: `tau[c][r][p]` becomes `tau_max` and
    /// every other cell of class `c` becomes `tau_min`.
    pub fn reset_pheromone_one_hot(&mut self, c: usize, r: usize, p: usize)
        requires
            old(self).wf(),
            c < old(self).params_spec().num_of_classes,
            r < old(self).params_spec().num_of_rooms,
            p < old(self).params_spec().num_of_periods,
        ensures
            final(self).wf(),
            final(self).same_problem(old(self)),
            final(self).locks_spec() == old(self).locks_spec(),
            final(self).next_pheromone_spec() == old(self).next_pheromone_spec(),
            final(self).pheromone_spec().len() == old(self).pheromone_spec().len(),
            final(self).pheromone_at(c as int, r as int, p as int) == old(
                self,
            ).params_spec().tau_max,
            forall|r2: int, p2: int|
                0 <= r2 < old(self).params_spec().num_of_rooms && 0 <= p2 < old(
                    self,
                ).params_spec().num_of_periods && !(r2 == r && p2 == p) ==> final(self).pheromone_at(
                    c as int,
                    r2,
                    p2,
                ) == old(self).params_spec().tau_min,
            forall|c2: int, r2: int, p2: int|
                0 <= c2 < old(self).params_spec().num_of_classes && 0 <= r2 < old(
                    self,
                ).params_spec().num_of_rooms && 0 <= p2 < old(self).params_spec().num_of_periods
                    && c2 != c ==> final(self).pheromone_at(c2, r2, p2) == old(self).pheromone_at(
                    c2,
                    r2,
                    p2,
                ),
    {
        let tau_min = self.parameters.tau_min;
        let tau_max = self.parameters.tau_max;
        let num_rooms = self.parameters.num_of_rooms;
        let num_periods = self.parameters.num_of_periods;
        let mut r2: usize = 0;
        while r2 < num_rooms
            invariant
                num_rooms == old(self).params_spec().num_of_rooms,
                num_periods == old(self).params_spec().num_of_periods,
                tau_min == old(self).params_spec().tau_min,
                tau_max == old(self).params_spec().tau_max,
                r2 <= num_rooms,
                c < old(self).params_spec().num_of_classes,
                self.wf(),
                self.same_problem(old(self)),
                self.locks_spec() == old(self).locks_spec(),
                self.next_pheromone_spec() == old(self).next_pheromone_spec(),
                self.pheromone_spec().len() == old(self).pheromone_spec().len(),
                forall|rr: int, pp: int|
                    0 <= rr < r2 && 0 <= pp < num_periods ==> self.pheromone_at(c as int, rr, pp)
                        == tau_min,
                forall|rr: int, pp: int|
                    r2 <= rr < num_rooms && 0 <= pp < num_periods ==> self.pheromone_at(
                        c as int,
                        rr,
                        pp,
                    ) == old(self).pheromone_at(c as int, rr, pp),
                forall|c2: int, rr: int, pp: int|
                    0 <= c2 < old(self).params_spec().num_of_classes && 0 <= rr < num_rooms && 0
                        <= pp < num_periods && c2 != c ==> self.pheromone_at(c2, rr, pp) == old(
                        self,
                    ).pheromone_at(c2, rr, pp),
            decreases num_rooms - r2,
        {
            let mut p2: usize = 0;
            while p2 < num_periods
                invariant
                    num_rooms == old(self).params_spec().num_of_rooms,
                    num_periods == old(self).params_spec().num_of_periods,
                    tau_min == old(self).params_spec().tau_min,
                    tau_max == old(self).params_spec().tau_max,
                    r2 < num_rooms,
                    p2 <= num_periods,
                    c < old(self).params_spec().num_of_classes,
                    self.wf(),
                    self.same_problem(old(self)),
                    self.locks_spec() == old(self).locks_spec(),
                    self.next_pheromone_spec() == old(self).next_pheromone_spec(),
                    self.pheromone_spec().len() == old(self).pheromone_spec().len(),
                    forall|rr: int, pp: int|
                        0 <= rr < r2 && 0 <= pp < num_periods ==> self.pheromone_at(
                            c as int,
                            rr,
                            pp,
                        ) == tau_min,
                    forall|pp: int|
                        0 <= pp < p2 ==> self.pheromone_at(c as int, r2 as int, pp) == tau_min,
                    forall|pp: int|
                        p2 <= pp < num_periods ==> self.pheromone_at(c as int, r2 as int, pp)
                            == old(self).pheromone_at(c as int, r2 as int, pp),
                    forall|rr: int, pp: int|
                        r2 < rr < num_rooms && 0 <= pp < num_periods ==> self.pheromone_at(
                            c as int,
                            rr,
                            pp,
                        ) == old(self).pheromone_at(c as int, rr, pp),
                    forall|c2: int, rr: int, pp: int|
                        0 <= c2 < old(self).params_spec().num_of_classes && 0 <= rr < num_rooms && 0
                            <= pp < num_periods && c2 != c ==> self.pheromone_at(c2, rr, pp) == old(
                            self,
                        ).pheromone_at(c2, rr, pp),
                decreases num_periods - p2,
            {
                self.set_pheromone_cell(c, r2, p2, tau_min);
                p2 += 1;
            }
            r2 += 1;
        }
        self.set_pheromone_cell(c, r, p, tau_max);
    }

    /// Record a lock for class `c` at `(r, p)`.  The span must fit the grid
    /// and stay clear of every other locked span in the same room.
    pub fn set_lock(&mut self, c: usize, r: usize, p: usize)
        requires
            old(self).wf(),
            c < old(self).params_spec().num_of_classes,
            r < old(self).params_spec().num_of_rooms,
            p + old(self).classes_spec()[c as int].serial_size <= old(
                self,
            ).params_spec().num_of_periods,
            forall|c2: int|
                0 <= c2 < old(self).classes_spec().len() && c2 != c ==> locks_compatible(
                    Some((r, p)),
                    #[trigger] old(self).locks_spec()[c2],
                    old(self).classes_spec()[c as int],
                    old(self).classes_spec()[c2],
                ),
        ensures
            final(self).wf(),
            final(self).same_problem(old(self)),
            final(self).pheromone_spec() == old(self).pheromone_spec(),
            final(self).next_pheromone_spec() == old(self).next_pheromone_spec(),
            final(self).lock_spec(c as int) == Some((r, p)),
            forall|c2: int|
                0 <= c2 < old(self).classes_spec().len() && c2 != c ==> final(self).lock_spec(c2)
                    == old(self).lock_spec(c2),
    {
        self.locks[c] = Some((r, p));
        proof {
            assert(self.locks_spec() =~= old(self).locks_spec().update(c as int, Some((r, p))));
            assert forall|c1: int, c2: int|
                0 <= c1 < self.classes_spec().len() && 0 <= c2 < self.classes_spec().len() && c1
                    != c2 implies locks_compatible(
                self.locks_spec()[c1],
                self.locks_spec()[c2],
                self.classes_spec()[c1],
                self.classes_spec()[c2],
            ) by {
                if c1 == c as int {
                    assert(locks_compatible(
                        Some((r, p)),
                        old(self).locks_spec()[c2],
                        old(self).classes_spec()[c as int],
                        old(self).classes_spec()[c2],
                    ));
                } else if c2 == c as int {
                    assert(locks_compatible(
                        Some((r, p)),
                        old(self).locks_spec()[c1],
                        old(self).classes_spec()[c as int],
                        old(self).classes_spec()[c1],
                    ));
                } else {
                    assert(locks_compatible(
                        old(self).locks_spec()[c1],
                        old(self).locks_spec()[c2],
                        old(self).classes_spec()[c1],
                        old(self).classes_spec()[c2],
                    ));
                }
            }
        }
    }

    /// Remove the lock of class `c`, if any.
    pub fn clear_lock(&mut self, c: usize)
        requires
            old(self).wf(),
            c < old(self).params_spec().num_of_classes,
        ensures
            final(self).wf(),
            final(self).same_problem(old(self)),
            final(self).pheromone_spec() == old(self).pheromone_spec(),
            final(self).next_pheromone_spec() == old(self).next_pheromone_spec(),
            final(self).lock_spec(c as int) is None,
            forall|c2: int|
                0 <= c2 < old(self).classes_spec().len() && c2 != c ==> final(self).lock_spec(c2)
                    == old(self).lock_spec(c2),
    {
        self.locks[c] = None;
        proof {
            assert(self.locks_spec() =~= old(self).locks_spec().update(c as int, None));
        }
    }
}

} // verus!
