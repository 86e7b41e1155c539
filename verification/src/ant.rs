use vstd::prelude::*;

use crate::errors::AcoError;
use crate::graph::{lock_ok, locks_compatible, spans_overlap, Graph};
use crate::input::{Class, Input, Room};
use crate::params::AcoParameters;
use crate::sampling::weight_of;
use crate::violations::Violations;

verus! {

/// Fitness coefficient of a room-capacity violation.
pub const CAP_COEF: u64 = 2;

/// Fitness coefficient of a teacher conflict pair.
pub const TEACHER_COEF: u64 = 3;

/// Fitness coefficient of a student-group conflict pair.
pub const STUDENT_COEF: u64 = 3;

/// Fitness coefficient of a day-straddling class.
pub const STRADDLE_DAYS_COEF: u64 = 1;

/// Number of unordered pairs among `n` occupants: `n * (n - 1) / 2`.
pub open spec fn pair_count(n: int) -> int {
    n * (n - 1) / 2
}

/// Number of `true` entries in the first `n` slots.
pub open spec fn count_true(s: Seq<bool>, n: int) -> int
    decreases n,
{
    if n <= 0 {
        0
    } else {
        count_true(s, n - 1) + if s[n - 1] {
            1int
        } else {
            0int
        }
    }
}

pub proof fn lemma_count_true_le(s: Seq<bool>, n: int)
    requires
        0 <= n,
    ensures
        0 <= count_true(s, n) <= n,
    decreases n,
{
    if n > 0 {
        lemma_count_true_le(s, n - 1);
    }
}

/// Setting one `false` slot to `true` raises the count by exactly one.
pub proof fn lemma_count_true_set(s: Seq<bool>, c: int, n: int)
    requires
        0 <= c < s.len(),
        !s[c],
    ensures
        forall|m: int|
            0 <= m <= s.len() ==> #[trigger] count_true(s.update(c, true), m) == count_true(s, m)
                + if c < m {
                1int
            } else {
                0int
            },
{
    assert forall|m: int| 0 <= m <= s.len() implies #[trigger] count_true(s.update(c, true), m)
        == count_true(s, m) + if c < m {
        1int
    } else {
        0int
    } by {
        lemma_count_true_set_one(s, c, m);
    }
}

proof fn lemma_count_true_set_one(s: Seq<bool>, c: int, m: int)
    requires
        0 <= c < s.len(),
        !s[c],
        0 <= m <= s.len(),
    ensures
        count_true(s.update(c, true), m) == count_true(s, m) + if c < m {
            1int
        } else {
            0int
        },
    decreases m,
{
    if m > 0 {
        lemma_count_true_set_one(s, c, m - 1);
    }
}

/// A vector of `n` zero assignments.
fn make_crp_vec(n: usize) -> (v: Vec<(usize, usize)>)
    ensures
        v@.len() == n,
        forall|c: int| 0 <= c < n ==> v@[c] == (0usize, 0usize),
{
    let mut v: Vec<(usize, usize)> = Vec::new();
    let mut i: usize = 0;
    while i < n
        invariant
            i <= n,
            v@.len() == i,
            forall|c: int| 0 <= c < i ==> v@[c] == (0usize, 0usize),
        decreases n - i,
    {
        v.push((0usize, 0usize));
        i += 1;
    }
    v
}

/// A `rows x cols` grid of `false`.
fn make_bool_grid(rows: usize, cols: usize) -> (g: Vec<Vec<bool>>)
    ensures
        g@.len() == rows,
        forall|r: int| 0 <= r < rows ==> (#[trigger] g@[r])@.len() == cols,
        forall|r: int, p: int| 0 <= r < rows && 0 <= p < cols ==> !(#[trigger] g@[r]@[p]),
{
    let mut g: Vec<Vec<bool>> = Vec::new();
    let mut r: usize = 0;
    while r < rows
        invariant
            r <= rows,
            g@.len() == r,
            forall|i: int| 0 <= i < r ==> (#[trigger] g@[i])@.len() == cols,
            forall|i: int, p: int| 0 <= i < r && 0 <= p < cols ==> !(#[trigger] g@[i]@[p]),
        decreases rows - r,
    {
        let row: Vec<bool> = vec![false; cols];
        g.push(row);
        r += 1;
    }
    g
}

/// A `rows x cols` grid of empty room lists.
fn make_room_lists(rows: usize, cols: usize) -> (g: Vec<Vec<Vec<usize>>>)
    ensures
        g@.len() == rows,
        forall|r: int| 0 <= r < rows ==> (#[trigger] g@[r])@.len() == cols,
        forall|r: int, p: int|
            0 <= r < rows && 0 <= p < cols ==> (#[trigger] g@[r]@[p])@.len() == 0,
{
    let mut g: Vec<Vec<Vec<usize>>> = Vec::new();
    let mut r: usize = 0;
    while r < rows
        invariant
            r <= rows,
            g@.len() == r,
            forall|i: int| 0 <= i < r ==> (#[trigger] g@[i])@.len() == cols,
            forall|i: int, p: int|
                0 <= i < r && 0 <= p < cols ==> (#[trigger] g@[i]@[p])@.len() == 0,
        decreases rows - r,
    {
        let mut row: Vec<Vec<usize>> = Vec::new();
        let mut p: usize = 0;
        while p < cols
            invariant
                p <= cols,
                row@.len() == p,
                forall|j: int| 0 <= j < p ==> (#[trigger] row@[j])@.len() == 0,
            decreases cols - p,
        {
            let cell: Vec<usize> = Vec::new();
            row.push(cell);
            p += 1;
        }
        g.push(row);
        r += 1;
    }
    g
}

/// One candidate assignment under construction: the visited flags, the
/// claimed cells, the class-to-cell table, and the incremental teacher and
/// student-group occupancy tables.
///
/// The occupancy tables are kept dense: `teachers_times[t][p]` lists, one
/// entry per placed class, the rooms where teacher `t` stands in period `p`.
#[derive(Clone)]
pub struct Ant {
    visited_classes: Vec<bool>,
    visited_roomperiods: Vec<Vec<bool>>,
    corresponding_crp: Vec<(usize, usize)>,
    parameters: AcoParameters,
    teachers_times: Vec<Vec<Vec<usize>>>,
    students_times: Vec<Vec<Vec<usize>>>,
}

impl Ant {
    pub closed spec fn params_spec(&self) -> AcoParameters {
        self.parameters
    }

    pub closed spec fn visited_spec(&self) -> Seq<bool> {
        self.visited_classes@
    }

    pub closed spec fn crp_spec(&self) -> Seq<(usize, usize)> {
        self.corresponding_crp@
    }

    /// The claimed-cell grid, row per room.
    pub closed spec fn rp_grid(&self) -> Seq<Vec<bool>> {
        self.visited_roomperiods@
    }

    /// The teacher occupancy table.
    pub closed spec fn tt_spec(&self) -> Seq<Vec<Vec<usize>>> {
        self.teachers_times@
    }

    /// The student-group occupancy table.
    pub closed spec fn st_spec(&self) -> Seq<Vec<Vec<usize>>> {
        self.students_times@
    }

    /// The cell `(r, p)` is claimed by some placed class.
    pub open spec fn cell_marked(&self, r: int, p: int) -> bool {
        self.rp_grid()[r]@[p]
    }

    /// Rooms where teacher `t` stands in period `p` (one entry per class).
    pub open spec fn teacher_rooms(&self, t: int, p: int) -> Seq<usize> {
        self.tt_spec()[t]@[p]@
    }

    /// Rooms where student group `g` sits in period `p`.
    pub open spec fn student_rooms(&self, g: int, p: int) -> Seq<usize> {
        self.st_spec()[g]@[p]@
    }

    /// Shapes of the internal tables match the configuration.
    pub open spec fn dims_ok(&self) -> bool {
        &&& self.visited_spec().len() == self.params_spec().num_of_classes
        &&& self.crp_spec().len() == self.params_spec().num_of_classes
        &&& self.rp_grid().len() == self.params_spec().num_of_rooms
        &&& forall|r: int|
            0 <= r < self.rp_grid().len() ==> (#[trigger] self.rp_grid()[r])@.len()
                == self.params_spec().num_of_periods
        &&& self.tt_spec().len() == self.params_spec().num_of_teachers
        &&& forall|t: int|
            0 <= t < self.tt_spec().len() ==> (#[trigger] self.tt_spec()[t])@.len()
                == self.params_spec().num_of_periods
        &&& self.st_spec().len() == self.params_spec().num_of_students
        &&& forall|g: int|
            0 <= g < self.st_spec().len() ==> (#[trigger] self.st_spec()[g])@.len()
                == self.params_spec().num_of_periods
    }

    /// Class `c` has been placed.
    pub open spec fn placed(&self, c: int) -> bool {
        self.visited_spec()[c]
    }

    /// Number of placed classes.
    pub open spec fn placed_count(&self) -> int {
        count_true(self.visited_spec(), self.visited_spec().len() as int)
    }

    /// The room of the assignment of class `c`.
    pub open spec fn room_of(&self, c: int) -> int {
        self.crp_spec()[c].0 as int
    }

    /// The starting period of the assignment of class `c`.
    pub open spec fn period_of(&self, c: int) -> int {
        self.crp_spec()[c].1 as int
    }

    /// The placed class `c` claims the cell `(r, p)`.
    pub open spec fn claims(&self, classes: Seq<Class>, c: int, r: int, p: int) -> bool {
        &&& self.placed(c)
        &&& self.room_of(c) == r
        &&& self.period_of(c) <= p < self.period_of(c) + classes[c].serial_size
    }

    /// The assignment of a placed class stays inside the grid.
    pub open spec fn placement_in_bounds(&self, classes: Seq<Class>) -> bool {
        forall|c: int|
            0 <= c < classes.len() && self.placed(c) ==> #[trigger] self.room_of(c)
                < self.params_spec().num_of_rooms && self.period_of(c) + classes[c].serial_size
                <= self.params_spec().num_of_periods
    }

    /// Every cell of a placed class's span is marked.
    pub open spec fn cells_cover_placements(&self, classes: Seq<Class>) -> bool {
        forall|c: int, p: int|
            0 <= c < classes.len() && self.placed(c) && self.period_of(c) <= p < self.period_of(c)
                + classes[c].serial_size ==> #[trigger] self.cell_marked(self.room_of(c), p)
    }

    /// Every marked cell is claimed by some placed class.
    pub open spec fn cells_owned(&self, classes: Seq<Class>) -> bool {
        forall|r: int, p: int|
            0 <= r < self.params_spec().num_of_rooms && 0 <= p < self.params_spec().num_of_periods
                && #[trigger] self.cell_marked(r, p) ==> exists|c: int|
                0 <= c < classes.len() && self.claims(classes, c, r, p)
    }

    /// Two placed classes never share a cell: in the same room their spans
    /// are disjoint.
    pub open spec fn placements_disjoint(&self, classes: Seq<Class>) -> bool {
        forall|c1: int, c2: int|
            0 <= c1 < classes.len() && 0 <= c2 < classes.len() && c1 != c2 && #[trigger] self.placed(
                c1,
            ) && #[trigger] self.placed(c2) && self.room_of(c1) == self.room_of(c2)
                ==> !spans_overlap(
                self.period_of(c1),
                classes[c1].serial_size as int,
                self.period_of(c2),
                classes[c2].serial_size as int,
            )
    }

    /// The room of a placed class appears in the occupancy list of each of
    /// its teachers and student groups at every period of its span.
    pub open spec fn occupancy_covers_placements(&self, classes: Seq<Class>) -> bool {
        &&& forall|c: int, j: int, p: int|
            0 <= c < classes.len() && self.placed(c) && 0 <= j
                < classes[c].teacher_indexes@.len() && self.period_of(c) <= p < self.period_of(c)
                + classes[c].serial_size ==> (#[trigger] self.teacher_rooms(
                classes[c].teacher_indexes@[j] as int,
                p,
            )).contains(self.crp_spec()[c].0)
        &&& forall|c: int, j: int, p: int|
            0 <= c < classes.len() && self.placed(c) && 0 <= j
                < classes[c].students_group_indexes@.len() && self.period_of(c) <= p
                < self.period_of(c) + classes[c].serial_size ==> (#[trigger] self.student_rooms(
                classes[c].students_group_indexes@[j] as int,
                p,
            )).contains(self.crp_spec()[c].0)
    }

    /// Occupancy entries are valid rooms, and no list is longer than the
    /// number of placed classes.
    pub open spec fn occupancy_bounded(&self) -> bool {
        &&& forall|t: int, p: int|
            0 <= t < self.params_spec().num_of_teachers && 0 <= p
                < self.params_spec().num_of_periods ==> (#[trigger] self.teacher_rooms(t, p)).len()
                <= self.placed_count() && (forall|k: int|
                0 <= k < self.teacher_rooms(t, p).len() ==> #[trigger] self.teacher_rooms(t, p)[k]
                    < self.params_spec().num_of_rooms)
        &&& forall|g: int, p: int|
            0 <= g < self.params_spec().num_of_students && 0 <= p
                < self.params_spec().num_of_periods ==> (#[trigger] self.student_rooms(g, p)).len()
                <= self.placed_count() && (forall|k: int|
                0 <= k < self.student_rooms(g, p).len() ==> #[trigger] self.student_rooms(g, p)[k]
                    < self.params_spec().num_of_rooms)
    }

    /// Full well-formedness of an ant against the class table it was built
    /// over.
    pub open spec fn wf(&self, classes: Seq<Class>) -> bool {
        &&& self.params_spec().wf()
        &&& classes.len() == self.params_spec().num_of_classes
        &&& forall|c: int|
            0 <= c < classes.len() ==> (#[trigger] classes[c]).wf(self.params_spec())
        &&& self.dims_ok()
        &&& self.visited_spec().len() == self.params_spec().num_of_classes
        &&& self.crp_spec().len() == self.params_spec().num_of_classes
        &&& self.placement_in_bounds(classes)
        &&& self.cells_cover_placements(classes)
        &&& self.cells_owned(classes)
        &&& self.placements_disjoint(classes)
        &&& self.occupancy_covers_placements(classes)
        &&& self.occupancy_bounded()
    }

    /// Every class has been placed.
    pub open spec fn complete(&self) -> bool {
        forall|c: int| 0 <= c < self.visited_spec().len() ==> #[trigger] self.placed(c)
    }

    /// A fresh ant: nothing placed, nothing marked, occupancy empty.
    pub open spec fn fresh(&self) -> bool {
        &&& forall|c: int| 0 <= c < self.visited_spec().len() ==> !(#[trigger] self.placed(c))
        &&& forall|r: int, p: int|
            0 <= r < self.params_spec().num_of_rooms && 0 <= p < self.params_spec().num_of_periods
                ==> !(#[trigger] self.cell_marked(r, p))
        &&& forall|t: int, p: int|
            0 <= t < self.params_spec().num_of_teachers && 0 <= p
                < self.params_spec().num_of_periods ==> (#[trigger] self.teacher_rooms(t, p)).len()
                == 0
        &&& forall|g: int, p: int|
            0 <= g < self.params_spec().num_of_students && 0 <= p
                < self.params_spec().num_of_periods ==> (#[trigger] self.student_rooms(g, p)).len()
                == 0
    }

    /// A fresh ant is well-formed over any matching class table.
    pub proof fn lemma_fresh_wf(&self, classes: Seq<Class>)
        requires
            self.params_spec().wf(),
            classes.len() == self.params_spec().num_of_classes,
            forall|c: int|
                0 <= c < classes.len() ==> (#[trigger] classes[c]).wf(self.params_spec()),
            self.dims_ok_pub(),
            self.fresh(),
        ensures
            self.wf(classes),
    {
        lemma_count_true_le(self.visited_spec(), self.visited_spec().len() as int);
        assert forall|t: int, p: int|
            0 <= t < self.params_spec().num_of_teachers && 0 <= p
                < self.params_spec().num_of_periods implies (#[trigger] self.teacher_rooms(
            t,
            p,
        )).len() <= self.placed_count() && (forall|k: int|
            0 <= k < self.teacher_rooms(t, p).len() ==> #[trigger] self.teacher_rooms(t, p)[k]
                < self.params_spec().num_of_rooms) by {
            assert forall|c: int| 0 <= c < self.visited_spec().len() implies !self.visited_spec()[c] by {
                assert(!self.placed(c));
            }
            lemma_count_nothing_placed(self.visited_spec(), self.visited_spec().len() as int);
        }
        assert forall|g: int, p: int|
            0 <= g < self.params_spec().num_of_students && 0 <= p
                < self.params_spec().num_of_periods implies (#[trigger] self.student_rooms(
            g,
            p,
        )).len() <= self.placed_count() && (forall|k: int|
            0 <= k < self.student_rooms(g, p).len() ==> #[trigger] self.student_rooms(g, p)[k]
                < self.params_spec().num_of_rooms) by {
            assert forall|c: int| 0 <= c < self.visited_spec().len() implies !self.visited_spec()[c] by {
                assert(!self.placed(c));
            }
            lemma_count_nothing_placed(self.visited_spec(), self.visited_spec().len() as int);
        }
    }

    /// `dims_ok`, re-exported so that callers outside the module can state it.
    pub open spec fn dims_ok_pub(&self) -> bool {
        &&& self.dims_ok()
        &&& self.visited_spec().len() == self.params_spec().num_of_classes
        &&& self.crp_spec().len() == self.params_spec().num_of_classes
    }

    /// Build an ant with empty state for the given configuration.
    pub fn new(parameters: AcoParameters) -> (ant: Ant)
        requires
            parameters.wf(),
        ensures
            ant.params_spec() == parameters,
            ant.dims_ok_pub(),
            ant.fresh(),
            forall|c: int| 0 <= c < ant.crp_spec().len() ==> ant.crp_spec()[c] == (0usize, 0usize),
    {
        let visited_classes: Vec<bool> = vec![false; parameters.num_of_classes];
        let visited_roomperiods: Vec<Vec<bool>> = make_bool_grid(
            parameters.num_of_rooms,
            parameters.num_of_periods,
        );
        let corresponding_crp: Vec<(usize, usize)> = make_crp_vec(parameters.num_of_classes);
        let teachers_times: Vec<Vec<Vec<usize>>> = make_room_lists(
            parameters.num_of_teachers,
            parameters.num_of_periods,
        );
        let students_times: Vec<Vec<Vec<usize>>> = make_room_lists(
            parameters.num_of_students,
            parameters.num_of_periods,
        );
        Ant {
            visited_classes,
            visited_roomperiods,
            corresponding_crp,
            parameters,
            teachers_times,
            students_times,
        }
    }

    /// Zero the visited bitmaps and the assignment table.
    pub fn reset_ant(&mut self)
        requires
            old(self).params_spec().wf(),
            old(self).dims_ok_pub(),
        ensures
            final(self).params_spec() == old(self).params_spec(),
            final(self).dims_ok_pub(),
            final(self).teachers_times_unchanged(old(self)),
            final(self).students_times_unchanged(old(self)),
            forall|c: int|
                0 <= c < final(self).visited_spec().len() ==> !(#[trigger] final(self).placed(c)),
            forall|r: int, p: int|
                0 <= r < final(self).params_spec().num_of_rooms
                    && 0 <= p < final(self).params_spec().num_of_periods
                    ==> !(#[trigger] final(self).cell_marked(r, p)),
            forall|c: int|
                0 <= c < final(self).crp_spec().len() ==> final(self).crp_spec()[c] == (
                0usize,
                0usize,
            ),
    {
        self.visited_classes = vec![false; self.parameters.num_of_classes];
        self.visited_roomperiods = make_bool_grid(
            self.parameters.num_of_rooms,
            self.parameters.num_of_periods,
        );
        self.corresponding_crp = make_crp_vec(self.parameters.num_of_classes);
    }

    /// The teacher occupancy tables of two ant states agree.
    pub open spec fn teachers_times_unchanged(&self, other: &Ant) -> bool {
        self.tt_spec() == other.tt_spec()
    }

    /// The student occupancy tables of two ant states agree.
    pub open spec fn students_times_unchanged(&self, other: &Ant) -> bool {
        self.st_spec() == other.st_spec()
    }

    /// The assignment table: `crp[c]` is the `(room, start period)` of class
    /// `c`.
    pub fn get_corresponding_crp(&self) -> (r: &Vec<(usize, usize)>)
        ensures
            r@ == self.crp_spec(),
    {
        &self.corresponding_crp
    }

    /// Mark every cell of the span `(room, period .. period + size)`.
    fn mark_cells(&mut self, room: usize, period: usize, size: usize)
        requires
            old(self).params_spec().wf(),
            old(self).dims_ok_pub(),
            room < old(self).params_spec().num_of_rooms,
            period + size <= old(self).params_spec().num_of_periods,
        ensures
            final(self).params_spec() == old(self).params_spec(),
            final(self).dims_ok_pub(),
            final(self).visited_spec() == old(self).visited_spec(),
            final(self).crp_spec() == old(self).crp_spec(),
            final(self).teachers_times_unchanged(old(self)),
            final(self).students_times_unchanged(old(self)),
            forall|r: int, p: int|
                0 <= r < old(self).params_spec().num_of_rooms && 0 <= p < old(
                    self,
                ).params_spec().num_of_periods ==> #[trigger] final(self).cell_marked(r, p) == (old(
                    self,
                ).cell_marked(r, p) || (r == room && period <= p < period + size)),
    {
        let mut i: usize = 0;
        while i < size
            invariant
                i <= size,
                self.params_spec() == old(self).params_spec(),
                self.params_spec().wf(),
                self.dims_ok_pub(),
                room < self.params_spec().num_of_rooms,
                period + size <= self.params_spec().num_of_periods,
                self.visited_spec() == old(self).visited_spec(),
                self.crp_spec() == old(self).crp_spec(),
                self.teachers_times_unchanged(old(self)),
                self.students_times_unchanged(old(self)),
                forall|r: int, p: int|
                    0 <= r < self.params_spec().num_of_rooms && 0 <= p
                        < self.params_spec().num_of_periods ==> #[trigger] self.cell_marked(r, p)
                        == (old(self).cell_marked(r, p) || (r == room && period <= p < period + i)),
            decreases size - i,
        {
            let ghost prev = *self;
            self.visited_roomperiods[room][period + i] = true;
            proof {
                assert forall|r: int, p: int|
                    0 <= r < self.params_spec().num_of_rooms && 0 <= p
                        < self.params_spec().num_of_periods implies #[trigger] self.cell_marked(
                    r,
                    p,
                ) == (old(self).cell_marked(r, p) || (r == room && period <= p < period + i
                    + 1)) by {
                    let b1 = prev.cell_marked(r, p);
                    let b0 = old(self).cell_marked(r, p);
                }
            }
            i += 1;
        }
    }

    /// Append `room` to teacher `t`'s occupancy at every period of the span.
    fn add_teacher_times(&mut self, t: usize, room: usize, period: usize, size: usize)
        requires
            old(self).params_spec().wf(),
            old(self).dims_ok_pub(),
            t < old(self).params_spec().num_of_teachers,
            period + size <= old(self).params_spec().num_of_periods,
        ensures
            final(self).params_spec() == old(self).params_spec(),
            final(self).dims_ok_pub(),
            final(self).visited_spec() == old(self).visited_spec(),
            final(self).crp_spec() == old(self).crp_spec(),
            final(self).students_times_unchanged(old(self)),
            forall|r: int, p: int|
                0 <= r < old(self).params_spec().num_of_rooms && 0 <= p < old(
                    self,
                ).params_spec().num_of_periods ==> #[trigger] final(self).cell_marked(r, p) == old(
                    self,
                ).cell_marked(r, p),
            forall|t2: int, p: int|
                0 <= t2 < old(self).params_spec().num_of_teachers && 0 <= p < old(
                    self,
                ).params_spec().num_of_periods ==> #[trigger] final(self).teacher_rooms(t2, p) == (
                if t2 == t && period <= p < period + size {
                    old(self).teacher_rooms(t2, p).push(room)
                } else {
                    old(self).teacher_rooms(t2, p)
                }),
    {
        let mut i: usize = 0;
        while i < size
            invariant
                i <= size,
                self.params_spec() == old(self).params_spec(),
                self.params_spec().wf(),
                self.dims_ok_pub(),
                t < self.params_spec().num_of_teachers,
                period + size <= self.params_spec().num_of_periods,
                self.visited_spec() == old(self).visited_spec(),
                self.crp_spec() == old(self).crp_spec(),
                self.students_times_unchanged(old(self)),
                forall|r: int, p: int|
                    0 <= r < self.params_spec().num_of_rooms && 0 <= p
                        < self.params_spec().num_of_periods ==> #[trigger] self.cell_marked(r, p)
                        == old(self).cell_marked(r, p),
                forall|t2: int, p: int|
                    0 <= t2 < self.params_spec().num_of_teachers && 0 <= p
                        < self.params_spec().num_of_periods ==> #[trigger] self.teacher_rooms(
                        t2,
                        p,
                    ) == (if t2 == t && period <= p < period + i {
                        old(self).teacher_rooms(t2, p).push(room)
                    } else {
                        old(self).teacher_rooms(t2, p)
                    }),
            decreases size - i,
        {
            let ghost prev = *self;
            self.teachers_times[t][period + i].push(room);
            proof {
                assert forall|r: int, p: int|
                    0 <= r < self.params_spec().num_of_rooms && 0 <= p
                        < self.params_spec().num_of_periods implies #[trigger] self.cell_marked(
                    r,
                    p,
                ) == old(self).cell_marked(r, p) by {
                    let b1 = prev.cell_marked(r, p);
                    let b0 = old(self).cell_marked(r, p);
                }
                assert forall|t2: int, p: int|
                    0 <= t2 < self.params_spec().num_of_teachers && 0 <= p
                        < self.params_spec().num_of_periods implies #[trigger] self.teacher_rooms(
                    t2,
                    p,
                ) == (if t2 == t && period <= p < period + i + 1 {
                    old(self).teacher_rooms(t2, p).push(room)
                } else {
                    old(self).teacher_rooms(t2, p)
                }) by {
                    let s1 = prev.teacher_rooms(t2, p);
                    let s0 = old(self).teacher_rooms(t2, p);
                }
            }
            i += 1;
        }
    }

    /// Append `room` to student group `g`'s occupancy at every period of the
    /// span.
    fn add_student_times(&mut self, g: usize, room: usize, period: usize, size: usize)
        requires
            old(self).params_spec().wf(),
            old(self).dims_ok_pub(),
            g < old(self).params_spec().num_of_students,
            period + size <= old(self).params_spec().num_of_periods,
        ensures
            final(self).params_spec() == old(self).params_spec(),
            final(self).dims_ok_pub(),
            final(self).visited_spec() == old(self).visited_spec(),
            final(self).crp_spec() == old(self).crp_spec(),
            final(self).teachers_times_unchanged(old(self)),
            forall|r: int, p: int|
                0 <= r < old(self).params_spec().num_of_rooms && 0 <= p < old(
                    self,
                ).params_spec().num_of_periods ==> #[trigger] final(self).cell_marked(r, p) == old(
                    self,
                ).cell_marked(r, p),
            forall|g2: int, p: int|
                0 <= g2 < old(self).params_spec().num_of_students && 0 <= p < old(
                    self,
                ).params_spec().num_of_periods ==> #[trigger] final(self).student_rooms(g2, p) == (
                if g2 == g && period <= p < period + size {
                    old(self).student_rooms(g2, p).push(room)
                } else {
                    old(self).student_rooms(g2, p)
                }),
    {
        let mut i: usize = 0;
        while i < size
            invariant
                i <= size,
                self.params_spec() == old(self).params_spec(),
                self.params_spec().wf(),
                self.dims_ok_pub(),
                g < self.params_spec().num_of_students,
                period + size <= self.params_spec().num_of_periods,
                self.visited_spec() == old(self).visited_spec(),
                self.crp_spec() == old(self).crp_spec(),
                self.teachers_times_unchanged(old(self)),
                forall|r: int, p: int|
                    0 <= r < self.params_spec().num_of_rooms && 0 <= p
                        < self.params_spec().num_of_periods ==> #[trigger] self.cell_marked(r, p)
                        == old(self).cell_marked(r, p),
                forall|g2: int, p: int|
                    0 <= g2 < self.params_spec().num_of_students && 0 <= p
                        < self.params_spec().num_of_periods ==> #[trigger] self.student_rooms(
                        g2,
                        p,
                    ) == (if g2 == g && period <= p < period + i {
                        old(self).student_rooms(g2, p).push(room)
                    } else {
                        old(self).student_rooms(g2, p)
                    }),
            decreases size - i,
        {
            let ghost prev = *self;
            self.students_times[g][period + i].push(room);
            proof {
                assert forall|r: int, p: int|
                    0 <= r < self.params_spec().num_of_rooms && 0 <= p
                        < self.params_spec().num_of_periods implies #[trigger] self.cell_marked(
                    r,
                    p,
                ) == old(self).cell_marked(r, p) by {
                    let b1 = prev.cell_marked(r, p);
                    let b0 = old(self).cell_marked(r, p);
                }
                assert forall|g2: int, p: int|
                    0 <= g2 < self.params_spec().num_of_students && 0 <= p
                        < self.params_spec().num_of_periods implies #[trigger] self.student_rooms(
                    g2,
                    p,
                ) == (if g2 == g && period <= p < period + i + 1 {
                    old(self).student_rooms(g2, p).push(room)
                } else {
                    old(self).student_rooms(g2, p)
                }) by {
                    let s1 = prev.student_rooms(g2, p);
                    let s0 = old(self).student_rooms(g2, p);
                }
            }
            i += 1;
        }
    }

    /// Record the assignment of one class: write `crp`, set the visited
    /// flag, claim the span's cells, and append the room to the occupancy of
    /// every teacher and student group of the class.
    pub fn allocate_classes(
        &mut self,
        class_index: usize,
        room_index: usize,
        period_index: usize,
        graph: &Graph,
    )
        requires
            graph.wf(),
            old(self).params_spec() == graph.params_spec(),
            old(self).wf(graph.classes_spec()),
            class_index < graph.classes_spec().len(),
            !old(self).placed(class_index as int),
            room_index < graph.params_spec().num_of_rooms,
            period_index + graph.classes_spec()[class_index as int].serial_size <= graph.params_spec().num_of_periods,
            forall|i: int|
                0 <= i < graph.classes_spec()[class_index as int].serial_size ==> !(#[trigger] old(
                    self,
                ).cell_marked(room_index as int, period_index + i)),
        ensures
            final(self).params_spec() == old(self).params_spec(),
            final(self).wf(graph.classes_spec()),
            forall|c: int|
                0 <= c < graph.classes_spec().len() ==> (#[trigger] final(self).placed(c) == (old(
                    self,
                ).placed(c) || c == class_index)),
            final(self).crp_spec()[class_index as int] == (room_index, period_index),
            forall|c: int|
                0 <= c < graph.classes_spec().len() && c != class_index
                    ==> #[trigger] final(self).crp_spec()[c] == old(self).crp_spec()[c],
            forall|r: int, p: int|
                0 <= r < graph.params_spec().num_of_rooms && 0 <= p
                    < graph.params_spec().num_of_periods ==> (#[trigger] final(self).cell_marked(
                    r,
                    p,
                ) == (old(self).cell_marked(r, p) || (r == room_index && period_index <= p
                    < period_index + graph.classes_spec()[class_index as int].serial_size))),
            forall|t: int, p: int|
                0 <= t < graph.params_spec().num_of_teachers && 0 <= p
                    < graph.params_spec().num_of_periods ==> #[trigger] final(self).teacher_rooms(
                    t,
                    p,
                ) == (if class_lists_teacher(graph.classes_spec()[class_index as int], t)
                    && period_index <= p < period_index
                    + graph.classes_spec()[class_index as int].serial_size {
                    old(self).teacher_rooms(t, p).push(room_index)
                } else {
                    old(self).teacher_rooms(t, p)
                }),
            forall|g: int, p: int|
                0 <= g < graph.params_spec().num_of_students && 0 <= p
                    < graph.params_spec().num_of_periods ==> #[trigger] final(self).student_rooms(
                    g,
                    p,
                ) == (if class_lists_group(graph.classes_spec()[class_index as int], g)
                    && period_index <= p < period_index
                    + graph.classes_spec()[class_index as int].serial_size {
                    old(self).student_rooms(g, p).push(room_index)
                } else {
                    old(self).student_rooms(g, p)
                }),
            final(self).placed_count() == old(self).placed_count() + 1,
    {
        let ghost classes = graph.classes_spec();
        let ghost class = graph.classes_spec()[class_index as int];
        let serial_size = graph.get_class_ref(class_index).serial_size;
        self.corresponding_crp[class_index] = (room_index, period_index);
        self.visited_classes[class_index] = true;
        proof {
            lemma_count_true_set(
                old(self).visited_spec(),
                class_index as int,
                old(self).visited_spec().len() as int,
            );
            assert(self.visited_spec() =~= old(self).visited_spec().update(
                class_index as int,
                true,
            ));
        }
        let ghost flagged = *self;
        self.mark_cells(room_index, period_index, serial_size);
        let ghost marked = *self;
        let num_teachers = graph.get_class_ref(class_index).teacher_indexes.len();
        let mut j: usize = 0;
        while j < num_teachers
            invariant
                graph.wf(),
                self.params_spec() == graph.params_spec(),
                self.params_spec().wf(),
                self.dims_ok_pub(),
                class_index < graph.classes_spec().len(),
                class == graph.classes_spec()[class_index as int],
                num_teachers == class.teacher_indexes@.len(),
                class.wf(graph.params_spec()),
                j <= num_teachers,
                serial_size == class.serial_size,
                period_index + serial_size <= self.params_spec().num_of_periods,
                self.visited_spec() == marked.visited_spec(),
                self.crp_spec() == marked.crp_spec(),
                self.st_spec() == marked.st_spec(),
                forall|r: int, p: int|
                    0 <= r < self.params_spec().num_of_rooms && 0 <= p
                        < self.params_spec().num_of_periods ==> #[trigger] self.cell_marked(r, p)
                        == marked.cell_marked(r, p),
                forall|t: int, p: int|
                    0 <= t < self.params_spec().num_of_teachers && 0 <= p
                        < self.params_spec().num_of_periods ==> #[trigger] self.teacher_rooms(
                        t,
                        p,
                    ) == (if (exists|jj: int|
                        0 <= jj < j && class.teacher_indexes@[jj] == t) && period_index <= p
                        < period_index + serial_size {
                        marked.teacher_rooms(t, p).push(room_index)
                    } else {
                        marked.teacher_rooms(t, p)
                    }),
            decreases num_teachers - j,
        {
            let ghost before = *self;
            let t = graph.get_class_ref(class_index).teacher_indexes[j];
            self.add_teacher_times(t, room_index, period_index, serial_size);
            proof {
                assert forall|t2: int, p: int|
                    0 <= t2 < self.params_spec().num_of_teachers && 0 <= p
                        < self.params_spec().num_of_periods implies #[trigger] self.teacher_rooms(
                    t2,
                    p,
                ) == (if (exists|jj: int|
                    0 <= jj < j + 1 && class.teacher_indexes@[jj] == t2) && period_index <= p
                    < period_index + serial_size {
                    marked.teacher_rooms(t2, p).push(room_index)
                } else {
                    marked.teacher_rooms(t2, p)
                }) by {
                    let s_before = before.teacher_rooms(t2, p);
                    let s_marked = marked.teacher_rooms(t2, p);
                    if t2 == t && period_index <= p < period_index + serial_size {
                        assert(forall|jj: int|
                            0 <= jj < j ==> class.teacher_indexes@[jj] != class.teacher_indexes@[j as int]);
                        assert(exists|jj: int|
                            0 <= jj < j + 1 && class.teacher_indexes@[jj] == t2) by {
                            assert(class.teacher_indexes@[j as int] == t2);
                        }
                    } else {
                        if period_index <= p < period_index + serial_size {
                            if (exists|jj: int|
                                0 <= jj < j + 1 && class.teacher_indexes@[jj] == t2) {
                                let jj = choose|jj: int|
                                    0 <= jj < j + 1 && #[trigger] class.teacher_indexes@[jj] == t2;
                                assert(class.teacher_indexes@[j as int] == t);
                                assert(jj != j);
                                assert(exists|jj2: int|
                                    0 <= jj2 < j && class.teacher_indexes@[jj2] == t2) by {
                                    assert(class.teacher_indexes@[jj] == t2);
                                }
                            }
                        }
                    }
                }
            }
            j += 1;
        }
        let ghost teachers_done = *self;
        let num_groups = graph.get_class_ref(class_index).students_group_indexes.len();
        let mut j: usize = 0;
        while j < num_groups
            invariant
                graph.wf(),
                self.params_spec() == graph.params_spec(),
                self.params_spec().wf(),
                self.dims_ok_pub(),
                class_index < graph.classes_spec().len(),
                class == graph.classes_spec()[class_index as int],
                num_groups == class.students_group_indexes@.len(),
                class.wf(graph.params_spec()),
                j <= num_groups,
                serial_size == class.serial_size,
                period_index + serial_size <= self.params_spec().num_of_periods,
                self.visited_spec() == teachers_done.visited_spec(),
                self.crp_spec() == teachers_done.crp_spec(),
                self.tt_spec() == teachers_done.tt_spec(),
                forall|r: int, p: int|
                    0 <= r < self.params_spec().num_of_rooms && 0 <= p
                        < self.params_spec().num_of_periods ==> #[trigger] self.cell_marked(r, p)
                        == teachers_done.cell_marked(r, p),
                forall|g: int, p: int|
                    0 <= g < self.params_spec().num_of_students && 0 <= p
                        < self.params_spec().num_of_periods ==> #[trigger] self.student_rooms(
                        g,
                        p,
                    ) == (if (exists|jj: int|
                        0 <= jj < j && class.students_group_indexes@[jj] == g) && period_index <= p
                        < period_index + serial_size {
                        teachers_done.student_rooms(g, p).push(room_index)
                    } else {
                        teachers_done.student_rooms(g, p)
                    }),
            decreases num_groups - j,
        {
            let ghost before = *self;
            let g = graph.get_class_ref(class_index).students_group_indexes[j];
            self.add_student_times(g, room_index, period_index, serial_size);
            proof {
                assert forall|g2: int, p: int|
                    0 <= g2 < self.params_spec().num_of_students && 0 <= p
                        < self.params_spec().num_of_periods implies #[trigger] self.student_rooms(
                    g2,
                    p,
                ) == (if (exists|jj: int|
                    0 <= jj < j + 1 && class.students_group_indexes@[jj] == g2) && period_index <= p
                    < period_index + serial_size {
                    teachers_done.student_rooms(g2, p).push(room_index)
                } else {
                    teachers_done.student_rooms(g2, p)
                }) by {
                    let s_before = before.student_rooms(g2, p);
                    let s_marked = teachers_done.student_rooms(g2, p);
                    if g2 == g && period_index <= p < period_index + serial_size {
                        assert(forall|jj: int|
                            0 <= jj < j ==> class.students_group_indexes@[jj] != class.students_group_indexes@[j as int]);
                        assert(exists|jj: int|
                            0 <= jj < j + 1 && class.students_group_indexes@[jj] == g2) by {
                            assert(class.students_group_indexes@[j as int] == g2);
                        }
                    } else {
                        if period_index <= p < period_index + serial_size {
                            if (exists|jj: int|
                                0 <= jj < j + 1 && class.students_group_indexes@[jj] == g2) {
                                let jj = choose|jj: int|
                                    0 <= jj < j + 1 && #[trigger] class.students_group_indexes@[jj]
                                        == g2;
                                assert(class.students_group_indexes@[j as int] == g);
                                assert(jj != j);
                                assert(exists|jj2: int|
                                    0 <= jj2 < j && class.students_group_indexes@[jj2] == g2) by {
                                    assert(class.students_group_indexes@[jj] == g2);
                                }
                            }
                        }
                    }
                }
            }
            j += 1;
        }
        proof {
            assert forall|t: int, p: int|
                0 <= t < graph.params_spec().num_of_teachers && 0 <= p
                    < graph.params_spec().num_of_periods implies #[trigger] self.teacher_rooms(
                t,
                p,
            ) == (if class_lists_teacher(class, t) && period_index <= p < period_index
                + serial_size {
                old(self).teacher_rooms(t, p).push(room_index)
            } else {
                old(self).teacher_rooms(t, p)
            }) by {
                let s_done = teachers_done.teacher_rooms(t, p);
                let s_marked = marked.teacher_rooms(t, p);
                let s_flagged = flagged.teacher_rooms(t, p);
                let s_old = old(self).teacher_rooms(t, p);
                if class_lists_teacher(class, t) {
                    let jj = choose|jj: int|
                        0 <= jj < class.teacher_indexes@.len()
                            && #[trigger] class.teacher_indexes@[jj] == t;
                    assert(exists|jj2: int|
                        0 <= jj2 < num_teachers && class.teacher_indexes@[jj2] == t) by {
                        assert(class.teacher_indexes@[jj] == t);
                    }
                } else {
                    if (exists|jj: int|
                        0 <= jj < num_teachers && #[trigger] class.teacher_indexes@[jj] == t) {
                        let jj = choose|jj: int|
                            0 <= jj < num_teachers && #[trigger] class.teacher_indexes@[jj] == t;
                        assert(class_lists_teacher(class, t)) by {
                            assert(class.teacher_indexes@[jj] == t);
                        }
                        assert(false);
                    }
                }
            }
            assert forall|g: int, p: int|
                0 <= g < graph.params_spec().num_of_students && 0 <= p
                    < graph.params_spec().num_of_periods implies #[trigger] self.student_rooms(
                g,
                p,
            ) == (if class_lists_group(class, g) && period_index <= p < period_index
                + serial_size {
                old(self).student_rooms(g, p).push(room_index)
            } else {
                old(self).student_rooms(g, p)
            }) by {
                let s_done = teachers_done.student_rooms(g, p);
                let s_marked = marked.student_rooms(g, p);
                let s_flagged = flagged.student_rooms(g, p);
                let s_old = old(self).student_rooms(g, p);
                if class_lists_group(class, g) {
                    let jj = choose|jj: int|
                        0 <= jj < class.students_group_indexes@.len()
                            && #[trigger] class.students_group_indexes@[jj] == g;
                    assert(exists|jj2: int|
                        0 <= jj2 < num_groups && class.students_group_indexes@[jj2] == g) by {
                        assert(class.students_group_indexes@[jj] == g);
                    }
                } else {
                    if (exists|jj: int|
                        0 <= jj < num_groups && #[trigger] class.students_group_indexes@[jj]
                            == g) {
                        let jj = choose|jj: int|
                            0 <= jj < num_groups && #[trigger] class.students_group_indexes@[jj]
                                == g;
                        assert(class_lists_group(class, g)) by {
                            assert(class.students_group_indexes@[jj] == g);
                        }
                        assert(false);
                    }
                }
            }
            assert forall|r: int, p: int|
                0 <= r < graph.params_spec().num_of_rooms && 0 <= p
                    < graph.params_spec().num_of_periods implies (#[trigger] self.cell_marked(r, p)
                == (old(self).cell_marked(r, p) || (r == room_index && period_index <= p
                < period_index + serial_size))) by {
                let b_done = teachers_done.cell_marked(r, p);
                let b_marked = marked.cell_marked(r, p);
                let b_flagged = flagged.cell_marked(r, p);
                let b_old = old(self).cell_marked(r, p);
            }
            self.lemma_allocate_wf(old(self), graph, class_index as int, room_index as int, period_index as int);
        }
    }

    /// Teacher-conflict share of the edge length: for each of the first `n`
    /// listed teachers, the pair count of that teacher's occupancy at `p`.
    pub open spec fn teacher_conflict_term(&self, ids: Seq<usize>, n: int, p: int) -> int
        decreases n,
    {
        if n <= 0 {
            0
        } else {
            self.teacher_conflict_term(ids, n - 1, p) + pair_count(
                self.teacher_rooms(ids[n - 1] as int, p).len() as int,
            ) * TEACHER_COEF
        }
    }

    /// Student-group-conflict share of the edge length.
    pub open spec fn student_conflict_term(&self, ids: Seq<usize>, n: int, p: int) -> int
        decreases n,
    {
        if n <= 0 {
            0
        } else {
            self.student_conflict_term(ids, n - 1, p) + pair_count(
                self.student_rooms(ids[n - 1] as int, p).len() as int,
            ) * STUDENT_COEF
        }
    }

    /// The span starting at `p` crosses a day boundary.
    pub open spec fn straddles_day(params: AcoParameters, p: int, size: int) -> bool {
        p % (params.num_of_day_lengths as int) + size > params.num_of_day_lengths as int
    }

    /// The marginal cost of placing `class` at `(room, p)` against the
    /// current occupancy tables: one, plus the capacity, conflict and
    /// day-straddle penalties, all evaluated at the starting period only.
    pub open spec fn edge_length_spec(&self, class: Class, room_capacity: u64, p: int) -> int {
        1 + (if class.num_of_students > room_capacity {
            CAP_COEF as int
        } else {
            0
        }) + self.student_conflict_term(
            class.students_group_indexes@,
            class.students_group_indexes@.len() as int,
            p,
        ) + self.teacher_conflict_term(
            class.teacher_indexes@,
            class.teacher_indexes@.len() as int,
            p,
        ) + (if Self::straddles_day(self.params_spec(), p, class.serial_size as int) {
            STRADDLE_DAYS_COEF as int
        } else {
            0
        })
    }

    /// The conflict terms are nonnegative and bounded when every occupancy
    /// list is short.
    proof fn lemma_teacher_term_bounds(&self, ids: Seq<usize>, n: int, p: int)
        requires
            0 <= n <= ids.len(),
            forall|j: int|
                0 <= j < ids.len() ==> self.teacher_rooms(#[trigger] ids[j] as int, p).len()
                    <= 1000,
        ensures
            0 <= self.teacher_conflict_term(ids, n, p) <= n * 1498500,
        decreases n,
    {
        if n > 0 {
            self.lemma_teacher_term_bounds(ids, n - 1, p);
            let m = self.teacher_rooms(ids[n - 1] as int, p).len() as int;
            assert(0 <= pair_count(m) <= 499500) by (nonlinear_arith)
                requires
                    0 <= m <= 1000,
            ;
            assert((n - 1) * 1498500 + 1498500 == n * 1498500) by (nonlinear_arith);
        }
    }

    proof fn lemma_student_term_bounds(&self, ids: Seq<usize>, n: int, p: int)
        requires
            0 <= n <= ids.len(),
            forall|j: int|
                0 <= j < ids.len() ==> self.student_rooms(#[trigger] ids[j] as int, p).len()
                    <= 1000,
        ensures
            0 <= self.student_conflict_term(ids, n, p) <= n * 1498500,
        decreases n,
    {
        if n > 0 {
            self.lemma_student_term_bounds(ids, n - 1, p);
            let m = self.student_rooms(ids[n - 1] as int, p).len() as int;
            assert(0 <= pair_count(m) <= 499500) by (nonlinear_arith)
                requires
                    0 <= m <= 1000,
            ;
            assert((n - 1) * 1498500 + 1498500 == n * 1498500) by (nonlinear_arith);
        }
    }

    /// Every occupancy list is short (at most the number of classes).
    proof fn lemma_occupancy_lists_short(&self)
        requires
            self.params_spec().wf(),
            self.dims_ok_pub(),
            self.occupancy_bounded(),
        ensures
            forall|t: int, p: int|
                0 <= t < self.params_spec().num_of_teachers && 0 <= p
                    < self.params_spec().num_of_periods ==> (#[trigger] self.teacher_rooms(
                    t,
                    p,
                )).len() <= 1000,
            forall|g: int, p: int|
                0 <= g < self.params_spec().num_of_students && 0 <= p
                    < self.params_spec().num_of_periods ==> (#[trigger] self.student_rooms(
                    g,
                    p,
                )).len() <= 1000,
    {
        lemma_count_true_le(self.visited_spec(), self.visited_spec().len() as int);
    }

    /// The edge length `l(c, r, p)`: always at least one.
    pub fn calc_edge_length(&self, room_capacity: u64, class: &Class, period: usize) -> (r: u64)
        requires
            self.params_spec().wf(),
            self.dims_ok_pub(),
            self.occupancy_bounded(),
            class.wf(self.params_spec()),
            period < self.params_spec().num_of_periods,
        ensures
            r as int == self.edge_length_spec(*class, room_capacity, period as int),
            r >= 1,
    {
        proof {
            self.lemma_occupancy_lists_short();
        }
        let mut edge_length: u64 = 1;
        if class.num_of_students > room_capacity {
            edge_length += CAP_COEF;
        }
        let ghost gids = class.students_group_indexes@;
        let mut j: usize = 0;
        while j < class.students_group_indexes.len()
            invariant
                self.params_spec().wf(),
                self.dims_ok_pub(),
                self.occupancy_bounded(),
                class.wf(self.params_spec()),
                period < self.params_spec().num_of_periods,
                gids == class.students_group_indexes@,
                j <= gids.len(),
                edge_length as int == 1 + (if class.num_of_students > room_capacity {
                    CAP_COEF as int
                } else {
                    0
                }) + self.student_conflict_term(gids, j as int, period as int),
                edge_length <= 3 + (j as int) * 1498500,
            decreases gids.len() - j,
        {
            proof {
                self.lemma_occupancy_lists_short();
                self.lemma_student_term_bounds(gids, j as int + 1, period as int);
                assert((j as int + 1) * 1498500 <= 1001 * 1498500) by (nonlinear_arith)
                    requires
                        j as int + 1 <= 1001,
                ;
            }
            let g = class.students_group_indexes[j];
            let n: u64 = self.students_times[g][period].len() as u64;
            let pairs: u64 = if n > 0 {
                n * (n - 1) / 2
            } else {
                0
            };
            proof {
                assert(gids[j as int] == g);
                assert(n as int == self.student_rooms(g as int, period as int).len());
                let m = n as int;
                assert(pairs as int == pair_count(m)) by (nonlinear_arith)
                    requires
                        m == n as int,
                        pairs == (if n > 0 { (n * (n - 1) / 2) as u64 } else { 0u64 }),
                        n <= 1000,
                ;
                assert(self.student_conflict_term(gids, j as int + 1, period as int)
                    == self.student_conflict_term(gids, j as int, period as int) + pair_count(
                    self.student_rooms(gids[j as int] as int, period as int).len() as int,
                ) * (STUDENT_COEF as int));
            }
            edge_length += pairs * STUDENT_COEF;
            j += 1;
        }
        let ghost tids = class.teacher_indexes@;
        let ghost base = edge_length as int;
        let mut j: usize = 0;
        while j < class.teacher_indexes.len()
            invariant
                self.params_spec().wf(),
                self.dims_ok_pub(),
                self.occupancy_bounded(),
                class.wf(self.params_spec()),
                period < self.params_spec().num_of_periods,
                tids == class.teacher_indexes@,
                j <= tids.len(),
                base <= 3 + 1000 * 1498500,
                edge_length as int == base + self.teacher_conflict_term(tids, j as int, period as int),
                edge_length <= base + (j as int) * 1498500,
            decreases tids.len() - j,
        {
            proof {
                self.lemma_occupancy_lists_short();
                self.lemma_teacher_term_bounds(tids, j as int + 1, period as int);
                assert((j as int + 1) * 1498500 <= 1001 * 1498500) by (nonlinear_arith)
                    requires
                        j as int + 1 <= 1001,
                ;
            }
            let t = class.teacher_indexes[j];
            let n: u64 = self.teachers_times[t][period].len() as u64;
            let pairs: u64 = if n > 0 {
                n * (n - 1) / 2
            } else {
                0
            };
            proof {
                assert(tids[j as int] == t);
                assert(n as int == self.teacher_rooms(t as int, period as int).len());
                let m = n as int;
                assert(pairs as int == pair_count(m)) by (nonlinear_arith)
                    requires
                        m == n as int,
                        pairs == (if n > 0 { (n * (n - 1) / 2) as u64 } else { 0u64 }),
                        n <= 1000,
                ;
            }
            edge_length += pairs * TEACHER_COEF;
            j += 1;
        }
        proof {
            self.lemma_student_term_bounds(gids, gids.len() as int, period as int);
            self.lemma_teacher_term_bounds(tids, tids.len() as int, period as int);
        }
        let day_len = self.parameters.num_of_day_lengths;
        let ssz = class.serial_size;
        proof {
            assert(day_len >= 1);
            assert(ssz <= 1000);
            assert(period % day_len <= period) by (nonlinear_arith)
                requires
                    day_len >= 1,
            ;
        }
        if period % day_len + ssz > day_len {
            edge_length += STRADDLE_DAYS_COEF;
        }
        edge_length
    }

    /// The cell `(r, p)` can take a span of `size` periods: the span fits the
    /// grid and none of its cells is claimed yet.
    pub open spec fn allocatable(&self, size: int, r: int, p: int) -> bool {
        &&& 0 <= r < self.params_spec().num_of_rooms
        &&& 0 <= p
        &&& p + size <= self.params_spec().num_of_periods
        &&& forall|i: int| 0 <= i < size ==> !(#[trigger] self.cell_marked(r, p + i))
    }

    /// All allocatable cells for a span of `serial_size` periods, in
    /// room-major order.
    pub fn calc_allocatable_room_periods(&self, serial_size: usize, graph: &Graph) -> (res: Vec<
        (usize, usize),
    >)
        requires
            self.params_spec().wf(),
            self.dims_ok_pub(),
            1 <= serial_size <= self.params_spec().num_of_periods,
            graph.params_spec() == self.params_spec(),
        ensures
            forall|k: int|
                0 <= k < res@.len() ==> self.allocatable(
                    serial_size as int,
                    (#[trigger] res@[k]).0 as int,
                    res@[k].1 as int,
                ),
            forall|r: int, p: int|
                self.allocatable(serial_size as int, r, p) ==> res@.contains(
                    (r as usize, p as usize),
                ),
            forall|k1: int, k2: int|
                0 <= k1 < k2 < res@.len() ==> (#[trigger] res@[k1]).0 < (#[trigger] res@[k2]).0 || (
                res@[k1].0 == res@[k2].0 && res@[k1].1 < res@[k2].1),
            res@.len() <= self.params_spec().num_of_rooms * self.params_spec().num_of_periods,
    {
        let mut res: Vec<(usize, usize)> = Vec::new();
        let num_rooms = self.parameters.num_of_rooms;
        let num_periods = self.parameters.num_of_periods;
        let last_start = num_periods - serial_size;
        let mut room: usize = 0;
        proof {
            assert(0 * self.params_spec().num_of_periods as int
                <= self.params_spec().num_of_rooms as int
                * self.params_spec().num_of_periods as int) by (nonlinear_arith)
                requires
                    0 <= self.params_spec().num_of_rooms as int,
                    0 <= self.params_spec().num_of_periods as int,
            ;
        }
        while room < num_rooms
            invariant
                self.params_spec().wf(),
                self.dims_ok_pub(),
                num_rooms == self.params_spec().num_of_rooms,
                num_periods == self.params_spec().num_of_periods,
                1 <= serial_size <= num_periods,
                last_start == num_periods - serial_size,
                room <= num_rooms,
                forall|k: int|
                    0 <= k < res@.len() ==> self.allocatable(
                        serial_size as int,
                        (#[trigger] res@[k]).0 as int,
                        res@[k].1 as int,
                    ),
                forall|k: int| 0 <= k < res@.len() ==> (#[trigger] res@[k]).0 < room,
                forall|r: int, p: int|
                    0 <= r < room && self.allocatable(serial_size as int, r, p) ==> res@.contains(
                        (r as usize, p as usize),
                    ),
                forall|k1: int, k2: int|
                    0 <= k1 < k2 < res@.len() ==> (#[trigger] res@[k1]).0 < (#[trigger] res@[k2]).0
                        || (res@[k1].0 == res@[k2].0 && res@[k1].1 < res@[k2].1),
                res@.len() as int <= room as int * num_periods as int,
            decreases num_rooms - room,
        {
            let mut period: usize = 0;
            let ghost row_start = res@.len() as int;
            while period <= last_start
                invariant
                    self.params_spec().wf(),
                    self.dims_ok_pub(),
                    num_rooms == self.params_spec().num_of_rooms,
                    num_periods == self.params_spec().num_of_periods,
                    1 <= serial_size <= num_periods,
                    last_start == num_periods - serial_size,
                    room < num_rooms,
                    period <= last_start + 1,
                    0 <= row_start <= res@.len(),
                    forall|k: int|
                        0 <= k < res@.len() ==> self.allocatable(
                            serial_size as int,
                            (#[trigger] res@[k]).0 as int,
                            res@[k].1 as int,
                        ),
                    forall|k: int| 0 <= k < row_start ==> (#[trigger] res@[k]).0 < room,
                    forall|k: int|
                        row_start <= k < res@.len() ==> (#[trigger] res@[k]).0 == room
                            && res@[k].1 < period,
                    forall|r: int, p: int|
                        0 <= r < room && self.allocatable(serial_size as int, r, p)
                            ==> res@.contains((r as usize, p as usize)),
                    forall|p: int|
                        0 <= p < period && self.allocatable(serial_size as int, room as int, p)
                            ==> res@.contains((room, p as usize)),
                    forall|k1: int, k2: int|
                        0 <= k1 < k2 < res@.len() ==> (#[trigger] res@[k1]).0 < (
                        #[trigger] res@[k2]).0 || (res@[k1].0 == res@[k2].0 && res@[k1].1
                            < res@[k2].1),
                    res@.len() as int <= room as int * num_periods as int + period as int,
                decreases last_start + 1 - period,
            {
                let mut is_allocatable = true;
                let mut i: usize = 0;
                while i < serial_size
                    invariant
                        self.params_spec().wf(),
                        self.dims_ok_pub(),
                        room < self.params_spec().num_of_rooms,
                        period + serial_size <= self.params_spec().num_of_periods,
                        i <= serial_size,
                        is_allocatable == (forall|ii: int|
                            0 <= ii < i ==> !(#[trigger] self.cell_marked(room as int, period + ii))),
                    decreases serial_size - i,
                {
                    let marked_here = self.visited_roomperiods[room][period + i];
                    proof {
                        assert(marked_here == self.cell_marked(room as int, period + i));
                    }
                    if marked_here {
                        is_allocatable = false;
                    }
                    i += 1;
                }
                let ghost res_old = res@;
                if is_allocatable {
                    res.push((room, period));
                    proof {
                        assert(res@ == res_old.push((room, period)));
                        assert(res@[res@.len() - 1] == (room, period));
                        assert(res@.contains((room, period)));
                        assert(forall|k: int|
                            0 <= k < res_old.len() ==> #[trigger] res@[k] == res_old[k]);
                        assert forall|r: int, p: int|
                            0 <= r < room && self.allocatable(serial_size as int, r, p) implies
                            res@.contains((r as usize, p as usize)) by {
                            assert(res_old.contains((r as usize, p as usize)));
                            let idx = choose|i: int|
                                0 <= i < res_old.len() && #[trigger] res_old[i] == (
                                r as usize,
                                p as usize,
                            );
                            assert(res@[idx] == (r as usize, p as usize));
                        }
                        assert forall|p: int|
                            0 <= p < period && self.allocatable(
                                serial_size as int,
                                room as int,
                                p,
                            ) implies res@.contains((room, p as usize)) by {
                            assert(res_old.contains((room, p as usize)));
                            let idx = choose|i: int|
                                0 <= i < res_old.len() && #[trigger] res_old[i] == (
                                room,
                                p as usize,
                            );
                            assert(res@[idx] == (room, p as usize));
                        }
                    }
                }
                proof {
                    if is_allocatable {
                        assert(res@ == res_old.push((room, period)));
                    } else {
                        assert(res@ == res_old);
                    }
                    assert forall|k: int| row_start <= k < res@.len() implies (
                    #[trigger] res@[k]).0 == room && res@[k].1 < period + 1 by {
                        if k < res_old.len() {
                            if is_allocatable {
                                assert(res@[k] == res_old.push((room, period))[k]);
                                assert(res_old.push((room, period))[k] == res_old[k]);
                            }
                            assert(res@[k] == res_old[k]);
                            let v_old = res_old[k];
                        } else {
                            assert(res@[k] == (room, period));
                        }
                    }
                    if self.allocatable(serial_size as int, room as int, period as int) {
                        assert(is_allocatable);
                        assert(res@.contains((room, period)));
                    }
                }
                period += 1;
            }
            proof {
                assert(room as int * num_periods as int + num_periods as int == (room as int + 1)
                    * num_periods as int) by (nonlinear_arith);
                assert forall|r: int, p: int|
                    0 <= r < room + 1 && self.allocatable(serial_size as int, r, p) implies
                    res@.contains((r as usize, p as usize)) by {
                    if r == room {
                        assert(0 <= p <= last_start);
                    }
                }
            }
            room += 1;
        }
        proof {
            assert(res@.len() as int <= num_rooms as int * num_periods as int);
        }
        res
    }

    /// The heuristic value of a cell: `q` divided by the edge length.
    pub open spec fn heuristic_of(&self, graph: &Graph, v: int, r: int, p: int) -> int {
        self.params_spec().q as int / self.edge_length_spec(
            graph.classes_spec()[v],
            graph.rooms_spec()[r].capacity,
            p,
        )
    }

    /// The sampling weight of a cell:
    /// `tau(v, r, p)^alpha * (q / l(v, r, p))^beta`, saturated.
    pub open spec fn cell_weight(&self, graph: &Graph, v: int, r: int, p: int) -> int {
        weight_of(
            graph.pheromone_at(v, r, p) as int,
            self.heuristic_of(graph, v, r, p),
            self.params_spec().alpha as nat,
            self.params_spec().beta as nat,
        )
    }

    /// The allocatable cells for class `v` together with their sampling
    /// weights.
    pub fn calc_prob_from_v(&self, v: usize, graph: &Graph) -> (res: (
        Vec<(usize, usize)>,
        Vec<u128>,
    ))
        requires
            self.params_spec().wf(),
            self.dims_ok_pub(),
            self.occupancy_bounded(),
            graph.wf(),
            graph.params_spec() == self.params_spec(),
            v < graph.classes_spec().len(),
        ensures
            forall|k: int|
                0 <= k < res.0@.len() ==> self.allocatable(
                    graph.classes_spec()[v as int].serial_size as int,
                    (#[trigger] res.0@[k]).0 as int,
                    res.0@[k].1 as int,
                ),
            forall|r: int, p: int|
                self.allocatable(graph.classes_spec()[v as int].serial_size as int, r, p)
                    ==> res.0@.contains((r as usize, p as usize)),
            forall|k1: int, k2: int|
                0 <= k1 < k2 < res.0@.len() ==> (#[trigger] res.0@[k1]).0 < (
                #[trigger] res.0@[k2]).0 || (res.0@[k1].0 == res.0@[k2].0 && res.0@[k1].1
                    < res.0@[k2].1),
            res.1@.len() == res.0@.len(),
            forall|k: int|
                0 <= k < res.1@.len() ==> #[trigger] res.1@[k] <= crate::sampling::WEIGHT_CAP
                    && res.1@[k] as int == self.cell_weight(
                    graph,
                    v as int,
                    res.0@[k].0 as int,
                    res.0@[k].1 as int,
                ),
            res.0@.len() <= self.params_spec().num_of_rooms * self.params_spec().num_of_periods,
    {
        let serial_size = graph.get_class_ref(v).serial_size;
        let cells = self.calc_allocatable_room_periods(serial_size, graph);
        let mut weights: Vec<u128> = Vec::new();
        let mut k: usize = 0;
        while k < cells.len()
            invariant
                self.params_spec().wf(),
                self.dims_ok_pub(),
                self.occupancy_bounded(),
                graph.wf(),
                graph.params_spec() == self.params_spec(),
                v < graph.classes_spec().len(),
                serial_size == graph.classes_spec()[v as int].serial_size,
                k <= cells@.len(),
                weights@.len() == k,
                forall|kk: int|
                    0 <= kk < cells@.len() ==> self.allocatable(
                        serial_size as int,
                        (#[trigger] cells@[kk]).0 as int,
                        cells@[kk].1 as int,
                    ),
                forall|kk: int|
                    0 <= kk < k ==> #[trigger] weights@[kk] <= crate::sampling::WEIGHT_CAP
                        && weights@[kk] as int == self.cell_weight(
                        graph,
                        v as int,
                        cells@[kk].0 as int,
                        cells@[kk].1 as int,
                    ),
            decreases cells@.len() - k,
        {
            let (r, p) = cells[k];
            let tau = graph.get_pheromone(v, r, p);
            let capacity = graph.get_room_ref(r).get_capacity();
            let ell = self.calc_edge_length(capacity, graph.get_class_ref(v), p);
            let heur: u64 = self.parameters.q / ell;
            let w = crate::sampling::weight_exec(
                tau,
                heur,
                self.parameters.alpha,
                self.parameters.beta,
            );
            weights.push(w);
            k += 1;
        }
        (cells, weights)
    }

    /// The sampling weights of every cell of the grid for class `v`,
    /// ignoring the visited state.  Used to render the pheromone landscape.
    pub fn calc_prob_from_v_igunore_visited(&self, v: usize, graph: &Graph) -> (res: (
        Vec<(usize, usize)>,
        Vec<u128>,
    ))
        requires
            self.params_spec().wf(),
            self.dims_ok_pub(),
            self.occupancy_bounded(),
            graph.wf(),
            graph.params_spec() == self.params_spec(),
            v < graph.classes_spec().len(),
        ensures
            res.1@.len() == res.0@.len(),
            res.0@.len() == self.params_spec().num_of_rooms * self.params_spec().num_of_periods,
            forall|k: int|
                0 <= k < res.0@.len() ==> (#[trigger] res.0@[k]).0
                    < self.params_spec().num_of_rooms && res.0@[k].1
                    < self.params_spec().num_of_periods,
            forall|k: int|
                0 <= k < res.0@.len() ==> ((#[trigger] res.0@[k]).0 as int == k / (
                self.params_spec().num_of_periods as int) && res.0@[k].1 as int == k % (
                self.params_spec().num_of_periods as int)),
            forall|r: int, p: int|
                0 <= r < self.params_spec().num_of_rooms && 0 <= p
                    < self.params_spec().num_of_periods ==> #[trigger] res.0@.contains(
                    (r as usize, p as usize),
                ),
            forall|k: int|
                0 <= k < res.1@.len() ==> #[trigger] res.1@[k] <= crate::sampling::WEIGHT_CAP
                    && res.1@[k] as int == self.cell_weight(
                    graph,
                    v as int,
                    res.0@[k].0 as int,
                    res.0@[k].1 as int,
                ),
            res.0@.len() <= self.params_spec().num_of_rooms * self.params_spec().num_of_periods,
    {
        let mut cells: Vec<(usize, usize)> = Vec::new();
        let mut weights: Vec<u128> = Vec::new();
        let num_rooms = self.parameters.num_of_rooms;
        let num_periods = self.parameters.num_of_periods;
        let mut room: usize = 0;
        while room < num_rooms
            invariant
                self.params_spec().wf(),
                self.dims_ok_pub(),
                self.occupancy_bounded(),
                graph.wf(),
                graph.params_spec() == self.params_spec(),
                v < graph.classes_spec().len(),
                num_rooms == self.params_spec().num_of_rooms,
                num_periods == self.params_spec().num_of_periods,
                room <= num_rooms,
                weights@.len() == cells@.len(),
                cells@.len() as int == room as int * num_periods as int,
                forall|k: int|
                    0 <= k < cells@.len() ==> (#[trigger] cells@[k]).0 < num_rooms && cells@[k].1
                        < num_periods,
                forall|k: int|
                    0 <= k < cells@.len() ==> ((#[trigger] cells@[k]).0 as int == k / (
                    num_periods as int) && cells@[k].1 as int == k % (num_periods as int)),
                forall|r: int, p: int|
                    0 <= r < room && 0 <= p < num_periods ==> #[trigger] cells@.contains(
                        (r as usize, p as usize),
                    ),
                forall|k: int|
                    0 <= k < weights@.len() ==> #[trigger] weights@[k]
                        <= crate::sampling::WEIGHT_CAP && weights@[k] as int == self.cell_weight(
                        graph,
                        v as int,
                        cells@[k].0 as int,
                        cells@[k].1 as int,
                    ),
            decreases num_rooms - room,
        {
            let mut period: usize = 0;
            while period < num_periods
                invariant
                    self.params_spec().wf(),
                    self.dims_ok_pub(),
                    self.occupancy_bounded(),
                    graph.wf(),
                    graph.params_spec() == self.params_spec(),
                    v < graph.classes_spec().len(),
                    num_rooms == self.params_spec().num_of_rooms,
                    num_periods == self.params_spec().num_of_periods,
                    room < num_rooms,
                    period <= num_periods,
                    weights@.len() == cells@.len(),
                    cells@.len() as int == room as int * num_periods as int + period as int,
                    forall|k: int|
                        0 <= k < cells@.len() ==> (#[trigger] cells@[k]).0 < num_rooms
                            && cells@[k].1 < num_periods,
                    forall|k: int|
                        0 <= k < cells@.len() ==> ((#[trigger] cells@[k]).0 as int == k / (
                        num_periods as int) && cells@[k].1 as int == k % (num_periods as int)),
                    forall|r: int, p: int|
                        0 <= r < room && 0 <= p < num_periods ==> #[trigger] cells@.contains(
                            (r as usize, p as usize),
                        ),
                    forall|p: int|
                        0 <= p < period ==> #[trigger] cells@.contains((room, p as usize)),
                    forall|k: int|
                        0 <= k < weights@.len() ==> #[trigger] weights@[k]
                            <= crate::sampling::WEIGHT_CAP && weights@[k] as int
                            == self.cell_weight(
                            graph,
                            v as int,
                            cells@[k].0 as int,
                            cells@[k].1 as int,
                        ),
                decreases num_periods - period,
            {
                proof {
                    let ri = room as int;
                    let nr = num_rooms as int;
                    let np = num_periods as int;
                    assert(ri * np + np <= 1000 * 1000) by (nonlinear_arith)
                        requires
                            0 <= ri < nr,
                            nr <= 1000,
                            0 <= np <= 1000,
                    ;
                }
                let tau = graph.get_pheromone(v, room, period);
                let capacity = graph.get_room_ref(room).get_capacity();
                let ell = self.calc_edge_length(capacity, graph.get_class_ref(v), period);
                let heur: u64 = self.parameters.q / ell;
                let w = crate::sampling::weight_exec(
                    tau,
                    heur,
                    self.parameters.alpha,
                    self.parameters.beta,
                );
                let ghost cells_old = cells@;
                cells.push((room, period));
                weights.push(w);
                proof {
                    assert(cells@ == cells_old.push((room, period)));
                    assert(cells@[cells@.len() - 1] == (room, period));
                    assert(cells@.contains((room, period)));
                    lemma_flat_grid_decode(room as int, period as int, num_periods as int);
                    assert forall|r: int, p: int|
                        0 <= r < room && 0 <= p < num_periods implies #[trigger] cells@.contains(
                        (r as usize, p as usize),
                    ) by {
                        assert(cells_old.contains((r as usize, p as usize)));
                        let idx = choose|i: int|
                            0 <= i < cells_old.len() && #[trigger] cells_old[i] == (
                            r as usize,
                            p as usize,
                        );
                        assert(cells@[idx] == (r as usize, p as usize));
                    }
                    assert forall|p: int| 0 <= p < period implies #[trigger] cells@.contains(
                        (room, p as usize),
                    ) by {
                        assert(cells_old.contains((room, p as usize)));
                        let idx = choose|i: int|
                            0 <= i < cells_old.len() && #[trigger] cells_old[i] == (
                            room,
                            p as usize,
                        );
                        assert(cells@[idx] == (room, p as usize));
                    }
                }
                period += 1;
            }
            proof {
                assert(room as int * num_periods as int + num_periods as int == (room as int + 1)
                    * num_periods as int) by (nonlinear_arith);
            }
            room += 1;
        }
        proof {
            assert(cells@.len() as int <= num_rooms as int * num_periods as int);
        }
        (cells, weights)
    }

    /// Empty every teacher and student-group occupancy list.
    fn clear_occupancy(&mut self)
        requires
            old(self).params_spec().wf(),
            old(self).dims_ok_pub(),
        ensures
            final(self).params_spec() == old(self).params_spec(),
            final(self).dims_ok_pub(),
            final(self).visited_spec() == old(self).visited_spec(),
            final(self).crp_spec() == old(self).crp_spec(),
            final(self).rp_grid() == old(self).rp_grid(),
            forall|t: int, p: int|
                0 <= t < final(self).params_spec().num_of_teachers
                    && 0 <= p < final(self).params_spec().num_of_periods
                    ==> (#[trigger] final(self).teacher_rooms(t, p)).len() == 0,
            forall|g: int, p: int|
                0 <= g < final(self).params_spec().num_of_students
                    && 0 <= p < final(self).params_spec().num_of_periods
                    ==> (#[trigger] final(self).student_rooms(g, p)).len() == 0,
    {
        self.teachers_times = make_room_lists(
            self.parameters.num_of_teachers,
            self.parameters.num_of_periods,
        );
        self.students_times = make_room_lists(
            self.parameters.num_of_students,
            self.parameters.num_of_periods,
        );
    }

    /// Every locked class is placed exactly at its lock.
    pub open spec fn locks_respected(&self, graph: &Graph) -> bool {
        forall|c: int|
            0 <= c < graph.classes_spec().len() && (#[trigger] graph.lock_spec(c)) is Some
                ==> self.placed(c) && self.crp_spec()[c] == graph.lock_spec(c)->Some_0
    }

    /// Every placed class is a locked class sitting at its lock.
    pub open spec fn placed_only_locked(&self, graph: &Graph) -> bool {
        forall|c: int|
            0 <= c < graph.classes_spec().len() && #[trigger] self.placed(c) ==> graph.lock_spec(
                c,
            ) is Some && self.crp_spec()[c] == graph.lock_spec(c)->Some_0
    }

    /// Build one complete assignment: clear the construction state, place
    /// the locked classes first, then place the remaining classes in a
    /// random order by pheromone-weighted sampling.
    ///
    /// Fails with `NoAllocatableCell` when some class has no free span left;
    /// the locked classes are placed at their locks even then.  When every
    /// class is locked, construction always succeeds.
    pub fn construct_path(&mut self, graph: &Graph) -> (res: Result<(), AcoError>)
        requires
            graph.wf(),
            old(self).params_spec() == graph.params_spec(),
            old(self).dims_ok_pub(),
        ensures
            final(self).params_spec() == old(self).params_spec(),
            final(self).wf(graph.classes_spec()),
            final(self).locks_respected(graph),
            res is Ok ==> final(self).complete(),
            res is Err ==> res->Err_0 == AcoError::NoAllocatableCell && !final(self).complete(),
            graph.always_constructible() ==> res is Ok,
    {
        let ghost classes = graph.classes_spec();
        self.reset_ant();
        let ghost after_reset = *self;
        self.clear_occupancy();
        proof {
            assert forall|c: int| 0 <= c < self.visited_spec().len() implies !(
            #[trigger] self.placed(c)) by {
                assert(!after_reset.placed(c));
            }
            assert forall|r: int, p: int|
                0 <= r < self.params_spec().num_of_rooms && 0 <= p
                    < self.params_spec().num_of_periods implies !(#[trigger] self.cell_marked(
                r,
                p,
            )) by {
                assert(!after_reset.cell_marked(r, p));
            }
            self.lemma_fresh_wf(classes);
            assert forall|c: int|
                0 <= c < graph.classes_spec().len() && #[trigger] self.placed(c) implies
                graph.lock_spec(c) is Some && self.crp_spec()[c] == graph.lock_spec(
                c,
            )->Some_0 by {}
        }
        let num_classes = self.parameters.num_of_classes;
        let mut order: Vec<usize> = Vec::new();
        let mut i: usize = 0;
        while i < num_classes
            invariant
                i <= num_classes,
                order@.len() == i,
                forall|j: int| 0 <= j < i ==> order@[j] == j,
            decreases num_classes - i,
        {
            order.push(i);
            i += 1;
        }
        let ghost order_init = order@;
        crate::rng::shuffle_indices(&mut order);
        proof {
            order_init.to_multiset_ensures();
            order@.to_multiset_ensures();
            assert forall|c: int| 0 <= c < num_classes implies #[trigger] order@.contains(
                c as usize,
            ) by {
                assert(order_init[c] == c as usize);
                assert(order_init.contains(c as usize));
                assert(order_init.to_multiset().count(c as usize) > 0);
                assert(order@.to_multiset().count(c as usize) > 0);
            }
            assert forall|j: int| 0 <= j < order@.len() implies ((#[trigger] order@[j]) as int)
                < num_classes by {
                assert(order@.contains(order@[j]));
                assert(order@.to_multiset().count(order@[j]) > 0);
                assert(order_init.to_multiset().count(order@[j]) > 0);
                assert(order_init.contains(order@[j]));
                let jj = choose|jj: int|
                    0 <= jj < order_init.len() && #[trigger] order_init[jj] == order@[j];
            }
        }
        let order_len = order.len();
        let mut k: usize = 0;
        while k < order_len
            invariant
                graph.wf(),
                classes == graph.classes_spec(),
                self.params_spec() == graph.params_spec(),
                self.params_spec() == old(self).params_spec(),
                self.wf(classes),
                order_len == order@.len(),
                k <= order_len,
                forall|j: int| 0 <= j < order@.len() ==> ((#[trigger] order@[j]) as int) < classes.len(),
                self.placed_only_locked(graph),
                forall|j: int|
                    0 <= j < k && graph.lock_spec((#[trigger] order@[j]) as int) is Some
                        ==> self.placed(order@[j] as int),
            decreases order_len - k,
        {
            let c = order[k];
            match graph.get_classes_is_locked(c) {
                Some(rp) => {
                    let (r, p) = rp;
                    if !self.visited_classes[c] {
                        proof {
                            assert(lock_ok(
                                graph.locks_spec()[c as int],
                                graph.classes_spec()[c as int],
                                graph.params_spec(),
                            ));
                            assert forall|i2: int|
                                0 <= i2 < classes[c as int].serial_size implies !(
                            #[trigger] self.cell_marked(r as int, p + i2)) by {
                                if self.cell_marked(r as int, p + i2) {
                                    let c2 = choose|c2: int|
                                        0 <= c2 < classes.len() && #[trigger] self.claims(
                                            classes,
                                            c2,
                                            r as int,
                                            p + i2,
                                        );
                                    assert(self.placed(c2));
                                    assert(graph.lock_spec(c2) is Some);
                                    assert(c2 != c as int);
                                    assert(locks_compatible(
                                        graph.locks_spec()[c as int],
                                        graph.locks_spec()[c2],
                                        classes[c as int],
                                        classes[c2],
                                    ));
                                    assert(false);
                                }
                            }
                        }
                        self.allocate_classes(c, r, p, graph);
                    }
                },
                None => {},
            }
            k += 1;
        }
        proof {
            assert forall|c: int|
                0 <= c < graph.classes_spec().len() && (#[trigger] graph.lock_spec(c)) is Some
                    implies self.placed(c) && self.crp_spec()[c] == graph.lock_spec(
                c,
            )->Some_0 by {
                assert(order@.contains(c as usize));
                let j = choose|j: int| 0 <= j < order@.len() && order@[j] == c as usize;
                assert(self.placed(order@[j] as int));
            }
        }
        let mut k: usize = 0;
        while k < order_len
            invariant
                graph.wf(),
                classes == graph.classes_spec(),
                self.params_spec() == graph.params_spec(),
                self.params_spec() == old(self).params_spec(),
                self.wf(classes),
                order_len == order@.len(),
                k <= order_len,
                forall|j: int| 0 <= j < order@.len() ==> ((#[trigger] order@[j]) as int) < classes.len(),
                self.locks_respected(graph),
                forall|j: int| 0 <= j < k ==> self.placed((#[trigger] order@[j]) as int),
            decreases order_len - k,
        {
            let c = order[k];
            if !self.visited_classes[c] {
                let (cells, weights) = self.calc_prob_from_v(c, graph);
                if cells.len() == 0 {
                    proof {
                        assert(!self.placed(c as int));
                        assert(graph.lock_spec(c as int) is None);
                        assert(!self.complete());
                        if classes.len() <= 1 {
                            assert forall|r: int, p: int|
                                0 <= r < self.params_spec().num_of_rooms && 0 <= p
                                    < self.params_spec().num_of_periods implies !(
                            #[trigger] self.cell_marked(r, p)) by {
                                if self.cell_marked(r, p) {
                                    let c2 = choose|c2: int|
                                        0 <= c2 < classes.len() && #[trigger] self.claims(
                                            classes,
                                            c2,
                                            r,
                                            p,
                                        );
                                    assert(c2 == c as int);
                                    assert(false);
                                }
                            }
                            assert(classes[c as int].wf(self.params_spec()));
                            assert(self.allocatable(
                                classes[c as int].serial_size as int,
                                0,
                                0,
                            ));
                            assert(cells@.contains((0usize, 0usize)));
                            assert(false);
                        }
                    }
                    return Err(AcoError::NoAllocatableCell);
                }
                proof {
                    assert(self.params_spec().num_of_rooms * self.params_spec().num_of_periods
                        <= 1000 * 1000) by (nonlinear_arith)
                        requires
                            0 <= self.params_spec().num_of_rooms <= 1000,
                            0 <= self.params_spec().num_of_periods <= 1000,
                    ;
                }
                let chosen: usize;
                let coin = crate::rng::random_below_u64(crate::params::RATE_DEN);
                if coin < self.parameters.prob_random_per_mille {
                    chosen = crate::rng::random_below_u64(cells.len() as u64) as usize;
                } else {
                    let total = crate::sampling::total_weight(&weights);
                    if total == 0 {
                        chosen = crate::rng::random_below_u64(cells.len() as u64) as usize;
                    } else {
                        let u = crate::rng::random_below_u128(total);
                        chosen = crate::sampling::select_by_cumulative(&weights, u);
                    }
                }
                let (r, p) = cells[chosen];
                self.allocate_classes(c, r, p, graph);
            }
            k += 1;
        }
        proof {
            assert forall|c: int| 0 <= c < self.visited_spec().len() implies #[trigger] self.placed(
                c,
            ) by {
                assert(order@.contains(c as usize));
                let j = choose|j: int| 0 <= j < order@.len() && order@[j] == c as usize;
                assert(self.placed(order@[j] as int));
            }
        }
        Ok(())
    }

    /// Some placed class starting at `p` exceeds its room's capacity.
    pub open spec fn cap_violation_at(&self, classes: Seq<Class>, rooms: Seq<Room>, p: int) -> bool {
        exists|c: int|
            0 <= c < classes.len() && self.placed(c) && self.period_of(c) == p
                && classes[c].num_of_students > rooms[self.room_of(c)].capacity
    }

    /// Teacher-conflict pairs over the first `n` teachers at period `p`.
    pub open spec fn all_teacher_pairs(&self, n: int, p: int) -> int
        decreases n,
    {
        if n <= 0 {
            0
        } else {
            self.all_teacher_pairs(n - 1, p) + pair_count(self.teacher_rooms(n - 1, p).len() as int)
                * TEACHER_COEF
        }
    }

    /// Student-group-conflict pairs over the first `n` groups at period `p`.
    pub open spec fn all_student_pairs(&self, n: int, p: int) -> int
        decreases n,
    {
        if n <= 0 {
            0
        } else {
            self.all_student_pairs(n - 1, p) + pair_count(self.student_rooms(n - 1, p).len() as int)
                * STUDENT_COEF
        }
    }

    /// The per-period fitness share `L_period[p]`.
    pub open spec fn l_period_spec(&self, classes: Seq<Class>, rooms: Seq<Room>, p: int) -> int {
        1 + (if self.cap_violation_at(classes, rooms, p) {
            CAP_COEF as int
        } else {
            0
        }) + self.all_student_pairs(self.params_spec().num_of_students as int, p)
            + self.all_teacher_pairs(self.params_spec().num_of_teachers as int, p)
    }

    /// Number of placed classes among the first `n` that sit in room `r` and
    /// straddle a day boundary.
    pub open spec fn straddle_count(&self, classes: Seq<Class>, n: int, r: int) -> int
        decreases n,
    {
        if n <= 0 {
            0
        } else {
            self.straddle_count(classes, n - 1, r) + if self.placed(n - 1) && self.room_of(n - 1)
                == r && Self::straddles_day(
                self.params_spec(),
                self.period_of(n - 1),
                classes[n - 1].serial_size as int,
            ) {
                1int
            } else {
                0int
            }
        }
    }

    /// The per-room fitness share `L_room[r]`.
    pub open spec fn l_room_spec(&self, classes: Seq<Class>, r: int) -> int {
        1 + (STRADDLE_DAYS_COEF as int) * self.straddle_count(classes, classes.len() as int, r)
    }

    /// Sum of `L_period[p] - 1` over the first `n` periods.
    pub open spec fn sum_period_excess(&self, classes: Seq<Class>, rooms: Seq<Room>, n: int) -> int
        decreases n,
    {
        if n <= 0 {
            0
        } else {
            self.sum_period_excess(classes, rooms, n - 1) + (self.l_period_spec(
                classes,
                rooms,
                n - 1,
            ) - 1)
        }
    }

    /// Sum of `L_room[r] - 1` over the first `n` rooms.
    pub open spec fn sum_room_excess(&self, classes: Seq<Class>, n: int) -> int
        decreases n,
    {
        if n <= 0 {
            0
        } else {
            self.sum_room_excess(classes, n - 1) + (self.l_room_spec(classes, n - 1) - 1)
        }
    }

    /// The scalar fitness `L_total` of the assignment.
    pub open spec fn l_total_spec(&self, classes: Seq<Class>, rooms: Seq<Room>) -> int {
        1 + self.sum_period_excess(classes, rooms, self.params_spec().num_of_periods as int)
            + self.sum_room_excess(classes, self.params_spec().num_of_rooms as int)
    }

    proof fn lemma_all_teacher_pairs_bounds(&self, n: int, p: int)
        requires
            0 <= n <= self.params_spec().num_of_teachers,
            0 <= p < self.params_spec().num_of_periods,
            self.params_spec().wf(),
            self.dims_ok_pub(),
            self.occupancy_bounded(),
        ensures
            0 <= self.all_teacher_pairs(n, p) <= n * 1498500,
        decreases n,
    {
        if n > 0 {
            self.lemma_all_teacher_pairs_bounds(n - 1, p);
            self.lemma_occupancy_lists_short();
            let m = self.teacher_rooms(n - 1, p).len() as int;
            assert(0 <= pair_count(m) <= 499500) by (nonlinear_arith)
                requires
                    0 <= m <= 1000,
            ;
            assert((n - 1) * 1498500 + 1498500 == n * 1498500) by (nonlinear_arith);
        }
    }

    proof fn lemma_all_student_pairs_bounds(&self, n: int, p: int)
        requires
            0 <= n <= self.params_spec().num_of_students,
            0 <= p < self.params_spec().num_of_periods,
            self.params_spec().wf(),
            self.dims_ok_pub(),
            self.occupancy_bounded(),
        ensures
            0 <= self.all_student_pairs(n, p) <= n * 1498500,
        decreases n,
    {
        if n > 0 {
            self.lemma_all_student_pairs_bounds(n - 1, p);
            self.lemma_occupancy_lists_short();
            let m = self.student_rooms(n - 1, p).len() as int;
            assert(0 <= pair_count(m) <= 499500) by (nonlinear_arith)
                requires
                    0 <= m <= 1000,
            ;
            assert((n - 1) * 1498500 + 1498500 == n * 1498500) by (nonlinear_arith);
        }
    }

    proof fn lemma_straddle_count_bounds(&self, classes: Seq<Class>, n: int, r: int)
        requires
            0 <= n <= classes.len(),
        ensures
            0 <= self.straddle_count(classes, n, r) <= n,
        decreases n,
    {
        if n > 0 {
            self.lemma_straddle_count_bounds(classes, n - 1, r);
        }
    }

    /// Bounds on the per-period and per-room shares.
    proof fn lemma_l_bounds(&self, classes: Seq<Class>, rooms: Seq<Room>, p: int, r: int)
        requires
            self.params_spec().wf(),
            self.dims_ok_pub(),
            self.occupancy_bounded(),
            classes.len() == self.params_spec().num_of_classes,
            0 <= p < self.params_spec().num_of_periods,
            0 <= r < self.params_spec().num_of_rooms,
        ensures
            1 <= self.l_period_spec(classes, rooms, p) <= 3 + 2000 * 1498500,
            1 <= self.l_room_spec(classes, r) <= 1 + 1000,
    {
        self.lemma_all_teacher_pairs_bounds(self.params_spec().num_of_teachers as int, p);
        self.lemma_all_student_pairs_bounds(self.params_spec().num_of_students as int, p);
        self.lemma_straddle_count_bounds(classes, classes.len() as int, r);
        assert(self.params_spec().num_of_teachers as int * 1498500 <= 1000 * 1498500) by (
        nonlinear_arith)
            requires
                self.params_spec().num_of_teachers as int <= 1000,
                0 <= self.params_spec().num_of_teachers as int,
        ;
        assert(self.params_spec().num_of_students as int * 1498500 <= 1000 * 1498500) by (
        nonlinear_arith)
            requires
                self.params_spec().num_of_students as int <= 1000,
                0 <= self.params_spec().num_of_students as int,
        ;
    }

    /// The per-period shares `L_period`: capacity, teacher-conflict and
    /// student-conflict penalties, indexed by period.
    pub fn calc_all_path_length_par_period(&self, graph: &Graph) -> (res: Vec<u64>)
        requires
            graph.wf(),
            self.params_spec() == graph.params_spec(),
            self.wf(graph.classes_spec()),
        ensures
            res@.len() == self.params_spec().num_of_periods,
            forall|p: int|
                0 <= p < res@.len() ==> (#[trigger] res@[p]) as int == self.l_period_spec(
                    graph.classes_spec(),
                    graph.rooms_spec(),
                    p,
                ),
    {
        let ghost classes = graph.classes_spec();
        let ghost rooms = graph.rooms_spec();
        let num_periods = self.parameters.num_of_periods;
        let num_classes = self.parameters.num_of_classes;
        let mut flags: Vec<bool> = vec![false; num_periods];
        let mut c: usize = 0;
        while c < num_classes
            invariant
                graph.wf(),
                classes == graph.classes_spec(),
                rooms == graph.rooms_spec(),
                self.params_spec() == graph.params_spec(),
                self.wf(classes),
                num_periods == self.params_spec().num_of_periods,
                num_classes == self.params_spec().num_of_classes,
                c <= num_classes,
                flags@.len() == num_periods,
                forall|p: int|
                    0 <= p < num_periods ==> (#[trigger] flags@[p] == exists|c2: int|
                        0 <= c2 < c && self.placed(c2) && self.period_of(c2) == p
                            && classes[c2].num_of_students > rooms[self.room_of(c2)].capacity),
            decreases num_classes - c,
        {
            if self.visited_classes[c] {
                let (room, period) = self.corresponding_crp[c];
                proof {
                    assert(self.placed(c as int));
                    assert(self.room_of(c as int) < self.params_spec().num_of_rooms);
                    assert(self.period_of(c as int) + classes[c as int].serial_size
                        <= self.params_spec().num_of_periods);
                    assert(classes[c as int].serial_size >= 1);
                }
                if graph.get_room_ref(room).get_capacity()
                    < graph.get_class_ref(c).get_num_of_students() {
                    let ghost old_flags = flags@;
                    flags[period] = true;
                    proof {
                        assert forall|p: int| 0 <= p < num_periods implies (#[trigger] flags@[p]
                            == exists|c2: int|
                            0 <= c2 < c + 1 && self.placed(c2) && self.period_of(c2) == p
                                && classes[c2].num_of_students > rooms[self.room_of(
                                c2,
                            )].capacity) by {
                            if p == period {
                                assert(self.placed(c as int) && self.period_of(c as int) == p
                                    && classes[c as int].num_of_students > rooms[self.room_of(
                                    c as int,
                                )].capacity);
                            } else {
                                assert(flags@[p] == old_flags[p]);
                            }
                        }
                    }
                }
            }
            proof {
                assert forall|p: int| 0 <= p < num_periods implies (#[trigger] flags@[p] == exists|
                    c2: int,
                |
                    0 <= c2 < c + 1 && self.placed(c2) && self.period_of(c2) == p
                        && classes[c2].num_of_students > rooms[self.room_of(c2)].capacity) by {
                    if flags@[p] {
                    } else {
                        assert forall|c2: int|
                            0 <= c2 < c + 1 implies !(self.placed(c2) && self.period_of(c2) == p
                            && classes[c2].num_of_students > rooms[self.room_of(
                            c2,
                        )].capacity) by {}
                    }
                }
            }
            c += 1;
        }
        let num_teachers = self.parameters.num_of_teachers;
        let num_students = self.parameters.num_of_students;
        let mut res: Vec<u64> = Vec::new();
        let mut p: usize = 0;
        while p < num_periods
            invariant
                graph.wf(),
                classes == graph.classes_spec(),
                rooms == graph.rooms_spec(),
                self.params_spec() == graph.params_spec(),
                self.wf(classes),
                num_periods == self.params_spec().num_of_periods,
                num_teachers == self.params_spec().num_of_teachers,
                num_students == self.params_spec().num_of_students,
                p <= num_periods,
                flags@.len() == num_periods,
                forall|pp: int|
                    0 <= pp < num_periods ==> (#[trigger] flags@[pp] == self.cap_violation_at(
                        classes,
                        rooms,
                        pp,
                    )),
                res@.len() == p,
                forall|pp: int|
                    0 <= pp < p ==> (#[trigger] res@[pp]) as int == self.l_period_spec(
                        classes,
                        rooms,
                        pp,
                    ),
            decreases num_periods - p,
        {
            let mut length: u64 = 1;
            if flags[p] {
                length += CAP_COEF;
            }
            let mut g: usize = 0;
            while g < num_students
                invariant
                    self.params_spec().wf(),
                    self.dims_ok_pub(),
                    self.occupancy_bounded(),
                    num_students == self.params_spec().num_of_students,
                    p < self.params_spec().num_of_periods,
                    g <= num_students,
                    length as int == 1 + (if self.cap_violation_at(classes, rooms, p as int) {
                        CAP_COEF as int
                    } else {
                        0
                    }) + self.all_student_pairs(g as int, p as int),
                    flags@.len() == self.params_spec().num_of_periods,
                    flags@[p as int] == self.cap_violation_at(classes, rooms, p as int),
                decreases num_students - g,
            {
                proof {
                    self.lemma_all_student_pairs_bounds(g as int + 1, p as int);
                    self.lemma_occupancy_lists_short();
                    assert((g as int + 1) * 1498500 <= 1001 * 1498500) by (nonlinear_arith)
                        requires
                            g as int + 1 <= 1001,
                    ;
                }
                let n: u64 = self.students_times[g][p].len() as u64;
                let pairs: u64 = if n > 0 {
                    n * (n - 1) / 2
                } else {
                    0
                };
                proof {
                    assert(n as int == self.student_rooms(g as int, p as int).len());
                    let m = n as int;
                    assert(pairs as int == pair_count(m)) by (nonlinear_arith)
                        requires
                            m == n as int,
                            pairs == (if n > 0 { (n * (n - 1) / 2) as u64 } else { 0u64 }),
                            n <= 1000,
                    ;
                }
                length += pairs * STUDENT_COEF;
                g += 1;
            }
            proof {
                self.lemma_all_student_pairs_bounds(num_students as int, p as int);
                assert(num_students as int * 1498500 <= 1000 * 1498500) by (nonlinear_arith)
                    requires
                        0 <= num_students as int <= 1000,
                ;
            }
            let ghost base = length as int;
            let mut t: usize = 0;
            while t < num_teachers
                invariant
                    self.params_spec().wf(),
                    self.dims_ok_pub(),
                    self.occupancy_bounded(),
                    num_teachers == self.params_spec().num_of_teachers,
                    p < self.params_spec().num_of_periods,
                    t <= num_teachers,
                    base <= 3 + 1000 * 1498500,
                    length as int == base + self.all_teacher_pairs(t as int, p as int),
                decreases num_teachers - t,
            {
                proof {
                    self.lemma_all_teacher_pairs_bounds(t as int + 1, p as int);
                    self.lemma_occupancy_lists_short();
                    assert((t as int + 1) * 1498500 <= 1001 * 1498500) by (nonlinear_arith)
                        requires
                            t as int + 1 <= 1001,
                    ;
                }
                let n: u64 = self.teachers_times[t][p].len() as u64;
                let pairs: u64 = if n > 0 {
                    n * (n - 1) / 2
                } else {
                    0
                };
                proof {
                    assert(n as int == self.teacher_rooms(t as int, p as int).len());
                    let m = n as int;
                    assert(pairs as int == pair_count(m)) by (nonlinear_arith)
                        requires
                            m == n as int,
                            pairs == (if n > 0 { (n * (n - 1) / 2) as u64 } else { 0u64 }),
                            n <= 1000,
                    ;
                }
                length += pairs * TEACHER_COEF;
                t += 1;
            }
            proof {
                self.lemma_all_student_pairs_bounds(num_students as int, p as int);
            }
            res.push(length);
            p += 1;
        }
        res
    }

    /// The per-room shares `L_room`: one plus the day-straddle penalties.
    pub fn calc_all_path_length_par_room(&self, graph: &Graph) -> (res: Vec<u64>)
        requires
            graph.wf(),
            self.params_spec() == graph.params_spec(),
            self.wf(graph.classes_spec()),
        ensures
            res@.len() == self.params_spec().num_of_rooms,
            forall|r: int|
                0 <= r < res@.len() ==> (#[trigger] res@[r]) as int == self.l_room_spec(
                    graph.classes_spec(),
                    r,
                ),
    {
        let ghost classes = graph.classes_spec();
        let num_rooms = self.parameters.num_of_rooms;
        let num_classes = self.parameters.num_of_classes;
        let mut res: Vec<u64> = vec![1u64; num_rooms];
        let mut c: usize = 0;
        proof {
            assert forall|r: int| 0 <= r < num_rooms implies (#[trigger] res@[r]) as int == 1 + (
            STRADDLE_DAYS_COEF as int) * self.straddle_count(classes, 0, r) by {}
        }
        while c < num_classes
            invariant
                graph.wf(),
                classes == graph.classes_spec(),
                self.params_spec() == graph.params_spec(),
                self.wf(classes),
                num_rooms == self.params_spec().num_of_rooms,
                num_classes == self.params_spec().num_of_classes,
                c <= num_classes,
                res@.len() == num_rooms,
                forall|r: int|
                    0 <= r < num_rooms ==> (#[trigger] res@[r]) as int == 1 + (
                    STRADDLE_DAYS_COEF as int) * self.straddle_count(classes, c as int, r),
            decreases num_classes - c,
        {
            let ghost old_res = res@;
            if self.visited_classes[c] {
                let (room, period) = self.corresponding_crp[c];
                proof {
                    assert(self.placed(c as int));
                    assert(self.room_of(c as int) < self.params_spec().num_of_rooms);
                    assert(self.period_of(c as int) + classes[c as int].serial_size
                        <= self.params_spec().num_of_periods);
                    assert(classes[c as int].serial_size >= 1);
                }
                let serial_size = graph.get_class_ref(c).serial_size;
                proof {
                    assert(period % self.parameters.num_of_day_lengths <= period) by (
                    nonlinear_arith)
                        requires
                            self.parameters.num_of_day_lengths >= 1,
                    ;
                }
                if period % self.parameters.num_of_day_lengths + serial_size
                    > self.parameters.num_of_day_lengths {
                    proof {
                        self.lemma_straddle_count_bounds(classes, c as int, room as int);
                    }
                    res[room] = res[room] + 1;
                }
            }
            proof {
                assert forall|r: int| 0 <= r < num_rooms implies (#[trigger] res@[r]) as int == 1
                    + (STRADDLE_DAYS_COEF as int) * self.straddle_count(classes, c as int + 1, r) by {
                    assert(old_res[r] as int == 1 + (STRADDLE_DAYS_COEF as int)
                        * self.straddle_count(classes, c as int, r));
                }
            }
            c += 1;
        }
        res
    }

    /// The scalar fitness `L_total`; at least one, and exactly one when no
    /// penalty applies anywhere.
    pub fn calc_all_path_length(&self, graph: &Graph) -> (res: u64)
        requires
            graph.wf(),
            self.params_spec() == graph.params_spec(),
            self.wf(graph.classes_spec()),
        ensures
            res as int == self.l_total_spec(graph.classes_spec(), graph.rooms_spec()),
            res >= 1,
    {
        let ghost classes = graph.classes_spec();
        let ghost rooms = graph.rooms_spec();
        let length_period = self.calc_all_path_length_par_period(graph);
        let length_room = self.calc_all_path_length_par_room(graph);
        let mut length: u64 = 1;
        let mut p: usize = 0;
        while p < length_period.len()
            invariant
                graph.wf(),
                classes == graph.classes_spec(),
                rooms == graph.rooms_spec(),
                self.params_spec() == graph.params_spec(),
                self.wf(classes),
                length_period@.len() == self.params_spec().num_of_periods,
                forall|pp: int|
                    0 <= pp < length_period@.len() ==> (#[trigger] length_period@[pp]) as int
                        == self.l_period_spec(classes, rooms, pp),
                p <= length_period@.len(),
                length as int == 1 + self.sum_period_excess(classes, rooms, p as int),
                length as int <= 1 + (p as int) * (2 + 2000 * 1498500),
            decreases length_period@.len() - p,
        {
            proof {
                self.lemma_l_bounds(classes, rooms, p as int, 0);
                assert((p as int) * (2 + 2000 * 1498500) + (2 + 2000 * 1498500) == (p as int + 1)
                    * (2 + 2000 * 1498500)) by (nonlinear_arith);
                assert((p as int + 1) * (2 + 2000 * 1498500) <= 1000 * (2 + 2000 * 1498500)) by (
                nonlinear_arith)
                    requires
                        p as int + 1 <= 1000,
                ;
            }
            length += length_period[p] - 1;
            p += 1;
        }
        proof {
            assert((length_period@.len() as int) * (2 + 2000 * 1498500) <= 1000 * (2 + 2000
                * 1498500)) by (nonlinear_arith)
                requires
                    0 <= length_period@.len() as int <= 1000,
            ;
        }
        let ghost base = length as int;
        let mut r: usize = 0;
        while r < length_room.len()
            invariant
                graph.wf(),
                classes == graph.classes_spec(),
                rooms == graph.rooms_spec(),
                self.params_spec() == graph.params_spec(),
                self.wf(classes),
                length_room@.len() == self.params_spec().num_of_rooms,
                forall|rr: int|
                    0 <= rr < length_room@.len() ==> (#[trigger] length_room@[rr]) as int
                        == self.l_room_spec(classes, rr),
                r <= length_room@.len(),
                base <= 1 + 1000 * (2 + 2000 * 1498500),
                length as int == base + self.sum_room_excess(classes, r as int),
                length as int <= base + (r as int) * 1000,
            decreases length_room@.len() - r,
        {
            proof {
                self.lemma_l_bounds(classes, rooms, 0, r as int);
                assert((r as int) * 1000 + 1000 == (r as int + 1) * 1000) by (nonlinear_arith);
                assert((r as int + 1) * 1000 <= 1000 * 1000) by (nonlinear_arith)
                    requires
                        r as int + 1 <= 1000,
                ;
            }
            length += length_room[r] - 1;
            r += 1;
        }
        proof {
            self.lemma_sum_period_excess_nonneg(classes, rooms, self.params_spec().num_of_periods as int);
            self.lemma_sum_room_excess_nonneg(classes, self.params_spec().num_of_rooms as int);
        }
        length
    }

    proof fn lemma_sum_period_excess_nonneg(&self, classes: Seq<Class>, rooms: Seq<Room>, n: int)
        requires
            self.params_spec().wf(),
            self.dims_ok_pub(),
            self.occupancy_bounded(),
            classes.len() == self.params_spec().num_of_classes,
            0 <= n <= self.params_spec().num_of_periods,
        ensures
            self.sum_period_excess(classes, rooms, n) >= 0,
        decreases n,
    {
        if n > 0 {
            self.lemma_sum_period_excess_nonneg(classes, rooms, n - 1);
            self.lemma_l_bounds(classes, rooms, n - 1, 0);
        }
    }

    proof fn lemma_sum_room_excess_nonneg(&self, classes: Seq<Class>, n: int)
        requires
            self.params_spec().wf(),
            self.dims_ok_pub(),
            self.occupancy_bounded(),
            classes.len() == self.params_spec().num_of_classes,
            0 <= n <= self.params_spec().num_of_rooms,
        ensures
            self.sum_room_excess(classes, n) >= 0,
        decreases n,
    {
        if n > 0 {
            self.lemma_sum_room_excess_nonneg(classes, n - 1);
            self.lemma_straddle_count_bounds(classes, classes.len() as int, n - 1);
        }
    }

    /// The deposit of this ant for class `c`:
    /// `q / (L_period[start] + L_room[room] - 1)`, rounded up so that a
    /// positive `q` always leaves a positive trace.
    pub open spec fn deposit_of(&self, classes: Seq<Class>, rooms: Seq<Room>, c: int) -> int {
        let d = self.l_period_spec(classes, rooms, self.period_of(c)) + self.l_room_spec(
            classes,
            self.room_of(c),
        ) - 1;
        (self.params_spec().q + d - 1) / d
    }

    /// Stage this ant's deposits: for every class `c` assigned to `(r, p)`,
    /// add `q / (L_period[p] + L_room[r] - 1)`, rounded up, into the shadow
    /// tensor at `(c, r, p)`.  Every staged deposit is strictly positive.
    pub fn update_next_pheromone(&self, graph: &mut Graph)
        requires
            old(graph).wf(),
            self.params_spec() == old(graph).params_spec(),
            self.wf(old(graph).classes_spec()),
            self.complete(),
        ensures
            final(graph).wf(),
            final(graph).same_problem(old(graph)),
            final(graph).locks_spec() == old(graph).locks_spec(),
            final(graph).pheromone_spec() == old(graph).pheromone_spec(),
            final(graph).next_pheromone_spec().len() == old(graph).next_pheromone_spec().len(),
            forall|c: int, r: int, p: int|
                0 <= c < old(graph).classes_spec().len() && 0 <= r < old(
                    graph,
                ).params_spec().num_of_rooms && 0 <= p < old(graph).params_spec().num_of_periods
                    ==> #[trigger] final(graph).next_pheromone_at(c, r, p) == (if r == self.room_of(
                    c,
                ) && p == self.period_of(c) {
                    if old(graph).next_pheromone_at(c, r, p) + self.deposit_of(
                        old(graph).classes_spec(),
                        old(graph).rooms_spec(),
                        c,
                    ) <= u64::MAX {
                        old(graph).next_pheromone_at(c, r, p) + self.deposit_of(
                            old(graph).classes_spec(),
                            old(graph).rooms_spec(),
                            c,
                        )
                    } else {
                        u64::MAX as int
                    }
                } else {
                    old(graph).next_pheromone_at(c, r, p) as int
                }),
            forall|c: int|
                0 <= c < old(graph).classes_spec().len() ==> #[trigger] self.deposit_of(
                    old(graph).classes_spec(),
                    old(graph).rooms_spec(),
                    c,
                ) >= 1,
    {
        let ghost classes = old(graph).classes_spec();
        let ghost rooms = old(graph).rooms_spec();
        let length_period = self.calc_all_path_length_par_period(graph);
        let length_room = self.calc_all_path_length_par_room(graph);
        let q = self.parameters.q;
        let num_classes = self.parameters.num_of_classes;
        proof {
            assert forall|c: int| 0 <= c < classes.len() implies #[trigger] self.deposit_of(
                classes,
                rooms,
                c,
            ) >= 1 by {
                assert(self.placed(c));
                self.lemma_l_bounds(classes, rooms, self.period_of(c), self.room_of(c));
                let d = self.l_period_spec(classes, rooms, self.period_of(c)) + self.l_room_spec(
                    classes,
                    self.room_of(c),
                ) - 1;
                assert((self.params_spec().q + d - 1) / d >= 1) by (nonlinear_arith)
                    requires
                        d >= 1,
                        self.params_spec().q >= 1,
                ;
            }
        }
        let mut c: usize = 0;
        while c < num_classes
            invariant
                graph.wf(),
                graph.same_problem(old(graph)),
                graph.locks_spec() == old(graph).locks_spec(),
                graph.pheromone_spec() == old(graph).pheromone_spec(),
                graph.next_pheromone_spec().len() == old(graph).next_pheromone_spec().len(),
                classes == graph.classes_spec(),
                rooms == graph.rooms_spec(),
                self.params_spec() == graph.params_spec(),
                self.wf(classes),
                self.complete(),
                num_classes == self.params_spec().num_of_classes,
                q == self.params_spec().q,
                c <= num_classes,
                length_period@.len() == self.params_spec().num_of_periods,
                forall|pp: int|
                    0 <= pp < length_period@.len() ==> (#[trigger] length_period@[pp]) as int
                        == self.l_period_spec(classes, rooms, pp),
                length_room@.len() == self.params_spec().num_of_rooms,
                forall|rr: int|
                    0 <= rr < length_room@.len() ==> (#[trigger] length_room@[rr]) as int
                        == self.l_room_spec(classes, rr),
                forall|c2: int, r2: int, p2: int|
                    0 <= c2 < classes.len() && 0 <= r2 < self.params_spec().num_of_rooms && 0 <= p2
                        < self.params_spec().num_of_periods
                        ==> #[trigger] graph.next_pheromone_at(c2, r2, p2) == (if c2 < c && r2
                        == self.room_of(c2) && p2 == self.period_of(c2) {
                        if old(graph).next_pheromone_at(c2, r2, p2) + self.deposit_of(
                            classes,
                            rooms,
                            c2,
                        ) <= u64::MAX {
                            old(graph).next_pheromone_at(c2, r2, p2) + self.deposit_of(
                                classes,
                                rooms,
                                c2,
                            )
                        } else {
                            u64::MAX as int
                        }
                    } else {
                        old(graph).next_pheromone_at(c2, r2, p2) as int
                    }),
            decreases num_classes - c,
        {
            let (room, period) = self.corresponding_crp[c];
            proof {
                assert(self.placed(c as int));
                assert(self.room_of(c as int) < self.params_spec().num_of_rooms);
                assert(self.period_of(c as int) + classes[c as int].serial_size
                    <= self.params_spec().num_of_periods);
                assert(classes[c as int].serial_size >= 1);
                self.lemma_l_bounds(classes, rooms, period as int, room as int);
            }
            let d: u64 = length_period[period] + length_room[room] - 1;
            let deposit: u64 = (q + d - 1) / d;
            let ghost pre_graph = *graph;
            graph.add_next_pheromone(c, room, period, deposit);
            proof {
                assert forall|c2: int, r2: int, p2: int|
                    0 <= c2 < classes.len() && 0 <= r2 < self.params_spec().num_of_rooms && 0 <= p2
                        < self.params_spec().num_of_periods implies
                    #[trigger] graph.next_pheromone_at(c2, r2, p2) == (if c2 < c + 1 && r2
                    == self.room_of(c2) && p2 == self.period_of(c2) {
                    if old(graph).next_pheromone_at(c2, r2, p2) + self.deposit_of(
                        classes,
                        rooms,
                        c2,
                    ) <= u64::MAX {
                        old(graph).next_pheromone_at(c2, r2, p2) + self.deposit_of(
                            classes,
                            rooms,
                            c2,
                        )
                    } else {
                        u64::MAX as int
                    }
                } else {
                    old(graph).next_pheromone_at(c2, r2, p2) as int
                }) by {
                    let dep = self.deposit_of(classes, rooms, c2);
                    let was = pre_graph.next_pheromone_at(c2, r2, p2);
                }
            }
            c += 1;
        }
    }

    /// No penalty applies anywhere: every room is large enough, no teacher
    /// and no student group stands in two rooms at once, and no class
    /// crosses a day boundary.
    pub open spec fn penalty_free(&self, classes: Seq<Class>, rooms: Seq<Room>) -> bool {
        &&& forall|p: int|
            0 <= p < self.params_spec().num_of_periods ==> !self.cap_violation_at(
                classes,
                rooms,
                p,
            )
        &&& forall|t: int, p: int|
            0 <= t < self.params_spec().num_of_teachers && 0 <= p
                < self.params_spec().num_of_periods ==> (#[trigger] self.teacher_rooms(t, p)).len()
                <= 1
        &&& forall|g: int, p: int|
            0 <= g < self.params_spec().num_of_students && 0 <= p
                < self.params_spec().num_of_periods ==> (#[trigger] self.student_rooms(g, p)).len()
                <= 1
        &&& forall|c: int|
            0 <= c < classes.len() && #[trigger] self.placed(c) ==> !Self::straddles_day(
                self.params_spec(),
                self.period_of(c),
                classes[c].serial_size as int,
            )
    }

    proof fn lemma_teacher_pairs_zero_iff(&self, n: int, p: int)
        requires
            0 <= n <= self.params_spec().num_of_teachers,
            0 <= p < self.params_spec().num_of_periods,
            self.params_spec().wf(),
            self.dims_ok_pub(),
            self.occupancy_bounded(),
        ensures
            self.all_teacher_pairs(n, p) == 0 <==> (forall|t: int|
                0 <= t < n ==> (#[trigger] self.teacher_rooms(t, p)).len() <= 1),
        decreases n,
    {
        if n > 0 {
            self.lemma_teacher_pairs_zero_iff(n - 1, p);
            self.lemma_all_teacher_pairs_bounds(n - 1, p);
            self.lemma_occupancy_lists_short();
            let m = self.teacher_rooms(n - 1, p).len() as int;
            assert(pair_count(m) == 0 <==> m <= 1) by (nonlinear_arith)
                requires
                    0 <= m <= 1000,
            ;
            assert(pair_count(m) >= 0) by (nonlinear_arith)
                requires
                    0 <= m,
            ;
        }
    }

    proof fn lemma_student_pairs_zero_iff(&self, n: int, p: int)
        requires
            0 <= n <= self.params_spec().num_of_students,
            0 <= p < self.params_spec().num_of_periods,
            self.params_spec().wf(),
            self.dims_ok_pub(),
            self.occupancy_bounded(),
        ensures
            self.all_student_pairs(n, p) == 0 <==> (forall|g: int|
                0 <= g < n ==> (#[trigger] self.student_rooms(g, p)).len() <= 1),
        decreases n,
    {
        if n > 0 {
            self.lemma_student_pairs_zero_iff(n - 1, p);
            self.lemma_all_student_pairs_bounds(n - 1, p);
            self.lemma_occupancy_lists_short();
            let m = self.student_rooms(n - 1, p).len() as int;
            assert(pair_count(m) == 0 <==> m <= 1) by (nonlinear_arith)
                requires
                    0 <= m <= 1000,
            ;
            assert(pair_count(m) >= 0) by (nonlinear_arith)
                requires
                    0 <= m,
            ;
        }
    }

    proof fn lemma_straddle_count_zero_iff(&self, classes: Seq<Class>, n: int, r: int)
        requires
            0 <= n <= classes.len(),
        ensures
            self.straddle_count(classes, n, r) == 0 <==> (forall|c: int|
                0 <= c < n ==> !(#[trigger] self.placed(c) && self.room_of(c) == r
                    && Self::straddles_day(
                    self.params_spec(),
                    self.period_of(c),
                    classes[c].serial_size as int,
                ))),
        decreases n,
    {
        if n > 0 {
            self.lemma_straddle_count_zero_iff(classes, n - 1, r);
            self.lemma_straddle_count_bounds(classes, n - 1, r);
        }
    }

    proof fn lemma_sum_period_excess_zero_iff(&self, classes: Seq<Class>, rooms: Seq<Room>, n: int)
        requires
            self.params_spec().wf(),
            self.dims_ok_pub(),
            self.occupancy_bounded(),
            classes.len() == self.params_spec().num_of_classes,
            0 <= n <= self.params_spec().num_of_periods,
        ensures
            self.sum_period_excess(classes, rooms, n) == 0 <==> (forall|p: int|
                0 <= p < n ==> self.l_period_spec(classes, rooms, p) == 1),
        decreases n,
    {
        if n > 0 {
            self.lemma_sum_period_excess_zero_iff(classes, rooms, n - 1);
            self.lemma_sum_period_excess_nonneg(classes, rooms, n - 1);
            self.lemma_l_bounds(classes, rooms, n - 1, 0);
        }
    }

    proof fn lemma_sum_room_excess_zero_iff(&self, classes: Seq<Class>, n: int)
        requires
            self.params_spec().wf(),
            self.dims_ok_pub(),
            self.occupancy_bounded(),
            classes.len() == self.params_spec().num_of_classes,
            0 <= n <= self.params_spec().num_of_rooms,
        ensures
            self.sum_room_excess(classes, n) == 0 <==> (forall|r: int|
                0 <= r < n ==> self.l_room_spec(classes, r) == 1),
        decreases n,
    {
        if n > 0 {
            self.lemma_sum_room_excess_zero_iff(classes, n - 1);
            self.lemma_sum_room_excess_nonneg(classes, n - 1);
            self.lemma_straddle_count_bounds(classes, classes.len() as int, n - 1);
        }
    }

    /// The law of the fitness floor: `L_total` is always at least one, and
    /// it equals one exactly when no capacity, teacher-conflict,
    /// student-conflict or day-straddle penalty applies.
    pub proof fn lemma_l_total_one_iff_penalty_free(&self, classes: Seq<Class>, rooms: Seq<Room>)
        requires
            self.wf(classes),
            rooms.len() == self.params_spec().num_of_rooms,
        ensures
            self.l_total_spec(classes, rooms) >= 1,
            self.l_total_spec(classes, rooms) == 1 <==> self.penalty_free(classes, rooms),
    {
        let params = self.params_spec();
        self.lemma_sum_period_excess_nonneg(classes, rooms, params.num_of_periods as int);
        self.lemma_sum_room_excess_nonneg(classes, params.num_of_rooms as int);
        self.lemma_sum_period_excess_zero_iff(classes, rooms, params.num_of_periods as int);
        self.lemma_sum_room_excess_zero_iff(classes, params.num_of_rooms as int);
        assert forall|p: int| 0 <= p < params.num_of_periods implies (self.l_period_spec(
            classes,
            rooms,
            p,
        ) == 1 <==> (!self.cap_violation_at(classes, rooms, p) && (forall|t: int|
            0 <= t < params.num_of_teachers ==> (#[trigger] self.teacher_rooms(t, p)).len() <= 1)
            && (forall|g: int|
            0 <= g < params.num_of_students ==> (#[trigger] self.student_rooms(g, p)).len()
                <= 1))) by {
            self.lemma_teacher_pairs_zero_iff(params.num_of_teachers as int, p);
            self.lemma_student_pairs_zero_iff(params.num_of_students as int, p);
            self.lemma_all_teacher_pairs_bounds(params.num_of_teachers as int, p);
            self.lemma_all_student_pairs_bounds(params.num_of_students as int, p);
        }
        assert forall|r: int| 0 <= r < params.num_of_rooms implies (self.l_room_spec(classes, r)
            == 1 <==> (forall|c: int|
            0 <= c < classes.len() ==> !(#[trigger] self.placed(c) && self.room_of(c) == r
                && Self::straddles_day(
                params,
                self.period_of(c),
                classes[c].serial_size as int,
            )))) by {
            self.lemma_straddle_count_zero_iff(classes, classes.len() as int, r);
        }
        if self.l_total_spec(classes, rooms) == 1 {
            assert(self.sum_period_excess(classes, rooms, params.num_of_periods as int) == 0);
            assert(self.sum_room_excess(classes, params.num_of_rooms as int) == 0);
            assert forall|p: int| 0 <= p < params.num_of_periods implies !self.cap_violation_at(
                classes,
                rooms,
                p,
            ) by {
                assert(self.l_period_spec(classes, rooms, p) == 1);
            }
            assert forall|t: int, p: int|
                0 <= t < params.num_of_teachers && 0 <= p < params.num_of_periods implies (
            #[trigger] self.teacher_rooms(t, p)).len() <= 1 by {
                assert(self.l_period_spec(classes, rooms, p) == 1);
            }
            assert forall|g: int, p: int|
                0 <= g < params.num_of_students && 0 <= p < params.num_of_periods implies (
            #[trigger] self.student_rooms(g, p)).len() <= 1 by {
                assert(self.l_period_spec(classes, rooms, p) == 1);
            }
            assert forall|c: int|
                0 <= c < classes.len() && #[trigger] self.placed(c) implies !Self::straddles_day(
                params,
                self.period_of(c),
                classes[c].serial_size as int,
            ) by {
                let r = self.room_of(c);
                assert(self.l_room_spec(classes, r) == 1);
            }
        }
        if self.penalty_free(classes, rooms) {
            assert forall|r: int| 0 <= r < params.num_of_rooms implies #[trigger] self.l_room_spec(
                classes,
                r,
            ) == 1 by {
                assert forall|c: int| 0 <= c < classes.len() implies !(#[trigger] self.placed(c)
                    && self.room_of(c) == r && Self::straddles_day(
                    params,
                    self.period_of(c),
                    classes[c].serial_size as int,
                )) by {}
            }
            assert forall|p: int| 0 <= p < params.num_of_periods implies #[trigger] self.l_period_spec(
                classes,
                rooms,
                p,
            ) == 1 by {}
            assert(self.sum_period_excess(classes, rooms, params.num_of_periods as int) == 0);
            assert(self.sum_room_excess(classes, params.num_of_rooms as int) == 0);
        }
    }

    /// Number of `(teacher, period)` slots among the first `n` (in
    /// teacher-major order over the `T x P` grid) whose occupancy lists more
    /// than one room.
    pub open spec fn loose_teacher_conflict_count(&self, n: int) -> int
        decreases n,
    {
        if n <= 0 {
            0
        } else {
            self.loose_teacher_conflict_count(n - 1) + if self.teacher_rooms(
                (n - 1) / (self.params_spec().num_of_periods as int),
                (n - 1) % (self.params_spec().num_of_periods as int),
            ).len() > 1 {
                1int
            } else {
                0int
            }
        }
    }

    /// Number of conflicting `(student group, period)` slots among the first
    /// `n`, in group-major order.
    pub open spec fn loose_group_conflict_count(&self, n: int) -> int
        decreases n,
    {
        if n <= 0 {
            0
        } else {
            self.loose_group_conflict_count(n - 1) + if self.student_rooms(
                (n - 1) / (self.params_spec().num_of_periods as int),
                (n - 1) % (self.params_spec().num_of_periods as int),
            ).len() > 1 {
                1int
            } else {
                0int
            }
        }
    }

    /// The loose teacher-conflict report: one entry per `(teacher, period)`
    /// whose occupancy lists more than one room, in teacher-then-period
    /// order.
    pub fn get_same_teacher_violations(&self) -> (res: Vec<Violations>)
        requires
            self.params_spec().wf(),
            self.dims_ok_pub(),
        ensures
            res@.len() == self.loose_teacher_conflict_count(
                self.params_spec().num_of_teachers as int
                    * self.params_spec().num_of_periods as int,
            ),
            forall|k: int|
                0 <= k < res@.len() ==> (#[trigger] res@[k]).period
                    < self.params_spec().num_of_periods && exists|t: int|
                    0 <= t < self.params_spec().num_of_teachers && res@[k].ids@
                        == self.teacher_rooms(t, res@[k].period as int) && res@[k].ids@.len() > 1,
            forall|t: int, p: int|
                0 <= t < self.params_spec().num_of_teachers && 0 <= p
                    < self.params_spec().num_of_periods && (#[trigger] self.teacher_rooms(
                    t,
                    p,
                )).len() > 1 ==> exists|k: int|
                    0 <= k < res@.len() && (#[trigger] res@[k]).period == p && res@[k].ids@
                        == self.teacher_rooms(t, p),
    {
        let mut res: Vec<Violations> = Vec::new();
        let num_teachers = self.parameters.num_of_teachers;
        let num_periods = self.parameters.num_of_periods;
        let mut t: usize = 0;
        while t < num_teachers
            invariant
                self.params_spec().wf(),
                self.dims_ok_pub(),
                num_teachers == self.params_spec().num_of_teachers,
                num_periods == self.params_spec().num_of_periods,
                t <= num_teachers,
                res@.len() == self.loose_teacher_conflict_count(t as int * num_periods as int),
                forall|k: int|
                    0 <= k < res@.len() ==> (#[trigger] res@[k]).period < num_periods && exists|
                        t2: int,
                    |
                        0 <= t2 < num_teachers && res@[k].ids@ == self.teacher_rooms(
                            t2,
                            res@[k].period as int,
                        ) && res@[k].ids@.len() > 1,
                forall|t2: int, p: int|
                    0 <= t2 < t && 0 <= p < num_periods && (#[trigger] self.teacher_rooms(
                        t2,
                        p,
                    )).len() > 1 ==> exists|k: int|
                        0 <= k < res@.len() && (#[trigger] res@[k]).period == p && res@[k].ids@
                            == self.teacher_rooms(t2, p),
            decreases num_teachers - t,
        {
            let mut p: usize = 0;
            while p < num_periods
                invariant
                    self.params_spec().wf(),
                    self.dims_ok_pub(),
                    num_teachers == self.params_spec().num_of_teachers,
                    num_periods == self.params_spec().num_of_periods,
                    t < num_teachers,
                    p <= num_periods,
                    res@.len() == self.loose_teacher_conflict_count(
                        t as int * num_periods as int + p as int,
                    ),
                    forall|k: int|
                        0 <= k < res@.len() ==> (#[trigger] res@[k]).period < num_periods && exists|
                            t2: int,
                        |
                            0 <= t2 < num_teachers && res@[k].ids@ == self.teacher_rooms(
                                t2,
                                res@[k].period as int,
                            ) && res@[k].ids@.len() > 1,
                    forall|t2: int, p2: int|
                        0 <= t2 < num_teachers && 0 <= p2 < num_periods && (t2 < t || (t2 == t && p2
                            < p)) && (#[trigger] self.teacher_rooms(t2, p2)).len() > 1 ==> exists|
                            k: int,
                        |
                            0 <= k < res@.len() && (#[trigger] res@[k]).period == p2 && res@[k].ids@
                                == self.teacher_rooms(t2, p2),
                decreases num_periods - p,
            {
                let ghost res_old = res@;
                if self.teachers_times[t][p].len() > 1 {
                    let rooms = self.teachers_times[t][p].clone();
                    proof {
                        assert(rooms@ =~= self.teacher_rooms(t as int, p as int)) by {
                            assert(forall|i: int|
                                0 <= i < rooms@.len() ==> cloned(
                                    self.teacher_rooms(t as int, p as int)[i],
                                    #[trigger] rooms@[i],
                                ));
                        }
                    }
                    let v = Violations::new(p, rooms);
                    res.push(v);
                    proof {
                        assert(res@[res@.len() - 1].period == p && res@[res@.len() - 1].ids@
                            == self.teacher_rooms(t as int, p as int));
                        assert(forall|k: int| 0 <= k < res_old.len() ==> #[trigger] res@[k] == res_old[k]);
                    }
                }
                proof {
                    assert forall|t2: int, p2: int|
                        0 <= t2 < num_teachers && 0 <= p2 < num_periods && (t2 < t || (t2 == t && p2
                            < p + 1)) && (#[trigger] self.teacher_rooms(t2, p2)).len() > 1 implies
                        exists|k: int|
                            0 <= k < res@.len() && (#[trigger] res@[k]).period == p2 && res@[k].ids@
                                == self.teacher_rooms(t2, p2) by {
                        if t2 == t && p2 == p {
                            assert(res@[res@.len() - 1].period == p2 && res@[res@.len() - 1].ids@
                                == self.teacher_rooms(t2, p2));
                        } else {
                            assert(exists|k: int|
                                0 <= k < res_old.len() && (#[trigger] res_old[k]).period == p2
                                    && res_old[k].ids@ == self.teacher_rooms(t2, p2));
                            let k = choose|k: int|
                                0 <= k < res_old.len() && (#[trigger] res_old[k]).period == p2
                                    && res_old[k].ids@ == self.teacher_rooms(t2, p2);
                            assert(res@[k] == res_old[k]);
                        }
                    }
                    lemma_flat_grid_decode(t as int, p as int, num_periods as int);
                }
                p += 1;
            }
            proof {
                assert(t as int * num_periods as int + num_periods as int == (t as int + 1)
                    * num_periods as int) by (nonlinear_arith);
            }
            t += 1;
        }
        res
    }

    /// The loose student-group-conflict report, like the teacher one.
    pub fn get_same_students_group_violations(&self) -> (res: Vec<Violations>)
        requires
            self.params_spec().wf(),
            self.dims_ok_pub(),
        ensures
            res@.len() == self.loose_group_conflict_count(
                self.params_spec().num_of_students as int
                    * self.params_spec().num_of_periods as int,
            ),
            forall|k: int|
                0 <= k < res@.len() ==> (#[trigger] res@[k]).period
                    < self.params_spec().num_of_periods && exists|g: int|
                    0 <= g < self.params_spec().num_of_students && res@[k].ids@
                        == self.student_rooms(g, res@[k].period as int) && res@[k].ids@.len() > 1,
            forall|g: int, p: int|
                0 <= g < self.params_spec().num_of_students && 0 <= p
                    < self.params_spec().num_of_periods && (#[trigger] self.student_rooms(
                    g,
                    p,
                )).len() > 1 ==> exists|k: int|
                    0 <= k < res@.len() && (#[trigger] res@[k]).period == p && res@[k].ids@
                        == self.student_rooms(g, p),
    {
        let mut res: Vec<Violations> = Vec::new();
        let num_students = self.parameters.num_of_students;
        let num_periods = self.parameters.num_of_periods;
        let mut g: usize = 0;
        while g < num_students
            invariant
                self.params_spec().wf(),
                self.dims_ok_pub(),
                num_students == self.params_spec().num_of_students,
                num_periods == self.params_spec().num_of_periods,
                g <= num_students,
                res@.len() == self.loose_group_conflict_count(g as int * num_periods as int),
                forall|k: int|
                    0 <= k < res@.len() ==> (#[trigger] res@[k]).period < num_periods && exists|
                        g2: int,
                    |
                        0 <= g2 < num_students && res@[k].ids@ == self.student_rooms(
                            g2,
                            res@[k].period as int,
                        ) && res@[k].ids@.len() > 1,
                forall|g2: int, p: int|
                    0 <= g2 < g && 0 <= p < num_periods && (#[trigger] self.student_rooms(
                        g2,
                        p,
                    )).len() > 1 ==> exists|k: int|
                        0 <= k < res@.len() && (#[trigger] res@[k]).period == p && res@[k].ids@
                            == self.student_rooms(g2, p),
            decreases num_students - g,
        {
            let mut p: usize = 0;
            while p < num_periods
                invariant
                    self.params_spec().wf(),
                    self.dims_ok_pub(),
                    num_students == self.params_spec().num_of_students,
                    num_periods == self.params_spec().num_of_periods,
                    g < num_students,
                    p <= num_periods,
                    res@.len() == self.loose_group_conflict_count(
                        g as int * num_periods as int + p as int,
                    ),
                    forall|k: int|
                        0 <= k < res@.len() ==> (#[trigger] res@[k]).period < num_periods && exists|
                            g2: int,
                        |
                            0 <= g2 < num_students && res@[k].ids@ == self.student_rooms(
                                g2,
                                res@[k].period as int,
                            ) && res@[k].ids@.len() > 1,
                    forall|g2: int, p2: int|
                        0 <= g2 < num_students && 0 <= p2 < num_periods && (g2 < g || (g2 == g && p2
                            < p)) && (#[trigger] self.student_rooms(g2, p2)).len() > 1 ==> exists|
                            k: int,
                        |
                            0 <= k < res@.len() && (#[trigger] res@[k]).period == p2 && res@[k].ids@
                                == self.student_rooms(g2, p2),
                decreases num_periods - p,
            {
                let ghost res_old = res@;
                if self.students_times[g][p].len() > 1 {
                    let rooms = self.students_times[g][p].clone();
                    proof {
                        assert(rooms@ =~= self.student_rooms(g as int, p as int)) by {
                            assert(forall|i: int|
                                0 <= i < rooms@.len() ==> cloned(
                                    self.student_rooms(g as int, p as int)[i],
                                    #[trigger] rooms@[i],
                                ));
                        }
                    }
                    let v = Violations::new(p, rooms);
                    res.push(v);
                    proof {
                        assert(res@[res@.len() - 1].period == p && res@[res@.len() - 1].ids@
                            == self.student_rooms(g as int, p as int));
                        assert(forall|k: int| 0 <= k < res_old.len() ==> #[trigger] res@[k] == res_old[k]);
                    }
                }
                proof {
                    assert forall|g2: int, p2: int|
                        0 <= g2 < num_students && 0 <= p2 < num_periods && (g2 < g || (g2 == g && p2
                            < p + 1)) && (#[trigger] self.student_rooms(g2, p2)).len() > 1 implies
                        exists|k: int|
                            0 <= k < res@.len() && (#[trigger] res@[k]).period == p2 && res@[k].ids@
                                == self.student_rooms(g2, p2) by {
                        if g2 == g && p2 == p {
                            assert(res@[res@.len() - 1].period == p2 && res@[res@.len() - 1].ids@
                                == self.student_rooms(g2, p2));
                        } else {
                            assert(exists|k: int|
                                0 <= k < res_old.len() && (#[trigger] res_old[k]).period == p2
                                    && res_old[k].ids@ == self.student_rooms(g2, p2));
                            let k = choose|k: int|
                                0 <= k < res_old.len() && (#[trigger] res_old[k]).period == p2
                                    && res_old[k].ids@ == self.student_rooms(g2, p2);
                            assert(res@[k] == res_old[k]);
                        }
                    }
                    lemma_flat_grid_decode(g as int, p as int, num_periods as int);
                }
                p += 1;
            }
            proof {
                assert(g as int * num_periods as int + num_periods as int == (g as int + 1)
                    * num_periods as int) by (nonlinear_arith);
            }
            g += 1;
        }
        res
    }

    /// Number of capacity violations among the first `n` classes.
    pub open spec fn cap_violation_count(
        &self,
        classes: Seq<Class>,
        rooms: Seq<Room>,
        n: int,
    ) -> int
        decreases n,
    {
        if n <= 0 {
            0
        } else {
            self.cap_violation_count(classes, rooms, n - 1) + if self.placed(n - 1)
                && classes[n - 1].num_of_students > rooms[self.room_of(n - 1)].capacity {
                1int
            } else {
                0int
            }
        }
    }

    /// Number of day-straddling placed classes among the first `n`.
    pub open spec fn straddle_violation_count(&self, classes: Seq<Class>, n: int) -> int
        decreases n,
    {
        if n <= 0 {
            0
        } else {
            self.straddle_violation_count(classes, n - 1) + if self.placed(n - 1)
                && Self::straddles_day(
                self.params_spec(),
                self.period_of(n - 1),
                classes[n - 1].serial_size as int,
            ) {
                1int
            } else {
                0int
            }
        }
    }

    /// A capacity report entry: some placed class exceeds its room, and the
    /// entry carries that class at its starting period.
    pub open spec fn cap_entry(&self, classes: Seq<Class>, rooms: Seq<Room>, v: Violations) -> bool {
        exists|c: int|
            0 <= c < classes.len() && self.placed(c) && classes[c].num_of_students
                > rooms[self.room_of(c)].capacity && v.period == self.period_of(c) && single_id(
                v.ids@,
                c as usize,
            )
    }

    /// A day-straddle report entry: some placed class straddles, and the
    /// entry carries its starting period and room.
    pub open spec fn straddle_entry(&self, classes: Seq<Class>, v: Violations) -> bool {
        exists|c: int|
            0 <= c < classes.len() && self.placed(c) && Self::straddles_day(
                self.params_spec(),
                self.period_of(c),
                classes[c].serial_size as int,
            ) && v.period == self.period_of(c) && single_id(v.ids@, self.crp_spec()[c].0)
    }

    /// The capacity report: one entry per placed class whose headcount
    /// exceeds its room's capacity, carrying the class index at its starting
    /// period, in class order.
    pub fn get_capacity_violations(&self, graph: &Graph) -> (res: Vec<Violations>)
        requires
            graph.wf(),
            self.params_spec() == graph.params_spec(),
            self.wf(graph.classes_spec()),
        ensures
            res@.len() == self.cap_violation_count(
                graph.classes_spec(),
                graph.rooms_spec(),
                graph.classes_spec().len() as int,
            ),
            forall|k1: int, k2: int|
                0 <= k1 < k2 < res@.len() ==> (#[trigger] res@[k1]).ids@[0] < (
                #[trigger] res@[k2]).ids@[0],
            forall|k: int|
                0 <= k < res@.len() ==> self.cap_entry(
                    graph.classes_spec(),
                    graph.rooms_spec(),
                    #[trigger] res@[k],
                ),
            forall|c: int|
                0 <= c < graph.classes_spec().len() && #[trigger] self.placed(c)
                    && graph.classes_spec()[c].num_of_students > graph.rooms_spec()[self.room_of(
                    c,
                )].capacity ==> exists|k: int|
                    0 <= k < res@.len() && (#[trigger] res@[k]).period == self.period_of(c)
                        && single_id(res@[k].ids@, c as usize),
    {
        let ghost classes = graph.classes_spec();
        let ghost rooms = graph.rooms_spec();
        let mut res: Vec<Violations> = Vec::new();
        let num_classes = self.parameters.num_of_classes;
        let mut c: usize = 0;
        while c < num_classes
            invariant
                graph.wf(),
                classes == graph.classes_spec(),
                rooms == graph.rooms_spec(),
                self.params_spec() == graph.params_spec(),
                self.wf(classes),
                num_classes == self.params_spec().num_of_classes,
                c <= num_classes,
                res@.len() == self.cap_violation_count(classes, rooms, c as int),
                forall|k: int|
                    0 <= k < res@.len() ==> (#[trigger] res@[k]).ids@.len() == 1
                        && (res@[k].ids@[0] as int) < c,
                forall|k1: int, k2: int|
                    0 <= k1 < k2 < res@.len() ==> (#[trigger] res@[k1]).ids@[0] < (
                    #[trigger] res@[k2]).ids@[0],
                forall|k: int|
                    0 <= k < res@.len() ==> self.cap_entry(classes, rooms, #[trigger] res@[k]),
                forall|c2: int|
                    0 <= c2 < c && #[trigger] self.placed(c2) && classes[c2].num_of_students
                        > rooms[self.room_of(c2)].capacity ==> exists|k: int|
                        0 <= k < res@.len() && (#[trigger] res@[k]).period == self.period_of(c2)
                            && single_id(res@[k].ids@, c2 as usize),
            decreases num_classes - c,
        {
            if self.visited_classes[c] {
                let (room, period) = self.corresponding_crp[c];
                proof {
                    assert(self.placed(c as int));
                    assert(self.room_of(c as int) < self.params_spec().num_of_rooms);
                }
                let ghost res_old = res@;
                if graph.get_room_ref(room).get_capacity()
                    < graph.get_class_ref(c).get_num_of_students() {
                    let mut ids: Vec<usize> = Vec::new();
                    ids.push(c);
                    let v = Violations::new(period, ids);
                    res.push(v);
                    proof {
                        assert(res@[res@.len() - 1].period == period && single_id(res@[res@.len() - 1].ids@, c));
                        assert(forall|k: int|
                            0 <= k < res_old.len() ==> #[trigger] res@[k] == res_old[k]);
                        assert forall|k1: int, k2: int|
                            0 <= k1 < k2 < res@.len() implies (#[trigger] res@[k1]).ids@[0] < (
                        #[trigger] res@[k2]).ids@[0] by {
                            if k2 == res@.len() - 1 {
                                assert(res@[k1] == res_old[k1]);
                                assert((res@[k1].ids@[0] as int) < c);
                            } else {
                                assert(res@[k1] == res_old[k1]);
                                assert(res@[k2] == res_old[k2]);
                            }
                        }
                    }
                }
                proof {
                    assert forall|k: int| 0 <= k < res@.len() implies self.cap_entry(
                        classes,
                        rooms,
                        #[trigger] res@[k],
                    ) by {
                        if k < res_old.len() {
                            assert(res@[k] == res_old[k]);
                            assert(self.cap_entry(classes, rooms, res_old[k]));
                        } else {
                            assert(self.placed(c as int) && classes[c as int].num_of_students
                                > rooms[self.room_of(c as int)].capacity && res@[k].period
                                == self.period_of(c as int) && single_id(res@[k].ids@, c));
                        }
                    }
                    assert forall|c2: int|
                        0 <= c2 < c + 1 && #[trigger] self.placed(c2) && classes[c2].num_of_students
                            > rooms[self.room_of(c2)].capacity implies exists|k: int|
                        0 <= k < res@.len() && (#[trigger] res@[k]).period == self.period_of(c2)
                            && single_id(res@[k].ids@, c2 as usize) by {
                        if c2 == c as int {
                            assert(res@[res@.len() - 1].period == self.period_of(c2) && single_id(res@[res@.len() - 1].ids@, c2 as usize));
                        } else {
                            assert(exists|k: int|
                                0 <= k < res_old.len() && (#[trigger] res_old[k]).period
                                    == self.period_of(c2) && single_id(res_old[k].ids@, c2 as usize));
                            let k = choose|k: int|
                                0 <= k < res_old.len() && (#[trigger] res_old[k]).period
                                    == self.period_of(c2) && single_id(res_old[k].ids@, c2 as usize);
                            assert(res@[k] == res_old[k]);
                        }
                    }
                }
            }
            c += 1;
        }
        res
    }

    /// The loose day-straddle report: one `(start period, room)` entry per
    /// placed class whose span crosses a day boundary, in class order.
    pub fn get_strabble_days_violations(&self, input: &Input) -> (res: Vec<Violations>)
        requires
            self.wf(input.classes_spec()),
        ensures
            res@.len() == self.straddle_violation_count(
                input.classes_spec(),
                input.classes_spec().len() as int,
            ),
            forall|k: int|
                0 <= k < res@.len() ==> self.straddle_entry(
                    input.classes_spec(),
                    #[trigger] res@[k],
                ),
            forall|c: int|
                0 <= c < input.classes_spec().len() && #[trigger] self.placed(c)
                    && Self::straddles_day(
                    self.params_spec(),
                    self.period_of(c),
                    input.classes_spec()[c].serial_size as int,
                ) ==> exists|k: int|
                    0 <= k < res@.len() && (#[trigger] res@[k]).period == self.period_of(c)
                        && single_id(res@[k].ids@, self.crp_spec()[c].0),
    {
        let ghost classes = input.classes_spec();
        let mut res: Vec<Violations> = Vec::new();
        let num_classes = self.parameters.num_of_classes;
        let classes_ref = input.get_classes();
        let mut c: usize = 0;
        while c < num_classes
            invariant
                classes == input.classes_spec(),
                classes_ref@ == classes,
                self.wf(classes),
                num_classes == self.params_spec().num_of_classes,
                c <= num_classes,
                res@.len() == self.straddle_violation_count(classes, c as int),
                forall|k: int|
                    0 <= k < res@.len() ==> self.straddle_entry(classes, #[trigger] res@[k]),
                forall|c2: int|
                    0 <= c2 < c && #[trigger] self.placed(c2) && Self::straddles_day(
                        self.params_spec(),
                        self.period_of(c2),
                        classes[c2].serial_size as int,
                    ) ==> exists|k: int|
                        0 <= k < res@.len() && (#[trigger] res@[k]).period == self.period_of(c2)
                            && single_id(res@[k].ids@, self.crp_spec()[c2].0),
            decreases num_classes - c,
        {
            if self.visited_classes[c] {
                let (room, period) = self.corresponding_crp[c];
                proof {
                    assert(self.placed(c as int));
                    assert(self.room_of(c as int) < self.params_spec().num_of_rooms);
                    assert(self.period_of(c as int) + classes[c as int].serial_size
                        <= self.params_spec().num_of_periods);
                    assert(classes[c as int].serial_size >= 1);
                }
                let serial_size = classes_ref[c].serial_size;
                proof {
                    assert(period % self.parameters.num_of_day_lengths <= period) by (
                    nonlinear_arith)
                        requires
                            self.parameters.num_of_day_lengths >= 1,
                    ;
                }
                let ghost res_old = res@;
                if period % self.parameters.num_of_day_lengths + serial_size
                    > self.parameters.num_of_day_lengths {
                    let mut ids: Vec<usize> = Vec::new();
                    ids.push(room);
                    let v = Violations::new(period, ids);
                    res.push(v);
                    proof {
                        assert(res@[res@.len() - 1].period == period && single_id(res@[res@.len() - 1].ids@, room));
                        assert(forall|k: int|
                            0 <= k < res_old.len() ==> #[trigger] res@[k] == res_old[k]);
                    }
                }
                proof {
                    assert forall|k: int| 0 <= k < res@.len() implies self.straddle_entry(
                        classes,
                        #[trigger] res@[k],
                    ) by {
                        if k < res_old.len() {
                            assert(res@[k] == res_old[k]);
                            assert(self.straddle_entry(classes, res_old[k]));
                        } else {
                            assert(self.placed(c as int) && Self::straddles_day(
                                self.params_spec(),
                                self.period_of(c as int),
                                classes[c as int].serial_size as int,
                            ) && res@[k].period == self.period_of(c as int) && single_id(res@[k].ids@, self.crp_spec()[c as int].0));
                        }
                    }
                    assert forall|c2: int|
                        0 <= c2 < c + 1 && #[trigger] self.placed(c2) && Self::straddles_day(
                            self.params_spec(),
                            self.period_of(c2),
                            classes[c2].serial_size as int,
                        ) implies exists|k: int|
                        0 <= k < res@.len() && (#[trigger] res@[k]).period == self.period_of(c2)
                            && single_id(res@[k].ids@, self.crp_spec()[c2].0) by {
                        if c2 == c as int {
                            assert(res@[res@.len() - 1].period == self.period_of(c2) && single_id(res@[res@.len() - 1].ids@, self.crp_spec()[c2].0));
                        } else {
                            assert(exists|k: int|
                                0 <= k < res_old.len() && (#[trigger] res_old[k]).period
                                    == self.period_of(c2) && single_id(res_old[k].ids@, self.crp_spec()[c2].0));
                            let k = choose|k: int|
                                0 <= k < res_old.len() && (#[trigger] res_old[k]).period
                                    == self.period_of(c2) && single_id(res_old[k].ids@, self.crp_spec()[c2].0);
                            assert(res@[k] == res_old[k]);
                        }
                    }
                }
            }
            c += 1;
        }
        res
    }

    /// Teacher `t` stands in room `r` at period `p`, with every placed class
    /// expanded over its full span.
    pub open spec fn teacher_present(&self, classes: Seq<Class>, t: int, r: int, p: int) -> bool {
        exists|c: int|
            0 <= c < classes.len() && #[trigger] self.placed(c) && self.room_of(c) == r
                && self.period_of(c) <= p < self.period_of(c) + classes[c].serial_size
                && class_lists_teacher(classes[c], t)
    }

    /// Student group `g` sits in room `r` at period `p`, span-expanded.
    pub open spec fn group_present(&self, classes: Seq<Class>, g: int, r: int, p: int) -> bool {
        exists|c: int|
            0 <= c < classes.len() && #[trigger] self.placed(c) && self.room_of(c) == r
                && self.period_of(c) <= p < self.period_of(c) + classes[c].serial_size
                && class_lists_group(classes[c], g)
    }

    fn teacher_present_exec(&self, classes: &Vec<Class>, t: usize, r: usize, p: usize) -> (b: bool)
        requires
            self.wf(classes@),
        ensures
            b == self.teacher_present(classes@, t as int, r as int, p as int),
    {
        let mut c: usize = 0;
        while c < classes.len()
            invariant
                self.wf(classes@),
                c <= classes@.len(),
                forall|c2: int|
                    0 <= c2 < c ==> !(#[trigger] self.placed(c2) && self.room_of(c2) == r as int
                        && self.period_of(c2) <= p < self.period_of(c2)
                        + classes@[c2].serial_size && class_lists_teacher(classes@[c2], t as int)),
            decreases classes@.len() - c,
        {
            if self.visited_classes[c] {
                let (room, period) = self.corresponding_crp[c];
                proof {
                    assert(self.placed(c as int));
                    assert(self.room_of(c as int) < self.params_spec().num_of_rooms);
                    assert(self.period_of(c as int) + classes@[c as int].serial_size
                        <= self.params_spec().num_of_periods);
                }
                let serial_size = classes[c].serial_size;
                if room == r && period <= p && p < period + serial_size {
                    let ids = &classes[c].teacher_indexes;
                    let mut j: usize = 0;
                    while j < ids.len()
                        invariant
                            self.wf(classes@),
                            c < classes@.len(),
                            self.placed(c as int),
                            self.room_of(c as int) == r as int,
                            self.period_of(c as int) <= p < self.period_of(c as int)
                                + classes@[c as int].serial_size,
                            ids@ == classes@[c as int].teacher_indexes@,
                            j <= ids@.len(),
                            forall|j2: int| 0 <= j2 < j ==> ids@[j2] != t,
                        decreases ids@.len() - j,
                    {
                        if ids[j] == t {
                            proof {
                                assert(class_lists_teacher(classes@[c as int], t as int));
                                assert(self.placed(c as int));
                                assert(self.room_of(c as int) == r as int);
                                assert(self.period_of(c as int) <= p < self.period_of(c as int)
                                    + classes@[c as int].serial_size);
                                assert(self.teacher_present(classes@, t as int, r as int, p as int));
                            }
                            return true;
                        }
                        j += 1;
                    }
                    proof {
                        assert(!class_lists_teacher(classes@[c as int], t as int));
                    }
                }
            }
            c += 1;
        }
        false
    }

    fn group_present_exec(&self, classes: &Vec<Class>, g: usize, r: usize, p: usize) -> (b: bool)
        requires
            self.wf(classes@),
        ensures
            b == self.group_present(classes@, g as int, r as int, p as int),
    {
        let mut c: usize = 0;
        while c < classes.len()
            invariant
                self.wf(classes@),
                c <= classes@.len(),
                forall|c2: int|
                    0 <= c2 < c ==> !(#[trigger] self.placed(c2) && self.room_of(c2) == r as int
                        && self.period_of(c2) <= p < self.period_of(c2)
                        + classes@[c2].serial_size && class_lists_group(classes@[c2], g as int)),
            decreases classes@.len() - c,
        {
            if self.visited_classes[c] {
                let (room, period) = self.corresponding_crp[c];
                proof {
                    assert(self.placed(c as int));
                    assert(self.room_of(c as int) < self.params_spec().num_of_rooms);
                    assert(self.period_of(c as int) + classes@[c as int].serial_size
                        <= self.params_spec().num_of_periods);
                }
                let serial_size = classes[c].serial_size;
                if room == r && period <= p && p < period + serial_size {
                    let ids = &classes[c].students_group_indexes;
                    let mut j: usize = 0;
                    while j < ids.len()
                        invariant
                            self.wf(classes@),
                            c < classes@.len(),
                            self.placed(c as int),
                            self.room_of(c as int) == r as int,
                            self.period_of(c as int) <= p < self.period_of(c as int)
                                + classes@[c as int].serial_size,
                            ids@ == classes@[c as int].students_group_indexes@,
                            j <= ids@.len(),
                            forall|j2: int| 0 <= j2 < j ==> ids@[j2] != g,
                        decreases ids@.len() - j,
                    {
                        if ids[j] == g {
                            proof {
                                assert(class_lists_group(classes@[c as int], g as int));
                                assert(self.placed(c as int));
                                assert(self.room_of(c as int) == r as int);
                                assert(self.period_of(c as int) <= p < self.period_of(c as int)
                                    + classes@[c as int].serial_size);
                                assert(self.group_present(classes@, g as int, r as int, p as int));
                            }
                            return true;
                        }
                        j += 1;
                    }
                    proof {
                        assert(!class_lists_group(classes@[c as int], g as int));
                    }
                }
            }
            c += 1;
        }
        false
    }

    /// One strict report entry: at least two rooms, each holding the
    /// teacher, all such rooms listed, in ascending order.
    pub open spec fn strict_teacher_entry(
        &self,
        classes: Seq<Class>,
        t: int,
        p: int,
        ids: Seq<usize>,
    ) -> bool {
        &&& ids.len() >= 2
        &&& forall|j: int|
            0 <= j < ids.len() ==> self.teacher_present(classes, t, #[trigger] ids[j] as int, p)
        &&& forall|r: int|
            0 <= r < self.params_spec().num_of_rooms && self.teacher_present(classes, t, r, p)
                ==> ids.contains(r as usize)
        &&& forall|j1: int, j2: int| 0 <= j1 < j2 < ids.len() ==> ids[j1] < ids[j2]
    }

    /// One strict report entry for a student group.
    pub open spec fn strict_group_entry(
        &self,
        classes: Seq<Class>,
        g: int,
        p: int,
        ids: Seq<usize>,
    ) -> bool {
        &&& ids.len() >= 2
        &&& forall|j: int|
            0 <= j < ids.len() ==> self.group_present(classes, g, #[trigger] ids[j] as int, p)
        &&& forall|r: int|
            0 <= r < self.params_spec().num_of_rooms && self.group_present(classes, g, r, p)
                ==> ids.contains(r as usize)
        &&& forall|j1: int, j2: int| 0 <= j1 < j2 < ids.len() ==> ids[j1] < ids[j2]
    }

    /// Teacher `t` stands in two different rooms at period `p`, with spans
    /// expanded.
    pub open spec fn strict_teacher_conflict(&self, classes: Seq<Class>, t: int, p: int) -> bool {
        exists|r1: int, r2: int|
            0 <= r1 < r2 < self.params_spec().num_of_rooms && #[trigger] self.teacher_present(
                classes,
                t,
                r1,
                p,
            ) && #[trigger] self.teacher_present(classes, t, r2, p)
    }

    /// Student group `g` sits in two different rooms at period `p`.
    pub open spec fn strict_group_conflict(&self, classes: Seq<Class>, g: int, p: int) -> bool {
        exists|r1: int, r2: int|
            0 <= r1 < r2 < self.params_spec().num_of_rooms && #[trigger] self.group_present(
                classes,
                g,
                r1,
                p,
            ) && #[trigger] self.group_present(classes, g, r2, p)
    }

    /// Number of strict teacher conflicts among the first `n` slots of the
    /// period-major `P x T` grid.
    pub open spec fn strict_teacher_conflict_count(&self, classes: Seq<Class>, n: int) -> int
        decreases n,
    {
        if n <= 0 {
            0
        } else {
            self.strict_teacher_conflict_count(classes, n - 1) + if self.strict_teacher_conflict(
                classes,
                (n - 1) % (self.params_spec().num_of_teachers as int),
                (n - 1) / (self.params_spec().num_of_teachers as int),
            ) {
                1int
            } else {
                0int
            }
        }
    }

    /// Number of strict student-group conflicts among the first `n` slots of
    /// the period-major `P x S` grid.
    pub open spec fn strict_group_conflict_count(&self, classes: Seq<Class>, n: int) -> int
        decreases n,
    {
        if n <= 0 {
            0
        } else {
            self.strict_group_conflict_count(classes, n - 1) + if self.strict_group_conflict(
                classes,
                (n - 1) % (self.params_spec().num_of_students as int),
                (n - 1) / (self.params_spec().num_of_students as int),
            ) {
                1int
            } else {
                0int
            }
        }
    }

    /// A strict teacher report entry, for some teacher of the grid.
    pub open spec fn strict_teacher_report_entry(&self, classes: Seq<Class>, v: Violations) -> bool {
        v.period < self.params_spec().num_of_periods && exists|t: int|
            0 <= t < self.params_spec().num_of_teachers && self.strict_teacher_entry(
                classes,
                t,
                v.period as int,
                v.ids@,
            )
    }

    /// A strict student-group report entry.
    pub open spec fn strict_group_report_entry(&self, classes: Seq<Class>, v: Violations) -> bool {
        v.period < self.params_spec().num_of_periods && exists|g: int|
            0 <= g < self.params_spec().num_of_students && self.strict_group_entry(
                classes,
                g,
                v.period as int,
                v.ids@,
            )
    }

    /// The strict (authoritative) teacher-conflict report: every placed
    /// class is expanded over its full span, and a violation is reported for
    /// each period and teacher present in more than one room.
    pub fn get_same_teacher_violations_strictly(&self, input: &Input) -> (res: Vec<Violations>)
        requires
            self.wf(input.classes_spec()),
        ensures
            res@.len() == self.strict_teacher_conflict_count(
                input.classes_spec(),
                self.params_spec().num_of_periods as int
                    * self.params_spec().num_of_teachers as int,
            ),
            forall|k: int|
                0 <= k < res@.len() ==> self.strict_teacher_report_entry(
                    input.classes_spec(),
                    #[trigger] res@[k],
                ),
            forall|t: int, p: int, r1: int, r2: int|
                0 <= t < self.params_spec().num_of_teachers && 0 <= p
                    < self.params_spec().num_of_periods && 0 <= r1 < r2
                    < self.params_spec().num_of_rooms && #[trigger] self.teacher_present(
                    input.classes_spec(),
                    t,
                    r1,
                    p,
                ) && #[trigger] self.teacher_present(input.classes_spec(), t, r2, p) ==> exists|
                    k: int,
                |
                    0 <= k < res@.len() && (#[trigger] res@[k]).period == p
                        && self.strict_teacher_entry(input.classes_spec(), t, p, res@[k].ids@),
    {
        let ghost classes = input.classes_spec();
        let classes_ref = input.get_classes();
        let mut res: Vec<Violations> = Vec::new();
        let num_teachers = self.parameters.num_of_teachers;
        let num_periods = self.parameters.num_of_periods;
        let num_rooms = self.parameters.num_of_rooms;
        let mut p: usize = 0;
        while p < num_periods
            invariant
                classes == input.classes_spec(),
                classes_ref@ == classes,
                self.wf(classes),
                num_teachers == self.params_spec().num_of_teachers,
                num_periods == self.params_spec().num_of_periods,
                num_rooms == self.params_spec().num_of_rooms,
                p <= num_periods,
                res@.len() == self.strict_teacher_conflict_count(
                    classes,
                    p as int * num_teachers as int,
                ),
                forall|k: int|
                    0 <= k < res@.len() ==> self.strict_teacher_report_entry(
                        classes,
                        #[trigger] res@[k],
                    ),
                forall|t2: int, p2: int, r1: int, r2: int|
                    0 <= t2 < num_teachers && 0 <= p2 < p && 0 <= r1 < r2 < num_rooms
                        && #[trigger] self.teacher_present(classes, t2, r1, p2)
                        && #[trigger] self.teacher_present(classes, t2, r2, p2) ==> exists|k: int|
                        0 <= k < res@.len() && (#[trigger] res@[k]).period == p2
                            && self.strict_teacher_entry(classes, t2, p2, res@[k].ids@),
            decreases num_periods - p,
        {
            let mut t: usize = 0;
            while t < num_teachers
                invariant
                    classes == input.classes_spec(),
                    classes_ref@ == classes,
                    self.wf(classes),
                    num_teachers == self.params_spec().num_of_teachers,
                    num_periods == self.params_spec().num_of_periods,
                    num_rooms == self.params_spec().num_of_rooms,
                    p < num_periods,
                    t <= num_teachers,
                    res@.len() == self.strict_teacher_conflict_count(
                        classes,
                        p as int * num_teachers as int + t as int,
                    ),
                    forall|k: int|
                        0 <= k < res@.len() ==> self.strict_teacher_report_entry(
                            classes,
                            #[trigger] res@[k],
                        ),
                    forall|t2: int, p2: int, r1: int, r2: int|
                        0 <= t2 < num_teachers && 0 <= p2 < num_periods && (p2 < p || (p2 == p && t2
                            < t)) && 0 <= r1 < r2 < num_rooms && #[trigger] self.teacher_present(
                            classes,
                            t2,
                            r1,
                            p2,
                        ) && #[trigger] self.teacher_present(classes, t2, r2, p2) ==> exists|
                            k: int,
                        |
                            0 <= k < res@.len() && (#[trigger] res@[k]).period == p2
                                && self.strict_teacher_entry(classes, t2, p2, res@[k].ids@),
                decreases num_teachers - t,
            {
                let mut rooms: Vec<usize> = Vec::new();
                let mut r: usize = 0;
                while r < num_rooms
                    invariant
                        classes == input.classes_spec(),
                        classes_ref@ == classes,
                        self.wf(classes),
                        num_rooms == self.params_spec().num_of_rooms,
                        r <= num_rooms,
                        forall|j: int|
                            0 <= j < rooms@.len() ==> ((#[trigger] rooms@[j]) as int) < r
                                && self.teacher_present(classes, t as int, rooms@[j] as int, p as int),
                        forall|r2: int|
                            0 <= r2 < r && self.teacher_present(classes, t as int, r2, p as int)
                                ==> rooms@.contains(r2 as usize),
                        forall|j1: int, j2: int|
                            0 <= j1 < j2 < rooms@.len() ==> rooms@[j1] < rooms@[j2],
                    decreases num_rooms - r,
                {
                    let present = self.teacher_present_exec(classes_ref, t, r, p);
                    let ghost rooms_old = rooms@;
                    if present {
                        rooms.push(r);
                        proof {
                            assert(rooms@ == rooms_old.push(r));
                            assert(rooms@[rooms@.len() - 1] == r);
                            assert(forall|j: int|
                                0 <= j < rooms_old.len() ==> #[trigger] rooms@[j] == rooms_old[j]);
                        }
                    }
                    proof {
                        assert forall|r2: int|
                            0 <= r2 < r + 1 && self.teacher_present(
                                classes,
                                t as int,
                                r2,
                                p as int,
                            ) implies rooms@.contains(r2 as usize) by {
                            if r2 == r as int {
                                assert(present);
                                assert(rooms@[rooms@.len() - 1] == r);
                            } else {
                                assert(rooms_old.contains(r2 as usize));
                                let idx = choose|i: int|
                                    0 <= i < rooms_old.len() && #[trigger] rooms_old[i] == (
                                    r2 as usize);
                                assert(rooms@[idx] == r2 as usize);
                            }
                        }
                    }
                    r += 1;
                }
                let ghost res_old = res@;
                if rooms.len() > 1 {
                    proof {
                        assert(self.strict_teacher_entry(classes, t as int, p as int, rooms@));
                    }
                    let v = Violations::new(p, rooms);
                    res.push(v);
                    proof {
                        assert(res@[res@.len() - 1].period == p && res@[res@.len() - 1].ids@
                            == v.ids@);
                        assert(forall|k: int|
                            0 <= k < res_old.len() ==> #[trigger] res@[k] == res_old[k]);
                    }
                }
                proof {
                    assert(rooms@.len() > 1 <==> self.strict_teacher_conflict(
                        classes,
                        t as int,
                        p as int,
                    )) by {
                        if rooms@.len() > 1 {
                            assert(self.teacher_present(classes, t as int, rooms@[0] as int, p as int));
                            assert(self.teacher_present(classes, t as int, rooms@[1] as int, p as int));
                            assert((rooms@[0] as int) < rooms@[1] as int);
                            assert((rooms@[1] as int) < num_rooms as int);
                        }
                        if self.strict_teacher_conflict(classes, t as int, p as int) {
                            let (r1, r2) = choose|r1: int, r2: int|
                                0 <= r1 < r2 < self.params_spec().num_of_rooms
                                    && #[trigger] self.teacher_present(classes, t as int, r1, p as int)
                                    && #[trigger] self.teacher_present(classes, t as int, r2, p as int);
                            assert(rooms@.contains(r1 as usize));
                            assert(rooms@.contains(r2 as usize));
                            let k1 = choose|i: int|
                                0 <= i < rooms@.len() && #[trigger] rooms@[i] == (r1 as usize);
                            let k2 = choose|i: int|
                                0 <= i < rooms@.len() && #[trigger] rooms@[i] == (r2 as usize);
                            assert(k1 != k2);
                        }
                    }
                    lemma_flat_grid_decode(p as int, t as int, num_teachers as int);
                    assert forall|k: int| 0 <= k < res@.len() implies
                        self.strict_teacher_report_entry(classes, #[trigger] res@[k]) by {
                        if k < res_old.len() {
                            assert(res@[k] == res_old[k]);
                            assert(self.strict_teacher_report_entry(classes, res_old[k]));
                        } else {
                            assert(res@[k].period == p && self.strict_teacher_entry(
                                classes,
                                t as int,
                                p as int,
                                res@[k].ids@,
                            ));
                        }
                    }
                    assert forall|t2: int, p2: int, r1: int, r2: int|
                        0 <= t2 < num_teachers && 0 <= p2 < num_periods && (p2 < p || (p2 == p && t2
                            < t + 1)) && 0 <= r1 < r2 < num_rooms && #[trigger] self.teacher_present(
                            classes,
                            t2,
                            r1,
                            p2,
                        ) && #[trigger] self.teacher_present(classes, t2, r2, p2) implies exists|
                        k: int,
                    |
                        0 <= k < res@.len() && (#[trigger] res@[k]).period == p2
                            && self.strict_teacher_entry(classes, t2, p2, res@[k].ids@) by {
                        if p2 == p && t2 == t {
                            assert(rooms@.contains(r1 as usize));
                            assert(rooms@.contains(r2 as usize));
                            let k1 = choose|i: int|
                                0 <= i < rooms@.len() && #[trigger] rooms@[i] == (r1 as usize);
                            let k2 = choose|i: int|
                                0 <= i < rooms@.len() && #[trigger] rooms@[i] == (r2 as usize);
                            assert(k1 != k2);
                            assert(rooms@.len() > 1);
                            let entry = res@[res@.len() - 1];
                            assert(entry.period == p2 && self.strict_teacher_entry(
                                classes,
                                t2,
                                p2,
                                entry.ids@,
                            ));
                        } else {
                            assert(exists|k: int|
                                0 <= k < res_old.len() && (#[trigger] res_old[k]).period == p2
                                    && self.strict_teacher_entry(classes, t2, p2, res_old[k].ids@));
                            let kw = choose|k: int|
                                0 <= k < res_old.len() && (#[trigger] res_old[k]).period == p2
                                    && self.strict_teacher_entry(classes, t2, p2, res_old[k].ids@);
                            assert(res@[kw] == res_old[kw]);
                        }
                    }
                }
                t += 1;
            }
            proof {
                assert(p as int * num_teachers as int + num_teachers as int == (p as int + 1)
                    * num_teachers as int) by (nonlinear_arith);
            }
            p += 1;
        }
        res
    }

    /// The strict (authoritative) student-group-conflict report.
    pub fn get_same_students_group_violations_strictly(&self, input: &Input) -> (res: Vec<
        Violations,
    >)
        requires
            self.wf(input.classes_spec()),
        ensures
            res@.len() == self.strict_group_conflict_count(
                input.classes_spec(),
                self.params_spec().num_of_periods as int
                    * self.params_spec().num_of_students as int,
            ),
            forall|k: int|
                0 <= k < res@.len() ==> self.strict_group_report_entry(
                    input.classes_spec(),
                    #[trigger] res@[k],
                ),
            forall|g: int, p: int, r1: int, r2: int|
                0 <= g < self.params_spec().num_of_students && 0 <= p
                    < self.params_spec().num_of_periods && 0 <= r1 < r2
                    < self.params_spec().num_of_rooms && #[trigger] self.group_present(
                    input.classes_spec(),
                    g,
                    r1,
                    p,
                ) && #[trigger] self.group_present(input.classes_spec(), g, r2, p) ==> exists|
                    k: int,
                |
                    0 <= k < res@.len() && (#[trigger] res@[k]).period == p
                        && self.strict_group_entry(input.classes_spec(), g, p, res@[k].ids@),
    {
        let ghost classes = input.classes_spec();
        let classes_ref = input.get_classes();
        let mut res: Vec<Violations> = Vec::new();
        let num_students = self.parameters.num_of_students;
        let num_periods = self.parameters.num_of_periods;
        let num_rooms = self.parameters.num_of_rooms;
        let mut p: usize = 0;
        while p < num_periods
            invariant
                classes == input.classes_spec(),
                classes_ref@ == classes,
                self.wf(classes),
                num_students == self.params_spec().num_of_students,
                num_periods == self.params_spec().num_of_periods,
                num_rooms == self.params_spec().num_of_rooms,
                p <= num_periods,
                res@.len() == self.strict_group_conflict_count(
                    classes,
                    p as int * num_students as int,
                ),
                forall|k: int|
                    0 <= k < res@.len() ==> self.strict_group_report_entry(
                        classes,
                        #[trigger] res@[k],
                    ),
                forall|g2: int, p2: int, r1: int, r2: int|
                    0 <= g2 < num_students && 0 <= p2 < p && 0 <= r1 < r2 < num_rooms
                        && #[trigger] self.group_present(classes, g2, r1, p2)
                        && #[trigger] self.group_present(classes, g2, r2, p2) ==> exists|k: int|
                        0 <= k < res@.len() && (#[trigger] res@[k]).period == p2
                            && self.strict_group_entry(classes, g2, p2, res@[k].ids@),
            decreases num_periods - p,
        {
            let mut g: usize = 0;
            while g < num_students
                invariant
                    classes == input.classes_spec(),
                    classes_ref@ == classes,
                    self.wf(classes),
                    num_students == self.params_spec().num_of_students,
                    num_periods == self.params_spec().num_of_periods,
                    num_rooms == self.params_spec().num_of_rooms,
                    p < num_periods,
                    g <= num_students,
                    res@.len() == self.strict_group_conflict_count(
                        classes,
                        p as int * num_students as int + g as int,
                    ),
                    forall|k: int|
                        0 <= k < res@.len() ==> self.strict_group_report_entry(
                            classes,
                            #[trigger] res@[k],
                        ),
                    forall|g2: int, p2: int, r1: int, r2: int|
                        0 <= g2 < num_students && 0 <= p2 < num_periods && (p2 < p || (p2 == p && g2
                            < g)) && 0 <= r1 < r2 < num_rooms && #[trigger] self.group_present(
                            classes,
                            g2,
                            r1,
                            p2,
                        ) && #[trigger] self.group_present(classes, g2, r2, p2) ==> exists|k: int|
                            0 <= k < res@.len() && (#[trigger] res@[k]).period == p2
                                && self.strict_group_entry(classes, g2, p2, res@[k].ids@),
                decreases num_students - g,
            {
                let mut rooms: Vec<usize> = Vec::new();
                let mut r: usize = 0;
                while r < num_rooms
                    invariant
                        classes == input.classes_spec(),
                        classes_ref@ == classes,
                        self.wf(classes),
                        num_rooms == self.params_spec().num_of_rooms,
                        r <= num_rooms,
                        forall|j: int|
                            0 <= j < rooms@.len() ==> ((#[trigger] rooms@[j]) as int) < r
                                && self.group_present(classes, g as int, rooms@[j] as int, p as int),
                        forall|r2: int|
                            0 <= r2 < r && self.group_present(classes, g as int, r2, p as int)
                                ==> rooms@.contains(r2 as usize),
                        forall|j1: int, j2: int|
                            0 <= j1 < j2 < rooms@.len() ==> rooms@[j1] < rooms@[j2],
                    decreases num_rooms - r,
                {
                    let present = self.group_present_exec(classes_ref, g, r, p);
                    let ghost rooms_old = rooms@;
                    if present {
                        rooms.push(r);
                        proof {
                            assert(rooms@ == rooms_old.push(r));
                            assert(rooms@[rooms@.len() - 1] == r);
                            assert(forall|j: int|
                                0 <= j < rooms_old.len() ==> #[trigger] rooms@[j] == rooms_old[j]);
                        }
                    }
                    proof {
                        assert forall|r2: int|
                            0 <= r2 < r + 1 && self.group_present(
                                classes,
                                g as int,
                                r2,
                                p as int,
                            ) implies rooms@.contains(r2 as usize) by {
                            if r2 == r as int {
                                assert(present);
                                assert(rooms@[rooms@.len() - 1] == r);
                            } else {
                                assert(rooms_old.contains(r2 as usize));
                                let idx = choose|i: int|
                                    0 <= i < rooms_old.len() && #[trigger] rooms_old[i] == (
                                    r2 as usize);
                                assert(rooms@[idx] == r2 as usize);
                            }
                        }
                    }
                    r += 1;
                }
                let ghost res_old = res@;
                if rooms.len() > 1 {
                    proof {
                        assert(self.strict_group_entry(classes, g as int, p as int, rooms@));
                    }
                    let v = Violations::new(p, rooms);
                    res.push(v);
                    proof {
                        assert(res@[res@.len() - 1].period == p && res@[res@.len() - 1].ids@
                            == v.ids@);
                        assert(forall|k: int|
                            0 <= k < res_old.len() ==> #[trigger] res@[k] == res_old[k]);
                    }
                }
                proof {
                    assert(rooms@.len() > 1 <==> self.strict_group_conflict(
                        classes,
                        g as int,
                        p as int,
                    )) by {
                        if rooms@.len() > 1 {
                            assert(self.group_present(classes, g as int, rooms@[0] as int, p as int));
                            assert(self.group_present(classes, g as int, rooms@[1] as int, p as int));
                            assert((rooms@[0] as int) < rooms@[1] as int);
                            assert((rooms@[1] as int) < num_rooms as int);
                        }
                        if self.strict_group_conflict(classes, g as int, p as int) {
                            let (r1, r2) = choose|r1: int, r2: int|
                                0 <= r1 < r2 < self.params_spec().num_of_rooms
                                    && #[trigger] self.group_present(classes, g as int, r1, p as int)
                                    && #[trigger] self.group_present(classes, g as int, r2, p as int);
                            assert(rooms@.contains(r1 as usize));
                            assert(rooms@.contains(r2 as usize));
                            let k1 = choose|i: int|
                                0 <= i < rooms@.len() && #[trigger] rooms@[i] == (r1 as usize);
                            let k2 = choose|i: int|
                                0 <= i < rooms@.len() && #[trigger] rooms@[i] == (r2 as usize);
                            assert(k1 != k2);
                        }
                    }
                    lemma_flat_grid_decode(p as int, g as int, num_students as int);
                    assert forall|k: int| 0 <= k < res@.len() implies self.strict_group_report_entry(
                        classes,
                        #[trigger] res@[k],
                    ) by {
                        if k < res_old.len() {
                            assert(res@[k] == res_old[k]);
                            assert(self.strict_group_report_entry(classes, res_old[k]));
                        } else {
                            assert(res@[k].period == p && self.strict_group_entry(
                                classes,
                                g as int,
                                p as int,
                                res@[k].ids@,
                            ));
                        }
                    }
                    assert forall|g2: int, p2: int, r1: int, r2: int|
                        0 <= g2 < num_students && 0 <= p2 < num_periods && (p2 < p || (p2 == p && g2
                            < g + 1)) && 0 <= r1 < r2 < num_rooms && #[trigger] self.group_present(
                            classes,
                            g2,
                            r1,
                            p2,
                        ) && #[trigger] self.group_present(classes, g2, r2, p2) implies exists|
                        k: int,
                    |
                        0 <= k < res@.len() && (#[trigger] res@[k]).period == p2
                            && self.strict_group_entry(classes, g2, p2, res@[k].ids@) by {
                        if p2 == p && g2 == g {
                            assert(rooms@.contains(r1 as usize));
                            assert(rooms@.contains(r2 as usize));
                            let k1 = choose|i: int|
                                0 <= i < rooms@.len() && #[trigger] rooms@[i] == (r1 as usize);
                            let k2 = choose|i: int|
                                0 <= i < rooms@.len() && #[trigger] rooms@[i] == (r2 as usize);
                            assert(k1 != k2);
                            assert(rooms@.len() > 1);
                            let entry = res@[res@.len() - 1];
                            assert(entry.period == p2 && self.strict_group_entry(
                                classes,
                                g2,
                                p2,
                                entry.ids@,
                            ));
                        } else {
                            assert(exists|k: int|
                                0 <= k < res_old.len() && (#[trigger] res_old[k]).period == p2
                                    && self.strict_group_entry(classes, g2, p2, res_old[k].ids@));
                            let kw = choose|k: int|
                                0 <= k < res_old.len() && (#[trigger] res_old[k]).period == p2
                                    && self.strict_group_entry(classes, g2, p2, res_old[k].ids@);
                            assert(res@[kw] == res_old[kw]);
                        }
                    }
                }
                g += 1;
            }
            proof {
                assert(p as int * num_students as int + num_students as int == (p as int + 1)
                    * num_students as int) by (nonlinear_arith);
            }
            p += 1;
        }
        res
    }

    /// The observable construction state of two ants agrees: same
    /// configuration, same visited flags, same assignment, same claimed
    /// cells, same occupancy tables.
    pub open spec fn same_state(&self, other: &Ant) -> bool {
        &&& self.params_spec() == other.params_spec()
        &&& self.visited_spec() == other.visited_spec()
        &&& self.crp_spec() == other.crp_spec()
        &&& forall|r: int, p: int|
            0 <= r < self.params_spec().num_of_rooms && 0 <= p < self.params_spec().num_of_periods
                ==> #[trigger] self.cell_marked(r, p) == other.cell_marked(r, p)
        &&& forall|t: int, p: int|
            0 <= t < self.params_spec().num_of_teachers && 0 <= p
                < self.params_spec().num_of_periods ==> #[trigger] self.teacher_rooms(t, p)
                == other.teacher_rooms(t, p)
        &&& forall|g: int, p: int|
            0 <= g < self.params_spec().num_of_students && 0 <= p
                < self.params_spec().num_of_periods ==> #[trigger] self.student_rooms(g, p)
                == other.student_rooms(g, p)
    }

    /// A field-by-field copy whose observable state provably agrees.
    pub fn duplicate(&self) -> (r: Ant)
        requires
            self.params_spec().wf(),
            self.dims_ok_pub(),
        ensures
            r.params_spec() == self.params_spec(),
            r.dims_ok_pub(),
            r.same_state(self),
    {
        let num_classes = self.parameters.num_of_classes;
        let num_rooms = self.parameters.num_of_rooms;
        let num_periods = self.parameters.num_of_periods;
        let num_teachers = self.parameters.num_of_teachers;
        let num_students = self.parameters.num_of_students;
        let mut visited_classes: Vec<bool> = Vec::new();
        let mut i: usize = 0;
        while i < num_classes
            invariant
                num_classes == self.params_spec().num_of_classes,
                self.dims_ok_pub(),
                i <= num_classes,
                visited_classes@.len() == i,
                forall|j: int| 0 <= j < i ==> visited_classes@[j] == self.visited_spec()[j],
            decreases num_classes - i,
        {
            visited_classes.push(self.visited_classes[i]);
            i += 1;
        }
        let mut corresponding_crp: Vec<(usize, usize)> = Vec::new();
        let mut i: usize = 0;
        while i < num_classes
            invariant
                num_classes == self.params_spec().num_of_classes,
                self.dims_ok_pub(),
                i <= num_classes,
                corresponding_crp@.len() == i,
                forall|j: int| 0 <= j < i ==> corresponding_crp@[j] == self.crp_spec()[j],
            decreases num_classes - i,
        {
            corresponding_crp.push(self.corresponding_crp[i]);
            i += 1;
        }
        let mut visited_roomperiods: Vec<Vec<bool>> = Vec::new();
        let mut r: usize = 0;
        while r < num_rooms
            invariant
                num_rooms == self.params_spec().num_of_rooms,
                num_periods == self.params_spec().num_of_periods,
                self.dims_ok_pub(),
                r <= num_rooms,
                visited_roomperiods@.len() == r,
                forall|rr: int|
                    0 <= rr < r ==> (#[trigger] visited_roomperiods@[rr])@.len() == num_periods,
                forall|rr: int, pp: int|
                    0 <= rr < r && 0 <= pp < num_periods ==> #[trigger] visited_roomperiods@[rr]@[pp]
                        == self.cell_marked(rr, pp),
            decreases num_rooms - r,
        {
            let mut row: Vec<bool> = Vec::new();
            let mut p: usize = 0;
            while p < num_periods
                invariant
                    num_periods == self.params_spec().num_of_periods,
                    num_rooms == self.params_spec().num_of_rooms,
                    self.dims_ok_pub(),
                    r < num_rooms,
                    p <= num_periods,
                    row@.len() == p,
                    forall|pp: int| 0 <= pp < p ==> #[trigger] row@[pp] == self.cell_marked(r as int, pp),
                decreases num_periods - p,
            {
                row.push(self.visited_roomperiods[r][p]);
                p += 1;
            }
            visited_roomperiods.push(row);
            r += 1;
        }
        let mut teachers_times: Vec<Vec<Vec<usize>>> = Vec::new();
        let mut t: usize = 0;
        while t < num_teachers
            invariant
                num_teachers == self.params_spec().num_of_teachers,
                num_periods == self.params_spec().num_of_periods,
                self.dims_ok_pub(),
                t <= num_teachers,
                teachers_times@.len() == t,
                forall|tt: int|
                    0 <= tt < t ==> (#[trigger] teachers_times@[tt])@.len() == num_periods,
                forall|tt: int, pp: int|
                    0 <= tt < t && 0 <= pp < num_periods ==> (#[trigger] teachers_times@[tt]@[pp])@
                        == self.teacher_rooms(tt, pp),
            decreases num_teachers - t,
        {
            let mut row: Vec<Vec<usize>> = Vec::new();
            let mut p: usize = 0;
            while p < num_periods
                invariant
                    num_teachers == self.params_spec().num_of_teachers,
                    num_periods == self.params_spec().num_of_periods,
                    self.dims_ok_pub(),
                    t < num_teachers,
                    p <= num_periods,
                    row@.len() == p,
                    forall|pp: int|
                        0 <= pp < p ==> (#[trigger] row@[pp])@ == self.teacher_rooms(t as int, pp),
                decreases num_periods - p,
            {
                let cell = self.teachers_times[t][p].clone();
                proof {
                    assert(cell@ =~= self.teacher_rooms(t as int, p as int)) by {
                        assert(forall|i2: int|
                            0 <= i2 < cell@.len() ==> cloned(
                                self.teacher_rooms(t as int, p as int)[i2],
                                #[trigger] cell@[i2],
                            ));
                    }
                }
                row.push(cell);
                p += 1;
            }
            teachers_times.push(row);
            t += 1;
        }
        let mut students_times: Vec<Vec<Vec<usize>>> = Vec::new();
        let mut g: usize = 0;
        while g < num_students
            invariant
                num_students == self.params_spec().num_of_students,
                num_periods == self.params_spec().num_of_periods,
                self.dims_ok_pub(),
                g <= num_students,
                students_times@.len() == g,
                forall|gg: int|
                    0 <= gg < g ==> (#[trigger] students_times@[gg])@.len() == num_periods,
                forall|gg: int, pp: int|
                    0 <= gg < g && 0 <= pp < num_periods ==> (#[trigger] students_times@[gg]@[pp])@
                        == self.student_rooms(gg, pp),
            decreases num_students - g,
        {
            let mut row: Vec<Vec<usize>> = Vec::new();
            let mut p: usize = 0;
            while p < num_periods
                invariant
                    num_students == self.params_spec().num_of_students,
                    num_periods == self.params_spec().num_of_periods,
                    self.dims_ok_pub(),
                    g < num_students,
                    p <= num_periods,
                    row@.len() == p,
                    forall|pp: int|
                        0 <= pp < p ==> (#[trigger] row@[pp])@ == self.student_rooms(g as int, pp),
                decreases num_periods - p,
            {
                let cell = self.students_times[g][p].clone();
                proof {
                    assert(cell@ =~= self.student_rooms(g as int, p as int)) by {
                        assert(forall|i2: int|
                            0 <= i2 < cell@.len() ==> cloned(
                                self.student_rooms(g as int, p as int)[i2],
                                #[trigger] cell@[i2],
                            ));
                    }
                }
                row.push(cell);
                p += 1;
            }
            students_times.push(row);
            g += 1;
        }
        let r = Ant {
            visited_classes,
            visited_roomperiods,
            corresponding_crp,
            parameters: self.parameters.clone(),
            teachers_times,
            students_times,
        };
        proof {
            assert(r.visited_spec() =~= self.visited_spec());
            assert(r.crp_spec() =~= self.crp_spec());
        }
        r
    }

    proof fn lemma_same_state_teacher_pairs(&self, other: &Ant, n: int, p: int)
        requires
            self.same_state(other),
            0 <= n <= self.params_spec().num_of_teachers,
            0 <= p < self.params_spec().num_of_periods,
        ensures
            self.all_teacher_pairs(n, p) == other.all_teacher_pairs(n, p),
        decreases n,
    {
        if n > 0 {
            self.lemma_same_state_teacher_pairs(other, n - 1, p);
        }
    }

    proof fn lemma_same_state_student_pairs(&self, other: &Ant, n: int, p: int)
        requires
            self.same_state(other),
            0 <= n <= self.params_spec().num_of_students,
            0 <= p < self.params_spec().num_of_periods,
        ensures
            self.all_student_pairs(n, p) == other.all_student_pairs(n, p),
        decreases n,
    {
        if n > 0 {
            self.lemma_same_state_student_pairs(other, n - 1, p);
        }
    }

    proof fn lemma_same_state_straddle(&self, other: &Ant, classes: Seq<Class>, n: int, r: int)
        requires
            self.same_state(other),
            0 <= n <= classes.len(),
        ensures
            self.straddle_count(classes, n, r) == other.straddle_count(classes, n, r),
        decreases n,
    {
        if n > 0 {
            self.lemma_same_state_straddle(other, classes, n - 1, r);
        }
    }

    proof fn lemma_same_state_period_excess(
        &self,
        other: &Ant,
        classes: Seq<Class>,
        rooms: Seq<Room>,
        n: int,
    )
        requires
            self.same_state(other),
            0 <= n <= self.params_spec().num_of_periods,
        ensures
            self.sum_period_excess(classes, rooms, n) == other.sum_period_excess(classes, rooms, n),
        decreases n,
    {
        if n > 0 {
            self.lemma_same_state_period_excess(other, classes, rooms, n - 1);
            self.lemma_same_state_teacher_pairs(
                other,
                self.params_spec().num_of_teachers as int,
                n - 1,
            );
            self.lemma_same_state_student_pairs(
                other,
                self.params_spec().num_of_students as int,
                n - 1,
            );
            assert(self.cap_violation_at(classes, rooms, n - 1) == other.cap_violation_at(
                classes,
                rooms,
                n - 1,
            )) by {
                if self.cap_violation_at(classes, rooms, n - 1) {
                    let c = choose|c: int|
                        0 <= c < classes.len() && self.placed(c) && self.period_of(c) == n - 1
                            && classes[c].num_of_students > rooms[self.room_of(c)].capacity;
                    assert(other.placed(c) && other.period_of(c) == n - 1
                        && classes[c].num_of_students > rooms[other.room_of(c)].capacity);
                }
                if other.cap_violation_at(classes, rooms, n - 1) {
                    let c = choose|c: int|
                        0 <= c < classes.len() && other.placed(c) && other.period_of(c) == n - 1
                            && classes[c].num_of_students > rooms[other.room_of(c)].capacity;
                    assert(self.placed(c) && self.period_of(c) == n - 1
                        && classes[c].num_of_students > rooms[self.room_of(c)].capacity);
                }
            }
        }
    }

    proof fn lemma_same_state_room_excess(&self, other: &Ant, classes: Seq<Class>, n: int)
        requires
            self.same_state(other),
            0 <= n <= self.params_spec().num_of_rooms,
        ensures
            self.sum_room_excess(classes, n) == other.sum_room_excess(classes, n),
        decreases n,
    {
        if n > 0 {
            self.lemma_same_state_room_excess(other, classes, n - 1);
            self.lemma_same_state_straddle(other, classes, classes.len() as int, n - 1);
        }
    }

    /// Two ants in the same state score the same fitness.
    pub proof fn lemma_same_state_l_total(
        &self,
        other: &Ant,
        classes: Seq<Class>,
        rooms: Seq<Room>,
    )
        requires
            self.same_state(other),
            self.params_spec().wf(),
        ensures
            self.l_total_spec(classes, rooms) == other.l_total_spec(classes, rooms),
    {
        self.lemma_same_state_period_excess(
            other,
            classes,
            rooms,
            self.params_spec().num_of_periods as int,
        );
        self.lemma_same_state_room_excess(other, classes, self.params_spec().num_of_rooms as int);
    }

    /// Well-formedness carries over to an ant in the same state.
    pub proof fn lemma_same_state_wf(&self, other: &Ant, classes: Seq<Class>)
        requires
            self.same_state(other),
            self.dims_ok_pub(),
            other.wf(classes),
        ensures
            self.wf(classes),
            self.complete() == other.complete(),
    {
        assert forall|c: int|
            0 <= c < classes.len() && self.placed(c) implies #[trigger] self.room_of(c)
            < self.params_spec().num_of_rooms && self.period_of(c) + classes[c].serial_size
            <= self.params_spec().num_of_periods by {
            assert(other.placed(c));
            assert(other.room_of(c) < other.params_spec().num_of_rooms);
        }
        assert forall|c1: int, c2: int|
            0 <= c1 < classes.len() && 0 <= c2 < classes.len() && c1 != c2
                && #[trigger] self.placed(c1) && #[trigger] self.placed(c2) && self.room_of(c1)
                == self.room_of(c2) implies !spans_overlap(
            self.period_of(c1),
            classes[c1].serial_size as int,
            self.period_of(c2),
            classes[c2].serial_size as int,
        ) by {
            assert(other.placed(c1) && other.placed(c2));
        }
        assert(self.complete() == other.complete()) by {
            if other.complete() {
                assert forall|c: int| 0 <= c < self.visited_spec().len() implies
                    #[trigger] self.placed(c) by {
                    assert(other.placed(c));
                }
            }
            if self.complete() {
                assert forall|c: int| 0 <= c < other.visited_spec().len() implies
                    #[trigger] other.placed(c) by {
                    assert(self.placed(c));
                }
            }
        }
        assert forall|c: int, p: int|
            0 <= c < classes.len() && self.placed(c) && self.period_of(c) <= p < self.period_of(c)
                + classes[c].serial_size implies #[trigger] self.cell_marked(
            self.room_of(c),
            p,
        ) by {
            assert(other.placed(c));
            assert(other.room_of(c) < other.params_spec().num_of_rooms);
            assert(other.cell_marked(other.room_of(c), p));
        }
        assert forall|r: int, p: int|
            0 <= r < self.params_spec().num_of_rooms && 0 <= p < self.params_spec().num_of_periods
                && #[trigger] self.cell_marked(r, p) implies exists|c: int|
            0 <= c < classes.len() && self.claims(classes, c, r, p) by {
            assert(other.cell_marked(r, p));
            let c = choose|c: int|
                0 <= c < classes.len() && #[trigger] other.claims(classes, c, r, p);
            assert(self.claims(classes, c, r, p));
        }
        assert forall|c: int, j: int, p: int|
            0 <= c < classes.len() && self.placed(c) && 0 <= j
                < classes[c].teacher_indexes@.len() && self.period_of(c) <= p < self.period_of(c)
                + classes[c].serial_size implies (#[trigger] self.teacher_rooms(
            classes[c].teacher_indexes@[j] as int,
            p,
        )).contains(self.crp_spec()[c].0) by {
            assert(other.placed(c));
            assert(classes[c].wf(other.params_spec()));
            assert(other.room_of(c) < other.params_spec().num_of_rooms);
            assert((other.teacher_rooms(classes[c].teacher_indexes@[j] as int, p)).contains(
                other.crp_spec()[c].0,
            ));
        }
        assert forall|c: int, j: int, p: int|
            0 <= c < classes.len() && self.placed(c) && 0 <= j
                < classes[c].students_group_indexes@.len() && self.period_of(c) <= p
                < self.period_of(c) + classes[c].serial_size implies (#[trigger] self.student_rooms(
            classes[c].students_group_indexes@[j] as int,
            p,
        )).contains(self.crp_spec()[c].0) by {
            assert(other.placed(c));
            assert(classes[c].wf(other.params_spec()));
            assert(other.room_of(c) < other.params_spec().num_of_rooms);
            assert((other.student_rooms(classes[c].students_group_indexes@[j] as int, p)).contains(
                other.crp_spec()[c].0,
            ));
        }
        assert forall|t: int, p: int|
            0 <= t < self.params_spec().num_of_teachers && 0 <= p
                < self.params_spec().num_of_periods implies (#[trigger] self.teacher_rooms(
            t,
            p,
        )).len() <= self.placed_count() && (forall|k: int|
            0 <= k < self.teacher_rooms(t, p).len() ==> #[trigger] self.teacher_rooms(t, p)[k]
                < self.params_spec().num_of_rooms) by {
            assert(other.teacher_rooms(t, p).len() <= other.placed_count());
            assert(forall|k: int|
                0 <= k < other.teacher_rooms(t, p).len() ==> #[trigger] other.teacher_rooms(t, p)[k]
                    < other.params_spec().num_of_rooms);
        }
        assert forall|g: int, p: int|
            0 <= g < self.params_spec().num_of_students && 0 <= p
                < self.params_spec().num_of_periods implies (#[trigger] self.student_rooms(
            g,
            p,
        )).len() <= self.placed_count() && (forall|k: int|
            0 <= k < self.student_rooms(g, p).len() ==> #[trigger] self.student_rooms(g, p)[k]
                < self.params_spec().num_of_rooms) by {
            assert(other.student_rooms(g, p).len() <= other.placed_count());
            assert(forall|k: int|
                0 <= k < other.student_rooms(g, p).len() ==> #[trigger] other.student_rooms(g, p)[k]
                    < other.params_spec().num_of_rooms);
        }
    }

    /// The uniformity law at the ant level: with both exponents zero, every
    /// cell's sampling weight is one, so the cumulative draw degenerates to
    /// a uniform choice over the allocatable cells whatever the pheromones
    /// and edge lengths are.
    pub proof fn lemma_uniform_sampling_when_exponents_zero(
        &self,
        graph: &Graph,
        v: int,
        r: int,
        p: int,
    )
        requires
            self.params_spec().alpha == 0,
            self.params_spec().beta == 0,
        ensures
            self.cell_weight(graph, v, r, p) == 1,
    {
        crate::sampling::lemma_weight_zero_exponents(
            graph.pheromone_at(v, r, p) as int,
            self.heuristic_of(graph, v, r, p),
        );
    }

    /// Total sampling weight of the first `n` cells of the row-major grid
    /// for class `v`.
    pub open spec fn grid_weight_sum(&self, graph: &Graph, v: int, n: int) -> int
        decreases n,
    {
        if n <= 0 {
            0
        } else {
            self.grid_weight_sum(graph, v, n - 1) + self.cell_weight(
                graph,
                v,
                (n - 1) / (self.params_spec().num_of_periods as int),
                (n - 1) % (self.params_spec().num_of_periods as int),
            )
        }
    }

    /// A weight vector that lists every grid cell's weight in row-major
    /// order sums to the grid's total weight.
    pub proof fn lemma_grid_sum_matches(&self, graph: &Graph, v: int, ws: Seq<u128>, n: int)
        requires
            0 <= n <= ws.len(),
            forall|k: int|
                0 <= k < ws.len() ==> (#[trigger] ws[k]) as int == self.cell_weight(
                    graph,
                    v,
                    k / (self.params_spec().num_of_periods as int),
                    k % (self.params_spec().num_of_periods as int),
                ),
        ensures
            crate::sampling::sum_weights(ws, n) == self.grid_weight_sum(graph, v, n),
        decreases n,
    {
        if n > 0 {
            self.lemma_grid_sum_matches(graph, v, ws, n - 1);
        }
    }

    /// Two ants in the same state score the same per-period share.
    pub proof fn lemma_same_state_l_period(
        &self,
        other: &Ant,
        classes: Seq<Class>,
        rooms: Seq<Room>,
        p: int,
    )
        requires
            self.same_state(other),
            0 <= p < self.params_spec().num_of_periods,
        ensures
            self.l_period_spec(classes, rooms, p) == other.l_period_spec(classes, rooms, p),
    {
        self.lemma_same_state_teacher_pairs(other, self.params_spec().num_of_teachers as int, p);
        self.lemma_same_state_student_pairs(other, self.params_spec().num_of_students as int, p);
        assert(self.cap_violation_at(classes, rooms, p) == other.cap_violation_at(
            classes,
            rooms,
            p,
        )) by {
            if self.cap_violation_at(classes, rooms, p) {
                let c = choose|c: int|
                    0 <= c < classes.len() && self.placed(c) && self.period_of(c) == p
                        && classes[c].num_of_students > rooms[self.room_of(c)].capacity;
                assert(other.placed(c) && other.period_of(c) == p && classes[c].num_of_students
                    > rooms[other.room_of(c)].capacity);
            }
            if other.cap_violation_at(classes, rooms, p) {
                let c = choose|c: int|
                    0 <= c < classes.len() && other.placed(c) && other.period_of(c) == p
                        && classes[c].num_of_students > rooms[other.room_of(c)].capacity;
                assert(self.placed(c) && self.period_of(c) == p && classes[c].num_of_students
                    > rooms[self.room_of(c)].capacity);
            }
        }
    }

    /// Two ants in the same state score the same per-room share.
    pub proof fn lemma_same_state_l_room(&self, other: &Ant, classes: Seq<Class>, r: int)
        requires
            self.same_state(other),
        ensures
            self.l_room_spec(classes, r) == other.l_room_spec(classes, r),
    {
        self.lemma_same_state_straddle(other, classes, classes.len() as int, r);
    }

    /// Two ants in the same state stage the same deposit for every class.
    pub proof fn lemma_same_state_deposit(
        &self,
        other: &Ant,
        classes: Seq<Class>,
        rooms: Seq<Room>,
        c: int,
    )
        requires
            self.same_state(other),
            0 <= self.period_of(c) < self.params_spec().num_of_periods,
        ensures
            self.deposit_of(classes, rooms, c) == other.deposit_of(classes, rooms, c),
    {
        self.lemma_same_state_l_period(other, classes, rooms, self.period_of(c));
        self.lemma_same_state_l_room(other, classes, self.room_of(c));
    }

    /// A staged deposit is at least one and at most `q`.
    pub proof fn lemma_deposit_bounds(&self, classes: Seq<Class>, rooms: Seq<Room>, c: int)
        requires
            self.wf(classes),
            rooms.len() == self.params_spec().num_of_rooms,
            0 <= c < classes.len(),
            self.placed(c),
        ensures
            1 <= self.deposit_of(classes, rooms, c) <= self.params_spec().q,
    {
        assert(self.room_of(c) < self.params_spec().num_of_rooms);
        assert(self.period_of(c) + classes[c].serial_size <= self.params_spec().num_of_periods);
        assert(classes[c].serial_size >= 1);
        self.lemma_l_bounds(classes, rooms, self.period_of(c), self.room_of(c));
        let d = self.l_period_spec(classes, rooms, self.period_of(c)) + self.l_room_spec(
            classes,
            self.room_of(c),
        ) - 1;
        assert(1 <= (self.params_spec().q + d - 1) / d <= self.params_spec().q) by (
        nonlinear_arith)
            requires
                d >= 1,
                self.params_spec().q >= 1,
        ;
    }

    /// After a valid allocation the ant is well-formed again.
    proof fn lemma_allocate_wf(
        &self,
        pre: &Ant,
        graph: &Graph,
        ci: int,
        room: int,
        period: int,
    )
        requires
            graph.wf(),
            pre.params_spec() == graph.params_spec(),
            pre.wf(graph.classes_spec()),
            0 <= ci < graph.classes_spec().len(),
            !pre.placed(ci),
            0 <= room < graph.params_spec().num_of_rooms,
            period >= 0,
            period + graph.classes_spec()[ci].serial_size <= graph.params_spec().num_of_periods,
            forall|i: int|
                0 <= i < graph.classes_spec()[ci].serial_size ==> !(#[trigger] pre.cell_marked(
                    room,
                    period + i,
                )),
            self.params_spec() == pre.params_spec(),
            self.dims_ok_pub(),
            self.visited_spec() == pre.visited_spec().update(ci, true),
            self.crp_spec() == pre.crp_spec().update(ci, (room as usize, period as usize)),
            forall|r: int, p: int|
                0 <= r < graph.params_spec().num_of_rooms && 0 <= p
                    < graph.params_spec().num_of_periods ==> (#[trigger] self.cell_marked(r, p) == (
                pre.cell_marked(r, p) || (r == room && period <= p < period
                    + graph.classes_spec()[ci].serial_size))),
            forall|t: int, p: int|
                0 <= t < graph.params_spec().num_of_teachers && 0 <= p
                    < graph.params_spec().num_of_periods ==> #[trigger] self.teacher_rooms(t, p)
                    == (if class_lists_teacher(graph.classes_spec()[ci], t) && period <= p < period
                    + graph.classes_spec()[ci].serial_size {
                    pre.teacher_rooms(t, p).push(room as usize)
                } else {
                    pre.teacher_rooms(t, p)
                }),
            forall|g: int, p: int|
                0 <= g < graph.params_spec().num_of_students && 0 <= p
                    < graph.params_spec().num_of_periods ==> #[trigger] self.student_rooms(g, p)
                    == (if class_lists_group(graph.classes_spec()[ci], g) && period <= p < period
                    + graph.classes_spec()[ci].serial_size {
                    pre.student_rooms(g, p).push(room as usize)
                } else {
                    pre.student_rooms(g, p)
                }),
        ensures
            self.wf(graph.classes_spec()),
            self.placed_count() == pre.placed_count() + 1,
    {
        let classes = graph.classes_spec();
        let params = graph.params_spec();
        let size = classes[ci].serial_size as int;
        lemma_count_true_set(pre.visited_spec(), ci, pre.visited_spec().len() as int);
        assert forall|c: int| 0 <= c < classes.len() && self.placed(c) implies #[trigger] self.room_of(c)
            < params.num_of_rooms && self.period_of(c) + classes[c].serial_size
            <= params.num_of_periods by {
            if c != ci {
                assert(pre.placed(c));
                assert(pre.room_of(c) < params.num_of_rooms);
            }
        }
        assert forall|c: int, p: int|
            0 <= c < classes.len() && self.placed(c) && self.period_of(c) <= p < self.period_of(c)
                + classes[c].serial_size implies #[trigger] self.cell_marked(
            self.room_of(c),
            p,
        ) by {
            if c == ci {
                assert(self.cell_marked(room, p));
            } else {
                assert(pre.placed(c));
                assert(pre.cell_marked(pre.room_of(c), p));
                assert(self.cell_marked(self.room_of(c), p));
            }
        }
        assert forall|r: int, p: int|
            0 <= r < params.num_of_rooms && 0 <= p < params.num_of_periods
                && #[trigger] self.cell_marked(r, p) implies exists|c: int|
            0 <= c < classes.len() && self.claims(classes, c, r, p) by {
            if pre.cell_marked(r, p) {
                let c = choose|c: int|
                    0 <= c < classes.len() && #[trigger] pre.claims(classes, c, r, p);
                assert(c != ci);
                assert(self.claims(classes, c, r, p));
            } else {
                assert(r == room && period <= p < period + size);
                assert(self.claims(classes, ci, r, p));
            }
        }
        assert forall|c1: int, c2: int|
            0 <= c1 < classes.len() && 0 <= c2 < classes.len() && c1 != c2
                && #[trigger] self.placed(c1) && #[trigger] self.placed(c2) && self.room_of(c1)
                == self.room_of(c2) implies !spans_overlap(
            self.period_of(c1),
            classes[c1].serial_size as int,
            self.period_of(c2),
            classes[c2].serial_size as int,
        ) by {
            if c1 == ci || c2 == ci {
                let other = if c1 == ci { c2 } else { c1 };
                assert(pre.placed(other));
                if self.room_of(other) == room && spans_overlap(
                    period,
                    size,
                    self.period_of(other),
                    classes[other].serial_size as int,
                ) {
                    let p1 = self.period_of(other);
                    let q: int = if period >= p1 { period } else { p1 };
                    assert(1 <= classes[other].serial_size);
                    assert(1 <= size);
                    assert(period <= q < period + size);
                    assert(p1 <= q < p1 + classes[other].serial_size);
                    assert(pre.cell_marked(pre.room_of(other), q));
                    let iq = q - period;
                    assert(!pre.cell_marked(room, period + iq));
                    assert(false);
                }
            } else {
                assert(pre.placed(c1) && pre.placed(c2));
            }
        }
        assert forall|c: int, jx: int, p: int|
            0 <= c < classes.len() && self.placed(c) && 0 <= jx < classes[c].teacher_indexes@.len()
                && self.period_of(c) <= p < self.period_of(c) + classes[c].serial_size implies (
        #[trigger] self.teacher_rooms(classes[c].teacher_indexes@[jx] as int, p)).contains(
            self.crp_spec()[c].0,
        ) by {
            let t = classes[c].teacher_indexes@[jx] as int;
            if c == ci {
                assert(class_lists_teacher(classes[ci], t));
                assert(self.teacher_rooms(t, p) == pre.teacher_rooms(t, p).push(room as usize));
                assert(self.teacher_rooms(t, p).last() == room as usize);
                assert(self.teacher_rooms(t, p).contains(room as usize));
            } else {
                assert(pre.placed(c));
                assert(classes[c].wf(params));
                assert(0 <= t < params.num_of_teachers);
                assert(self.crp_spec()[c] == pre.crp_spec()[c]);
                assert(pre.room_of(c) < params.num_of_rooms);
                assert(pre.period_of(c) + classes[c].serial_size <= params.num_of_periods);
                assert(0 <= p < params.num_of_periods);
                let s0 = pre.teacher_rooms(t, p);
                assert(s0.contains(pre.crp_spec()[c].0));
                let k = choose|k: int| 0 <= k < s0.len() && s0[k] == pre.crp_spec()[c].0;
                if self.teacher_rooms(t, p) == s0.push(room as usize) {
                    assert(self.teacher_rooms(t, p)[k] == s0[k]);
                    assert(self.teacher_rooms(t, p).contains(self.crp_spec()[c].0));
                } else {
                    assert(self.teacher_rooms(t, p) == s0);
                }
            }
        }
        assert forall|c: int, jx: int, p: int|
            0 <= c < classes.len() && self.placed(c) && 0 <= jx
                < classes[c].students_group_indexes@.len() && self.period_of(c) <= p
                < self.period_of(c) + classes[c].serial_size implies (
        #[trigger] self.student_rooms(classes[c].students_group_indexes@[jx] as int, p)).contains(
            self.crp_spec()[c].0,
        ) by {
            let g = classes[c].students_group_indexes@[jx] as int;
            if c == ci {
                assert(class_lists_group(classes[ci], g));
                assert(self.student_rooms(g, p) == pre.student_rooms(g, p).push(room as usize));
                assert(self.student_rooms(g, p).last() == room as usize);
                assert(self.student_rooms(g, p).contains(room as usize));
            } else {
                assert(pre.placed(c));
                assert(classes[c].wf(params));
                assert(0 <= g < params.num_of_students);
                assert(self.crp_spec()[c] == pre.crp_spec()[c]);
                assert(pre.room_of(c) < params.num_of_rooms);
                assert(pre.period_of(c) + classes[c].serial_size <= params.num_of_periods);
                assert(0 <= p < params.num_of_periods);
                let s0 = pre.student_rooms(g, p);
                assert(s0.contains(pre.crp_spec()[c].0));
                let k = choose|k: int| 0 <= k < s0.len() && s0[k] == pre.crp_spec()[c].0;
                if self.student_rooms(g, p) == s0.push(room as usize) {
                    assert(self.student_rooms(g, p)[k] == s0[k]);
                    assert(self.student_rooms(g, p).contains(self.crp_spec()[c].0));
                } else {
                    assert(self.student_rooms(g, p) == s0);
                }
            }
        }
        assert forall|t: int, p: int|
            0 <= t < params.num_of_teachers && 0 <= p < params.num_of_periods implies (
        #[trigger] self.teacher_rooms(t, p)).len() <= self.placed_count() && (forall|k: int|
            0 <= k < self.teacher_rooms(t, p).len() ==> #[trigger] self.teacher_rooms(t, p)[k]
                < params.num_of_rooms) by {
            let s0 = pre.teacher_rooms(t, p);
            assert(s0.len() <= pre.placed_count());
            assert(forall|k: int| 0 <= k < s0.len() ==> #[trigger] s0[k] < params.num_of_rooms);
            if self.teacher_rooms(t, p) == s0.push(room as usize) {
                assert forall|k: int| 0 <= k < self.teacher_rooms(t, p).len() implies #[trigger] self.teacher_rooms(t, p)[k] < params.num_of_rooms by {
                    if k < s0.len() {
                        assert(self.teacher_rooms(t, p)[k] == s0[k]);
                    }
                }
            }
        }
        assert forall|g: int, p: int|
            0 <= g < params.num_of_students && 0 <= p < params.num_of_periods implies (
        #[trigger] self.student_rooms(g, p)).len() <= self.placed_count() && (forall|k: int|
            0 <= k < self.student_rooms(g, p).len() ==> #[trigger] self.student_rooms(g, p)[k]
                < params.num_of_rooms) by {
            let s0 = pre.student_rooms(g, p);
            assert(s0.len() <= pre.placed_count());
            assert(forall|k: int| 0 <= k < s0.len() ==> #[trigger] s0[k] < params.num_of_rooms);
            if self.student_rooms(g, p) == s0.push(room as usize) {
                assert forall|k: int| 0 <= k < self.student_rooms(g, p).len() implies #[trigger] self.student_rooms(g, p)[k] < params.num_of_rooms by {
                    if k < s0.len() {
                        assert(self.student_rooms(g, p)[k] == s0[k]);
                    }
                }
            }
        }
    }
}

/// The id list carries exactly the one given id.
pub open spec fn single_id(ids: Seq<usize>, x: usize) -> bool {
    ids.len() == 1 && ids[0] == x
}

/// A row-major flat grid index decodes back to its row and column.
pub proof fn lemma_flat_grid_decode(r: int, p: int, num_periods: int)
    requires
        0 <= r,
        0 <= p < num_periods,
    ensures
        (r * num_periods + p) / num_periods == r,
        (r * num_periods + p) % num_periods == p,
{
    assert((r * num_periods + p) / num_periods == r && (r * num_periods + p) % num_periods == p)
        by (nonlinear_arith)
        requires
            0 <= r,
            0 <= p < num_periods,
    ;
}

/// Class `class` lists teacher `t`.
pub open spec fn class_lists_teacher(class: Class, t: int) -> bool {
    exists|j: int| 0 <= j < class.teacher_indexes@.len() && class.teacher_indexes@[j] == t
}

/// Class `class` lists student group `g`.
pub open spec fn class_lists_group(class: Class, g: int) -> bool {
    exists|j: int|
        0 <= j < class.students_group_indexes@.len() && class.students_group_indexes@[j] == g
}

/// An all-false prefix counts zero placed classes.
proof fn lemma_count_nothing_placed(s: Seq<bool>, n: int)
    requires
        0 <= n <= s.len(),
        forall|c: int| 0 <= c < s.len() ==> !s[c],
    ensures
        count_true(s, n) == 0,
    decreases n,
{
    if n > 0 {
        lemma_count_nothing_placed(s, n - 1);
    }
}

} // verus!
