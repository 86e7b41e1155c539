use vstd::prelude::*;

use crate::errors::AcoError;
use crate::ant::lemma_flat_grid_decode;
use crate::solver::ACOSolver;

verus! {

/// An empty cell of the rendered grid.
#[derive(Clone, Debug)]
pub struct BlankCell {
    pub id: usize,
    pub room: usize,
    pub period: usize,
    pub size: Option<usize>,
}

/// A cell holding the start of a scheduled class.
#[derive(Clone, Debug)]
pub struct ActiveCell {
    pub id: usize,
    pub period: usize,
    pub room: usize,
    pub class_index: usize,
    pub class_name: String,
    pub color: Option<String>,
    pub is_locked: Option<bool>,
    pub size: Option<usize>,
}

/// One cell of the rendered timetable.
#[derive(Clone, Debug)]
pub enum Cell {
    BlankCell(BlankCell),
    ActiveCell(ActiveCell),
}

/// The rendered timetable: a flat sequence of `R * P` cells, cell
/// `(room, period)` at index `room * P + period`.
#[derive(Clone, Debug)]
pub struct TimeTable {
    pub cells: Vec<Cell>,
}

/// The digits of a byte, as lowercase hex characters.
pub open spec fn nibble_chars(d: int) -> Seq<char> {
    if d == 0 {
        "0"@
    } else if d == 1 {
        "1"@
    } else if d == 2 {
        "2"@
    } else if d == 3 {
        "3"@
    } else if d == 4 {
        "4"@
    } else if d == 5 {
        "5"@
    } else if d == 6 {
        "6"@
    } else if d == 7 {
        "7"@
    } else if d == 8 {
        "8"@
    } else if d == 9 {
        "9"@
    } else if d == 10 {
        "a"@
    } else if d == 11 {
        "b"@
    } else if d == 12 {
        "c"@
    } else if d == 13 {
        "d"@
    } else if d == 14 {
        "e"@
    } else {
        "f"@
    }
}

/// The display color encoding a pheromone shade: `#ff` and `ff` around the
/// shade's two hex digits written twice, tinting two channels alike.
pub open spec fn shade_color_chars(shade: int) -> Seq<char> {
    "#ff"@ + nibble_chars(shade / 16) + nibble_chars(shade % 16) + nibble_chars(shade / 16)
        + nibble_chars(shade % 16) + "ff"@
}

/// The shade a weight takes against the grid's total weight: white (255)
/// for no weight, darker as the cell's share of the mass grows.
pub open spec fn pheromone_shade(w: int, total: int) -> int {
    if total == 0 || w > total {
        255
    } else {
        255 - w * 255 / total
    }
}

/// The pheromone color of `(class, room, period)`: white when no iteration
/// has produced a best ant, else the shade of the cell's sampling weight
/// within the whole grid's weight, rendered as `#ffXXff`.
pub open spec fn pheromone_color_chars(
    solver: &ACOSolver,
    class_id: int,
    room_id: int,
    period_id: int,
) -> Seq<char> {
    if solver.best_spec() is None {
        "#FFFFFF"@
    } else {
        let best = solver.best_spec()->Some_0;
        let total = best.grid_weight_sum(
            &solver.graph_spec(),
            class_id,
            solver.params_spec().num_of_rooms as int * solver.params_spec().num_of_periods as int,
        );
        let w = if 0 <= room_id < solver.params_spec().num_of_rooms && 0 <= period_id
            < solver.params_spec().num_of_periods {
            best.cell_weight(&solver.graph_spec(), class_id, room_id, period_id)
        } else {
            0
        };
        shade_color_chars(pheromone_shade(w, total))
    }
}

/// The initial display color of a rendered cell: the fixed lock color when
/// the class is locked exactly there, else its pheromone color.
pub open spec fn init_color_chars(
    solver: &ACOSolver,
    class_id: int,
    room_id: int,
    period_id: int,
) -> Seq<char> {
    if solver.graph_spec().lock_spec(class_id) == Some((room_id as usize, period_id as usize)) {
        "#AAAAFF"@
    } else {
        pheromone_color_chars(solver, class_id, room_id, period_id)
    }
}

fn nibble_str(d: u8) -> (r: &'static str)
    requires
        d < 16,
    ensures
        r@ == nibble_chars(d as int),
{
    match d {
        0 => "0",
        1 => "1",
        2 => "2",
        3 => "3",
        4 => "4",
        5 => "5",
        6 => "6",
        7 => "7",
        8 => "8",
        9 => "9",
        10 => "a",
        11 => "b",
        12 => "c",
        13 => "d",
        14 => "e",
        _ => "f",
    }
}

/// Render a shade byte as a `#ffXXXXff` color string.
pub fn shade_color(shade: u8) -> (r: String)
    ensures
        r@ == shade_color_chars(shade as int),
{
    let hi = shade / 16;
    let lo = shade % 16;
    let s = String::from_str("#ff");
    let s = s.concat(nibble_str(hi));
    let s = s.concat(nibble_str(lo));
    let s = s.concat(nibble_str(hi));
    let s = s.concat(nibble_str(lo));
    let s = s.concat("ff");
    s
}

/// The white color used when no pheromone information is available.
pub fn blank_color() -> (r: String)
    ensures
        r@ == "#FFFFFF"@,
{
    String::from_str("#FFFFFF")
}

/// The fixed color of a locked cell.
pub fn locked_color() -> (r: String)
    ensures
        r@ == "#AAAAFF"@,
{
    String::from_str("#AAAAFF")
}

/// The renormalized pheromone color of `(class, room, period)`: the best
/// ant's sampling weight of the cell, over all cells of the grid, mapped to
/// a shade between white (never sampled) and deep color (always sampled).
/// White when no iteration has produced a best ant yet.
pub fn get_pheromone_color(solver: &ACOSolver, class_id: usize, room_id: usize, period_id: usize) -> (r:
    String)
    requires
        solver.wf(),
        class_id < solver.graph_spec().classes_spec().len(),
    ensures
        r@ == pheromone_color_chars(solver, class_id as int, room_id as int, period_id as int),
{
    match solver.get_best_ant() {
        None => blank_color(),
        Some(ant) => {
            let ghost best = solver.best_spec()->Some_0;
            let num_rooms = solver.get_parameters().num_of_rooms;
            let num_periods = solver.get_parameters().num_of_periods;
            let (rp_v, prov_v) = ant.calc_prob_from_v_igunore_visited(class_id, solver.get_graph());
            let mut w: u128 = 0;
            let mut i: usize = 0;
            while i < rp_v.len()
                invariant
                    solver.wf(),
                    best == solver.best_spec()->Some_0,
                    *ant == best,
                    class_id < solver.graph_spec().classes_spec().len(),
                    num_rooms == solver.params_spec().num_of_rooms,
                    num_periods == solver.params_spec().num_of_periods,
                    rp_v@.len() == prov_v@.len(),
                    rp_v@.len() == num_rooms * num_periods,
                    i <= rp_v@.len(),
                    forall|k: int|
                        0 <= k < rp_v@.len() ==> ((#[trigger] rp_v@[k]).0 as int == k / (
                        num_periods as int) && rp_v@[k].1 as int == k % (num_periods as int)),
                    forall|k: int|
                        0 <= k < rp_v@.len() ==> (#[trigger] rp_v@[k]).0 < num_rooms && rp_v@[k].1
                            < num_periods,
                    forall|k: int|
                        0 <= k < prov_v@.len() ==> #[trigger] prov_v@[k]
                            <= crate::sampling::WEIGHT_CAP && prov_v@[k] as int == best.cell_weight(
                            &solver.graph_spec(),
                            class_id as int,
                            rp_v@[k].0 as int,
                            rp_v@[k].1 as int,
                        ),
                    w <= crate::sampling::WEIGHT_CAP,
                    (room_id < num_rooms && period_id < num_periods && (room_id as int)
                        * (num_periods as int) + period_id < i) ==> w as int == best.cell_weight(
                        &solver.graph_spec(),
                        class_id as int,
                        room_id as int,
                        period_id as int,
                    ),
                    (!(room_id < num_rooms && period_id < num_periods) || (room_id as int)
                        * (num_periods as int) + period_id >= i) ==> w == 0,
                decreases rp_v@.len() - i,
            {
                let (rr, pp) = rp_v[i];
                if rr == room_id && pp == period_id {
                    w = prov_v[i];
                    proof {
                        assert(i as int == (i as int / (num_periods as int)) * (num_periods as int)
                            + i as int % (num_periods as int));
                        assert((room_id as int) * (num_periods as int) + period_id == i);
                    }
                } else {
                    proof {
                        if room_id < num_rooms && period_id < num_periods && (room_id as int) * (
                        num_periods as int) + period_id == i {
                            lemma_flat_grid_decode(
                                room_id as int,
                                period_id as int,
                                num_periods as int,
                            );
                            assert(false);
                        }
                    }
                }
                i += 1;
            }
            proof {
                assert(num_rooms as int * (num_periods as int) <= 1000 * 1000) by (nonlinear_arith)
                    requires
                        0 <= num_rooms as int <= 1000,
                        0 <= num_periods as int <= 1000,
                ;
                if room_id < num_rooms && period_id < num_periods {
                    lemma_start_index_bounds(
                        room_id as int,
                        period_id as int,
                        num_rooms as int,
                        num_periods as int,
                    );
                }
                assert forall|k: int| 0 <= k < prov_v@.len() implies (#[trigger] prov_v@[k]) as int
                    == best.cell_weight(
                    &solver.graph_spec(),
                    class_id as int,
                    k / (num_periods as int),
                    k % (num_periods as int),
                ) by {
                    assert(prov_v@[k] as int == best.cell_weight(
                        &solver.graph_spec(),
                        class_id as int,
                        rp_v@[k].0 as int,
                        rp_v@[k].1 as int,
                    ));
                }
                best.lemma_grid_sum_matches(
                    &solver.graph_spec(),
                    class_id as int,
                    prov_v@,
                    prov_v@.len() as int,
                );
            }
            let total = crate::sampling::total_weight(&prov_v);
            let shade: u8 = if total == 0 || w > total {
                255
            } else {
                proof {
                    let wi = w as int;
                    let ti = total as int;
                    assert(wi * 255 <= ti * 255 && (255int * 255) / 255 == 255 && wi * 255 / ti
                        <= 255) by (nonlinear_arith)
                        requires
                            0 <= wi <= ti,
                            ti > 0,
                    ;
                }
                (255 - w * 255 / total) as u8
            };
            shade_color(shade)
        },
    }
}

/// The display color of the cell `(class, room, period)`: the fixed lock
/// color when the class is locked exactly there, else the pheromone color.
pub fn calc_color_init(solver: &ACOSolver, class_id: usize, room_id: usize, period_id: usize) -> (r:
    String)
    requires
        solver.wf(),
        class_id < solver.graph_spec().classes_spec().len(),
    ensures
        r@ == init_color_chars(solver, class_id as int, room_id as int, period_id as int),
{
    let mut res = get_pheromone_color(solver, class_id, room_id, period_id);
    match solver.get_graph().get_classes_is_locked(class_id) {
        Some(rp) => {
            if rp.0 == room_id && rp.1 == period_id {
                res = locked_color();
            }
        },
        None => {},
    }
    res
}

/// The display color of a rendered cell: the lock color when the cell is
/// locked, else the pheromone color of its class at its position.
pub fn calc_color_from_cell(solver: &ACOSolver, active_cell: &ActiveCell) -> (r: String)
    requires
        solver.wf(),
        active_cell.class_index < solver.graph_spec().classes_spec().len(),
    ensures
        r@ == (if active_cell.is_locked == Some(true) {
            "#AAAAFF"@
        } else {
            pheromone_color_chars(
                solver,
                active_cell.class_index as int,
                active_cell.room as int,
                active_cell.period as int,
            )
        }),
{
    match active_cell.is_locked {
        Some(true) => locked_color(),
        _ => get_pheromone_color(solver, active_cell.class_index, active_cell.room, active_cell.period),
    }
}

/// Render the solver's best assignment as a flat `R * P` timetable: one
/// blank cell per grid position, overwritten by an active cell at the
/// starting position of each class.  Fails when no iteration has produced a
/// best ant yet.
pub fn convert_solver_to_timetable(solver: &ACOSolver) -> (res: Result<TimeTable, AcoError>)
    requires
        solver.wf(),
    ensures
        solver.best_spec() is None <==> res is Err,
        res is Err ==> res->Err_0 == AcoError::NoBestAnt,
        res is Ok ==> {
            let tt = res->Ok_0;
            let best = solver.best_spec()->Some_0;
            let periods = solver.params_spec().num_of_periods;
            &&& tt.cells@.len() == solver.params_spec().num_of_rooms * periods
            &&& forall|c: int|
                0 <= c < solver.graph_spec().classes_spec().len() ==> ((
                #[trigger] tt.cells@[best.room_of(c) * periods + best.period_of(
                    c,
                )]) matches Cell::ActiveCell(ac) && ac.room == best.room_of(c) && ac.period
                    == best.period_of(c) && ac.class_index
                    < solver.graph_spec().classes_spec().len() && ac.class_name@
                    == solver.graph_spec().classes_spec()[ac.class_index as int].name@
                    && best.crp_spec()[ac.class_index as int] == (ac.room, ac.period)
                    && ac.is_locked == (if solver.graph_spec().lock_spec(
                    ac.class_index as int,
                ) is Some {
                    Some(true)
                } else {
                    None
                }) && ac.color is Some && ac.color->Some_0@ == init_color_chars(
                    solver,
                    ac.class_index as int,
                    ac.room as int,
                    ac.period as int,
                ))
            &&& forall|r: int, p: int|
                0 <= r < solver.params_spec().num_of_rooms && 0 <= p < periods && (forall|c: int|
                    0 <= c < solver.graph_spec().classes_spec().len() ==> !(#[trigger] best.room_of(
                        c,
                    ) == r && best.period_of(c) == p)) ==> ((#[trigger] tt.cells@[r * periods
                    + p]) matches Cell::BlankCell(bc) && bc.room == r && bc.period == p && bc.id
                    == r * periods + p)
        },
{
    let best_ant = match solver.get_best_ant() {
        None => {
            return Err(AcoError::NoBestAnt);
        },
        Some(a) => a,
    };
    let ghost best = solver.best_spec()->Some_0;
    let num_rooms = solver.get_parameters().num_of_rooms;
    let num_periods = solver.get_parameters().num_of_periods;
    let mut cells: Vec<Cell> = Vec::new();
    let mut room: usize = 0;
    while room < num_rooms
        invariant
            num_rooms == solver.params_spec().num_of_rooms,
            num_periods == solver.params_spec().num_of_periods,
            solver.params_spec().wf(),
            room <= num_rooms,
            cells@.len() as int == room as int * num_periods as int,
            forall|idx: int|
                0 <= idx < cells@.len() ==> ((#[trigger] cells@[idx]) matches Cell::BlankCell(bc)
                    && bc.room as int == idx / (num_periods as int) && bc.period as int == idx % (
                num_periods as int) && bc.id == idx),
        decreases num_rooms - room,
    {
        let mut period: usize = 0;
        while period < num_periods
            invariant
                num_rooms == solver.params_spec().num_of_rooms,
                num_periods == solver.params_spec().num_of_periods,
                solver.params_spec().wf(),
                room < num_rooms,
                period <= num_periods,
                cells@.len() as int == room as int * num_periods as int + period as int,
                forall|idx: int|
                    0 <= idx < cells@.len() ==> ((#[trigger] cells@[idx]) matches Cell::BlankCell(
                    bc) && bc.room as int == idx / (num_periods as int) && bc.period as int == idx
                        % (num_periods as int) && bc.id == idx),
            decreases num_periods - period,
        {
            proof {
                let ri = room as int;
                let nr = num_rooms as int;
                let np = num_periods as int;
                assert(ri * np + np <= 1000 * 1000) by (nonlinear_arith)
                    requires
                        0 <= ri < nr,
                        nr <= 1000,
                        0 <= np <= 1000,
                ;
            }
            let id = room * num_periods + period;
            cells.push(
                Cell::BlankCell(BlankCell { id, room, period, size: None }),
            );
            proof {
                lemma_flat_grid_decode(room as int, period as int, num_periods as int);
            }
            period += 1;
        }
        proof {
            assert(room as int * num_periods as int + num_periods as int == (room as int + 1)
                * num_periods as int) by (nonlinear_arith);
        }
        room += 1;
    }
    proof {
        assert forall|r2: int, p2: int|
            0 <= r2 < num_rooms && 0 <= p2 < num_periods implies !((#[trigger] cells@[r2
            * num_periods + p2]) is ActiveCell) by {
            lemma_start_index_bounds(r2, p2, num_rooms as int, num_periods as int);
        }
    }
    let crp = best_ant.get_corresponding_crp();
    let num_classes = solver.get_parameters().num_of_classes;
    let classes = solver.get_graph().get_classes_ref();
    let ghost gclasses = solver.graph_spec().classes_spec();
    let mut c: usize = 0;
    while c < num_classes
        invariant
            solver.wf(),
            best == solver.best_spec()->Some_0,
            best.wf(solver.graph_spec().classes_spec()),
            best.complete(),
            best.params_spec() == solver.params_spec(),
            crp@ == best.crp_spec(),
            classes@ == solver.graph_spec().classes_spec(),
            num_rooms == solver.params_spec().num_of_rooms,
            num_periods == solver.params_spec().num_of_periods,
            num_classes == solver.params_spec().num_of_classes,
            c <= num_classes,
            cells@.len() == num_rooms * num_periods,
            gclasses == solver.graph_spec().classes_spec(),
            forall|c2: int|
                0 <= c2 < c ==> ((#[trigger] cells@[best.room_of(c2) * num_periods
                    + best.period_of(c2)]) matches Cell::ActiveCell(ac) && ac.room == best.room_of(
                    c2,
                ) && ac.period == best.period_of(c2) && ac.class_index
                    < solver.graph_spec().classes_spec().len() && ac.class_name@
                    == solver.graph_spec().classes_spec()[ac.class_index as int].name@
                    && best.crp_spec()[ac.class_index as int] == (ac.room, ac.period)
                    && ac.is_locked == (if solver.graph_spec().lock_spec(
                    ac.class_index as int,
                ) is Some {
                    Some(true)
                } else {
                    None
                }) && ac.color is Some && ac.color->Some_0@ == init_color_chars(
                    solver,
                    ac.class_index as int,
                    ac.room as int,
                    ac.period as int,
                )),
            forall|idx: int|
                0 <= idx < cells@.len() && (#[trigger] cells@[idx]) is BlankCell
                    ==> (cells@[idx]->BlankCell_0.room as int == idx / (num_periods as int)
                    && cells@[idx]->BlankCell_0.period as int == idx % (num_periods as int)
                    && cells@[idx]->BlankCell_0.id == idx),
            forall|r2: int, p2: int|
                0 <= r2 < num_rooms && 0 <= p2 < num_periods && (#[trigger] cells@[r2
                    * num_periods + p2]) is ActiveCell ==> exists|c2: int|
                    0 <= c2 < c && best.room_of(c2) == r2 && best.period_of(c2) == p2,
        decreases num_classes - c,
    {
        let (room_id, period_id) = crp[c];
        proof {
            assert(best.placed(c as int));
            assert(best.room_of(c as int) < solver.params_spec().num_of_rooms);
            assert(best.period_of(c as int) + gclasses[c as int].serial_size
                <= solver.params_spec().num_of_periods);
            assert(gclasses[c as int].wf(best.params_spec()));
            assert(gclasses[c as int].serial_size >= 1);
            lemma_start_index_bounds(
                best.room_of(c as int),
                best.period_of(c as int),
                num_rooms as int,
                num_periods as int,
            );
            assert(num_rooms as int * num_periods as int <= 1000 * 1000) by (nonlinear_arith)
                requires
                    0 <= num_rooms as int <= 1000,
                    0 <= num_periods as int <= 1000,
            ;
        }
        let idx = room_id * num_periods + period_id;
        let ghost cells_old = cells@;
        let name = classes[c].get_name().clone();
        let is_locked = match solver.get_graph().get_classes_is_locked(c) {
            Some(_) => Some(true),
            None => None,
        };
        let color = Some(calc_color_init(solver, c, room_id, period_id));
        cells[idx] = Cell::ActiveCell(
            ActiveCell {
                id: idx,
                period: period_id,
                room: room_id,
                class_index: c,
                class_name: name,
                color,
                is_locked,
                size: None,
            },
        );
        proof {
            assert forall|c2: int|
                0 <= c2 < c + 1 implies ((#[trigger] cells@[best.room_of(c2) * num_periods
                    + best.period_of(c2)]) matches Cell::ActiveCell(ac) && ac.room == best.room_of(
                c2,
            ) && ac.period == best.period_of(c2) && ac.class_index
                < solver.graph_spec().classes_spec().len() && ac.class_name@
                == solver.graph_spec().classes_spec()[ac.class_index as int].name@
                && best.crp_spec()[ac.class_index as int] == (ac.room, ac.period)
                && ac.is_locked == (if solver.graph_spec().lock_spec(
                ac.class_index as int,
            ) is Some {
                Some(true)
            } else {
                None
            }) && ac.color is Some && ac.color->Some_0@ == init_color_chars(
                solver,
                ac.class_index as int,
                ac.room as int,
                ac.period as int,
            )) by {
                if c2 == c as int {
                } else {
                    let i2 = best.room_of(c2) * num_periods + best.period_of(c2);
                    lemma_start_index_bounds(
                        best.room_of(c2),
                        best.period_of(c2),
                        num_rooms as int,
                        num_periods as int,
                    );
                    if i2 == idx as int {
                        assert(best.placed(c2) && best.placed(c as int));
                        assert(best.period_of(c2) < num_periods);
                        lemma_start_index_injective(
                            best.room_of(c2),
                            best.period_of(c2),
                            best.room_of(c as int),
                            best.period_of(c as int),
                            num_periods as int,
                        );
                        assert(gclasses[c2].serial_size >= 1);
                        assert(gclasses[c as int].serial_size >= 1);
                        assert(false);
                    }
                    assert(cells@[i2] == cells_old[i2]);
                }
            }
            assert forall|idx: int|
                0 <= idx < cells@.len() && (#[trigger] cells@[idx]) is BlankCell implies (
            cells@[idx]->BlankCell_0.room as int == idx / (num_periods as int)
                && cells@[idx]->BlankCell_0.period as int == idx % (num_periods as int)
                && cells@[idx]->BlankCell_0.id == idx) by {
                if idx != idx as int {
                } else if idx == room_id as int * (num_periods as int) + period_id {
                } else {
                    assert(cells@[idx] == cells_old[idx]);
                }
            }
            assert forall|r2: int, p2: int|
                0 <= r2 < num_rooms && 0 <= p2 < num_periods && (#[trigger] cells@[r2 * num_periods
                    + p2]) is ActiveCell implies exists|c2: int|
                0 <= c2 < c + 1 && best.room_of(c2) == r2 && best.period_of(c2) == p2 by {
                let i2 = r2 * num_periods + p2;
                lemma_start_index_bounds(r2, p2, num_rooms as int, num_periods as int);
                if i2 == idx as int {
                    lemma_start_index_injective(
                        r2,
                        p2,
                        best.room_of(c as int),
                        best.period_of(c as int),
                        num_periods as int,
                    );
                    assert(best.room_of(c as int) == r2 && best.period_of(c as int) == p2);
                } else {
                    assert(cells@[i2] == cells_old[i2]);
                }
            }
        }
        c += 1;
    }
    proof {
        assert forall|r: int, p: int|
            0 <= r < num_rooms && 0 <= p < num_periods && (forall|c2: int|
                0 <= c2 < gclasses.len() ==> !(#[trigger] best.room_of(c2) == r && best.period_of(
                    c2,
                ) == p)) implies ((#[trigger] cells@[r * num_periods + p]) matches Cell::BlankCell(
            bc) && bc.room == r && bc.period == p && bc.id == r * num_periods + p) by {
            lemma_start_index_bounds(r, p, num_rooms as int, num_periods as int);
            lemma_flat_grid_decode(r, p, num_periods as int);
            if cells@[r * num_periods + p] is ActiveCell {
                let c2 = choose|c2: int|
                    0 <= c2 < num_classes && best.room_of(c2) == r && best.period_of(c2) == p;
                assert(false);
            }
        }
    }
    Ok(TimeTable { cells })
}

/// A start cell stays inside the flat grid.
proof fn lemma_start_index_bounds(r: int, p: int, num_rooms: int, num_periods: int)
    requires
        0 <= r < num_rooms,
        0 <= p < num_periods,
    ensures
        0 <= r * num_periods + p < num_rooms * num_periods,
{
    assert(0 <= r * num_periods + p < num_rooms * num_periods) by (nonlinear_arith)
        requires
            0 <= r < num_rooms,
            0 <= p < num_periods,
    ;
}

/// Distinct grid positions have distinct flat indices.
proof fn lemma_start_index_injective(r1: int, p1: int, r2: int, p2: int, num_periods: int)
    requires
        0 <= p1 < num_periods,
        0 <= p2 < num_periods,
        r1 * num_periods + p1 == r2 * num_periods + p2,
    ensures
        r1 == r2 && p1 == p2,
{
    assert(r1 == r2 && p1 == p2) by (nonlinear_arith)
        requires
            0 <= p1 < num_periods,
            0 <= p2 < num_periods,
            r1 * num_periods + p1 == r2 * num_periods + p2,
    ;
}

/// An exact copy of one rendered cell.
fn clone_cell(c: &Cell) -> (r: Cell)
    ensures
        r == *c,
{
    match c {
        Cell::BlankCell(b) => Cell::BlankCell(
            BlankCell { id: b.id, room: b.room, period: b.period, size: b.size },
        ),
        Cell::ActiveCell(a) => {
            let color = match &a.color {
                None => None,
                Some(col) => Some(col.clone()),
            };
            Cell::ActiveCell(
                ActiveCell {
                    id: a.id,
                    period: a.period,
                    room: a.room,
                    class_index: a.class_index,
                    class_name: a.class_name.clone(),
                    color,
                    is_locked: a.is_locked,
                    size: a.size,
                },
            )
        },
    }
}

/// An exact copy of a rendered timetable.
fn clone_cells(cells: &Vec<Cell>) -> (r: Vec<Cell>)
    ensures
        r@ == cells@,
{
    let mut r: Vec<Cell> = Vec::new();
    let mut i: usize = 0;
    while i < cells.len()
        invariant
            i <= cells@.len(),
            r@.len() == i,
            forall|j: int| 0 <= j < i ==> r@[j] == cells@[j],
        decreases cells@.len() - i,
    {
        r.push(clone_cell(&cells[i]));
        i += 1;
    }
    proof {
        assert(r@ =~= cells@);
    }
    r
}

/// Move the class of the active cell at `active_id` onto the blank cell at
/// `over_id` and lock it there: the two cells trade their grid positions,
/// and the moved class is marked locked with the lock color.  When the two
/// cells are not an active and a blank one, the table is returned unchanged.
pub fn lock_cell(timetable: &TimeTable, over_id: usize, active_id: usize) -> (res: Result<
    TimeTable,
    AcoError,
>)
    ensures
        match res {
            Ok(tt) => {
                &&& over_id < timetable.cells@.len()
                &&& active_id < timetable.cells@.len()
                &&& tt.cells@.len() == timetable.cells@.len()
                &&& if timetable.cells@[active_id as int] is ActiveCell
                    && timetable.cells@[over_id as int] is BlankCell && over_id != active_id {
                    let bc = timetable.cells@[over_id as int]->BlankCell_0;
                    let ac0 = timetable.cells@[active_id as int]->ActiveCell_0;
                    &&& tt.cells@[active_id as int] is BlankCell
                    &&& tt.cells@[active_id as int]->BlankCell_0.id == ac0.id
                    &&& tt.cells@[active_id as int]->BlankCell_0.room == ac0.room
                    &&& tt.cells@[active_id as int]->BlankCell_0.period == ac0.period
                    &&& tt.cells@[over_id as int] is ActiveCell
                    &&& tt.cells@[over_id as int]->ActiveCell_0.id == bc.id
                    &&& tt.cells@[over_id as int]->ActiveCell_0.room == bc.room
                    &&& tt.cells@[over_id as int]->ActiveCell_0.period == bc.period
                    &&& tt.cells@[over_id as int]->ActiveCell_0.class_index == ac0.class_index
                    &&& tt.cells@[over_id as int]->ActiveCell_0.class_name@ == ac0.class_name@
                    &&& tt.cells@[over_id as int]->ActiveCell_0.is_locked == Some(true)
                    &&& tt.cells@[over_id as int]->ActiveCell_0.color is Some
                    &&& tt.cells@[over_id as int]->ActiveCell_0.color->Some_0@ == "#AAAAFF"@
                    &&& forall|k: int|
                        0 <= k < tt.cells@.len() && k != over_id && k != active_id
                            ==> tt.cells@[k] == timetable.cells@[k]
                } else {
                    tt.cells@ == timetable.cells@
                }
            },
            Err(e) => e == AcoError::InvalidIndex && (over_id >= timetable.cells@.len()
                || active_id >= timetable.cells@.len()),
        },
{
    if over_id >= timetable.cells.len() || active_id >= timetable.cells.len() {
        return Err(AcoError::InvalidIndex);
    }
    let mut cells = clone_cells(&timetable.cells);
    let active_is = match &timetable.cells[active_id] {
        Cell::ActiveCell(_) => true,
        Cell::BlankCell(_) => false,
    };
    let over_is_blank = match &timetable.cells[over_id] {
        Cell::BlankCell(_) => true,
        Cell::ActiveCell(_) => false,
    };
    if active_is && over_is_blank && over_id != active_id {
        let (ac_cell, bc_cell) = match (&timetable.cells[active_id], &timetable.cells[over_id]) {
            (Cell::ActiveCell(a), Cell::BlankCell(b)) => (a, b),
            _ => {
                return Err(AcoError::InvalidIndex);
            },
        };
        cells[active_id] = Cell::BlankCell(
            BlankCell { id: ac_cell.id, room: ac_cell.room, period: ac_cell.period, size: bc_cell.size },
        );
        cells[over_id] = Cell::ActiveCell(
            ActiveCell {
                id: bc_cell.id,
                period: bc_cell.period,
                room: bc_cell.room,
                class_index: ac_cell.class_index,
                class_name: ac_cell.class_name.clone(),
                color: Some(locked_color()),
                is_locked: Some(true),
                size: ac_cell.size,
            },
        );
    }
    Ok(TimeTable { cells })
}

/// Toggle the lock flag of the active cell at `id` and recompute its
/// display color (the lock color when newly locked, else the pheromone
/// color); a blank cell is left unchanged.
pub fn switch_lock(timetable: &TimeTable, solver: &ACOSolver, id: usize) -> (res: Result<
    TimeTable,
    AcoError,
>)
    requires
        solver.wf(),
    ensures
        match res {
            Ok(tt) => {
                &&& id < timetable.cells@.len()
                &&& tt.cells@.len() == timetable.cells@.len()
                &&& forall|k: int|
                    0 <= k < tt.cells@.len() && k != id ==> tt.cells@[k] == timetable.cells@[k]
                &&& if timetable.cells@[id as int] is ActiveCell {
                    let ac = timetable.cells@[id as int]->ActiveCell_0;
                    &&& ac.class_index < solver.graph_spec().classes_spec().len()
                    &&& tt.cells@[id as int] is ActiveCell
                    &&& tt.cells@[id as int]->ActiveCell_0.id == ac.id
                    &&& tt.cells@[id as int]->ActiveCell_0.room == ac.room
                    &&& tt.cells@[id as int]->ActiveCell_0.period == ac.period
                    &&& tt.cells@[id as int]->ActiveCell_0.class_index == ac.class_index
                    &&& tt.cells@[id as int]->ActiveCell_0.class_name@ == ac.class_name@
                    &&& tt.cells@[id as int]->ActiveCell_0.is_locked == Some(
                        !(ac.is_locked == Some(true)),
                    )
                    &&& tt.cells@[id as int]->ActiveCell_0.color is Some
                    &&& tt.cells@[id as int]->ActiveCell_0.color->Some_0@ == (if !(ac.is_locked
                        == Some(true)) {
                        "#AAAAFF"@
                    } else {
                        pheromone_color_chars(
                            solver,
                            ac.class_index as int,
                            ac.room as int,
                            ac.period as int,
                        )
                    })
                } else {
                    tt.cells@[id as int] == timetable.cells@[id as int]
                }
            },
            Err(e) => e == AcoError::InvalidIndex && (id >= timetable.cells@.len()
                || (timetable.cells@[id as int] matches Cell::ActiveCell(ac)
                    && ac.class_index >= solver.graph_spec().classes_spec().len())),
        },
{
    if id >= timetable.cells.len() {
        return Err(AcoError::InvalidIndex);
    }
    let mut cells = clone_cells(&timetable.cells);
    match &timetable.cells[id] {
        Cell::ActiveCell(a) => {
            if a.class_index >= solver.get_graph().get_classes_ref().len() {
                return Err(AcoError::InvalidIndex);
            }
            let was_locked = match a.is_locked {
                Some(true) => true,
                _ => false,
            };
            let now_locked = !was_locked;
            let color = if now_locked {
                locked_color()
            } else {
                get_pheromone_color(solver, a.class_index, a.room, a.period)
            };
            cells[id] = Cell::ActiveCell(
                ActiveCell {
                    id: a.id,
                    period: a.period,
                    room: a.room,
                    class_index: a.class_index,
                    class_name: a.class_name.clone(),
                    color: Some(color),
                    is_locked: Some(now_locked),
                    size: a.size,
                },
            );
        },
        Cell::BlankCell(_) => {},
    }
    Ok(TimeTable { cells })
}

} // verus!
