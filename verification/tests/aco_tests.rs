use aco_timetable::ant::Ant;
use aco_timetable::colony::Colony;
use aco_timetable::errors::AcoError;
use aco_timetable::graph::Graph;
use aco_timetable::input::{Class, Input, Room, StudentGroup, Teacher};
use aco_timetable::params::AcoParameters;
use aco_timetable::sampling::{select_by_cumulative, total_weight, weight_exec};
use aco_timetable::solver::ACOSolver;
use aco_timetable::time_table::{convert_solver_to_timetable, Cell};

fn params(
    classes: usize,
    rooms: usize,
    periods: usize,
    day_len: usize,
    teachers: usize,
    students: usize,
    ants: usize,
) -> AcoParameters {
    AcoParameters {
        num_of_ants: ants,
        num_of_classes: classes,
        num_of_rooms: rooms,
        num_of_periods: periods,
        num_of_day_lengths: day_len,
        num_of_teachers: teachers,
        num_of_students: students,
        q: 1_000_000,
        alpha: 1,
        beta: 1,
        rho_per_mille: 500,
        max_iterations: 100,
        tau_min: 1,
        tau_max: 1_000_000,
        prob_random_per_mille: 0,
        stagnation_limit: 10_000,
    }
}

fn class(index: u64, size: usize, headcount: u64, teachers: Vec<usize>, groups: Vec<usize>) -> Class {
    Class {
        id: index,
        index,
        name: format!("class{}", index),
        num_of_students: headcount,
        serial_size: size,
        teacher_indexes: teachers,
        room_candidates_indexes: vec![],
        students_group_indexes: groups,
    }
}

fn room(index: u64, capacity: u64) -> Room {
    Room { id: index, index, name: format!("room{}", index), capacity }
}

fn teacher(index: u64) -> Teacher {
    Teacher { id: index, index, name: format!("teacher{}", index) }
}

fn group(index: u64) -> StudentGroup {
    StudentGroup { id: index, index, name: format!("group{}", index) }
}

fn solver_for(
    p: AcoParameters,
    classes: Vec<Class>,
    rooms: Vec<Room>,
    teachers: Vec<Teacher>,
    groups: Vec<StudentGroup>,
) -> ACOSolver {
    let graph = Graph::new(p, classes.clone(), rooms.clone(), teachers.clone());
    let colony = Colony::new(graph, p);
    let input = Input::new(classes, rooms, groups, teachers);
    ACOSolver::new(p, colony, input)
}

#[test]
fn trivial_problem_is_solved_exactly() {
    let p = params(1, 1, 1, 1, 1, 1, 1);
    let classes = vec![class(0, 1, 10, vec![0], vec![0])];
    let rooms = vec![room(0, 20)];
    let mut solver = solver_for(p, classes, rooms, vec![teacher(0)], vec![group(0)]);
    solver.run_aco_once().expect("one iteration");
    let best = solver.get_best_ant().expect("best ant");
    assert_eq!(best.get_corresponding_crp()[0], (0, 0));
    let len = best.calc_all_path_length(solver.get_graph());
    assert_eq!(len, 1);
}

#[test]
fn capacity_violation_scores_three_and_is_reported() {
    let p = params(1, 1, 1, 1, 1, 1, 1);
    let classes = vec![class(0, 1, 30, vec![0], vec![0])];
    let rooms = vec![room(0, 20)];
    let mut solver = solver_for(p, classes, rooms, vec![teacher(0)], vec![group(0)]);
    solver.run_aco_once().expect("one iteration");
    let best = solver.get_best_ant().expect("best ant");
    let len = best.calc_all_path_length(solver.get_graph());
    assert_eq!(len, 3);
    let report = best.get_capacity_violations(solver.get_graph());
    assert_eq!(report.len(), 1);
    assert_eq!(report[0].period, 0);
    assert_eq!(report[0].ids, vec![0]);
}

#[test]
fn shared_teacher_conflict_scores_four() {
    let p = params(2, 2, 1, 1, 1, 2, 1);
    let classes = vec![
        class(0, 1, 1, vec![0], vec![0]),
        class(1, 1, 1, vec![0], vec![1]),
    ];
    let rooms = vec![room(0, 20), room(1, 20)];
    let mut solver = solver_for(
        p,
        classes,
        rooms,
        vec![teacher(0)],
        vec![group(0), group(1)],
    );
    solver.run_aco_once().expect("one iteration");
    let best = solver.get_best_ant().expect("best ant");
    let per_period = best.calc_all_path_length_par_period(solver.get_graph());
    assert_eq!(per_period[0], 4);
    assert_eq!(best.calc_all_path_length(solver.get_graph()), 4);
    let input = solver.get_input().clone();
    let strict = best.get_same_teacher_violations_strictly(&input);
    assert_eq!(strict.len(), 1);
    assert_eq!(strict[0].period, 0);
    assert_eq!(strict[0].ids, vec![0, 1]);
}

#[test]
fn day_straddle_is_detected_only_at_straddling_start() {
    let p = params(1, 1, 4, 2, 1, 1, 1);
    let classes = vec![class(0, 2, 1, vec![0], vec![0])];
    let rooms = vec![room(0, 20)];
    let graph = Graph::new(p, classes.clone(), rooms.clone(), vec![teacher(0)]);
    let input = Input::new(classes, rooms, vec![group(0)], vec![teacher(0)]);

    let mut ant = Ant::new(p);
    ant.reset_ant();
    ant.allocate_classes(0, 0, 0, &graph);
    assert!(ant.get_strabble_days_violations(&input).is_empty());
    assert_eq!(ant.calc_all_path_length_par_room(&graph)[0], 1);

    let mut ant = Ant::new(p);
    ant.reset_ant();
    ant.allocate_classes(0, 0, 2, &graph);
    assert!(ant.get_strabble_days_violations(&input).is_empty());

    let mut ant = Ant::new(p);
    ant.reset_ant();
    ant.allocate_classes(0, 0, 1, &graph);
    let report = ant.get_strabble_days_violations(&input);
    assert_eq!(report.len(), 1);
    assert_eq!(report[0].period, 1);
    assert_eq!(report[0].ids, vec![0]);
    assert_eq!(ant.calc_all_path_length_par_room(&graph)[0], 2);
}

#[test]
fn lock_is_honored_by_construction() {
    let p = params(2, 2, 4, 4, 2, 2, 2);
    let classes = vec![
        class(0, 1, 1, vec![0], vec![0]),
        class(1, 1, 1, vec![1], vec![1]),
    ];
    let rooms = vec![room(0, 20), room(1, 20)];
    let mut solver = solver_for(
        p,
        classes,
        rooms,
        vec![teacher(0), teacher(1)],
        vec![group(0), group(1)],
    );
    solver.one_hot_pheromone(0, 1, 2);
    for _ in 0..5 {
        solver.run_aco_once().expect("iteration");
        let best = solver.get_best_ant().expect("best ant");
        assert_eq!(best.get_corresponding_crp()[0], (1, 2));
    }
    let table = convert_solver_to_timetable(&solver).expect("timetable");
    match &table.cells[1 * 4 + 2] {
        Cell::ActiveCell(ac) => {
            assert_eq!(ac.class_index, 0);
            assert_eq!(ac.is_locked, Some(true));
            assert_eq!(ac.color.as_deref(), Some("#AAAAFF"));
        },
        Cell::BlankCell(_) => panic!("expected the locked class at its lock"),
    }
}

#[test]
fn one_hot_pheromone_biases_the_tensor() {
    let p = params(1, 2, 2, 2, 1, 1, 1);
    let classes = vec![class(0, 1, 1, vec![0], vec![0])];
    let rooms = vec![room(0, 20), room(1, 20)];
    let mut solver = solver_for(p, classes, rooms, vec![teacher(0)], vec![group(0)]);
    solver.one_hot_pheromone(0, 1, 1);
    let g = solver.get_graph();
    assert_eq!(g.get_pheromone(0, 1, 1), p.tau_max);
    assert_eq!(g.get_pheromone(0, 0, 0), p.tau_min);
    assert_eq!(g.get_pheromone(0, 0, 1), p.tau_min);
    assert_eq!(g.get_pheromone(0, 1, 0), p.tau_min);
}

#[test]
fn stagnation_resets_the_pheromones_to_tau_max() {
    let mut p = params(1, 1, 1, 1, 1, 1, 1);
    p.stagnation_limit = 3;
    let classes = vec![class(0, 1, 10, vec![0], vec![0])];
    let rooms = vec![room(0, 20)];
    let mut solver = solver_for(p, classes, rooms, vec![teacher(0)], vec![group(0)]);
    for _ in 0..4 {
        solver.run_aco_once().expect("iteration");
    }
    assert_eq!(solver.get_graph().get_pheromone(0, 0, 0), p.tau_max);
}

#[test]
fn evaporation_commits_deposits_and_clamps() {
    let p = params(1, 1, 1, 1, 1, 1, 1);
    let classes = vec![class(0, 1, 10, vec![0], vec![0])];
    let rooms = vec![room(0, 20)];
    let mut graph = Graph::new(p, classes, rooms, vec![teacher(0)]);
    assert_eq!(graph.get_pheromone(0, 0, 0), 1_000_000);
    graph.add_next_pheromone(0, 0, 0, 300);
    graph.commit_evaporation();
    // tau_max * (1 - rho) + 300 = 500_000 + 300, clamped into [1, 1_000_000]
    assert_eq!(graph.get_pheromone(0, 0, 0), 500_300);
    graph.commit_evaporation();
    assert_eq!(graph.get_pheromone(0, 0, 0), 250_150);
}

#[test]
fn evaporation_clamps_at_tau_min() {
    let mut p = params(1, 1, 1, 1, 1, 1, 1);
    p.tau_min = 400_000;
    let classes = vec![class(0, 1, 10, vec![0], vec![0])];
    let rooms = vec![room(0, 20)];
    let mut graph = Graph::new(p, classes, rooms, vec![teacher(0)]);
    graph.commit_evaporation();
    assert_eq!(graph.get_pheromone(0, 0, 0), 500_000);
    graph.commit_evaporation();
    assert_eq!(graph.get_pheromone(0, 0, 0), 400_000);
}

#[test]
fn super_ant_fitness_never_worsens() {
    let p = params(3, 2, 4, 2, 2, 2, 2);
    let classes = vec![
        class(0, 2, 10, vec![0], vec![0]),
        class(1, 1, 10, vec![1], vec![1]),
        class(2, 1, 10, vec![0], vec![1]),
    ];
    let rooms = vec![room(0, 20), room(1, 5)];
    let mut solver = solver_for(
        p,
        classes,
        rooms,
        vec![teacher(0), teacher(1)],
        vec![group(0), group(1)],
    );
    let mut last = u64::MAX;
    for _ in 0..20 {
        solver.run_aco_once().expect("iteration");
        let sa = solver.get_super_ant().expect("super ant");
        let len = sa.calc_all_path_length(solver.get_graph());
        assert!(len <= last);
        last = len;
    }
}

#[test]
fn over_constrained_problem_reports_no_allocatable_cell() {
    let p = params(2, 1, 1, 1, 2, 2, 1);
    let classes = vec![
        class(0, 1, 1, vec![0], vec![0]),
        class(1, 1, 1, vec![1], vec![1]),
    ];
    let rooms = vec![room(0, 20)];
    let mut solver = solver_for(
        p,
        classes,
        rooms,
        vec![teacher(0), teacher(1)],
        vec![group(0), group(1)],
    );
    let err = solver.run_aco_once().expect_err("cannot place two classes in one cell");
    assert_eq!(err, AcoError::NoAllocatableCell);
}

#[test]
fn edge_length_counts_every_penalty() {
    let p = params(2, 1, 4, 2, 1, 1, 1);
    let classes = vec![
        class(0, 1, 30, vec![0], vec![0]),
        class(1, 3, 30, vec![0], vec![0]),
    ];
    let rooms = vec![room(0, 20)];
    let graph = Graph::new(p, classes.clone(), rooms, vec![teacher(0)]);
    let ant = Ant::new(p);
    // capacity penalty only: 1 + 2
    assert_eq!(ant.calc_edge_length(20, &classes[0], 0), 3);
    // no penalty at all
    assert_eq!(ant.calc_edge_length(30, &classes[0], 0), 1);
    // capacity + day straddle for the three-period class starting at 1
    assert_eq!(ant.calc_edge_length(20, &classes[1], 1), 4);
    let _ = graph;
}

#[test]
fn edge_length_counts_conflict_pairs() {
    let p = params(3, 2, 1, 1, 1, 1, 1);
    let classes = vec![
        class(0, 1, 1, vec![0], vec![0]),
        class(1, 1, 1, vec![0], vec![0]),
        class(2, 1, 1, vec![0], vec![0]),
    ];
    let rooms = vec![room(0, 20), room(1, 20)];
    let graph = Graph::new(p, classes.clone(), rooms, vec![teacher(0)]);
    let mut ant = Ant::new(p);
    ant.reset_ant();
    ant.allocate_classes(0, 0, 0, &graph);
    ant.allocate_classes(1, 1, 0, &graph);
    // one teacher and one group already in two rooms at period 0:
    // 1 + (2 choose 2) * 3 + (2 choose 2) * 3 = 7
    assert_eq!(ant.calc_edge_length(20, &classes[2], 0), 7);
}

#[test]
fn loose_reports_list_conflicting_rooms() {
    let p = params(2, 2, 1, 1, 1, 1, 1);
    let classes = vec![
        class(0, 1, 1, vec![0], vec![0]),
        class(1, 1, 1, vec![0], vec![0]),
    ];
    let rooms = vec![room(0, 20), room(1, 20)];
    let graph = Graph::new(p, classes.clone(), rooms, vec![teacher(0)]);
    let mut ant = Ant::new(p);
    ant.reset_ant();
    ant.allocate_classes(0, 0, 0, &graph);
    ant.allocate_classes(1, 1, 0, &graph);
    let teachers = ant.get_same_teacher_violations();
    assert_eq!(teachers.len(), 1);
    assert_eq!(teachers[0].period, 0);
    assert_eq!(teachers[0].ids, vec![0, 1]);
    let groups = ant.get_same_students_group_violations();
    assert_eq!(groups.len(), 1);
    assert_eq!(groups[0].period, 0);
    assert_eq!(groups[0].ids, vec![0, 1]);
}

#[test]
fn strict_report_expands_spans() {
    let p = params(2, 2, 3, 3, 1, 1, 1);
    let classes = vec![
        class(0, 3, 1, vec![0], vec![0]),
        class(1, 1, 1, vec![0], vec![0]),
    ];
    let rooms = vec![room(0, 20), room(1, 20)];
    let graph = Graph::new(p, classes.clone(), rooms.clone(), vec![teacher(0)]);
    let input = Input::new(classes, rooms, vec![group(0)], vec![teacher(0)]);
    let mut ant = Ant::new(p);
    ant.reset_ant();
    ant.allocate_classes(0, 0, 0, &graph);
    ant.allocate_classes(1, 1, 2, &graph);
    // the loose report sees no conflict: class 1 starts at period 2, where
    // the occupancy of class 0's starting period does not reach
    let loose = ant.get_same_teacher_violations();
    assert_eq!(loose.len(), 1);
    // the strict report expands class 0 over periods 0..3 and finds the
    // teacher in two rooms at period 2
    let strict = ant.get_same_teacher_violations_strictly(&input);
    assert_eq!(strict.len(), 1);
    assert_eq!(strict[0].period, 2);
    assert_eq!(strict[0].ids, vec![0, 1]);
}

#[test]
fn uniform_weights_select_the_drawn_index() {
    // with zero exponents every weight is one
    assert_eq!(weight_exec(123, 456, 0, 0), 1);
    assert_eq!(weight_exec(0, 0, 0, 0), 1);
    let weights = vec![1u128; 7];
    assert_eq!(total_weight(&weights), 7);
    for u in 0..7u128 {
        assert_eq!(select_by_cumulative(&weights, u), u as usize);
    }
}

#[test]
fn cumulative_selection_skips_zero_weights() {
    let weights = vec![0u128, 5, 0, 3];
    assert_eq!(total_weight(&weights), 8);
    assert_eq!(select_by_cumulative(&weights, 0), 1);
    assert_eq!(select_by_cumulative(&weights, 4), 1);
    assert_eq!(select_by_cumulative(&weights, 5), 3);
    assert_eq!(select_by_cumulative(&weights, 7), 3);
}

#[test]
fn timetable_renders_the_best_assignment() {
    let p = params(1, 2, 2, 2, 1, 1, 1);
    let classes = vec![class(0, 1, 1, vec![0], vec![0])];
    let rooms = vec![room(0, 20), room(1, 20)];
    let mut solver = solver_for(p, classes, rooms, vec![teacher(0)], vec![group(0)]);
    let err = convert_solver_to_timetable(&solver).expect_err("no best ant yet");
    assert_eq!(err, AcoError::NoBestAnt);
    solver.run_aco_once().expect("iteration");
    let table = convert_solver_to_timetable(&solver).expect("timetable");
    assert_eq!(table.cells.len(), 4);
    let best = solver.get_best_ant().expect("best ant");
    let (r, q) = best.get_corresponding_crp()[0];
    match &table.cells[r * 2 + q] {
        Cell::ActiveCell(ac) => {
            assert_eq!(ac.class_index, 0);
            assert_eq!(ac.room, r);
            assert_eq!(ac.period, q);
            assert_eq!(ac.class_name, "class0");
            assert_eq!(ac.is_locked, None);
            let color = ac.color.as_deref().expect("rendered cells carry a color");
            assert!(color.starts_with("#ff"));
        },
        Cell::BlankCell(_) => panic!("expected the class cell to be active"),
    }
    let mut blanks = 0;
    for cell in &table.cells {
        if let Cell::BlankCell(_) = cell {
            blanks += 1;
        }
    }
    assert_eq!(blanks, 3);
}

#[test]
fn construction_keeps_the_grid_consistent() {
    let p = params(4, 2, 6, 3, 2, 2, 1);
    let classes = vec![
        class(0, 2, 1, vec![0], vec![0]),
        class(1, 3, 1, vec![1], vec![1]),
        class(2, 1, 1, vec![0], vec![1]),
        class(3, 2, 1, vec![1], vec![0]),
    ];
    let rooms = vec![room(0, 20), room(1, 20)];
    let mut solver = solver_for(
        p,
        classes.clone(),
        rooms,
        vec![teacher(0), teacher(1)],
        vec![group(0), group(1)],
    );
    solver.run_aco_once().expect("iteration");
    let best = solver.get_best_ant().expect("best ant");
    let crp = best.get_corresponding_crp();
    assert_eq!(crp.len(), 4);
    let mut claimed = vec![vec![false; 6]; 2];
    for (c, &(r, q)) in crp.iter().enumerate() {
        let size = classes[c].serial_size;
        assert!(r < 2);
        assert!(q + size <= 6, "assignment must fit the grid");
        for i in 0..size {
            assert!(!claimed[r][q + i], "cells must be claimed exactly once");
            claimed[r][q + i] = true;
        }
    }
}

#[test]
fn error_messages_name_their_kind() {
    assert_eq!(AcoError::NoInput.message(), "no input loaded");
    assert_eq!(AcoError::NoSolver.message(), "no solver adapted");
    assert_eq!(AcoError::NoBestAnt.message(), "no best ant found");
    assert_eq!(AcoError::NoAllocatableCell.message(), "no allocatable cell");
    assert_eq!(AcoError::InvalidIndex.message(), "invalid index");
    assert_eq!(AcoError::IngestionError.message(), "ingestion error");
}

#[test]
fn lock_cell_swaps_an_active_and_a_blank_cell() {
    let p = params(1, 1, 2, 2, 1, 1, 1);
    let classes = vec![class(0, 1, 1, vec![0], vec![0])];
    let rooms = vec![room(0, 20)];
    let mut solver = solver_for(p, classes, rooms, vec![teacher(0)], vec![group(0)]);
    solver.run_aco_once().expect("iteration");
    let table = convert_solver_to_timetable(&solver).expect("timetable");
    let (active_id, over_id) = match (&table.cells[0], &table.cells[1]) {
        (Cell::ActiveCell(_), Cell::BlankCell(_)) => (0, 1),
        (Cell::BlankCell(_), Cell::ActiveCell(_)) => (1, 0),
        _ => panic!("expected one active and one blank cell"),
    };
    let swapped = aco_timetable::time_table::lock_cell(&table, over_id, active_id)
        .expect("ids are valid");
    match &swapped.cells[over_id] {
        Cell::ActiveCell(ac) => {
            assert_eq!(ac.class_index, 0);
            assert_eq!(ac.is_locked, Some(true));
            assert_eq!(ac.color.as_deref(), Some("#AAAAFF"));
            assert_eq!(ac.period, over_id);
        },
        Cell::BlankCell(_) => panic!("expected the moved class at the target"),
    }
    match &swapped.cells[active_id] {
        Cell::BlankCell(_) => {},
        Cell::ActiveCell(_) => panic!("expected the source cell to be blank"),
    }
    let err = aco_timetable::time_table::lock_cell(&table, 5, 0).expect_err("bad index");
    assert_eq!(err, AcoError::InvalidIndex);
}

#[test]
fn switch_lock_toggles_the_flag() {
    let p = params(1, 1, 1, 1, 1, 1, 1);
    let classes = vec![class(0, 1, 1, vec![0], vec![0])];
    let rooms = vec![room(0, 20)];
    let mut solver = solver_for(p, classes, rooms, vec![teacher(0)], vec![group(0)]);
    solver.run_aco_once().expect("iteration");
    let table = convert_solver_to_timetable(&solver).expect("timetable");
    let once = aco_timetable::time_table::switch_lock(&table, &solver, 0).expect("valid id");
    match &once.cells[0] {
        Cell::ActiveCell(ac) => {
            assert_eq!(ac.is_locked, Some(true));
            assert_eq!(ac.color.as_deref(), Some("#AAAAFF"));
        },
        Cell::BlankCell(_) => panic!("expected an active cell"),
    }
    let twice = aco_timetable::time_table::switch_lock(&once, &solver, 0).expect("valid id");
    match &twice.cells[0] {
        Cell::ActiveCell(ac) => {
            assert_eq!(ac.is_locked, Some(false));
            // a single cell holds the whole probability mass again
            assert_eq!(ac.color.as_deref(), Some("#ff0000ff"));
        },
        Cell::BlankCell(_) => panic!("expected an active cell"),
    }
    let err = aco_timetable::time_table::switch_lock(&table, &solver, 9).expect_err("bad index");
    assert_eq!(err, AcoError::InvalidIndex);
}

#[test]
fn pheromone_color_reflects_the_landscape() {
    let p = params(1, 1, 1, 1, 1, 1, 1);
    let classes = vec![class(0, 1, 1, vec![0], vec![0])];
    let rooms = vec![room(0, 20)];
    let mut solver = solver_for(p, classes, rooms, vec![teacher(0)], vec![group(0)]);
    assert_eq!(
        aco_timetable::time_table::get_pheromone_color(&solver, 0, 0, 0),
        "#FFFFFF"
    );
    solver.run_aco_once().expect("iteration");
    // a single cell takes the whole probability mass: shade 0
    assert_eq!(
        aco_timetable::time_table::get_pheromone_color(&solver, 0, 0, 0),
        "#ff0000ff"
    );
    assert_eq!(aco_timetable::time_table::shade_color(0xAB), "#ffababff");
}
