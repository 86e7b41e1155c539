use aco_timetable::errors::AcoError;
use aco_timetable::input::{
    find_room_index, find_student_group_index, find_teacher_index, resolve_class_row, Class, Input,
    Room, StudentGroup, Teacher,
};
use aco_timetable::params::AcoParameters;

fn teacher(index: u64, name: &str) -> Teacher {
    Teacher { id: index, index, name: name.to_string() }
}

fn room(index: u64, name: &str) -> Room {
    Room { id: index, index, name: name.to_string(), capacity: 30 }
}

fn group(index: u64, name: &str) -> StudentGroup {
    StudentGroup { id: index, index, name: name.to_string() }
}

#[test]
fn name_lookups_find_the_first_match() {
    let teachers = vec![teacher(0, "ada"), teacher(1, "grace"), teacher(2, "ada")];
    assert_eq!(find_teacher_index(&teachers, &"ada".to_string()), Some(0));
    assert_eq!(find_teacher_index(&teachers, &"grace".to_string()), Some(1));
    assert_eq!(find_teacher_index(&teachers, &"alan".to_string()), None);

    let rooms = vec![room(0, "north"), room(1, "south")];
    assert_eq!(find_room_index(&rooms, &"south".to_string()), Some(1));
    assert_eq!(find_room_index(&rooms, &"west".to_string()), None);

    let groups = vec![group(0, "maths"), group(1, "physics")];
    assert_eq!(find_student_group_index(&groups, &"physics".to_string()), Some(1));
    assert_eq!(find_student_group_index(&groups, &"arts".to_string()), None);
}

#[test]
fn class_rows_resolve_names_to_indices() {
    let teachers = vec![teacher(0, "ada"), teacher(1, "grace")];
    let rooms = vec![room(0, "north"), room(1, "south")];
    let groups = vec![group(0, "maths"), group(1, "physics")];
    let resolved = resolve_class_row(
        7,
        0,
        "algorithms".to_string(),
        25,
        2,
        &vec!["grace".to_string(), "ada".to_string()],
        &vec!["south".to_string()],
        &vec!["maths".to_string(), "physics".to_string()],
        &teachers,
        &rooms,
        &groups,
    )
    .expect("all names resolve");
    assert_eq!(resolved.id, 7);
    assert_eq!(resolved.name, "algorithms");
    assert_eq!(resolved.num_of_students, 25);
    assert_eq!(resolved.serial_size, 2);
    assert_eq!(resolved.teacher_indexes, vec![1, 0]);
    assert_eq!(resolved.room_candidates_indexes, vec![1]);
    assert_eq!(resolved.students_group_indexes, vec![0, 1]);
}

#[test]
fn unknown_names_are_an_ingestion_error() {
    let teachers = vec![teacher(0, "ada")];
    let rooms = vec![room(0, "north")];
    let groups = vec![group(0, "maths")];
    let err = resolve_class_row(
        0,
        0,
        "algorithms".to_string(),
        25,
        1,
        &vec!["nobody".to_string()],
        &vec!["north".to_string()],
        &vec!["maths".to_string()],
        &teachers,
        &rooms,
        &groups,
    )
    .expect_err("unknown teacher");
    assert_eq!(err, AcoError::IngestionError);
}

#[test]
fn class_well_formedness_rejects_bad_rows() {
    let p = AcoParameters {
        num_of_ants: 1,
        num_of_classes: 1,
        num_of_rooms: 1,
        num_of_periods: 4,
        num_of_day_lengths: 2,
        num_of_teachers: 2,
        num_of_students: 2,
        q: 1,
        alpha: 1,
        beta: 1,
        rho_per_mille: 500,
        max_iterations: 1,
        tau_min: 0,
        tau_max: 10,
        prob_random_per_mille: 0,
        stagnation_limit: 10,
    };
    assert!(p.is_well_formed());
    let good = Class {
        id: 0,
        index: 0,
        name: "ok".to_string(),
        num_of_students: 5,
        serial_size: 2,
        teacher_indexes: vec![0, 1],
        room_candidates_indexes: vec![],
        students_group_indexes: vec![1],
    };
    assert!(good.is_well_formed(&p));
    let mut too_long = good.clone();
    too_long.serial_size = 5;
    assert!(!too_long.is_well_formed(&p));
    let mut bad_teacher = good.clone();
    bad_teacher.teacher_indexes = vec![2];
    assert!(!bad_teacher.is_well_formed(&p));
    let mut duplicated = good.clone();
    duplicated.teacher_indexes = vec![0, 0];
    assert!(!duplicated.is_well_formed(&p));
}

#[test]
fn input_exposes_its_four_tables() {
    let teachers = vec![teacher(0, "ada")];
    let rooms = vec![room(0, "north")];
    let groups = vec![group(0, "maths")];
    let classes: Vec<Class> = vec![];
    let input = Input::new(classes, rooms, groups, teachers);
    assert!(input.get_classes().is_empty());
    assert_eq!(input.get_rooms().len(), 1);
    assert_eq!(input.get_rooms()[0].name, "north");
    assert_eq!(input.get_student_groups()[0].name, "maths");
    assert_eq!(input.get_teachers()[0].name, "ada");
}
