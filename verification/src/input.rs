use vstd::prelude::*;

use crate::errors::AcoError;
use crate::params::{AcoParameters, DIM_MAX};

verus! {

/// A teacher row of the problem input.
#[derive(Clone, Debug)]
pub struct Teacher {
    pub id: u64,
    pub index: u64,
    pub name: String,
}

/// A student-group row of the problem input.
#[derive(Clone, Debug)]
pub struct StudentGroup {
    pub id: u64,
    pub index: u64,
    pub name: String,
}

/// A room: a place with a student capacity.
#[derive(Clone, Debug)]
pub struct Room {
    pub id: u64,
    pub index: u64,
    pub name: String,
    pub capacity: u64,
}

impl Room {
    pub fn get_capacity(&self) -> (r: u64)
        ensures
            r == self.capacity,
    {
        self.capacity
    }

    pub fn get_name(&self) -> (r: &String)
        ensures
            r@ == self.name@,
    {
        &self.name
    }
}

/// A class to be scheduled: it occupies `serial_size` consecutive periods in
/// one room, is taught by a set of teachers to a set of student groups, and
/// needs seats for `num_of_students` students.
///
/// `room_candidates_indexes` is advisory only: it is carried through from the
/// input but not consulted by the search.
#[derive(Clone, Debug)]
pub struct Class {
    pub id: u64,
    pub index: u64,
    pub name: String,
    pub num_of_students: u64,
    pub serial_size: usize,
    pub teacher_indexes: Vec<usize>,
    pub room_candidates_indexes: Vec<usize>,
    pub students_group_indexes: Vec<usize>,
}

impl Class {
    pub fn get_teacher_indexes(&self) -> (r: &Vec<usize>)
        ensures
            r@ == self.teacher_indexes@,
    {
        &self.teacher_indexes
    }

    pub fn get_students_group_indexes(&self) -> (r: &Vec<usize>)
        ensures
            r@ == self.students_group_indexes@,
    {
        &self.students_group_indexes
    }

    pub fn get_num_of_students(&self) -> (r: u64)
        ensures
            r == self.num_of_students,
    {
        self.num_of_students
    }

    pub fn get_name(&self) -> (r: &String)
        ensures
            r@ == self.name@,
    {
        &self.name
    }

    /// A class is valid against a configuration when its span fits into the
    /// period grid, all its references point into the teacher and
    /// student-group tables, and the teacher and student-group references are
    /// sets: each index is listed at most once.
    pub open spec fn wf(&self, params: AcoParameters) -> bool {
        &&& 1 <= self.serial_size <= params.num_of_periods
        &&& self.teacher_indexes@.len() <= DIM_MAX
        &&& self.students_group_indexes@.len() <= DIM_MAX
        &&& forall|i: int|
            0 <= i < self.teacher_indexes@.len() ==> self.teacher_indexes@[i]
                < params.num_of_teachers
        &&& forall|i: int|
            0 <= i < self.students_group_indexes@.len() ==> self.students_group_indexes@[i]
                < params.num_of_students
        &&& forall|i: int, j: int|
            0 <= i < j < self.teacher_indexes@.len() ==> self.teacher_indexes@[i]
                != self.teacher_indexes@[j]
        &&& forall|i: int, j: int|
            0 <= i < j < self.students_group_indexes@.len() ==> self.students_group_indexes@[i]
                != self.students_group_indexes@[j]
    }

    /// Runtime check of `Class::wf`.
    pub fn is_well_formed(&self, params: &AcoParameters) -> (r: bool)
        ensures
            r == self.wf(*params),
    {
        if !(1 <= self.serial_size && self.serial_size <= params.num_of_periods) {
            return false;
        }
        if self.teacher_indexes.len() > DIM_MAX || self.students_group_indexes.len() > DIM_MAX {
            return false;
        }
        let mut i: usize = 0;
        while i < self.teacher_indexes.len()
            invariant
                i <= self.teacher_indexes@.len(),
                forall|j: int| 0 <= j < i ==> self.teacher_indexes@[j] < params.num_of_teachers,
                forall|j: int, k: int|
                    0 <= j < k < i ==> self.teacher_indexes@[j] != self.teacher_indexes@[k],
            decreases self.teacher_indexes@.len() - i,
        {
            if self.teacher_indexes[i] >= params.num_of_teachers {
                return false;
            }
            let mut j: usize = 0;
            while j < i
                invariant
                    j <= i < self.teacher_indexes@.len(),
                    forall|k: int| 0 <= k < j ==> self.teacher_indexes@[k] != self.teacher_indexes@[i as int],
                decreases i - j,
            {
                if self.teacher_indexes[j] == self.teacher_indexes[i] {
                    return false;
                }
                j += 1;
            }
            i += 1;
        }
        let mut i: usize = 0;
        while i < self.students_group_indexes.len()
            invariant
                i <= self.students_group_indexes@.len(),
                forall|j: int|
                    0 <= j < i ==> self.students_group_indexes@[j] < params.num_of_students,
                forall|j: int, k: int|
                    0 <= j < k < i ==> self.students_group_indexes@[j]
                        != self.students_group_indexes@[k],
            decreases self.students_group_indexes@.len() - i,
        {
            if self.students_group_indexes[i] >= params.num_of_students {
                return false;
            }
            let mut j: usize = 0;
            while j < i
                invariant
                    j <= i < self.students_group_indexes@.len(),
                    forall|k: int| 0 <= k < j ==> self.students_group_indexes@[k] != self.students_group_indexes@[i as int],
                decreases i - j,
            {
                if self.students_group_indexes[j] == self.students_group_indexes[i] {
                    return false;
                }
                j += 1;
            }
            i += 1;
        }
        true
    }
}

/// The four problem tables, as the ingestion collaborators hand them over.
#[derive(Clone, Debug)]
pub struct Input {
    classes: Vec<Class>,
    rooms: Vec<Room>,
    student_groups: Vec<StudentGroup>,
    teachers: Vec<Teacher>,
}

impl Input {
    /// Assemble an input from already-ingested tables.
    pub fn new(
        classes: Vec<Class>,
        rooms: Vec<Room>,
        student_groups: Vec<StudentGroup>,
        teachers: Vec<Teacher>,
    ) -> (r: Input)
        ensures
            r.classes_spec() == classes@,
            r.rooms_spec() == rooms@,
            r.student_groups_spec() == student_groups@,
            r.teachers_spec() == teachers@,
    {
        Input { classes, rooms, student_groups, teachers }
    }

    pub closed spec fn classes_spec(&self) -> Seq<Class> {
        self.classes@
    }

    pub closed spec fn rooms_spec(&self) -> Seq<Room> {
        self.rooms@
    }

    pub closed spec fn student_groups_spec(&self) -> Seq<StudentGroup> {
        self.student_groups@
    }

    pub closed spec fn teachers_spec(&self) -> Seq<Teacher> {
        self.teachers@
    }

    pub fn get_classes(&self) -> (r: &Vec<Class>)
        ensures
            r@ == self.classes_spec(),
    {
        &self.classes
    }

    pub fn get_rooms(&self) -> (r: &Vec<Room>)
        ensures
            r@ == self.rooms_spec(),
    {
        &self.rooms
    }

    pub fn get_student_groups(&self) -> (r: &Vec<StudentGroup>)
        ensures
            r@ == self.student_groups_spec(),
    {
        &self.student_groups
    }

    pub fn get_teachers(&self) -> (r: &Vec<Teacher>)
        ensures
            r@ == self.teachers_spec(),
    {
        &self.teachers
    }
}


/// There is a teacher row carrying this name.
pub open spec fn has_teacher_named(teachers: Seq<Teacher>, name: Seq<char>) -> bool {
    exists|j: int| 0 <= j < teachers.len() && teachers[j].name@ == name
}

/// There is a room row carrying this name.
pub open spec fn has_room_named(rooms: Seq<Room>, name: Seq<char>) -> bool {
    exists|j: int| 0 <= j < rooms.len() && rooms[j].name@ == name
}

/// There is a student-group row carrying this name.
pub open spec fn has_group_named(groups: Seq<StudentGroup>, name: Seq<char>) -> bool {
    exists|j: int| 0 <= j < groups.len() && groups[j].name@ == name
}

/// Position of the first teacher with the given name, if any: the ingestion
/// step resolves the teacher names of a class row to table indices with it.
pub fn find_teacher_index(teachers: &Vec<Teacher>, name: &String) -> (r: Option<usize>)
    ensures
        match r {
            Some(i) => i < teachers@.len() && teachers@[i as int].name@ == name@ && forall|j: int|
                0 <= j < i ==> teachers@[j].name@ != name@,
            None => forall|j: int| 0 <= j < teachers@.len() ==> teachers@[j].name@ != name@,
        },
{
    let mut i: usize = 0;
    while i < teachers.len()
        invariant
            i <= teachers@.len(),
            forall|j: int| 0 <= j < i ==> teachers@[j].name@ != name@,
        decreases teachers@.len() - i,
    {
        if teachers[i].name == *name {
            return Some(i);
        }
        i += 1;
    }
    None
}

/// Position of the first room with the given name, if any.
pub fn find_room_index(rooms: &Vec<Room>, name: &String) -> (r: Option<usize>)
    ensures
        match r {
            Some(i) => i < rooms@.len() && rooms@[i as int].name@ == name@ && forall|j: int|
                0 <= j < i ==> rooms@[j].name@ != name@,
            None => forall|j: int| 0 <= j < rooms@.len() ==> rooms@[j].name@ != name@,
        },
{
    let mut i: usize = 0;
    while i < rooms.len()
        invariant
            i <= rooms@.len(),
            forall|j: int| 0 <= j < i ==> rooms@[j].name@ != name@,
        decreases rooms@.len() - i,
    {
        if rooms[i].name == *name {
            return Some(i);
        }
        i += 1;
    }
    None
}

/// Position of the first student group with the given name, if any.
pub fn find_student_group_index(groups: &Vec<StudentGroup>, name: &String) -> (r: Option<usize>)
    ensures
        match r {
            Some(i) => i < groups@.len() && groups@[i as int].name@ == name@ && forall|j: int|
                0 <= j < i ==> groups@[j].name@ != name@,
            None => forall|j: int| 0 <= j < groups@.len() ==> groups@[j].name@ != name@,
        },
{
    let mut i: usize = 0;
    while i < groups.len()
        invariant
            i <= groups@.len(),
            forall|j: int| 0 <= j < i ==> groups@[j].name@ != name@,
        decreases groups@.len() - i,
    {
        if groups[i].name == *name {
            return Some(i);
        }
        i += 1;
    }
    None
}

/// Resolve the name lists of one ingested class row against the teacher, room
/// and student-group tables.  Fails with `IngestionError` exactly when some
/// name occurs in none of the rows of its table.
pub fn resolve_class_row(
    id: u64,
    index: u64,
    name: String,
    num_of_students: u64,
    serial_size: usize,
    teacher_names: &Vec<String>,
    room_names: &Vec<String>,
    group_names: &Vec<String>,
    teachers: &Vec<Teacher>,
    rooms: &Vec<Room>,
    groups: &Vec<StudentGroup>,
) -> (r: Result<Class, AcoError>)
    ensures
        match r {
            Ok(c) => {
                &&& c.id == id
                &&& c.index == index
                &&& c.name@ == name@
                &&& c.num_of_students == num_of_students
                &&& c.serial_size == serial_size
                &&& c.teacher_indexes@.len() == teacher_names@.len()
                &&& forall|i: int|
                    0 <= i < c.teacher_indexes@.len() ==> c.teacher_indexes@[i] < teachers@.len()
                        && teachers@[c.teacher_indexes@[i] as int].name@ == teacher_names@[i]@
                &&& c.room_candidates_indexes@.len() == room_names@.len()
                &&& forall|i: int|
                    0 <= i < c.room_candidates_indexes@.len() ==> c.room_candidates_indexes@[i]
                        < rooms@.len() && rooms@[c.room_candidates_indexes@[i] as int].name@
                        == room_names@[i]@
                &&& c.students_group_indexes@.len() == group_names@.len()
                &&& forall|i: int|
                    0 <= i < c.students_group_indexes@.len() ==> c.students_group_indexes@[i]
                        < groups@.len() && groups@[c.students_group_indexes@[i] as int].name@
                        == group_names@[i]@
            },
            Err(e) => {
                &&& e == AcoError::IngestionError
                &&& (exists|i: int|
                    0 <= i < teacher_names@.len() && !has_teacher_named(
                        teachers@,
                        #[trigger] teacher_names@[i]@,
                    )) || (exists|i: int|
                    0 <= i < room_names@.len() && !has_room_named(
                        rooms@,
                        #[trigger] room_names@[i]@,
                    )) || (exists|i: int|
                    0 <= i < group_names@.len() && !has_group_named(
                        groups@,
                        #[trigger] group_names@[i]@,
                    ))
            },
        },
{
    let mut teacher_indexes: Vec<usize> = Vec::new();
    let mut i: usize = 0;
    while i < teacher_names.len()
        invariant
            i <= teacher_names@.len(),
            teacher_indexes@.len() == i,
            forall|k: int|
                0 <= k < i ==> teacher_indexes@[k] < teachers@.len()
                    && teachers@[teacher_indexes@[k] as int].name@ == teacher_names@[k]@,
        decreases teacher_names@.len() - i,
    {
        match find_teacher_index(teachers, &teacher_names[i]) {
            Some(t) => teacher_indexes.push(t),
            None => {
                proof {
                    assert(!has_teacher_named(teachers@, teacher_names@[i as int]@));
                }
                return Err(AcoError::IngestionError);
            },
        }
        i += 1;
    }
    let mut room_candidates_indexes: Vec<usize> = Vec::new();
    let mut i: usize = 0;
    while i < room_names.len()
        invariant
            i <= room_names@.len(),
            room_candidates_indexes@.len() == i,
            forall|k: int|
                0 <= k < i ==> room_candidates_indexes@[k] < rooms@.len()
                    && rooms@[room_candidates_indexes@[k] as int].name@ == room_names@[k]@,
        decreases room_names@.len() - i,
    {
        match find_room_index(rooms, &room_names[i]) {
            Some(t) => room_candidates_indexes.push(t),
            None => {
                proof {
                    assert(!has_room_named(rooms@, room_names@[i as int]@));
                }
                return Err(AcoError::IngestionError);
            },
        }
        i += 1;
    }
    let mut students_group_indexes: Vec<usize> = Vec::new();
    let mut i: usize = 0;
    while i < group_names.len()
        invariant
            i <= group_names@.len(),
            students_group_indexes@.len() == i,
            forall|k: int|
                0 <= k < i ==> students_group_indexes@[k] < groups@.len()
                    && groups@[students_group_indexes@[k] as int].name@ == group_names@[k]@,
        decreases group_names@.len() - i,
    {
        match find_student_group_index(groups, &group_names[i]) {
            Some(t) => students_group_indexes.push(t),
            None => {
                proof {
                    assert(!has_group_named(groups@, group_names@[i as int]@));
                }
                return Err(AcoError::IngestionError);
            },
        }
        i += 1;
    }
    Ok(
        Class {
            id,
            index,
            name,
            num_of_students,
            serial_size,
            teacher_indexes,
            room_candidates_indexes,
            students_group_indexes,
        },
    )
}

} // verus!
