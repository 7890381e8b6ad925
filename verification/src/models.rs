//! The domain types: projects holding todos holding subtasks, and the display
//! filter. Each executable type has a mathematical view used by the contracts.

use vstd::prelude::*;

verus! {

/// Mathematical value of a `Subtask`.
#[verifier::ext_equal]
pub struct SubtaskView {
    pub id: u64,
    pub title: Seq<char>,
    pub completed: bool,
}

/// Mathematical value of a `Todo`.
#[verifier::ext_equal]
pub struct TodoView {
    pub id: u64,
    pub title: Seq<char>,
    pub completed: bool,
    pub subtasks: Seq<SubtaskView>,
    pub description: Seq<char>,
}

/// Mathematical value of a `Project`.
#[verifier::ext_equal]
pub struct ProjectView {
    pub id: u64,
    pub name: Seq<char>,
    pub todos: Seq<TodoView>,
}

/// A checklist item nested under a todo.
pub struct Subtask {
    pub id: u64,
    pub title: String,
    pub completed: bool,
}

/// A task with a title, completion flag, free-text description and subtasks.
pub struct Todo {
    pub id: u64,
    pub title: String,
    pub completed: bool,
    pub subtasks: Vec<Subtask>,
    pub description: String,
}

/// A named container of todos, the top-level organisational unit.
pub struct Project {
    pub id: u64,
    pub name: String,
    pub todos: Vec<Todo>,
}

/// A view predicate selecting which todos a screen shows.
#[derive(Clone, Copy, PartialEq, Eq, Structural, Debug)]
pub enum Filter {
    All,
    Active,
    Completed,
}

pub open spec fn views_of_subtasks(v: Seq<Subtask>) -> Seq<SubtaskView> {
    v.map_values(|s: Subtask| s@)
}

pub open spec fn views_of_todos(v: Seq<Todo>) -> Seq<TodoView> {
    v.map_values(|t: Todo| t@)
}

pub open spec fn views_of_projects(v: Seq<Project>) -> Seq<ProjectView> {
    v.map_values(|p: Project| p@)
}

impl View for Subtask {
    type V = SubtaskView;

    open spec fn view(&self) -> SubtaskView {
        SubtaskView { id: self.id, title: self.title@, completed: self.completed }
    }
}

impl View for Todo {
    type V = TodoView;

    open spec fn view(&self) -> TodoView {
        TodoView {
            id: self.id,
            title: self.title@,
            completed: self.completed,
            subtasks: views_of_subtasks(self.subtasks@),
            description: self.description@,
        }
    }
}

impl View for Project {
    type V = ProjectView;

    open spec fn view(&self) -> ProjectView {
        ProjectView { id: self.id, name: self.name@, todos: views_of_todos(self.todos@) }
    }
}

impl Clone for Subtask {
    fn clone(&self) -> (r: Self)
        ensures
            r@ == self@,
    {
        Subtask { id: self.id, title: self.title.clone(), completed: self.completed }
    }
}

impl Clone for Todo {
    fn clone(&self) -> (r: Self)
        ensures
            r@ == self@,
    {
        let mut subtasks: Vec<Subtask> = Vec::new();
        let mut i: usize = 0;
        while i < self.subtasks.len()
            invariant
                i <= self.subtasks.len(),
                subtasks@.len() == i as int,
                forall|k: int| 0 <= k < i ==> subtasks@[k]@ == self.subtasks@[k]@,
            decreases self.subtasks.len() - i,
        {
            subtasks.push(self.subtasks[i].clone());
            i = i + 1;
        }
        let r = Todo {
            id: self.id,
            title: self.title.clone(),
            completed: self.completed,
            subtasks,
            description: self.description.clone(),
        };
        proof {
            assert(views_of_subtasks(r.subtasks@) =~= views_of_subtasks(self.subtasks@));
        }
        r
    }
}

impl Clone for Project {
    fn clone(&self) -> (r: Self)
        ensures
            r@ == self@,
    {
        let mut todos: Vec<Todo> = Vec::new();
        let mut i: usize = 0;
        while i < self.todos.len()
            invariant
                i <= self.todos.len(),
                todos@.len() == i as int,
                forall|k: int| 0 <= k < i ==> todos@[k]@ == self.todos@[k]@,
            decreases self.todos.len() - i,
        {
            todos.push(self.todos[i].clone());
            i = i + 1;
        }
        let r = Project { id: self.id, name: self.name.clone(), todos };
        proof {
            assert(views_of_todos(r.todos@) =~= views_of_todos(self.todos@));
        }
        r
    }
}

} // verus!
