use dx_todo_app::models::{Filter, Project, Subtask, Todo};
use dx_todo_app::ops::{
    add_project, add_subtask, add_todo, clear_completed, count_visible, edit_todo_title,
    next_todo_id, remove_subtask, remove_todo, reorder_todo, toggle_subtask, toggle_todo,
    update_description, visible,
};

fn todo(id: u64, title: &str, completed: bool) -> Todo {
    Todo {
        id,
        title: title.to_string(),
        completed,
        subtasks: Vec::new(),
        description: String::new(),
    }
}

fn subtask(id: u64, title: &str, completed: bool) -> Subtask {
    Subtask { id, title: title.to_string(), completed }
}

fn one_project(todos: Vec<Todo>) -> Vec<Project> {
    vec![Project { id: 1, name: "Work".to_string(), todos }]
}

fn ids(todos: &[Todo]) -> Vec<u64> {
    todos.iter().map(|t| t.id).collect()
}

#[test]
fn add_todo_appends_with_allocated_id() {
    let mut projects = one_project(vec![todo(1, "first", false)]);
    let mut next_id = 5u64;
    let created = add_todo(&mut projects, 1, "  write tests  ", &mut next_id);
    let created = created.expect("a trimmed non-blank title is accepted");
    assert_eq!(created.id, 5);
    assert_eq!(created.title, "write tests");
    assert!(!created.completed);
    assert_eq!(next_id, 6);
    assert_eq!(projects[0].todos.len(), 2);
    assert_eq!(projects[0].todos[1].id, 5);
    assert_eq!(projects[0].todos[1].title, "write tests");
    assert_eq!(projects[0].todos[1].description, "");
    assert!(projects[0].todos[1].subtasks.is_empty());
}

#[test]
fn add_todo_rejects_blank_title() {
    let mut projects = one_project(vec![todo(1, "first", false)]);
    let mut next_id = 5u64;
    assert!(add_todo(&mut projects, 1, "   ", &mut next_id).is_none());
    assert_eq!(next_id, 5);
    assert_eq!(projects[0].todos.len(), 1);
}

#[test]
fn add_todo_missing_project_is_a_no_op() {
    let mut projects = one_project(vec![]);
    let mut next_id = 5u64;
    assert!(add_todo(&mut projects, 99, "title", &mut next_id).is_none());
    assert_eq!(next_id, 5);
    assert!(projects[0].todos.is_empty());
}

#[test]
fn toggle_todo_propagates_to_subtasks() {
    let mut t = todo(1, "parent", false);
    t.subtasks = vec![subtask(1, "a", true), subtask(2, "b", false)];
    let mut projects = one_project(vec![t]);
    toggle_todo(&mut projects, 1, 1);
    let t = &projects[0].todos[0];
    assert!(t.completed);
    assert!(t.subtasks.iter().all(|s| s.completed));
    toggle_todo(&mut projects, 1, 1);
    let t = &projects[0].todos[0];
    assert!(!t.completed);
    assert!(t.subtasks.iter().all(|s| !s.completed));
}

#[test]
fn edit_todo_title_allows_empty_text() {
    let mut projects = one_project(vec![todo(1, "old", false)]);
    edit_todo_title(&mut projects, 1, 1, "");
    assert_eq!(projects[0].todos[0].title, "");
    edit_todo_title(&mut projects, 1, 1, "  spaced  ");
    assert_eq!(projects[0].todos[0].title, "  spaced  ");
}

#[test]
fn update_description_replaces_free_text() {
    let mut projects = one_project(vec![todo(1, "t", false)]);
    update_description(&mut projects, 1, 1, "some\nnotes");
    assert_eq!(projects[0].todos[0].description, "some\nnotes");
}

#[test]
fn remove_todo_deletes_only_the_addressed_todo() {
    let mut projects = one_project(vec![todo(1, "a", false), todo(2, "b", true), todo(3, "c", false)]);
    remove_todo(&mut projects, 1, 2);
    assert_eq!(ids(&projects[0].todos), vec![1, 3]);
}

#[test]
fn clear_completed_removes_exactly_the_completed_in_order() {
    let mut projects = one_project(vec![
        todo(1, "a", true),
        todo(2, "b", false),
        todo(3, "c", true),
        todo(4, "d", false),
    ]);
    clear_completed(&mut projects, 1);
    assert_eq!(ids(&projects[0].todos), vec![2, 4]);
    assert_eq!(projects[0].todos[0].title, "b");
    assert_eq!(projects[0].todos[1].title, "d");
}

#[test]
fn reorder_todo_moves_forward_before_target() {
    let mut projects = one_project(vec![todo(1, "a", false), todo(2, "b", false), todo(3, "c", false)]);
    reorder_todo(&mut projects, 1, 1, 3);
    assert_eq!(ids(&projects[0].todos), vec![2, 1, 3]);
}

#[test]
fn reorder_todo_moves_backward_onto_target() {
    let mut projects = one_project(vec![todo(1, "a", false), todo(2, "b", false), todo(3, "c", false)]);
    reorder_todo(&mut projects, 1, 3, 1);
    assert_eq!(ids(&projects[0].todos), vec![3, 1, 2]);
}

#[test]
fn reorder_todo_keeps_the_same_ids() {
    let mut projects = one_project(vec![todo(4, "a", false), todo(9, "b", true), todo(7, "c", false)]);
    reorder_todo(&mut projects, 1, 9, 4);
    let mut got = ids(&projects[0].todos);
    got.sort();
    assert_eq!(got, vec![4, 7, 9]);
}

#[test]
fn reorder_todo_same_id_is_a_no_op() {
    let mut projects = one_project(vec![todo(1, "a", false), todo(2, "b", false)]);
    reorder_todo(&mut projects, 1, 2, 2);
    assert_eq!(ids(&projects[0].todos), vec![1, 2]);
}

#[test]
fn add_subtask_allocates_max_plus_one_and_resets_completed() {
    let mut t = todo(1, "parent", true);
    t.subtasks = vec![subtask(3, "a", true), subtask(1, "b", true)];
    let mut projects = one_project(vec![t]);
    assert!(add_subtask(&mut projects, 1, 1, "new step"));
    let t = &projects[0].todos[0];
    assert!(!t.completed);
    assert_eq!(t.subtasks.len(), 3);
    assert_eq!(t.subtasks[2].id, 4);
    assert_eq!(t.subtasks[2].title, "new step");
    assert!(!t.subtasks[2].completed);
}

#[test]
fn add_subtask_to_empty_todo_starts_at_one() {
    let mut projects = one_project(vec![todo(1, "parent", false)]);
    assert!(add_subtask(&mut projects, 1, 1, "only"));
    assert_eq!(projects[0].todos[0].subtasks[0].id, 1);
}

#[test]
fn add_subtask_rejects_blank_title() {
    let mut projects = one_project(vec![todo(1, "parent", false)]);
    assert!(!add_subtask(&mut projects, 1, 1, " \t "));
    assert!(projects[0].todos[0].subtasks.is_empty());
}

#[test]
fn toggle_subtask_recomputes_parent_as_conjunction() {
    let mut t = todo(1, "parent", false);
    t.subtasks = vec![subtask(1, "a", true), subtask(2, "b", false)];
    let mut projects = one_project(vec![t]);
    toggle_subtask(&mut projects, 1, 1, 2);
    let t = &projects[0].todos[0];
    assert!(t.subtasks[1].completed);
    assert!(t.completed, "all subtasks complete, so the todo completes");
    toggle_subtask(&mut projects, 1, 1, 1);
    let t = &projects[0].todos[0];
    assert!(!t.subtasks[0].completed);
    assert!(!t.completed);
}

#[test]
fn remove_subtask_recomputes_while_subtasks_remain() {
    let mut t = todo(1, "parent", false);
    t.subtasks = vec![subtask(1, "a", true), subtask(2, "b", false)];
    let mut projects = one_project(vec![t]);
    remove_subtask(&mut projects, 1, 1, 2);
    let t = &projects[0].todos[0];
    assert_eq!(t.subtasks.len(), 1);
    assert!(t.completed, "the one remaining subtask is complete");
}

#[test]
fn remove_last_subtask_leaves_the_flag_unchanged() {
    let mut t = todo(1, "parent", false);
    t.subtasks = vec![subtask(1, "a", true)];
    let mut projects = one_project(vec![t]);
    remove_subtask(&mut projects, 1, 1, 1);
    let t = &projects[0].todos[0];
    assert!(t.subtasks.is_empty());
    assert!(!t.completed, "no auto-completion from the empty state");
}

#[test]
fn visible_projects_each_filter_in_order() {
    let todos = vec![todo(1, "a", true), todo(2, "b", false), todo(3, "c", true)];
    let all = visible(&todos, Filter::All);
    assert_eq!(ids(&all), vec![1, 2, 3]);
    let active = visible(&todos, Filter::Active);
    assert_eq!(ids(&active), vec![2]);
    let completed = visible(&todos, Filter::Completed);
    assert_eq!(ids(&completed), vec![1, 3]);
}

#[test]
fn count_visible_matches_each_filter() {
    let todos = vec![todo(1, "a", true), todo(2, "b", false), todo(3, "c", true)];
    assert_eq!(count_visible(&todos, Filter::All), 3);
    assert_eq!(count_visible(&todos, Filter::Active), 1);
    assert_eq!(count_visible(&todos, Filter::Completed), 2);
}

#[test]
fn next_todo_id_is_max_plus_one() {
    let projects = one_project(vec![todo(3, "a", false), todo(7, "b", false), todo(2, "c", false)]);
    assert_eq!(next_todo_id(&projects), 8);
}

#[test]
fn next_todo_id_spans_all_projects_and_defaults_to_one() {
    let empty: Vec<Project> = Vec::new();
    assert_eq!(next_todo_id(&empty), 1);
    let projects = vec![
        Project { id: 1, name: "a".to_string(), todos: vec![todo(4, "x", false)] },
        Project { id: 2, name: "b".to_string(), todos: vec![todo(11, "y", false)] },
    ];
    assert_eq!(next_todo_id(&projects), 12);
}

#[test]
fn add_project_trims_and_allocates_max_plus_one() {
    let mut projects = vec![Project { id: 7, name: "old".to_string(), todos: Vec::new() }];
    let id = add_project(&mut projects, "  Garden  ");
    assert_eq!(id, Some(8));
    assert_eq!(projects.len(), 2);
    assert_eq!(projects[1].id, 8);
    assert_eq!(projects[1].name, "Garden");
    assert!(projects[1].todos.is_empty());
}

#[test]
fn add_project_rejects_blank_name() {
    let mut projects: Vec<Project> = Vec::new();
    assert_eq!(add_project(&mut projects, "   "), None);
    assert!(projects.is_empty());
    assert_eq!(add_project(&mut projects, "First"), Some(1));
}

#[test]
fn completion_stays_the_conjunction_across_an_operation_sequence() {
    let mut projects = one_project(vec![todo(1, "parent", false)]);
    let consistent = |projects: &Vec<Project>| {
        let t = &projects[0].todos[0];
        t.subtasks.is_empty() || t.completed == t.subtasks.iter().all(|s| s.completed)
    };
    assert!(add_subtask(&mut projects, 1, 1, "a"));
    assert!(consistent(&projects));
    assert!(add_subtask(&mut projects, 1, 1, "b"));
    assert!(consistent(&projects));
    toggle_subtask(&mut projects, 1, 1, 1);
    assert!(consistent(&projects));
    toggle_subtask(&mut projects, 1, 1, 2);
    assert!(consistent(&projects));
    remove_subtask(&mut projects, 1, 1, 1);
    assert!(consistent(&projects));
    assert!(add_subtask(&mut projects, 1, 1, "c"));
    assert!(consistent(&projects));
    toggle_subtask(&mut projects, 1, 1, 3);
    assert!(consistent(&projects));
    remove_subtask(&mut projects, 1, 1, 2);
    assert!(consistent(&projects));
}

#[test]
fn toggle_subtask_with_missing_id_still_recomputes_the_parent() {
    let mut t = todo(1, "parent", false);
    t.subtasks = vec![subtask(1, "a", true)];
    let mut projects = one_project(vec![t]);
    toggle_subtask(&mut projects, 1, 1, 99);
    let t = &projects[0].todos[0];
    assert!(t.subtasks[0].completed);
    assert!(t.completed, "the recomputation runs even when the subtask id matches nothing");
}
