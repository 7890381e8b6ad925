//! The domain mutation rules: every operation the screens perform on the
//! project collection, as pure state transformations with exact contracts.
//!
//! Operations address a project by id and silently leave the collection
//! unchanged when a referenced id is absent or a new title is blank, as the
//! application's handlers do.

use vstd::prelude::*;

use crate::models::{
    views_of_projects, views_of_subtasks, views_of_todos, Filter, Project, ProjectView, Subtask,
    SubtaskView, Todo, TodoView,
};
use crate::text::{spec_trim, trim_str};

verus! {

/// Index of the first project with the given id, or -1 if there is none.
pub open spec fn spec_find_project(ps: Seq<ProjectView>, pid: u64) -> int
    decreases ps.len(),
{
    if ps.len() == 0 {
        -1
    } else if ps[0].id == pid {
        0
    } else {
        let r = spec_find_project(ps.drop_first(), pid);
        if r == -1 {
            -1
        } else {
            r + 1
        }
    }
}

/// Index of the first todo with the given id, or -1 if there is none.
pub open spec fn spec_find_todo(ts: Seq<TodoView>, tid: u64) -> int
    decreases ts.len(),
{
    if ts.len() == 0 {
        -1
    } else if ts[0].id == tid {
        0
    } else {
        let r = spec_find_todo(ts.drop_first(), tid);
        if r == -1 {
            -1
        } else {
            r + 1
        }
    }
}

/// Index of the first subtask with the given id, or -1 if there is none.
pub open spec fn spec_find_subtask(ss: Seq<SubtaskView>, sid: u64) -> int
    decreases ss.len(),
{
    if ss.len() == 0 {
        -1
    } else if ss[0].id == sid {
        0
    } else {
        let r = spec_find_subtask(ss.drop_first(), sid);
        if r == -1 {
            -1
        } else {
            r + 1
        }
    }
}

proof fn lemma_find_project_at(ps: Seq<ProjectView>, pid: u64, i: int)
    requires
        0 <= i < ps.len(),
        ps[i].id == pid,
        forall|k: int| 0 <= k < i ==> ps[k].id != pid,
    ensures
        spec_find_project(ps, pid) == i,
    decreases ps.len(),
{
    if i > 0 {
        lemma_find_project_at(ps.drop_first(), pid, i - 1);
    }
}

proof fn lemma_find_project_none(ps: Seq<ProjectView>, pid: u64)
    requires
        forall|k: int| 0 <= k < ps.len() ==> ps[k].id != pid,
    ensures
        spec_find_project(ps, pid) == -1,
    decreases ps.len(),
{
    if ps.len() > 0 {
        lemma_find_project_none(ps.drop_first(), pid);
    }
}

proof fn lemma_find_todo_at(ts: Seq<TodoView>, tid: u64, i: int)
    requires
        0 <= i < ts.len(),
        ts[i].id == tid,
        forall|k: int| 0 <= k < i ==> ts[k].id != tid,
    ensures
        spec_find_todo(ts, tid) == i,
    decreases ts.len(),
{
    if i > 0 {
        lemma_find_todo_at(ts.drop_first(), tid, i - 1);
    }
}

proof fn lemma_find_todo_none(ts: Seq<TodoView>, tid: u64)
    requires
        forall|k: int| 0 <= k < ts.len() ==> ts[k].id != tid,
    ensures
        spec_find_todo(ts, tid) == -1,
    decreases ts.len(),
{
    if ts.len() > 0 {
        lemma_find_todo_none(ts.drop_first(), tid);
    }
}

proof fn lemma_find_todo_bounds(ts: Seq<TodoView>, tid: u64)
    ensures
        spec_find_todo(ts, tid) == -1 || (0 <= spec_find_todo(ts, tid) < ts.len() && ts[spec_find_todo(
            ts,
            tid,
        )].id == tid),
    decreases ts.len(),
{
    if ts.len() > 0 && ts[0].id != tid {
        lemma_find_todo_bounds(ts.drop_first(), tid);
    }
}

proof fn lemma_find_subtask_at(ss: Seq<SubtaskView>, sid: u64, i: int)
    requires
        0 <= i < ss.len(),
        ss[i].id == sid,
        forall|k: int| 0 <= k < i ==> ss[k].id != sid,
    ensures
        spec_find_subtask(ss, sid) == i,
    decreases ss.len(),
{
    if i > 0 {
        lemma_find_subtask_at(ss.drop_first(), sid, i - 1);
    }
}

proof fn lemma_find_subtask_none(ss: Seq<SubtaskView>, sid: u64)
    requires
        forall|k: int| 0 <= k < ss.len() ==> ss[k].id != sid,
    ensures
        spec_find_subtask(ss, sid) == -1,
    decreases ss.len(),
{
    if ss.len() > 0 {
        lemma_find_subtask_none(ss.drop_first(), sid);
    }
}

/// Mutable access to one element, with the update made explicit.
fn vec_mut<T>(v: &mut Vec<T>, i: usize) -> (element: &mut T)
    requires
        i < old(v).len(),
    ensures
        *element == old(v)@[i as int],
        final(v)@ == old(v)@.update(i as int, *final(element)),
{
    &mut v[i]
}

proof fn lemma_views_projects_update(s: Seq<Project>, i: int, p: Project)
    requires
        0 <= i < s.len(),
    ensures
        views_of_projects(s.update(i, p)) =~= views_of_projects(s).update(i, p@),
{
}

proof fn lemma_views_todos_push(s: Seq<Todo>, t: Todo)
    ensures
        views_of_todos(s.push(t)) =~= views_of_todos(s).push(t@),
{
}

proof fn lemma_views_subtasks_push(s: Seq<Subtask>, st: Subtask)
    ensures
        views_of_subtasks(s.push(st)) =~= views_of_subtasks(s).push(st@),
{
}

proof fn lemma_views_projects_push(s: Seq<Project>, p: Project)
    ensures
        views_of_projects(s.push(p)) =~= views_of_projects(s).push(p@),
{
}

proof fn lemma_views_todos_update(s: Seq<Todo>, i: int, t: Todo)
    requires
        0 <= i < s.len(),
    ensures
        views_of_todos(s.update(i, t)) =~= views_of_todos(s).update(i, t@),
{
}

proof fn lemma_views_subtasks_update(s: Seq<Subtask>, i: int, st: Subtask)
    requires
        0 <= i < s.len(),
    ensures
        views_of_subtasks(s.update(i, st)) =~= views_of_subtasks(s).update(i, st@),
{
}

pub(crate) fn find_project_idx(projects: &Vec<Project>, pid: u64) -> (r: Option<usize>)
    ensures
        match r {
            Some(i) => i < projects.len() && spec_find_project(
                views_of_projects(projects@),
                pid,
            ) == i as int && views_of_projects(projects@)[i as int].id == pid,
            None => spec_find_project(views_of_projects(projects@), pid) == -1,
        },
{
    let ghost vs = views_of_projects(projects@);
    let mut i: usize = 0;
    while i < projects.len()
        invariant
            vs == views_of_projects(projects@),
            0 <= i <= projects.len(),
            forall|k: int| 0 <= k < i ==> vs[k].id != pid,
        decreases projects.len() - i,
    {
        if projects[i].id == pid {
            proof {
                lemma_find_project_at(vs, pid, i as int);
            }
            return Some(i);
        }
        i = i + 1;
    }
    proof {
        lemma_find_project_none(vs, pid);
    }
    None
}

fn find_todo_idx(todos: &Vec<Todo>, tid: u64) -> (r: Option<usize>)
    ensures
        match r {
            Some(i) => i < todos.len() && spec_find_todo(views_of_todos(todos@), tid) == i as int
                && views_of_todos(todos@)[i as int].id == tid,
            None => spec_find_todo(views_of_todos(todos@), tid) == -1,
        },
{
    let ghost vs = views_of_todos(todos@);
    let mut i: usize = 0;
    while i < todos.len()
        invariant
            vs == views_of_todos(todos@),
            0 <= i <= todos.len(),
            forall|k: int| 0 <= k < i ==> vs[k].id != tid,
        decreases todos.len() - i,
    {
        if todos[i].id == tid {
            proof {
                lemma_find_todo_at(vs, tid, i as int);
            }
            return Some(i);
        }
        i = i + 1;
    }
    proof {
        lemma_find_todo_none(vs, tid);
    }
    None
}

fn find_subtask_idx(subtasks: &Vec<Subtask>, sid: u64) -> (r: Option<usize>)
    ensures
        match r {
            Some(i) => i < subtasks.len() && spec_find_subtask(
                views_of_subtasks(subtasks@),
                sid,
            ) == i as int && views_of_subtasks(subtasks@)[i as int].id == sid,
            None => spec_find_subtask(views_of_subtasks(subtasks@), sid) == -1,
        },
{
    let ghost vs = views_of_subtasks(subtasks@);
    let mut i: usize = 0;
    while i < subtasks.len()
        invariant
            vs == views_of_subtasks(subtasks@),
            0 <= i <= subtasks.len(),
            forall|k: int| 0 <= k < i ==> vs[k].id != sid,
        decreases subtasks.len() - i,
    {
        if subtasks[i].id == sid {
            proof {
                lemma_find_subtask_at(vs, sid, i as int);
            }
            return Some(i);
        }
        i = i + 1;
    }
    proof {
        lemma_find_subtask_none(vs, sid);
    }
    None
}

/// Every subtask with its completion flag set to `v`.
pub open spec fn spec_set_all_subtasks(ss: Seq<SubtaskView>, v: bool) -> Seq<SubtaskView>
    decreases ss.len(),
{
    if ss.len() == 0 {
        Seq::empty()
    } else {
        spec_set_all_subtasks(ss.drop_last(), v).push(
            SubtaskView { completed: v, ..ss.last() },
        )
    }
}

fn set_subtasks_completed(subtasks: &mut Vec<Subtask>, value: bool)
    ensures
        views_of_subtasks(final(subtasks)@) == spec_set_all_subtasks(
            views_of_subtasks(old(subtasks)@),
            value,
        ),
{
    let ghost vs0 = views_of_subtasks(old(subtasks)@);
    let mut i: usize = 0;
    while i < subtasks.len()
        invariant
            subtasks@.len() == vs0.len(),
            0 <= i <= subtasks@.len(),
            views_of_subtasks(subtasks@).take(i as int) == spec_set_all_subtasks(
                vs0.take(i as int),
                value,
            ),
            forall|k: int| i <= k < vs0.len() ==> views_of_subtasks(subtasks@)[k] == vs0[k],
        decreases subtasks.len() - i,
    {
        let ghost before = subtasks@;
        let st = vec_mut(subtasks, i);
        st.completed = value;
        proof {
            let new_elem = subtasks@[i as int];
            assert(subtasks@ == before.update(i as int, new_elem));
            lemma_views_subtasks_update(before, i as int, new_elem);
            assert(new_elem@ == SubtaskView { completed: value, ..vs0[i as int] });
            assert(views_of_subtasks(subtasks@).take(i + 1) =~= views_of_subtasks(before).take(
                i as int,
            ).push(new_elem@));
            assert(vs0.take(i + 1).drop_last() =~= vs0.take(i as int));
            assert(views_of_subtasks(subtasks@).take(i + 1) == spec_set_all_subtasks(
                vs0.take(i + 1),
                value,
            ));
        }
        i = i + 1;
    }
    proof {
        assert(views_of_subtasks(subtasks@).take(vs0.len() as int) =~= views_of_subtasks(
            subtasks@,
        ));
        assert(vs0.take(vs0.len() as int) =~= vs0);
    }
}

/// The todo after a user toggle: the flag flips and propagates to every
/// subtask.
pub open spec fn spec_toggled_todo(t: TodoView) -> TodoView {
    TodoView {
        completed: !t.completed,
        subtasks: spec_set_all_subtasks(t.subtasks, !t.completed),
        ..t
    }
}

/// The todo list after toggling the todo with the given id, if present.
pub open spec fn spec_toggle_in_todos(ts: Seq<TodoView>, tid: u64) -> Seq<TodoView> {
    let ti = spec_find_todo(ts, tid);
    if ti == -1 {
        ts
    } else {
        ts.update(ti, spec_toggled_todo(ts[ti]))
    }
}

/// The collection after toggling one todo, addressed by project and todo id.
pub open spec fn spec_toggle_todo(ps: Seq<ProjectView>, pid: u64, tid: u64) -> Seq<ProjectView> {
    let pi = spec_find_project(ps, pid);
    if pi == -1 {
        ps
    } else {
        ps.update(pi, ProjectView { todos: spec_toggle_in_todos(ps[pi].todos, tid), ..ps[pi] })
    }
}

fn toggle_todo_in(todos: &mut Vec<Todo>, todo_id: u64)
    ensures
        views_of_todos(final(todos)@) == spec_toggle_in_todos(
            views_of_todos(old(todos)@),
            todo_id,
        ),
{
    let ghost ts0 = views_of_todos(old(todos)@);
    let ti_opt = find_todo_idx(todos, todo_id);
    match ti_opt {
        None => {},
        Some(ti) => {
            let ghost before = todos@;
            let t = vec_mut(todos, ti);
            let v = !t.completed;
            t.completed = v;
            set_subtasks_completed(&mut t.subtasks, v);
            proof {
                let new_elem = todos@[ti as int];
                assert(todos@ == before.update(ti as int, new_elem));
                assert(new_elem@ == spec_toggled_todo(ts0[ti as int]));
                lemma_views_todos_update(before, ti as int, new_elem);
                assert(views_of_todos(todos@) =~= spec_toggle_in_todos(ts0, todo_id));
            }
        },
    }
}

/// Flips one todo's completion flag and propagates the new value to all of
/// its subtasks; no change when the project or todo is missing.
pub fn toggle_todo(projects: &mut Vec<Project>, project_id: u64, todo_id: u64)
    ensures
        views_of_projects(final(projects)@) == spec_toggle_todo(
            views_of_projects(old(projects)@),
            project_id,
            todo_id,
        ),
{
    let ghost ps0 = views_of_projects(old(projects)@);
    let pi_opt = find_project_idx(projects, project_id);
    match pi_opt {
        None => {},
        Some(pi) => {
            let ghost before = projects@;
            let p = vec_mut(projects, pi);
            toggle_todo_in(&mut p.todos, todo_id);
            proof {
                let new_elem = projects@[pi as int];
                assert(projects@ == before.update(pi as int, new_elem));
                assert(new_elem@ == ProjectView {
                    todos: spec_toggle_in_todos(ps0[pi as int].todos, todo_id),
                    ..ps0[pi as int]
                });
                lemma_views_projects_update(before, pi as int, new_elem);
                assert(views_of_projects(projects@) =~= spec_toggle_todo(
                    ps0,
                    project_id,
                    todo_id,
                ));
            }
        },
    }
}

/// The todo list after replacing one todo's title, if the todo is present.
pub open spec fn spec_edit_in_todos(ts: Seq<TodoView>, tid: u64, title: Seq<char>) -> Seq<
    TodoView,
> {
    let ti = spec_find_todo(ts, tid);
    if ti == -1 {
        ts
    } else {
        ts.update(ti, TodoView { title, ..ts[ti] })
    }
}

/// The collection after replacing one todo's title. The edit buffer is taken
/// as it stands: no trimming, and an empty title is allowed here.
pub open spec fn spec_edit_todo_title(
    ps: Seq<ProjectView>,
    pid: u64,
    tid: u64,
    title: Seq<char>,
) -> Seq<ProjectView> {
    let pi = spec_find_project(ps, pid);
    if pi == -1 {
        ps
    } else {
        ps.update(pi, ProjectView { todos: spec_edit_in_todos(ps[pi].todos, tid, title), ..ps[pi] })
    }
}

fn edit_todo_title_in(todos: &mut Vec<Todo>, todo_id: u64, new_title: &str)
    ensures
        views_of_todos(final(todos)@) == spec_edit_in_todos(
            views_of_todos(old(todos)@),
            todo_id,
            new_title@,
        ),
{
    let ghost ts0 = views_of_todos(old(todos)@);
    let ti_opt = find_todo_idx(todos, todo_id);
    match ti_opt {
        None => {},
        Some(ti) => {
            let ghost before = todos@;
            let t = vec_mut(todos, ti);
            t.title = new_title.to_owned();
            proof {
                let new_elem = todos@[ti as int];
                assert(todos@ == before.update(ti as int, new_elem));
                lemma_views_todos_update(before, ti as int, new_elem);
                assert(views_of_todos(todos@) =~= spec_edit_in_todos(ts0, todo_id, new_title@));
            }
        },
    }
}

/// Replaces one todo's title with the edit buffer's text, exactly as given;
/// no change when the project or todo is missing.
pub fn edit_todo_title(projects: &mut Vec<Project>, project_id: u64, todo_id: u64, new_title: &str)
    ensures
        views_of_projects(final(projects)@) == spec_edit_todo_title(
            views_of_projects(old(projects)@),
            project_id,
            todo_id,
            new_title@,
        ),
{
    let ghost ps0 = views_of_projects(old(projects)@);
    let pi_opt = find_project_idx(projects, project_id);
    match pi_opt {
        None => {},
        Some(pi) => {
            let ghost before = projects@;
            let p = vec_mut(projects, pi);
            edit_todo_title_in(&mut p.todos, todo_id, new_title);
            proof {
                let new_elem = projects@[pi as int];
                assert(projects@ == before.update(pi as int, new_elem));
                lemma_views_projects_update(before, pi as int, new_elem);
                assert(views_of_projects(projects@) =~= spec_edit_todo_title(
                    ps0,
                    project_id,
                    todo_id,
                    new_title@,
                ));
            }
        },
    }
}

/// The todo list after replacing one todo's description, if present.
pub open spec fn spec_describe_in_todos(ts: Seq<TodoView>, tid: u64, text: Seq<char>) -> Seq<
    TodoView,
> {
    let ti = spec_find_todo(ts, tid);
    if ti == -1 {
        ts
    } else {
        ts.update(ti, TodoView { description: text, ..ts[ti] })
    }
}

/// The collection after replacing one todo's free-text description.
pub open spec fn spec_update_description(
    ps: Seq<ProjectView>,
    pid: u64,
    tid: u64,
    text: Seq<char>,
) -> Seq<ProjectView> {
    let pi = spec_find_project(ps, pid);
    if pi == -1 {
        ps
    } else {
        ps.update(
            pi,
            ProjectView { todos: spec_describe_in_todos(ps[pi].todos, tid, text), ..ps[pi] },
        )
    }
}

fn update_description_in(todos: &mut Vec<Todo>, todo_id: u64, text: &str)
    ensures
        views_of_todos(final(todos)@) == spec_describe_in_todos(
            views_of_todos(old(todos)@),
            todo_id,
            text@,
        ),
{
    let ghost ts0 = views_of_todos(old(todos)@);
    let ti_opt = find_todo_idx(todos, todo_id);
    match ti_opt {
        None => {},
        Some(ti) => {
            let ghost before = todos@;
            let t = vec_mut(todos, ti);
            t.description = text.to_owned();
            proof {
                let new_elem = todos@[ti as int];
                assert(todos@ == before.update(ti as int, new_elem));
                lemma_views_todos_update(before, ti as int, new_elem);
                assert(views_of_todos(todos@) =~= spec_describe_in_todos(ts0, todo_id, text@));
            }
        },
    }
}

/// Replaces one todo's description with the given free text, unvalidated;
/// no change when the project or todo is missing.
pub fn update_description(projects: &mut Vec<Project>, project_id: u64, todo_id: u64, text: &str)
    ensures
        views_of_projects(final(projects)@) == spec_update_description(
            views_of_projects(old(projects)@),
            project_id,
            todo_id,
            text@,
        ),
{
    let ghost ps0 = views_of_projects(old(projects)@);
    let pi_opt = find_project_idx(projects, project_id);
    match pi_opt {
        None => {},
        Some(pi) => {
            let ghost before = projects@;
            let p = vec_mut(projects, pi);
            update_description_in(&mut p.todos, todo_id, text);
            proof {
                let new_elem = projects@[pi as int];
                assert(projects@ == before.update(pi as int, new_elem));
                lemma_views_projects_update(before, pi as int, new_elem);
                assert(views_of_projects(projects@) =~= spec_update_description(
                    ps0,
                    project_id,
                    todo_id,
                    text@,
                ));
            }
        },
    }
}

/// The todo list with every todo of the given id removed, order preserved.
pub open spec fn spec_remove_in_todos(ts: Seq<TodoView>, tid: u64) -> Seq<TodoView>
    decreases ts.len(),
{
    if ts.len() == 0 {
        Seq::empty()
    } else {
        let rest = spec_remove_in_todos(ts.drop_last(), tid);
        if ts.last().id == tid {
            rest
        } else {
            rest.push(ts.last())
        }
    }
}

/// The collection after deleting one todo from its project.
pub open spec fn spec_remove_todo(ps: Seq<ProjectView>, pid: u64, tid: u64) -> Seq<ProjectView> {
    let pi = spec_find_project(ps, pid);
    if pi == -1 {
        ps
    } else {
        ps.update(pi, ProjectView { todos: spec_remove_in_todos(ps[pi].todos, tid), ..ps[pi] })
    }
}

fn remove_todo_in(todos: &mut Vec<Todo>, todo_id: u64)
    ensures
        views_of_todos(final(todos)@) == spec_remove_in_todos(
            views_of_todos(old(todos)@),
            todo_id,
        ),
{
    let ghost ts0 = views_of_todos(old(todos)@);
    let mut result: Vec<Todo> = Vec::new();
    let mut i: usize = 0;
    while i < todos.len()
        invariant
            todos@ == old(todos)@,
            ts0 == views_of_todos(todos@),
            0 <= i <= todos@.len(),
            views_of_todos(result@) == spec_remove_in_todos(ts0.take(i as int), todo_id),
        decreases todos.len() - i,
    {
        proof {
            assert(ts0.take(i + 1).drop_last() =~= ts0.take(i as int));
            assert(ts0.take(i + 1).last() == ts0[i as int]);
        }
        if todos[i].id != todo_id {
            let c = todos[i].clone();
            proof {
                lemma_views_todos_push(result@, c);
            }
            result.push(c);
        }
        i = i + 1;
    }
    proof {
        assert(ts0.take(ts0.len() as int) =~= ts0);
    }
    *todos = result;
}

/// Deletes the todo with the given id from its project; no cascading effects
/// beyond the removal, and no change when the project or todo is missing.
pub fn remove_todo(projects: &mut Vec<Project>, project_id: u64, todo_id: u64)
    ensures
        views_of_projects(final(projects)@) == spec_remove_todo(
            views_of_projects(old(projects)@),
            project_id,
            todo_id,
        ),
{
    let ghost ps0 = views_of_projects(old(projects)@);
    let pi_opt = find_project_idx(projects, project_id);
    match pi_opt {
        None => {},
        Some(pi) => {
            let ghost before = projects@;
            let p = vec_mut(projects, pi);
            remove_todo_in(&mut p.todos, todo_id);
            proof {
                let new_elem = projects@[pi as int];
                assert(projects@ == before.update(pi as int, new_elem));
                lemma_views_projects_update(before, pi as int, new_elem);
                assert(views_of_projects(projects@) =~= spec_remove_todo(
                    ps0,
                    project_id,
                    todo_id,
                ));
            }
        },
    }
}

/// The todo list with every completed todo removed; the remaining todos keep
/// their relative order.
pub open spec fn spec_clear_in_todos(ts: Seq<TodoView>) -> Seq<TodoView>
    decreases ts.len(),
{
    if ts.len() == 0 {
        Seq::empty()
    } else {
        let rest = spec_clear_in_todos(ts.drop_last());
        if ts.last().completed {
            rest
        } else {
            rest.push(ts.last())
        }
    }
}

/// The collection after clearing one project's completed todos.
pub open spec fn spec_clear_completed(ps: Seq<ProjectView>, pid: u64) -> Seq<ProjectView> {
    let pi = spec_find_project(ps, pid);
    if pi == -1 {
        ps
    } else {
        ps.update(pi, ProjectView { todos: spec_clear_in_todos(ps[pi].todos), ..ps[pi] })
    }
}

fn clear_completed_in(todos: &mut Vec<Todo>)
    ensures
        views_of_todos(final(todos)@) == spec_clear_in_todos(views_of_todos(old(todos)@)),
{
    let ghost ts0 = views_of_todos(old(todos)@);
    let mut result: Vec<Todo> = Vec::new();
    let mut i: usize = 0;
    while i < todos.len()
        invariant
            todos@ == old(todos)@,
            ts0 == views_of_todos(todos@),
            0 <= i <= todos@.len(),
            views_of_todos(result@) == spec_clear_in_todos(ts0.take(i as int)),
        decreases todos.len() - i,
    {
        proof {
            assert(ts0.take(i + 1).drop_last() =~= ts0.take(i as int));
            assert(ts0.take(i + 1).last() == ts0[i as int]);
        }
        if !todos[i].completed {
            let c = todos[i].clone();
            proof {
                lemma_views_todos_push(result@, c);
            }
            result.push(c);
        }
        i = i + 1;
    }
    proof {
        assert(ts0.take(ts0.len() as int) =~= ts0);
    }
    *todos = result;
}

/// Removes exactly the todos with `completed == true` from the addressed
/// project, keeping the relative order of the remaining todos.
pub fn clear_completed(projects: &mut Vec<Project>, project_id: u64)
    ensures
        views_of_projects(final(projects)@) == spec_clear_completed(
            views_of_projects(old(projects)@),
            project_id,
        ),
{
    let ghost ps0 = views_of_projects(old(projects)@);
    let pi_opt = find_project_idx(projects, project_id);
    match pi_opt {
        None => {},
        Some(pi) => {
            let ghost before = projects@;
            let p = vec_mut(projects, pi);
            clear_completed_in(&mut p.todos);
            proof {
                let new_elem = projects@[pi as int];
                assert(projects@ == before.update(pi as int, new_elem));
                lemma_views_projects_update(before, pi as int, new_elem);
                assert(views_of_projects(projects@) =~= spec_clear_completed(ps0, project_id));
            }
        },
    }
}

/// The view of a freshly created todo: the allocated id, the trimmed title,
/// not completed, no subtasks, empty description.
pub open spec fn spec_new_todo(id: u64, title: Seq<char>) -> TodoView {
    TodoView {
        id,
        title,
        completed: false,
        subtasks: Seq::empty(),
        description: Seq::empty(),
    }
}

/// The collection after adding a todo with the given allocated id; unchanged
/// when the trimmed title is empty or the project is missing.
pub open spec fn spec_add_todo(
    ps: Seq<ProjectView>,
    pid: u64,
    title: Seq<char>,
    id: u64,
) -> Seq<ProjectView> {
    let trimmed = spec_trim(title);
    let pi = spec_find_project(ps, pid);
    if trimmed.len() == 0 || pi == -1 {
        ps
    } else {
        ps.update(
            pi,
            ProjectView { todos: ps[pi].todos.push(spec_new_todo(id, trimmed)), ..ps[pi] },
        )
    }
}

/// Whether `spec_add_todo` actually appends a todo.
pub open spec fn spec_add_todo_applies(ps: Seq<ProjectView>, pid: u64, title: Seq<char>) -> bool {
    spec_trim(title).len() > 0 && spec_find_project(ps, pid) != -1
}

/// Adds a todo with the trimmed title to the end of the addressed project's
/// list and advances the id counter; rejects blank titles and missing
/// projects by leaving everything unchanged. Returns the created todo.
pub fn add_todo(
    projects: &mut Vec<Project>,
    project_id: u64,
    title: &str,
    next_id: &mut u64,
) -> (added: Option<Todo>)
    requires
        spec_add_todo_applies(views_of_projects(old(projects)@), project_id, title@) ==> *old(
            next_id,
        ) < u64::MAX,
    ensures
        views_of_projects(final(projects)@) == spec_add_todo(
            views_of_projects(old(projects)@),
            project_id,
            title@,
            *old(next_id),
        ),
        spec_add_todo_applies(views_of_projects(old(projects)@), project_id, title@) ==> {
            &&& *final(next_id) == *old(next_id) + 1
            &&& added matches Some(t) && t@ == spec_new_todo(*old(next_id), spec_trim(title@))
        },
        !spec_add_todo_applies(views_of_projects(old(projects)@), project_id, title@) ==> {
            &&& *final(next_id) == *old(next_id)
            &&& added is None
        },
{
    let ghost ps0 = views_of_projects(old(projects)@);
    let trimmed = trim_str(title);
    if trimmed.as_str().is_empty() {
        return None;
    }
    let pi_opt = find_project_idx(projects, project_id);
    match pi_opt {
        None => None,
        Some(pi) => {
            let id = *next_id;
            *next_id = id + 1;
            let todo = Todo {
                id,
                title: trimmed,
                completed: false,
                subtasks: Vec::new(),
                description: String::new(),
            };
            let copy = todo.clone();
            let ghost before = projects@;
            let p = vec_mut(projects, pi);
            proof {
                lemma_views_todos_push(p.todos@, todo);
                assert(todo@ == spec_new_todo(id, spec_trim(title@)));
            }
            p.todos.push(todo);
            proof {
                let new_elem = projects@[pi as int];
                assert(projects@ == before.update(pi as int, new_elem));
                lemma_views_projects_update(before, pi as int, new_elem);
                assert(views_of_projects(projects@) =~= spec_add_todo(
                    ps0,
                    project_id,
                    title@,
                    id,
                ));
            }
            Some(copy)
        },
    }
}

/// The largest project id in the collection, or 0 when it is empty.
pub open spec fn spec_max_project_id(ps: Seq<ProjectView>) -> u64
    decreases ps.len(),
{
    if ps.len() == 0 {
        0u64
    } else {
        let rest = spec_max_project_id(ps.drop_last());
        if ps.last().id >= rest {
            ps.last().id
        } else {
            rest
        }
    }
}

/// Whether `spec_add_project` actually appends a project.
pub open spec fn spec_add_project_applies(name: Seq<char>) -> bool {
    spec_trim(name).len() > 0
}

/// The collection after creating a project with the given name: the id is one
/// above the largest existing project id, and the todo list starts empty.
pub open spec fn spec_add_project(ps: Seq<ProjectView>, name: Seq<char>) -> Seq<ProjectView> {
    if !spec_add_project_applies(name) {
        ps
    } else {
        ps.push(
            ProjectView {
                id: (spec_max_project_id(ps) + 1) as u64,
                name: spec_trim(name),
                todos: Seq::empty(),
            },
        )
    }
}

/// Creates a project named by the trimmed input and returns its id; rejects a
/// blank name by leaving the collection unchanged.
pub fn add_project(projects: &mut Vec<Project>, name: &str) -> (r: Option<u64>)
    requires
        spec_add_project_applies(name@) ==> spec_max_project_id(views_of_projects(old(projects)@))
            < u64::MAX,
    ensures
        views_of_projects(final(projects)@) == spec_add_project(
            views_of_projects(old(projects)@),
            name@,
        ),
        spec_add_project_applies(name@) ==> r == Some(
            (spec_max_project_id(views_of_projects(old(projects)@)) + 1) as u64,
        ),
        !spec_add_project_applies(name@) ==> r is None,
{
    let ghost ps0 = views_of_projects(old(projects)@);
    let trimmed = trim_str(name);
    if trimmed.as_str().is_empty() {
        return None;
    }
    let mut max_id: u64 = 0;
    let mut i: usize = 0;
    while i < projects.len()
        invariant
            projects@ == old(projects)@,
            ps0 == views_of_projects(projects@),
            0 <= i <= projects@.len(),
            max_id == spec_max_project_id(ps0.take(i as int)),
        decreases projects.len() - i,
    {
        proof {
            assert(ps0.take(i + 1).drop_last() =~= ps0.take(i as int));
            assert(ps0.take(i + 1).last() == ps0[i as int]);
        }
        if projects[i].id >= max_id {
            max_id = projects[i].id;
        }
        i = i + 1;
    }
    proof {
        assert(ps0.take(ps0.len() as int) =~= ps0);
    }
    let new_id = max_id + 1;
    let p = Project { id: new_id, name: trimmed, todos: Vec::new() };
    proof {
        lemma_views_projects_push(projects@, p);
        assert(views_of_todos(p.todos@) =~= Seq::<TodoView>::empty());
        assert(p@ == ProjectView {
            id: new_id,
            name: spec_trim(name@),
            todos: Seq::<TodoView>::empty(),
        });
    }
    projects.push(p);
    proof {
        assert(views_of_projects(projects@) =~= spec_add_project(ps0, name@));
    }
    Some(new_id)
}

/// Whether a todo passes the given display filter.
pub open spec fn spec_keep_todo(t: TodoView, f: Filter) -> bool {
    match f {
        Filter::All => true,
        Filter::Active => !t.completed,
        Filter::Completed => t.completed,
    }
}

/// The subsequence of todos the filter shows, in their original order.
pub open spec fn spec_visible(ts: Seq<TodoView>, f: Filter) -> Seq<TodoView>
    decreases ts.len(),
{
    if ts.len() == 0 {
        Seq::empty()
    } else {
        let rest = spec_visible(ts.drop_last(), f);
        if spec_keep_todo(ts.last(), f) {
            rest.push(ts.last())
        } else {
            rest
        }
    }
}

/// The todos the filter shows: all of them for `All`, exactly the incomplete
/// ones for `Active`, exactly the completed ones for `Completed`, each in the
/// original relative order.
pub fn visible(todos: &Vec<Todo>, filter: Filter) -> (r: Vec<Todo>)
    ensures
        views_of_todos(r@) == spec_visible(views_of_todos(todos@), filter),
{
    let ghost ts0 = views_of_todos(todos@);
    let mut result: Vec<Todo> = Vec::new();
    let mut i: usize = 0;
    while i < todos.len()
        invariant
            ts0 == views_of_todos(todos@),
            0 <= i <= todos@.len(),
            views_of_todos(result@) == spec_visible(ts0.take(i as int), filter),
        decreases todos.len() - i,
    {
        proof {
            assert(ts0.take(i + 1).drop_last() =~= ts0.take(i as int));
            assert(ts0.take(i + 1).last() == ts0[i as int]);
        }
        let keep = match filter {
            Filter::All => true,
            Filter::Active => !todos[i].completed,
            Filter::Completed => todos[i].completed,
        };
        if keep {
            let c = todos[i].clone();
            proof {
                lemma_views_todos_push(result@, c);
            }
            result.push(c);
        }
        i = i + 1;
    }
    proof {
        assert(ts0.take(ts0.len() as int) =~= ts0);
    }
    result
}

/// How many todos the filter shows; the count the header badge displays.
pub fn count_visible(todos: &Vec<Todo>, filter: Filter) -> (r: usize)
    ensures
        r == spec_visible(views_of_todos(todos@), filter).len(),
{
    let ghost ts0 = views_of_todos(todos@);
    let mut count: usize = 0;
    let mut i: usize = 0;
    while i < todos.len()
        invariant
            ts0 == views_of_todos(todos@),
            0 <= i <= todos@.len(),
            count <= i,
            count == spec_visible(ts0.take(i as int), filter).len(),
        decreases todos.len() - i,
    {
        proof {
            assert(ts0.take(i + 1).drop_last() =~= ts0.take(i as int));
            assert(ts0.take(i + 1).last() == ts0[i as int]);
        }
        let keep = match filter {
            Filter::All => true,
            Filter::Active => !todos[i].completed,
            Filter::Completed => todos[i].completed,
        };
        if keep {
            count = count + 1;
        }
        i = i + 1;
    }
    proof {
        assert(ts0.take(ts0.len() as int) =~= ts0);
    }
    count
}

/// The filter never shows more todos than there are.
pub proof fn lemma_visible_len(ts: Seq<TodoView>, f: Filter)
    ensures
        spec_visible(ts, f).len() <= ts.len(),
    decreases ts.len(),
{
    if ts.len() > 0 {
        lemma_visible_len(ts.drop_last(), f);
    }
}

/// The largest todo id within one todo list, or 0 when it is empty.
pub open spec fn spec_max_todo_id_in(ts: Seq<TodoView>) -> u64
    decreases ts.len(),
{
    if ts.len() == 0 {
        0u64
    } else {
        let rest = spec_max_todo_id_in(ts.drop_last());
        if ts.last().id >= rest {
            ts.last().id
        } else {
            rest
        }
    }
}

/// The largest todo id across every project, or 0 when there are none.
pub open spec fn spec_max_todo_id(ps: Seq<ProjectView>) -> u64
    decreases ps.len(),
{
    if ps.len() == 0 {
        0u64
    } else {
        let rest = spec_max_todo_id(ps.drop_last());
        let here = spec_max_todo_id_in(ps.last().todos);
        if here >= rest {
            here
        } else {
            rest
        }
    }
}

fn max_todo_id_in(todos: &Vec<Todo>) -> (r: u64)
    ensures
        r == spec_max_todo_id_in(views_of_todos(todos@)),
{
    let ghost ts0 = views_of_todos(todos@);
    let mut max_id: u64 = 0;
    let mut i: usize = 0;
    while i < todos.len()
        invariant
            ts0 == views_of_todos(todos@),
            0 <= i <= todos@.len(),
            max_id == spec_max_todo_id_in(ts0.take(i as int)),
        decreases todos.len() - i,
    {
        proof {
            assert(ts0.take(i + 1).drop_last() =~= ts0.take(i as int));
            assert(ts0.take(i + 1).last() == ts0[i as int]);
        }
        if todos[i].id >= max_id {
            max_id = todos[i].id;
        }
        i = i + 1;
    }
    proof {
        assert(ts0.take(ts0.len() as int) =~= ts0);
    }
    max_id
}

/// The id the session's counter starts at after a load: one above the largest
/// todo id found anywhere in the collection, or 1 when there are no todos.
pub fn next_todo_id(projects: &Vec<Project>) -> (r: u64)
    requires
        spec_max_todo_id(views_of_projects(projects@)) < u64::MAX,
    ensures
        r == spec_max_todo_id(views_of_projects(projects@)) + 1,
{
    let ghost ps0 = views_of_projects(projects@);
    let mut max_id: u64 = 0;
    let mut i: usize = 0;
    while i < projects.len()
        invariant
            ps0 == views_of_projects(projects@),
            0 <= i <= projects@.len(),
            max_id == spec_max_todo_id(ps0.take(i as int)),
        decreases projects.len() - i,
    {
        proof {
            assert(ps0.take(i + 1).drop_last() =~= ps0.take(i as int));
            assert(ps0.take(i + 1).last() == ps0[i as int]);
        }
        let here = max_todo_id_in(&projects[i].todos);
        if here >= max_id {
            max_id = here;
        }
        i = i + 1;
    }
    proof {
        assert(ps0.take(ps0.len() as int) =~= ps0);
    }
    max_id + 1
}

/// The ids of a todo list, in order.
pub open spec fn todo_ids(ts: Seq<TodoView>) -> Seq<u64> {
    ts.map_values(|t: TodoView| t.id)
}

proof fn lemma_to_multiset_insert<A>(s: Seq<A>, i: int, a: A)
    requires
        0 <= i <= s.len(),
    ensures
        s.insert(i, a).to_multiset() =~= s.to_multiset().insert(a),
{
    broadcast use vstd::multiset::group_multiset_axioms;
    broadcast use vstd::seq_lib::group_to_multiset_ensures;

    let l = s.subrange(0, i);
    let r = s.subrange(i, s.len() as int);
    assert(s.insert(i, a) == l.push(a) + r);
    vstd::seq_lib::lemma_multiset_commutative(l.push(a), r);
    assert(s =~= l + r);
    vstd::seq_lib::lemma_multiset_commutative(l, r);
    assert(l.push(a).to_multiset() =~= l.to_multiset().insert(a));
}

/// The todo list after a drag ends on another todo: the dragged todo leaves
/// its position and lands where the drop target stood, the computation the
/// drop handler performs. No change when the ids coincide or either is
/// missing.
pub open spec fn spec_reorder_in_todos(ts: Seq<TodoView>, src: u64, dst: u64) -> Seq<TodoView> {
    if src == dst {
        ts
    } else {
        let si = spec_find_todo(ts, src);
        let di = spec_find_todo(ts, dst);
        if si == -1 || di == -1 {
            ts
        } else {
            let item = ts[si];
            let ins = if si < di {
                di - 1
            } else {
                di
            };
            ts.remove(si).insert(ins, item)
        }
    }
}

/// The collection after reordering one project's todos by drag and drop.
pub open spec fn spec_reorder_todo(ps: Seq<ProjectView>, pid: u64, src: u64, dst: u64) -> Seq<
    ProjectView,
> {
    let pi = spec_find_project(ps, pid);
    if pi == -1 {
        ps
    } else {
        ps.update(pi, ProjectView { todos: spec_reorder_in_todos(ps[pi].todos, src, dst), ..ps[pi] })
    }
}

fn reorder_todo_in(todos: &mut Vec<Todo>, src_id: u64, dst_id: u64)
    ensures
        views_of_todos(final(todos)@) == spec_reorder_in_todos(
            views_of_todos(old(todos)@),
            src_id,
            dst_id,
        ),
        todo_ids(views_of_todos(final(todos)@)).to_multiset() == todo_ids(
            views_of_todos(old(todos)@),
        ).to_multiset(),
{
    broadcast use vstd::multiset::group_multiset_axioms;
    broadcast use vstd::seq_lib::group_to_multiset_ensures;

    let ghost ts0 = views_of_todos(old(todos)@);
    if src_id == dst_id {
        return ;
    }
    let si_opt = find_todo_idx(todos, src_id);
    let Some(si) = si_opt else { return };
    let di_opt = find_todo_idx(todos, dst_id);
    let Some(di) = di_opt else { return };
    proof {
        assert(ts0[si as int].id == src_id && ts0[di as int].id == dst_id);
        assert(si != di);
    }
    let ghost before = todos@;
    let item = todos.remove(si);
    let ins: usize = if si < di {
        di - 1
    } else {
        di
    };
    todos.insert(ins, item);
    proof {
        let removed = ts0.remove(si as int);
        assert(views_of_todos(before.remove(si as int)) =~= removed);
        assert(views_of_todos(before.remove(si as int).insert(ins as int, item)) =~= removed.insert(
            ins as int,
            item@,
        ));
        assert(views_of_todos(todos@) =~= spec_reorder_in_todos(ts0, src_id, dst_id));
        // the ids form the same multiset before and after
        let ids0 = todo_ids(ts0);
        assert(todo_ids(removed) =~= ids0.remove(si as int));
        assert(todo_ids(removed.insert(ins as int, item@)) =~= todo_ids(removed).insert(
            ins as int,
            item@.id,
        ));
        assert(ids0.remove(si as int).to_multiset() =~= ids0.to_multiset().remove(
            ids0[si as int],
        ));
        lemma_to_multiset_insert(ids0.remove(si as int), ins as int, item@.id);
        assert(ids0.contains(ids0[si as int]));
        assert(ids0.to_multiset().count(ids0[si as int]) > 0);
        assert(ids0.to_multiset().remove(ids0[si as int]).insert(ids0[si as int])
            =~= ids0.to_multiset());
        assert(todo_ids(views_of_todos(todos@)).to_multiset() == ids0.to_multiset());
    }
}

/// Moves the dragged todo to the drop target's position within the addressed
/// project. The result is a permutation: each project keeps the same multiset
/// of todo ids, and dropping a todo on itself changes nothing.
pub fn reorder_todo(projects: &mut Vec<Project>, project_id: u64, src_id: u64, dst_id: u64)
    ensures
        views_of_projects(final(projects)@) == spec_reorder_todo(
            views_of_projects(old(projects)@),
            project_id,
            src_id,
            dst_id,
        ),
        src_id == dst_id ==> views_of_projects(final(projects)@) == views_of_projects(
            old(projects)@,
        ),
        final(projects)@.len() == old(projects)@.len(),
        forall|k: int|
            0 <= k < old(projects)@.len() ==> todo_ids(
                #[trigger] views_of_projects(final(projects)@)[k].todos,
            ).to_multiset() == todo_ids(views_of_projects(old(projects)@)[k].todos).to_multiset(),
{
    let ghost ps0 = views_of_projects(old(projects)@);
    let pi_opt = find_project_idx(projects, project_id);
    match pi_opt {
        None => {},
        Some(pi) => {
            let ghost before = projects@;
            let p = vec_mut(projects, pi);
            reorder_todo_in(&mut p.todos, src_id, dst_id);
            proof {
                let new_elem = projects@[pi as int];
                assert(projects@ == before.update(pi as int, new_elem));
                lemma_views_projects_update(before, pi as int, new_elem);
                assert(views_of_projects(projects@) =~= spec_reorder_todo(
                    ps0,
                    project_id,
                    src_id,
                    dst_id,
                ));
                if src_id == dst_id {
                    assert(views_of_projects(projects@) =~= ps0);
                }
            }
        },
    }
}

/// Whether every subtask in the list is completed.
pub open spec fn spec_all_completed(ss: Seq<SubtaskView>) -> bool {
    forall|k: int| 0 <= k < ss.len() ==> ss[k].completed
}

fn all_subtasks_completed(subtasks: &Vec<Subtask>) -> (r: bool)
    ensures
        r == spec_all_completed(views_of_subtasks(subtasks@)),
{
    let ghost vs = views_of_subtasks(subtasks@);
    let mut i: usize = 0;
    while i < subtasks.len()
        invariant
            vs == views_of_subtasks(subtasks@),
            0 <= i <= subtasks@.len(),
            forall|k: int| 0 <= k < i ==> vs[k].completed,
        decreases subtasks.len() - i,
    {
        if !subtasks[i].completed {
            proof {
                assert(!vs[i as int].completed);
            }
            return false;
        }
        i = i + 1;
    }
    true
}

/// The largest subtask id within one todo, or 0 when there are none.
pub open spec fn spec_max_subtask_id(ss: Seq<SubtaskView>) -> u64
    decreases ss.len(),
{
    if ss.len() == 0 {
        0u64
    } else {
        let rest = spec_max_subtask_id(ss.drop_last());
        if ss.last().id >= rest {
            ss.last().id
        } else {
            rest
        }
    }
}

fn max_subtask_id(subtasks: &Vec<Subtask>) -> (r: u64)
    ensures
        r == spec_max_subtask_id(views_of_subtasks(subtasks@)),
{
    let ghost vs = views_of_subtasks(subtasks@);
    let mut max_id: u64 = 0;
    let mut i: usize = 0;
    while i < subtasks.len()
        invariant
            vs == views_of_subtasks(subtasks@),
            0 <= i <= subtasks@.len(),
            max_id == spec_max_subtask_id(vs.take(i as int)),
        decreases subtasks.len() - i,
    {
        proof {
            assert(vs.take(i + 1).drop_last() =~= vs.take(i as int));
            assert(vs.take(i + 1).last() == vs[i as int]);
        }
        if subtasks[i].id >= max_id {
            max_id = subtasks[i].id;
        }
        i = i + 1;
    }
    proof {
        assert(vs.take(vs.len() as int) =~= vs);
    }
    max_id
}

/// The subtasks of the addressed todo, or the empty sequence when the project
/// or todo is missing; used to state the id-allocation limit.
pub open spec fn spec_target_subtasks(ps: Seq<ProjectView>, pid: u64, tid: u64) -> Seq<
    SubtaskView,
> {
    let pi = spec_find_project(ps, pid);
    if pi == -1 {
        Seq::empty()
    } else {
        let ti = spec_find_todo(ps[pi].todos, tid);
        if ti == -1 {
            Seq::empty()
        } else {
            ps[pi].todos[ti].subtasks
        }
    }
}

/// Whether `spec_add_subtask` actually appends a subtask.
pub open spec fn spec_add_subtask_applies(
    ps: Seq<ProjectView>,
    pid: u64,
    tid: u64,
    title: Seq<char>,
) -> bool {
    let pi = spec_find_project(ps, pid);
    &&& spec_trim(title).len() > 0
    &&& pi != -1
    &&& spec_find_todo(ps[pi].todos, tid) != -1
}

/// The todo after a subtask is appended: the subtask id is one above the
/// largest existing subtask id (1 when there are none), the new subtask is
/// incomplete, and the todo itself drops back to not completed.
pub open spec fn spec_add_subtask_todo(t: TodoView, title: Seq<char>) -> TodoView {
    let sid = (spec_max_subtask_id(t.subtasks) + 1) as u64;
    TodoView {
        completed: false,
        subtasks: t.subtasks.push(SubtaskView { id: sid, title, completed: false }),
        ..t
    }
}

/// The collection after adding a subtask to the addressed todo; unchanged
/// when the trimmed title is blank or the project or todo is missing.
pub open spec fn spec_add_subtask(
    ps: Seq<ProjectView>,
    pid: u64,
    tid: u64,
    title: Seq<char>,
) -> Seq<ProjectView> {
    if !spec_add_subtask_applies(ps, pid, tid, title) {
        ps
    } else {
        let pi = spec_find_project(ps, pid);
        let ti = spec_find_todo(ps[pi].todos, tid);
        ps.update(
            pi,
            ProjectView {
                todos: ps[pi].todos.update(
                    ti,
                    spec_add_subtask_todo(ps[pi].todos[ti], spec_trim(title)),
                ),
                ..ps[pi]
            },
        )
    }
}

fn add_subtask_in(todos: &mut Vec<Todo>, todo_id: u64, trimmed: String) -> (added: bool)
    requires
        trimmed@.len() > 0,
        spec_find_todo(views_of_todos(old(todos)@), todo_id) != -1 ==> spec_max_subtask_id(
            views_of_todos(old(todos)@)[spec_find_todo(
                views_of_todos(old(todos)@),
                todo_id,
            )].subtasks,
        ) < u64::MAX,
    ensures
        ({
            let ts0 = views_of_todos(old(todos)@);
            let ti = spec_find_todo(ts0, todo_id);
            if ti == -1 {
                views_of_todos(final(todos)@) == ts0 && !added
            } else {
                views_of_todos(final(todos)@) == ts0.update(
                    ti,
                    spec_add_subtask_todo(ts0[ti], trimmed@),
                ) && added
            }
        }),
{
    let ghost ts0 = views_of_todos(old(todos)@);
    let ti_opt = find_todo_idx(todos, todo_id);
    match ti_opt {
        None => false,
        Some(ti) => {
            let ghost before = todos@;
            let t = vec_mut(todos, ti);
            let sid = max_subtask_id(&t.subtasks) + 1;
            let st = Subtask { id: sid, title: trimmed, completed: false };
            proof {
                lemma_views_subtasks_push(t.subtasks@, st);
            }
            t.subtasks.push(st);
            t.completed = false;
            proof {
                let new_elem = todos@[ti as int];
                assert(todos@ == before.update(ti as int, new_elem));
                assert(new_elem@ == spec_add_subtask_todo(ts0[ti as int], st.title@));
                lemma_views_todos_update(before, ti as int, new_elem);
                assert(views_of_todos(todos@) =~= ts0.update(
                    ti as int,
                    spec_add_subtask_todo(ts0[ti as int], st.title@),
                ));
            }
            true
        },
    }
}

/// Adds an incomplete subtask with the trimmed title to the addressed todo,
/// allocating its id as one above the todo's largest subtask id, and forces
/// the todo back to not completed. Afterwards the todo's flag again equals
/// the conjunction of its subtask flags. Blank titles and missing ids leave
/// everything unchanged.
pub fn add_subtask(
    projects: &mut Vec<Project>,
    project_id: u64,
    todo_id: u64,
    title: &str,
) -> (added: bool)
    requires
        spec_add_subtask_applies(
            views_of_projects(old(projects)@),
            project_id,
            todo_id,
            title@,
        ) ==> spec_max_subtask_id(
            spec_target_subtasks(views_of_projects(old(projects)@), project_id, todo_id),
        ) < u64::MAX,
    ensures
        views_of_projects(final(projects)@) == spec_add_subtask(
            views_of_projects(old(projects)@),
            project_id,
            todo_id,
            title@,
        ),
        added == spec_add_subtask_applies(
            views_of_projects(old(projects)@),
            project_id,
            todo_id,
            title@,
        ),
        added ==> ({
            let ps0 = views_of_projects(old(projects)@);
            let pi = spec_find_project(ps0, project_id);
            pi != -1 ==> ({
                let ti = spec_find_todo(ps0[pi].todos, todo_id);
                ti != -1 ==> ({
                    let nt = views_of_projects(final(projects)@)[pi].todos[ti];
                    &&& !nt.completed
                    &&& nt.subtasks.len() > 0
                    &&& nt.completed == spec_all_completed(nt.subtasks)
                })
            })
        }),
{
    let ghost ps0 = views_of_projects(old(projects)@);
    let trimmed = trim_str(title);
    if trimmed.as_str().is_empty() {
        return false;
    }
    let pi_opt = find_project_idx(projects, project_id);
    match pi_opt {
        None => false,
        Some(pi) => {
            let ghost before = projects@;
            let p = vec_mut(projects, pi);
            let added = add_subtask_in(&mut p.todos, todo_id, trimmed);
            proof {
                let new_elem = projects@[pi as int];
                assert(projects@ == before.update(pi as int, new_elem));
                lemma_views_projects_update(before, pi as int, new_elem);
                assert(views_of_projects(projects@) =~= spec_add_subtask(
                    ps0,
                    project_id,
                    todo_id,
                    title@,
                ));
                if added {
                    assert(ps0[pi as int] == before[pi as int]@);
                    assert(views_of_todos(before[pi as int].todos@) == ps0[pi as int].todos);
                    lemma_find_todo_bounds(ps0[pi as int].todos, todo_id);
                    let ti = spec_find_todo(ps0[pi as int].todos, todo_id);
                    assert(ti != -1);
                    assert(spec_add_subtask_applies(ps0, project_id, todo_id, title@));
                    let nt = spec_add_subtask_todo(ps0[pi as int].todos[ti], spec_trim(title@));
                    assert(views_of_projects(projects@)[pi as int].todos[ti] == nt);
                    assert(nt.subtasks.len() > 0);
                    assert(!nt.subtasks[nt.subtasks.len() - 1].completed);
                    assert(!spec_all_completed(nt.subtasks));
                }
            }
            added
        },
    }
}

/// The todo after one subtask toggle: the addressed subtask's flag flips, and
/// if the todo still has subtasks its own flag is recomputed as the
/// conjunction of all subtask flags.
pub open spec fn spec_toggle_subtask_todo(t: TodoView, sid: u64) -> TodoView {
    let si = spec_find_subtask(t.subtasks, sid);
    let ss = if si == -1 {
        t.subtasks
    } else {
        t.subtasks.update(si, SubtaskView { completed: !t.subtasks[si].completed, ..t.subtasks[si] })
    };
    let c = if ss.len() > 0 {
        spec_all_completed(ss)
    } else {
        t.completed
    };
    TodoView { subtasks: ss, completed: c, ..t }
}

/// The collection after toggling one subtask of the addressed todo.
pub open spec fn spec_toggle_subtask(
    ps: Seq<ProjectView>,
    pid: u64,
    tid: u64,
    sid: u64,
) -> Seq<ProjectView> {
    let pi = spec_find_project(ps, pid);
    if pi == -1 {
        ps
    } else {
        let ti = spec_find_todo(ps[pi].todos, tid);
        if ti == -1 {
            ps
        } else {
            ps.update(
                pi,
                ProjectView {
                    todos: ps[pi].todos.update(
                        ti,
                        spec_toggle_subtask_todo(ps[pi].todos[ti], sid),
                    ),
                    ..ps[pi]
                },
            )
        }
    }
}

fn toggle_subtask_in(todos: &mut Vec<Todo>, todo_id: u64, subtask_id: u64)
    ensures
        ({
            let ts0 = views_of_todos(old(todos)@);
            let ti = spec_find_todo(ts0, todo_id);
            if ti == -1 {
                views_of_todos(final(todos)@) == ts0
            } else {
                views_of_todos(final(todos)@) == ts0.update(
                    ti,
                    spec_toggle_subtask_todo(ts0[ti], subtask_id),
                )
            }
        }),
{
    let ghost ts0 = views_of_todos(old(todos)@);
    let ti_opt = find_todo_idx(todos, todo_id);
    match ti_opt {
        None => {},
        Some(ti) => {
            let ghost before = todos@;
            let t = vec_mut(todos, ti);
            let si_opt = find_subtask_idx(&t.subtasks, subtask_id);
            let ghost subs0 = t.subtasks@;
            match si_opt {
                None => {},
                Some(si) => {
                    let ghost before_subs = t.subtasks@;
                    let st = vec_mut(&mut t.subtasks, si);
                    st.completed = !st.completed;
                    proof {
                        let new_sub = t.subtasks@[si as int];
                        assert(t.subtasks@ == before_subs.update(si as int, new_sub));
                        lemma_views_subtasks_update(before_subs, si as int, new_sub);
                    }
                },
            }
            if !t.subtasks.is_empty() {
                let a = all_subtasks_completed(&t.subtasks);
                t.completed = a;
            }
            proof {
                let new_elem = todos@[ti as int];
                assert(todos@ == before.update(ti as int, new_elem));
                assert(new_elem@.subtasks =~= spec_toggle_subtask_todo(
                    ts0[ti as int],
                    subtask_id,
                ).subtasks);
                assert(new_elem@ == spec_toggle_subtask_todo(ts0[ti as int], subtask_id));
                lemma_views_todos_update(before, ti as int, new_elem);
                assert(views_of_todos(todos@) =~= ts0.update(
                    ti as int,
                    spec_toggle_subtask_todo(ts0[ti as int], subtask_id),
                ));
            }
        },
    }
}

/// Flips one subtask's completion flag and, while the todo has any subtasks,
/// recomputes the todo's own flag as the conjunction of its subtask flags;
/// missing ids leave everything unchanged.
pub fn toggle_subtask(projects: &mut Vec<Project>, project_id: u64, todo_id: u64, subtask_id: u64)
    ensures
        views_of_projects(final(projects)@) == spec_toggle_subtask(
            views_of_projects(old(projects)@),
            project_id,
            todo_id,
            subtask_id,
        ),
        ({
            let ps0 = views_of_projects(old(projects)@);
            let pi = spec_find_project(ps0, project_id);
            pi != -1 ==> ({
                let ti = spec_find_todo(ps0[pi].todos, todo_id);
                ti != -1 ==> ({
                    let nt = views_of_projects(final(projects)@)[pi].todos[ti];
                    nt.subtasks.len() > 0 ==> nt.completed == spec_all_completed(nt.subtasks)
                })
            })
        }),
{
    let ghost ps0 = views_of_projects(old(projects)@);
    let pi_opt = find_project_idx(projects, project_id);
    match pi_opt {
        None => {},
        Some(pi) => {
            let ghost before = projects@;
            let p = vec_mut(projects, pi);
            toggle_subtask_in(&mut p.todos, todo_id, subtask_id);
            proof {
                let new_elem = projects@[pi as int];
                assert(projects@ == before.update(pi as int, new_elem));
                lemma_views_projects_update(before, pi as int, new_elem);
                assert(views_of_projects(projects@) =~= spec_toggle_subtask(
                    ps0,
                    project_id,
                    todo_id,
                    subtask_id,
                ));
                assert(ps0[pi as int] == before[pi as int]@);
                assert(views_of_todos(before[pi as int].todos@) == ps0[pi as int].todos);
                lemma_find_todo_bounds(ps0[pi as int].todos, todo_id);
                if spec_find_todo(ps0[pi as int].todos, todo_id) != -1 {
                    let ti = spec_find_todo(ps0[pi as int].todos, todo_id);
                    let nt = spec_toggle_subtask_todo(ps0[pi as int].todos[ti], subtask_id);
                    assert(views_of_projects(projects@)[pi as int].todos[ti] == nt);
                }
            }
        },
    }
}

/// The subtask list with every subtask of the given id removed.
pub open spec fn spec_remove_in_subtasks(ss: Seq<SubtaskView>, sid: u64) -> Seq<SubtaskView>
    decreases ss.len(),
{
    if ss.len() == 0 {
        Seq::empty()
    } else {
        let rest = spec_remove_in_subtasks(ss.drop_last(), sid);
        if ss.last().id == sid {
            rest
        } else {
            rest.push(ss.last())
        }
    }
}

/// The todo after removing one subtask: if subtasks remain the todo's flag is
/// recomputed as their conjunction; removing the last subtask leaves the flag
/// as it was.
pub open spec fn spec_remove_subtask_todo(t: TodoView, sid: u64) -> TodoView {
    let ss = spec_remove_in_subtasks(t.subtasks, sid);
    let c = if ss.len() > 0 {
        spec_all_completed(ss)
    } else {
        t.completed
    };
    TodoView { subtasks: ss, completed: c, ..t }
}

/// The collection after removing one subtask of the addressed todo.
pub open spec fn spec_remove_subtask(
    ps: Seq<ProjectView>,
    pid: u64,
    tid: u64,
    sid: u64,
) -> Seq<ProjectView> {
    let pi = spec_find_project(ps, pid);
    if pi == -1 {
        ps
    } else {
        let ti = spec_find_todo(ps[pi].todos, tid);
        if ti == -1 {
            ps
        } else {
            ps.update(
                pi,
                ProjectView {
                    todos: ps[pi].todos.update(
                        ti,
                        spec_remove_subtask_todo(ps[pi].todos[ti], sid),
                    ),
                    ..ps[pi]
                },
            )
        }
    }
}

fn remove_subtasks_with_id(subtasks: &mut Vec<Subtask>, sid: u64)
    ensures
        views_of_subtasks(final(subtasks)@) == spec_remove_in_subtasks(
            views_of_subtasks(old(subtasks)@),
            sid,
        ),
{
    let ghost vs0 = views_of_subtasks(old(subtasks)@);
    let mut result: Vec<Subtask> = Vec::new();
    let mut i: usize = 0;
    while i < subtasks.len()
        invariant
            subtasks@ == old(subtasks)@,
            vs0 == views_of_subtasks(subtasks@),
            0 <= i <= subtasks@.len(),
            views_of_subtasks(result@) == spec_remove_in_subtasks(vs0.take(i as int), sid),
        decreases subtasks.len() - i,
    {
        proof {
            assert(vs0.take(i + 1).drop_last() =~= vs0.take(i as int));
            assert(vs0.take(i + 1).last() == vs0[i as int]);
        }
        if subtasks[i].id != sid {
            let c = subtasks[i].clone();
            proof {
                lemma_views_subtasks_push(result@, c);
            }
            result.push(c);
        }
        i = i + 1;
    }
    proof {
        assert(vs0.take(vs0.len() as int) =~= vs0);
    }
    *subtasks = result;
}

fn remove_subtask_in(todos: &mut Vec<Todo>, todo_id: u64, subtask_id: u64)
    ensures
        ({
            let ts0 = views_of_todos(old(todos)@);
            let ti = spec_find_todo(ts0, todo_id);
            if ti == -1 {
                views_of_todos(final(todos)@) == ts0
            } else {
                views_of_todos(final(todos)@) == ts0.update(
                    ti,
                    spec_remove_subtask_todo(ts0[ti], subtask_id),
                )
            }
        }),
{
    let ghost ts0 = views_of_todos(old(todos)@);
    let ti_opt = find_todo_idx(todos, todo_id);
    match ti_opt {
        None => {},
        Some(ti) => {
            let ghost before = todos@;
            let t = vec_mut(todos, ti);
            remove_subtasks_with_id(&mut t.subtasks, subtask_id);
            if !t.subtasks.is_empty() {
                let a = all_subtasks_completed(&t.subtasks);
                t.completed = a;
            }
            proof {
                let new_elem = todos@[ti as int];
                assert(todos@ == before.update(ti as int, new_elem));
                assert(new_elem@.subtasks =~= spec_remove_subtask_todo(
                    ts0[ti as int],
                    subtask_id,
                ).subtasks);
                assert(new_elem@ == spec_remove_subtask_todo(ts0[ti as int], subtask_id));
                lemma_views_todos_update(before, ti as int, new_elem);
                assert(views_of_todos(todos@) =~= ts0.update(
                    ti as int,
                    spec_remove_subtask_todo(ts0[ti as int], subtask_id),
                ));
            }
        },
    }
}

/// Removes one subtask; while subtasks remain the todo's flag is recomputed
/// as their conjunction, and removing the last subtask leaves the flag
/// unchanged rather than auto-completing the todo. Missing ids leave
/// everything unchanged.
pub fn remove_subtask(projects: &mut Vec<Project>, project_id: u64, todo_id: u64, subtask_id: u64)
    ensures
        views_of_projects(final(projects)@) == spec_remove_subtask(
            views_of_projects(old(projects)@),
            project_id,
            todo_id,
            subtask_id,
        ),
        ({
            let ps0 = views_of_projects(old(projects)@);
            let pi = spec_find_project(ps0, project_id);
            pi != -1 ==> ({
                let ti = spec_find_todo(ps0[pi].todos, todo_id);
                ti != -1 ==> ({
                    let nt = views_of_projects(final(projects)@)[pi].todos[ti];
                    nt.subtasks.len() > 0 ==> nt.completed == spec_all_completed(nt.subtasks)
                })
            })
        }),
{
    let ghost ps0 = views_of_projects(old(projects)@);
    let pi_opt = find_project_idx(projects, project_id);
    match pi_opt {
        None => {},
        Some(pi) => {
            let ghost before = projects@;
            let p = vec_mut(projects, pi);
            remove_subtask_in(&mut p.todos, todo_id, subtask_id);
            proof {
                let new_elem = projects@[pi as int];
                assert(projects@ == before.update(pi as int, new_elem));
                lemma_views_projects_update(before, pi as int, new_elem);
                assert(views_of_projects(projects@) =~= spec_remove_subtask(
                    ps0,
                    project_id,
                    todo_id,
                    subtask_id,
                ));
                assert(ps0[pi as int] == before[pi as int]@);
                assert(views_of_todos(before[pi as int].todos@) == ps0[pi as int].todos);
                lemma_find_todo_bounds(ps0[pi as int].todos, todo_id);
                if spec_find_todo(ps0[pi as int].todos, todo_id) != -1 {
                    let ti = spec_find_todo(ps0[pi as int].todos, todo_id);
                    let nt = spec_remove_subtask_todo(ps0[pi as int].todos[ti], subtask_id);
                    assert(views_of_projects(projects@)[pi as int].todos[ti] == nt);
                }
            }
        },
    }
}

} // verus!
