//! The persistence round trip over plain text: the application reads and
//! writes the files, this module decides what the texts mean. Loading
//! prefers the current per-project document, falls back once to the legacy
//! flat todo list by wrapping it into a single default project, and yields
//! an empty collection when neither text parses.

use vstd::prelude::*;

use crate::codec::{render_projects, render_projects_doc};
use crate::models::{views_of_projects, views_of_todos, Project, ProjectView, Todo, TodoView};
use crate::parse::{parse_projects, parse_todos, spec_parse_projects_doc, spec_parse_todos_doc};

verus! {

/// The single project a legacy todo list is wrapped into.
pub open spec fn spec_migrated(ts: Seq<TodoView>) -> Seq<ProjectView> {
    seq![ProjectView { id: 1u64, name: "Default Project"@, todos: ts }]
}

/// What a legacy file text alone yields: the todo list wrapped into one
/// `Default Project` when it parses, else nothing.
pub open spec fn spec_load_fallback(todos_text: Option<Seq<char>>) -> Seq<ProjectView> {
    match todos_text {
        Some(t) => match spec_parse_todos_doc(t) {
            Some(ts) => spec_migrated(ts),
            None => Seq::empty(),
        },
        None => Seq::empty(),
    }
}

/// What loading yields for the given file texts, `None` standing for an
/// absent file: the parsed project document when it parses, else the legacy
/// todo list wrapped into one `Default Project`, else nothing.
pub open spec fn spec_load_or_migrate(
    projects_text: Option<Seq<char>>,
    todos_text: Option<Seq<char>>,
) -> Seq<ProjectView> {
    match projects_text {
        Some(s) => match spec_parse_projects_doc(s) {
            Some(ps) => ps,
            None => spec_load_fallback(todos_text),
        },
        None => spec_load_fallback(todos_text),
    }
}

/// Whether loading the given texts performs the one-time migration.
pub open spec fn spec_migrates(
    projects_text: Option<Seq<char>>,
    todos_text: Option<Seq<char>>,
) -> bool {
    let projects_parse = match projects_text {
        Some(s) => spec_parse_projects_doc(s),
        None => None,
    };
    let todos_parse = match todos_text {
        Some(t) => spec_parse_todos_doc(t),
        None => None,
    };
    projects_parse is None && todos_parse is Some
}

/// The persisted text for the collection, ready to overwrite the project
/// file in full.
pub fn save_projects(projects: &Vec<Project>) -> (out: String)
    ensures
        out@ == render_projects_doc(views_of_projects(projects@)),
{
    render_projects(projects)
}

/// Decides what the two candidate file texts mean, handing back the loaded
/// collection and, when the legacy list was migrated, the new document text
/// the caller must persist.
pub fn load_or_migrate_projects(projects_text: Option<&str>, todos_text: Option<&str>) -> (r: (
    Vec<Project>,
    Option<String>,
))
    ensures
        ({
            let pt = match projects_text {
                Some(s) => Some(s@),
                None => None,
            };
            let tt = match todos_text {
                Some(s) => Some(s@),
                None => None,
            };
            &&& views_of_projects(r.0@) == spec_load_or_migrate(pt, tt)
            &&& if spec_migrates(pt, tt) {
                r.1 matches Some(out) && out@ == render_projects_doc(spec_load_or_migrate(pt, tt))
            } else {
                r.1 is None
            }
        }),
{
    if let Some(s) = projects_text {
        if let Some(ps) = parse_projects(s) {
            return (ps, None);
        }
    }
    if let Some(t) = todos_text {
        if let Some(ts) = parse_todos(t) {
            let ghost tv = views_of_todos(ts@);
            let project = Project { id: 1, name: String::from_str("Default Project"), todos: ts };
            let mut projects: Vec<Project> = Vec::new();
            projects.push(project);
            proof {
                assert(views_of_projects(projects@) =~= spec_migrated(tv));
            }
            let out = save_projects(&projects);
            return (projects, Some(out));
        }
    }
    let empty: Vec<Project> = Vec::new();
    proof {
        assert(views_of_projects(empty@) =~= Seq::<ProjectView>::empty());
    }
    (empty, None)
}

} // verus!
