use dx_todo_app::models::{Project, Subtask, Todo};
use dx_todo_app::parse::{parse_projects, parse_todos};
use dx_todo_app::storage::{load_or_migrate_projects, save_projects};

fn sample_projects() -> Vec<Project> {
    vec![Project {
        id: 1,
        name: "Work".to_string(),
        todos: vec![Todo {
            id: 1,
            title: "buy milk".to_string(),
            completed: false,
            subtasks: Vec::new(),
            description: String::new(),
        }],
    }]
}

const SAMPLE_DOC: &str = "[\n  {\n    \"id\": 1,\n    \"name\": \"Work\",\n    \"todos\": [\n      {\n        \"id\": 1,\n        \"title\": \"buy milk\",\n        \"completed\": false,\n        \"subtasks\": [],\n        \"description\": \"\"\n      }\n    ]\n  }\n]";

#[test]
fn save_writes_the_pretty_document() {
    assert_eq!(save_projects(&sample_projects()), SAMPLE_DOC);
}

#[test]
fn save_of_empty_collection_is_an_empty_array() {
    let empty: Vec<Project> = Vec::new();
    assert_eq!(save_projects(&empty), "[]");
}

#[test]
fn parse_reads_back_what_save_wrote() {
    let mut projects = sample_projects();
    projects[0].todos.push(Todo {
        id: 2,
        title: "weird \"title\" \\ with\nnewline\tand\u{1} control".to_string(),
        completed: true,
        subtasks: vec![Subtask { id: 1, title: "подзадача".to_string(), completed: true }],
        description: "  notes  ".to_string(),
    });
    let text = save_projects(&projects);
    let back = parse_projects(&text).expect("the saved document parses");
    assert_eq!(back.len(), 1);
    assert_eq!(back[0].id, 1);
    assert_eq!(back[0].name, "Work");
    assert_eq!(back[0].todos.len(), 2);
    let t = &back[0].todos[1];
    assert_eq!(t.title, "weird \"title\" \\ with\nnewline\tand\u{1} control");
    assert!(t.completed);
    assert_eq!(t.subtasks.len(), 1);
    assert_eq!(t.subtasks[0].title, "подзадача");
    assert_eq!(t.description, "  notes  ");
    assert_eq!(save_projects(&back), text, "a second save is byte-identical");
}

#[test]
fn parse_accepts_compact_and_partial_documents() {
    let text = "[{\"id\":3,\"name\":\"Old\"}]";
    let ps = parse_projects(text).expect("a project without todos parses");
    assert_eq!(ps[0].id, 3);
    assert!(ps[0].todos.is_empty());
    let text = "[{\"id\":1,\"name\":\"N\",\"todos\":[{\"id\":4,\"title\":\"t\",\"completed\":true}]}]";
    let ps = parse_projects(text).expect("a todo without subtasks or description parses");
    assert_eq!(ps[0].todos[0].id, 4);
    assert!(ps[0].todos[0].completed);
    assert!(ps[0].todos[0].subtasks.is_empty());
    assert_eq!(ps[0].todos[0].description, "");
}

#[test]
fn parse_rejects_malformed_documents() {
    assert!(parse_projects("").is_none());
    assert!(parse_projects("{}").is_none());
    assert!(parse_projects("[{\"id\":1}]").is_none());
    assert!(parse_projects("[] trailing").is_none());
    assert!(parse_projects("[{\"id\":18446744073709551616,\"name\":\"x\"}]").is_none(), "a todo id beyond u64 is rejected");
    assert!(parse_projects("[{\"id\":1,\"name\":\"unterminated]").is_none());
}

#[test]
fn load_prefers_the_project_document() {
    let (projects, migrated) = load_or_migrate_projects(
        Some(SAMPLE_DOC),
        Some("[{\"id\":9,\"title\":\"legacy\",\"completed\":true}]"),
    );
    assert!(migrated.is_none());
    assert_eq!(projects.len(), 1);
    assert_eq!(projects[0].name, "Work");
}

#[test]
fn load_migrates_the_legacy_list_once() {
    let legacy = "[{\"id\":1,\"title\":\"buy milk\",\"completed\":false}]";
    let (projects, migrated) = load_or_migrate_projects(None, Some(legacy));
    assert_eq!(projects.len(), 1);
    assert_eq!(projects[0].id, 1);
    assert_eq!(projects[0].name, "Default Project");
    assert_eq!(projects[0].todos.len(), 1);
    let t = &projects[0].todos[0];
    assert_eq!(t.id, 1);
    assert_eq!(t.title, "buy milk");
    assert!(!t.completed);
    assert!(t.subtasks.is_empty());
    assert_eq!(t.description, "");
    let migrated = migrated.expect("the migration hands back the new document to persist");
    assert_eq!(migrated, save_projects(&projects));
    let expected = "[\n  {\n    \"id\": 1,\n    \"name\": \"Default Project\",\n    \"todos\": [\n      {\n        \"id\": 1,\n        \"title\": \"buy milk\",\n        \"completed\": false,\n        \"subtasks\": [],\n        \"description\": \"\"\n      }\n    ]\n  }\n]";
    assert_eq!(migrated, expected);
}

#[test]
fn load_with_nothing_usable_is_empty() {
    let (projects, migrated) = load_or_migrate_projects(None, None);
    assert!(projects.is_empty());
    assert!(migrated.is_none());
    let (projects, migrated) = load_or_migrate_projects(Some("garbage"), Some("also garbage"));
    assert!(projects.is_empty());
    assert!(migrated.is_none());
}

#[test]
fn save_load_save_is_idempotent() {
    let first = save_projects(&sample_projects());
    let (loaded, _) = load_or_migrate_projects(Some(&first), None);
    let second = save_projects(&loaded);
    assert_eq!(first, second);
}

#[test]
fn legacy_parse_reads_a_bare_todo_array() {
    let ts = parse_todos(" [ {\"id\": 2, \"title\": \"x\", \"completed\": true} ] ")
        .expect("whitespace everywhere is fine");
    assert_eq!(ts.len(), 1);
    assert_eq!(ts[0].id, 2);
    assert!(ts[0].completed);
    assert!(parse_todos("[{\"title\":\"missing id\"}]").is_none());
}

#[test]
fn saved_document_is_valid_json_for_serde() {
    let mut projects = sample_projects();
    projects[0].todos[0].description = "line one\nline \"two\"\u{8}".to_string();
    let text = save_projects(&projects);
    let value: serde_json::Value = serde_json::from_str(&text).expect("serde reads our document");
    let arr = value.as_array().expect("document root is an array");
    assert_eq!(arr.len(), 1);
    assert_eq!(arr[0].get("id").and_then(|v| v.as_u64()), Some(1));
    assert_eq!(arr[0].get("name").and_then(|v| v.as_str()), Some("Work"));
    let todos = arr[0].get("todos").and_then(|v| v.as_array()).expect("todos is an array");
    assert_eq!(todos[0].get("title").and_then(|v| v.as_str()), Some("buy milk"));
    assert_eq!(
        todos[0].get("description").and_then(|v| v.as_str()),
        Some("line one\nline \"two\"\u{8}")
    );
}
