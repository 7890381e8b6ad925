use dx_todo_app::models::{Project, Subtask, Todo};
use dx_todo_app::report::{export_active_project_pdf, render_report, wrap_text, ReportLine};

fn todo(id: u64, title: &str, completed: bool) -> Todo {
    Todo {
        id,
        title: title.to_string(),
        completed,
        subtasks: Vec::new(),
        description: String::new(),
    }
}

fn texts(lines: &[ReportLine]) -> Vec<String> {
    lines.iter().map(|l| l.text.clone()).collect()
}

#[test]
fn wrap_text_fills_greedily() {
    assert_eq!(wrap_text("aaa bbb ccc", 7), vec!["aaa bbb", "ccc"]);
    assert_eq!(wrap_text("aaa bbb ccc", 11), vec!["aaa bbb ccc"]);
    assert_eq!(wrap_text("aaa bbb ccc", 3), vec!["aaa", "bbb", "ccc"]);
}

#[test]
fn wrap_text_keeps_an_overlong_word_whole() {
    assert_eq!(wrap_text("tiny enormousword x", 6), vec!["tiny", "enormousword", "x"]);
}

#[test]
fn wrap_text_collapses_whitespace_and_never_returns_nothing() {
    assert_eq!(wrap_text("", 10), vec![""]);
    assert_eq!(wrap_text("   \t\n  ", 10), vec![""]);
    assert_eq!(wrap_text("  a   b  ", 10), vec!["a b"]);
}

#[test]
fn report_heading_and_summary() {
    let project = Project {
        id: 1,
        name: "Work".to_string(),
        todos: vec![todo(1, "done one", true), todo(2, "open one", false)],
    };
    let lines = render_report(&project, "2024-05-01 12:00");
    assert_eq!(lines[0].text, "Project Report");
    assert_eq!(lines[0].size_tenths, 207);
    assert!(lines[0].bold);
    assert_eq!(lines[1].text, "Work");
    assert_eq!(lines[2].text, "Generated: 2024-05-01 12:00");
    assert_eq!(lines[3].text, "");
    assert_eq!(lines[4].text, "Summary");
    assert!(lines[4].bold);
    assert_eq!(
        lines[5].text,
        "Tasks: 2  \u{2022}  Completed: 1  \u{2022}  Active: 1  \u{2022}  Subtasks: 0  \u{2022}  Completion: 50.0%"
    );
    let all = texts(&lines);
    assert!(all.contains(&"Active Tasks".to_string()));
    assert!(all.contains(&"[ ] open one".to_string()));
    assert!(all.contains(&"Completed Tasks".to_string()));
    assert!(all.contains(&"[x] done one".to_string()));
}

#[test]
fn report_completion_rounds_to_the_nearest_tenth() {
    let project = Project {
        id: 1,
        name: "P".to_string(),
        todos: vec![todo(1, "a", true), todo(2, "b", false), todo(3, "c", false)],
    };
    let lines = render_report(&project, "now");
    assert!(lines[5].text.ends_with("Completion: 33.3%"), "got {}", lines[5].text);
    let project = Project {
        id: 1,
        name: "P".to_string(),
        todos: vec![todo(1, "a", true), todo(2, "b", true), todo(3, "c", false)],
    };
    let lines = render_report(&project, "now");
    assert!(lines[5].text.ends_with("Completion: 66.7%"), "got {}", lines[5].text);
}

#[test]
fn report_skips_empty_sections() {
    let project = Project { id: 1, name: "Empty".to_string(), todos: Vec::new() };
    let lines = render_report(&project, "now");
    let all = texts(&lines);
    assert!(!all.contains(&"Active Tasks".to_string()));
    assert!(!all.contains(&"Completed Tasks".to_string()));
    assert!(all[5].ends_with("Completion: 0.0%"));
}

#[test]
fn report_lists_subtasks_and_description_under_their_todo() {
    let mut t = todo(1, "parent", false);
    t.description = "  some context  ".to_string();
    t.subtasks = vec![
        Subtask { id: 1, title: "first step".to_string(), completed: true },
        Subtask { id: 2, title: "second step".to_string(), completed: false },
    ];
    let project = Project { id: 1, name: "P".to_string(), todos: vec![t] };
    let lines = render_report(&project, "now");
    let all = texts(&lines);
    let title_at = all.iter().position(|l| l == "[ ] parent").expect("title line present");
    assert_eq!(all[title_at + 1], "    \u{2014} some context");
    // word wrapping splits the source at whitespace, so a subtask's leading
    // indent collapses and its first line starts at the checkbox mark
    assert_eq!(all[title_at + 2], "[x] first step");
    assert_eq!(all[title_at + 3], "[ ] second step");
}

#[test]
fn report_wraps_long_titles_with_indented_continuations() {
    let long_title = "word ".repeat(40);
    let project = Project { id: 1, name: "P".to_string(), todos: vec![todo(1, long_title.trim(), false)] };
    let lines = render_report(&project, "now");
    let all = texts(&lines);
    let first = all.iter().position(|l| l.starts_with("[ ] word")).expect("wrapped title starts");
    assert!(all[first].chars().count() <= 90);
    assert!(all[first + 1].starts_with("    word"), "continuation is indented");
}

#[test]
fn export_requires_an_active_project() {
    let projects = vec![Project { id: 1, name: "P".to_string(), todos: Vec::new() }];
    let err = export_active_project_pdf(&projects, None, "now").unwrap_err();
    assert_eq!(err, "No active project selected");
    let err = export_active_project_pdf(&projects, Some(9), "now").unwrap_err();
    assert_eq!(err, "Active project not found");
    let lines = export_active_project_pdf(&projects, Some(1), "now").expect("the project exists");
    assert_eq!(lines[1].text, "P");
}
