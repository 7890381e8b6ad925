//! The persisted document format: pretty-printed JSON with two-space
//! indentation, objects listing their fields in declaration order. This
//! module renders a project collection to that text; `parse` reads it back.

use vstd::prelude::*;

use crate::models::{
    views_of_projects, views_of_subtasks, views_of_todos, Project, ProjectView, Subtask,
    SubtaskView, Todo, TodoView,
};
use crate::text::chars_to_string;

verus! {

// --- character classes and small pieces ---

/// JSON's insignificant whitespace characters.
pub open spec fn is_json_ws(c: char) -> bool {
    c == ' ' || c == '\n' || c == '\t' || c == '\r'
}

pub open spec fn is_digit_char(c: char) -> bool {
    0x30 <= (c as u32) && (c as u32) <= 0x39
}

pub open spec fn digit_val(c: char) -> nat {
    ((c as u32) - 0x30) as nat
}

/// The character for one decimal digit value.
pub open spec fn digit_char(n: nat) -> char {
    ((0x30 + n) as u8) as char
}

/// The character for one hexadecimal digit value, lower case.
pub open spec fn hex_digit_char(n: nat) -> char {
    if n < 10 {
        ((0x30 + n) as u8) as char
    } else {
        ((0x57 + n) as u8) as char
    }
}

/// The decimal rendering of a number, most significant digit first.
pub open spec fn dec_digits(n: nat) -> Seq<char>
    decreases n,
{
    if n < 10 {
        seq![digit_char(n)]
    } else {
        dec_digits(n / 10) + seq![digit_char(n % 10)]
    }
}

/// `n` space characters.
pub open spec fn spaces(n: nat) -> Seq<char>
    decreases n,
{
    if n == 0 {
        Seq::empty()
    } else {
        spaces((n - 1) as nat).push(' ')
    }
}

/// How one character appears inside a rendered JSON string: quote and
/// backslash get a backslash escape, the five control characters with short
/// forms get those, any other control character a `\u00XX` escape, and
/// everything else stands as itself.
pub open spec fn escape_char(c: char) -> Seq<char> {
    if c == '"' {
        seq!['\\', '"']
    } else if c == '\\' {
        seq!['\\', '\\']
    } else if (c as u32) == 0x8 {
        seq!['\\', 'b']
    } else if c == '\t' {
        seq!['\\', 't']
    } else if c == '\n' {
        seq!['\\', 'n']
    } else if (c as u32) == 0xc {
        seq!['\\', 'f']
    } else if c == '\r' {
        seq!['\\', 'r']
    } else if (c as u32) < 0x20 {
        seq!['\\', 'u', '0', '0', hex_digit_char(((c as u32) / 16) as nat), hex_digit_char(
            ((c as u32) % 16) as nat,
        )]
    } else {
        seq![c]
    }
}

pub open spec fn escape_string(s: Seq<char>) -> Seq<char>
    decreases s.len(),
{
    if s.len() == 0 {
        Seq::empty()
    } else {
        escape_char(s.first()) + escape_string(s.drop_first())
    }
}

/// A rendered JSON string: the escaped text between double quotes.
pub open spec fn quoted(s: Seq<char>) -> Seq<char> {
    seq!['"'] + escape_string(s) + seq!['"']
}

pub open spec fn render_bool(b: bool) -> Seq<char> {
    if b {
        "true"@
    } else {
        "false"@
    }
}

// --- the object keys, each rendered as `"key": ` ---

pub open spec fn lit_id() -> Seq<char> {
    "\"id\": "@
}

pub open spec fn lit_title() -> Seq<char> {
    "\"title\": "@
}

pub open spec fn lit_completed() -> Seq<char> {
    "\"completed\": "@
}

pub open spec fn lit_subtasks() -> Seq<char> {
    "\"subtasks\": "@
}

pub open spec fn lit_description() -> Seq<char> {
    "\"description\": "@
}

pub open spec fn lit_name() -> Seq<char> {
    "\"name\": "@
}

pub open spec fn lit_todos() -> Seq<char> {
    "\"todos\": "@
}

// --- the rendered layout ---
//
// An object at nesting level `lvl` opens with `{`, writes each field on its
// own line indented `2 * (lvl + 1)` spaces, and closes with `}` indented
// `2 * lvl` spaces. A non-empty array writes each element on its own line at
// the next level; an empty array is the two characters `[]`.

/// One field line followed by a comma: indentation, `"key": `, the value.
pub open spec fn fld(lvl: nat, key: Seq<char>, value: Seq<char>) -> Seq<char> {
    spaces((lvl + 1) * 2) + key + value + seq![',', '\n']
}

/// The last field line of an object: no trailing comma.
pub open spec fn fld_last(lvl: nat, key: Seq<char>, value: Seq<char>) -> Seq<char> {
    spaces((lvl + 1) * 2) + key + value + seq!['\n']
}

/// An object at nesting level `lvl` around its already rendered field lines.
pub open spec fn obj(lvl: nat, fields: Seq<char>) -> Seq<char> {
    seq!['{', '\n'] + fields + spaces(lvl * 2) + seq!['}']
}

/// A non-empty array at nesting level `lvl` around its rendered items.
pub open spec fn arr(lvl: nat, items: Seq<char>) -> Seq<char> {
    seq!['[', '\n'] + items + seq!['\n'] + spaces(lvl * 2) + seq![']']
}

pub open spec fn render_subtask(st: SubtaskView, lvl: nat) -> Seq<char> {
    obj(
        lvl,
        fld(lvl, lit_id(), dec_digits(st.id as nat)) + fld(lvl, lit_title(), quoted(st.title))
            + fld_last(lvl, lit_completed(), render_bool(st.completed)),
    )
}

pub open spec fn render_subtask_items(ss: Seq<SubtaskView>, elvl: nat) -> Seq<char>
    decreases ss.len(),
{
    if ss.len() == 0 {
        Seq::empty()
    } else if ss.len() == 1 {
        spaces(elvl * 2) + render_subtask(ss[0], elvl)
    } else {
        spaces(elvl * 2) + render_subtask(ss[0], elvl) + seq![',', '\n'] + render_subtask_items(
            ss.drop_first(),
            elvl,
        )
    }
}

pub open spec fn render_subtasks_arr(ss: Seq<SubtaskView>, lvl: nat) -> Seq<char> {
    if ss.len() == 0 {
        seq!['[', ']']
    } else {
        arr(lvl, render_subtask_items(ss, lvl + 1))
    }
}

pub open spec fn render_todo(t: TodoView, lvl: nat) -> Seq<char> {
    obj(
        lvl,
        fld(lvl, lit_id(), dec_digits(t.id as nat)) + fld(lvl, lit_title(), quoted(t.title)) + fld(
            lvl,
            lit_completed(),
            render_bool(t.completed),
        ) + fld(lvl, lit_subtasks(), render_subtasks_arr(t.subtasks, lvl + 1)) + fld_last(
            lvl,
            lit_description(),
            quoted(t.description),
        ),
    )
}

pub open spec fn render_todo_items(ts: Seq<TodoView>, elvl: nat) -> Seq<char>
    decreases ts.len(),
{
    if ts.len() == 0 {
        Seq::empty()
    } else if ts.len() == 1 {
        spaces(elvl * 2) + render_todo(ts[0], elvl)
    } else {
        spaces(elvl * 2) + render_todo(ts[0], elvl) + seq![',', '\n'] + render_todo_items(
            ts.drop_first(),
            elvl,
        )
    }
}

pub open spec fn render_todos_arr(ts: Seq<TodoView>, lvl: nat) -> Seq<char> {
    if ts.len() == 0 {
        seq!['[', ']']
    } else {
        arr(lvl, render_todo_items(ts, lvl + 1))
    }
}

pub open spec fn render_project(p: ProjectView, lvl: nat) -> Seq<char> {
    obj(
        lvl,
        fld(lvl, lit_id(), dec_digits(p.id as nat)) + fld(lvl, lit_name(), quoted(p.name))
            + fld_last(lvl, lit_todos(), render_todos_arr(p.todos, lvl + 1)),
    )
}

pub open spec fn render_project_items(ps: Seq<ProjectView>, elvl: nat) -> Seq<char>
    decreases ps.len(),
{
    if ps.len() == 0 {
        Seq::empty()
    } else if ps.len() == 1 {
        spaces(elvl * 2) + render_project(ps[0], elvl)
    } else {
        spaces(elvl * 2) + render_project(ps[0], elvl) + seq![',', '\n'] + render_project_items(
            ps.drop_first(),
            elvl,
        )
    }
}

/// The whole persisted document: one array of projects at the document root.
pub open spec fn render_projects_doc(ps: Seq<ProjectView>) -> Seq<char> {
    if ps.len() == 0 {
        seq!['[', ']']
    } else {
        arr(0, render_project_items(ps, 1))
    }
}

// --- executable rendering ---

pub(crate) fn push_str_chars(out: &mut Vec<char>, s: &str)
    ensures
        final(out)@ == old(out)@ + s@,
{
    let n = s.unicode_len();
    let mut i: usize = 0;
    while i < n
        invariant
            n == s@.len(),
            0 <= i <= n,
            out@ == old(out)@ + s@.take(i as int),
        decreases n - i,
    {
        out.push(s.get_char(i));
        proof {
            assert(s@.take(i + 1) =~= s@.take(i as int).push(s@[i as int]));
            assert(old(out)@ + s@.take(i + 1) =~= (old(out)@ + s@.take(i as int)).push(
                s@[i as int],
            ));
        }
        i = i + 1;
    }
    proof {
        assert(s@.take(n as int) =~= s@);
    }
}

fn push_spaces(out: &mut Vec<char>, n: usize)
    ensures
        final(out)@ == old(out)@ + spaces(n as nat),
{
    let mut i: usize = 0;
    while i < n
        invariant
            0 <= i <= n,
            out@ == old(out)@ + spaces(i as nat),
        decreases n - i,
    {
        out.push(' ');
        i = i + 1;
    }
}

pub(crate) fn push_u64(out: &mut Vec<char>, n: u64)
    ensures
        final(out)@ == old(out)@ + dec_digits(n as nat),
    decreases n,
{
    if n < 10 {
        let d = (0x30 + n as u8) as char;
        out.push(d);
        proof {
            assert(old(out)@ + dec_digits(n as nat) =~= old(out)@.push(digit_char(n as nat)));
        }
    } else {
        push_u64(out, n / 10);
        let d = (0x30 + (n % 10) as u8) as char;
        out.push(d);
        proof {
            assert(old(out)@ + dec_digits(n as nat) =~= (old(out)@ + dec_digits(
                (n as nat) / 10,
            )).push(digit_char((n as nat) % 10)));
        }
    }
}

proof fn lemma_escape_push(s: Seq<char>, c: char)
    ensures
        escape_string(s.push(c)) == escape_string(s) + escape_char(c),
    decreases s.len(),
{
    if s.len() == 0 {
        assert(s.push(c).drop_first() =~= Seq::<char>::empty());
        assert(s.push(c).first() == c);
        assert(escape_string(s.push(c)) == escape_char(c) + escape_string(Seq::<char>::empty()));
        assert(escape_char(c) + escape_string(Seq::<char>::empty()) =~= escape_char(c));
        assert(escape_string(s) + escape_char(c) =~= escape_char(c));
    } else {
        assert(s.push(c).drop_first() =~= s.drop_first().push(c));
        lemma_escape_push(s.drop_first(), c);
        assert(escape_char(s.first()) + (escape_string(s.drop_first()) + escape_char(c)) =~= (
        escape_char(s.first()) + escape_string(s.drop_first())) + escape_char(c));
    }
}

fn push_escaped(out: &mut Vec<char>, s: &str)
    ensures
        final(out)@ == old(out)@ + escape_string(s@),
{
    let n = s.unicode_len();
    let mut i: usize = 0;
    while i < n
        invariant
            n == s@.len(),
            0 <= i <= n,
            out@ == old(out)@ + escape_string(s@.take(i as int)),
        decreases n - i,
    {
        let c = s.get_char(i);
        let u = c as u32;
        if c == '"' {
            out.push('\\');
            out.push('"');
        } else if c == '\\' {
            out.push('\\');
            out.push('\\');
        } else if u == 0x8 {
            out.push('\\');
            out.push('b');
        } else if c == '\t' {
            out.push('\\');
            out.push('t');
        } else if c == '\n' {
            out.push('\\');
            out.push('n');
        } else if u == 0xc {
            out.push('\\');
            out.push('f');
        } else if c == '\r' {
            out.push('\\');
            out.push('r');
        } else if u < 0x20 {
            out.push('\\');
            out.push('u');
            out.push('0');
            out.push('0');
            let hi = (u / 16) as u8;
            let lo = (u % 16) as u8;
            let hc = if hi < 10 {
                (0x30 + hi) as char
            } else {
                (0x57 + hi) as char
            };
            let lc = if lo < 10 {
                (0x30 + lo) as char
            } else {
                (0x57 + lo) as char
            };
            out.push(hc);
            out.push(lc);
        } else {
            out.push(c);
        }
        proof {
            assert(s@.take(i + 1) =~= s@.take(i as int).push(s@[i as int]));
            lemma_escape_push(s@.take(i as int), s@[i as int]);
            assert(out@ =~= old(out)@ + escape_string(s@.take(i + 1)));
        }
        i = i + 1;
    }
    proof {
        assert(s@.take(n as int) =~= s@);
    }
}

fn push_quoted(out: &mut Vec<char>, s: &str)
    ensures
        final(out)@ == old(out)@ + quoted(s@),
{
    out.push('"');
    push_escaped(out, s);
    out.push('"');
    proof {
        assert(out@ =~= old(out)@ + quoted(s@));
    }
}

fn push_bool(out: &mut Vec<char>, b: bool)
    ensures
        final(out)@ == old(out)@ + render_bool(b),
{
    if b {
        push_str_chars(out, "true");
    } else {
        push_str_chars(out, "false");
    }
}

/// Opens a field line: the indentation, then `"key": `.
fn push_field_start(out: &mut Vec<char>, lvl: usize, key: &str)
    requires
        lvl <= 16,
    ensures
        final(out)@ == old(out)@ + (spaces(((lvl + 1) * 2) as nat) + key@),
{
    push_spaces(out, (lvl + 1) * 2);
    push_str_chars(out, key);
    proof {
        assert(out@ =~= old(out)@ + (spaces(((lvl + 1) * 2) as nat) + key@));
    }
}

/// Ends a field line with a comma, or without one for the last field.
fn push_field_end(out: &mut Vec<char>, last: bool)
    ensures
        !last ==> final(out)@ == old(out)@ + seq![',', '\n'],
        last ==> final(out)@ == old(out)@ + seq!['\n'],
{
    if !last {
        out.push(',');
        out.push('\n');
        proof {
            assert(out@ =~= old(out)@ + seq![',', '\n']);
        }
    } else {
        out.push('\n');
        proof {
            assert(out@ =~= old(out)@ + seq!['\n']);
        }
    }
}

fn push_obj_open(out: &mut Vec<char>)
    ensures
        final(out)@ == old(out)@ + seq!['{', '\n'],
{
    out.push('{');
    out.push('\n');
    proof {
        assert(out@ =~= old(out)@ + seq!['{', '\n']);
    }
}

fn push_obj_close(out: &mut Vec<char>, lvl: usize)
    requires
        lvl <= 16,
    ensures
        final(out)@ == old(out)@ + (spaces((lvl * 2) as nat) + seq!['}']),
{
    push_spaces(out, lvl * 2);
    out.push('}');
    proof {
        assert(out@ =~= old(out)@ + (spaces((lvl * 2) as nat) + seq!['}']));
    }
}

fn push_subtask(out: &mut Vec<char>, st: &Subtask, lvl: usize)
    requires
        lvl <= 8,
    ensures
        final(out)@ == old(out)@ + render_subtask(st@, lvl as nat),
{
    let ghost x0 = out@;
    push_obj_open(out);
    let ghost x1 = out@;
    push_field_start(out, lvl, "\"id\": ");
    push_u64(out, st.id);
    push_field_end(out, false);
    let ghost f1 = fld(lvl as nat, lit_id(), dec_digits(st.id as nat));
    proof {
        assert(out@ =~= x1 + f1);
    }
    push_field_start(out, lvl, "\"title\": ");
    push_quoted(out, st.title.as_str());
    push_field_end(out, false);
    let ghost f2 = fld(lvl as nat, lit_title(), quoted(st.title@));
    proof {
        assert(out@ =~= x1 + (f1 + f2));
    }
    push_field_start(out, lvl, "\"completed\": ");
    push_bool(out, st.completed);
    push_field_end(out, true);
    let ghost f3 = fld_last(lvl as nat, lit_completed(), render_bool(st.completed));
    proof {
        assert(out@ =~= x1 + (f1 + f2 + f3));
    }
    push_obj_close(out, lvl);
    proof {
        assert(out@ =~= x0 + obj(lvl as nat, f1 + f2 + f3));
    }
}

fn push_subtask_items(out: &mut Vec<char>, ss: &Vec<Subtask>, from: usize, elvl: usize)
    requires
        elvl <= 8,
        from < ss@.len(),
    ensures
        final(out)@ == old(out)@ + render_subtask_items(
            views_of_subtasks(ss@).skip(from as int),
            elvl as nat,
        ),
    decreases ss@.len() - from,
{
    let ghost vs = views_of_subtasks(ss@);
    push_spaces(out, elvl * 2);
    push_subtask(out, &ss[from], elvl);
    let n = ss.len();
    if from < n - 1 {
        out.push(',');
        out.push('\n');
        push_subtask_items(out, ss, from + 1, elvl);
        proof {
            assert(vs.skip(from as int).drop_first() =~= vs.skip(from + 1));
            assert(vs.skip(from as int)[0] == vs[from as int]);
            assert(out@ =~= old(out)@ + render_subtask_items(vs.skip(from as int), elvl as nat));
        }
    } else {
        proof {
            assert(vs.skip(from as int).len() == 1);
            assert(vs.skip(from as int)[0] == vs[from as int]);
            assert(out@ =~= old(out)@ + render_subtask_items(vs.skip(from as int), elvl as nat));
        }
    }
}

fn push_subtasks_arr(out: &mut Vec<char>, ss: &Vec<Subtask>, lvl: usize)
    requires
        lvl <= 7,
    ensures
        final(out)@ == old(out)@ + render_subtasks_arr(views_of_subtasks(ss@), lvl as nat),
{
    let ghost vs = views_of_subtasks(ss@);
    if ss.len() == 0 {
        out.push('[');
        out.push(']');
        proof {
            assert(out@ =~= old(out)@ + render_subtasks_arr(vs, lvl as nat));
        }
        return ;
    }
    out.push('[');
    out.push('\n');
    push_subtask_items(out, ss, 0, lvl + 1);
    out.push('\n');
    push_spaces(out, lvl * 2);
    out.push(']');
    proof {
        assert(vs.skip(0) =~= vs);
        assert(out@ =~= old(out)@ + render_subtasks_arr(vs, lvl as nat));
    }
}

#[verifier::rlimit(100)]
fn push_todo(out: &mut Vec<char>, t: &Todo, lvl: usize)
    requires
        lvl <= 6,
    ensures
        final(out)@ == old(out)@ + render_todo(t@, lvl as nat),
{
    let ghost x0 = out@;
    push_obj_open(out);
    let ghost x1 = out@;
    push_field_start(out, lvl, "\"id\": ");
    push_u64(out, t.id);
    push_field_end(out, false);
    let ghost f1 = fld(lvl as nat, lit_id(), dec_digits(t.id as nat));
    proof {
        assert(out@ =~= x1 + f1);
    }
    push_field_start(out, lvl, "\"title\": ");
    push_quoted(out, t.title.as_str());
    push_field_end(out, false);
    let ghost f2 = fld(lvl as nat, lit_title(), quoted(t.title@));
    proof {
        assert(out@ =~= x1 + (f1 + f2));
    }
    push_field_start(out, lvl, "\"completed\": ");
    push_bool(out, t.completed);
    push_field_end(out, false);
    let ghost f3 = fld(lvl as nat, lit_completed(), render_bool(t.completed));
    proof {
        assert(out@ =~= x1 + (f1 + f2 + f3));
    }
    push_field_start(out, lvl, "\"subtasks\": ");
    push_subtasks_arr(out, &t.subtasks, lvl + 1);
    push_field_end(out, false);
    let ghost f4 = fld(
        lvl as nat,
        lit_subtasks(),
        render_subtasks_arr(views_of_subtasks(t.subtasks@), (lvl + 1) as nat),
    );
    proof {
        assert(out@ =~= x1 + (f1 + f2 + f3 + f4));
    }
    push_field_start(out, lvl, "\"description\": ");
    push_quoted(out, t.description.as_str());
    push_field_end(out, true);
    let ghost f5 = fld_last(lvl as nat, lit_description(), quoted(t.description@));
    proof {
        assert(out@ =~= x1 + (f1 + f2 + f3 + f4 + f5));
    }
    push_obj_close(out, lvl);
    proof {
        assert(out@ =~= x0 + obj(lvl as nat, f1 + f2 + f3 + f4 + f5));
    }
}

#[verifier::rlimit(100)]
fn push_todo_items(out: &mut Vec<char>, ts: &Vec<Todo>, from: usize, elvl: usize)
    requires
        elvl <= 6,
        from < ts@.len(),
    ensures
        final(out)@ == old(out)@ + render_todo_items(
            views_of_todos(ts@).skip(from as int),
            elvl as nat,
        ),
    decreases ts@.len() - from,
{
    let ghost vs = views_of_todos(ts@);
    push_spaces(out, elvl * 2);
    push_todo(out, &ts[from], elvl);
    let n = ts.len();
    if from < n - 1 {
        out.push(',');
        out.push('\n');
        push_todo_items(out, ts, from + 1, elvl);
        proof {
            assert(vs.skip(from as int).drop_first() =~= vs.skip(from + 1));
            assert(vs.skip(from as int)[0] == vs[from as int]);
            assert(out@ =~= old(out)@ + render_todo_items(vs.skip(from as int), elvl as nat));
        }
    } else {
        proof {
            assert(vs.skip(from as int).len() == 1);
            assert(vs.skip(from as int)[0] == vs[from as int]);
            assert(out@ =~= old(out)@ + render_todo_items(vs.skip(from as int), elvl as nat));
        }
    }
}

fn push_todos_arr(out: &mut Vec<char>, ts: &Vec<Todo>, lvl: usize)
    requires
        lvl <= 5,
    ensures
        final(out)@ == old(out)@ + render_todos_arr(views_of_todos(ts@), lvl as nat),
{
    let ghost vs = views_of_todos(ts@);
    if ts.len() == 0 {
        out.push('[');
        out.push(']');
        proof {
            assert(out@ =~= old(out)@ + render_todos_arr(vs, lvl as nat));
        }
        return ;
    }
    out.push('[');
    out.push('\n');
    push_todo_items(out, ts, 0, lvl + 1);
    out.push('\n');
    push_spaces(out, lvl * 2);
    out.push(']');
    proof {
        assert(vs.skip(0) =~= vs);
        assert(out@ =~= old(out)@ + render_todos_arr(vs, lvl as nat));
    }
}

#[verifier::rlimit(100)]
fn push_project(out: &mut Vec<char>, p: &Project, lvl: usize)
    requires
        lvl <= 4,
    ensures
        final(out)@ == old(out)@ + render_project(p@, lvl as nat),
{
    let ghost x0 = out@;
    push_obj_open(out);
    let ghost x1 = out@;
    push_field_start(out, lvl, "\"id\": ");
    push_u64(out, p.id);
    push_field_end(out, false);
    let ghost f1 = fld(lvl as nat, lit_id(), dec_digits(p.id as nat));
    proof {
        assert(out@ =~= x1 + f1);
    }
    push_field_start(out, lvl, "\"name\": ");
    push_quoted(out, p.name.as_str());
    push_field_end(out, false);
    let ghost f2 = fld(lvl as nat, lit_name(), quoted(p.name@));
    proof {
        assert(out@ =~= x1 + (f1 + f2));
    }
    push_field_start(out, lvl, "\"todos\": ");
    push_todos_arr(out, &p.todos, lvl + 1);
    push_field_end(out, true);
    let ghost f3 = fld_last(
        lvl as nat,
        lit_todos(),
        render_todos_arr(views_of_todos(p.todos@), (lvl + 1) as nat),
    );
    proof {
        assert(out@ =~= x1 + (f1 + f2 + f3));
    }
    push_obj_close(out, lvl);
    proof {
        assert(out@ =~= x0 + obj(lvl as nat, f1 + f2 + f3));
    }
}

fn push_project_items(out: &mut Vec<char>, ps: &Vec<Project>, from: usize, elvl: usize)
    requires
        elvl <= 4,
        from < ps@.len(),
    ensures
        final(out)@ == old(out)@ + render_project_items(
            views_of_projects(ps@).skip(from as int),
            elvl as nat,
        ),
    decreases ps@.len() - from,
{
    let ghost vs = views_of_projects(ps@);
    push_spaces(out, elvl * 2);
    push_project(out, &ps[from], elvl);
    let n = ps.len();
    if from < n - 1 {
        out.push(',');
        out.push('\n');
        push_project_items(out, ps, from + 1, elvl);
        proof {
            assert(vs.skip(from as int).drop_first() =~= vs.skip(from + 1));
            assert(vs.skip(from as int)[0] == vs[from as int]);
            assert(out@ =~= old(out)@ + render_project_items(vs.skip(from as int), elvl as nat));
        }
    } else {
        proof {
            assert(vs.skip(from as int).len() == 1);
            assert(vs.skip(from as int)[0] == vs[from as int]);
            assert(out@ =~= old(out)@ + render_project_items(vs.skip(from as int), elvl as nat));
        }
    }
}

/// The persisted text for a project collection: the exact canonical document
/// `render_projects_doc` describes.
pub fn render_projects(projects: &Vec<Project>) -> (r: String)
    ensures
        r@ == render_projects_doc(views_of_projects(projects@)),
{
    let ghost vs = views_of_projects(projects@);
    let mut out: Vec<char> = Vec::new();
    if projects.len() == 0 {
        out.push('[');
        out.push(']');
        proof {
            assert(out@ =~= render_projects_doc(vs));
        }
    } else {
        out.push('[');
        out.push('\n');
        push_project_items(&mut out, projects, 0, 1);
        out.push('\n');
        out.push(']');
        proof {
            assert(vs.skip(0) =~= vs);
            assert(out@ =~= render_projects_doc(vs));
        }
    }
    chars_to_string(&out)
}

} // verus!
