//! Planning the printable project report: the exact sequence of text lines,
//! with a size in tenths of a point and a bold flag for each, that the PDF
//! writer lays onto pages. Pagination and the drawing itself are the
//! caller's work; the plan is a pure function of the project and the
//! caller-supplied timestamp text.

use vstd::prelude::*;

use crate::codec::{dec_digits, digit_char, push_str_chars, push_u64};
use crate::models::{
    views_of_projects, views_of_todos, Filter, Project, ProjectView, Subtask, SubtaskView, Todo,
    TodoView,
};
use crate::ops::{count_visible, find_project_idx, spec_find_project, spec_visible, visible};
use crate::text::{chars_to_string, is_space, is_space_char, spec_trim, str_to_chars, trim_str};

verus! {

/// One planned report line.
#[derive(Debug)]
pub struct ReportLine {
    pub text: String,
    pub size_tenths: u32,
    pub bold: bool,
}

/// Mathematical value of a `ReportLine`.
#[verifier::ext_equal]
pub struct ReportLineView {
    pub text: Seq<char>,
    pub size_tenths: u32,
    pub bold: bool,
}

impl View for ReportLine {
    type V = ReportLineView;

    open spec fn view(&self) -> ReportLineView {
        ReportLineView { text: self.text@, size_tenths: self.size_tenths, bold: self.bold }
    }
}

impl Clone for ReportLine {
    fn clone(&self) -> (r: Self)
        ensures
            r@ == self@,
    {
        ReportLine { text: self.text.clone(), size_tenths: self.size_tenths, bold: self.bold }
    }
}

pub open spec fn views_of_lines(v: Seq<ReportLine>) -> Seq<ReportLineView> {
    v.map_values(|l: ReportLine| l@)
}

pub open spec fn views_of_strings(v: Seq<String>) -> Seq<Seq<char>> {
    v.map_values(|x: String| x@)
}

pub open spec fn views_of_words(v: Seq<Vec<char>>) -> Seq<Seq<char>> {
    v.map_values(|w: Vec<char>| w@)
}

pub open spec fn rl(text: Seq<char>, size_tenths: u32, bold: bool) -> ReportLineView {
    ReportLineView { text, size_tenths, bold }
}

// --- word wrapping ---

/// The whitespace-separated words of a text, in order, via a left-to-right
/// scan carrying the word being built.
pub open spec fn spec_words_from(
    s: Seq<char>,
    i: int,
    cur: Seq<char>,
    acc: Seq<Seq<char>>,
) -> Seq<Seq<char>>
    decreases s.len() - i,
{
    if i < 0 || i >= s.len() {
        if cur.len() > 0 {
            acc.push(cur)
        } else {
            acc
        }
    } else if is_space_char(s[i]) {
        if cur.len() > 0 {
            spec_words_from(s, i + 1, Seq::empty(), acc.push(cur))
        } else {
            spec_words_from(s, i + 1, Seq::empty(), acc)
        }
    } else {
        spec_words_from(s, i + 1, cur.push(s[i]), acc)
    }
}

pub open spec fn spec_words(s: Seq<char>) -> Seq<Seq<char>> {
    spec_words_from(s, 0, Seq::empty(), Seq::empty())
}

/// Greedy filling: each word joins the current line when it fits after a
/// single joining space, else the line is emitted and the word starts a new
/// one. An empty result becomes one empty line.
pub open spec fn spec_wrap_from(
    ws: Seq<Seq<char>>,
    i: int,
    line: Seq<char>,
    acc: Seq<Seq<char>>,
    max: int,
) -> Seq<Seq<char>>
    decreases ws.len() - i,
{
    if i < 0 || i >= ws.len() {
        let done = if line.len() > 0 {
            acc.push(line)
        } else {
            acc
        };
        if done.len() == 0 {
            seq![Seq::empty()]
        } else {
            done
        }
    } else {
        let w = ws[i];
        if line.len() == 0 {
            spec_wrap_from(ws, i + 1, w, acc, max)
        } else if line.len() + 1 + w.len() <= max {
            spec_wrap_from(ws, i + 1, line + seq![' '] + w, acc, max)
        } else {
            spec_wrap_from(ws, i + 1, w, acc.push(line), max)
        }
    }
}

/// The wrapped lines of a text at the given width, in characters.
pub open spec fn spec_wrap_text(s: Seq<char>, max: int) -> Seq<Seq<char>> {
    spec_wrap_from(spec_words(s), 0, Seq::empty(), Seq::empty(), max)
}

fn words_of(s: &Vec<char>) -> (r: Vec<Vec<char>>)
    ensures
        views_of_words(r@) == spec_words(s@),
{
    let ghost target = spec_words(s@);
    let mut acc: Vec<Vec<char>> = Vec::new();
    let mut cur: Vec<char> = Vec::new();
    let mut i: usize = 0;
    proof {
        assert(views_of_words(acc@) =~= Seq::<Seq<char>>::empty());
    }
    while i < s.len()
        invariant
            0 <= i <= s@.len(),
            target == spec_words_from(s@, i as int, cur@, views_of_words(acc@)),
        decreases s@.len() - i,
    {
        let ghost accv = views_of_words(acc@);
        if is_space(s[i]) {
            if cur.len() > 0 {
                let done = cur;
                cur = Vec::new();
                proof {
                    assert(views_of_words(acc@.push(done)) =~= accv.push(done@));
                }
                acc.push(done);
            } else {
                proof {
                    assert(cur@ =~= Seq::<char>::empty());
                }
            }
        } else {
            cur.push(s[i]);
        }
        i = i + 1;
    }
    let ghost accv = views_of_words(acc@);
    if cur.len() > 0 {
        proof {
            assert(views_of_words(acc@.push(cur)) =~= accv.push(cur@));
        }
        acc.push(cur);
    }
    acc
}

/// Wraps a text into lines of at most `max_chars` characters, splitting at
/// whitespace with greedy filling, exactly as `spec_wrap_text` states.
pub fn wrap_text(s: &str, max_chars: usize) -> (r: Vec<String>)
    ensures
        views_of_strings(r@) == spec_wrap_text(s@, max_chars as int),
{
    let cs = str_to_chars(s);
    let ws = words_of(&cs);
    let ghost wsv = views_of_words(ws@);
    let ghost target = spec_wrap_text(s@, max_chars as int);
    let mut acc: Vec<String> = Vec::new();
    let mut line: Vec<char> = Vec::new();
    let mut i: usize = 0;
    proof {
        assert(views_of_strings(acc@) =~= Seq::<Seq<char>>::empty());
    }
    while i < ws.len()
        invariant
            0 <= i <= ws@.len(),
            wsv == views_of_words(ws@),
            target == spec_wrap_from(wsv, i as int, line@, views_of_strings(acc@), max_chars as int),
        decreases ws@.len() - i,
    {
        let ghost accv = views_of_strings(acc@);
        let w = &ws[i];
        if line.len() == 0 {
            let mut nl: Vec<char> = Vec::new();
            let mut k: usize = 0;
            while k < w.len()
                invariant
                    0 <= k <= w@.len(),
                    nl@ == w@.take(k as int),
                decreases w@.len() - k,
            {
                nl.push(w[k]);
                proof {
                    assert(w@.take(k + 1) =~= w@.take(k as int).push(w@[k as int]));
                }
                k = k + 1;
            }
            proof {
                assert(w@.take(w@.len() as int) =~= w@);
            }
            line = nl;
        } else if line.len() < max_chars && w.len() <= max_chars - line.len() - 1 {
            proof {
                assert(line@.len() + 1 + w@.len() <= max_chars);
            }
            let ghost base0 = line@;
            line.push(' ');
            proof {
                assert(line@ =~= base0.push(' ') + w@.take(0));
            }
            let mut k: usize = 0;
            while k < w.len()
                invariant
                    0 <= k <= w@.len(),
                    line@ == base0.push(' ') + w@.take(k as int),
                decreases w@.len() - k,
            {
                proof {
                    assert(w@.take(k + 1) =~= w@.take(k as int).push(w@[k as int]));
                    assert(base0.push(' ') + w@.take(k + 1) =~= (base0.push(' ') + w@.take(
                        k as int,
                    )).push(w@[k as int]));
                }
                line.push(w[k]);
                k = k + 1;
            }
            proof {
                assert(w@.take(w@.len() as int) =~= w@);
                assert(line@ =~= base0 + seq![' '] + w@);
            }
        } else {
            proof {
                assert(!(line@.len() + 1 + w@.len() <= max_chars));
            }
            let done = chars_to_string(&line);
            proof {
                assert(views_of_strings(acc@.push(done)) =~= accv.push(line@));
            }
            acc.push(done);
            let mut nl: Vec<char> = Vec::new();
            let mut k: usize = 0;
            while k < w.len()
                invariant
                    0 <= k <= w@.len(),
                    nl@ == w@.take(k as int),
                decreases w@.len() - k,
            {
                nl.push(w[k]);
                proof {
                    assert(w@.take(k + 1) =~= w@.take(k as int).push(w@[k as int]));
                }
                k = k + 1;
            }
            proof {
                assert(w@.take(w@.len() as int) =~= w@);
            }
            line = nl;
        }
        i = i + 1;
    }
    let ghost accv = views_of_strings(acc@);
    if line.len() > 0 {
        let done = chars_to_string(&line);
        proof {
            assert(views_of_strings(acc@.push(done)) =~= accv.push(line@));
        }
        acc.push(done);
    }
    if acc.len() == 0 {
        let empty_line = String::new();
        proof {
            assert(views_of_strings(acc@.push(empty_line)) =~= Seq::<Seq<char>>::empty().push(
                Seq::<char>::empty(),
            ));
            assert(Seq::<Seq<char>>::empty().push(Seq::<char>::empty()) =~= seq![
                Seq::<char>::empty(),
            ]);
        }
        acc.push(empty_line);
    }
    acc
}


// --- line blocks ---

/// A block whose first wrapped line stands plain and whose continuation
/// lines are indented four spaces.
pub open spec fn spec_block_lines(lines: Seq<Seq<char>>, size: u32) -> Seq<ReportLineView>
    decreases lines.len(),
{
    if lines.len() == 0 {
        Seq::empty()
    } else if lines.len() == 1 {
        seq![rl(lines[0], size, false)]
    } else {
        spec_block_lines(lines.drop_last(), size).push(rl("    "@ + lines.last(), size, false))
    }
}

/// A block whose every line is indented four spaces.
pub open spec fn spec_cont_lines(lines: Seq<Seq<char>>, size: u32) -> Seq<ReportLineView>
    decreases lines.len(),
{
    if lines.len() == 0 {
        Seq::empty()
    } else {
        spec_cont_lines(lines.drop_last(), size).push(rl("    "@ + lines.last(), size, false))
    }
}

fn indented(line: &String) -> (r: String)
    ensures
        r@ == "    "@ + line@,
{
    let mut t = String::from_str("    ");
    t.append(line.as_str());
    t
}

fn push_block_lines(out: &mut Vec<ReportLine>, lines: &Vec<String>, size: u32)
    ensures
        views_of_lines(final(out)@) == views_of_lines(old(out)@) + spec_block_lines(
            views_of_strings(lines@),
            size,
        ),
{
    let ghost lv = views_of_strings(lines@);
    let mut i: usize = 0;
    proof {
        assert(views_of_lines(out@) + spec_block_lines(lv.take(0), size) =~= views_of_lines(out@));
    }
    while i < lines.len()
        invariant
            0 <= i <= lines@.len(),
            lv == views_of_strings(lines@),
            views_of_lines(out@) == views_of_lines(old(out)@) + spec_block_lines(
                lv.take(i as int),
                size,
            ),
        decreases lines@.len() - i,
    {
        let ghost pre = views_of_lines(out@);
        let text = if i == 0 {
            lines[0].clone()
        } else {
            indented(&lines[i])
        };
        let l = ReportLine { text, size_tenths: size, bold: false };
        proof {
            assert(views_of_lines(out@.push(l)) =~= pre.push(l@));
            assert(lv.take(i + 1).drop_last() =~= lv.take(i as int));
            assert(lv.take(i + 1).last() == lv[i as int]);
        }
        out.push(l);
        i = i + 1;
    }
    proof {
        assert(lv.take(lv.len() as int) =~= lv);
    }
}

fn push_cont_lines(out: &mut Vec<ReportLine>, lines: &Vec<String>, size: u32)
    ensures
        views_of_lines(final(out)@) == views_of_lines(old(out)@) + spec_cont_lines(
            views_of_strings(lines@),
            size,
        ),
{
    let ghost lv = views_of_strings(lines@);
    let mut i: usize = 0;
    proof {
        assert(views_of_lines(out@) + spec_cont_lines(lv.take(0), size) =~= views_of_lines(out@));
    }
    while i < lines.len()
        invariant
            0 <= i <= lines@.len(),
            lv == views_of_strings(lines@),
            views_of_lines(out@) == views_of_lines(old(out)@) + spec_cont_lines(
                lv.take(i as int),
                size,
            ),
        decreases lines@.len() - i,
    {
        let ghost pre = views_of_lines(out@);
        let text = indented(&lines[i]);
        let l = ReportLine { text, size_tenths: size, bold: false };
        proof {
            assert(views_of_lines(out@.push(l)) =~= pre.push(l@));
            assert(lv.take(i + 1).drop_last() =~= lv.take(i as int));
            assert(lv.take(i + 1).last() == lv[i as int]);
        }
        out.push(l);
        i = i + 1;
    }
    proof {
        assert(lv.take(lv.len() as int) =~= lv);
    }
}

// --- one todo's block of lines ---

/// The source text of a todo's title line: a checkbox mark, then the title.
pub open spec fn spec_title_src(t: TodoView) -> Seq<char> {
    (if t.completed {
        "[x] "@
    } else {
        "[ ] "@
    }) + t.title
}

/// The source text of a subtask line: an indent, a mark, the title. The
/// indent collapses when the text is wrapped at whitespace, so the first
/// rendered line starts at the mark.
pub open spec fn spec_subtask_src(st: SubtaskView) -> Seq<char> {
    (if st.completed {
        "    [x] "@
    } else {
        "    [ ] "@
    }) + st.title
}

/// The source text of a description line: a dash, then the trimmed text.
pub open spec fn spec_desc_src(t: TodoView) -> Seq<char> {
    "— "@ + spec_trim(t.description)
}

pub open spec fn spec_subtask_blocks(ss: Seq<SubtaskView>) -> Seq<ReportLineView>
    decreases ss.len(),
{
    if ss.len() == 0 {
        Seq::empty()
    } else {
        spec_subtask_blocks(ss.drop_last()) + spec_block_lines(
            spec_wrap_text(spec_subtask_src(ss.last()), 95),
            127,
        )
    }
}

/// All the lines one todo contributes: its wrapped title at width 90, its
/// trimmed description (when non-blank) at width 95, then its subtasks at
/// width 95.
pub open spec fn spec_todo_block(t: TodoView) -> Seq<ReportLineView> {
    spec_block_lines(spec_wrap_text(spec_title_src(t), 90), 138) + (if spec_trim(
        t.description,
    ).len() > 0 {
        spec_cont_lines(spec_wrap_text(spec_desc_src(t), 95), 115)
    } else {
        Seq::empty()
    }) + spec_subtask_blocks(t.subtasks)
}

pub open spec fn spec_todo_blocks(ts: Seq<TodoView>) -> Seq<ReportLineView>
    decreases ts.len(),
{
    if ts.len() == 0 {
        Seq::empty()
    } else {
        spec_todo_blocks(ts.drop_last()) + spec_todo_block(ts.last())
    }
}

fn push_todo_block(out: &mut Vec<ReportLine>, t: &Todo)
    ensures
        views_of_lines(final(out)@) == views_of_lines(old(out)@) + spec_todo_block(t@),
{
    let ghost x0 = views_of_lines(out@);
    let mut src = String::from_str(
        if t.completed {
            "[x] "
        } else {
            "[ ] "
        },
    );
    src.append(t.title.as_str());
    let title_lines = wrap_text(src.as_str(), 90);
    push_block_lines(out, &title_lines, 138);
    let ghost x1 = views_of_lines(out@);
    let trimmed = trim_str(t.description.as_str());
    if !trimmed.as_str().is_empty() {
        let mut dsrc = String::from_str("— ");
        dsrc.append(trimmed.as_str());
        let desc_lines = wrap_text(dsrc.as_str(), 95);
        push_cont_lines(out, &desc_lines, 115);
    }
    let ghost x2 = views_of_lines(out@);
    proof {
        assert(x2 =~= x0 + (spec_block_lines(spec_wrap_text(spec_title_src(t@), 90), 138) + (
        if spec_trim(t@.description).len() > 0 {
            spec_cont_lines(spec_wrap_text(spec_desc_src(t@), 95), 115)
        } else {
            Seq::<ReportLineView>::empty()
        })));
        assert(t@.subtasks.take(0) =~= Seq::<SubtaskView>::empty());
    }
    let ghost sv = t@.subtasks;
    let mut k: usize = 0;
    while k < t.subtasks.len()
        invariant
            0 <= k <= t.subtasks@.len(),
            sv == t@.subtasks,
            sv.len() == t.subtasks@.len(),
            views_of_lines(out@) == x2 + spec_subtask_blocks(sv.take(k as int)),
        decreases t.subtasks@.len() - k,
    {
        let st = &t.subtasks[k];
        let mut ssrc = String::from_str(
            if st.completed {
                "    [x] "
            } else {
                "    [ ] "
            },
        );
        ssrc.append(st.title.as_str());
        let sub_lines = wrap_text(ssrc.as_str(), 95);
        push_block_lines(out, &sub_lines, 127);
        proof {
            assert(sv.take(k + 1).drop_last() =~= sv.take(k as int));
            assert(sv.take(k + 1).last() == sv[k as int]);
            assert(sv[k as int] == t.subtasks@[k as int]@);
        }
        k = k + 1;
    }
    proof {
        assert(sv.take(sv.len() as int) =~= sv);
        assert(views_of_lines(out@) =~= x0 + spec_todo_block(t@));
    }
}

fn push_todo_blocks(out: &mut Vec<ReportLine>, ts: &Vec<Todo>)
    ensures
        views_of_lines(final(out)@) == views_of_lines(old(out)@) + spec_todo_blocks(
            views_of_todos(ts@),
        ),
{
    let ghost tv = views_of_todos(ts@);
    let mut i: usize = 0;
    proof {
        assert(views_of_lines(out@) + spec_todo_blocks(tv.take(0)) =~= views_of_lines(out@));
    }
    while i < ts.len()
        invariant
            0 <= i <= ts@.len(),
            tv == views_of_todos(ts@),
            views_of_lines(out@) == views_of_lines(old(out)@) + spec_todo_blocks(tv.take(i as int)),
        decreases ts@.len() - i,
    {
        push_todo_block(out, &ts[i]);
        proof {
            assert(tv.take(i + 1).drop_last() =~= tv.take(i as int));
            assert(tv.take(i + 1).last() == tv[i as int]);
        }
        i = i + 1;
    }
    proof {
        assert(tv.take(tv.len() as int) =~= tv);
    }
}

// --- the summary line ---

/// How many subtasks the todos hold altogether.
pub open spec fn spec_total_subtasks(ts: Seq<TodoView>) -> nat
    decreases ts.len(),
{
    if ts.len() == 0 {
        0nat
    } else {
        spec_total_subtasks(ts.drop_last()) + ts.last().subtasks.len()
    }
}

proof fn lemma_total_subtasks_prefix(ts: Seq<TodoView>, j: int)
    requires
        0 <= j <= ts.len(),
    ensures
        spec_total_subtasks(ts.take(j)) <= spec_total_subtasks(ts),
    decreases ts.len(),
{
    if j < ts.len() {
        lemma_total_subtasks_prefix(ts.drop_last(), j);
        assert(ts.drop_last().take(j) =~= ts.take(j));
    } else {
        assert(ts.take(j) =~= ts);
    }
}

/// The completion ratio in tenths of a percent, rounded to the nearest
/// tenth with ties rounding up; 0 when there are no tasks.
pub open spec fn spec_percent_tenths(completed: nat, total: nat) -> nat {
    if total == 0 {
        0nat
    } else {
        (completed * 1000 + total / 2) / total
    }
}

/// The summary line: the counts and the completion percentage with one
/// decimal digit.
pub open spec fn spec_summary_text(ts: Seq<TodoView>) -> Seq<char> {
    let total = ts.len();
    let completed = spec_visible(ts, Filter::Completed).len();
    let active = (total - completed) as nat;
    let subs = spec_total_subtasks(ts);
    let pm = spec_percent_tenths(completed, total);
    "Tasks: "@ + dec_digits(total) + "  •  Completed: "@ + dec_digits(completed)
        + "  •  Active: "@ + dec_digits(active) + "  •  Subtasks: "@ + dec_digits(subs)
        + "  •  Completion: "@ + dec_digits(pm / 10) + seq!['.'] + seq![digit_char(pm % 10)]
        + seq!['%']
}

fn total_subtasks(ts: &Vec<Todo>) -> (r: usize)
    requires
        spec_total_subtasks(views_of_todos(ts@)) <= usize::MAX,
    ensures
        r == spec_total_subtasks(views_of_todos(ts@)),
{
    let ghost tv = views_of_todos(ts@);
    let mut acc: usize = 0;
    let mut i: usize = 0;
    proof {
        assert(tv.take(0) =~= Seq::<TodoView>::empty());
    }
    while i < ts.len()
        invariant
            0 <= i <= ts@.len(),
            tv == views_of_todos(ts@),
            spec_total_subtasks(tv) <= usize::MAX,
            acc == spec_total_subtasks(tv.take(i as int)),
        decreases ts@.len() - i,
    {
        proof {
            assert(tv.take(i + 1).drop_last() =~= tv.take(i as int));
            assert(tv.take(i + 1).last() == tv[i as int]);
            lemma_total_subtasks_prefix(tv, i + 1);
        }
        acc = acc + ts[i].subtasks.len();
        i = i + 1;
    }
    proof {
        assert(tv.take(tv.len() as int) =~= tv);
    }
    acc
}

#[verifier::rlimit(100)]
fn summary_text(ts: &Vec<Todo>) -> (r: String)
    requires
        spec_total_subtasks(views_of_todos(ts@)) <= usize::MAX,
    ensures
        r@ == spec_summary_text(views_of_todos(ts@)),
{
    let ghost tv = views_of_todos(ts@);
    let total = ts.len();
    let completed = count_visible(ts, Filter::Completed);
    proof {
        crate::ops::lemma_visible_len(tv, Filter::Completed);
    }
    let active = total - completed;
    let subs = total_subtasks(ts);
    let pm: u64 = if total == 0 {
        0
    } else {
        let c = completed as u128;
        let t = total as u128;
        let raw = (c * 1000 + t / 2) / t;
        proof {
            let ci = c as int;
            let ti = t as int;
            assert(ci * 1000 + ti / 2 < ti * 1001) by (nonlinear_arith)
                requires
                    ci <= ti,
                    ti >= 1,
            ;
            assert((ci * 1000 + ti / 2) / ti <= 1000) by (nonlinear_arith)
                requires
                    ci * 1000 + ti / 2 < ti * 1001,
                    ti >= 1,
            ;
            assert(raw as int == (ci * 1000 + ti / 2) / ti);
        }
        raw as u64
    };
    proof {
        assert(pm == spec_percent_tenths(
            spec_visible(tv, Filter::Completed).len(),
            tv.len(),
        ));
    }
    let mut v: Vec<char> = Vec::new();
    push_str_chars(&mut v, "Tasks: ");
    push_u64(&mut v, total as u64);
    push_str_chars(&mut v, "  •  Completed: ");
    push_u64(&mut v, completed as u64);
    push_str_chars(&mut v, "  •  Active: ");
    push_u64(&mut v, active as u64);
    push_str_chars(&mut v, "  •  Subtasks: ");
    push_u64(&mut v, subs as u64);
    push_str_chars(&mut v, "  •  Completion: ");
    push_u64(&mut v, pm / 10);
    v.push('.');
    let frac = ((0x30 + (pm % 10)) as u8) as char;
    proof {
        assert(frac == digit_char((pm % 10) as nat));
    }
    v.push(frac);
    v.push('%');
    proof {
        assert(v@ =~= spec_summary_text(tv));
    }
    chars_to_string(&v)
}

// --- the whole report ---

/// The planned report: a heading block, the summary, then the active todos
/// and the completed todos, each section present only when it has todos.
pub open spec fn spec_report(p: ProjectView, date: Seq<char>) -> Seq<ReportLineView> {
    let active = spec_visible(p.todos, Filter::Active);
    let completed = spec_visible(p.todos, Filter::Completed);
    seq![
        rl("Project Report"@, 207, true),
        rl(p.name, 173, false),
        rl("Generated: "@ + date, 115, false),
        rl(Seq::empty(), 92, false),
        rl("Summary"@, 161, true),
        rl(spec_summary_text(p.todos), 127, false),
        rl(Seq::empty(), 69, false),
    ] + (if active.len() > 0 {
        seq![rl("Active Tasks"@, 150, true)] + spec_todo_blocks(active) + seq![
            rl(Seq::empty(), 69, false),
        ]
    } else {
        Seq::empty()
    }) + (if completed.len() > 0 {
        seq![rl("Completed Tasks"@, 150, true)] + spec_todo_blocks(completed)
    } else {
        Seq::empty()
    })
}

fn push_line(out: &mut Vec<ReportLine>, text: String, size: u32, bold: bool)
    ensures
        views_of_lines(final(out)@) == views_of_lines(old(out)@).push(rl(text@, size, bold)),
{
    let l = ReportLine { text, size_tenths: size, bold };
    proof {
        assert(views_of_lines(out@.push(l)) =~= views_of_lines(out@).push(l@));
    }
    out.push(l);
}

/// Plans the report for one project with the given generation timestamp
/// text; the result is exactly `spec_report`.
#[verifier::rlimit(100)]
pub fn render_report(project: &Project, generated_at: &str) -> (r: Vec<ReportLine>)
    requires
        spec_total_subtasks(project@.todos) <= usize::MAX,
    ensures
        views_of_lines(r@) == spec_report(project@, generated_at@),
{
    let mut out: Vec<ReportLine> = Vec::new();
    proof {
        assert(views_of_lines(out@) =~= Seq::<ReportLineView>::empty());
    }
    push_line(&mut out, String::from_str("Project Report"), 207, true);
    push_line(&mut out, project.name.clone(), 173, false);
    let mut gen = String::from_str("Generated: ");
    gen.append(generated_at);
    push_line(&mut out, gen, 115, false);
    push_line(&mut out, String::new(), 92, false);
    push_line(&mut out, String::from_str("Summary"), 161, true);
    let summary = summary_text(&project.todos);
    push_line(&mut out, summary, 127, false);
    push_line(&mut out, String::new(), 69, false);
    let ghost head = views_of_lines(out@);
    proof {
        assert(head =~= seq![
            rl("Project Report"@, 207, true),
            rl(project@.name, 173, false),
            rl("Generated: "@ + generated_at@, 115, false),
            rl(Seq::empty(), 92, false),
            rl("Summary"@, 161, true),
            rl(spec_summary_text(project@.todos), 127, false),
            rl(Seq::empty(), 69, false),
        ]);
    }
    let active = visible(&project.todos, Filter::Active);
    if active.len() > 0 {
        push_line(&mut out, String::from_str("Active Tasks"), 150, true);
        push_todo_blocks(&mut out, &active);
        push_line(&mut out, String::new(), 69, false);
    }
    let ghost mid = views_of_lines(out@);
    proof {
        let av = spec_visible(project@.todos, Filter::Active);
        if av.len() > 0 {
            assert(mid =~= head + (seq![rl("Active Tasks"@, 150, true)] + spec_todo_blocks(av)
                + seq![rl(Seq::empty(), 69, false)]));
        } else {
            assert(mid =~= head + Seq::<ReportLineView>::empty());
        }
    }
    let completed = visible(&project.todos, Filter::Completed);
    if completed.len() > 0 {
        push_line(&mut out, String::from_str("Completed Tasks"), 150, true);
        push_todo_blocks(&mut out, &completed);
    }
    proof {
        assert(views_of_lines(out@) =~= spec_report(project@, generated_at@));
    }
    out
}

/// Plans the printable report for the active project: the application hands
/// the returned lines to the PDF writer. Fails with `No active project
/// selected` exactly when no project is active, and with `Active project not
/// found` exactly when the active id matches no project.
pub fn export_active_project_pdf(
    projects: &Vec<Project>,
    active_id: Option<u64>,
    generated_at: &str,
) -> (r: Result<Vec<ReportLine>, String>)
    requires
        forall|k: int|
            0 <= k < projects@.len() ==> spec_total_subtasks(
                #[trigger] views_of_projects(projects@)[k].todos,
            ) <= usize::MAX,
    ensures
        ({
            let ps = views_of_projects(projects@);
            match active_id {
                None => r matches Err(e) && e@ == "No active project selected"@,
                Some(id) => {
                    let pi = spec_find_project(ps, id);
                    if pi == -1 {
                        r matches Err(e) && e@ == "Active project not found"@
                    } else {
                        r matches Ok(lines) && views_of_lines(lines@) == spec_report(
                            ps[pi],
                            generated_at@,
                        )
                    }
                },
            }
        }),
{
    let Some(id) = active_id else {
        return Err(String::from_str("No active project selected"))
    };
    let pi_opt = find_project_idx(projects, id);
    match pi_opt {
        None => Err(String::from_str("Active project not found")),
        Some(pi) => {
            let lines = render_report(&projects[pi], generated_at);
            Ok(lines)
        },
    }
}

} // verus!
