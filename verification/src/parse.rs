//! Reading the persisted document back: a recursive-descent parser for the
//! layout `codec` renders — an array of project objects with fields in
//! declaration order, tolerant of arbitrary whitespace between tokens, with
//! the `subtasks` and `description` fields optional as older files lack them.

use vstd::prelude::*;

use crate::codec::{digit_val, is_digit_char, is_json_ws};
use crate::models::{
    views_of_projects, views_of_subtasks, views_of_todos, Project, ProjectView, Subtask,
    SubtaskView, Todo, TodoView,
};
use crate::text::chars_to_string;

verus! {

// --- whitespace and tokens ---

/// The first position at or after `i` holding a non-whitespace character,
/// or the end of the text.
pub open spec fn ws_end(s: Seq<char>, i: int) -> int
    decreases s.len() - i,
{
    if i < 0 || i >= s.len() {
        i
    } else if is_json_ws(s[i]) {
        ws_end(s, i + 1)
    } else {
        i
    }
}

pub proof fn lemma_ws_end_bounds(s: Seq<char>, i: int)
    requires
        0 <= i <= s.len(),
    ensures
        i <= ws_end(s, i) <= s.len(),
    decreases s.len() - i,
{
    if i < s.len() && is_json_ws(s[i]) {
        lemma_ws_end_bounds(s, i + 1);
    }
}

fn skip_ws(s: &Vec<char>, i: usize) -> (r: usize)
    requires
        i <= s@.len(),
    ensures
        r == ws_end(s@, i as int),
        i <= r <= s@.len(),
{
    let mut j = i;
    while j < s.len() && is_ws_exec(s[j])
        invariant
            i <= j <= s@.len(),
            ws_end(s@, i as int) == ws_end(s@, j as int),
        decreases s@.len() - j,
    {
        j = j + 1;
    }
    proof {
        lemma_ws_end_bounds(s@, i as int);
    }
    j
}

fn is_ws_exec(c: char) -> (r: bool)
    ensures
        r == is_json_ws(c),
{
    c == ' ' || c == '\n' || c == '\t' || c == '\r'
}

/// Whether the text carries exactly `lit` starting at position `i`.
pub open spec fn matches_at(s: Seq<char>, i: int, lit: Seq<char>) -> bool {
    0 <= i && i + lit.len() <= s.len() && s.subrange(i, i + lit.len()) == lit
}

fn match_lit(s: &Vec<char>, i: usize, lit: &str) -> (r: Option<usize>)
    requires
        i <= s@.len(),
    ensures
        match r {
            Some(j) => matches_at(s@, i as int, lit@) && j == i + lit@.len(),
            None => !matches_at(s@, i as int, lit@),
        },
{
    let m = lit.unicode_len();
    let n = s.len();
    if m > n - i {
        proof {
            assert(!matches_at(s@, i as int, lit@));
        }
        return None;
    }
    let mut k: usize = 0;
    while k < m
        invariant
            n == s@.len(),
            i + m <= n,
            m == lit@.len(),
            0 <= k <= m,
            forall|q: int| 0 <= q < k ==> s@[i + q] == lit@[q],
        decreases m - k,
    {
        if s[i + k] != lit.get_char(k) {
            proof {
                assert(s@.subrange(i as int, i + lit@.len()) != lit@) by {
                    assert(s@.subrange(i as int, i + lit@.len())[k as int] == s@[i + k]);
                }
            }
            return None;
        }
        k = k + 1;
    }
    proof {
        assert(s@.subrange(i as int, i + lit@.len()) =~= lit@);
    }
    Some(i + m)
}

// --- numbers ---

/// The first position at or after `i` holding a non-digit, or the end.
pub open spec fn digits_end(s: Seq<char>, i: int) -> int
    decreases s.len() - i,
{
    if i < 0 || i >= s.len() {
        i
    } else if is_digit_char(s[i]) {
        digits_end(s, i + 1)
    } else {
        i
    }
}

/// The value of the digit run `s[i..j)`, most significant digit first.
pub open spec fn digits_val(s: Seq<char>, i: int, j: int) -> nat
    decreases j - i,
{
    if j <= i {
        0
    } else {
        digits_val(s, i, j - 1) * 10 + digit_val(s[j - 1])
    }
}

proof fn lemma_digits_val_grows(s: Seq<char>, i: int, k: int, j: int)
    requires
        i <= k <= j,
    ensures
        digits_val(s, i, j) >= digits_val(s, i, k),
    decreases j - k,
{
    if k < j {
        lemma_digits_val_grows(s, i, k, j - 1);
    }
}

/// A decimal `u64` literal: at least one digit, every digit taken, and a
/// value within range.
pub open spec fn spec_parse_u64(s: Seq<char>, i: int) -> Option<(u64, int)> {
    let j = digits_end(s, i);
    if j == i {
        None
    } else if digits_val(s, i, j) > u64::MAX {
        None
    } else {
        Some((digits_val(s, i, j) as u64, j))
    }
}

fn parse_u64_at(s: &Vec<char>, i: usize) -> (r: Option<(u64, usize)>)
    requires
        i <= s@.len(),
    ensures
        match r {
            Some((v, j)) => spec_parse_u64(s@, i as int) == Some((v, j as int)) && i < j <= s@.len(),
            None => spec_parse_u64(s@, i as int) is None,
        },
{
    let n = s.len();
    let mut j = i;
    while j < n && is_digit_exec(s[j])
        invariant
            i <= j <= n,
            n == s@.len(),
            digits_end(s@, i as int) == digits_end(s@, j as int),
            forall|q: int| i <= q < j ==> is_digit_char(s@[q]),
        decreases n - j,
    {
        j = j + 1;
    }
    proof {
        assert(digits_end(s@, j as int) == j);
    }
    if j == i {
        return None;
    }
    let mut acc: u64 = 0;
    let mut k = i;
    while k < j
        invariant
            i < j,
            i <= k <= j <= n,
            n == s@.len(),
            digits_end(s@, i as int) == j as int,
            forall|q: int| i <= q < j ==> is_digit_char(s@[q]),
            acc == digits_val(s@, i as int, k as int),
        decreases j - k,
    {
        let c = s[k];
        proof {
            assert(is_digit_char(s@[k as int]));
        }
        let d = (c as u32 - 0x30) as u64;
        proof {
            assert(d == digit_val(s@[k as int]));
        }
        if acc > (u64::MAX - d) / 10 {
            proof {
                assert(d <= 9);
                assert(acc * 10 + d > u64::MAX) by (nonlinear_arith)
                    requires
                        acc > (u64::MAX - d) / 10,
                        d <= 9,
                ;
                assert(digits_val(s@, i as int, k + 1) == acc * 10 + d);
                lemma_digits_val_grows(s@, i as int, k + 1, j as int);
                assert(digits_val(s@, i as int, j as int) > u64::MAX);
            }
            return None;
        }
        acc = acc * 10 + d;
        k = k + 1;
    }
    Some((acc, j))
}

fn is_digit_exec(c: char) -> (r: bool)
    ensures
        r == is_digit_char(c),
{
    let u = c as u32;
    0x30 <= u && u <= 0x39
}

// --- booleans ---

pub open spec fn spec_parse_bool(s: Seq<char>, i: int) -> Option<(bool, int)> {
    if matches_at(s, i, "true"@) {
        Some((true, i + "true"@.len()))
    } else if matches_at(s, i, "false"@) {
        Some((false, i + "false"@.len()))
    } else {
        None
    }
}

fn parse_bool_at(s: &Vec<char>, i: usize) -> (r: Option<(bool, usize)>)
    requires
        i <= s@.len(),
    ensures
        match r {
            Some((v, j)) => spec_parse_bool(s@, i as int) == Some((v, j as int)) && i < j
                <= s@.len(),
            None => spec_parse_bool(s@, i as int) is None,
        },
{
    proof {
        reveal_strlit("true");
        reveal_strlit("false");
    }
    if let Some(j) = match_lit(s, i, "true") {
        return Some((true, j));
    }
    if let Some(j) = match_lit(s, i, "false") {
        return Some((false, j));
    }
    None
}

// --- strings ---

/// The value of one hexadecimal digit character, or -1 when it is none.
pub open spec fn hex_val(c: char) -> int {
    if 0x30 <= (c as u32) && (c as u32) <= 0x39 {
        (c as u32) - 0x30
    } else if 0x61 <= (c as u32) && (c as u32) <= 0x66 {
        (c as u32) - 0x57
    } else if 0x41 <= (c as u32) && (c as u32) <= 0x46 {
        (c as u32) - 0x37
    } else {
        -1
    }
}

fn hex_val_exec(c: char) -> (r: i32)
    ensures
        r as int == hex_val(c),
        -1 <= r < 16,
{
    let u = c as u32;
    if 0x30 <= u && u <= 0x39 {
        (u - 0x30) as i32
    } else if 0x61 <= u && u <= 0x66 {
        (u - 0x57) as i32
    } else if 0x41 <= u && u <= 0x46 {
        (u - 0x37) as i32
    } else {
        -1i32
    }
}

/// The characters of a string literal after its opening quote: plain
/// characters, the short escapes, and `\u00XX` escapes for the remaining
/// control characters. Ends at the closing quote.
pub open spec fn spec_parse_string_body(s: Seq<char>, i: int, acc: Seq<char>) -> Option<
    (Seq<char>, int),
>
    decreases s.len() - i,
{
    if i < 0 || i >= s.len() {
        None
    } else if s[i] == '"' {
        Some((acc, i + 1))
    } else if s[i] == '\\' {
        if i + 1 >= s.len() {
            None
        } else {
            let e = s[i + 1];
            if e == '"' {
                spec_parse_string_body(s, i + 2, acc.push('"'))
            } else if e == '\\' {
                spec_parse_string_body(s, i + 2, acc.push('\\'))
            } else if e == '/' {
                spec_parse_string_body(s, i + 2, acc.push('/'))
            } else if e == 'b' {
                spec_parse_string_body(s, i + 2, acc.push((0x8u8) as char))
            } else if e == 'f' {
                spec_parse_string_body(s, i + 2, acc.push((0xcu8) as char))
            } else if e == 'n' {
                spec_parse_string_body(s, i + 2, acc.push('\n'))
            } else if e == 'r' {
                spec_parse_string_body(s, i + 2, acc.push('\r'))
            } else if e == 't' {
                spec_parse_string_body(s, i + 2, acc.push('\t'))
            } else if e == 'u' {
                if i + 6 > s.len() {
                    None
                } else {
                    let h1 = hex_val(s[i + 2]);
                    let h2 = hex_val(s[i + 3]);
                    let h3 = hex_val(s[i + 4]);
                    let h4 = hex_val(s[i + 5]);
                    if h1 < 0 || h2 < 0 || h3 < 0 || h4 < 0 {
                        None
                    } else {
                        let code = h1 * 4096 + h2 * 256 + h3 * 16 + h4;
                        if code < 0x20 {
                            spec_parse_string_body(s, i + 6, acc.push((code as u8) as char))
                        } else {
                            None
                        }
                    }
                }
            } else {
                None
            }
        }
    } else if (s[i] as u32) < 0x20 {
        None
    } else {
        spec_parse_string_body(s, i + 1, acc.push(s[i]))
    }
}

/// A string literal: the opening quote, then its body.
pub open spec fn spec_parse_string(s: Seq<char>, i: int) -> Option<(Seq<char>, int)> {
    if 0 <= i < s.len() && s[i] == '"' {
        spec_parse_string_body(s, i + 1, Seq::empty())
    } else {
        None
    }
}

fn parse_string_at(s: &Vec<char>, i: usize) -> (r: Option<(String, usize)>)
    requires
        i <= s@.len(),
    ensures
        match r {
            Some((v, j)) => spec_parse_string(s@, i as int) == Some((v@, j as int)) && i < j
                <= s@.len(),
            None => spec_parse_string(s@, i as int) is None,
        },
{
    let n = s.len();
    if i >= n || s[i] != '"' {
        return None;
    }
    let mut acc: Vec<char> = Vec::new();
    let mut cur = i + 1;
    loop
        invariant
            i < n,
            n == s@.len(),
            s@[i as int] == '"',
            i + 1 <= cur <= n,
            spec_parse_string_body(s@, i + 1, Seq::empty()) == spec_parse_string_body(
                s@,
                cur as int,
                acc@,
            ),
        decreases n - cur,
    {
        if cur >= n {
            return None;
        }
        let c = s[cur];
        if c == '"' {
            proof {
                assert(spec_parse_string_body(s@, cur as int, acc@) == Some((acc@, cur + 1)));
                assert(spec_parse_string(s@, i as int) == spec_parse_string_body(
                    s@,
                    i + 1,
                    Seq::empty(),
                ));
                assert(spec_parse_string(s@, i as int) == Some((acc@, cur + 1)));
            }
            let out = chars_to_string(&acc);
            return Some((out, cur + 1));
        }
        if c == '\\' {
            if cur + 1 >= n {
                return None;
            }
            let e = s[cur + 1];
            if e == '"' {
                acc.push('"');
                cur = cur + 2;
            } else if e == '\\' {
                acc.push('\\');
                cur = cur + 2;
            } else if e == '/' {
                acc.push('/');
                cur = cur + 2;
            } else if e == 'b' {
                acc.push((0x8u8) as char);
                cur = cur + 2;
            } else if e == 'f' {
                acc.push((0xcu8) as char);
                cur = cur + 2;
            } else if e == 'n' {
                acc.push('\n');
                cur = cur + 2;
            } else if e == 'r' {
                acc.push('\r');
                cur = cur + 2;
            } else if e == 't' {
                acc.push('\t');
                cur = cur + 2;
            } else if e == 'u' {
                if n - cur < 6 {
                    return None;
                }
                let h1 = hex_val_exec(s[cur + 2]);
                let h2 = hex_val_exec(s[cur + 3]);
                let h3 = hex_val_exec(s[cur + 4]);
                let h4 = hex_val_exec(s[cur + 5]);
                if h1 < 0 || h2 < 0 || h3 < 0 || h4 < 0 {
                    return None;
                }
                let code: i32 = h1 * 4096 + h2 * 256 + h3 * 16 + h4;
                if code >= 0x20 {
                    return None;
                }
                acc.push((code as u8) as char);
                cur = cur + 6;
            } else {
                return None;
            }
        } else if (c as u32) < 0x20 {
            return None;
        } else {
            acc.push(c);
            cur = cur + 1;
        }
    }
}

// --- keys and punctuation ---

/// A quoted field key at `i`, then optional whitespace, a colon, and more
/// optional whitespace; the position after them.
pub open spec fn spec_key(s: Seq<char>, i: int, key: Seq<char>) -> Option<int> {
    if matches_at(s, i, key) {
        let j = ws_end(s, i + key.len());
        if 0 <= j < s.len() && s[j] == ':' {
            Some(ws_end(s, j + 1))
        } else {
            None
        }
    } else {
        None
    }
}

fn parse_key_at(s: &Vec<char>, i: usize, key: &str) -> (r: Option<usize>)
    requires
        i <= s@.len(),
    ensures
        match r {
            Some(j) => spec_key(s@, i as int, key@) == Some(j as int) && i <= j <= s@.len(),
            None => spec_key(s@, i as int, key@) is None,
        },
{
    let Some(j0) = match_lit(s, i, key) else { return None };
    let j = skip_ws(s, j0);
    if j < s.len() && s[j] == ':' {
        let r = skip_ws(s, j + 1);
        Some(r)
    } else {
        None
    }
}

/// Optional whitespace, a comma, and optional whitespace.
pub open spec fn spec_comma(s: Seq<char>, i: int) -> Option<int> {
    let j = ws_end(s, i);
    if 0 <= j < s.len() && s[j] == ',' {
        Some(ws_end(s, j + 1))
    } else {
        None
    }
}

fn parse_comma_at(s: &Vec<char>, i: usize) -> (r: Option<usize>)
    requires
        i <= s@.len(),
    ensures
        match r {
            Some(j) => spec_comma(s@, i as int) == Some(j as int) && i <= j <= s@.len(),
            None => spec_comma(s@, i as int) is None,
        },
{
    let j = skip_ws(s, i);
    if j < s.len() && s[j] == ',' {
        let r = skip_ws(s, j + 1);
        Some(r)
    } else {
        None
    }
}

/// Optional whitespace, then the given closing character.
pub open spec fn spec_close(s: Seq<char>, i: int, c: char) -> Option<int> {
    let j = ws_end(s, i);
    if 0 <= j < s.len() && s[j] == c {
        Some(j + 1)
    } else {
        None
    }
}

fn parse_close_at(s: &Vec<char>, i: usize, c: char) -> (r: Option<usize>)
    requires
        i <= s@.len(),
    ensures
        match r {
            Some(j) => spec_close(s@, i as int, c) == Some(j as int) && i < j <= s@.len(),
            None => spec_close(s@, i as int, c) is None,
        },
{
    let j = skip_ws(s, i);
    if j < s.len() && s[j] == c {
        Some(j + 1)
    } else {
        None
    }
}


// --- objects and arrays ---

/// A subtask object: `id`, `title`, `completed`, in order, all required.
pub open spec fn spec_parse_subtask(s: Seq<char>, i: int) -> Option<(SubtaskView, int)> {
    if !(0 <= i < s.len() && s[i] == '{') {
        None
    } else {
        let i1 = ws_end(s, i + 1);
        match spec_key(s, i1, "\"id\""@) {
            None => None,
            Some(i2) => match spec_parse_u64(s, i2) {
                None => None,
                Some((id, i3)) => match spec_comma(s, i3) {
                    None => None,
                    Some(i5) => match spec_key(s, i5, "\"title\""@) {
                        None => None,
                        Some(i6) => match spec_parse_string(s, i6) {
                            None => None,
                            Some((title, i7)) => match spec_comma(s, i7) {
                                None => None,
                                Some(i9) => match spec_key(s, i9, "\"completed\""@) {
                                    None => None,
                                    Some(i10) => match spec_parse_bool(s, i10) {
                                        None => None,
                                        Some((completed, i11)) => match spec_close(s, i11, '}') {
                                            None => None,
                                            Some(i12) => Some(
                                                (SubtaskView { id, title, completed }, i12),
                                            ),
                                        },
                                    },
                                },
                            },
                        },
                    },
                },
            },
        }
    }
}

fn parse_subtask_at(s: &Vec<char>, i: usize) -> (r: Option<(Subtask, usize)>)
    requires
        i <= s@.len(),
    ensures
        match r {
            Some((v, j)) => spec_parse_subtask(s@, i as int) == Some((v@, j as int)) && i < j
                <= s@.len(),
            None => spec_parse_subtask(s@, i as int) is None,
        },
{
    let n = s.len();
    if i >= n || s[i] != '{' {
        return None;
    }
    let i1 = skip_ws(s, i + 1);
    let Some(i2) = parse_key_at(s, i1, "\"id\"") else { return None };
    let Some((id, i3)) = parse_u64_at(s, i2) else { return None };
    let Some(i5) = parse_comma_at(s, i3) else { return None };
    let Some(i6) = parse_key_at(s, i5, "\"title\"") else { return None };
    let Some((title, i7)) = parse_string_at(s, i6) else { return None };
    let Some(i9) = parse_comma_at(s, i7) else { return None };
    let Some(i10) = parse_key_at(s, i9, "\"completed\"") else { return None };
    let Some((completed, i11)) = parse_bool_at(s, i10) else { return None };
    let Some(i12) = parse_close_at(s, i11, '}') else { return None };
    Some((Subtask { id, title, completed }, i12))
}

/// A run of subtask objects separated by commas, ending at `]`; the closing
/// bracket is consumed.
pub open spec fn spec_parse_subtask_items(s: Seq<char>, i: int, acc: Seq<SubtaskView>) -> Option<
    (Seq<SubtaskView>, int),
>
    decreases s.len() - i,
{
    if i < 0 || i >= s.len() {
        None
    } else {
        match spec_parse_subtask(s, i) {
            None => None,
            Some((st, j)) => {
                let k = ws_end(s, j);
                if 0 <= k < s.len() && s[k] == ',' {
                    let m = ws_end(s, k + 1);
                    if i < m && m <= s.len() {
                        spec_parse_subtask_items(s, m, acc.push(st))
                    } else {
                        None
                    }
                } else if 0 <= k < s.len() && s[k] == ']' {
                    Some((acc.push(st), k + 1))
                } else {
                    None
                }
            },
        }
    }
}

fn parse_subtask_items_at(s: &Vec<char>, i: usize) -> (r: Option<(Vec<Subtask>, usize)>)
    requires
        i <= s@.len(),
    ensures
        match r {
            Some((v, j)) => spec_parse_subtask_items(s@, i as int, Seq::empty()) == Some(
                (views_of_subtasks(v@), j as int),
            ) && i < j <= s@.len(),
            None => spec_parse_subtask_items(s@, i as int, Seq::empty()) is None,
        },
{
    let n = s.len();
    let mut acc: Vec<Subtask> = Vec::new();
    proof {
        assert(views_of_subtasks(acc@) =~= Seq::<SubtaskView>::empty());
    }
    let mut cur = i;
    loop
        invariant
            n == s@.len(),
            i <= cur <= n,
            spec_parse_subtask_items(s@, i as int, Seq::empty()) == spec_parse_subtask_items(
                s@,
                cur as int,
                views_of_subtasks(acc@),
            ),
        decreases n - cur,
    {
        let Some((st, j)) = parse_subtask_at(s, cur) else { return None };
        let k = skip_ws(s, j);
        proof {
            assert(views_of_subtasks(acc@.push(st)) =~= views_of_subtasks(acc@).push(st@));
        }
        if k < n && s[k] == ',' {
            let m = skip_ws(s, k + 1);
            acc.push(st);
            cur = m;
        } else if k < n && s[k] == ']' {
            acc.push(st);
            return Some((acc, k + 1));
        } else {
            return None;
        }
    }
}

/// A subtask array: `[]`, or `[` items `]`.
pub open spec fn spec_parse_subtasks_arr(s: Seq<char>, i: int) -> Option<(Seq<SubtaskView>, int)> {
    if !(0 <= i < s.len() && s[i] == '[') {
        None
    } else {
        let j = ws_end(s, i + 1);
        if 0 <= j < s.len() && s[j] == ']' {
            Some((Seq::empty(), j + 1))
        } else {
            spec_parse_subtask_items(s, j, Seq::empty())
        }
    }
}

fn parse_subtasks_arr_at(s: &Vec<char>, i: usize) -> (r: Option<(Vec<Subtask>, usize)>)
    requires
        i <= s@.len(),
    ensures
        match r {
            Some((v, j)) => spec_parse_subtasks_arr(s@, i as int) == Some(
                (views_of_subtasks(v@), j as int),
            ) && i < j <= s@.len(),
            None => spec_parse_subtasks_arr(s@, i as int) is None,
        },
{
    let n = s.len();
    if i >= n || s[i] != '[' {
        return None;
    }
    let j = skip_ws(s, i + 1);
    if j < n && s[j] == ']' {
        let empty: Vec<Subtask> = Vec::new();
        proof {
            assert(views_of_subtasks(empty@) =~= Seq::<SubtaskView>::empty());
        }
        return Some((empty, j + 1));
    }
    parse_subtask_items_at(s, j)
}

/// A todo object: `id`, `title`, `completed` required in order; `subtasks`
/// and `description` optional, defaulting to empty, as older files lack them.
pub open spec fn spec_parse_todo(s: Seq<char>, i: int) -> Option<(TodoView, int)> {
    if !(0 <= i < s.len() && s[i] == '{') {
        None
    } else {
        let i1 = ws_end(s, i + 1);
        match spec_key(s, i1, "\"id\""@) {
            None => None,
            Some(i2) => match spec_parse_u64(s, i2) {
                None => None,
                Some((id, i3)) => match spec_comma(s, i3) {
                    None => None,
                    Some(i5) => match spec_key(s, i5, "\"title\""@) {
                        None => None,
                        Some(i6) => match spec_parse_string(s, i6) {
                            None => None,
                            Some((title, i7)) => match spec_comma(s, i7) {
                                None => None,
                                Some(i9) => match spec_key(s, i9, "\"completed\""@) {
                                    None => None,
                                    Some(i10) => match spec_parse_bool(s, i10) {
                                        None => None,
                                        Some((completed, i11)) => spec_parse_todo_tail(
                                            s,
                                            i11,
                                            id,
                                            title,
                                            completed,
                                        ),
                                    },
                                },
                            },
                        },
                    },
                },
            },
        }
    }
}

/// What may follow a todo's `completed` field: the closing brace, or a
/// `subtasks` array and then optionally a `description`, or a `description`
/// alone.
pub open spec fn spec_parse_todo_tail(
    s: Seq<char>,
    i: int,
    id: u64,
    title: Seq<char>,
    completed: bool,
) -> Option<(TodoView, int)> {
    let j = ws_end(s, i);
    if 0 <= j < s.len() && s[j] == '}' {
        Some(
            (
                TodoView {
                    id,
                    title,
                    completed,
                    subtasks: Seq::empty(),
                    description: Seq::empty(),
                },
                j + 1,
            ),
        )
    } else if 0 <= j < s.len() && s[j] == ',' {
        let i13 = ws_end(s, j + 1);
        match spec_key(s, i13, "\"subtasks\""@) {
            Some(i14) => match spec_parse_subtasks_arr(s, i14) {
                None => None,
                Some((subtasks, i15)) => {
                    let i16 = ws_end(s, i15);
                    if 0 <= i16 < s.len() && s[i16] == '}' {
                        Some(
                            (
                                TodoView {
                                    id,
                                    title,
                                    completed,
                                    subtasks,
                                    description: Seq::empty(),
                                },
                                i16 + 1,
                            ),
                        )
                    } else if 0 <= i16 < s.len() && s[i16] == ',' {
                        let i17 = ws_end(s, i16 + 1);
                        match spec_key(s, i17, "\"description\""@) {
                            None => None,
                            Some(i18) => match spec_parse_string(s, i18) {
                                None => None,
                                Some((description, i19)) => match spec_close(s, i19, '}') {
                                    None => None,
                                    Some(i20) => Some(
                                        (
                                            TodoView { id, title, completed, subtasks, description },
                                            i20,
                                        ),
                                    ),
                                },
                            },
                        }
                    } else {
                        None
                    }
                },
            },
            None => match spec_key(s, i13, "\"description\""@) {
                None => None,
                Some(i14) => match spec_parse_string(s, i14) {
                    None => None,
                    Some((description, i15)) => match spec_close(s, i15, '}') {
                        None => None,
                        Some(i16) => Some(
                            (
                                TodoView {
                                    id,
                                    title,
                                    completed,
                                    subtasks: Seq::empty(),
                                    description,
                                },
                                i16,
                            ),
                        ),
                    },
                },
            },
        }
    } else {
        None
    }
}

fn parse_todo_at(s: &Vec<char>, i: usize) -> (r: Option<(Todo, usize)>)
    requires
        i <= s@.len(),
    ensures
        match r {
            Some((v, j)) => spec_parse_todo(s@, i as int) == Some((v@, j as int)) && i < j
                <= s@.len(),
            None => spec_parse_todo(s@, i as int) is None,
        },
{
    let n = s.len();
    if i >= n || s[i] != '{' {
        return None;
    }
    let i1 = skip_ws(s, i + 1);
    let Some(i2) = parse_key_at(s, i1, "\"id\"") else { return None };
    let Some((id, i3)) = parse_u64_at(s, i2) else { return None };
    let Some(i5) = parse_comma_at(s, i3) else { return None };
    let Some(i6) = parse_key_at(s, i5, "\"title\"") else { return None };
    let Some((title, i7)) = parse_string_at(s, i6) else { return None };
    let Some(i9) = parse_comma_at(s, i7) else { return None };
    let Some(i10) = parse_key_at(s, i9, "\"completed\"") else { return None };
    let Some((completed, i11)) = parse_bool_at(s, i10) else { return None };
    let j = skip_ws(s, i11);
    if j < n && s[j] == '}' {
        let t = Todo {
            id,
            title,
            completed,
            subtasks: Vec::new(),
            description: String::new(),
        };
        proof {
            assert(views_of_subtasks(t.subtasks@) =~= Seq::<SubtaskView>::empty());
        }
        return Some((t, j + 1));
    }
    if !(j < n && s[j] == ',') {
        return None;
    }
    let i13 = skip_ws(s, j + 1);
    if let Some(i14) = parse_key_at(s, i13, "\"subtasks\"") {
        let Some((subtasks, i15)) = parse_subtasks_arr_at(s, i14) else { return None };
        let i16 = skip_ws(s, i15);
        if i16 < n && s[i16] == '}' {
            let t = Todo { id, title, completed, subtasks, description: String::new() };
            return Some((t, i16 + 1));
        }
        if !(i16 < n && s[i16] == ',') {
            return None;
        }
        let i17 = skip_ws(s, i16 + 1);
        let Some(i18) = parse_key_at(s, i17, "\"description\"") else { return None };
        let Some((description, i19)) = parse_string_at(s, i18) else { return None };
        let Some(i20) = parse_close_at(s, i19, '}') else { return None };
        let t = Todo { id, title, completed, subtasks, description };
        Some((t, i20))
    } else {
        let Some(i14) = parse_key_at(s, i13, "\"description\"") else { return None };
        let Some((description, i15)) = parse_string_at(s, i14) else { return None };
        let Some(i16) = parse_close_at(s, i15, '}') else { return None };
        let t = Todo { id, title, completed, subtasks: Vec::new(), description };
        proof {
            assert(views_of_subtasks(t.subtasks@) =~= Seq::<SubtaskView>::empty());
        }
        Some((t, i16))
    }
}

/// A run of todo objects separated by commas, ending at `]`.
pub open spec fn spec_parse_todo_items(s: Seq<char>, i: int, acc: Seq<TodoView>) -> Option<
    (Seq<TodoView>, int),
>
    decreases s.len() - i,
{
    if i < 0 || i >= s.len() {
        None
    } else {
        match spec_parse_todo(s, i) {
            None => None,
            Some((t, j)) => {
                let k = ws_end(s, j);
                if 0 <= k < s.len() && s[k] == ',' {
                    let m = ws_end(s, k + 1);
                    if i < m && m <= s.len() {
                        spec_parse_todo_items(s, m, acc.push(t))
                    } else {
                        None
                    }
                } else if 0 <= k < s.len() && s[k] == ']' {
                    Some((acc.push(t), k + 1))
                } else {
                    None
                }
            },
        }
    }
}

fn parse_todo_items_at(s: &Vec<char>, i: usize) -> (r: Option<(Vec<Todo>, usize)>)
    requires
        i <= s@.len(),
    ensures
        match r {
            Some((v, j)) => spec_parse_todo_items(s@, i as int, Seq::empty()) == Some(
                (views_of_todos(v@), j as int),
            ) && i < j <= s@.len(),
            None => spec_parse_todo_items(s@, i as int, Seq::empty()) is None,
        },
{
    let n = s.len();
    let mut acc: Vec<Todo> = Vec::new();
    proof {
        assert(views_of_todos(acc@) =~= Seq::<TodoView>::empty());
    }
    let mut cur = i;
    loop
        invariant
            n == s@.len(),
            i <= cur <= n,
            spec_parse_todo_items(s@, i as int, Seq::empty()) == spec_parse_todo_items(
                s@,
                cur as int,
                views_of_todos(acc@),
            ),
        decreases n - cur,
    {
        let Some((t, j)) = parse_todo_at(s, cur) else { return None };
        let k = skip_ws(s, j);
        proof {
            assert(views_of_todos(acc@.push(t)) =~= views_of_todos(acc@).push(t@));
        }
        if k < n && s[k] == ',' {
            let m = skip_ws(s, k + 1);
            acc.push(t);
            cur = m;
        } else if k < n && s[k] == ']' {
            acc.push(t);
            return Some((acc, k + 1));
        } else {
            return None;
        }
    }
}

/// A todo array: `[]`, or `[` items `]`.
pub open spec fn spec_parse_todos_arr(s: Seq<char>, i: int) -> Option<(Seq<TodoView>, int)> {
    if !(0 <= i < s.len() && s[i] == '[') {
        None
    } else {
        let j = ws_end(s, i + 1);
        if 0 <= j < s.len() && s[j] == ']' {
            Some((Seq::empty(), j + 1))
        } else {
            spec_parse_todo_items(s, j, Seq::empty())
        }
    }
}

fn parse_todos_arr_at(s: &Vec<char>, i: usize) -> (r: Option<(Vec<Todo>, usize)>)
    requires
        i <= s@.len(),
    ensures
        match r {
            Some((v, j)) => spec_parse_todos_arr(s@, i as int) == Some(
                (views_of_todos(v@), j as int),
            ) && i < j <= s@.len(),
            None => spec_parse_todos_arr(s@, i as int) is None,
        },
{
    let n = s.len();
    if i >= n || s[i] != '[' {
        return None;
    }
    let j = skip_ws(s, i + 1);
    if j < n && s[j] == ']' {
        let empty: Vec<Todo> = Vec::new();
        proof {
            assert(views_of_todos(empty@) =~= Seq::<TodoView>::empty());
        }
        return Some((empty, j + 1));
    }
    parse_todo_items_at(s, j)
}

/// A project object: `id` and `name` required in order; `todos` optional,
/// defaulting to empty.
pub open spec fn spec_parse_project(s: Seq<char>, i: int) -> Option<(ProjectView, int)> {
    if !(0 <= i < s.len() && s[i] == '{') {
        None
    } else {
        let i1 = ws_end(s, i + 1);
        match spec_key(s, i1, "\"id\""@) {
            None => None,
            Some(i2) => match spec_parse_u64(s, i2) {
                None => None,
                Some((id, i3)) => match spec_comma(s, i3) {
                    None => None,
                    Some(i5) => match spec_key(s, i5, "\"name\""@) {
                        None => None,
                        Some(i6) => match spec_parse_string(s, i6) {
                            None => None,
                            Some((name, i7)) => {
                                let j = ws_end(s, i7);
                                if 0 <= j < s.len() && s[j] == '}' {
                                    Some((ProjectView { id, name, todos: Seq::empty() }, j + 1))
                                } else if 0 <= j < s.len() && s[j] == ',' {
                                    let i9 = ws_end(s, j + 1);
                                    match spec_key(s, i9, "\"todos\""@) {
                                        None => None,
                                        Some(i10) => match spec_parse_todos_arr(s, i10) {
                                            None => None,
                                            Some((todos, i11)) => match spec_close(s, i11, '}') {
                                                None => None,
                                                Some(i12) => Some(
                                                    (ProjectView { id, name, todos }, i12),
                                                ),
                                            },
                                        },
                                    }
                                } else {
                                    None
                                }
                            },
                        },
                    },
                },
            },
        }
    }
}

fn parse_project_at(s: &Vec<char>, i: usize) -> (r: Option<(Project, usize)>)
    requires
        i <= s@.len(),
    ensures
        match r {
            Some((v, j)) => spec_parse_project(s@, i as int) == Some((v@, j as int)) && i < j
                <= s@.len(),
            None => spec_parse_project(s@, i as int) is None,
        },
{
    let n = s.len();
    if i >= n || s[i] != '{' {
        return None;
    }
    let i1 = skip_ws(s, i + 1);
    let Some(i2) = parse_key_at(s, i1, "\"id\"") else { return None };
    let Some((id, i3)) = parse_u64_at(s, i2) else { return None };
    let Some(i5) = parse_comma_at(s, i3) else { return None };
    let Some(i6) = parse_key_at(s, i5, "\"name\"") else { return None };
    let Some((name, i7)) = parse_string_at(s, i6) else { return None };
    let j = skip_ws(s, i7);
    if j < n && s[j] == '}' {
        let p = Project { id, name, todos: Vec::new() };
        proof {
            assert(views_of_todos(p.todos@) =~= Seq::<TodoView>::empty());
        }
        return Some((p, j + 1));
    }
    if !(j < n && s[j] == ',') {
        return None;
    }
    let i9 = skip_ws(s, j + 1);
    let Some(i10) = parse_key_at(s, i9, "\"todos\"") else { return None };
    let Some((todos, i11)) = parse_todos_arr_at(s, i10) else { return None };
    let Some(i12) = parse_close_at(s, i11, '}') else { return None };
    Some((Project { id, name, todos }, i12))
}

/// A run of project objects separated by commas, ending at `]`.
pub open spec fn spec_parse_project_items(s: Seq<char>, i: int, acc: Seq<ProjectView>) -> Option<
    (Seq<ProjectView>, int),
>
    decreases s.len() - i,
{
    if i < 0 || i >= s.len() {
        None
    } else {
        match spec_parse_project(s, i) {
            None => None,
            Some((p, j)) => {
                let k = ws_end(s, j);
                if 0 <= k < s.len() && s[k] == ',' {
                    let m = ws_end(s, k + 1);
                    if i < m && m <= s.len() {
                        spec_parse_project_items(s, m, acc.push(p))
                    } else {
                        None
                    }
                } else if 0 <= k < s.len() && s[k] == ']' {
                    Some((acc.push(p), k + 1))
                } else {
                    None
                }
            },
        }
    }
}

fn parse_project_items_at(s: &Vec<char>, i: usize) -> (r: Option<(Vec<Project>, usize)>)
    requires
        i <= s@.len(),
    ensures
        match r {
            Some((v, j)) => spec_parse_project_items(s@, i as int, Seq::empty()) == Some(
                (views_of_projects(v@), j as int),
            ) && i < j <= s@.len(),
            None => spec_parse_project_items(s@, i as int, Seq::empty()) is None,
        },
{
    let n = s.len();
    let mut acc: Vec<Project> = Vec::new();
    proof {
        assert(views_of_projects(acc@) =~= Seq::<ProjectView>::empty());
    }
    let mut cur = i;
    loop
        invariant
            n == s@.len(),
            i <= cur <= n,
            spec_parse_project_items(s@, i as int, Seq::empty()) == spec_parse_project_items(
                s@,
                cur as int,
                views_of_projects(acc@),
            ),
        decreases n - cur,
    {
        let Some((p, j)) = parse_project_at(s, cur) else { return None };
        let k = skip_ws(s, j);
        proof {
            assert(views_of_projects(acc@.push(p)) =~= views_of_projects(acc@).push(p@));
        }
        if k < n && s[k] == ',' {
            let m = skip_ws(s, k + 1);
            acc.push(p);
            cur = m;
        } else if k < n && s[k] == ']' {
            acc.push(p);
            return Some((acc, k + 1));
        } else {
            return None;
        }
    }
}

/// A project array: `[]`, or `[` items `]`.
pub open spec fn spec_parse_projects_arr(s: Seq<char>, i: int) -> Option<(Seq<ProjectView>, int)> {
    if !(0 <= i < s.len() && s[i] == '[') {
        None
    } else {
        let j = ws_end(s, i + 1);
        if 0 <= j < s.len() && s[j] == ']' {
            Some((Seq::empty(), j + 1))
        } else {
            spec_parse_project_items(s, j, Seq::empty())
        }
    }
}

/// The whole persisted document: optional whitespace, the project array,
/// optional whitespace, and nothing further.
pub open spec fn spec_parse_projects_doc(s: Seq<char>) -> Option<Seq<ProjectView>> {
    let i = ws_end(s, 0);
    match spec_parse_projects_arr(s, i) {
        None => None,
        Some((ps, j)) => if ws_end(s, j) == s.len() {
            Some(ps)
        } else {
            None
        },
    }
}

/// The legacy document: a bare array of todos at the root.
pub open spec fn spec_parse_todos_doc(s: Seq<char>) -> Option<Seq<TodoView>> {
    let i = ws_end(s, 0);
    match spec_parse_todos_arr(s, i) {
        None => None,
        Some((ts, j)) => if ws_end(s, j) == s.len() {
            Some(ts)
        } else {
            None
        },
    }
}

/// Reads a persisted project collection; `None` exactly when the text is not
/// a document of the accepted layout.
pub fn parse_projects(text: &str) -> (r: Option<Vec<Project>>)
    ensures
        match r {
            Some(ps) => spec_parse_projects_doc(text@) == Some(views_of_projects(ps@)),
            None => spec_parse_projects_doc(text@) is None,
        },
{
    let s = crate::text::str_to_chars(text);
    let i = skip_ws(&s, 0);
    let Some((ps, j)) = (match parse_project_items_or_empty(&s, i) {
        Some(x) => Some(x),
        None => None,
    }) else { return None };
    let k = skip_ws(&s, j);
    if k == s.len() {
        Some(ps)
    } else {
        None
    }
}

fn parse_project_items_or_empty(s: &Vec<char>, i: usize) -> (r: Option<(Vec<Project>, usize)>)
    requires
        i <= s@.len(),
    ensures
        match r {
            Some((v, j)) => spec_parse_projects_arr(s@, i as int) == Some(
                (views_of_projects(v@), j as int),
            ) && i < j <= s@.len(),
            None => spec_parse_projects_arr(s@, i as int) is None,
        },
{
    let n = s.len();
    if i >= n || s[i] != '[' {
        return None;
    }
    let j = skip_ws(s, i + 1);
    if j < n && s[j] == ']' {
        let empty: Vec<Project> = Vec::new();
        proof {
            assert(views_of_projects(empty@) =~= Seq::<ProjectView>::empty());
        }
        return Some((empty, j + 1));
    }
    parse_project_items_at(s, j)
}

/// Reads a legacy todo-list file; `None` exactly when the text is not a bare
/// todo array of the accepted layout.
pub fn parse_todos(text: &str) -> (r: Option<Vec<Todo>>)
    ensures
        match r {
            Some(ts) => spec_parse_todos_doc(text@) == Some(views_of_todos(ts@)),
            None => spec_parse_todos_doc(text@) is None,
        },
{
    let s = crate::text::str_to_chars(text);
    let i = skip_ws(&s, 0);
    let Some((ts, j)) = parse_todos_arr_at(&s, i) else { return None };
    let k = skip_ws(&s, j);
    if k == s.len() {
        Some(ts)
    } else {
        None
    }
}

} // verus!
