//! Parsing inverts rendering: reading back a rendered document yields the
//! collection it was rendered from. The lemmas here walk the parser through
//! the canonical text piece by piece; the headline result is
//! `lemma_load_save_roundtrip`.

use vstd::prelude::*;

use crate::codec::{
    dec_digits, digit_char, digit_val, escape_char, escape_string, fld, fld_last, hex_digit_char,
    is_digit_char, is_json_ws, lit_completed, lit_description, lit_id, lit_name, lit_subtasks,
    lit_title, lit_todos, obj, quoted, render_bool, render_project, render_project_items,
    render_projects_doc, render_subtask, render_subtask_items, render_subtasks_arr, render_todo,
    render_todo_items, render_todos_arr, spaces,
};
use crate::models::{ProjectView, SubtaskView, TodoView};
use crate::parse::{
    digits_end, digits_val, matches_at, spec_close, spec_comma, spec_key, spec_parse_bool,
    spec_parse_project, spec_parse_project_items, spec_parse_projects_arr,
    spec_parse_projects_doc, spec_parse_string, spec_parse_string_body, spec_parse_subtask,
    spec_parse_subtask_items, spec_parse_subtasks_arr, spec_parse_todo, spec_parse_todo_items,
    spec_parse_todo_tail, spec_parse_todos_arr, spec_parse_u64, ws_end,
};

verus! {

// --- runs of whitespace and digits ---

proof fn lemma_ws_run(s: Seq<char>, i: int, j: int)
    requires
        0 <= i <= j <= s.len(),
        forall|q: int| i <= q < j ==> is_json_ws(s[q]),
        j == s.len() || !is_json_ws(s[j]),
    ensures
        ws_end(s, i) == j,
    decreases j - i,
{
    if i < j {
        lemma_ws_run(s, i + 1, j);
    }
}

proof fn lemma_digit_run(s: Seq<char>, i: int, j: int)
    requires
        0 <= i <= j <= s.len(),
        forall|q: int| i <= q < j ==> is_digit_char(s[q]),
        j == s.len() || !is_digit_char(s[j]),
    ensures
        digits_end(s, i) == j,
    decreases j - i,
{
    if i < j {
        lemma_digit_run(s, i + 1, j);
    }
}

// --- splitting a known stretch of text ---

proof fn lemma_split(s: Seq<char>, i: int, a: Seq<char>, b: Seq<char>)
    requires
        0 <= i,
        i + a.len() + b.len() <= s.len(),
        s.subrange(i, i + a.len() + b.len()) == a + b,
    ensures
        s.subrange(i, i + a.len()) == a,
        s.subrange(i + a.len(), i + a.len() + b.len()) == b,
        forall|q: int| 0 <= q < a.len() ==> s[i + q] == a[q],
        forall|q: int| 0 <= q < b.len() ==> s[i + a.len() + q] == b[q],
{
    assert forall|q: int| 0 <= q < a.len() implies s[i + q] == a[q] by {
        assert(s.subrange(i, i + a.len() + b.len())[q] == s[i + q]);
        assert(s.subrange(i, i + a.len() + b.len())[q] == (a + b)[q]);
        assert((a + b)[q] == a[q]);
    }
    assert forall|q: int| 0 <= q < b.len() implies s[i + a.len() + q] == b[q] by {
        assert(s.subrange(i, i + a.len() + b.len())[a.len() + q] == s[i + a.len() + q]);
        assert(s.subrange(i, i + a.len() + b.len())[a.len() + q] == (a + b)[a.len() + q]);
        assert((a + b)[a.len() + q] == b[q]);
    }
    assert(s.subrange(i, i + a.len()) =~= a);
    assert(s.subrange(i + a.len(), i + a.len() + b.len()) =~= b);
}

// --- basic facts about the rendered pieces ---

proof fn lemma_spaces_facts(n: nat)
    ensures
        spaces(n).len() == n,
        forall|q: int| 0 <= q < n ==> spaces(n)[q] == ' ',
    decreases n,
{
    if n > 0 {
        lemma_spaces_facts((n - 1) as nat);
    }
}

proof fn lemma_dec_digits_facts(n: nat)
    ensures
        dec_digits(n).len() > 0,
        forall|q: int| 0 <= q < dec_digits(n).len() ==> is_digit_char(#[trigger] dec_digits(n)[q]),
    decreases n,
{
    if n >= 10 {
        lemma_dec_digits_facts(n / 10);
    }
}

// --- numbers ---

proof fn lemma_digits_val_render(s: Seq<char>, p: int, n: nat)
    requires
        0 <= p,
        p + dec_digits(n).len() <= s.len(),
        s.subrange(p, p + dec_digits(n).len()) == dec_digits(n),
    ensures
        digits_val(s, p, p + dec_digits(n).len()) == n,
    decreases n,
{
    let l = dec_digits(n).len();
    if n < 10 {
        assert(s[p] == dec_digits(n)[0]) by {
            assert(s.subrange(p, p + 1)[0] == s[p]);
        }
        assert(digit_val(digit_char(n)) == n);
    } else {
        lemma_dec_digits_facts(n / 10);
        lemma_split(s, p, dec_digits(n / 10), seq![digit_char(n % 10)]);
        lemma_digits_val_render(s, p, n / 10);
        assert(s[p + dec_digits(n / 10).len() + 0] == seq![digit_char(n % 10)][0]);
        assert(s[p + l - 1] == digit_char(n % 10));
        assert(digit_val(digit_char(n % 10)) == n % 10);
        assert(digits_val(s, p, p + l) == digits_val(s, p, p + l - 1) * 10 + digit_val(
            s[p + l - 1],
        ));
        assert(digits_val(s, p, p + l) == (n / 10) * 10 + n % 10);
    }
}

proof fn lemma_parse_u64_render(s: Seq<char>, p: int, n: u64)
    requires
        0 <= p,
        p + dec_digits(n as nat).len() <= s.len(),
        s.subrange(p, p + dec_digits(n as nat).len()) == dec_digits(n as nat),
        p + dec_digits(n as nat).len() == s.len() || !is_digit_char(
            s[p + dec_digits(n as nat).len()],
        ),
    ensures
        spec_parse_u64(s, p) == Some((n, p + dec_digits(n as nat).len())),
{
    let l = dec_digits(n as nat).len();
    lemma_dec_digits_facts(n as nat);
    assert forall|q: int| p <= q < p + l implies is_digit_char(s[q]) by {
        assert(s.subrange(p, p + l)[q - p] == s[q]);
    }
    lemma_digit_run(s, p, p + l);
    lemma_digits_val_render(s, p, n as nat);
}

// --- booleans ---

proof fn lemma_parse_bool_render(s: Seq<char>, p: int, b: bool)
    requires
        0 <= p,
        p + render_bool(b).len() <= s.len(),
        s.subrange(p, p + render_bool(b).len()) == render_bool(b),
    ensures
        spec_parse_bool(s, p) == Some((b, p + render_bool(b).len())),
{
    reveal_strlit("true");
    reveal_strlit("false");
    if b {
        assert(matches_at(s, p, "true"@));
    } else {
        assert(!matches_at(s, p, "true"@)) by {
            if matches_at(s, p, "true"@) {
                assert(s.subrange(p, p + 4)[0] == 't');
                assert(s.subrange(p, p + 5)[0] == 'f');
            }
        }
        assert(matches_at(s, p, "false"@));
    }
}

// --- keys, commas, closers ---

proof fn lemma_key_render(s: Seq<char>, p: int, full: Seq<char>, short: Seq<char>)
    requires
        0 <= p,
        p + full.len() < s.len(),
        s.subrange(p, p + full.len()) == full,
        full == short + seq![':', ' '],
        short.len() > 0,
        !is_json_ws(s[p + full.len()]),
    ensures
        spec_key(s, p, short) == Some(p + full.len()),
{
    lemma_split(s, p, short, seq![':', ' ']);
    assert(matches_at(s, p, short));
    assert(s[p + short.len()] == ':');
    lemma_ws_run(s, p + short.len(), p + short.len());
    assert(s[p + short.len() + 1] == ' ');
    lemma_ws_run(s, p + short.len() + 1, p + full.len());
}

proof fn lemma_comma_render(s: Seq<char>, p: int, e: int)
    requires
        0 <= p < s.len(),
        s[p] == ',',
        p + 1 <= e <= s.len(),
        forall|q: int| p + 1 <= q < e ==> is_json_ws(s[q]),
        e == s.len() || !is_json_ws(s[e]),
    ensures
        spec_comma(s, p) == Some(e),
{
    lemma_ws_run(s, p, p);
    lemma_ws_run(s, p + 1, e);
}

proof fn lemma_close_render(s: Seq<char>, p: int, c: char, e: int)
    requires
        0 <= p <= e < s.len(),
        forall|q: int| p <= q < e ==> is_json_ws(s[q]),
        s[e] == c,
        !is_json_ws(c),
    ensures
        spec_close(s, p, c) == Some(e + 1),
{
    lemma_ws_run(s, p, e);
}


// --- strings ---

proof fn lemma_char_from_u8(c: char)
    requires
        (c as u32) < 0x100,
    ensures
        ((c as u32) as u8) as char == c,
{
    let b = (c as u32) as u8;
    assert(b as u32 == c as u32);
    assert((b as char) as u32 == c as u32);
    assert(b as char == c);
}

proof fn lemma_hex_digit_roundtrip(v: nat)
    requires
        v < 16,
    ensures
        crate::parse::hex_val(hex_digit_char(v)) == v,
{
}

proof fn lemma_parse_string_body_render(s: Seq<char>, p: int, t: Seq<char>, acc: Seq<char>)
    requires
        0 <= p,
        p + escape_string(t).len() + 1 <= s.len(),
        s.subrange(p, p + escape_string(t).len()) == escape_string(t),
        s[p + escape_string(t).len()] == '"',
    ensures
        spec_parse_string_body(s, p, acc) == Some((acc + t, p + escape_string(t).len() + 1)),
    decreases t.len(),
{
    let l = escape_string(t).len();
    if t.len() == 0 {
        assert(s[p] == '"');
        assert(acc + t =~= acc);
    } else {
        let c = t.first();
        let rest = t.drop_first();
        let ec = escape_char(c);
        assert(escape_string(t) == ec + escape_string(rest));
        lemma_split(s, p, ec, escape_string(rest));
        let p2 = p + ec.len();
        assert(s[p2 + escape_string(rest).len()] == '"');
        if c == '"' {
            assert(s[p + 0] == ec[0] && s[p + 1] == ec[1]);
            lemma_parse_string_body_render(s, p2, rest, acc.push('"'));
        } else if c == '\\' {
            assert(s[p + 0] == ec[0] && s[p + 1] == ec[1]);
            lemma_parse_string_body_render(s, p2, rest, acc.push('\\'));
        } else if (c as u32) == 0x8 {
            assert(s[p + 0] == ec[0] && s[p + 1] == ec[1]);
            lemma_char_from_u8(c);
            assert((c as u32) as u8 == 0x8u8);
            assert((0x8u8) as char == c);
            lemma_parse_string_body_render(s, p2, rest, acc.push(c));
        } else if c == '\t' {
            assert(s[p + 0] == ec[0] && s[p + 1] == ec[1]);
            lemma_parse_string_body_render(s, p2, rest, acc.push('\t'));
        } else if c == '\n' {
            assert(s[p + 0] == ec[0] && s[p + 1] == ec[1]);
            lemma_parse_string_body_render(s, p2, rest, acc.push('\n'));
        } else if (c as u32) == 0xc {
            assert(s[p + 0] == ec[0] && s[p + 1] == ec[1]);
            lemma_char_from_u8(c);
            assert((c as u32) as u8 == 0xcu8);
            assert((0xcu8) as char == c);
            lemma_parse_string_body_render(s, p2, rest, acc.push(c));
        } else if c == '\r' {
            assert(s[p + 0] == ec[0] && s[p + 1] == ec[1]);
            lemma_parse_string_body_render(s, p2, rest, acc.push('\r'));
        } else if (c as u32) < 0x20 {
            let u = c as u32;
            assert(s[p + 0] == ec[0] && s[p + 1] == ec[1] && s[p + 2] == ec[2] && s[p + 3] == ec[3]
                && s[p + 4] == ec[4] && s[p + 5] == ec[5]);
            assert(crate::parse::hex_val('0') == 0);
            lemma_hex_digit_roundtrip((u / 16) as nat);
            lemma_hex_digit_roundtrip((u % 16) as nat);
            let code = crate::parse::hex_val(s[p + 2]) * 4096 + crate::parse::hex_val(s[p + 3])
                * 256 + crate::parse::hex_val(s[p + 4]) * 16 + crate::parse::hex_val(s[p + 5]);
            assert(code == u);
            lemma_char_from_u8(c);
            assert(code as u8 == (c as u32) as u8);
            assert((code as u8) as char == c);
            lemma_parse_string_body_render(s, p2, rest, acc.push(c));
        } else {
            assert(s[p + 0] == ec[0]);
            assert(s[p] == c);
            lemma_parse_string_body_render(s, p + 1, rest, acc.push(c));
        }
        assert(acc.push(c) + rest =~= acc + t);
    }
}

proof fn lemma_parse_string_render(s: Seq<char>, p: int, t: Seq<char>)
    requires
        0 <= p,
        p + quoted(t).len() <= s.len(),
        s.subrange(p, p + quoted(t).len()) == quoted(t),
    ensures
        spec_parse_string(s, p) == Some((t, p + quoted(t).len())),
{
    let l = escape_string(t).len();
    assert(quoted(t).len() == l + 2);
    lemma_split(s, p, seq!['"'] + escape_string(t), seq!['"']);
    lemma_split(s, p, seq!['"'], escape_string(t));
    assert(s.subrange(p, p + 1)[0] == s[p]);
    assert(s[p] == '"');
    assert(s.subrange(p + (1 + l), p + (1 + l) + 1)[0] == s[p + 1 + l]);
    assert(s[p + 1 + l] == '"');
    lemma_parse_string_body_render(s, p + 1, t, Seq::empty());
    assert(Seq::<char>::empty() + t =~= t);
}


// --- the rendered gaps between tokens ---

proof fn lemma_nl_indent_ws(s: Seq<char>, a: int, n: nat)
    requires
        0 <= a < s.len(),
        s[a] == '\n',
        a + 1 + n < s.len(),
        s.subrange(a + 1, a + 1 + n) == spaces(n),
        !is_json_ws(s[a + 1 + n]),
    ensures
        ws_end(s, a) == a + 1 + n,
{
    lemma_spaces_facts(n);
    assert forall|q: int| a <= q < a + 1 + n implies is_json_ws(s[q]) by {
        if q > a {
            assert(s.subrange(a + 1, a + 1 + n)[q - a - 1] == s[q]);
        }
    }
    lemma_ws_run(s, a, a + 1 + n);
}

proof fn lemma_comma_nl_indent(s: Seq<char>, a: int, n: nat)
    requires
        0 <= a,
        a + 2 + n < s.len(),
        s[a] == ',',
        s[a + 1] == '\n',
        s.subrange(a + 2, a + 2 + n) == spaces(n),
        !is_json_ws(s[a + 2 + n]),
    ensures
        spec_comma(s, a) == Some(a + 2 + n),
{
    lemma_spaces_facts(n);
    lemma_ws_run(s, a, a);
    assert forall|q: int| a + 1 <= q < a + 2 + n implies is_json_ws(s[q]) by {
        if q > a + 1 {
            assert(s.subrange(a + 2, a + 2 + n)[q - a - 2] == s[q]);
        }
    }
    lemma_ws_run(s, a + 1, a + 2 + n);
}

proof fn lemma_close_nl_indent(s: Seq<char>, a: int, n: nat, c: char)
    requires
        0 <= a,
        a + 1 + n < s.len(),
        s[a] == '\n',
        s.subrange(a + 1, a + 1 + n) == spaces(n),
        s[a + 1 + n] == c,
        !is_json_ws(c),
    ensures
        spec_close(s, a, c) == Some(a + 1 + n + 1),
{
    lemma_spaces_facts(n);
    assert forall|q: int| a <= q < a + 1 + n implies is_json_ws(s[q]) by {
        if q > a {
            assert(s.subrange(a + 1, a + 1 + n)[q - a - 1] == s[q]);
        }
    }
    lemma_ws_run(s, a, a + 1 + n);
}

// --- taking a rendered object or field line apart ---

proof fn lemma_obj_split(s: Seq<char>, p: int, lvl: nat, fields: Seq<char>)
    requires
        0 <= p,
        p + obj(lvl, fields).len() <= s.len(),
        s.subrange(p, p + obj(lvl, fields).len()) == obj(lvl, fields),
    ensures
        obj(lvl, fields).len() == 3 + fields.len() + 2 * lvl,
        s[p] == '{',
        s[p + 1] == '\n',
        s.subrange(p + 2, p + 2 + fields.len()) == fields,
        s.subrange(p + 2 + fields.len(), p + 2 + fields.len() + 2 * lvl) == spaces(lvl * 2),
        s[p + 2 + fields.len() + 2 * lvl] == '}',
{
    lemma_spaces_facts(lvl * 2);
    lemma_split(s, p, seq!['{', '\n'] + fields + spaces(lvl * 2), seq!['}']);
    lemma_split(s, p, seq!['{', '\n'] + fields, spaces(lvl * 2));
    lemma_split(s, p, seq!['{', '\n'], fields);
    assert(s.subrange(p, p + 2)[0] == s[p]);
    assert(s.subrange(p, p + 2)[1] == s[p + 1]);
    assert(s.subrange(p + 2 + fields.len() + 2 * lvl, p + 2 + fields.len() + 2 * lvl + 1)[0] == s[p
        + 2 + fields.len() + 2 * lvl]);
}

proof fn lemma_arr_split(s: Seq<char>, p: int, lvl: nat, items: Seq<char>)
    requires
        0 <= p,
        p + arr_len(lvl, items) <= s.len(),
        s.subrange(p, p + arr_len(lvl, items)) == crate::codec::arr(lvl, items),
    ensures
        s[p] == '[',
        s[p + 1] == '\n',
        s.subrange(p + 2, p + 2 + items.len()) == items,
        s[p + 2 + items.len()] == '\n',
        s.subrange(p + 3 + items.len(), p + 3 + items.len() + 2 * lvl) == spaces(lvl * 2),
        s[p + 3 + items.len() + 2 * lvl] == ']',
{
    lemma_spaces_facts(lvl * 2);
    lemma_split(
        s,
        p,
        seq!['[', '\n'] + items + seq!['\n'] + spaces(lvl * 2),
        seq![']'],
    );
    lemma_split(s, p, seq!['[', '\n'] + items + seq!['\n'], spaces(lvl * 2));
    lemma_split(s, p, seq!['[', '\n'] + items, seq!['\n']);
    lemma_split(s, p, seq!['[', '\n'], items);
    assert(s.subrange(p, p + 2)[0] == s[p]);
    assert(s.subrange(p, p + 2)[1] == s[p + 1]);
    assert(s.subrange(p + 2 + items.len(), p + 2 + items.len() + 1)[0] == s[p + 2 + items.len()]);
    assert(s.subrange(
        p + 3 + items.len() + 2 * lvl,
        p + 3 + items.len() + 2 * lvl + 1,
    )[0] == s[p + 3 + items.len() + 2 * lvl]);
}

/// The length of a rendered non-empty array.
pub open spec fn arr_len(lvl: nat, items: Seq<char>) -> int {
    4 + items.len() as int + 2 * (lvl as int)
}

proof fn lemma_fld_split(s: Seq<char>, pf: int, lvl: nat, key: Seq<char>, value: Seq<char>)
    requires
        0 <= pf,
        pf + fld(lvl, key, value).len() <= s.len(),
        s.subrange(pf, pf + fld(lvl, key, value).len()) == fld(lvl, key, value),
    ensures
        fld(lvl, key, value).len() == 2 * (lvl + 1) + key.len() + value.len() + 2,
        s.subrange(pf, pf + 2 * (lvl + 1)) == spaces((lvl + 1) * 2),
        s.subrange(pf + 2 * (lvl + 1), pf + 2 * (lvl + 1) + key.len()) == key,
        s.subrange(
            pf + 2 * (lvl + 1) + key.len(),
            pf + 2 * (lvl + 1) + key.len() + value.len(),
        ) == value,
        s[pf + 2 * (lvl + 1) + key.len() + value.len()] == ',',
        s[pf + 2 * (lvl + 1) + key.len() + value.len() + 1] == '\n',
{
    lemma_spaces_facts((lvl + 1) * 2);
    lemma_split(s, pf, spaces((lvl + 1) * 2) + key + value, seq![',', '\n']);
    lemma_split(s, pf, spaces((lvl + 1) * 2) + key, value);
    lemma_split(s, pf, spaces((lvl + 1) * 2), key);
    let e = pf + 2 * (lvl + 1) + key.len() + value.len();
    assert(s.subrange(e, e + 2)[0] == s[e]);
    assert(s.subrange(e, e + 2)[1] == s[e + 1]);
}

proof fn lemma_fld_last_split(s: Seq<char>, pf: int, lvl: nat, key: Seq<char>, value: Seq<char>)
    requires
        0 <= pf,
        pf + fld_last(lvl, key, value).len() <= s.len(),
        s.subrange(pf, pf + fld_last(lvl, key, value).len()) == fld_last(lvl, key, value),
    ensures
        fld_last(lvl, key, value).len() == 2 * (lvl + 1) + key.len() + value.len() + 1,
        s.subrange(pf, pf + 2 * (lvl + 1)) == spaces((lvl + 1) * 2),
        s.subrange(pf + 2 * (lvl + 1), pf + 2 * (lvl + 1) + key.len()) == key,
        s.subrange(
            pf + 2 * (lvl + 1) + key.len(),
            pf + 2 * (lvl + 1) + key.len() + value.len(),
        ) == value,
        s[pf + 2 * (lvl + 1) + key.len() + value.len()] == '\n',
{
    lemma_spaces_facts((lvl + 1) * 2);
    lemma_split(s, pf, spaces((lvl + 1) * 2) + key + value, seq!['\n']);
    lemma_split(s, pf, spaces((lvl + 1) * 2) + key, value);
    lemma_split(s, pf, spaces((lvl + 1) * 2), key);
    let e = pf + 2 * (lvl + 1) + key.len() + value.len();
    assert(s.subrange(e, e + 1)[0] == s[e]);
}

// --- the seven keys ---

proof fn lemma_key_id(s: Seq<char>, p: int)
    requires
        0 <= p,
        p + lit_id().len() < s.len(),
        s.subrange(p, p + lit_id().len()) == lit_id(),
        !is_json_ws(s[p + lit_id().len()]),
    ensures
        spec_key(s, p, "\"id\""@) == Some(p + lit_id().len()),
        lit_id()[0] == '"',
{
    reveal_strlit("\"id\": ");
    reveal_strlit("\"id\"");
    assert(lit_id() =~= "\"id\""@ + seq![':', ' ']);
    lemma_key_render(s, p, lit_id(), "\"id\""@);
}

proof fn lemma_key_title(s: Seq<char>, p: int)
    requires
        0 <= p,
        p + lit_title().len() < s.len(),
        s.subrange(p, p + lit_title().len()) == lit_title(),
        !is_json_ws(s[p + lit_title().len()]),
    ensures
        spec_key(s, p, "\"title\""@) == Some(p + lit_title().len()),
        lit_title()[0] == '"',
{
    reveal_strlit("\"title\": ");
    reveal_strlit("\"title\"");
    assert(lit_title() =~= "\"title\""@ + seq![':', ' ']);
    lemma_key_render(s, p, lit_title(), "\"title\""@);
}

proof fn lemma_key_completed(s: Seq<char>, p: int)
    requires
        0 <= p,
        p + lit_completed().len() < s.len(),
        s.subrange(p, p + lit_completed().len()) == lit_completed(),
        !is_json_ws(s[p + lit_completed().len()]),
    ensures
        spec_key(s, p, "\"completed\""@) == Some(p + lit_completed().len()),
        lit_completed()[0] == '"',
{
    reveal_strlit("\"completed\": ");
    reveal_strlit("\"completed\"");
    assert(lit_completed() =~= "\"completed\""@ + seq![':', ' ']);
    lemma_key_render(s, p, lit_completed(), "\"completed\""@);
}

proof fn lemma_key_subtasks(s: Seq<char>, p: int)
    requires
        0 <= p,
        p + lit_subtasks().len() < s.len(),
        s.subrange(p, p + lit_subtasks().len()) == lit_subtasks(),
        !is_json_ws(s[p + lit_subtasks().len()]),
    ensures
        spec_key(s, p, "\"subtasks\""@) == Some(p + lit_subtasks().len()),
        lit_subtasks()[0] == '"',
{
    reveal_strlit("\"subtasks\": ");
    reveal_strlit("\"subtasks\"");
    assert(lit_subtasks() =~= "\"subtasks\""@ + seq![':', ' ']);
    lemma_key_render(s, p, lit_subtasks(), "\"subtasks\""@);
}

proof fn lemma_key_description(s: Seq<char>, p: int)
    requires
        0 <= p,
        p + lit_description().len() < s.len(),
        s.subrange(p, p + lit_description().len()) == lit_description(),
        !is_json_ws(s[p + lit_description().len()]),
    ensures
        spec_key(s, p, "\"description\""@) == Some(p + lit_description().len()),
        lit_description()[0] == '"',
{
    reveal_strlit("\"description\": ");
    reveal_strlit("\"description\"");
    assert(lit_description() =~= "\"description\""@ + seq![':', ' ']);
    lemma_key_render(s, p, lit_description(), "\"description\""@);
}

proof fn lemma_key_name(s: Seq<char>, p: int)
    requires
        0 <= p,
        p + lit_name().len() < s.len(),
        s.subrange(p, p + lit_name().len()) == lit_name(),
        !is_json_ws(s[p + lit_name().len()]),
    ensures
        spec_key(s, p, "\"name\""@) == Some(p + lit_name().len()),
        lit_name()[0] == '"',
{
    reveal_strlit("\"name\": ");
    reveal_strlit("\"name\"");
    assert(lit_name() =~= "\"name\""@ + seq![':', ' ']);
    lemma_key_render(s, p, lit_name(), "\"name\""@);
}

proof fn lemma_key_todos(s: Seq<char>, p: int)
    requires
        0 <= p,
        p + lit_todos().len() < s.len(),
        s.subrange(p, p + lit_todos().len()) == lit_todos(),
        !is_json_ws(s[p + lit_todos().len()]),
    ensures
        spec_key(s, p, "\"todos\""@) == Some(p + lit_todos().len()),
        lit_todos()[0] == '"',
{
    reveal_strlit("\"todos\": ");
    reveal_strlit("\"todos\"");
    assert(lit_todos() =~= "\"todos\""@ + seq![':', ' ']);
    lemma_key_render(s, p, lit_todos(), "\"todos\""@);
}


// --- non-whitespace heads of rendered values ---

proof fn lemma_value_heads()
    ensures
        forall|t: Seq<char>| (#[trigger] quoted(t))[0] == '"',
        forall|b: bool| !is_json_ws(#[trigger] render_bool(b)[0]) && render_bool(b).len() > 0,
        forall|n: nat| !is_json_ws(#[trigger] dec_digits(n)[0]),
        !is_json_ws('"'),
        !is_json_ws('{'),
        !is_json_ws('['),
        !is_json_ws(']'),
        !is_json_ws('}'),
{
    assert forall|t: Seq<char>| (#[trigger] quoted(t))[0] == '"' by {
        assert((seq!['"'] + escape_string(t) + seq!['"'])[0] == '"');
    }
    assert forall|b: bool| !is_json_ws(#[trigger] render_bool(b)[0]) && render_bool(b).len()
        > 0 by {
        reveal_strlit("true");
        reveal_strlit("false");
    }
    assert forall|n: nat| !is_json_ws(#[trigger] dec_digits(n)[0]) by {
        lemma_dec_digits_facts(n);
        assert(is_digit_char(dec_digits(n)[0]));
    }
}

// --- subtasks ---

#[verifier::rlimit(100)]
proof fn lemma_parse_subtask_render(s: Seq<char>, p: int, st: SubtaskView, lvl: nat)
    requires
        0 <= p,
        p + render_subtask(st, lvl).len() <= s.len(),
        s.subrange(p, p + render_subtask(st, lvl).len()) == render_subtask(st, lvl),
    ensures
        spec_parse_subtask(s, p) == Some((st, p + render_subtask(st, lvl).len())),
{
    reveal_strlit("\"id\": ");
    reveal_strlit("\"title\": ");
    reveal_strlit("\"completed\": ");
    lemma_value_heads();
    let ind = ((lvl + 1) * 2) as int;
    let d = dec_digits(st.id as nat);
    let q1 = quoted(st.title);
    let bl = render_bool(st.completed);
    let f1 = fld(lvl, lit_id(), d);
    let f2 = fld(lvl, lit_title(), q1);
    let f3 = fld_last(lvl, lit_completed(), bl);
    let fs = f1 + f2 + f3;
    lemma_obj_split(s, p, lvl, fs);
    let p1 = p + 2;
    lemma_split(s, p1, f1 + f2, f3);
    lemma_split(s, p1, f1, f2);
    let p2 = p1 + f1.len();
    let p3 = p2 + f2.len();
    lemma_fld_split(s, p1, lvl, lit_id(), d);
    lemma_fld_split(s, p2, lvl, lit_title(), q1);
    lemma_fld_last_split(s, p3, lvl, lit_completed(), bl);
    lemma_dec_digits_facts(st.id as nat);
    // the first field line
    assert(s.subrange(p1 + ind, p1 + ind + lit_id().len())[0] == s[p1 + ind]);
    lemma_nl_indent_ws(s, p + 1, (lvl + 1) * 2);
    let i2 = p1 + ind + lit_id().len();
    assert(s.subrange(i2, i2 + d.len())[0] == s[i2]);
    lemma_key_id(s, p1 + ind);
    let i3 = i2 + d.len();
    lemma_parse_u64_render(s, i2, st.id);
    // to the second field line
    assert(s.subrange(p2 + ind, p2 + ind + lit_title().len())[0] == s[p2 + ind]);
    lemma_comma_nl_indent(s, i3, (lvl + 1) * 2);
    let i6 = p2 + ind + lit_title().len();
    assert(s.subrange(i6, i6 + q1.len())[0] == s[i6]);
    lemma_key_title(s, p2 + ind);
    lemma_parse_string_render(s, i6, st.title);
    let i7 = i6 + q1.len();
    // to the third field line
    assert(s.subrange(p3 + ind, p3 + ind + lit_completed().len())[0] == s[p3 + ind]);
    lemma_comma_nl_indent(s, i7, (lvl + 1) * 2);
    let i10 = p3 + ind + lit_completed().len();
    assert(s.subrange(i10, i10 + bl.len())[0] == s[i10]);
    lemma_key_completed(s, p3 + ind);
    lemma_parse_bool_render(s, i10, st.completed);
    let i11 = i10 + bl.len();
    // the closing brace
    lemma_close_nl_indent(s, i11, lvl * 2, '}');
    assert(ws_end(s, p + 1) == p1 + ind);
    assert(spec_key(s, p1 + ind, "\"id\""@) == Some(i2));
    assert(spec_parse_u64(s, i2) == Some((st.id, i3)));
    assert(spec_comma(s, i3) == Some(p2 + ind));
    assert(spec_key(s, p2 + ind, "\"title\""@) == Some(i6));
    assert(spec_parse_string(s, i6) == Some((st.title, i7)));
    assert(spec_comma(s, i7) == Some(p3 + ind));
    assert(spec_key(s, p3 + ind, "\"completed\""@) == Some(i10));
    assert(spec_parse_bool(s, i10) == Some((st.completed, i11)));
    assert(spec_close(s, i11, '}') == Some(p + render_subtask(st, lvl).len()));
    assert(spec_parse_subtask(s, p) == Some((st, p + render_subtask(st, lvl).len())));
}

proof fn lemma_subtask_items_head(s: Seq<char>, q: int, ss: Seq<SubtaskView>, elvl: nat)
    requires
        ss.len() > 0,
        0 <= q,
        q + render_subtask_items(ss, elvl).len() <= s.len(),
        s.subrange(q, q + render_subtask_items(ss, elvl).len()) == render_subtask_items(ss, elvl),
    ensures
        s.subrange(q, q + 2 * elvl) == spaces(elvl * 2),
        s[q + 2 * elvl] == '{',
        2 * elvl < render_subtask_items(ss, elvl).len(),
{
    lemma_spaces_facts(elvl * 2);
    if ss.len() == 1 {
        lemma_split(s, q, spaces(elvl * 2), render_subtask(ss[0], elvl));
    } else {
        lemma_split(
            s,
            q,
            spaces(elvl * 2) + render_subtask(ss[0], elvl) + seq![',', '\n'],
            render_subtask_items(ss.drop_first(), elvl),
        );
        lemma_split(s, q, spaces(elvl * 2) + render_subtask(ss[0], elvl), seq![',', '\n']);
        lemma_split(s, q, spaces(elvl * 2), render_subtask(ss[0], elvl));
    }
    let r0 = render_subtask(ss[0], elvl);
    assert(r0[0] == '{') by {
        assert(obj(elvl, fld(elvl, lit_id(), dec_digits(ss[0].id as nat)) + fld(
            elvl,
            lit_title(),
            quoted(ss[0].title),
        ) + fld_last(elvl, lit_completed(), render_bool(ss[0].completed)))[0] == '{');
    }
    assert(s.subrange(q + 2 * elvl, q + 2 * elvl + r0.len())[0] == s[q + 2 * elvl]);
}

#[verifier::rlimit(100)]
proof fn lemma_parse_subtask_items_render(
    s: Seq<char>,
    p: int,
    ss: Seq<SubtaskView>,
    acc: Seq<SubtaskView>,
    elvl: nat,
    close: nat,
)
    requires
        ss.len() > 0,
        0 <= p,
        p + render_subtask_items(ss, elvl).len() + 2 + 2 * close <= s.len(),
        s.subrange(p, p + render_subtask_items(ss, elvl).len()) == render_subtask_items(ss, elvl),
        s[p + render_subtask_items(ss, elvl).len()] == '\n',
        s.subrange(
            p + render_subtask_items(ss, elvl).len() + 1,
            p + render_subtask_items(ss, elvl).len() + 1 + 2 * close,
        ) == spaces(close * 2),
        s[p + render_subtask_items(ss, elvl).len() + 1 + 2 * close] == ']',
    ensures
        spec_parse_subtask_items(s, p + 2 * elvl, acc) == Some(
            (acc + ss, p + render_subtask_items(ss, elvl).len() + 2 * close + 2),
        ),
    decreases ss.len(),
{
    lemma_value_heads();
    let items = render_subtask_items(ss, elvl);
    let l = items.len();
    let e = p + l + 2 * close + 2;
    let r0 = render_subtask(ss[0], elvl);
    lemma_spaces_facts(elvl * 2);
    if ss.len() == 1 {
        lemma_split(s, p, spaces(elvl * 2), r0);
        lemma_parse_subtask_render(s, p + 2 * elvl, ss[0], elvl);
        let j = p + 2 * elvl + r0.len();
        assert(j == p + l);
        lemma_nl_indent_ws(s, j, close * 2);
        assert(acc.push(ss[0]) =~= acc + ss);
    } else {
        let rest = ss.drop_first();
        let rest_items = render_subtask_items(rest, elvl);
        lemma_split(s, p, spaces(elvl * 2) + r0 + seq![',', '\n'], rest_items);
        lemma_split(s, p, spaces(elvl * 2) + r0, seq![',', '\n']);
        lemma_split(s, p, spaces(elvl * 2), r0);
        lemma_parse_subtask_render(s, p + 2 * elvl, ss[0], elvl);
        let j = p + 2 * elvl + r0.len();
        assert(s[j + 0] == ',' && s[j + 1] == '\n') by {
            assert(s[p + (2 * elvl + r0.len()) + 0] == seq![',', '\n'][0]);
            assert(s[p + (2 * elvl + r0.len()) + 1] == seq![',', '\n'][1]);
        }
        let prest = j + 2;
        lemma_subtask_items_head(s, prest, rest, elvl);
        lemma_ws_run(s, j, j);
        lemma_comma_nl_indent(s, j, elvl * 2);
        lemma_parse_subtask_items_render(s, prest, rest, acc.push(ss[0]), elvl, close);
        assert(acc.push(ss[0]) + rest =~= acc + ss);
        assert(prest + rest_items.len() == p + l);
    }
}

proof fn lemma_parse_subtasks_arr_render(s: Seq<char>, p: int, ss: Seq<SubtaskView>, lvl: nat)
    requires
        0 <= p,
        p + render_subtasks_arr(ss, lvl).len() <= s.len(),
        s.subrange(p, p + render_subtasks_arr(ss, lvl).len()) == render_subtasks_arr(ss, lvl),
    ensures
        crate::parse::spec_parse_subtasks_arr(s, p) == Some(
            (ss, p + render_subtasks_arr(ss, lvl).len()),
        ),
{
    lemma_value_heads();
    if ss.len() == 0 {
        assert(s.subrange(p, p + 2)[0] == s[p]);
        assert(s.subrange(p, p + 2)[1] == s[p + 1]);
        assert(s[p] == '[' && s[p + 1] == ']');
        lemma_ws_run(s, p + 1, p + 1);
        assert(crate::parse::spec_parse_subtasks_arr(s, p) == Some(
            (Seq::<SubtaskView>::empty(), p + 2),
        ));
        assert(Seq::<SubtaskView>::empty() =~= ss);
    } else {
        let items = render_subtask_items(ss, lvl + 1);
        lemma_spaces_facts(lvl * 2);
        assert(render_subtasks_arr(ss, lvl).len() == arr_len(lvl, items));
        lemma_arr_split(s, p, lvl, items);
        let q = p + 2;
        lemma_subtask_items_head(s, q, ss, (lvl + 1) as nat);
        lemma_nl_indent_ws(s, p + 1, ((lvl + 1) * 2) as nat);
        assert(s[p + 2 + 2 * (lvl + 1)] == '{');
        lemma_parse_subtask_items_render(s, q, ss, Seq::empty(), (lvl + 1) as nat, lvl);
        assert(Seq::<SubtaskView>::empty() + ss =~= ss);
    }
}


// --- todos ---

#[verifier::rlimit(100)]
proof fn lemma_todo_split(s: Seq<char>, p: int, t: TodoView, lvl: nat)
    requires
        0 <= p,
        p + render_todo(t, lvl).len() <= s.len(),
        s.subrange(p, p + render_todo(t, lvl).len()) == render_todo(t, lvl),
    ensures
        ({
            let ind = ((lvl + 1) * 2) as int;
            let d = dec_digits(t.id as nat);
            let q1 = quoted(t.title);
            let bl = render_bool(t.completed);
            let sa = render_subtasks_arr(t.subtasks, lvl + 1);
            let q2 = quoted(t.description);
            let p1 = p + 2;
            let p2 = p1 + fld(lvl, lit_id(), d).len();
            let p3 = p2 + fld(lvl, lit_title(), q1).len();
            let p4 = p3 + fld(lvl, lit_completed(), bl).len();
            let p5 = p4 + fld(lvl, lit_subtasks(), sa).len();
            let i2 = p1 + ind + lit_id().len();
            let i3 = i2 + d.len();
            let i6 = p2 + ind + lit_title().len();
            let i7 = i6 + q1.len();
            let i10 = p3 + ind + lit_completed().len();
            let i11 = i10 + bl.len();
            let i14 = p4 + ind + lit_subtasks().len();
            let i15 = i14 + sa.len();
            let i18 = p5 + ind + lit_description().len();
            let i19 = i18 + q2.len();
            &&& render_todo(t, lvl).len() == i19 + 1 + 2 * lvl + 1 - p
            &&& s[p] == '{'
            &&& s[p + 1] == '\n'
            &&& s.subrange(p1, p1 + ind) == spaces((lvl + 1) * 2)
            &&& s.subrange(p1 + ind, i2) == lit_id()
            &&& s.subrange(i2, i3) == d
            &&& s[i3] == ','
            &&& s[i3 + 1] == '\n'
            &&& s.subrange(p2, p2 + ind) == spaces((lvl + 1) * 2)
            &&& s.subrange(p2 + ind, i6) == lit_title()
            &&& s.subrange(i6, i7) == q1
            &&& s[i7] == ','
            &&& s[i7 + 1] == '\n'
            &&& s.subrange(p3, p3 + ind) == spaces((lvl + 1) * 2)
            &&& s.subrange(p3 + ind, i10) == lit_completed()
            &&& s.subrange(i10, i11) == bl
            &&& s[i11] == ','
            &&& s[i11 + 1] == '\n'
            &&& s.subrange(p4, p4 + ind) == spaces((lvl + 1) * 2)
            &&& s.subrange(p4 + ind, i14) == lit_subtasks()
            &&& s.subrange(i14, i15) == sa
            &&& s[i15] == ','
            &&& s[i15 + 1] == '\n'
            &&& s.subrange(p5, p5 + ind) == spaces((lvl + 1) * 2)
            &&& s.subrange(p5 + ind, i18) == lit_description()
            &&& s.subrange(i18, i19) == q2
            &&& s[i19] == '\n'
            &&& s.subrange(i19 + 1, i19 + 1 + 2 * lvl) == spaces(lvl * 2)
            &&& s[i19 + 1 + 2 * lvl] == '}'
        }),
{
    let ind = ((lvl + 1) * 2) as int;
    let d = dec_digits(t.id as nat);
    let q1 = quoted(t.title);
    let bl = render_bool(t.completed);
    let sa = render_subtasks_arr(t.subtasks, lvl + 1);
    let q2 = quoted(t.description);
    let f1 = fld(lvl, lit_id(), d);
    let f2 = fld(lvl, lit_title(), q1);
    let f3 = fld(lvl, lit_completed(), bl);
    let f4 = fld(lvl, lit_subtasks(), sa);
    let f5 = fld_last(lvl, lit_description(), q2);
    let fs = f1 + f2 + f3 + f4 + f5;
    lemma_obj_split(s, p, lvl, fs);
    let p1 = p + 2;
    lemma_split(s, p1, f1 + f2 + f3 + f4, f5);
    lemma_split(s, p1, f1 + f2 + f3, f4);
    lemma_split(s, p1, f1 + f2, f3);
    lemma_split(s, p1, f1, f2);
    let p2 = p1 + f1.len();
    let p3 = p2 + f2.len();
    let p4 = p3 + f3.len();
    let p5 = p4 + f4.len();
    lemma_fld_split(s, p1, lvl, lit_id(), d);
    lemma_fld_split(s, p2, lvl, lit_title(), q1);
    lemma_fld_split(s, p3, lvl, lit_completed(), bl);
    lemma_fld_split(s, p4, lvl, lit_subtasks(), sa);
    lemma_fld_last_split(s, p5, lvl, lit_description(), q2);
}

#[verifier::rlimit(100)]
proof fn lemma_parse_todo_render(s: Seq<char>, p: int, t: TodoView, lvl: nat)
    requires
        0 <= p,
        p + render_todo(t, lvl).len() <= s.len(),
        s.subrange(p, p + render_todo(t, lvl).len()) == render_todo(t, lvl),
    ensures
        spec_parse_todo(s, p) == Some((t, p + render_todo(t, lvl).len())),
{
    reveal_strlit("\"id\": ");
    reveal_strlit("\"title\": ");
    reveal_strlit("\"completed\": ");
    reveal_strlit("\"subtasks\": ");
    reveal_strlit("\"description\": ");
    lemma_value_heads();
    lemma_todo_split(s, p, t, lvl);
    let ind = ((lvl + 1) * 2) as int;
    let d = dec_digits(t.id as nat);
    let q1 = quoted(t.title);
    let bl = render_bool(t.completed);
    let sa = render_subtasks_arr(t.subtasks, lvl + 1);
    let q2 = quoted(t.description);
    let p1 = p + 2;
    let p2 = p1 + fld(lvl, lit_id(), d).len();
    let p3 = p2 + fld(lvl, lit_title(), q1).len();
    let p4 = p3 + fld(lvl, lit_completed(), bl).len();
    let p5 = p4 + fld(lvl, lit_subtasks(), sa).len();
    let i2 = p1 + ind + lit_id().len();
    let i3 = i2 + d.len();
    let i6 = p2 + ind + lit_title().len();
    let i7 = i6 + q1.len();
    let i10 = p3 + ind + lit_completed().len();
    let i11 = i10 + bl.len();
    let i14 = p4 + ind + lit_subtasks().len();
    let i15 = i14 + sa.len();
    let i18 = p5 + ind + lit_description().len();
    let i19 = i18 + q2.len();
    let pend = p + render_todo(t, lvl).len();
    lemma_dec_digits_facts(t.id as nat);
    assert(sa[0] == '[') by {
        if t.subtasks.len() == 0 {
            assert(seq!['[', ']'][0] == '[');
        } else {
            assert((seq!['[', '\n'] + render_subtask_items(t.subtasks, lvl + 2) + seq!['\n']
                + spaces((lvl + 1) * 2) + seq![']'])[0] == '[');
        }
    }
    // the id line
    assert(s.subrange(p1 + ind, i2)[0] == s[p1 + ind]);
    lemma_nl_indent_ws(s, p + 1, (lvl + 1) * 2);
    assert(s.subrange(i2, i3)[0] == s[i2]);
    lemma_key_id(s, p1 + ind);
    lemma_parse_u64_render(s, i2, t.id);
    // the title line
    assert(s.subrange(p2 + ind, i6)[0] == s[p2 + ind]);
    lemma_comma_nl_indent(s, i3, (lvl + 1) * 2);
    assert(s.subrange(i6, i7)[0] == s[i6]);
    lemma_key_title(s, p2 + ind);
    lemma_parse_string_render(s, i6, t.title);
    // the completed line
    assert(s.subrange(p3 + ind, i10)[0] == s[p3 + ind]);
    lemma_comma_nl_indent(s, i7, (lvl + 1) * 2);
    assert(s.subrange(i10, i11)[0] == s[i10]);
    lemma_key_completed(s, p3 + ind);
    lemma_parse_bool_render(s, i10, t.completed);
    // the subtasks line
    lemma_ws_run(s, i11, i11);
    assert(s.subrange(p4 + ind, i14)[0] == s[p4 + ind]);
    lemma_nl_indent_ws(s, i11 + 1, (lvl + 1) * 2);
    assert(s.subrange(i14, i15)[0] == s[i14]);
    lemma_key_subtasks(s, p4 + ind);
    lemma_parse_subtasks_arr_render(s, i14, t.subtasks, (lvl + 1) as nat);
    // the description line
    lemma_ws_run(s, i15, i15);
    assert(s.subrange(p5 + ind, i18)[0] == s[p5 + ind]);
    lemma_nl_indent_ws(s, i15 + 1, (lvl + 1) * 2);
    lemma_key_description(s, p5 + ind);
    lemma_parse_string_render(s, i18, t.description);
    // the closing brace
    lemma_close_nl_indent(s, i19, lvl * 2, '}');
    assert(ws_end(s, p + 1) == p1 + ind);
    assert(spec_key(s, p1 + ind, "\"id\""@) == Some(i2));
    assert(spec_parse_u64(s, i2) == Some((t.id, i3)));
    assert(spec_comma(s, i3) == Some(p2 + ind));
    assert(spec_key(s, p2 + ind, "\"title\""@) == Some(i6));
    assert(spec_parse_string(s, i6) == Some((t.title, i7)));
    assert(spec_comma(s, i7) == Some(p3 + ind));
    assert(spec_key(s, p3 + ind, "\"completed\""@) == Some(i10));
    assert(spec_parse_bool(s, i10) == Some((t.completed, i11)));
    assert(ws_end(s, i11) == i11);
    assert(ws_end(s, i11 + 1) == p4 + ind);
    assert(spec_key(s, p4 + ind, "\"subtasks\""@) == Some(i14));
    assert(crate::parse::spec_parse_subtasks_arr(s, i14) == Some((t.subtasks, i15)));
    assert(ws_end(s, i15) == i15);
    assert(ws_end(s, i15 + 1) == p5 + ind);
    assert(spec_key(s, p5 + ind, "\"description\""@) == Some(i18));
    assert(spec_parse_string(s, i18) == Some((t.description, i19)));
    assert(spec_close(s, i19, '}') == Some(pend));
    assert(spec_parse_todo_tail(s, i11, t.id, t.title, t.completed) == Some((t, pend)));
    assert(spec_parse_todo(s, p) == Some((t, pend)));
}

proof fn lemma_todo_items_head(s: Seq<char>, q: int, ts: Seq<TodoView>, elvl: nat)
    requires
        ts.len() > 0,
        0 <= q,
        q + render_todo_items(ts, elvl).len() <= s.len(),
        s.subrange(q, q + render_todo_items(ts, elvl).len()) == render_todo_items(ts, elvl),
    ensures
        s.subrange(q, q + 2 * elvl) == spaces(elvl * 2),
        s[q + 2 * elvl] == '{',
        2 * elvl < render_todo_items(ts, elvl).len(),
{
    lemma_spaces_facts(elvl * 2);
    if ts.len() == 1 {
        lemma_split(s, q, spaces(elvl * 2), render_todo(ts[0], elvl));
    } else {
        lemma_split(
            s,
            q,
            spaces(elvl * 2) + render_todo(ts[0], elvl) + seq![',', '\n'],
            render_todo_items(ts.drop_first(), elvl),
        );
        lemma_split(s, q, spaces(elvl * 2) + render_todo(ts[0], elvl), seq![',', '\n']);
        lemma_split(s, q, spaces(elvl * 2), render_todo(ts[0], elvl));
    }
    let r0 = render_todo(ts[0], elvl);
    assert(r0[0] == '{') by {
        assert(obj(
            elvl,
            fld(elvl, lit_id(), dec_digits(ts[0].id as nat)) + fld(
                elvl,
                lit_title(),
                quoted(ts[0].title),
            ) + fld(elvl, lit_completed(), render_bool(ts[0].completed)) + fld(
                elvl,
                lit_subtasks(),
                render_subtasks_arr(ts[0].subtasks, elvl + 1),
            ) + fld_last(elvl, lit_description(), quoted(ts[0].description)),
        )[0] == '{');
    }
    assert(s.subrange(q + 2 * elvl, q + 2 * elvl + r0.len())[0] == s[q + 2 * elvl]);
}

#[verifier::rlimit(100)]
proof fn lemma_parse_todo_items_render(
    s: Seq<char>,
    p: int,
    ts: Seq<TodoView>,
    acc: Seq<TodoView>,
    elvl: nat,
    close: nat,
)
    requires
        ts.len() > 0,
        0 <= p,
        p + render_todo_items(ts, elvl).len() + 2 + 2 * close <= s.len(),
        s.subrange(p, p + render_todo_items(ts, elvl).len()) == render_todo_items(ts, elvl),
        s[p + render_todo_items(ts, elvl).len()] == '\n',
        s.subrange(
            p + render_todo_items(ts, elvl).len() + 1,
            p + render_todo_items(ts, elvl).len() + 1 + 2 * close,
        ) == spaces(close * 2),
        s[p + render_todo_items(ts, elvl).len() + 1 + 2 * close] == ']',
    ensures
        spec_parse_todo_items(s, p + 2 * elvl, acc) == Some(
            (acc + ts, p + render_todo_items(ts, elvl).len() + 2 * close + 2),
        ),
    decreases ts.len(),
{
    lemma_value_heads();
    let items = render_todo_items(ts, elvl);
    let l = items.len();
    let r0 = render_todo(ts[0], elvl);
    lemma_spaces_facts(elvl * 2);
    if ts.len() == 1 {
        lemma_split(s, p, spaces(elvl * 2), r0);
        lemma_parse_todo_render(s, p + 2 * elvl, ts[0], elvl);
        let j = p + 2 * elvl + r0.len();
        assert(j == p + l);
        lemma_nl_indent_ws(s, j, close * 2);
        assert(acc.push(ts[0]) =~= acc + ts);
    } else {
        let rest = ts.drop_first();
        let rest_items = render_todo_items(rest, elvl);
        lemma_split(s, p, spaces(elvl * 2) + r0 + seq![',', '\n'], rest_items);
        lemma_split(s, p, spaces(elvl * 2) + r0, seq![',', '\n']);
        lemma_split(s, p, spaces(elvl * 2), r0);
        lemma_parse_todo_render(s, p + 2 * elvl, ts[0], elvl);
        let j = p + 2 * elvl + r0.len();
        assert(s[j + 0] == ',' && s[j + 1] == '\n') by {
            assert(s[p + (2 * elvl + r0.len()) + 0] == seq![',', '\n'][0]);
            assert(s[p + (2 * elvl + r0.len()) + 1] == seq![',', '\n'][1]);
        }
        let prest = j + 2;
        lemma_todo_items_head(s, prest, rest, elvl);
        lemma_ws_run(s, j, j);
        lemma_comma_nl_indent(s, j, elvl * 2);
        lemma_parse_todo_items_render(s, prest, rest, acc.push(ts[0]), elvl, close);
        assert(acc.push(ts[0]) + rest =~= acc + ts);
        assert(prest + rest_items.len() == p + l);
    }
}

proof fn lemma_parse_todos_arr_render(s: Seq<char>, p: int, ts: Seq<TodoView>, lvl: nat)
    requires
        0 <= p,
        p + render_todos_arr(ts, lvl).len() <= s.len(),
        s.subrange(p, p + render_todos_arr(ts, lvl).len()) == render_todos_arr(ts, lvl),
    ensures
        spec_parse_todos_arr(s, p) == Some((ts, p + render_todos_arr(ts, lvl).len())),
{
    lemma_value_heads();
    if ts.len() == 0 {
        assert(s.subrange(p, p + 2)[0] == s[p]);
        assert(s.subrange(p, p + 2)[1] == s[p + 1]);
        assert(s[p] == '[' && s[p + 1] == ']');
        lemma_ws_run(s, p + 1, p + 1);
        assert(spec_parse_todos_arr(s, p) == Some((Seq::<TodoView>::empty(), p + 2)));
        assert(Seq::<TodoView>::empty() =~= ts);
    } else {
        let items = render_todo_items(ts, lvl + 1);
        lemma_spaces_facts(lvl * 2);
        assert(render_todos_arr(ts, lvl).len() == arr_len(lvl, items));
        lemma_arr_split(s, p, lvl, items);
        let q = p + 2;
        lemma_todo_items_head(s, q, ts, (lvl + 1) as nat);
        lemma_nl_indent_ws(s, p + 1, ((lvl + 1) * 2) as nat);
        assert(s[p + 2 + 2 * (lvl + 1)] == '{');
        lemma_parse_todo_items_render(s, q, ts, Seq::empty(), (lvl + 1) as nat, lvl);
        assert(Seq::<TodoView>::empty() + ts =~= ts);
    }
}

// --- projects ---

#[verifier::rlimit(100)]
proof fn lemma_parse_project_render(s: Seq<char>, p: int, pv: ProjectView, lvl: nat)
    requires
        0 <= p,
        p + render_project(pv, lvl).len() <= s.len(),
        s.subrange(p, p + render_project(pv, lvl).len()) == render_project(pv, lvl),
    ensures
        spec_parse_project(s, p) == Some((pv, p + render_project(pv, lvl).len())),
{
    reveal_strlit("\"id\": ");
    reveal_strlit("\"name\": ");
    reveal_strlit("\"todos\": ");
    lemma_value_heads();
    let ind = ((lvl + 1) * 2) as int;
    let d = dec_digits(pv.id as nat);
    let q1 = quoted(pv.name);
    let ta = render_todos_arr(pv.todos, lvl + 1);
    let f1 = fld(lvl, lit_id(), d);
    let f2 = fld(lvl, lit_name(), q1);
    let f3 = fld_last(lvl, lit_todos(), ta);
    let fs = f1 + f2 + f3;
    lemma_obj_split(s, p, lvl, fs);
    let p1 = p + 2;
    lemma_split(s, p1, f1 + f2, f3);
    lemma_split(s, p1, f1, f2);
    let p2 = p1 + f1.len();
    let p3 = p2 + f2.len();
    lemma_fld_split(s, p1, lvl, lit_id(), d);
    lemma_fld_split(s, p2, lvl, lit_name(), q1);
    lemma_fld_last_split(s, p3, lvl, lit_todos(), ta);
    lemma_dec_digits_facts(pv.id as nat);
    assert(ta[0] == '[') by {
        if pv.todos.len() == 0 {
            assert(seq!['[', ']'][0] == '[');
        } else {
            assert((seq!['[', '\n'] + render_todo_items(pv.todos, lvl + 2) + seq!['\n'] + spaces(
                (lvl + 1) * 2,
            ) + seq![']'])[0] == '[');
        }
    }
    // the id line
    assert(s.subrange(p1 + ind, p1 + ind + lit_id().len())[0] == s[p1 + ind]);
    lemma_nl_indent_ws(s, p + 1, (lvl + 1) * 2);
    let i2 = p1 + ind + lit_id().len();
    assert(s.subrange(i2, i2 + d.len())[0] == s[i2]);
    lemma_key_id(s, p1 + ind);
    let i3 = i2 + d.len();
    lemma_parse_u64_render(s, i2, pv.id);
    // the name line
    assert(s.subrange(p2 + ind, p2 + ind + lit_name().len())[0] == s[p2 + ind]);
    lemma_comma_nl_indent(s, i3, (lvl + 1) * 2);
    let i6 = p2 + ind + lit_name().len();
    assert(s.subrange(i6, i6 + q1.len())[0] == s[i6]);
    lemma_key_name(s, p2 + ind);
    lemma_parse_string_render(s, i6, pv.name);
    let i7 = i6 + q1.len();
    // the todos line
    assert(s[i7] == ',' && s[i7 + 1] == '\n');
    lemma_ws_run(s, i7, i7);
    assert(s.subrange(p3 + ind, p3 + ind + lit_todos().len())[0] == s[p3 + ind]);
    lemma_nl_indent_ws(s, i7 + 1, (lvl + 1) * 2);
    let i10 = p3 + ind + lit_todos().len();
    assert(s.subrange(i10, i10 + ta.len())[0] == s[i10]);
    lemma_key_todos(s, p3 + ind);
    lemma_parse_todos_arr_render(s, i10, pv.todos, (lvl + 1) as nat);
    let i11 = i10 + ta.len();
    // the closing brace
    lemma_close_nl_indent(s, i11, lvl * 2, '}');
    assert(ws_end(s, p + 1) == p1 + ind);
    assert(spec_key(s, p1 + ind, "\"id\""@) == Some(i2));
    assert(spec_parse_u64(s, i2) == Some((pv.id, i3)));
    assert(spec_comma(s, i3) == Some(p2 + ind));
    assert(spec_key(s, p2 + ind, "\"name\""@) == Some(i6));
    assert(spec_parse_string(s, i6) == Some((pv.name, i7)));
    assert(ws_end(s, i7) == i7);
    assert(ws_end(s, i7 + 1) == p3 + ind);
    assert(spec_key(s, p3 + ind, "\"todos\""@) == Some(i10));
    assert(spec_parse_todos_arr(s, i10) == Some((pv.todos, i11)));
    assert(spec_close(s, i11, '}') == Some(p + render_project(pv, lvl).len()));
    assert(spec_parse_project(s, p) == Some((pv, p + render_project(pv, lvl).len())));
}

proof fn lemma_project_items_head(s: Seq<char>, q: int, ps: Seq<ProjectView>, elvl: nat)
    requires
        ps.len() > 0,
        0 <= q,
        q + render_project_items(ps, elvl).len() <= s.len(),
        s.subrange(q, q + render_project_items(ps, elvl).len()) == render_project_items(ps, elvl),
    ensures
        s.subrange(q, q + 2 * elvl) == spaces(elvl * 2),
        s[q + 2 * elvl] == '{',
        2 * elvl < render_project_items(ps, elvl).len(),
{
    lemma_spaces_facts(elvl * 2);
    if ps.len() == 1 {
        lemma_split(s, q, spaces(elvl * 2), render_project(ps[0], elvl));
    } else {
        lemma_split(
            s,
            q,
            spaces(elvl * 2) + render_project(ps[0], elvl) + seq![',', '\n'],
            render_project_items(ps.drop_first(), elvl),
        );
        lemma_split(s, q, spaces(elvl * 2) + render_project(ps[0], elvl), seq![',', '\n']);
        lemma_split(s, q, spaces(elvl * 2), render_project(ps[0], elvl));
    }
    let r0 = render_project(ps[0], elvl);
    assert(r0[0] == '{') by {
        assert(obj(
            elvl,
            fld(elvl, lit_id(), dec_digits(ps[0].id as nat)) + fld(
                elvl,
                lit_name(),
                quoted(ps[0].name),
            ) + fld_last(elvl, lit_todos(), render_todos_arr(ps[0].todos, elvl + 1)),
        )[0] == '{');
    }
    assert(s.subrange(q + 2 * elvl, q + 2 * elvl + r0.len())[0] == s[q + 2 * elvl]);
}

#[verifier::rlimit(100)]
proof fn lemma_parse_project_items_render(
    s: Seq<char>,
    p: int,
    ps: Seq<ProjectView>,
    acc: Seq<ProjectView>,
    elvl: nat,
    close: nat,
)
    requires
        ps.len() > 0,
        0 <= p,
        p + render_project_items(ps, elvl).len() + 2 + 2 * close <= s.len(),
        s.subrange(p, p + render_project_items(ps, elvl).len()) == render_project_items(ps, elvl),
        s[p + render_project_items(ps, elvl).len()] == '\n',
        s.subrange(
            p + render_project_items(ps, elvl).len() + 1,
            p + render_project_items(ps, elvl).len() + 1 + 2 * close,
        ) == spaces(close * 2),
        s[p + render_project_items(ps, elvl).len() + 1 + 2 * close] == ']',
    ensures
        spec_parse_project_items(s, p + 2 * elvl, acc) == Some(
            (acc + ps, p + render_project_items(ps, elvl).len() + 2 * close + 2),
        ),
    decreases ps.len(),
{
    lemma_value_heads();
    let items = render_project_items(ps, elvl);
    let l = items.len();
    let r0 = render_project(ps[0], elvl);
    lemma_spaces_facts(elvl * 2);
    if ps.len() == 1 {
        lemma_split(s, p, spaces(elvl * 2), r0);
        lemma_parse_project_render(s, p + 2 * elvl, ps[0], elvl);
        let j = p + 2 * elvl + r0.len();
        assert(j == p + l);
        lemma_nl_indent_ws(s, j, close * 2);
        assert(acc.push(ps[0]) =~= acc + ps);
    } else {
        let rest = ps.drop_first();
        let rest_items = render_project_items(rest, elvl);
        lemma_split(s, p, spaces(elvl * 2) + r0 + seq![',', '\n'], rest_items);
        lemma_split(s, p, spaces(elvl * 2) + r0, seq![',', '\n']);
        lemma_split(s, p, spaces(elvl * 2), r0);
        lemma_parse_project_render(s, p + 2 * elvl, ps[0], elvl);
        let j = p + 2 * elvl + r0.len();
        assert(s[j + 0] == ',' && s[j + 1] == '\n') by {
            assert(s[p + (2 * elvl + r0.len()) + 0] == seq![',', '\n'][0]);
            assert(s[p + (2 * elvl + r0.len()) + 1] == seq![',', '\n'][1]);
        }
        let prest = j + 2;
        lemma_project_items_head(s, prest, rest, elvl);
        lemma_ws_run(s, j, j);
        lemma_comma_nl_indent(s, j, elvl * 2);
        lemma_parse_project_items_render(s, prest, rest, acc.push(ps[0]), elvl, close);
        assert(acc.push(ps[0]) + rest =~= acc + ps);
        assert(prest + rest_items.len() == p + l);
    }
}

// --- the whole document ---

/// Reading back a rendered document yields exactly the collection it was
/// rendered from: the codec loses nothing and invents nothing.
#[verifier::rlimit(100)]
proof fn lemma_parse_projects_arr_render(s: Seq<char>, p: int, ps: Seq<ProjectView>, lvl: nat)
    requires
        ps.len() > 0,
        0 <= p,
        p + arr_len(lvl, render_project_items(ps, lvl + 1)) <= s.len(),
        s.subrange(p, p + arr_len(lvl, render_project_items(ps, lvl + 1)))
            == crate::codec::arr(lvl, render_project_items(ps, lvl + 1)),
    ensures
        spec_parse_projects_arr(s, p) == Some(
            (ps, p + arr_len(lvl, render_project_items(ps, lvl + 1))),
        ),
{
    lemma_value_heads();
    let items = render_project_items(ps, lvl + 1);
    lemma_spaces_facts(lvl * 2);
    lemma_arr_split(s, p, lvl, items);
    let q = p + 2;
    lemma_project_items_head(s, q, ps, (lvl + 1) as nat);
    lemma_nl_indent_ws(s, p + 1, ((lvl + 1) * 2) as nat);
    lemma_parse_project_items_render(s, q, ps, Seq::empty(), (lvl + 1) as nat, lvl);
    assert(Seq::<ProjectView>::empty() + ps =~= ps);
}

/// Reading back a rendered document yields exactly the collection it was
/// rendered from: the codec loses nothing and invents nothing.
#[verifier::rlimit(100)]
pub proof fn lemma_load_save_roundtrip(ps: Seq<ProjectView>)
    ensures
        spec_parse_projects_doc(render_projects_doc(ps)) == Some(ps),
{
    lemma_value_heads();
    let s = render_projects_doc(ps);
    if ps.len() == 0 {
        assert(s == seq!['[', ']']);
        assert(s[0] == '[' && s[1] == ']');
        lemma_ws_run(s, 0, 0);
        lemma_ws_run(s, 1, 1);
        lemma_ws_run(s, 2, 2);
        assert(spec_parse_projects_arr(s, 0) == Some((Seq::<ProjectView>::empty(), 2int)));
        assert(Seq::<ProjectView>::empty() =~= ps);
    } else {
        let items = render_project_items(ps, 1);
        lemma_spaces_facts(0);
        assert(s.subrange(0, s.len() as int) =~= s);
        assert(s.len() == arr_len(0, items));
        lemma_parse_projects_arr_render(s, 0, ps, 0);
        assert(s[0] == '[') by {
            assert((seq!['[', '\n'] + items + seq!['\n'] + spaces(0) + seq![']'])[0] == '[');
        }
        lemma_ws_run(s, 0, 0);
        lemma_ws_run(s, s.len() as int, s.len() as int);
    }
}

/// Saving right after a load of saved data writes the identical text: the
/// round trip is idempotent byte for byte.
pub proof fn lemma_save_after_load_identical(ps: Seq<ProjectView>)
    ensures
        spec_parse_projects_doc(render_projects_doc(ps)) matches Some(qs)
            && render_projects_doc(qs) == render_projects_doc(ps),
{
    lemma_load_save_roundtrip(ps);
}

} // verus!
