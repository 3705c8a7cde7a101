//! ANSI styling of console output. Whether colour is used (standard output is
//! a terminal and `NO_COLOR` is unset) is decided by the caller.

use vstd::prelude::*;

use crate::text::{chars_of, ends_with, find_index, find_text, join, join_strings, lemma_views_push, owned, push_char, push_str, starts_with, substring, text_ends_with, text_eq, text_starts_with, trim, trim_end, trim_end_text, trim_start, trim_start_text, trim_text, views};

verus! {

/// Resets styling.
pub const RESET: &'static str = "\x1b[0m";

/// Bold.
pub const BOLD: &'static str = "\x1b[1m";

/// Dim.
pub const DIM: &'static str = "\x1b[2m";

/// Green, for healthy states.
pub const GREEN: &'static str = "\x1b[32m";

/// Red, for errors.
pub const RED: &'static str = "\x1b[31m";

/// Bright black, for rules and quiet values.
pub const BRIGHT_BLACK: &'static str = "\x1b[90m";

/// The pieces of `s` between `\n` characters (`str::split('\n')`).
pub open spec fn split_nl(s: Seq<char>) -> Seq<Seq<char>>
    decreases s.len(),
{
    if s.len() == 0 {
        seq![Seq::empty()]
    } else {
        let rest = split_nl(s.drop_last());
        if s.last() == '\n' {
            rest.push(Seq::empty())
        } else {
            rest.update(rest.len() - 1, rest.last().push(s.last()))
        }
    }
}

/// A line without its trailing `\r`.
pub open spec fn strip_cr(l: Seq<char>) -> Seq<char> {
    if l.len() > 0 && l.last() == '\r' {
        l.drop_last()
    } else {
        l
    }
}

/// The lines of a text (`str::lines`).
pub open spec fn text_lines(s: Seq<char>) -> Seq<Seq<char>> {
    let p = split_nl(s);
    let q = if p.last().len() == 0 {
        p.drop_last()
    } else {
        p
    };
    Seq::new(q.len(), |i: int| strip_cr(q[i]))
}

/// `value` wrapped in `style` and a reset.
pub open spec fn painted(value: Seq<char>, style: Seq<char>) -> Seq<char> {
    style + value + RESET@
}

/// Characters that draw table borders.
pub open spec fn is_rule_char(c: char) -> bool {
    c == '┌' || c == '┬' || c == '┐' || c == '├' || c == '┼' || c == '┤' || c == '└' || c == '┴'
        || c == '┘' || c == '─' || c == '│'
}

/// A line made only of border characters.
pub open spec fn is_border_line(line: Seq<char>) -> bool {
    let t = trim(line);
    t.len() > 0 && forall|i: int| 0 <= i < t.len() ==> is_rule_char(#[trigger] t[i])
}

/// A table data line.
pub open spec fn is_row_line(line: Seq<char>) -> bool {
    let t = trim(line);
    starts_with(t, "│"@) && ends_with(t, "│"@)
}

/// A help tree line.
pub open spec fn is_tree_line(line: Seq<char>) -> bool {
    let t = trim_start(line);
    starts_with(t, "├─"@) || starts_with(t, "└─"@) || starts_with(t, "│"@)
}

/// A row with its vertical rules dimmed.
pub open spec fn dim_rules(line: Seq<char>) -> Seq<char>
    decreases line.len(),
{
    if line.len() == 0 {
        Seq::empty()
    } else {
        dim_rules(line.drop_last()) + if line.last() == '│' {
            BRIGHT_BLACK@ + "│"@ + RESET@
        } else {
            seq![line.last()]
        }
    }
}

/// Splits at the first two-space gap: the key without trailing and the value
/// without leading whitespace.
pub open spec fn key_value(v: Seq<char>) -> Option<(Seq<char>, Seq<char>)> {
    match find_index(v, "  "@) {
        Some(i) => Some((trim_end(v.subrange(0, i)), trim_start(v.subrange(i + 2, v.len() as int)))),
        None => None,
    }
}

/// The style of a status value.
pub open spec fn value_style(value: Seq<char>) -> Seq<char> {
    let t = trim(value);
    if t == "active"@ || t == "ok"@ {
        GREEN@
    } else if t == "stopped"@ || t == "false"@ || t == "-"@ {
        BRIGHT_BLACK@
    } else if starts_with(t, "error"@) {
        RED@
    } else {
        RESET@
    }
}

/// A status value in its colour.
pub open spec fn styled_value(value: Seq<char>) -> Seq<char> {
    if value_style(value) == RESET@ {
        value
    } else {
        painted(value, value_style(value))
    }
}

/// A panel field line with its value coloured.
pub open spec fn styled_field(line: Seq<char>) -> Seq<char> {
    let body = trim_start(line);
    let indent = line.subrange(0, line.len() - body.len());
    match key_value(body) {
        Some(kv) => indent + kv.0 + "  "@ + styled_value(kv.1),
        None => line,
    }
}

/// Where a help tree line's branch marker starts.
pub open spec fn marker_index(line: Seq<char>) -> Option<int> {
    match find_index(line, "├─ "@) {
        Some(i) => Some(i),
        None => find_index(line, "└─ "@),
    }
}

/// A help tree line with its branches dimmed and its description faint.
pub open spec fn styled_tree(line: Seq<char>) -> Seq<char> {
    match marker_index(line) {
        None => painted(line, BRIGHT_BLACK@),
        Some(m) => {
            let prefix = line.subrange(0, m + 3);
            let rest = line.subrange(m + 3, line.len() as int);
            match key_value(rest) {
                None => painted(prefix, BRIGHT_BLACK@) + rest,
                Some(kv) => painted(prefix, BRIGHT_BLACK@) + kv.0 + "  "@ + painted(kv.1, DIM@),
            }
        },
    }
}

/// One output line in colour.
pub open spec fn styled_line(line: Seq<char>) -> Seq<char> {
    if trim(line).len() == 0 {
        Seq::empty()
    } else if is_border_line(line) {
        painted(line, BRIGHT_BLACK@)
    } else if is_row_line(line) {
        dim_rules(line)
    } else if is_tree_line(line) {
        styled_tree(line)
    } else if !starts_with(line, " "@) {
        painted(line, BOLD@)
    } else {
        styled_field(line)
    }
}

/// Console output in colour.
pub open spec fn styled_output(rendered: Seq<char>) -> Seq<char> {
    let ls = text_lines(rendered);
    join(Seq::new(ls.len(), |i: int| styled_line(ls[i])), "\n"@)
}

fn paint(value: &str, style: &str) -> (s: String)
    ensures
        s@ == painted(value@, style@),
{
    let mut s = owned(style);
    push_str(&mut s, value);
    push_str(&mut s, RESET);
    s
}

fn lines_of(s: &str) -> (r: Vec<String>)
    ensures
        views(r@) == text_lines(s@),
{
    let x = chars_of(s);
    let mut pieces: Vec<String> = Vec::new();
    let mut current = String::new();
    let mut i: usize = 0;
    assert(x@.take(0) =~= Seq::<char>::empty());
    while i < x.len()
        invariant
            i <= x@.len(),
            x@ == s@,
            views(pieces@).push(current@) == split_nl(x@.take(i as int)),
        decreases x.len() - i,
    {
        let c = x[i];
        assert(x@.take(i + 1).drop_last() =~= x@.take(i as int));
        let ghost before = views(pieces@).push(current@);
        if c == '\n' {
            let done = current;
            let ghost pv = pieces@;
            pieces.push(done);
            proof {
                lemma_views_push(pv, done);
            }
            current = String::new();
            assert(views(pieces@).push(current@) =~= before.push(Seq::empty()));
        } else {
            push_char(&mut current, c);
            assert(views(pieces@).push(current@) =~= before.update(before.len() - 1, before.last().push(c)));
        }
        i = i + 1;
    }
    assert(x@.take(x@.len() as int) =~= x@);
    let ghost p = split_nl(s@);
    if current.unicode_len() > 0 {
        let ghost pv = pieces@;
        let last = current;
        pieces.push(last);
        proof {
            lemma_views_push(pv, last);
        }
    } else {
        assert(views(pieces@) =~= p.drop_last());
    }
    let ghost q = views(pieces@);
    let mut out: Vec<String> = Vec::new();
    let mut k: usize = 0;
    while k < pieces.len()
        invariant
            k <= pieces@.len(),
            q == views(pieces@),
            views(out@) == Seq::new(k as nat, |j: int| strip_cr(q[j])),
        decreases pieces.len() - k,
    {
        let piece = &pieces[k];
        let n = piece.as_str().unicode_len();
        let line = if n > 0 && text_ends_with(piece.as_str(), "\r") {
            proof {
                reveal_strlit("\r");
                assert(piece@.subrange(n - 1, n as int)[0] == piece@.last());
            }
            substring(piece.as_str(), 0, n - 1)
        } else {
            proof {
                reveal_strlit("\r");
                if n > 0 && piece@.last() == '\r' {
                    assert(piece@.subrange(n - 1, n as int) =~= "\r"@);
                }
            }
            piece.clone()
        };
        proof {
            if n > 0 && piece@.last() == '\r' {
                assert(line@ =~= piece@.drop_last());
            }
        }
        let ghost ov = out@;
        out.push(line);
        proof {
            lemma_views_push(ov, line);
        }
        assert(views(out@) =~= Seq::new((k + 1) as nat, |j: int| strip_cr(q[j])));
        k = k + 1;
    }
    out
}

fn is_rule(c: char) -> (r: bool)
    ensures
        r == is_rule_char(c),
{
    c == '┌' || c == '┬' || c == '┐' || c == '├' || c == '┼' || c == '┤' || c == '└' || c == '┴'
        || c == '┘' || c == '─' || c == '│'
}

fn border_line(line: &str) -> (r: bool)
    ensures
        r == is_border_line(line@),
{
    let t = trim_text(line);
    let x = chars_of(t.as_str());
    if x.len() == 0 {
        return false;
    }
    let mut i: usize = 0;
    while i < x.len()
        invariant
            i <= x@.len(),
            x@ == trim(line@),
            forall|j: int| 0 <= j < i ==> is_rule_char(#[trigger] x@[j]),
        decreases x.len() - i,
    {
        if !is_rule(x[i]) {
            return false;
        }
        i = i + 1;
    }
    true
}

fn row_line(line: &str) -> (r: bool)
    ensures
        r == is_row_line(line@),
{
    let t = trim_text(line);
    text_starts_with(t.as_str(), "│") && text_ends_with(t.as_str(), "│")
}

fn tree_line(line: &str) -> (r: bool)
    ensures
        r == is_tree_line(line@),
{
    let t = trim_start_text(line);
    text_starts_with(t.as_str(), "├─") || text_starts_with(t.as_str(), "└─") || text_starts_with(t.as_str(), "│")
}

fn dim_table_rules(line: &str) -> (s: String)
    ensures
        s@ == dim_rules(line@),
{
    let x = chars_of(line);
    let mut s = String::new();
    let mut i: usize = 0;
    assert(x@.take(0) =~= Seq::<char>::empty());
    while i < x.len()
        invariant
            i <= x@.len(),
            x@ == line@,
            s@ == dim_rules(x@.take(i as int)),
        decreases x.len() - i,
    {
        assert(x@.take(i + 1).drop_last() =~= x@.take(i as int));
        let c = x[i];
        if c == '│' {
            push_str(&mut s, BRIGHT_BLACK);
            push_char(&mut s, c);
            push_str(&mut s, RESET);
            proof {
                reveal_strlit("│");
                assert(BRIGHT_BLACK@ + "│"@ + RESET@ =~= BRIGHT_BLACK@.push('│') + RESET@);
            }
        } else {
            push_char(&mut s, c);
        }
        i = i + 1;
    }
    assert(x@.take(x@.len() as int) =~= x@);
    s
}

fn split_key_value(v: &str) -> (r: Option<(String, String)>)
    ensures
        match key_value(v@) {
            Some(kv) => r matches Some(p) && p.0@ == kv.0 && p.1@ == kv.1,
            None => r is None,
        },
{
    match find_text(v, "  ") {
        Some(i) => {
            proof {
                reveal_strlit("  ");
                let j = find_index(v@, "  "@)->0;
                assert(i == j);
            }
            let n = v.unicode_len();
            let key = trim_end_text(substring(v, 0, i).as_str());
            let value = trim_start_text(substring(v, i + 2, n).as_str());
            Some((key, value))
        },
        None => None,
    }
}

fn colorize_value(value: &str) -> (s: String)
    ensures
        s@ == styled_value(value@),
{
    let t = trim_text(value);
    let ts = t.as_str();
    proof {
        reveal_strlit("\x1b[0m");
        reveal_strlit("\x1b[32m");
        reveal_strlit("\x1b[90m");
        reveal_strlit("\x1b[31m");
    }
    if text_eq(ts, "active") || text_eq(ts, "ok") {
        paint(value, GREEN)
    } else if text_eq(ts, "stopped") || text_eq(ts, "false") || text_eq(ts, "-") {
        paint(value, BRIGHT_BLACK)
    } else if text_starts_with(ts, "error") {
        paint(value, RED)
    } else {
        owned(value)
    }
}

fn colorize_field_line(line: &str) -> (s: String)
    ensures
        s@ == styled_field(line@),
{
    let body = trim_start_text(line);
    let n = line.unicode_len();
    let b = body.as_str().unicode_len();
    proof {
        crate::text::lemma_leading_le(line@);
    }
    match split_key_value(body.as_str()) {
        Some((key, value)) => {
            let mut s = substring(line, 0, n - b);
            push_str(&mut s, key.as_str());
            push_str(&mut s, "  ");
            push_str(&mut s, colorize_value(value.as_str()).as_str());
            s
        },
        None => owned(line),
    }
}

fn branch_marker(line: &str) -> (r: Option<usize>)
    ensures
        match marker_index(line@) {
            Some(m) => r matches Some(k) && k == m && m + 3 <= line@.len(),
            None => r is None,
        },
{
    proof {
        reveal_strlit("├─ ");
        reveal_strlit("└─ ");
    }
    match find_text(line, "├─ ") {
        Some(i) => {
            proof {
                let j = find_index(line@, "├─ "@)->0;
                assert(i == j);
            }
            Some(i)
        },
        None => match find_text(line, "└─ ") {
            Some(i) => {
                proof {
                    let j = find_index(line@, "└─ "@)->0;
                    assert(i == j);
                }
                Some(i)
            },
            None => None,
        },
    }
}

fn colorize_tree_line(line: &str) -> (s: String)
    ensures
        s@ == styled_tree(line@),
{
    match branch_marker(line) {
        None => paint(line, BRIGHT_BLACK),
        Some(m) => {
            let n = line.unicode_len();
            let prefix = substring(line, 0, m + 3);
            let rest = substring(line, m + 3, n);
            match split_key_value(rest.as_str()) {
                None => {
                    let mut s = paint(prefix.as_str(), BRIGHT_BLACK);
                    push_str(&mut s, rest.as_str());
                    s
                },
                Some((label, description)) => {
                    let mut s = paint(prefix.as_str(), BRIGHT_BLACK);
                    push_str(&mut s, label.as_str());
                    push_str(&mut s, "  ");
                    push_str(&mut s, paint(description.as_str(), DIM).as_str());
                    s
                },
            }
        },
    }
}

fn colorize_line(line: &str) -> (s: String)
    ensures
        s@ == styled_line(line@),
{
    if trim_text(line).as_str().unicode_len() == 0 {
        String::new()
    } else if border_line(line) {
        paint(line, BRIGHT_BLACK)
    } else if row_line(line) {
        dim_table_rules(line)
    } else if tree_line(line) {
        colorize_tree_line(line)
    } else if !text_starts_with(line, " ") {
        paint(line, BOLD)
    } else {
        colorize_field_line(line)
    }
}

/// Styles console output line by line when colour is enabled.
pub fn colorize_output(rendered: &str, enabled: bool) -> (s: String)
    ensures
        s@ == if enabled {
            styled_output(rendered@)
        } else {
            rendered@
        },
{
    if !enabled {
        return owned(rendered);
    }
    let lines = lines_of(rendered);
    let ghost ls = views(lines@);
    let mut out: Vec<String> = Vec::new();
    let mut i: usize = 0;
    while i < lines.len()
        invariant
            i <= lines@.len(),
            ls == views(lines@),
            views(out@) == Seq::new(i as nat, |j: int| styled_line(ls[j])),
        decreases lines.len() - i,
    {
        let line = colorize_line(lines[i].as_str());
        let ghost ov = out@;
        out.push(line);
        proof {
            lemma_views_push(ov, line);
        }
        assert(views(out@) =~= Seq::new((i + 1) as nat, |j: int| styled_line(ls[j])));
        i = i + 1;
    }
    join_strings(&out, "\n")
}

/// Styles the prompt in bold when colour is enabled.
pub fn colorize_prompt(prompt: &str, enabled: bool) -> (s: String)
    ensures
        s@ == if enabled {
            BOLD@ + prompt@ + RESET@
        } else {
            prompt@
        },
{
    if !enabled {
        return owned(prompt);
    }
    paint(prompt, BOLD)
}

/// A completion candidate as shown; candidates are not styled.
pub fn colorize_candidate(candidate: &str, enabled: bool) -> (s: String)
    ensures
        s@ == candidate@,
{
    owned(candidate)
}

} // verus!
