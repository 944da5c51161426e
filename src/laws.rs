//! What holds of every pass.
use crate::depth::depths_after;
use crate::lines::{
    assemble, breaks_of, ends_with_newline, joined, line_break, lines_of, split_state, strip_cr,
};
use crate::pass::{format_text, rewrite_upto, rewritten};
use crate::policy::{
    action_for, edit_line, replace_semicolons, replacement, without_last, Action,
};
use crate::token::{Token, TokenKind};
use vstd::prelude::*;

verus! {

/// No character of `s` is a `\n`.
pub open spec fn single_line(s: Seq<char>) -> bool {
    forall|i: int| 0 <= i < s.len() ==> s[i] != '\n'
}

/// No line of `lines` holds a `\n`.
pub open spec fn all_single_lines(lines: Seq<Seq<char>>) -> bool {
    forall|k: int| 0 <= k < lines.len() ==> single_line(#[trigger] lines[k])
}

/// None of `tokens` is a semicolon.
pub open spec fn no_semicolon_tokens(tokens: Seq<Token>) -> bool {
    forall|i: int| 0 <= i < tokens.len() ==> #[trigger] tokens[i].kind != TokenKind::Semicolon
}

/// The text has no final line break, and the pass left its last line empty.
pub open spec fn last_line_emptied(code: Seq<char>, tokens: Seq<Token>, array_mode: bool) -> bool {
    let r = rewritten(lines_of(code), tokens, array_mode);
    !ends_with_newline(code) && r.len() > 0 && r.last().len() == 0
}

proof fn lemma_split_shape(s: Seq<char>)
    ensures
        all_single_lines(split_state(s).0),
        split_state(s).1.len() == split_state(s).0.len(),
        single_line(split_state(s).2),
    decreases s.len(),
{
    if s.len() > 0 {
        lemma_split_shape(s.drop_last());
        let prev = split_state(s.drop_last());
        assert(single_line(strip_cr(prev.2)));
    }
}

proof fn lemma_lines_single(s: Seq<char>)
    ensures
        all_single_lines(lines_of(s)),
{
    lemma_split_shape(s);
}

proof fn lemma_replace_single(s: Seq<char>, rep: Seq<char>)
    requires
        single_line(s),
        single_line(rep),
    ensures
        single_line(replace_semicolons(s, rep)),
    decreases s.len(),
{
    if s.len() > 0 {
        lemma_replace_single(s.drop_last(), rep);
    }
}

proof fn lemma_edit_single(line: Seq<char>, action: Action)
    requires
        single_line(line),
    ensures
        single_line(edit_line(line, action)),
{
    lemma_replace_single(line, replacement(action));
    assert(single_line(without_last(line)));
}

proof fn lemma_rewrite_upto_shape(lines: Seq<Seq<char>>, tokens: Seq<Token>, array_mode: bool, n: int)
    ensures
        rewrite_upto(lines, tokens, array_mode, n).len() == lines.len(),
        all_single_lines(lines) ==> all_single_lines(rewrite_upto(lines, tokens, array_mode, n)),
    decreases n,
{
    if n > 0 {
        lemma_rewrite_upto_shape(lines, tokens, array_mode, n - 1);
        let prev = rewrite_upto(lines, tokens, array_mode, n - 1);
        let t = tokens[n - 1];
        if t.kind == TokenKind::Semicolon && 1 <= t.line <= prev.len() && all_single_lines(lines) {
            let k = t.line - 1;
            let cur = rewrite_upto(lines, tokens, array_mode, n);
            assert forall|j: int| 0 <= j < cur.len() implies single_line(#[trigger] cur[j]) by {
                if j == k {
                    let d = depths_after(tokens, n);
                    lemma_edit_single(prev[k], action_for(d.0, d.1, array_mode));
                }
            }
        }
    }
}

/// A pass never adds or removes a line of the buffer: it has as many lines
/// after the pass as the text had.
pub proof fn lemma_line_buffer_length_kept(code: Seq<char>, tokens: Seq<Token>, array_mode: bool)
    ensures
        rewritten(lines_of(code), tokens, array_mode).len() == lines_of(code).len(),
{
    lemma_rewrite_upto_shape(lines_of(code), tokens, array_mode, tokens.len() as int);
}

proof fn lemma_split_joined(lines: Seq<Seq<char>>, crlf: Seq<bool>, x: Seq<char>)
    requires
        all_single_lines(lines),
        single_line(x),
    ensures
        split_state(joined(lines, crlf) + x).0.len() == lines.len(),
        split_state(joined(lines, crlf) + x).2 == x,
    decreases lines.len(), x.len(),
{
    let s = joined(lines, crlf) + x;
    if x.len() > 0 {
        assert(s.drop_last() == joined(lines, crlf) + x.drop_last());
        lemma_split_joined(lines, crlf, x.drop_last());
        assert(x.drop_last().push(x.last()) == x);
    } else if lines.len() > 0 {
        let l = lines.last();
        let rest = lines.drop_last();
        let brk = line_break(crlf, lines.len() - 1);
        assert(single_line(l));
        assert(s == joined(rest, crlf) + l + brk);
        if brk.len() == 2 {
            assert(s.drop_last() == joined(rest, crlf) + l.push('\r'));
            lemma_split_joined(rest, crlf, l.push('\r'));
        } else {
            assert(s.drop_last() == joined(rest, crlf) + l);
            lemma_split_joined(rest, crlf, l);
        }
    } else {
        assert(s == Seq::<char>::empty());
    }
}

proof fn lemma_joined_ends_with_newline(lines: Seq<Seq<char>>, crlf: Seq<bool>)
    requires
        lines.len() > 0,
    ensures
        ends_with_newline(joined(lines, crlf)),
{
    let brk = line_break(crlf, lines.len() - 1);
    assert(joined(lines, crlf) == joined(lines.drop_last(), crlf) + lines.last() + brk);
}

proof fn lemma_assemble_split(lines: Seq<Seq<char>>, crlf: Seq<bool>)
    requires
        lines.len() > 0,
        lines.len() - 1 >= crlf.len(),
    ensures
        assemble(lines, crlf, false) == joined(lines.drop_last(), crlf) + lines.last(),
{
    let j = joined(lines, crlf);
    assert(j == joined(lines.drop_last(), crlf) + lines.last() + seq!['\n']);
    assert(j.drop_last() == joined(lines.drop_last(), crlf) + lines.last());
}

/// Without a final break, the text's last line is one that no break closes.
proof fn lemma_open_last_line(code: Seq<char>)
    requires
        code.len() > 0,
        !ends_with_newline(code),
    ensures
        lines_of(code).len() == breaks_of(code).len() + 1,
        lines_of(code).last().len() > 0,
{
    lemma_split_shape(code);
    lemma_split_shape(code.drop_last());
}

/// The rewritten text has as many lines as the text, unless the text has no
/// final line break and the pass emptied its last line.
pub proof fn lemma_line_count_kept(code: Seq<char>, tokens: Seq<Token>, array_mode: bool)
    requires
        !last_line_emptied(code, tokens, array_mode),
    ensures
        lines_of(format_text(code, tokens, array_mode)).len() == lines_of(code).len(),
{
    let r = rewritten(lines_of(code), tokens, array_mode);
    let crlf = breaks_of(code);
    lemma_lines_single(code);
    lemma_rewrite_upto_shape(lines_of(code), tokens, array_mode, tokens.len() as int);
    let out = format_text(code, tokens, array_mode);
    if ends_with_newline(code) {
        lemma_split_joined(r, crlf, seq![]);
        assert(joined(r, crlf) + seq![] == joined(r, crlf));
    } else if code.len() == 0 {
        assert(r.len() == 0);
        assert(out.len() == 0);
    } else {
        lemma_open_last_line(code);
        lemma_assemble_split(r, crlf);
        lemma_split_joined(r.drop_last(), crlf, r.last());
    }
}

/// The rewritten text ends with a line break exactly when the text does,
/// unless the text has no final line break and the pass emptied its last
/// line below another.
pub proof fn lemma_trailing_newline_kept(code: Seq<char>, tokens: Seq<Token>, array_mode: bool)
    requires
        !(last_line_emptied(code, tokens, array_mode) && lines_of(code).len() >= 2),
    ensures
        ends_with_newline(format_text(code, tokens, array_mode)) == ends_with_newline(code),
{
    let r = rewritten(lines_of(code), tokens, array_mode);
    let crlf = breaks_of(code);
    lemma_lines_single(code);
    lemma_rewrite_upto_shape(lines_of(code), tokens, array_mode, tokens.len() as int);
    if ends_with_newline(code) {
        assert(code.drop_last().push(code.last()) == code);
        assert(lines_of(code).len() > 0);
        lemma_joined_ends_with_newline(r, crlf);
    } else if code.len() > 0 {
        lemma_open_last_line(code);
        lemma_assemble_split(r, crlf);
        let last = r.last();
        if last.len() == 0 {
            assert(r.len() == 1);
            assert(joined(r.drop_last(), crlf).len() == 0);
            assert(joined(r.drop_last(), crlf) + last == joined(r.drop_last(), crlf));
        } else {
            assert(single_line(last));
        }
    }
}

proof fn lemma_no_semicolons_untouched(lines: Seq<Seq<char>>, tokens: Seq<Token>, array_mode: bool, n: int)
    requires
        no_semicolon_tokens(tokens),
        n <= tokens.len(),
    ensures
        rewrite_upto(lines, tokens, array_mode, n) == lines,
    decreases n,
{
    if n > 0 {
        lemma_no_semicolons_untouched(lines, tokens, array_mode, n - 1);
        assert(tokens[n - 1].kind != TokenKind::Semicolon);
    }
}

/// Joining reads only the breaks of the lines joined.
proof fn lemma_joined_same_breaks(lines: Seq<Seq<char>>, a: Seq<bool>, b: Seq<bool>)
    requires
        forall|k: int| 0 <= k < lines.len() ==> line_break(a, k) == line_break(b, k),
    ensures
        joined(lines, a) == joined(lines, b),
    decreases lines.len(),
{
    if lines.len() > 0 {
        lemma_joined_same_breaks(lines.drop_last(), a, b);
        assert(line_break(a, lines.len() - 1) == line_break(b, lines.len() - 1));
    }
}

proof fn lemma_split_rebuilds(s: Seq<char>)
    ensures
        joined(split_state(s).0, split_state(s).1) + split_state(s).2 == s,
    decreases s.len(),
{
    if s.len() > 0 {
        let p = s.drop_last();
        lemma_split_rebuilds(p);
        lemma_split_shape(p);
        let prev = split_state(p);
        if s.last() == '\n' {
            let cr = prev.2.len() > 0 && prev.2.last() == '\r';
            let crlf = prev.1.push(cr);
            let closed = strip_cr(prev.2);
            assert forall|k: int| 0 <= k < prev.0.len() implies line_break(crlf, k) == line_break(
                prev.1,
                k,
            ) by {
                assert(crlf[k] == prev.1[k]);
            }
            lemma_joined_same_breaks(prev.0, crlf, prev.1);
            assert(prev.0.push(closed).drop_last() == prev.0);
            assert(joined(prev.0.push(closed), crlf) == joined(prev.0, prev.1) + closed
                + line_break(crlf, prev.0.len() as int));
            assert(closed + line_break(crlf, prev.0.len() as int) == prev.2 + seq!['\n']);
            let base = joined(prev.0, prev.1);
            assert(base + closed + line_break(crlf, prev.0.len() as int) =~= base + (closed
                + line_break(crlf, prev.0.len() as int)));
            assert(base + (prev.2 + seq!['\n']) =~= p.push('\n'));
            assert(p.push('\n') == s);
            assert(joined(prev.0.push(closed), crlf) + seq![] =~= s);
        } else {
            assert(joined(prev.0, prev.1) + prev.2.push(s.last()) == p.push(s.last()));
            assert(p.push(s.last()) == s);
        }
    }
}

/// A text with no semicolon token comes out of a pass unchanged.
pub proof fn lemma_no_semicolons_no_change(code: Seq<char>, tokens: Seq<Token>, array_mode: bool)
    requires
        no_semicolon_tokens(tokens),
    ensures
        format_text(code, tokens, array_mode) == code,
{
    let st = split_state(code);
    lemma_no_semicolons_untouched(lines_of(code), tokens, array_mode, tokens.len() as int);
    lemma_split_rebuilds(code);
    lemma_split_shape(code);
    if code.len() == 0 {
        assert(lines_of(code).len() == 0);
        assert(joined(lines_of(code), st.1) == code);
    } else if ends_with_newline(code) {
        assert(st.2.len() == 0);
        assert(joined(st.0, st.1) + st.2 == joined(st.0, st.1));
    } else {
        assert(st.2.len() > 0);
        let j = joined(st.0.push(st.2), st.1);
        assert(st.0.push(st.2).drop_last() == st.0);
        assert(j == joined(st.0, st.1) + st.2 + seq!['\n']);
        assert(j.drop_last() == joined(st.0, st.1) + st.2);
    }
}

/// A second pass over a rewritten text changes nothing where the rewritten
/// text holds no semicolon token.
pub proof fn lemma_second_pass_no_change(
    code: Seq<char>,
    first: Seq<Token>,
    second: Seq<Token>,
    array_mode: bool,
)
    requires
        no_semicolon_tokens(second),
    ensures
        format_text(format_text(code, first, array_mode), second, array_mode) == format_text(
            code,
            first,
            array_mode,
        ),
{
    lemma_no_semicolons_no_change(format_text(code, first, array_mode), second, array_mode);
}

} // verus!
