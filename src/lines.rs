//! The line buffer: a text split into lines, and lines put back into a text.
use vstd::prelude::*;

verus! {

/// The contents of each line of a line buffer.
pub open spec fn line_views(v: Seq<Vec<char>>) -> Seq<Seq<char>> {
    Seq::new(v.len(), |i: int| v[i]@)
}

/// `s` without one `\r` at its end.
pub open spec fn strip_cr(s: Seq<char>) -> Seq<char> {
    if s.len() > 0 && s.last() == '\r' {
        s.drop_last()
    } else {
        s
    }
}

/// Reading `s` from the left: the lines that a line break has closed, for
/// each of them whether its break was `\r\n`, and the characters read
/// since the last `\n`.
pub open spec fn split_state(s: Seq<char>) -> (Seq<Seq<char>>, Seq<bool>, Seq<char>)
    decreases s.len(),
{
    if s.len() == 0 {
        (seq![], seq![], seq![])
    } else {
        let prev = split_state(s.drop_last());
        if s.last() == '\n' {
            let crlf = prev.2.len() > 0 && prev.2.last() == '\r';
            (prev.0.push(strip_cr(prev.2)), prev.1.push(crlf), seq![])
        } else {
            (prev.0, prev.1, prev.2.push(s.last()))
        }
    }
}

/// The lines of `s`, without their breaks: split at each `\n`, a `\r` just
/// before it taken as part of the break, and no empty line after a final
/// break.
pub open spec fn lines_of(s: Seq<char>) -> Seq<Seq<char>> {
    let st = split_state(s);
    if st.2.len() == 0 {
        st.0
    } else {
        st.0.push(st.2)
    }
}

/// For each line of `s` that a break closes, whether that break is `\r\n`.
pub open spec fn breaks_of(s: Seq<char>) -> Seq<bool> {
    split_state(s).1
}

/// The break written after line `k`: `\r\n` where `crlf` says so, else `\n`.
pub open spec fn line_break(crlf: Seq<bool>, k: int) -> Seq<char> {
    if 0 <= k < crlf.len() && crlf[k] {
        seq!['\r', '\n']
    } else {
        seq!['\n']
    }
}

/// Each line followed by its break.
pub open spec fn joined(lines: Seq<Seq<char>>, crlf: Seq<bool>) -> Seq<char>
    decreases lines.len(),
{
    if lines.len() == 0 {
        seq![]
    } else {
        joined(lines.drop_last(), crlf) + lines.last() + line_break(crlf, lines.len() - 1)
    }
}

pub open spec fn ends_with_newline(s: Seq<char>) -> bool {
    s.len() > 0 && s.last() == '\n'
}

/// The text of `lines` with their breaks, with a final `\n` only if
/// `trailing_newline`.
pub open spec fn assemble(lines: Seq<Seq<char>>, crlf: Seq<bool>, trailing_newline: bool) -> Seq<
    char,
> {
    let j = joined(lines, crlf);
    if trailing_newline || j.len() == 0 {
        j
    } else {
        j.drop_last()
    }
}

/// Relies on `String::push`: the character is appended at the end.
#[verifier::external_body]
fn push_char(s: &mut String, c: char)
    ensures
        final(s)@ == old(s)@.push(c),
{
    s.push(c)
}

/// Splits `text` into its lines, and tells for each line that a break
/// closes whether that break is `\r\n`.
pub fn split_lines(text: &str) -> (r: (Vec<Vec<char>>, Vec<bool>))
    ensures
        line_views(r.0@) == lines_of(text@),
        r.1@ == breaks_of(text@),
{
    let mut done: Vec<Vec<char>> = Vec::new();
    let mut crlf: Vec<bool> = Vec::new();
    let mut cur: Vec<char> = Vec::new();
    for c in it: text.chars()
        invariant
            it.seq() == text@,
            (line_views(done@), crlf@, cur@) == split_state(text@.take(it.index() as int)),
    {
        let ghost before = text@.take(it.index() as int);
        assert(text@.take(it.index() + 1).drop_last() == before);
        if c == '\n' {
            let ghost pending = cur@;
            let cr = cur.len() > 0 && cur[cur.len() - 1] == '\r';
            if cr {
                cur.pop();
            }
            assert(cur@ == strip_cr(pending));
            let ghost d = line_views(done@);
            let ghost closed = cur@;
            done.push(cur);
            crlf.push(cr);
            assert(line_views(done@) =~= d.push(closed));
            cur = Vec::new();
        } else {
            cur.push(c);
        }
    }
    assert(text@.take(text@.len() as int) == text@);
    if cur.len() > 0 {
        let ghost d = line_views(done@);
        let ghost last = cur@;
        done.push(cur);
        assert(line_views(done@) =~= d.push(last));
    }
    (done, crlf)
}

/// Whether `text` ends with a `\n`.
pub fn ends_with_line_break(text: &str) -> (r: bool)
    ensures
        r == ends_with_newline(text@),
{
    let n = text.unicode_len();
    n > 0 && text.get_char(n - 1) == '\n'
}

/// Puts `lines` back into one text, each line followed by its break
/// (`\r\n` where `crlf` says so, else `\n`), but the last where
/// `trailing_newline` is false.
pub fn join_lines(lines: &Vec<Vec<char>>, crlf: &Vec<bool>, trailing_newline: bool) -> (r: String)
    ensures
        r@ == assemble(line_views(lines@), crlf@, trailing_newline),
{
    let mut out = String::new();
    let mut i: usize = 0;
    while i < lines.len()
        invariant
            i <= lines.len(),
            out@ == if i == lines.len() && !trailing_newline {
                assemble(line_views(lines@).take(i as int), crlf@, false)
            } else {
                joined(line_views(lines@).take(i as int), crlf@)
            },
        decreases lines.len() - i,
    {
        let ghost start = out@;
        let line = &lines[i];
        let mut j: usize = 0;
        while j < line.len()
            invariant
                j <= line.len(),
                out@ == start + line@.take(j as int),
            decreases line.len() - j,
        {
            push_char(&mut out, line[j]);
            assert(line@.take(j + 1) == line@.take(j as int).push(line@[j as int]));
            j = j + 1;
        }
        assert(line@.take(j as int) == line@);
        let ghost upto = line_views(lines@).take(i + 1);
        assert(upto.drop_last() == line_views(lines@).take(i as int));
        assert(upto.last() == line@);
        let ghost before_break = out@;
        if i + 1 < lines.len() || trailing_newline {
            if i < crlf.len() && crlf[i] {
                push_char(&mut out, '\r');
            }
            push_char(&mut out, '\n');
            assert(out@ =~= before_break + line_break(crlf@, i as int));
        } else {
            if i < crlf.len() && crlf[i] {
                push_char(&mut out, '\r');
            }
            assert(out@ =~= (before_break + line_break(crlf@, i as int)).drop_last());
            assert(joined(upto, crlf@).drop_last() =~= out@);
        }
        i = i + 1;
    }
    assert(line_views(lines@).take(i as int) == line_views(lines@));
    out
}

} // verus!
