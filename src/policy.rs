//! What a semicolon token does to the line it stands on.
use crate::depth::Depths;
use vstd::prelude::*;

verus! {

/// The rewrite that one semicolon token asks of its line.
#[derive(Clone, Copy, Debug, PartialEq, Eq, Structural)]
pub enum Action {
    /// Leave the line as it is.
    Skip,
    /// Remove the semicolon.
    Strip,
    /// Put a comma in the semicolon's place.
    Comma,
}

/// The action for a semicolon met at the given depths.
pub open spec fn action_for(bracket: int, function: int, array_mode: bool) -> Action {
    if bracket != 0 && array_mode {
        Action::Skip
    } else if bracket == 0 || function != 0 {
        Action::Strip
    } else {
        Action::Comma
    }
}

/// How many `;` characters `s` holds.
pub open spec fn count_semicolons(s: Seq<char>) -> nat
    decreases s.len(),
{
    if s.len() == 0 {
        0
    } else {
        count_semicolons(s.drop_last()) + if s.last() == ';' {
            1nat
        } else {
            0nat
        }
    }
}

/// `s` with every `;` replaced by `rep`.
pub open spec fn replace_semicolons(s: Seq<char>, rep: Seq<char>) -> Seq<char>
    decreases s.len(),
{
    if s.len() == 0 {
        s
    } else {
        replace_semicolons(s.drop_last(), rep) + if s.last() == ';' {
            rep
        } else {
            seq![s.last()]
        }
    }
}

/// What takes the semicolon's place: a comma, or nothing.
pub open spec fn replacement(action: Action) -> Seq<char> {
    if action == Action::Comma {
        seq![',']
    } else {
        seq![]
    }
}

/// `s` without its last character, if it has one.
pub open spec fn without_last(s: Seq<char>) -> Seq<char> {
    if s.len() == 0 {
        s
    } else {
        s.drop_last()
    }
}

/// The line after the action. A line with exactly one `;` has that character
/// replaced; on any other line the last character is taken to be the
/// semicolon, and it is the one replaced.
pub open spec fn edit_line(line: Seq<char>, action: Action) -> Seq<char> {
    if action == Action::Skip {
        line
    } else if count_semicolons(line) == 1 {
        replace_semicolons(line, replacement(action))
    } else {
        without_last(line) + replacement(action)
    }
}

impl Action {
    /// The action for a semicolon met at `depths`. With `array_mode`,
    /// semicolons inside brackets are kept.
    pub fn for_semicolon(depths: &Depths, array_mode: bool) -> (r: Action)
        ensures
            r == action_for(depths.bracket as int, depths.function as int, array_mode),
    {
        if depths.bracket != 0 && array_mode {
            Action::Skip
        } else if depths.bracket == 0 || depths.function != 0 {
            Action::Strip
        } else {
            Action::Comma
        }
    }
}

/// Counts the `;` characters of `line`.
pub fn semicolon_count(line: &Vec<char>) -> (r: usize)
    ensures
        r == count_semicolons(line@),
{
    let mut n: usize = 0;
    let mut i: usize = 0;
    while i < line.len()
        invariant
            i <= line.len(),
            n == count_semicolons(line@.take(i as int)),
            n <= i,
        decreases line.len() - i,
    {
        assert(line@.take(i + 1).drop_last() == line@.take(i as int));
        if line[i] == ';' {
            n = n + 1;
        }
        i = i + 1;
    }
    assert(line@.take(i as int) == line@);
    n
}

/// Applies `action` to the line of a semicolon token.
pub fn rewrite_line(line: &mut Vec<char>, action: Action)
    ensures
        final(line)@ == edit_line(old(line)@, action),
{
    if action == Action::Skip {
        return ;
    }
    if semicolon_count(line) == 1 {
        let mut out: Vec<char> = Vec::new();
        let mut i: usize = 0;
        while i < line.len()
            invariant
                i <= line.len(),
                action != Action::Skip,
                out@ == replace_semicolons(line@.take(i as int), replacement(action)),
            decreases line.len() - i,
        {
            assert(line@.take(i + 1).drop_last() == line@.take(i as int));
            let c = line[i];
            if c == ';' {
                if action == Action::Comma {
                    out.push(',');
                }
            } else {
                out.push(c);
            }
            i = i + 1;
        }
        assert(line@.take(i as int) == line@);
        *line = out;
    } else {
        line.pop();
        if action == Action::Comma {
            line.push(',');
        }
    }
}

} // verus!
