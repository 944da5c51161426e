//! Which files of a directory hold Lua source.
use vstd::prelude::*;

verus! {

/// `s` ends with `suffix`.
pub open spec fn has_suffix(s: Seq<char>, suffix: Seq<char>) -> bool {
    suffix.len() <= s.len() && s.subrange(s.len() - suffix.len(), s.len() as int) == suffix
}

/// A file name of Lua source: it ends in `.lua` or `.luau`.
pub open spec fn is_lua_name(name: Seq<char>) -> bool {
    has_suffix(name, seq!['.', 'l', 'u', 'a']) || has_suffix(name, seq!['.', 'l', 'u', 'a', 'u'])
}

fn ends_with_chars(s: &str, suffix: &Vec<char>) -> (r: bool)
    ensures
        r == has_suffix(s@, suffix@),
{
    let n = s.unicode_len();
    let m = suffix.len();
    if m > n {
        return false;
    }
    let start = n - m;
    let mut i: usize = 0;
    while i < m
        invariant
            i <= m <= n,
            start == n - m,
            n == s@.len(),
            m == suffix@.len(),
            forall|j: int| 0 <= j < i ==> s@[start + j] == suffix@[j],
        decreases m - i,
    {
        if s.get_char(start + i) != suffix[i] {
            assert(s@.subrange(start as int, n as int)[i as int] != suffix@[i as int]);
            return false;
        }
        i = i + 1;
    }
    assert(s@.subrange(start as int, n as int) =~= suffix@);
    true
}

/// Whether a file of this name is formatted when its directory is.
pub fn is_lua_file_name(name: &str) -> (r: bool)
    ensures
        r == is_lua_name(name@),
{
    let lua = vec!['.', 'l', 'u', 'a'];
    let luau = vec!['.', 'l', 'u', 'a', 'u'];
    assert(lua@ == seq!['.', 'l', 'u', 'a']);
    assert(luau@ == seq!['.', 'l', 'u', 'a', 'u']);
    ends_with_chars(name, &lua) || ends_with_chars(name, &luau)
}

} // verus!
