//! Character-level predicates shared by names, metadata text and paths.

use vstd::prelude::*;

verus! {

/// A character that needs no escaping inside a quoted metadata string.
pub open spec fn plain_char(c: char) -> bool {
    c != '"' && c != '\\'
}

/// Text made only of plain characters.
pub open spec fn plain(s: Seq<char>) -> bool {
    forall|i: int| 0 <= i < s.len() ==> plain_char(s[i])
}

/// A capture name that can serve as a directory name and can stand in
/// metadata text unescaped: nonempty, no path separator, no quote or
/// backslash, and not one of the two relative path names.
pub open spec fn valid_name(s: Seq<char>) -> bool {
    &&& s.len() > 0
    &&& s != "."@
    &&& s != ".."@
    &&& forall|i: int| 0 <= i < s.len() ==> (plain_char(s[i]) && s[i] != '/')
}

pub fn is_plain(s: &str) -> (r: bool)
    ensures
        r == plain(s@),
{
    let n = s.unicode_len();
    let mut i: usize = 0;
    while i < n
        invariant
            n == s@.len(),
            i <= n,
            forall|j: int| 0 <= j < i ==> plain_char(s@[j]),
        decreases n - i,
    {
        let c = s.get_char(i);
        if c == '"' || c == '\\' {
            return false;
        }
        i = i + 1;
    }
    true
}

pub fn is_valid_name(s: &String) -> (r: bool)
    ensures
        r == valid_name(s@),
{
    if *s == String::from_str(".") || *s == String::from_str("..") {
        return false;
    }
    let n = s.as_str().unicode_len();
    if n == 0 {
        return false;
    }
    let mut i: usize = 0;
    while i < n
        invariant
            n == s@.len(),
            i <= n,
            forall|j: int| 0 <= j < i ==> (plain_char(s@[j]) && s@[j] != '/'),
        decreases n - i,
    {
        let c = s.as_str().get_char(i);
        if c == '"' || c == '\\' || c == '/' {
            return false;
        }
        i = i + 1;
    }
    true
}

} // verus!
