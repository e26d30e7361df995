//! Character-level helpers on strings: comparison, search and splitting of
//! file names.

use vstd::prelude::*;
use vstd::string::*;

verus! {

/// Compares two strings character by character.
pub fn str_eq(a: &str, b: &str) -> (r: bool)
    ensures
        r == (a@ == b@),
{
    let n = a.unicode_len();
    let m = b.unicode_len();
    if n != m {
        return false;
    }
    let mut i: usize = 0;
    while i < n
        invariant
            n == a@.len(),
            m == b@.len(),
            n == m,
            i <= n,
            forall|j: int| 0 <= j < i ==> a@[j] == b@[j],
        decreases n - i,
    {
        if a.get_char(i) != b.get_char(i) {
            return false;
        }
        i = i + 1;
    }
    assert(a@ =~= b@);
    true
}

/// `p` occurs in `s` at position `i`.
pub open spec fn occurs_at(s: Seq<char>, p: Seq<char>, i: int) -> bool {
    0 <= i && i + p.len() <= s.len() && s.subrange(i, i + p.len()) == p
}

/// `p` occurs in `s` somewhere.
pub open spec fn occurs_in(s: Seq<char>, p: Seq<char>) -> bool {
    exists|i: int| occurs_at(s, p, i)
}

/// The first position at which `pat` occurs in `s`.
pub fn find_substr(s: &str, pat: &str) -> (r: Option<usize>)
    ensures
        r is None <==> !occurs_in(s@, pat@),
        r is Some ==> occurs_at(s@, pat@, r->0 as int) && forall|j: int|
            0 <= j < r->0 ==> !occurs_at(s@, pat@, j),
{
    let n = s.unicode_len();
    let m = pat.unicode_len();
    if m > n {
        return None;
    }
    if m == 0 {
        assert(s@.subrange(0, 0) =~= pat@);
        assert(occurs_at(s@, pat@, 0));
        return Some(0);
    }
    let mut i: usize = 0;
    while i <= n - m
        invariant
            n == s@.len(),
            m == pat@.len(),
            0 < m <= n,
            i <= n - m + 1,
            forall|j: int| 0 <= j < i ==> !occurs_at(s@, pat@, j),
        decreases n - m + 1 - i,
    {
        let mut k: usize = 0;
        let mut ok = true;
        while k < m
            invariant
                n == s@.len(),
                m == pat@.len(),
                i + m <= n,
                k <= m,
                ok ==> forall|j: int| 0 <= j < k ==> s@[i + j] == pat@[j],
                !ok ==> !occurs_at(s@, pat@, i as int),
            decreases m - k,
        {
            if ok && s.get_char(i + k) != pat.get_char(k) {
                ok = false;
                assert(s@.subrange(i as int, i + m)[k as int] == s@[i + k]);
            }
            k = k + 1;
        }
        if ok {
            assert(s@.subrange(i as int, i + m) =~= pat@);
            assert(occurs_at(s@, pat@, i as int));
            return Some(i);
        }
        i = i + 1;
    }
    assert forall|j: int| !occurs_at(s@, pat@, j) by {
        if 0 <= j && j + m <= n {
            assert(j < i);
        }
    }
    None
}

/// Position of the last `.` of a file name, if it is not the first character.
pub open spec fn ext_dot(s: Seq<char>) -> Option<int> {
    if exists|i: int| 0 < i < s.len() && s[i] == '.' {
        Some(choose|i: int| 0 < i < s.len() && s[i] == '.' && forall|j: int| i < j < s.len() ==> s[j] != '.')
    } else {
        None
    }
}

/// The file name without its extension.
pub open spec fn file_stem(s: Seq<char>) -> Seq<char> {
    match ext_dot(s) {
        Some(i) => s.subrange(0, i),
        None => s,
    }
}

/// The extension of a file name, after its last `.`; none where the only
/// `.` is the first character or there is none.
pub open spec fn file_extension(s: Seq<char>) -> Option<Seq<char>> {
    match ext_dot(s) {
        Some(i) => Some(s.subrange(i + 1, s.len() as int)),
        None => None,
    }
}

/// The position of the dot that starts the extension of `name`.
pub fn find_ext_dot(name: &str) -> (r: Option<usize>)
    ensures
        r is None <==> ext_dot(name@) is None,
        r is Some ==> ext_dot(name@) == Some(r->0 as int) && 0 < r->0 < name@.len(),
{
    let n = name.unicode_len();
    let mut i: usize = n;
    while i > 1
        invariant
            n == name@.len(),
            i <= n,
            forall|j: int| i <= j < n ==> name@[j] != '.',
        decreases i,
    {
        if name.get_char(i - 1) == '.' {
            let ghost d = (i - 1) as int;
            assert(0 < d < n && name@[d] == '.');
            let ghost c = choose|k: int|
                0 < k < name@.len() && name@[k] == '.' && forall|j: int| k < j < name@.len() ==> name@[j] != '.';
            assert(c == d) by {
                if c < d {
                } else if c > d {
                }
            }
            return Some(i - 1);
        }
        i = i - 1;
    }
    assert(!(exists|k: int| 0 < k < name@.len() && name@[k] == '.'));
    None
}

/// The file name without its extension.
pub fn stem_of(name: &str) -> (r: String)
    ensures
        r@ == file_stem(name@),
{
    match find_ext_dot(name) {
        Some(i) => name.substring_char(0, i).to_owned(),
        None => name.to_owned(),
    }
}

/// The extension of a file name.
pub fn extension_of(name: &str) -> (r: Option<String>)
    ensures
        r is None <==> file_extension(name@) is None,
        r is Some ==> file_extension(name@) == Some(r->0@),
{
    let n = name.unicode_len();
    match find_ext_dot(name) {
        Some(i) => Some(name.substring_char(i + 1, n).to_owned()),
        None => None,
    }
}

} // verus!
