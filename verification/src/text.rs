//! Small verified utilities on strings and characters.

use vstd::prelude::*;

verus! {

/// ASCII lowercase of one character: `A`..`Z` map to `a`..`z`, all other
/// characters are unchanged.
pub open spec fn lower_char(c: char) -> char {
    if 'A' <= c && c <= 'Z' {
        (((c as u8) + 32) as char)
    } else {
        c
    }
}

/// Equality of two string slices, by their character sequences.
pub fn str_eq(a: &str, b: &str) -> (r: bool)
    ensures
        r == (a@ == b@),
{
    let x: String = a.to_owned();
    let y: String = b.to_owned();
    x == y
}

/// Case-insensitive match: the ASCII-lowercased form of `a` equals `b`.
pub fn str_eq_lower(a: &str, b: &str) -> (r: bool)
    ensures
        r == (a@.map_values(|c: char| lower_char(c)) == b@),
{
    let na = a.unicode_len();
    let nb = b.unicode_len();
    if na != nb {
        assert(a@.map_values(|c: char| lower_char(c)).len() == a@.len());
        return false;
    }
    let mut i: usize = 0;
    while i < na
        invariant
            i <= na,
            na == a@.len(),
            nb == b@.len(),
            na == nb,
            forall|j: int| 0 <= j < i ==> lower_char(a@[j]) == b@[j],
        decreases na - i,
    {
        let ca = a.get_char(i);
        let cb = b.get_char(i);
        let la = if 'A' <= ca && ca <= 'Z' {
            (((ca as u8) + 32) as char)
        } else {
            ca
        };
        if la != cb {
            assert(lower_char(a@[i as int]) != b@[i as int]);
            assert(a@.map_values(|c: char| lower_char(c))[i as int] != b@[i as int]);
            return false;
        }
        i += 1;
    }
    assert(a@.map_values(|c: char| lower_char(c)) =~= b@);
    true
}

/// Linear scan of a string vector for one string.
pub fn vec_contains_string(names: &Vec<String>, name: &str) -> (r: bool)
    ensures
        r == names.deep_view().contains(name@),
{
    let n = names.len();
    let mut i: usize = 0;
    while i < n
        invariant
            i <= n,
            n == names.len(),
            forall|j: int| 0 <= j < i ==> #[trigger] names.deep_view()[j] != name@,
        decreases n - i,
    {
        proof {
            assert(names.deep_view()[i as int] == names[i as int]@);
        }
        if str_eq(names[i].as_str(), name) {
            assert(names.deep_view().contains(name@)) by {
                assert(names.deep_view()[i as int] == name@);
            }
            return true;
        }
        i += 1;
    }
    proof {
        if names.deep_view().contains(name@) {
            let j = choose|j: int|
                0 <= j < names.deep_view().len() && names.deep_view()[j] == name@;
        }
    }
    false
}

/// Linear scan of a string-slice list for one string.
pub fn str_slice_list_contains(list: &Vec<&'static str>, s: &str) -> (r: bool)
    ensures
        r == list.deep_view().contains(s@),
{
    let n = list.len();
    let mut i: usize = 0;
    while i < n
        invariant
            i <= n,
            n == list.len(),
            forall|j: int| 0 <= j < i ==> #[trigger] list.deep_view()[j] != s@,
        decreases n - i,
    {
        proof {
            assert(list.deep_view()[i as int] == list[i as int]@);
        }
        if str_eq(list[i], s) {
            assert(list.deep_view().contains(s@)) by {
                assert(list.deep_view()[i as int] == s@);
            }
            return true;
        }
        i += 1;
    }
    proof {
        if list.deep_view().contains(s@) {
            let j = choose|j: int| 0 <= j < list.deep_view().len() && list.deep_view()[j] == s@;
        }
    }
    false
}

/// `sub` occurs as a contiguous run inside `s`.
pub open spec fn has_substr(s: Seq<char>, sub: Seq<char>) -> bool {
    exists|k: int| 0 <= k && k + sub.len() <= s.len() && #[trigger] s.subrange(k, k + sub.len())
        == sub
}

/// Whether `sub` occurs at position `k` of `s`.
fn matches_at(s: &str, sub: &str, k: usize) -> (r: bool)
    requires
        k + sub@.len() <= s@.len(),
        s@.len() <= usize::MAX,
    ensures
        r == (s@.subrange(k as int, k + sub@.len()) == sub@),
{
    let m = sub.unicode_len();
    let mut j: usize = 0;
    while j < m
        invariant
            j <= m,
            m == sub@.len(),
            k + m <= s@.len(),
            s@.len() <= usize::MAX,
            forall|t: int| 0 <= t < j ==> s@[k + t] == sub@[t],
        decreases m - j,
    {
        if s.get_char(k + j) != sub.get_char(j) {
            assert(s@.subrange(k as int, k + sub@.len())[j as int] != sub@[j as int]);
            return false;
        }
        j += 1;
    }
    assert(s@.subrange(k as int, k + sub@.len()) =~= sub@);
    true
}

/// Substring search: true iff `sub` occurs somewhere in `s`.
pub fn str_contains(s: &str, sub: &str) -> (r: bool)
    ensures
        r == has_substr(s@, sub@),
{
    let n = s.unicode_len();
    let m = sub.unicode_len();
    if m > n {
        return false;
    }
    if m == 0 {
        proof {
            assert(s@.subrange(0, 0 + sub@.len() as int) =~= sub@);
        }
        return true;
    }
    let last = n - m;
    let mut k: usize = 0;
    while k <= last
        invariant
            1 <= m <= n,
            n == s@.len(),
            m == sub@.len(),
            last == n - m,
            k <= last + 1,
            forall|t: int| 0 <= t < k ==> #[trigger] s@.subrange(t, t + sub@.len()) != sub@,
        decreases last - k + 1,
    {
        if matches_at(s, sub, k) {
            return true;
        }
        k += 1;
    }
    false
}

} // verus!
