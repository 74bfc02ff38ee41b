//! Character-level checks on the text a plugin carries.

use vstd::prelude::*;

verus! {

/// Every character is printable ASCII, `0x20` to `0x7e`; equivalently every
/// UTF-8 byte of the text is.
pub open spec fn printable_ascii(s: Seq<char>) -> bool {
    forall|i: int| 0 <= i < s.len() ==> 0x20 <= #[trigger] (s[i] as u32) < 0x7f
}

/// The characters of `s`.
pub fn chars_of(s: &str) -> (v: Vec<char>)
    ensures
        v@ == s@,
{
    let mut v: Vec<char> = Vec::new();
    for c in it: s.chars()
        invariant
            v@ == it.seq().take(it.index() as int),
    {
        v.push(c);
        assert(v@ =~= it.seq().take(it.index() as int + 1));
    }
    assert(v@ =~= s@);
    v
}


/// Whether every character of `s` is printable ASCII.
pub fn is_printable_ascii(s: &Vec<char>) -> (r: bool)
    ensures
        r == printable_ascii(s@),
{
    let mut i: usize = 0;
    while i < s.len()
        invariant
            i <= s@.len(),
            forall|j: int| 0 <= j < i ==> 0x20 <= #[trigger] (s@[j] as u32) < 0x7f,
        decreases s@.len() - i,
    {
        let code = s[i] as u32;
        if code < 0x20 || code >= 0x7f {
            assert(!(0x20 <= (s@[i as int] as u32) < 0x7f));
            return false;
        }
        i += 1;
    }
    true
}

/// Whether two character sequences are equal.
pub fn same_chars(a: &Vec<char>, b: &Vec<char>) -> (r: bool)
    ensures
        r == (a@ == b@),
{
    if a.len() != b.len() {
        return false;
    }
    let mut i: usize = 0;
    while i < a.len()
        invariant
            a@.len() == b@.len(),
            i <= a@.len(),
            forall|j: int| 0 <= j < i ==> a@[j] == b@[j],
        decreases a@.len() - i,
    {
        if a[i] != b[i] {
            return false;
        }
        i += 1;
    }
    assert(a@ =~= b@);
    true
}

/// A path separator of an asset path.
pub open spec fn is_separator(c: char) -> bool {
    c == '/' || c == '\\'
}

/// A path component of `s` starts at `i`.
pub open spec fn starts_component(s: Seq<char>, i: int) -> bool {
    i == 0 || is_separator(s[i - 1])
}

/// A path component of `s` ends just before `j`.
pub open spec fn ends_component(s: Seq<char>, j: int) -> bool {
    j == s.len() || is_separator(s[j])
}

/// A relative asset path that stays below the data directory: printable
/// ASCII, neither starting nor ending with a separator, with no empty, `.` or
/// `..` component.
pub open spec fn valid_asset_path(s: Seq<char>) -> bool {
    &&& s.len() > 0
    &&& printable_ascii(s)
    &&& !is_separator(s[0])
    &&& !is_separator(s[s.len() - 1])
    &&& forall|i: int| 0 <= i < s.len() - 1 ==> !(is_separator(#[trigger] s[i]) && is_separator(s[i + 1]))
    &&& forall|i: int|
        0 <= i < s.len() && starts_component(s, i) && #[trigger] s[i] == '.' ==> {
            &&& !ends_component(s, i + 1)
            &&& !(s[i + 1] == '.' && ends_component(s, i + 2))
        }
}

/// Whether `s` is a valid asset path.
pub fn is_valid_asset_path(s: &Vec<char>) -> (r: bool)
    ensures
        r == valid_asset_path(s@),
{
    let n = s.len();
    if n == 0 || !is_printable_ascii(s) {
        return false;
    }
    if s[0] == '/' || s[0] == '\\' || s[n - 1] == '/' || s[n - 1] == '\\' {
        return false;
    }
    let mut i: usize = 0;
    while i < n
        invariant
            n == s@.len(),
            n > 0,
            i <= n,
            !is_separator(s@[0]),
            !is_separator(s@[n - 1]),
            forall|k: int| 0 <= k < i && k < n - 1 ==> !(is_separator(#[trigger] s@[k]) && is_separator(s@[k + 1])),
            forall|k: int|
                0 <= k < i && starts_component(s@, k) && #[trigger] s@[k] == '.' ==> {
                    &&& !ends_component(s@, k + 1)
                    &&& !(s@[k + 1] == '.' && ends_component(s@, k + 2))
                },
        decreases n - i,
    {
        let c = s[i];
        let sep = c == '/' || c == '\\';
        if i + 1 < n && sep && (s[i + 1] == '/' || s[i + 1] == '\\') {
            assert(is_separator(s@[i as int]) && is_separator(s@[i + 1]));
            return false;
        }
        let starts = i == 0 || s[i - 1] == '/' || s[i - 1] == '\\';
        if starts && c == '.' {
            let end1 = i + 1 == n || s[i + 1] == '/' || s[i + 1] == '\\';
            if end1 {
                assert(starts_component(s@, i as int) && s@[i as int] == '.' && ends_component(s@, i + 1));
                return false;
            }
            if s[i + 1] == '.' {
                let end2 = i + 2 == n || s[i + 2] == '/' || s[i + 2] == '\\';
                if end2 {
                    assert(starts_component(s@, i as int) && s@[i as int] == '.' && s@[i + 1] == '.' && ends_component(s@, i + 2));
                    return false;
                }
            }
        }
        i += 1;
    }
    true
}

} // verus!
