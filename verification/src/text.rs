//! Character-level helpers shared by the matchers and the walker: turning a
//! string into its characters, substring containment, splitting a filename
//! into stem and extension, and the hidden-path test.

use vstd::prelude::*;
use vstd::string::StrSliceExecFns;

verus! {

/// The characters of a string slice, as a vector.
pub fn chars_of(s: &str) -> (v: Vec<char>)
    ensures
        v@ == s@,
{
    let n = s.unicode_len();
    let mut v: Vec<char> = Vec::new();
    let mut i: usize = 0;
    while i < n
        invariant
            n == s@.len(),
            i <= n,
            v@ == s@.take(i as int),
        decreases n - i,
    {
        v.push(s.get_char(i));
        assert(v@ =~= s@.take(i + 1 as int));
        i += 1;
    }
    assert(v@ =~= s@);
    v
}

/// The needle occurs in the haystack starting at position `i`.
pub open spec fn occurs_at(hay: Seq<char>, needle: Seq<char>, i: int) -> bool {
    0 <= i && i + needle.len() <= hay.len() && hay.subrange(i, i + needle.len()) == needle
}

/// Case-sensitive containment: the needle occurs somewhere in the haystack.
pub open spec fn contains_seq(hay: Seq<char>, needle: Seq<char>) -> bool {
    exists|i: int| occurs_at(hay, needle, i)
}

/// Naive substring search, exact with respect to `contains_seq`.
pub fn contains_chars(hay: &Vec<char>, needle: &Vec<char>) -> (r: bool)
    ensures
        r == contains_seq(hay@, needle@),
{
    let hn = hay.len();
    let nn = needle.len();
    if nn == 0 {
        assert(occurs_at(hay@, needle@, 0)) by {
            assert(hay@.subrange(0, 0) =~= needle@);
        }
        return true;
    }
    if nn > hn {
        assert(forall|i: int| !occurs_at(hay@, needle@, i));
        return false;
    }
    let mut i: usize = 0;
    while i <= hn - nn
        invariant
            1 <= nn <= hn,
            hn == hay@.len(),
            nn == needle@.len(),
            i <= hn - nn + 1,
            forall|k: int| 0 <= k < i ==> !occurs_at(hay@, needle@, k),
        decreases hn - nn - i + 1,
    {
        let mut j: usize = 0;
        let mut hit = true;
        while j < nn
            invariant
                nn <= hn,
                hn == hay@.len(),
                nn == needle@.len(),
                i + nn <= hn,
                j <= nn,
                hit ==> forall|l: int| 0 <= l < j ==> hay@[i + l] == needle@[l],
                !hit ==> hay@.subrange(i as int, i + nn) != needle@,
            decreases nn - j,
        {
            if hay[i + j] != needle[j] {
                assert(hay@.subrange(i as int, i + nn) != needle@) by {
                    assert(hay@.subrange(i as int, i + nn)[j as int] == hay@[i + j]);
                }
                hit = false;
                j = nn;
            } else {
                j += 1;
            }
        }
        if hit {
            assert(occurs_at(hay@, needle@, i as int)) by {
                assert(hay@.subrange(i as int, i + nn) =~= needle@);
            }
            return true;
        }
        assert(!occurs_at(hay@, needle@, i as int));
        i += 1;
    }
    assert forall|k: int| !occurs_at(hay@, needle@, k) by {
        if k < 0 || k >= i {
            assert(!occurs_at(hay@, needle@, k));
        }
    }
    false
}

/// Index of the last `.` in a filename, or `-1` if it has none.
pub open spec fn last_dot(name: Seq<char>) -> int
    decreases name.len(),
{
    if name.len() == 0 {
        -1
    } else if name[name.len() - 1] == '.' {
        name.len() - 1
    } else {
        last_dot(name.take(name.len() - 1))
    }
}

/// The stem of a filename: everything before the last `.`, except that a
/// name whose only `.` is its first character (a hidden file such as
/// `.profile`) is its own stem.
pub open spec fn stem_of(name: Seq<char>) -> Seq<char> {
    if last_dot(name) <= 0 {
        name
    } else {
        name.take(last_dot(name))
    }
}

/// The extension of a filename: everything after the last `.`, empty when
/// the stem is the whole name.
pub open spec fn ext_of(name: Seq<char>) -> Seq<char> {
    if last_dot(name) <= 0 {
        Seq::empty()
    } else {
        name.skip(last_dot(name) + 1)
    }
}

proof fn lemma_last_dot_none(name: Seq<char>)
    requires
        forall|j: int| 0 <= j < name.len() ==> name[j] != '.',
    ensures
        last_dot(name) == -1,
    decreases name.len(),
{
    if name.len() > 0 {
        lemma_last_dot_none(name.take(name.len() - 1));
    }
}

proof fn lemma_last_dot_at(name: Seq<char>, i: int)
    requires
        0 <= i < name.len(),
        name[i] == '.',
        forall|j: int| i < j < name.len() ==> name[j] != '.',
    ensures
        last_dot(name) == i,
    decreases name.len(),
{
    if i < name.len() - 1 {
        lemma_last_dot_at(name.take(name.len() - 1), i);
    }
}

/// Where to split a filename: `Some(i)` when the name has a last `.` at a
/// position that separates a nonempty stem from an extension, `None` when
/// the whole name is its own stem.
pub fn split_point(name: &Vec<char>) -> (r: Option<usize>)
    ensures
        match r {
            Some(i) => 0 < i < name@.len() && last_dot(name@) == i,
            None => last_dot(name@) <= 0,
        },
{
    let n = name.len();
    let mut i: usize = n;
    while i > 0
        invariant
            i <= n,
            n == name@.len(),
            forall|j: int| i <= j < n ==> name@[j] != '.',
        decreases i,
    {
        i -= 1;
        if name[i] == '.' {
            proof {
                lemma_last_dot_at(name@, i as int);
            }
            if i > 0 {
                return Some(i);
            } else {
                return None;
            }
        }
    }
    proof {
        lemma_last_dot_none(name@);
    }
    None
}

/// The extension a filename carries, empty when it has none.
pub fn name_extension(name: &str) -> (ext: String)
    ensures
        ext@ == ext_of(name@),
{
    let nv = chars_of(name);
    let n = nv.len();
    match split_point(&nv) {
        Some(i) => {
            proof {
                assert(name@.subrange(i + 1, n as int) =~= name@.skip(i + 1));
            }
            name.substring_char(i + 1, n).to_owned()
        },
        None => String::new(),
    }
}

/// A path segment separator: `/` or `\`, so that paths from either
/// platform convention are read alike.
pub open spec fn path_sep(c: char) -> bool {
    c == '/' || c == '\\'
}

/// A path is hidden when some segment of it begins with `.`: the path
/// starts with `.`, or a `.` follows a separator.
pub open spec fn hidden_path(p: Seq<char>) -> bool {
    exists|i: int| 0 <= i < p.len() && #[trigger] p[i] == '.' && (i == 0 || path_sep(p[i - 1]))
}

/// Whether any segment of the path begins with `.`.
pub fn is_hidden_path(p: &Vec<char>) -> (r: bool)
    ensures
        r == hidden_path(p@),
{
    let n = p.len();
    let mut i: usize = 0;
    while i < n
        invariant
            i <= n,
            n == p@.len(),
            forall|k: int|
                0 <= k < i ==> !(#[trigger] p@[k] == '.' && (k == 0 || path_sep(p@[k - 1]))),
        decreases n - i,
    {
        if p[i] == '.' && (i == 0 || p[i - 1] == '/' || p[i - 1] == '\\') {
            return true;
        }
        i += 1;
    }
    false
}

} // verus!
