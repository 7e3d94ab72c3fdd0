//! Character-level string helpers: equality and `"BASE/QUOTE"` splitting.

use vstd::prelude::*;
use vstd::string::StrSliceExecFns;

verus! {

/// Character-by-character string equality.
pub fn str_eq(a: &str, b: &str) -> (r: bool)
    ensures
        r == (a@ == b@),
{
    let la = a.unicode_len();
    let lb = b.unicode_len();
    if la != lb {
        return false;
    }
    let mut i: usize = 0;
    while i < la
        invariant
            0 <= i <= la,
            la == a@.len(),
            la == b@.len(),
            forall|k: int| 0 <= k < i ==> a@[k] == b@[k],
        decreases la - i,
    {
        if a.get_char(i) != b.get_char(i) {
            return false;
        }
        i = i + 1;
    }
    proof {
        assert(a@ =~= b@);
    }
    true
}

/// The index of the first occurrence of `c` in `s`, or -1 if absent.
pub open spec fn index_of_char(s: Seq<char>, c: char) -> int
    decreases s.len(),
{
    if s.len() == 0 {
        -1
    } else if s[0] == c {
        0
    } else {
        let r = index_of_char(s.drop_first(), c);
        if r == -1 {
            -1
        } else {
            r + 1
        }
    }
}

/// `index_of_char` names the first occurrence: nothing earlier matches.
pub proof fn lemma_index_of_char_at(s: Seq<char>, c: char, i: int)
    requires
        0 <= i < s.len(),
        s[i] == c,
        forall|k: int| 0 <= k < i ==> s[k] != c,
    ensures
        index_of_char(s, c) == i,
    decreases s.len(),
{
    if s[0] != c {
        let t = s.drop_first();
        assert(forall|k: int| 0 <= k < t.len() ==> t[k] == #[trigger] s[k + 1]);
        assert(t[i - 1] == c);
        lemma_index_of_char_at(t, c, i - 1);
    }
}

/// If `c` occurs nowhere in `s`, `index_of_char` reports -1.
pub proof fn lemma_index_of_char_absent(s: Seq<char>, c: char)
    requires
        forall|k: int| 0 <= k < s.len() ==> s[k] != c,
    ensures
        index_of_char(s, c) == -1,
    decreases s.len(),
{
    if s.len() > 0 {
        let t = s.drop_first();
        assert(forall|k: int| 0 <= k < t.len() ==> t[k] == #[trigger] s[k + 1]);
        lemma_index_of_char_absent(t, c);
    }
}

/// Split a `"BASE/QUOTE"` request string: the part before the first `/`
/// and the part between the first and the second `/` (or the end).
/// A string without a `/` is refused.
pub open spec fn spec_split_pair(s: Seq<char>) -> Option<(Seq<char>, Seq<char>)> {
    let i = index_of_char(s, '/');
    if i < 0 {
        None
    } else {
        let rest = s.subrange(i + 1, s.len() as int);
        let j = index_of_char(rest, '/');
        let q = if j < 0 {
            rest
        } else {
            rest.subrange(0, j)
        };
        Some((s.subrange(0, i), q))
    }
}

/// The index of the first `/` at or after `start`, or `len` if none.
fn find_slash_from(s: &str, start: usize, len: usize) -> (r: usize)
    requires
        start <= len,
        len == s@.len(),
    ensures
        start <= r <= len,
        forall|k: int| start <= k < r ==> s@[k] != '/',
        r < len ==> s@[r as int] == '/',
{
    let mut i: usize = start;
    while i < len
        invariant
            start <= i <= len,
            len == s@.len(),
            forall|k: int| start <= k < i ==> s@[k] != '/',
        decreases len - i,
    {
        if s.get_char(i) == '/' {
            return i;
        }
        i = i + 1;
    }
    i
}

/// Split a request string as `spec_split_pair` says.
pub fn split_pair<'a>(s: &'a str) -> (r: Option<(&'a str, &'a str)>)
    ensures
        match r {
            Some((b, q)) => spec_split_pair(s@) == Some((b@, q@)),
            None => spec_split_pair(s@) is None,
        },
{
    let len = s.unicode_len();
    let i = find_slash_from(s, 0, len);
    if i == len {
        proof {
            lemma_index_of_char_absent(s@, '/');
        }
        return None;
    }
    proof {
        lemma_index_of_char_at(s@, '/', i as int);
    }
    let base = s.substring_char(0, i);
    let j = find_slash_from(s, i + 1, len);
    let quote = s.substring_char(i + 1, j);
    proof {
        let rest = s@.subrange(i as int + 1, len as int);
        assert(forall|k: int| 0 <= k < rest.len() ==> rest[k] == #[trigger] s@[k + i + 1]);
        if j == len {
            lemma_index_of_char_absent(rest, '/');
            assert(quote@ =~= rest);
        } else {
            assert(rest[j - i - 1] == s@[j as int] == '/');
            lemma_index_of_char_at(rest, '/', j - i - 1);
            assert(quote@ =~= rest.subrange(0, j - i - 1));
        }
    }
    Some((base, quote))
}

} // verus!
