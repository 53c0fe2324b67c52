//! Plain-string path arithmetic: the final component of a path and the
//! parent prefix, with `/` as the separator.

use vstd::prelude::*;
use vstd::string::StrSliceExecFns;
use vstd::string::StringExecFns;

verus! {

/// The path with every trailing `/` removed.
pub open spec fn trim_slashes(s: Seq<char>) -> Seq<char>
    decreases s.len(),
{
    if s.len() > 0 && s.last() == '/' {
        trim_slashes(s.drop_last())
    } else {
        s
    }
}

/// The longest suffix of `s` that holds no `/`.
pub open spec fn tail_component(s: Seq<char>) -> Seq<char>
    decreases s.len(),
{
    if s.len() == 0 {
        seq![]
    } else if s.last() == '/' {
        seq![]
    } else {
        tail_component(s.drop_last()) + seq![s.last()]
    }
}

/// The final component of a path: the text after the last `/`, once
/// trailing `/`s are dropped.  `None` when nothing is left, or when the
/// component is `.` or `..`.
pub open spec fn file_name_spec(path: Seq<char>) -> Option<Seq<char>> {
    let name = tail_component(trim_slashes(path));
    if name.len() == 0 || name == seq!['.'] || name == seq!['.', '.'] {
        None
    } else {
        Some(name)
    }
}

/// The prefix of a path before its final component: trailing `/`s are
/// dropped, then the final component, then the `/`s before it, except
/// that a leading `/` (the root) is kept.  `None` when the path is empty
/// or only `/`s.
pub open spec fn parent_spec(path: Seq<char>) -> Option<Seq<char>> {
    let t = trim_slashes(path);
    if t.len() == 0 {
        None
    } else {
        let stem = t.subrange(0, t.len() - tail_component(t).len());
        if stem.len() > 0 && trim_slashes(stem).len() == 0 {
            Some(seq!['/'])
        } else {
            Some(trim_slashes(stem))
        }
    }
}

proof fn lemma_trim_slashes_range(s: Seq<char>, end: int)
    requires
        0 <= end <= s.len(),
        forall|i: int| end <= i < s.len() ==> s[i] == '/',
        end > 0 ==> s[end - 1] != '/',
    ensures
        trim_slashes(s) == s.subrange(0, end),
    decreases s.len(),
{
    if s.len() > 0 && s.last() == '/' {
        lemma_trim_slashes_range(s.drop_last(), end);
        assert(s.drop_last().subrange(0, end) =~= s.subrange(0, end));
    } else {
        assert(end == s.len());
        assert(trim_slashes(s) =~= s.subrange(0, end));
    }
}

proof fn lemma_tail_component_range(s: Seq<char>, start: int)
    requires
        0 <= start <= s.len(),
        forall|i: int| start <= i < s.len() ==> s[i] != '/',
        start > 0 ==> s[start - 1] == '/',
    ensures
        tail_component(s) == s.subrange(start, s.len() as int),
    decreases s.len(),
{
    if s.len() == 0 {
        assert(tail_component(s) =~= s.subrange(start, s.len() as int));
    } else if s.last() == '/' {
        assert(start == s.len());
        assert(tail_component(s) =~= s.subrange(start, s.len() as int));
    } else {
        lemma_tail_component_range(s.drop_last(), start);
        assert(tail_component(s.drop_last()) + seq![s.last()] =~= s.subrange(
            start,
            s.len() as int,
        ));
    }
}

/// Whether two strings hold the same characters.
pub fn str_eq(a: &str, b: &str) -> (r: bool)
    ensures
        r == (a@ == b@),
{
    let la = a.unicode_len();
    let lb = b.unicode_len();
    if la != lb {
        return false;
    }
    let mut i: usize = 0;
    while i < la
        invariant
            i <= la,
            la == a@.len(),
            la == b@.len(),
            forall|j: int| 0 <= j < i ==> a@[j] == b@[j],
        decreases la - i,
    {
        if a.get_char(i) != b.get_char(i) {
            return false;
        }
        i = i + 1;
    }
    proof {
        assert(a@ =~= b@);
    }
    true
}

/// Index just past the last non-`/` character of `s` before `from`.
fn scan_trim_end(s: &str, from: usize) -> (end: usize)
    requires
        from <= s@.len(),
    ensures
        0 <= end <= from,
        forall|i: int| end <= i < from ==> s@[i] == '/',
        end > 0 ==> s@[end - 1] != '/',
{
    let mut end: usize = from;
    while end > 0 && s.get_char(end - 1) == '/'
        invariant
            0 <= end <= from <= s@.len(),
            forall|i: int| end <= i < from ==> s@[i] == '/',
        decreases end,
    {
        end = end - 1;
    }
    end
}

/// Index where the trailing `/`-free run ending at `end` begins.
fn scan_component_start(s: &str, end: usize) -> (start: usize)
    requires
        end <= s@.len(),
    ensures
        0 <= start <= end,
        forall|i: int| start <= i < end ==> s@[i] != '/',
        start > 0 ==> s@[start - 1] == '/',
{
    let mut start: usize = end;
    while start > 0 && s.get_char(start - 1) != '/'
        invariant
            0 <= start <= end <= s@.len(),
            forall|i: int| start <= i < end ==> s@[i] != '/',
        decreases start,
    {
        start = start - 1;
    }
    start
}

/// The final component of `path`, as `file_name_spec` describes it.
pub fn file_name_of(path: &str) -> (r: Option<String>)
    ensures
        r matches Some(n) ==> file_name_spec(path@) == Some(n@),
        r is None ==> file_name_spec(path@) is None,
{
    let len = path.unicode_len();
    let end = scan_trim_end(path, len);
    let start = scan_component_start(path, end);
    proof {
        lemma_trim_slashes_range(path@, end as int);
        lemma_tail_component_range(path@.subrange(0, end as int), start as int);
        assert(path@.subrange(0, end as int).subrange(start as int, end as int) =~= path@.subrange(
            start as int,
            end as int,
        ));
    }
    let n = end - start;
    if n == 0 {
        return None;
    }
    if n == 1 && path.get_char(start) == '.' {
        proof {
            assert(path@.subrange(start as int, end as int) =~= seq!['.']);
        }
        return None;
    }
    if n == 2 && path.get_char(start) == '.' && path.get_char(start + 1) == '.' {
        proof {
            assert(path@.subrange(start as int, end as int) =~= seq!['.', '.']);
        }
        return None;
    }
    let name = path.substring_char(start, end);
    proof {
        let tail = path@.subrange(start as int, end as int);
        assert(tail != seq!['.']) by {
            if tail =~= seq!['.'] {
                assert(tail.len() == 1 && tail[0] == '.');
            }
        }
        assert(tail != seq!['.', '.']) by {
            if tail =~= seq!['.', '.'] {
                assert(tail.len() == 2 && tail[0] == '.' && tail[1] == '.');
            }
        }
    }
    Some(name.to_owned())
}

/// The parent prefix of `path`, as `parent_spec` describes it.
pub fn parent_of(path: &str) -> (r: Option<String>)
    ensures
        r matches Some(p) ==> parent_spec(path@) == Some(p@),
        r is None ==> parent_spec(path@) is None,
{
    let len = path.unicode_len();
    let end = scan_trim_end(path, len);
    let start = scan_component_start(path, end);
    proof {
        lemma_trim_slashes_range(path@, end as int);
        lemma_tail_component_range(path@.subrange(0, end as int), start as int);
    }
    if end == 0 {
        return None;
    }
    let stem_end = scan_trim_end(path, start);
    proof {
        let t = path@.subrange(0, end as int);
        let stem = t.subrange(0, start as int);
        assert(stem =~= path@.subrange(0, start as int));
        assert(t.subrange(start as int, end as int) =~= path@.subrange(start as int, end as int));
        lemma_trim_slashes_range(stem, stem_end as int);
        assert(stem.subrange(0, stem_end as int) =~= path@.subrange(0, stem_end as int));
    }
    if start > 0 && stem_end == 0 {
        proof {
            reveal_strlit("/");
            assert("/"@ =~= seq!['/']);
        }
        return Some(String::from_str("/"));
    }
    let stem = path.substring_char(0, stem_end);
    Some(stem.to_owned())
}

} // verus!
