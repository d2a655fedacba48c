//! Extraction of a path's file name and extension, at the character level.
//!
//! A path is a sequence of components separated by `/`. The file name is the
//! last component, provided it is a normal one: trailing separators and `.`
//! components are ignored, and a path ending in `..` (or in nothing at all)
//! has no file name. The extension is the part of the file name after its
//! last `.`, unless that `.` is the first character (a hidden file) or the
//! name has no `.` at all.

use vstd::prelude::*;

verus! {

/// The suffix of `s` after the last occurrence of `sep`; all of `s` when
/// `sep` does not occur.
pub open spec fn suffix_after_last(s: Seq<char>, sep: char) -> Seq<char>
    decreases s.len(),
{
    if s.len() == 0 || s.last() == sep {
        Seq::<char>::empty()
    } else {
        suffix_after_last(s.drop_last(), sep).push(s.last())
    }
}

/// When positions `i..` of `s` are free of `sep` and position `i` starts
/// right after a `sep` (or at the front), the suffix after the last `sep`
/// is exactly `s` from `i` on.
pub proof fn lemma_suffix_after_last(s: Seq<char>, sep: char, i: int)
    requires
        0 <= i <= s.len(),
        forall|j: int| i <= j < s.len() ==> s[j] != sep,
        i == 0 || s[i - 1] == sep,
    ensures
        suffix_after_last(s, sep) == s.subrange(i, s.len() as int),
    decreases s.len(),
{
    if i == s.len() {
        assert(s.subrange(i, s.len() as int) =~= Seq::<char>::empty());
    } else {
        assert(s.last() != sep);
        lemma_suffix_after_last(s.drop_last(), sep, i);
        assert(s.subrange(i, s.len() as int) =~= s.drop_last().subrange(
            i,
            s.len() - 1,
        ).push(s.last()));
    }
}

/// The file name of a path: its last component, with trailing separators and
/// `.` components stripped. A path that ends (after stripping) in a `..`
/// component, or that runs out entirely, has none.
pub open spec fn spec_file_name(path: Seq<char>) -> Option<Seq<char>>
    decreases path.len(),
{
    if path.len() == 0 {
        None
    } else if path.last() == '/' {
        spec_file_name(path.drop_last())
    } else {
        let comp = suffix_after_last(path, '/');
        if comp == seq!['.'] {
            spec_file_name(path.drop_last())
        } else if comp == seq!['.', '.'] {
            None
        } else {
            Some(comp)
        }
    }
}

/// The extension of a file name: what follows the last `.`, possibly empty.
/// A name with no `.`, a name whose only `.` is its first character, and the
/// component `..` have none.
pub open spec fn spec_name_extension(name: Seq<char>) -> Option<Seq<char>> {
    let suf = suffix_after_last(name, '.');
    if name == seq!['.', '.'] {
        None
    } else if suf.len() == name.len() {
        None
    } else if suf.len() + 1 == name.len() {
        None
    } else {
        Some(suf)
    }
}

/// The extension of a path: the extension of its file name, if it has one.
pub open spec fn spec_path_extension(path: Seq<char>) -> Option<Seq<char>> {
    match spec_file_name(path) {
        Some(name) => spec_name_extension(name),
        None => None,
    }
}

/// Start of the longest `sep`-free run of `s` that ends just before `end`.
fn last_run_start(s: &str, end: usize, sep: char) -> (start: usize)
    requires
        end <= s@.len(),
    ensures
        start <= end,
        forall|j: int| start <= j < end ==> s@[j] != sep,
        start == 0 || s@[start - 1] == sep,
{
    let mut i: usize = end;
    while i > 0
        invariant
            i <= end <= s@.len(),
            forall|j: int| i <= j < end ==> s@[j] != sep,
        decreases i,
    {
        if s.get_char(i - 1) == sep {
            return i;
        }
        i = i - 1;
    }
    0
}

/// The file name of `path`, exactly as `spec_file_name` describes it.
pub fn file_name<'a>(path: &'a str) -> (r: Option<&'a str>)
    ensures
        r matches Some(n) ==> spec_file_name(path@) == Some(n@),
        r is None ==> spec_file_name(path@) is None,
{
    let mut end: usize = path.unicode_len();
    proof {
        assert(path@.take(end as int) =~= path@);
    }
    loop
        invariant
            end <= path@.len(),
            spec_file_name(path@) == spec_file_name(path@.take(end as int)),
        decreases end,
    {
        if end == 0 {
            proof {
                assert(path@.take(0) =~= Seq::<char>::empty());
            }
            return None;
        }
        let ghost prefix = path@.take(end as int);
        proof {
            assert(prefix.last() == path@[end - 1]);
            assert(prefix.drop_last() =~= path@.take(end - 1));
        }
        let c = path.get_char(end - 1);
        if c == '/' {
            end = end - 1;
        } else {
            let start = last_run_start(path, end, '/');
            proof {
                lemma_suffix_after_last(prefix, '/', start as int);
                assert(prefix.subrange(start as int, end as int) =~= path@.subrange(
                    start as int,
                    end as int,
                ));
            }
            let ghost comp = suffix_after_last(prefix, '/');
            if end - start == 1 && c == '.' {
                proof {
                    assert(comp =~= seq!['.']);
                }
                end = end - 1;
            } else if end - start == 2 && c == '.' && path.get_char(start) == '.' {
                proof {
                    assert(comp =~= seq!['.', '.']);
                }
                return None;
            } else {
                let name = path.substring_char(start, end);
                proof {
                    if comp == seq!['.'] {
                        assert(comp.len() == 1 && comp[0] == '.');
                        assert(false);
                    }
                    if comp == seq!['.', '.'] {
                        assert(comp.len() == 2 && comp[0] == '.' && comp[1] == '.');
                        assert(false);
                    }
                }
                return Some(name);
            }
        }
    }
}

/// The extension of a file name, exactly as `spec_name_extension` describes
/// it.
pub fn name_extension<'a>(name: &'a str) -> (r: Option<&'a str>)
    ensures
        r matches Some(e) ==> spec_name_extension(name@) == Some(e@),
        r is None ==> spec_name_extension(name@) is None,
{
    let n = name.unicode_len();
    if n == 2 && name.get_char(0) == '.' && name.get_char(1) == '.' {
        proof {
            assert(name@ =~= seq!['.', '.']);
        }
        return None;
    }
    proof {
        if name@ == seq!['.', '.'] {
            assert(name@.len() == 2 && name@[0] == '.' && name@[1] == '.');
            assert(false);
        }
    }
    let ds = last_run_start(name, n, '.');
    proof {
        lemma_suffix_after_last(name@, '.', ds as int);
        if ds == 0 {
            assert(name@.subrange(0, n as int) =~= name@);
        }
    }
    if ds == 0 {
        None
    } else if ds == 1 {
        None
    } else {
        Some(name.substring_char(ds, n))
    }
}

/// The extension of a path, exactly as `spec_path_extension` describes it.
pub fn path_extension<'a>(path: &'a str) -> (r: Option<&'a str>)
    ensures
        r matches Some(e) ==> spec_path_extension(path@) == Some(e@),
        r is None ==> spec_path_extension(path@) is None,
{
    match file_name(path) {
        Some(name) => name_extension(name),
        None => None,
    }
}

} // verus!
