//! Verified helpers over path strings: joining, parent directories, and
//! resolving a relative path against a configuration file's directory.

use vstd::prelude::*;

verus! {

/// Whether a path string is absolute.
pub open spec fn is_absolute_path(s: Seq<char>) -> bool {
    s.len() > 0 && s[0] == '/'
}

/// `base` and `rest` joined with a separator; an empty base or a base that
/// already ends in the separator adds none.
pub open spec fn joined_path(base: Seq<char>, rest: Seq<char>) -> Seq<char> {
    if base.len() == 0 {
        rest
    } else if base.last() == '/' {
        base + rest
    } else {
        base + "/"@ + rest
    }
}

/// The position of the last separator in `s`, or a negative value when it
/// has none.
pub open spec fn last_slash(s: Seq<char>) -> int
    decreases s.len(),
{
    if s.len() == 0 {
        -1
    } else if s.last() == '/' {
        s.len() - 1
    } else {
        last_slash(s.drop_last())
    }
}

/// The directory part of a path: everything before the last separator, the
/// bare separator for a path directly under the root, and the empty string
/// for a path with no separator at all.
pub open spec fn parent_of(s: Seq<char>) -> Seq<char> {
    if last_slash(s) < 0 {
        Seq::<char>::empty()
    } else if last_slash(s) == 0 {
        "/"@
    } else {
        s.take(last_slash(s))
    }
}

/// Tests whether the path is absolute.
pub fn path_is_absolute(path: &str) -> (r: bool)
    ensures
        r == is_absolute_path(path@),
{
    if path.unicode_len() == 0 {
        return false;
    }
    path.get_char(0) == '/'
}

/// Joins a base directory and a path below it.
pub fn join_path(base: &str, rest: &str) -> (r: String)
    ensures
        r@ == joined_path(base@, rest@),
{
    let len = base.unicode_len();
    if len == 0 {
        return String::from_str(rest);
    }
    if base.get_char(len - 1) == '/' {
        String::from_str(base).concat(rest)
    } else {
        String::from_str(base).concat("/").concat(rest)
    }
}

proof fn lemma_last_slash_none_beyond(s: Seq<char>, i: int)
    requires
        0 <= i <= s.len(),
        forall|j: int| i <= j < s.len() ==> s[j] != '/',
    ensures
        last_slash(s) == last_slash(s.take(i)),
    decreases s.len() - i,
{
    if i < s.len() {
        assert(s.last() != '/');
        assert(s.drop_last() =~= s.take(s.len() - 1));
        lemma_last_slash_none_beyond(s.take(s.len() - 1), i);
        assert(s.take(s.len() - 1).take(i) =~= s.take(i));
    } else {
        assert(s.take(i) =~= s);
    }
}

/// The directory part of a path, as `parent_of` gives it.
pub fn parent_dir(path: &str) -> (r: String)
    ensures
        r@ == parent_of(path@),
{
    let len = path.unicode_len();
    let mut i: usize = len;
    while i > 0
        invariant
            i <= len,
            len == path@.len(),
            forall|j: int| i <= j < len ==> path@[j] != '/',
        decreases i,
    {
        if path.get_char(i - 1) == '/' {
            proof {
                lemma_last_slash_none_beyond(path@, i as int);
                assert(path@.take(i as int).last() == path@[i - 1]);
                assert(last_slash(path@) == i - 1);
            }
            if i == 1 {
                return String::from_str("/");
            }
            let p = path.substring_char(0, i - 1);
            proof {
                assert(p@ =~= path@.take(i - 1));
            }
            return String::from_str(p);
        }
        i = i - 1;
    }
    proof {
        lemma_last_slash_none_beyond(path@, 0);
        assert(path@.take(0) =~= Seq::<char>::empty());
    }
    String::new()
}

/// Resolves a possibly relative path against the directory of the
/// configuration file that mentioned it; a path mentioned outside any file
/// is resolved against the given working directory.
pub fn resolve_config_path(path: &str, config_file_path: &Option<String>, current_dir: &str) -> (r:
    String)
    ensures
        is_absolute_path(path@) ==> r@ == path@,
        !is_absolute_path(path@) ==> r@ == (match config_file_path {
            Some(fp) => joined_path(parent_of(fp@), path@),
            None => joined_path(current_dir@, path@),
        }),
{
    if path_is_absolute(path) {
        return String::from_str(path);
    }
    match config_file_path {
        Some(fp) => {
            let base = parent_dir(fp.as_str());
            join_path(base.as_str(), path)
        },
        None => join_path(current_dir, path),
    }
}

/// The directory a named application's files live in, under the test-case
/// base directory.
pub fn appdir(base_dir: &str, appname: &str) -> (r: String)
    ensures
        r@ == joined_path(base_dir@, appname@),
{
    join_path(base_dir, appname)
}

} // verus!
