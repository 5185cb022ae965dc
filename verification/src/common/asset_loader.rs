use vstd::prelude::*;
use vstd::string::StrSliceExecFns;

verus! {

/// Whether `path` begins with `base`.
pub open spec fn starts_with(path: Seq<char>, base: Seq<char>) -> bool {
    base.len() <= path.len() && path.subrange(0, base.len() as int) == base
}

/// Whether `c` parts the names of a path.
pub open spec fn is_separator(c: char) -> bool {
    c == '/' || c == '\\'
}

/// Where the extension of the file at the end of `name` begins, looking at
/// the first `upto` characters, or the length of `name` where the file has
/// none: the place of the last dot of the file's own name. A dot in the name
/// of a directory is no such dot, nor is a dot that the file's name begins
/// with.
pub open spec fn extension_at(name: Seq<char>, upto: int) -> int
    decreases upto,
{
    if upto <= 0 || is_separator(name[upto - 1]) {
        name.len() as int
    } else if name[upto - 1] == '.' {
        if upto - 1 == 0 || is_separator(name[upto - 2]) {
            name.len() as int
        } else {
            upto - 1
        }
    } else {
        extension_at(name, upto - 1)
    }
}

/// The name under which the sound file at `path` is known, where `base` is
/// the directory that was searched: the path from `base` on, without the
/// extension of the file. `None` where `path` does not lie below `base`.
pub open spec fn sound_name(base: Seq<char>, path: Seq<char>) -> Option<Seq<char>> {
    if starts_with(path, base) {
        let relative = path.subrange(base.len() as int, path.len() as int);
        Some(relative.subrange(0, extension_at(relative, relative.len() as int)))
    } else {
        None
    }
}

/// The name under which the sound file at `path` is known, where `base_dir`
/// is the directory that was searched.
pub fn sound_key(base_dir: &str, path: &str) -> (key: Option<String>)
    ensures
        match key {
            Some(name) => sound_name(base_dir@, path@) == Some(name@),
            None => sound_name(base_dir@, path@) is None,
        },
{
    let base_len = base_dir.unicode_len();
    let path_len = path.unicode_len();
    if base_len > path_len {
        return None;
    }
    let mut i: usize = 0;
    while i < base_len
        invariant
            i <= base_len <= path_len,
            base_len == base_dir@.len(),
            path_len == path@.len(),
            forall|j: int| 0 <= j < i ==> path@[j] == base_dir@[j],
        decreases base_len - i,
    {
        if path.get_char(i) != base_dir.get_char(i) {
            assert(path@.subrange(0, base_len as int)[i as int] != base_dir@[i as int]);
            return None;
        }
        i += 1;
    }
    assert(path@.subrange(0, base_len as int) == base_dir@);
    let ghost relative = path@.subrange(base_len as int, path_len as int);
    let mut cut: usize = path_len;
    let mut k: usize = path_len;
    let mut found = false;
    while k > base_len && !found
        invariant
            base_len <= k <= path_len,
            path_len == path@.len(),
            relative == path@.subrange(base_len as int, path_len as int),
            base_len <= cut <= path_len,
            !found ==> cut == path_len && extension_at(relative, relative.len() as int)
                == extension_at(relative, k - base_len),
            found ==> cut - base_len == extension_at(relative, relative.len() as int),
        decreases k + (if found { 0int } else { 1int }),
    {
        assert(relative[k - base_len - 1] == path@[k - 1]);
        let c = path.get_char(k - 1);
        if c == '/' || c == '\\' {
            found = true;
        } else if c == '.' {
            if k - 1 == base_len {
                found = true;
            } else {
                assert(relative[k - base_len - 2] == path@[k - 2]);
                let before = path.get_char(k - 2);
                if before == '/' || before == '\\' {
                    found = true;
                } else {
                    cut = k - 1;
                    found = true;
                }
            }
        } else {
            k -= 1;
        }
    }
    assert(cut - base_len == extension_at(relative, relative.len() as int));
    let name = path.substring_char(base_len, cut);
    assert(name@ == relative.subrange(0, cut - base_len));
    Some(name.to_owned())
}

} // verus!
