//! Selection of source files: which paths in an enumerated tree are
//! declaration files worth parsing.

use vstd::prelude::*;
use crate::strutil::{str_eq, ends_with_str, last_ix, last_index_of};

verus! {

/// The file name part of a path: everything after the last slash.
pub open spec fn file_name_of(p: Seq<char>) -> Seq<char> {
    p.skip(last_ix(p, '/') + 1)
}

/// A path names a declaration file when it ends in the source extension,
/// has a nonempty stem, and is not one of the generator's marker files.
pub open spec fn spec_is_class(p: Seq<char>) -> bool {
    let name = file_name_of(p);
    &&& ".java"@.is_suffix_of(name)
    &&& name.len() > ".java"@.len()
    &&& name != "package-info.java"@
    &&& name != "ObjectFactory.java"@
}

/// The subsequence of paths that name declaration files.
pub open spec fn kept_classes(ps: Seq<Seq<char>>) -> Seq<Seq<char>>
    decreases ps.len(),
{
    if ps.len() == 0 {
        Seq::empty()
    } else {
        kept_classes(ps.drop_last()) + if spec_is_class(ps.last()) {
            seq![ps.last()]
        } else {
            Seq::empty()
        }
    }
}

/// Decides whether one path names a declaration file.
pub fn is_class(path: &str) -> (r: bool)
    ensures
        r == spec_is_class(path@),
{
    let len = path.unicode_len();
    let start: usize = match last_index_of(path, '/') {
        Some(i) => i + 1,
        None => 0,
    };
    let name = path.substring_char(start, len);
    proof {
        assert(name@ =~= file_name_of(path@));
        reveal_strlit(".java");
    }
    ends_with_str(name, ".java") && name.unicode_len() > 5 && !str_eq(name, "package-info.java")
        && !str_eq(name, "ObjectFactory.java")
}

/// Filters an enumerated list of paths down to the declaration files, in
/// the order given.
pub fn find_classes(paths: &Vec<String>) -> (r: Vec<String>)
    ensures
        r@.map_values(|s: String| s@) == kept_classes(paths@.map_values(|s: String| s@)),
{
    let n = paths.len();
    let mut r: Vec<String> = Vec::new();
    proof {
        assert(r@.map_values(|s: String| s@) =~= kept_classes(
            paths@.take(0).map_values(|s: String| s@),
        ));
    }
    let mut i: usize = 0;
    while i < n
        invariant
            i <= n,
            n == paths@.len(),
            r@.map_values(|s: String| s@) == kept_classes(
                paths@.take(i as int).map_values(|s: String| s@),
            ),
        decreases n - i,
    {
        proof {
            assert(paths@.take(i as int + 1).map_values(|s: String| s@).drop_last()
                =~= paths@.take(i as int).map_values(|s: String| s@));
            assert(paths@.take(i as int + 1).map_values(|s: String| s@).last()
                == paths@[i as int]@);
        }
        if is_class(paths[i].as_str()) {
            r.push(paths[i].clone());
        }
        proof {
            assert(r@.map_values(|s: String| s@) =~= kept_classes(
                paths@.take(i as int + 1).map_values(|s: String| s@),
            ));
        }
        i = i + 1;
    }
    proof {
        assert(paths@.take(n as int) =~= paths@);
    }
    r
}

} // verus!
