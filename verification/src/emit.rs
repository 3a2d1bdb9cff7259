//! Where a rendered page goes: the page's path under the output root.

use vstd::prelude::*;

verus! {

/// `path` placed under `root`, as paths join where `/` separates the
/// components: a `path` that starts at the root directory stands alone; else it
/// follows `root`, with a separator between them unless `root` is empty or
/// already ends with one.
pub open spec fn joined(root: Seq<char>, path: Seq<char>) -> Seq<char> {
    if path.len() > 0 && path[0] == '/' {
        path
    } else if root.len() == 0 || root.last() == '/' {
        root + path
    } else {
        root + seq!['/'] + path
    }
}

/// The path of the file that a page found at `path` is written to under the
/// output root `root`.
pub fn destination(root: &str, path: &str) -> (target: String)
    ensures
        target@ == joined(root@, path@),
{
    let root_len: usize = root.unicode_len();
    if path.unicode_len() > 0 && path.get_char(0) == '/' {
        return String::from_str(path);
    }
    let mut target = String::from_str(root);
    if root_len > 0 && root.get_char(root_len - 1) != '/' {
        proof {
            reveal_strlit("/");
            assert("/"@ =~= seq!['/']);
        }
        target.append("/");
    }
    target.append(path);
    target
}

} // verus!
