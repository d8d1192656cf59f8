//! Validation of upload file names: a name must be a single plain
//! path component.

use vstd::prelude::*;
use vstd::string::StrSliceExecFns;
use crate::api::user::idx_of;

verus! {

/// The segments after position `from` (a separator position or the
/// end) are all empty or single dots, so they add no path component.
pub open spec fn rest_adds_no_component(s: Seq<char>, from: int) -> bool
    decreases s.len() - from,
{
    if from >= s.len() || from < 0 {
        true
    } else {
        let e = idx_of(s, from + 1, '/');
        let ok = (e == from + 1) || (e == from + 2 && s[from + 1] == '.');
        ok && rest_adds_no_component(s, e)
    }
}

/// A path that names exactly one normal component: nonempty, not
/// rooted, its first segment neither the current nor the parent
/// directory, and everything after the first separator only empty or
/// dot segments.
pub open spec fn path_single_normal(s: Seq<char>) -> bool {
    let sep = idx_of(s, 0, '/');
    &&& s.len() > 0
    &&& s[0] != '/'
    &&& !(sep == 1 && s[0] == '.')
    &&& !(sep == 2 && s[0] == '.' && s[1] == '.')
    &&& rest_adds_no_component(s, sep)
}

/// Whether a path is a single plain component, so that it cannot
/// escape the upload directory.
pub fn path_is_valid(path: &str) -> (r: bool)
    ensures
        r == path_single_normal(path@),
{
    let n = path.unicode_len();
    if n == 0 {
        return false;
    }
    let c0 = path.get_char(0) as u32;
    if c0 == 47 {
        proof {
            assert(path@[0] == '/');
        }
        return false;
    }
    proof {
        assert(path@[0] != '/');
    }
    let sep = find_slash(path, 0);
    if sep == 1 && path.get_char(0) as u32 == 46 {
        proof {
            assert(path@[0] == '.');
        }
        return false;
    }
    if sep == 2 && path.get_char(0) as u32 == 46 && path.get_char(1) as u32 == 46 {
        proof {
            assert(path@[0] == '.');
            assert(path@[1] == '.');
        }
        return false;
    }
    proof {
        assert(!(idx_of(path@, 0, '/') == 1 && path@[0] == '.'));
        assert(!(idx_of(path@, 0, '/') == 2 && path@[0] == '.' && path@[1] == '.'));
    }
    let mut cur: usize = sep;
    while cur < n
        invariant
            n == path@.len(),
            sep <= cur <= n,
            sep as int == idx_of(path@, 0, '/'),
            path_single_normal(path@) == rest_adds_no_component(path@, cur as int),
            path@.len() > 0,
            path@[0] != '/',
            !(idx_of(path@, 0, '/') == 1 && path@[0] == '.'),
            !(idx_of(path@, 0, '/') == 2 && path@[0] == '.' && path@[1] == '.'),
        decreases n - cur,
    {
        let e = find_slash(path, cur + 1);
        let mut ok = e == cur + 1;
        if !ok && e == cur + 2 {
            let c = path.get_char(cur + 1) as u32;
            ok = c == 46;
            proof {
                if c == 46 {
                    assert(path@[cur as int + 1] == '.');
                } else {
                    assert(path@[cur as int + 1] != '.');
                }
            }
        }
        proof {
            assert(ok == ((idx_of(path@, cur as int + 1, '/') == cur + 1) || (idx_of(
                path@,
                cur as int + 1,
                '/',
            ) == cur + 2 && path@[cur as int + 1] == '.')));
        }
        if !ok {
            return false;
        }
        cur = e;
    }
    true
}

/// The first index at or after `from` holding a slash, or the
/// length.
fn find_slash(path: &str, from: usize) -> (r: usize)
    requires
        from <= path@.len() + 1,
    ensures
        r as int == idx_of(path@, from as int, '/'),
        r <= path@.len(),
        from <= path@.len() ==> from <= r,
    decreases path@.len() - from,
{
    let n = path.unicode_len();
    if from > n {
        return n;
    }
    let mut i: usize = from;
    while i < n
        invariant
            n == path@.len(),
            from <= i <= n,
            idx_of(path@, from as int, '/') == idx_of(path@, i as int, '/'),
        decreases n - i,
    {
        let c = path.get_char(i) as u32;
        if c == 47 {
            proof {
                assert(path@[i as int] == '/');
            }
            return i;
        }
        proof {
            assert(path@[i as int] != '/');
        }
        i += 1;
    }
    n
}

} // verus!
