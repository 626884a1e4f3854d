//! Paths are held as `String`s. Joining follows the rules of
//! `std::path::PathBuf::push` on Unix: an absolute component replaces the
//! base, otherwise a `/` separates the two unless the base is empty or already
//! ends in one.

use vstd::prelude::*;

verus! {

/// True when `p` is an absolute Unix path.
pub open spec fn is_absolute(p: Seq<char>) -> bool {
    p.len() > 0 && p[0] == '/'
}

/// `base` joined with `p`.
pub open spec fn path_join(base: Seq<char>, p: Seq<char>) -> Seq<char> {
    if is_absolute(p) {
        p
    } else if base.len() == 0 || base.last() == '/' {
        base + p
    } else {
        base + seq!['/'] + p
    }
}

/// Joins `p` onto `base`.
pub fn join(base: &str, p: &str) -> (r: String)
    ensures
        r@ == path_join(base@, p@),
{
    if !p.is_empty() && p.get_char(0) == '/' {
        return p.to_owned();
    }
    let mut r = base.to_owned();
    if !base.is_empty() {
        let n = base.unicode_len();
        if base.get_char(n - 1) != '/' {
            r.append("/");
        }
    }
    proof {
        reveal_strlit("/");
    }
    r.append(p);
    r
}

/// Joining `x` and then `y` onto `base` is joining `x/y` onto it, when `x`
/// is a relative path that does not end in a separator and `y` is relative.
pub proof fn lemma_join_twice(base: Seq<char>, x: Seq<char>, y: Seq<char>)
    requires
        x.len() > 0,
        !is_absolute(x),
        x.last() != '/',
        !is_absolute(y),
    ensures
        path_join(path_join(base, x), y) == path_join(base, x + seq!['/'] + y),
{
    let j = path_join(base, x);
    assert(j.len() > 0 && j.last() == x.last());
    assert((x + seq!['/'] + y)[0] == x[0]);
    if base.len() == 0 || base.last() == '/' {
        assert(j + seq!['/'] + y =~= base + (x + seq!['/'] + y));
    } else {
        assert(j + seq!['/'] + y =~= base + seq!['/'] + (x + seq!['/'] + y));
    }
}

} // verus!
