//! Path containment: a lexical canonicalization-and-containment check
//! that the application runs before any filesystem access, so that a
//! resolved resource path cannot escape the configured root through
//! `..` segments.

use vstd::prelude::*;
use vstd::string::StrSliceExecFns;

use crate::text::split_all;
use crate::text::split_str;
use crate::text::str_eq;

verus! {

/// Apply one path segment to a normalization stack: empty and `.`
/// segments vanish, `..` pops (and escapes when nothing is left to
/// pop), anything else is pushed.
pub open spec fn spec_norm_step(stack: Option<Seq<Seq<char>>>, seg: Seq<char>) -> Option<
    Seq<Seq<char>>,
> {
    match stack {
        None => None,
        Some(st) => if seg == Seq::<char>::empty() || seg == "."@ {
            Some(st)
        } else if seg == ".."@ {
            if st.len() == 0 {
                None
            } else {
                Some(st.drop_last())
            }
        } else {
            Some(st.push(seg))
        },
    }
}

/// The normalization stack after the first `i` segments, or `None`
/// when the path has escaped upward.
pub open spec fn spec_normalize(segs: Seq<Seq<char>>, i: int) -> Option<Seq<Seq<char>>>
    decreases i,
{
    if i <= 0 {
        Some(Seq::empty())
    } else {
        spec_norm_step(spec_normalize(segs, i - 1), segs[i - 1])
    }
}

/// Once a path has escaped upward, it stays escaped.
proof fn lemma_normalize_none(segs: Seq<Seq<char>>, i: int, j: int)
    requires
        0 <= i <= j,
        spec_normalize(segs, i) is None,
    ensures
        spec_normalize(segs, j) is None,
    decreases j - i,
{
    if i < j {
        lemma_normalize_none(segs, i + 1, j);
    }
}

/// `path`, canonicalized lexically, stays at or below the
/// canonicalized `root`: neither escapes upward, and the root's
/// segments are a prefix of the path's.
pub open spec fn spec_within_root(root: Seq<char>, path: Seq<char>) -> bool {
    let rsegs = split_all(root, seq!['/']);
    let psegs = split_all(path, seq!['/']);
    match (spec_normalize(rsegs, rsegs.len() as int), spec_normalize(psegs, psegs.len() as int)) {
        (Some(r), Some(p)) => r.len() <= p.len() && r == p.subrange(0, r.len() as int),
        _ => false,
    }
}

/// Canonicalize a segment list; `None` when it escapes upward.
fn normalize_segments(segs: &Vec<String>) -> (r: Option<Vec<String>>)
    ensures
        match r {
            Some(v) => spec_normalize(segs.deep_view(), segs@.len() as int) == Some(v.deep_view()),
            None => spec_normalize(segs.deep_view(), segs@.len() as int) is None,
        },
{
    let ghost sv = segs.deep_view();
    let mut stack: Vec<String> = Vec::new();
    let n = segs.len();
    let mut i: usize = 0;
    proof {
        assert(stack.deep_view() =~= Seq::<Seq<char>>::empty());
    }
    #[verifier::loop_isolation(false)]
    while i < n
        invariant
            0 <= i <= n,
            n == sv.len(),
            spec_normalize(sv, i as int) == Some(stack.deep_view()),
        decreases n - i,
    {
        proof {
            assert(sv[i as int] == segs@[i as int]@);
        }
        let seg = &segs[i];
        let ghost prev = stack.deep_view();
        if seg.as_str().unicode_len() == 0 || str_eq(seg.as_str(), ".") {
            proof {
                if seg@.len() == 0 {
                    assert(seg@ =~= Seq::<char>::empty());
                }
                assert(spec_norm_step(Some(prev), sv[i as int]) == Some(prev));
            }
        } else if str_eq(seg.as_str(), "..") {
            if stack.len() == 0 {
                proof {
                    assert(spec_norm_step(Some(prev), sv[i as int]) is None);
                    assert(spec_normalize(sv, i + 1) is None);
                    lemma_normalize_none(sv, i + 1, n as int);
                }
                return None;
            }
            stack.pop();
            proof {
                assert(seg@ != Seq::<char>::empty());
                assert(stack.deep_view() =~= prev.drop_last());
                assert(spec_norm_step(Some(prev), sv[i as int]) == Some(prev.drop_last()));
            }
        } else {
            stack.push(seg.clone());
            proof {
                assert(seg@.len() > 0);
                assert(seg@ != Seq::<char>::empty());
                assert(stack.deep_view() =~= prev.push(seg@));
                assert(spec_norm_step(Some(prev), sv[i as int]) == Some(prev.push(seg@)));
            }
        }
        proof {
            assert(spec_normalize(sv, i + 1) == spec_norm_step(spec_normalize(sv, i as int), sv[
                i as int
            ]));
        }
        i = i + 1;
    }
    Some(stack)
}

/// Decide whether `path`, canonicalized lexically, stays at or below
/// `root`. The application must consult this before every filesystem
/// access on a resolved path.
pub fn path_within_root(root: &str, path: &str) -> (r: bool)
    ensures
        r == spec_within_root(root@, path@),
{
    proof {
        reveal_strlit("/");
        assert("/"@ =~= seq!['/']);
    }
    let rsegs = split_str(root, "/");
    let psegs = split_str(path, "/");
    let rnorm = match normalize_segments(&rsegs) {
        Some(v) => v,
        None => {
            return false;
        },
    };
    let pnorm = match normalize_segments(&psegs) {
        Some(v) => v,
        None => {
            return false;
        },
    };
    let rn = rnorm.len();
    if rn > pnorm.len() {
        return false;
    }
    let mut i: usize = 0;
    #[verifier::loop_isolation(false)]
    while i < rn
        invariant
            0 <= i <= rn,
            rn == rnorm.deep_view().len(),
            rn <= pnorm.deep_view().len(),
            forall|k: int| 0 <= k < i ==> rnorm.deep_view()[k] == pnorm.deep_view()[k],
        decreases rn - i,
    {
        proof {
            assert(rnorm.deep_view()[i as int] == rnorm@[i as int]@);
            assert(pnorm.deep_view()[i as int] == pnorm@[i as int]@);
        }
        if !str_eq(rnorm[i].as_str(), pnorm[i].as_str()) {
            proof {
                assert(rnorm.deep_view() != pnorm.deep_view().subrange(0, rn as int)) by {
                    assert(pnorm.deep_view().subrange(0, rn as int)[i as int]
                        == pnorm.deep_view()[i as int]);
                }
            }
            return false;
        }
        i = i + 1;
    }
    proof {
        assert(rnorm.deep_view() =~= pnorm.deep_view().subrange(0, rn as int));
    }
    true
}

} // verus!
