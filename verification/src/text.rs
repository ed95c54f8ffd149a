//! Verified case-sensitive substring search over character sequences,
//! used by the search operation.

use vstd::prelude::*;
use vstd::string::StrSliceExecFns;

verus! {

/// Whether `needle` occurs in `hay` starting at position `k`.
pub open spec fn contains_at(hay: Seq<char>, needle: Seq<char>, k: int) -> bool {
    0 <= k && k + needle.len() <= hay.len() && hay.subrange(k, k + needle.len() as int) == needle
}

/// Whether `needle` occurs somewhere in `hay` as a contiguous substring.
pub open spec fn seq_contains(hay: Seq<char>, needle: Seq<char>) -> bool {
    exists|k: int| contains_at(hay, needle, k)
}

/// Decides substring containment: exact, case-sensitive matching.
pub fn str_contains(hay: &String, needle: &String) -> (r: bool)
    ensures
        r == seq_contains(hay@, needle@),
{
    let h = hay.as_str();
    let n = needle.as_str();
    let hlen = h.unicode_len();
    let nlen = n.unicode_len();
    if nlen > hlen {
        proof {
            assert(forall|k: int| !contains_at(hay@, needle@, k));
        }
        return false;
    }
    if nlen == 0 {
        proof {
            assert(hay@.subrange(0, 0) =~= needle@);
            assert(contains_at(hay@, needle@, 0));
        }
        return true;
    }
    let mut k: usize = 0;
    #[verifier::loop_isolation(false)]
    while k <= hlen - nlen
        invariant
            forall|t: int| 0 <= t < k ==> !contains_at(hay@, needle@, t),
            k <= hlen - nlen + 1,
        decreases hlen - nlen - k + 1,
    {
        let mut j: usize = 0;
        let mut all: bool = true;
        #[verifier::loop_isolation(false)]
        while j < nlen
            invariant
                j <= nlen,
                all ==> forall|t: int| 0 <= t < j ==> hay@[k + t] == needle@[t],
                !all ==> !contains_at(hay@, needle@, k as int),
            decreases nlen - j,
    {
            if h.get_char(k + j) != n.get_char(j) {
                proof {
                    let sub = hay@.subrange(k as int, k + nlen as int);
                    if contains_at(hay@, needle@, k as int) {
                        assert(sub == needle@);
                        assert(sub[j as int] == hay@[k + j]);
                        assert(false);
                    }
                }
                all = false;
                j = nlen;
            } else {
                j = j + 1;
            }
        }
        if all {
            proof {
                assert(hay@.subrange(k as int, k + nlen as int) =~= needle@);
                assert(contains_at(hay@, needle@, k as int));
            }
            return true;
        }
        k = k + 1;
    }
    proof {
        assert forall|t: int| !contains_at(hay@, needle@, t) by {
            if 0 <= t && t + needle@.len() <= hay@.len() {
                assert(t < k);
            }
        }
    }
    false
}

} // verus!
