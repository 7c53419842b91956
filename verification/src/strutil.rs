use vstd::prelude::*;
use vstd::string::{StrSliceExecFns, StringExecFns, StringSliceAdditionalSpecFns};

verus! {

/// The needle occurs somewhere in the haystack, byte for byte.
pub open spec fn bytes_contains(h: Seq<u8>, n: Seq<u8>) -> bool {
    exists|k: int| 0 <= k && k + n.len() <= h.len() && #[trigger] h.subrange(k, k + n.len()) == n
}

/// Case-sensitive substring search, on the texts' bytes.
pub fn str_contains(hay: &str, needle: &str) -> (r: bool)
    ensures
        r == bytes_contains(hay.spec_bytes(), needle.spec_bytes()),
{
    let h: Vec<u8> = hay.as_bytes_vec();
    let n: Vec<u8> = needle.as_bytes_vec();
    if n.len() > h.len() {
        proof {
            assert(!bytes_contains(h@, n@));
        }
        return false;
    }
    let hn = h.len();
    let nn = n.len();
    let mut k: usize = 0;
    while k <= hn - nn
        invariant
            hn == h@.len(),
            nn == n@.len(),
            n@.len() <= h@.len(),
            h@ == hay.spec_bytes(),
            n@ == needle.spec_bytes(),
            0 <= k <= h@.len() - n@.len() + 1,
            forall|k0: int| 0 <= k0 < k ==> #[trigger] h@.subrange(k0, k0 + n@.len()) != n@,
        decreases h@.len() - n@.len() + 1 - k,
    {
        let mut j: usize = 0;
        let mut matched = true;
        while j < nn && matched
            invariant
                hn == h@.len(),
                nn == n@.len(),
                n@.len() <= h@.len(),
                0 <= k <= h@.len() - n@.len(),
                0 <= j <= n@.len(),
                matched == (h@.subrange(k as int, k + j) =~= n@.subrange(0, j as int)),
            decreases n@.len() - j,
        {
            proof {
                assert(h@.subrange(k as int, k + j + 1).drop_last() =~= h@.subrange(
                    k as int,
                    k + j,
                ));
                assert(n@.subrange(0, j + 1).drop_last() =~= n@.subrange(0, j as int));
                assert(h@.subrange(k as int, k + j + 1).last() == h@[k + j]);
                assert(n@.subrange(0, j + 1).last() == n@[j as int]);
            }
            if h[k + j] != n[j] {
                matched = false;
                proof {
                    assert(h@.subrange(k as int, k + j + 1)[j as int] == h@[k + j]);
                    assert(n@.subrange(0, j + 1)[j as int] == n@[j as int]);
                }
            }
            j = j + 1;
        }
        if matched {
            proof {
                assert(j == n@.len());
                assert(h@.subrange(k as int, k + n@.len()) =~= n@.subrange(0, n@.len() as int));
                assert(n@.subrange(0, n@.len() as int) =~= n@);
            }
            return true;
        }
        proof {
            assert(h@.subrange(k as int, k + n@.len()) != n@) by {
                if h@.subrange(k as int, k + n@.len()) == n@ {
                    assert(matched == (h@.subrange(k as int, k as int) =~= n@.subrange(0, 0)));
                }
            }
        }
        k = k + 1;
    }
    proof {
        assert forall|k0: int| 0 <= k0 && k0 + n@.len() <= h@.len() implies #[trigger] h@.subrange(
            k0,
            k0 + n@.len(),
        ) != n@ by {}
    }
    false
}

/// Whether two pieces of text read the same, character for character.
pub fn str_eq(a: &str, b: &str) -> (r: bool)
    ensures
        r == (a@ == b@),
{
    let sa = String::from_str(a);
    let sb = String::from_str(b);
    sa == sb
}

} // verus!
