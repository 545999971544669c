//! Byte-string helpers: equality, copying, and substring containment.

use vstd::prelude::*;

verus! {

/// The views of a sequence of byte strings.
pub open spec fn byte_views(s: Seq<Vec<u8>>) -> Seq<Seq<u8>> {
    s.map_values(|k: Vec<u8>| k@)
}

/// Byte-string equality.
#[verifier::loop_isolation(false)]
pub fn bytes_eq(a: &Vec<u8>, b: &Vec<u8>) -> (r: bool)
    ensures
        r == (a@ == b@),
{
    if a.len() != b.len() {
        return false;
    }
    let mut i: usize = 0;
    while i < a.len()
        invariant
            0 <= i <= a.len(),
            a.len() == b.len(),
            forall|j: int| 0 <= j < i ==> a@[j] == b@[j],
        decreases a.len() - i,
    {
        if a[i] != b[i] {
            return false;
        }
        i = i + 1;
    }
    proof {
        assert(a@ =~= b@);
    }
    true
}

/// Copies a byte string.
#[verifier::loop_isolation(false)]
pub fn copy_bytes(src: &Vec<u8>) -> (r: Vec<u8>)
    ensures
        r@ == src@,
{
    let mut r: Vec<u8> = Vec::new();
    let mut i: usize = 0;
    while i < src.len()
        invariant
            0 <= i <= src.len(),
            r@ == src@.take(i as int),
        decreases src.len() - i,
    {
        r.push(src[i]);
        proof {
            assert(r@ =~= src@.take(i + 1));
        }
        i = i + 1;
    }
    proof {
        assert(src@.take(src@.len() as int) =~= src@);
    }
    r
}

/// `needle` occurs in `hay` starting at position `k`.
pub open spec fn is_substring_at(hay: Seq<u8>, needle: Seq<u8>, k: int) -> bool {
    &&& 0 <= k
    &&& k + needle.len() <= hay.len()
    &&& hay.subrange(k, k + needle.len()) == needle
}

/// `needle` occurs somewhere in `hay`.
pub open spec fn is_substring(hay: Seq<u8>, needle: Seq<u8>) -> bool {
    exists|k: int| is_substring_at(hay, needle, k)
}

#[verifier::loop_isolation(false)]
fn match_at(hay: &Vec<u8>, needle: &Vec<u8>, k: usize) -> (r: bool)
    requires
        k + needle.len() <= hay.len(),
    ensures
        r == is_substring_at(hay@, needle@, k as int),
{
    let mut m: usize = 0;
    while m < needle.len()
        invariant
            0 <= m <= needle.len(),
            forall|j: int| 0 <= j < m ==> hay@[k + j] == needle@[j],
        decreases needle.len() - m,
    {
        if hay[k + m] != needle[m] {
            proof {
                if is_substring_at(hay@, needle@, k as int) {
                    assert(hay@.subrange(k as int, k + needle@.len())[m as int] == needle@[m as int]);
                }
            }
            return false;
        }
        m = m + 1;
    }
    proof {
        assert(hay@.subrange(k as int, k + needle@.len()) =~= needle@);
    }
    true
}

/// Exact, case-sensitive substring containment.
#[verifier::loop_isolation(false)]
pub fn contains_sub(hay: &Vec<u8>, needle: &Vec<u8>) -> (r: bool)
    ensures
        r == is_substring(hay@, needle@),
{
    if needle.len() == 0 {
        proof {
            assert(hay@.subrange(0, 0) =~= needle@);
            assert(is_substring_at(hay@, needle@, 0));
        }
        return true;
    }
    if needle.len() > hay.len() {
        proof {
            assert(forall|k: int| !is_substring_at(hay@, needle@, k));
        }
        return false;
    }
    let last = hay.len() - needle.len();
    let mut k: usize = 0;
    while k <= last
        invariant
            0 <= k <= last + 1,
            forall|k2: int| 0 <= k2 < k ==> !is_substring_at(hay@, needle@, k2),
        decreases last - k + 1,
    {
        if match_at(hay, needle, k) {
            return true;
        }
        k = k + 1;
    }
    proof {
        assert(forall|k2: int| is_substring_at(hay@, needle@, k2) ==> 0 <= k2 <= last);
    }
    false
}

} // verus!
