use vstd::prelude::*;
use vstd::std_specs::iter::IteratorSpec;

verus! {

/// `q` occurs in `t` as a contiguous run of characters.
pub open spec fn has_substring(t: Seq<char>, q: Seq<char>) -> bool {
    exists|i: int| 0 <= i && i + q.len() <= t.len() && #[trigger] t.subrange(i, i + q.len()) == q
}

/// `q` occurs in `t` starting at position `i`.
pub open spec fn occurs_at(t: Seq<char>, q: Seq<char>, i: int) -> bool {
    forall|k: int| 0 <= k < q.len() ==> t[i + k] == #[trigger] q[k]
}

/// The characters of `s`, in order.
pub fn chars_of(s: &str) -> (r: Vec<char>)
    ensures
        r@ == s@,
{
    broadcast use vstd::string::axiom_spec_iter, vstd::string::next_postcondition;

    let mut it = s.chars();
    let mut out: Vec<char> = Vec::new();
    loop
        invariant
            out@ + it.remaining() == s@,
            it.obeys_prophetic_iter_laws(),
            it.decrease() is Some,
        decreases it.decrease()->0,
    {
        match it.next() {
            Some(c) => {
                out.push(c);
            },
            None => {
                return out;
            },
        }
    }
}

/// Whether `q` occurs in `t@[lo..hi]`, by trying each start position in turn.
pub fn contains_in(t: &Vec<char>, lo: usize, hi: usize, q: &Vec<char>) -> (r: bool)
    requires
        lo <= hi <= t@.len(),
    ensures
        r == has_substring(t@.subrange(lo as int, hi as int), q@),
{
    let ghost sub = t@.subrange(lo as int, hi as int);
    let n = q.len();
    if n > hi - lo {
        return false;
    }
    let last = hi - n;
    let mut i: usize = lo;
    while i <= last
        invariant
            lo <= i <= last + 1,
            last + n == hi,
            hi <= t@.len(),
            n == q@.len(),
            sub == t@.subrange(lo as int, hi as int),
            forall|j: int| lo <= j < i ==> !occurs_at(t@, q@, j),
        decreases last + 1 - i,
    {
        let mut k: usize = 0;
        while k < n && t[i + k] == q[k]
            invariant
                k <= n,
                i + n <= hi,
                hi <= t@.len(),
                n == q@.len(),
                forall|kk: int| 0 <= kk < k ==> t@[i + kk] == #[trigger] q@[kk],
            decreases n - k,
        {
            k = k + 1;
        }
        if k == n {
            proof {
                let j = i - lo;
                assert(sub.subrange(j, j + n) =~= q@);
            }
            return true;
        }
        proof {
            assert(!occurs_at(t@, q@, i as int)) by {
                assert(t@[i + k] != q@[k as int]);
            }
        }
        i = i + 1;
    }
    proof {
        assert forall|j: int| 0 <= j && j + q@.len() <= sub.len() implies #[trigger] sub.subrange(
            j,
            j + q@.len(),
        ) != q@ by {
            assert(!occurs_at(t@, q@, lo + j));
            if sub.subrange(j, j + q@.len()) == q@ {
                assert forall|k: int| 0 <= k < q@.len() implies t@[lo + j + k] == #[trigger] q@[k] by {
                    assert(sub.subrange(j, j + q@.len())[k] == sub[j + k]);
                }
            }
        }
    }
    false
}

/// Whether `query` occurs in `line` as a contiguous run of characters.
pub fn line_contains(line: &str, query: &str) -> (r: bool)
    ensures
        r == has_substring(line@, query@),
{
    let t = chars_of(line);
    let q = chars_of(query);
    proof {
        assert(t@.subrange(0, t@.len() as int) =~= t@);
    }
    contains_in(&t, 0, t.len(), &q)
}

} // verus!
