//! Local extrema finder: significant local minima of a convolution
//! response.
//!
//! A response index is reported when its value is strictly below both of
//! its neighbours and at or below the (non-positive) noise threshold. The
//! first and last index have only one neighbour and are never reported.

use vstd::prelude::*;

verus! {

/// Whether index `i` of `s` is a reported local minimum for threshold `t`.
pub open spec fn is_minimum(s: Seq<int>, t: int, i: int) -> bool {
    &&& 0 < i
    &&& i + 1 < s.len()
    &&& s[i] < s[i - 1]
    &&& s[i] < s[i + 1]
    &&& s[i] <= t
}

/// The `(index, value)` pairs of all reported minima among indices below
/// `n`, in increasing index order.
pub open spec fn minima_upto(s: Seq<int>, t: int, n: int) -> Seq<(int, int)>
    decreases n,
{
    if n <= 1 {
        Seq::empty()
    } else if is_minimum(s, t, n - 1) {
        minima_upto(s, t, n - 1).push((n - 1, s[n - 1]))
    } else {
        minima_upto(s, t, n - 1)
    }
}

/// All reported minima of `s` for threshold `t`.
pub open spec fn minima_spec(s: Seq<int>, t: int) -> Seq<(int, int)> {
    minima_upto(s, t, s.len() as int)
}

/// Every reported pair is a genuine minimum carrying the response value at
/// its index; in particular every reported value is at most `t`.
pub proof fn lemma_minima_chars(s: Seq<int>, t: int, n: int)
    requires
        n <= s.len(),
    ensures
        forall|j: int| 0 <= j < minima_upto(s, t, n).len() ==> {
            let p = #[trigger] minima_upto(s, t, n)[j];
            is_minimum(s, t, p.0) && p.1 == s[p.0] && p.0 < n
        },
    decreases n,
{
    if n > 1 {
        lemma_minima_chars(s, t, n - 1);
        let prev = minima_upto(s, t, n - 1);
        let cur = minima_upto(s, t, n);
        if is_minimum(s, t, n - 1) {
            assert(cur == prev.push((n - 1, s[n - 1])));
            assert forall|j: int| 0 <= j < cur.len() implies {
                let p = #[trigger] cur[j];
                is_minimum(s, t, p.0) && p.1 == s[p.0] && p.0 < n
            } by {
                if j < prev.len() {
                    assert(cur[j] == prev[j]);
                } else {
                    assert(cur[j] == (n - 1, s[n - 1]));
                }
            }
        } else {
            assert(cur == prev);
        }
    }
}

/// Scans consecutive triples of the response and reports each qualifying
/// minimum, exactly `minima_spec`.
pub fn find_minima(data: &Vec<i64>, threshold: i64) -> (r: Vec<(usize, i64)>)
    ensures
        r@.map_values(|p: (usize, i64)| (p.0 as int, p.1 as int)) == minima_spec(
            data@.map_values(|v: i64| v as int),
            threshold as int,
        ),
        forall|j: int| 0 <= j < r@.len() ==> {
            let p = #[trigger] r@[j];
            &&& 0 < p.0
            &&& p.0 + 1 < data.len()
            &&& p.1 == data@[p.0 as int]
            &&& p.1 <= threshold
        },
{
    let ghost dv = data@.map_values(|v: i64| v as int);
    let mut out: Vec<(usize, i64)> = Vec::new();
    if data.len() < 3 {
        proof {
            lemma_minima_chars(dv, threshold as int, dv.len() as int);
            let ms = minima_spec(dv, threshold as int);
            assert(ms.len() == 0) by {
                if ms.len() > 0 {
                    let p = ms[0];
                    assert(is_minimum(dv, threshold as int, p.0));
                }
            }
            assert(ms =~= Seq::<(int, int)>::empty());
            assert(out@.map_values(|p: (usize, i64)| (p.0 as int, p.1 as int))
                =~= Seq::<(int, int)>::empty());
        }
        return out;
    }
    let mut m: usize = 1;
    while m < data.len() - 1
        invariant
            dv == data@.map_values(|v: i64| v as int),
            data.len() >= 3,
            1 <= m <= data.len() - 1,
            out@.map_values(|p: (usize, i64)| (p.0 as int, p.1 as int)) == minima_upto(
                dv,
                threshold as int,
                m as int,
            ),
            forall|j: int| 0 <= j < out@.len() ==> {
                let p = #[trigger] out@[j];
                &&& 0 < p.0
                &&& p.0 + 1 < data.len()
                &&& p.1 == data@[p.0 as int]
                &&& p.1 <= threshold
            },
        decreases data.len() - m,
    {
        let l = data[m - 1];
        let mid = data[m];
        let rgt = data[m + 1];
        if mid < l && mid < rgt && mid <= threshold {
            proof {
                assert(is_minimum(dv, threshold as int, m as int));
                let m0 = out@.map_values(|p: (usize, i64)| (p.0 as int, p.1 as int));
                let m1 = out@.push((m, mid)).map_values(|p: (usize, i64)| (p.0 as int, p.1 as int));
                assert(m1 =~= m0.push((m as int, mid as int)));
            }
            out.push((m, mid));
        } else {
            proof {
                assert(!is_minimum(dv, threshold as int, m as int));
            }
        }
        m = m + 1;
    }
    proof {
        assert(minima_upto(dv, threshold as int, dv.len() as int) == minima_upto(
            dv,
            threshold as int,
            dv.len() - 1,
        )) by {
            assert(!is_minimum(dv, threshold as int, dv.len() - 1));
        }
    }
    out
}

} // verus!
