//! Composition mathematics: comparing a reading against known mixtures
//! and assembling the data of the mixture-optimization problem.
//!
//! The linear-programming solver itself is an external collaborator; this
//! module prepares exactly what it consumes — the sorted component set,
//! the per-component coefficient rows, the right-hand sides and the
//! variable bounds — and the scalar comparisons around it.

use vstd::prelude::*;
use vstd::string::StringExecFns;
use crate::fixed::{SCALE, div_t, div_trunc};
use crate::refrigerant::{
    CONC_LIMIT, GCReading, RefrigerantMixture, RefrigerantName, components_wf, lookup,
};
use vstd::arithmetic::div_mod::{lemma_div_nonincreasing, lemma_div_pos_is_pos};

verus! {

/// Concentrations at or below this are "low", in micro-units (`0.05`).
pub const LOW_THRESHOLD: i64 = 50_000;

/// The concentration stored under a name, or zero if absent.
pub open spec fn lookup_or_zero(s: Seq<(RefrigerantName, i64)>, n: Seq<char>) -> int {
    match lookup(s, n) {
        Some(v) => v as int,
        None => 0,
    }
}

/// Whether the reading covers every component of the target mixture.
pub open spec fn spec_valid_comparison(observed: &GCReading, target: &RefrigerantMixture) -> bool {
    forall|i: int| 0 <= i < target.components@.len() ==> lookup(
        observed.components@,
        (#[trigger] target.components@[i]).0@,
    ) is Some
}

/// Checks that the observed component set covers the target's.
pub fn valid_comparison(observed: &GCReading, target: &RefrigerantMixture) -> (r: bool)
    ensures
        r == spec_valid_comparison(observed, target),
{
    let comps = target.components();
    let mut i: usize = 0;
    while i < comps.len()
        invariant
            comps@ == target.components@,
            i <= comps@.len(),
            forall|j: int| 0 <= j < i ==> lookup(observed.components@,
                (#[trigger] target.components@[j]).0@) is Some,
        decreases comps@.len() - i,
    {
        if observed.get_component(&comps[i].0).is_none() {
            return false;
        }
        i = i + 1;
    }
    true
}

/// The capped concentration ratio `min(obs / tgt, 1)`, in micro-units; a
/// zero target concentration counts as fully covered.
pub open spec fn ratio_q(obs: int, tgt: int) -> int {
    if tgt == 0 {
        SCALE as int
    } else {
        let q = div_t(obs * (SCALE as int), tgt);
        if q >= SCALE as int {
            SCALE as int
        } else {
            q
        }
    }
}

fn ratio(obs: i64, tgt: i64) -> (r: i64)
    requires
        0 <= obs <= CONC_LIMIT,
        0 <= tgt,
    ensures
        r as int == ratio_q(obs as int, tgt as int),
{
    if tgt == 0 {
        return SCALE;
    }
    proof {
        assert(0 <= (obs as int) * (SCALE as int) <= 1_000_000_000_000_000_000int)
            by (nonlinear_arith)
            requires 0 <= obs as int <= 1_000_000_000_000 && SCALE == 1_000_000;
        lemma_div_pos_is_pos((obs as int) * (SCALE as int), tgt as int);
        lemma_div_nonincreasing((obs as int) * (SCALE as int), tgt as int);
    }
    let q = div_trunc((obs as i128) * (SCALE as i128), tgt as i128);
    if q >= SCALE as i128 {
        SCALE
    } else {
        q as i64
    }
}

/// The weakest coverage ratio over the first `n` target components.
pub open spec fn spec_weakest(observed: &GCReading, comps: Seq<(RefrigerantName, i64)>, n: int) -> int
    recommends
        1 <= n <= comps.len(),
    decreases n,
{
    if n <= 1 {
        ratio_q(lookup_or_zero(observed.components@, comps[0].0@), comps[0].1 as int)
    } else {
        let prev = spec_weakest(observed, comps, n - 1);
        let cur = ratio_q(lookup_or_zero(observed.components@, comps[n - 1].0@), comps[n - 1].1 as int);
        if cur < prev {
            cur
        } else {
            prev
        }
    }
}

/// Concentrations found in a well-formed component list stay within
/// bounds.
pub proof fn lemma_lookup_wf(s: Seq<(RefrigerantName, i64)>, n: Seq<char>)
    requires
        components_wf(s),
    ensures
        0 <= lookup_or_zero(s, n) <= CONC_LIMIT as int,
    decreases s.len(),
{
    if s.len() > 0 {
        assert(components_wf(s.drop_first())) by {
            assert(forall|i: int| 0 <= i < s.len() - 1 ==> s.drop_first()[i] == s[i + 1]);
        }
        lemma_lookup_wf(s.drop_first(), n);
        assert(s[0] == s.first());
    }
}

/// Finds the farthest common component of the two mixtures: the smallest
/// capped concentration ratio over the target's components. The target
/// must have at least one component and be covered by the reading.
pub fn find_weakest_component(observed: &GCReading, target: &RefrigerantMixture) -> (r: i64)
    requires
        observed.wf(),
        target.wf(),
        target.components@.len() > 0,
        spec_valid_comparison(observed, target),
    ensures
        r as int == spec_weakest(observed, target.components@, target.components@.len() as int),
{
    let comps = target.components();
    let first_obs = match observed.get_component(&comps[0].0) {
        Some(v) => v,
        None => 0,
    };
    proof {
        lemma_lookup_wf(observed.components@, target.components@[0].0@);
    }
    let mut acc = ratio(first_obs, comps[0].1);
    let mut i: usize = 1;
    while i < comps.len()
        invariant
            observed.wf(),
            target.wf(),
            comps@ == target.components@,
            comps@.len() > 0,
            1 <= i <= comps@.len(),
            acc as int == spec_weakest(observed, target.components@, i as int),
        decreases comps@.len() - i,
    {
        let obs = match observed.get_component(&comps[i].0) {
            Some(v) => v,
            None => 0,
        };
        proof {
            lemma_lookup_wf(observed.components@, target.components@[i as int].0@);
        }
        let cur = ratio(obs, comps[i].1);
        if cur < acc {
            acc = cur;
        }
        i = i + 1;
    }
    acc
}

/// The measured concentration of the target within the reading: `None`
/// when the comparison is invalid, else the weakest coverage ratio.
pub fn find_concentration(observed: &GCReading, target: &RefrigerantMixture) -> (r: Option<i64>)
    requires
        observed.wf(),
        target.wf(),
        spec_valid_comparison(observed, target) ==> target.components@.len() > 0,
    ensures
        r is Some <==> spec_valid_comparison(observed, target),
        r matches Some(v) ==> v as int == spec_weakest(observed, target.components@,
            target.components@.len() as int),
{
    if !valid_comparison(observed, target) {
        return None;
    }
    Some(find_weakest_component(observed, target))
}

/// Whether a measured component is a low foreign component: at or below
/// the low threshold and absent from the target mixture.
pub open spec fn spec_is_low(name: Seq<char>, conc: int, target: &RefrigerantMixture) -> bool {
    conc <= LOW_THRESHOLD as int && lookup(target.components@, name) is None
}

/// The smallest low foreign concentration among the first `n` measured
/// components, if any.
pub open spec fn spec_max_low_upto(
    observed: &GCReading,
    target: &RefrigerantMixture,
    n: int,
) -> Option<int>
    decreases n,
{
    if n <= 0 {
        None
    } else {
        let prev = spec_max_low_upto(observed, target, n - 1);
        let c = observed.components@[n - 1];
        if spec_is_low(c.0@, c.1 as int, target) {
            match prev {
                None => Some(c.1 as int),
                Some(v) => if (c.1 as int) < v {
                    Some(c.1 as int)
                } else {
                    Some(v)
                },
            }
        } else {
            prev
        }
    }
}

/// The reading's low-component statistic: the smallest low foreign
/// concentration, or zero when there is none.
pub open spec fn spec_find_max_low(observed: &GCReading, target: &RefrigerantMixture) -> int {
    match spec_max_low_upto(observed, target, observed.components@.len() as int) {
        None => 0,
        Some(v) => v,
    }
}

/// Computes the low-component statistic of a reading against a target.
pub fn find_max_low(observed: &GCReading, target: &RefrigerantMixture) -> (r: i64)
    ensures
        r as int == spec_find_max_low(observed, target),
{
    let comps = observed.components();
    let mut acc: Option<i64> = None;
    let mut i: usize = 0;
    while i < comps.len()
        invariant
            comps@ == observed.components@,
            i <= comps@.len(),
            match (acc, spec_max_low_upto(observed, target, i as int)) {
                (Some(a), Some(s)) => a as int == s,
                (None, None) => true,
                _ => false,
            },
        decreases comps@.len() - i,
    {
        let conc = comps[i].1;
        if conc <= LOW_THRESHOLD && target.get_component(&comps[i].0).is_none() {
            proof {
                assert(spec_is_low(observed.components@[i as int].0@,
                    observed.components@[i as int].1 as int, target));
            }
            acc = match acc {
                None => Some(conc),
                Some(v) => if conc < v {
                    Some(conc)
                } else {
                    Some(v)
                },
            };
        } else {
            proof {
                assert(!spec_is_low(observed.components@[i as int].0@,
                    observed.components@[i as int].1 as int, target));
            }
        }
        i = i + 1;
    }
    match acc {
        None => 0,
        Some(v) => v,
    }
}

/// The mixture's concentration column over a key list: one entry per key,
/// zero where the mixture lacks the component.
pub fn vectorize(mix: &RefrigerantMixture, keys: &Vec<RefrigerantName>) -> (r: Vec<i64>)
    ensures
        r@.len() == keys@.len(),
        forall|i: int| 0 <= i < keys@.len() ==> #[trigger] r@[i] == lookup_or_zero(
            mix.components@,
            keys@[i]@,
        ),
{
    let mut out: Vec<i64> = Vec::new();
    let mut i: usize = 0;
    while i < keys.len()
        invariant
            i <= keys@.len(),
            out@.len() == i,
            forall|j: int| 0 <= j < i ==> #[trigger] out@[j] == lookup_or_zero(mix.components@,
                keys@[j]@),
        decreases keys@.len() - i,
    {
        let v = match mix.get_component(&keys[i]) {
            Some(c) => c,
            None => 0,
        };
        out.push(v);
        i = i + 1;
    }
    out
}

/// The UTF-8 encoding of a name, the order key of the component set.
pub open spec fn name_bytes(n: &RefrigerantName) -> Seq<u8> {
    vstd::utf8::encode_utf8(n@)
}

/// Strict lexicographic order on byte sequences, the order of the
/// component set.
pub open spec fn lex_lt(a: Seq<u8>, b: Seq<u8>) -> bool
    decreases a.len(),
{
    if b.len() == 0 {
        false
    } else if a.len() == 0 {
        true
    } else if a.first() != b.first() {
        a.first() < b.first()
    } else {
        lex_lt(a.drop_first(), b.drop_first())
    }
}

/// Lexicographic order is a strict total order: two sequences neither of
/// which precedes the other are equal.
pub proof fn lemma_lex_trichotomy(a: Seq<u8>, b: Seq<u8>)
    requires
        !lex_lt(a, b),
        !lex_lt(b, a),
    ensures
        a == b,
    decreases a.len(),
{
    if a.len() == 0 || b.len() == 0 {
        assert(a =~= b);
    } else {
        lemma_lex_trichotomy(a.drop_first(), b.drop_first());
        assert(a =~= seq![a.first()] + a.drop_first());
        assert(b =~= seq![b.first()] + b.drop_first());
        assert(a =~= b);
    }
}

/// Lexicographic order is transitive.
pub proof fn lemma_lex_trans(a: Seq<u8>, b: Seq<u8>, c: Seq<u8>)
    requires
        lex_lt(a, b),
        lex_lt(b, c),
    ensures
        lex_lt(a, c),
    decreases a.len(),
{
    if c.len() == 0 {
    } else if b.len() == 0 {
    } else if a.len() == 0 {
    } else {
        if a.first() == b.first() && b.first() == c.first() {
            lemma_lex_trans(a.drop_first(), b.drop_first(), c.drop_first());
        }
    }
}

/// Compares two names by their UTF-8 encodings: negative, zero or
/// positive as the first is below, equal to or above the second.
fn name_order(a: &RefrigerantName, b: &RefrigerantName) -> (r: i32)
    ensures
        r < 0 <==> lex_lt(name_bytes(a), name_bytes(b)),
        r == 0 <==> name_bytes(a) == name_bytes(b),
        r > 0 <==> lex_lt(name_bytes(b), name_bytes(a)),
{
    let ab = a.as_ref().as_str().as_bytes();
    let bb = b.as_ref().as_str().as_bytes();
    let mut i: usize = 0;
    proof {
        assert(ab@.skip(0) =~= ab@);
        assert(bb@.skip(0) =~= bb@);
    }
    while i < ab.len() && i < bb.len()
        invariant
            ab@ == name_bytes(a),
            bb@ == name_bytes(b),
            i <= ab@.len(),
            i <= bb@.len(),
            lex_lt(ab@, bb@) == lex_lt(ab@.skip(i as int), bb@.skip(i as int)),
            lex_lt(bb@, ab@) == lex_lt(bb@.skip(i as int), ab@.skip(i as int)),
            (ab@ == bb@) == (ab@.skip(i as int) == bb@.skip(i as int)),
        decreases ab@.len() - i,
    {
        let x = ab[i];
        let y = bb[i];
        proof {
            assert(ab@.skip(i as int).first() == ab@[i as int]);
            assert(bb@.skip(i as int).first() == bb@[i as int]);
            assert(ab@.skip(i as int).drop_first() =~= ab@.skip(i + 1));
            assert(bb@.skip(i as int).drop_first() =~= bb@.skip(i + 1));
            assert(ab@.take(i + 1) =~= ab@.take(i as int).push(ab@[i as int]));
            assert(bb@.take(i + 1) =~= bb@.take(i as int).push(bb@[i as int]));
        }
        if x < y {
            proof {
                assert(lex_lt(ab@.skip(i as int), bb@.skip(i as int)));
                assert(!lex_lt(bb@.skip(i as int), ab@.skip(i as int)));
                assert(ab@.skip(i as int)[0] != bb@.skip(i as int)[0]);
                assert(!(ab@ == bb@)) by {
                    if ab@ == bb@ {
                        assert(ab@[i as int] == bb@[i as int]);
                    }
                }
            }
            return -1;
        }
        if x > y {
            proof {
                assert(lex_lt(bb@.skip(i as int), ab@.skip(i as int)));
                assert(!lex_lt(ab@.skip(i as int), bb@.skip(i as int)));
                assert(!(ab@ == bb@)) by {
                    if ab@ == bb@ {
                        assert(ab@[i as int] == bb@[i as int]);
                    }
                }
            }
            return 1;
        }
        proof {
            assert((ab@.skip(i as int) == bb@.skip(i as int)) == (ab@.skip(i + 1) == bb@.skip(
                i + 1))) by {
                if ab@.skip(i + 1) == bb@.skip(i + 1) {
                    assert(ab@.skip(i as int).len() == bb@.skip(i as int).len());
                    assert(ab@.skip(i as int)[0] == bb@.skip(i as int)[0]);
                    assert forall|k: int| 1 <= k < ab@.skip(i as int).len() implies ab@.skip(
                        i as int,
                    )[k] == bb@.skip(i as int)[k] by {
                        assert(ab@.skip(i as int)[k] == ab@[i + k]);
                        assert(ab@.skip(i + 1)[k - 1] == ab@[i + k]);
                        assert(bb@.skip(i as int)[k] == bb@[i + k]);
                        assert(bb@.skip(i + 1)[k - 1] == bb@[i + k]);
                    }
                    assert(ab@.skip(i as int) =~= bb@.skip(i as int));
                }
                if ab@.skip(i as int) == bb@.skip(i as int) {
                    assert(ab@.skip(i + 1) =~= bb@.skip(i + 1));
                }
            }
        }
        i = i + 1;
    }
    if ab.len() < bb.len() {
        proof {
            assert(ab@.skip(i as int).len() == 0);
            assert(bb@.skip(i as int).len() > 0);
            assert(lex_lt(ab@.skip(i as int), bb@.skip(i as int)));
        }
        -1
    } else if ab.len() > bb.len() {
        proof {
            assert(bb@.skip(i as int).len() == 0);
            assert(ab@.skip(i as int).len() > 0);
            assert(lex_lt(bb@.skip(i as int), ab@.skip(i as int)));
        }
        1
    } else {
        proof {
            assert(ab@.skip(i as int).len() == 0);
            assert(bb@.skip(i as int).len() == 0);
            assert(ab@.skip(i as int) =~= bb@.skip(i as int));
            assert(!lex_lt(ab@.skip(i as int), bb@.skip(i as int)));
            assert(!lex_lt(bb@.skip(i as int), ab@.skip(i as int)));
        }
        0
    }
}

/// Whether some target mixture measures a component whose name encodes to
/// the given bytes.
pub open spec fn union_has(ts: Seq<(&RefrigerantMixture, i64)>, b: Seq<u8>) -> bool {
    exists|t: int, j: int|
        #![trigger ts[t].0.components@[j]]
        0 <= t < ts.len() && 0 <= j < ts[t].0.components@.len() && name_bytes(
            &ts[t].0.components@[j].0,
        ) == b
}

/// Whether the list holds a name with the given UTF-8 encoding.
pub open spec fn bytes_present(s: Seq<RefrigerantName>, b: Seq<u8>) -> bool {
    exists|q: int| 0 <= q < s.len() && name_bytes(&(#[trigger] s[q])) == b
}

/// Strictly sorted by the lexicographic byte order.
pub open spec fn sorted_strict(s: Seq<RefrigerantName>) -> bool {
    forall|i: int, j: int| 0 <= i < j < s.len() ==> lex_lt(
        name_bytes(&#[trigger] s[i]),
        name_bytes(&#[trigger] s[j]),
    )
}

/// Inserts a name into a sorted list, keeping it sorted and skipping an
/// exact duplicate.
fn sorted_insert(out: &mut Vec<RefrigerantName>, name: &RefrigerantName)
    requires
        sorted_strict(old(out)@),
    ensures
        sorted_strict(final(out)@),
        forall|q: int| 0 <= q < final(out)@.len() ==> name_bytes(&(#[trigger] final(out)@[q]))
            == name_bytes(name) || bytes_present(old(out)@, name_bytes(&final(out)@[q])),
        forall|p: int| 0 <= p < old(out)@.len() ==> bytes_present(final(out)@, name_bytes(
            &(#[trigger] old(out)@[p]))),
        bytes_present(final(out)@, name_bytes(name)),
{
    let ghost out0 = out@;
    let mut p: usize = 0;
    while p < out.len() && name_order(&out[p], name) < 0
        invariant
            out@ == out0,
            sorted_strict(out@),
            p <= out@.len(),
            forall|q: int| 0 <= q < p ==> lex_lt(name_bytes(&#[trigger] out@[q]), name_bytes(name)),
        decreases out@.len() - p,
    {
        p = p + 1;
    }
    if p < out.len() && name_order(&out[p], name) == 0 {
        proof {
            assert(name_bytes(&out@[p as int]) == name_bytes(name));
            assert forall|q: int| 0 <= q < out@.len() implies bytes_present(out0, name_bytes(
                &(#[trigger] out@[q]))) by {
                assert(0 <= q < out0.len() && name_bytes(&out0[q]) == name_bytes(&out@[q]));
            }
            assert(bytes_present(out@, name_bytes(name))) by {
                assert(0 <= p < out@.len() && name_bytes(&out@[p as int]) == name_bytes(name));
            }
        }
        return;
    }
    proof {
        if p < out@.len() {
            assert(!lex_lt(name_bytes(&out@[p as int]), name_bytes(name)));
            assert(name_bytes(&out@[p as int]) != name_bytes(name));
            lemma_lex_trichotomy_or(name_bytes(name), name_bytes(&out@[p as int]));
        }
    }
    let copy = name.duplicate();
    out.insert(p, copy);
    proof {
        let newv = out@;
        assert(newv =~= out0.insert(p as int, copy));
        assert(newv[p as int]@ == name@);
        assert(name_bytes(&newv[p as int]) == name_bytes(name));
        assert forall|i: int, j: int| 0 <= i < j < newv.len() implies lex_lt(
            name_bytes(&#[trigger] newv[i]),
            name_bytes(&#[trigger] newv[j]),
        ) by {
            if i < p && j == p {
                assert(newv[i] == out0[i]);
            } else if i == p && j > p {
                assert(newv[j] == out0[j - 1]);
                assert(j - 1 >= p);
                if j - 1 == p {
                    assert(lex_lt(name_bytes(name), name_bytes(&out0[p as int])));
                } else {
                    assert(lex_lt(name_bytes(name), name_bytes(&out0[p as int])));
                    assert(lex_lt(name_bytes(&out0[p as int]), name_bytes(&out0[j - 1])));
                    lemma_lex_trans(name_bytes(name), name_bytes(&out0[p as int]),
                        name_bytes(&out0[j - 1]));
                }
            } else if i < p && j > p {
                assert(newv[i] == out0[i]);
                assert(newv[j] == out0[j - 1]);
            } else if j < p {
                assert(newv[i] == out0[i] && newv[j] == out0[j]);
            } else if i > p {
                assert(newv[i] == out0[i - 1] && newv[j] == out0[j - 1]);
            }
        }
        assert forall|q: int| 0 <= q < newv.len() implies name_bytes(&(#[trigger] newv[q]))
            == name_bytes(name) || bytes_present(out0, name_bytes(&newv[q])) by {
            if q < p {
                assert(newv[q] == out0[q]);
                assert(0 <= q < out0.len() && name_bytes(&out0[q]) == name_bytes(&newv[q]));
            } else if q > p {
                assert(newv[q] == out0[q - 1]);
                assert(0 <= q - 1 < out0.len() && name_bytes(&out0[q - 1]) == name_bytes(
                    &newv[q]));
            }
        }
        assert forall|pp: int| 0 <= pp < out0.len() implies bytes_present(newv, name_bytes(
            &(#[trigger] out0[pp]))) by {
            if pp < p {
                assert(0 <= pp < newv.len() && name_bytes(&newv[pp]) == name_bytes(&out0[pp]));
            } else {
                assert(0 <= pp + 1 < newv.len() && name_bytes(&newv[pp + 1]) == name_bytes(
                    &out0[pp]));
            }
        }
        assert(bytes_present(newv, name_bytes(name))) by {
            assert(0 <= p < newv.len() && name_bytes(&newv[p as int]) == name_bytes(name));
        }
    }
}

/// When neither order holds between distinct byte strings, the first
/// precedes the second or follows it; with inequality this pins the
/// direction.
proof fn lemma_lex_trichotomy_or(a: Seq<u8>, b: Seq<u8>)
    requires
        a != b,
        !lex_lt(b, a),
    ensures
        lex_lt(a, b),
{
    if !lex_lt(a, b) {
        lemma_lex_trichotomy(a, b);
    }
}

/// The union of the targets' component names, each name once, sorted by
/// the lexicographic byte order of the normalized spelling.
pub fn generate_component_set<'a>(targets: &Vec<(&'a RefrigerantMixture, i64)>) -> (r: Vec<
    RefrigerantName,
>)
    ensures
        sorted_strict(r@),
        forall|q: int| 0 <= q < r@.len() ==> union_has(targets@, name_bytes(&(#[trigger] r@[q]))),
        forall|t: int, j: int|
            #![trigger targets@[t].0.components@[j]]
            0 <= t < targets@.len() && 0 <= j < targets@[t].0.components@.len() ==> bytes_present(
                r@,
                name_bytes(&targets@[t].0.components@[j].0),
            ),
{
    let mut out: Vec<RefrigerantName> = Vec::new();
    let mut t: usize = 0;
    while t < targets.len()
        invariant
            t <= targets@.len(),
            sorted_strict(out@),
            forall|q: int| 0 <= q < out@.len() ==> union_has(targets@, name_bytes(
                &(#[trigger] out@[q]))),
            forall|tt: int, j: int|
                #![trigger targets@[tt].0.components@[j]]
                0 <= tt < t && 0 <= j < targets@[tt].0.components@.len() ==> bytes_present(
                    out@,
                    name_bytes(&targets@[tt].0.components@[j].0),
                ),
        decreases targets@.len() - t,
    {
        let comps = targets[t].0.components();
        let mut j: usize = 0;
        while j < comps.len()
            invariant
                t < targets@.len(),
                comps@ == targets@[t as int].0.components@,
                j <= comps@.len(),
                sorted_strict(out@),
                forall|q: int| 0 <= q < out@.len() ==> union_has(targets@, name_bytes(
                    &(#[trigger] out@[q]))),
                forall|tt: int, jj: int|
                    #![trigger targets@[tt].0.components@[jj]]
                    0 <= tt < t && 0 <= jj < targets@[tt].0.components@.len() ==> bytes_present(
                        out@,
                        name_bytes(&targets@[tt].0.components@[jj].0),
                    ),
                forall|jj: int| 0 <= jj < j ==> bytes_present(out@, name_bytes(
                    &(#[trigger] targets@[t as int].0.components@[jj]).0)),
            decreases comps@.len() - j,
        {
            let ghost out_before = out@;
            sorted_insert(&mut out, &comps[j].0);
            proof {
                assert(union_has(targets@, name_bytes(&targets@[t as int].0.components@[
                j as int].0))) by {
                    assert(0 <= t < targets@.len() && 0 <= j < targets@[
                    t as int].0.components@.len());
                }
                assert forall|q: int| 0 <= q < out@.len() implies union_has(targets@, name_bytes(
                    &(#[trigger] out@[q]))) by {
                    if name_bytes(&out@[q]) == name_bytes(&comps@[j as int].0) {
                    } else {
                        assert(bytes_present(out_before, name_bytes(&out@[q])));
                        let p = choose|p: int|
                            0 <= p < out_before.len() && name_bytes(&(out_before[p]))
                                == name_bytes(&out@[q]);
                        assert(union_has(targets@, name_bytes(&out_before[p])));
                    }
                }
                assert forall|tt: int, jj: int|
                    #![trigger targets@[tt].0.components@[jj]]
                    0 <= tt < t && 0 <= jj < targets@[tt].0.components@.len() implies
                    bytes_present(out@, name_bytes(&targets@[tt].0.components@[jj].0)) by {
                    assert(bytes_present(out_before, name_bytes(&targets@[
                    tt].0.components@[jj].0)));
                    let p = choose|p: int|
                        0 <= p < out_before.len() && name_bytes(&(out_before[p])) == name_bytes(
                            &targets@[tt].0.components@[jj].0,
                        );
                    assert(bytes_present(out@, name_bytes(&out_before[p])));
                }
                assert forall|jj: int| 0 <= jj < j + 1 implies bytes_present(out@, name_bytes(
                    &(#[trigger] targets@[t as int].0.components@[jj]).0)) by {
                    if jj < j {
                        assert(bytes_present(out_before, name_bytes(&targets@[
                        t as int].0.components@[jj].0)));
                        let p = choose|p: int|
                            0 <= p < out_before.len() && name_bytes(&(out_before[p]))
                                == name_bytes(&targets@[t as int].0.components@[jj].0);
                        assert(bytes_present(out@, name_bytes(&out_before[p])));
                    } else {
                        assert(bytes_present(out@, name_bytes(&comps@[j as int].0)));
                    }
                }
            }
            j = j + 1;
        }
        t = t + 1;
    }
    out
}

/// Why an optimization request cannot be served.
#[derive(Debug, Clone, Copy, PartialEq, Eq, Structural)]
pub enum OptimizeError {
    /// The requested refrigerant is not part of the problem.
    RefrigerantNotInProblem,
}

impl OptimizeError {
    /// The error's message.
    pub fn message(&self) -> (r: String)
        ensures
            r@ == "Requested max refrigerant is not a part of the optimization problem."@,
    {
        String::from_str("Requested max refrigerant is not a part of the optimization problem.")
    }
}

/// The data of the mixture-composition linear program, ready for the
/// external solver: one variable per candidate mixture, bounded below by
/// its given minimum and above by one; per measured component one
/// constraint row of the mixtures' concentrations, bounded by the
/// reading's own concentration of that component.
pub struct MixtureOptimization {
    /// The sorted union of the mixtures' component names.
    pub components: Vec<RefrigerantName>,
    /// Row `i`: concentration of component `i` in each mixture.
    pub coefficients: Vec<Vec<i64>>,
    /// Right-hand side of row `i`: the reading's concentration of
    /// component `i`, or zero.
    pub rhs: Vec<i64>,
    /// Lower bound of each mixture variable.
    pub variable_mins: Vec<i64>,
    /// Identifier of each mixture, in variable order.
    pub identifiers: Vec<RefrigerantName>,
}

impl MixtureOptimization {
    /// Assembles the optimization problem for a reading over candidate
    /// mixtures with their minimum usages.
    pub fn new<'a>(reading: &GCReading, mixtures: Vec<(&'a RefrigerantMixture, i64)>) -> (r:
        MixtureOptimization)
        ensures
            sorted_strict(r.components@),
            forall|q: int| 0 <= q < r.components@.len() ==> union_has(mixtures@, name_bytes(
                &(#[trigger] r.components@[q]))),
            forall|t: int, j: int|
                #![trigger mixtures@[t].0.components@[j]]
                0 <= t < mixtures@.len() && 0 <= j < mixtures@[t].0.components@.len()
                    ==> bytes_present(r.components@, name_bytes(
                    &mixtures@[t].0.components@[j].0,
                )),
            r.coefficients@.len() == r.components@.len(),
            forall|i: int| 0 <= i < r.coefficients@.len() ==> (#[trigger] r.coefficients@[
            i])@.len() == mixtures@.len(),
            forall|i: int, j: int|
                #![trigger r.coefficients@[i]@[j]]
                0 <= i < r.coefficients@.len() && 0 <= j < mixtures@.len()
                    ==> r.coefficients@[i]@[j] == lookup_or_zero(
                    mixtures@[j].0.components@,
                    r.components@[i]@,
                ),
            r.rhs@.len() == r.components@.len(),
            forall|i: int| 0 <= i < r.rhs@.len() ==> #[trigger] r.rhs@[i] == lookup_or_zero(
                reading.components@,
                r.components@[i]@,
            ),
            r.variable_mins@.len() == mixtures@.len(),
            forall|j: int| 0 <= j < mixtures@.len() ==> #[trigger] r.variable_mins@[j]
                == mixtures@[j].1,
            r.identifiers@.len() == mixtures@.len(),
            forall|j: int| 0 <= j < mixtures@.len() ==> (#[trigger] r.identifiers@[j])@
                == mixtures@[j].0.identifier@,
    {
        let components = generate_component_set(&mixtures);
        let mut coefficients: Vec<Vec<i64>> = Vec::new();
        let mut rhs: Vec<i64> = Vec::new();
        let mut i: usize = 0;
        while i < components.len()
            invariant
                i <= components@.len(),
                coefficients@.len() == i,
                rhs@.len() == i,
                forall|ii: int| 0 <= ii < i ==> (#[trigger] coefficients@[ii])@.len()
                    == mixtures@.len(),
                forall|ii: int, j: int|
                    #![trigger coefficients@[ii]@[j]]
                    0 <= ii < i && 0 <= j < mixtures@.len() ==> coefficients@[ii]@[j]
                        == lookup_or_zero(mixtures@[j].0.components@, components@[ii]@),
                forall|ii: int| 0 <= ii < i ==> #[trigger] rhs@[ii] == lookup_or_zero(
                    reading.components@,
                    components@[ii]@,
                ),
            decreases components@.len() - i,
        {
            let mut row: Vec<i64> = Vec::new();
            let mut j: usize = 0;
            while j < mixtures.len()
                invariant
                    i < components@.len(),
                    j <= mixtures@.len(),
                    row@.len() == j,
                    forall|jj: int| 0 <= jj < j ==> #[trigger] row@[jj] == lookup_or_zero(
                        mixtures@[jj].0.components@,
                        components@[i as int]@,
                    ),
                decreases mixtures@.len() - j,
            {
                let v = match mixtures[j].0.get_component(&components[i]) {
                    Some(c) => c,
                    None => 0,
                };
                row.push(v);
                j = j + 1;
            }
            coefficients.push(row);
            let rv = match reading.get_component(&components[i]) {
                Some(c) => c,
                None => 0,
            };
            rhs.push(rv);
            i = i + 1;
        }
        let mut variable_mins: Vec<i64> = Vec::new();
        let mut identifiers: Vec<RefrigerantName> = Vec::new();
        let mut j2: usize = 0;
        while j2 < mixtures.len()
            invariant
                j2 <= mixtures@.len(),
                variable_mins@.len() == j2,
                identifiers@.len() == j2,
                forall|j: int| 0 <= j < j2 ==> #[trigger] variable_mins@[j] == mixtures@[j].1,
                forall|j: int| 0 <= j < j2 ==> (#[trigger] identifiers@[j])@ == mixtures@[
                j].0.identifier@,
            decreases mixtures@.len() - j2,
        {
            variable_mins.push(mixtures[j2].1);
            identifiers.push(mixtures[j2].0.identifier().duplicate());
            j2 = j2 + 1;
        }
        MixtureOptimization { components, coefficients, rhs, variable_mins, identifiers }
    }

    /// The variable index of the mixture with the given identifier, for
    /// an objective that additionally favours it; an identifier outside
    /// the problem is an error.
    pub fn max_refrigerant_index(&self, name: &RefrigerantName) -> (r: Result<usize, OptimizeError>)
        ensures
            r matches Ok(j) ==> j < self.identifiers@.len() && self.identifiers@[j as int]@
                == name@ && forall|k: int| 0 <= k < j ==> (#[trigger] self.identifiers@[k])@
                != name@,
            r is Err <==> forall|k: int| 0 <= k < self.identifiers@.len()
                ==> (#[trigger] self.identifiers@[k])@ != name@,
            r is Err ==> r == Err::<usize, OptimizeError>(OptimizeError::RefrigerantNotInProblem),
    {
        let mut j: usize = 0;
        while j < self.identifiers.len()
            invariant
                j <= self.identifiers@.len(),
                forall|k: int| 0 <= k < j ==> (#[trigger] self.identifiers@[k])@ != name@,
            decreases self.identifiers@.len() - j,
        {
            if self.identifiers[j].same_as(name) {
                return Ok(j);
            }
            j = j + 1;
        }
        Err(OptimizeError::RefrigerantNotInProblem)
    }
}

} // verus!
