//! When do two byte paths name the same object?
//!
//! Exact byte equality is too fine: `a//b` and `a/b/` both name `a/b`.
//! The right notion is agreement on absoluteness and on the sequence of
//! separator-delimited components, which is how the platform itself
//! compares paths.

use vstd::prelude::*;

use crate::model::SEP;
use crate::model::is_absolute;
use crate::model::lemma_vec_paths_view;

verus! {

/// One step of the component scanner.  A separator closes the component
/// being read; any other byte extends it, opening a fresh one when none is
/// open.  The state holds the components read so far and whether the last
/// one is still being read.
pub open spec fn comp_step(st: (Seq<Seq<u8>>, bool), b: u8) -> (Seq<Seq<u8>>, bool) {
    if b == SEP {
        (st.0, false)
    } else if st.1 {
        (st.0.drop_last().push(st.0.last().push(b)), true)
    } else {
        (st.0.push(seq![b]), true)
    }
}

/// The component scanner run over a byte sequence, left to right.
pub open spec fn comp_run(st: (Seq<Seq<u8>>, bool), s: Seq<u8>) -> (Seq<Seq<u8>>, bool)
    decreases s.len(),
{
    if s.len() == 0 {
        st
    } else {
        comp_step(comp_run(st, s.drop_last()), s.last())
    }
}

/// The components of a path: its maximal non-empty separator-free runs.
pub open spec fn components(s: Seq<u8>) -> Seq<Seq<u8>> {
    comp_run((Seq::<Seq<u8>>::empty(), false), s).0
}

/// Two paths are equivalent when they agree on absoluteness and on their
/// components; repeated and trailing separators make no difference.
pub open spec fn path_equiv(a: Seq<u8>, b: Seq<u8>) -> bool {
    is_absolute(a) == is_absolute(b) && components(a) == components(b)
}

/// Scanning a concatenation is scanning the halves in turn.
pub proof fn lemma_comp_run_add(st: (Seq<Seq<u8>>, bool), a: Seq<u8>, b: Seq<u8>)
    ensures
        comp_run(st, a + b) == comp_run(comp_run(st, a), b),
    decreases b.len(),
{
    if b.len() == 0 {
        assert(a + b =~= a);
    } else {
        assert((a + b).drop_last() =~= a + b.drop_last());
        assert((a + b).last() == b.last());
        lemma_comp_run_add(st, a, b.drop_last());
    }
}

/// While a component is open the component list cannot be empty.
pub proof fn lemma_comp_run_open_nonempty(st: (Seq<Seq<u8>>, bool), s: Seq<u8>)
    requires
        st.1 ==> st.0.len() > 0,
    ensures
        comp_run(st, s).1 ==> comp_run(st, s).0.len() > 0,
    decreases s.len(),
{
    if s.len() > 0 {
        lemma_comp_run_open_nonempty(st, s.drop_last());
    }
}

/// Components already closed are carried through a scan untouched.
pub proof fn lemma_comp_run_closed_prefix(cs: Seq<Seq<u8>>, s: Seq<u8>)
    ensures
        comp_run((cs, false), s).0 == cs + components(s),
        comp_run((cs, false), s).1 == comp_run((Seq::<Seq<u8>>::empty(), false), s).1,
    decreases s.len(),
{
    let init = (Seq::<Seq<u8>>::empty(), false);
    if s.len() == 0 {
        assert(cs + components(s) =~= cs);
    } else {
        lemma_comp_run_closed_prefix(cs, s.drop_last());
        lemma_comp_run_open_nonempty(init, s.drop_last());
        let st1 = comp_run((cs, false), s.drop_last());
        let st0 = comp_run(init, s.drop_last());
        let b = s.last();
        if b == SEP {
        } else if st0.1 {
            assert(st1.0.drop_last() =~= cs + st0.0.drop_last());
            assert(st1.0.last() == st0.0.last());
            assert(st1.0.drop_last().push(st1.0.last().push(b)) =~= cs + st0.0.drop_last().push(
                st0.0.last().push(b),
            ));
        } else {
            assert(st1.0.push(seq![b]) =~= cs + st0.0.push(seq![b]));
        }
    }
}

/// An explicit separator splits the component list cleanly in two.
pub proof fn lemma_components_sep(a: Seq<u8>, b: Seq<u8>)
    ensures
        components(a + seq![SEP] + b) == components(a) + components(b),
{
    let init = (Seq::<Seq<u8>>::empty(), false);
    lemma_comp_run_add(init, a + seq![SEP], b);
    assert((a + seq![SEP]).drop_last() =~= a);
    assert((a + seq![SEP]).last() == SEP);
    assert(comp_run(init, a + seq![SEP]) == (components(a), false));
    lemma_comp_run_closed_prefix(components(a), b);
}

/// A left half that already ends in a separator splits the same way.
pub proof fn lemma_components_trailing_sep(a: Seq<u8>, b: Seq<u8>)
    requires
        a.len() > 0,
        a.last() == SEP,
    ensures
        components(a + b) == components(a) + components(b),
{
    let init = (Seq::<Seq<u8>>::empty(), false);
    lemma_comp_run_add(init, a, b);
    assert(comp_run(init, a) == (components(a), false));
    lemma_comp_run_closed_prefix(components(a), b);
}

/// Computes the components of a path, in order.
pub fn components_of(s: &[u8]) -> (r: Vec<Vec<u8>>)
    ensures
        r.deep_view() == components(s@),
{
    let ghost init = (Seq::<Seq<u8>>::empty(), false);
    let mut comps: Vec<Vec<u8>> = Vec::new();
    let mut in_comp: bool = false;
    let mut i: usize = 0;
    proof {
        assert(s@.take(0) =~= Seq::<u8>::empty());
        lemma_vec_paths_view(&comps);
        assert(comps.deep_view() =~= Seq::<Seq<u8>>::empty());
    }
    while i < s.len()
        invariant
            init == (Seq::<Seq<u8>>::empty(), false),
            i <= s@.len(),
            comps.deep_view() == comp_run(init, s@.take(i as int)).0,
            in_comp == comp_run(init, s@.take(i as int)).1,
            in_comp ==> comps@.len() > 0,
        decreases s@.len() - i,
    {
        let ghost pre = comps.deep_view();
        let b = s[i];
        proof {
            assert(s@.take(i as int + 1).drop_last() =~= s@.take(i as int));
            assert(s@.take(i as int + 1).last() == s@[i as int]);
            lemma_comp_run_open_nonempty(init, s@.take(i as int));
            lemma_vec_paths_view(&comps);
        }
        if b == SEP {
            in_comp = false;
        } else if in_comp {
            let mut c = comps.pop().unwrap();
            c.push(b);
            comps.push(c);
            proof {
                lemma_vec_paths_view(&comps);
                assert(comps.deep_view() =~= pre.drop_last().push(pre.last().push(s@[i as int])));
            }
        } else {
            let mut c: Vec<u8> = Vec::new();
            c.push(b);
            comps.push(c);
            in_comp = true;
            proof {
                lemma_vec_paths_view(&comps);
                assert(c@ =~= seq![s@[i as int]]);
                assert(comps.deep_view() =~= pre.push(seq![s@[i as int]]));
            }
        }
        i += 1;
    }
    proof {
        assert(s@.take(s@.len() as int) =~= s@);
    }
    comps
}

/// Byte-for-byte equality of two slices.
fn bytes_eq(a: &[u8], b: &[u8]) -> (r: bool)
    ensures
        r == (a@ == b@),
{
    if a.len() != b.len() {
        return false;
    }
    let mut i: usize = 0;
    while i < a.len()
        invariant
            i <= a@.len(),
            a@.len() == b@.len(),
            forall|j: int| 0 <= j < i ==> a@[j] == b@[j],
        decreases a@.len() - i,
    {
        if a[i] != b[i] {
            return false;
        }
        i += 1;
    }
    proof {
        assert(a@ =~= b@);
    }
    true
}

/// Decides path equivalence: same absoluteness and the same components.
pub fn paths_equivalent(a: &[u8], b: &[u8]) -> (r: bool)
    ensures
        r == path_equiv(a@, b@),
{
    let abs_a = a.len() > 0 && a[0] == SEP;
    let abs_b = b.len() > 0 && b[0] == SEP;
    if abs_a != abs_b {
        return false;
    }
    let ca = components_of(a);
    let cb = components_of(b);
    proof {
        lemma_vec_paths_view(&ca);
        lemma_vec_paths_view(&cb);
    }
    if ca.len() != cb.len() {
        return false;
    }
    let mut i: usize = 0;
    while i < ca.len()
        invariant
            i <= ca@.len(),
            ca@.len() == cb@.len(),
            ca.deep_view() == components(a@),
            cb.deep_view() == components(b@),
            ca.deep_view().len() == ca@.len(),
            cb.deep_view().len() == cb@.len(),
            forall|t: int| 0 <= t < ca@.len() ==> ca.deep_view()[t] == (#[trigger] ca@[t])@,
            forall|t: int| 0 <= t < cb@.len() ==> cb.deep_view()[t] == (#[trigger] cb@[t])@,
            forall|j: int| 0 <= j < i ==> ca.deep_view()[j] == cb.deep_view()[j],
        decreases ca@.len() - i,
    {
        if !bytes_eq(ca[i].as_slice(), cb[i].as_slice()) {
            return false;
        }
        i += 1;
    }
    proof {
        assert(components(a@) =~= components(b@));
    }
    true
}

} // verus!
