//! The laws of the join engine, stated over the model and proved once and
//! for all: equivalence to the platform's sequential join, the absolute
//! override, the transparency of empty segments, and the absence of a
//! trailing separator.

use vstd::prelude::*;

use crate::equiv::components;
use crate::equiv::lemma_components_sep;
use crate::equiv::lemma_components_trailing_sep;
use crate::equiv::path_equiv;
use crate::model::SEP;
use crate::model::is_absolute;
use crate::model::join_two;
use crate::model::joined;
use crate::model::keep_pred;
use crate::model::lemma_native_join_filter;
use crate::model::lemma_native_join_last;
use crate::model::lemma_native_join_override;
use crate::model::lemma_native_join_retained;
use crate::model::lemma_resolved_start_abs;
use crate::model::lemma_resolved_start_at;
use crate::model::lemma_resolved_start_bounds;
use crate::model::lemma_resolved_start_no_abs_after;
use crate::model::lemma_resolved_start_zero;
use crate::model::lemma_retained_all_kept;
use crate::model::lemma_retained_no_abs_tail;
use crate::model::lemma_sep_join_last;
use crate::model::native_join;
use crate::model::resolved_start;
use crate::model::retained;
use crate::model::sep_join;

verus! {

/// For non-empty parts of which only the first may be absolute, the
/// engine's separator-join and the native fold are path-equivalent; both
/// are non-empty and start with the first part's first byte.
proof fn lemma_sep_join_native_equiv(parts: Seq<Seq<u8>>)
    requires
        forall|i: int| 0 <= i < parts.len() ==> (#[trigger] parts[i]).len() > 0,
        forall|i: int| 1 <= i < parts.len() ==> !is_absolute(#[trigger] parts[i]),
    ensures
        path_equiv(sep_join(parts), native_join(parts)),
        parts.len() > 0 ==> sep_join(parts).len() > 0 && native_join(parts).len() > 0
            && sep_join(parts)[0] == parts[0][0] && native_join(parts)[0] == parts[0][0],
    decreases parts.len(),
{
    if parts.len() == 0 {
    } else if parts.len() == 1 {
        assert(parts[0].len() > 0);
        assert(native_join(parts.drop_last()) == Seq::<u8>::empty());
        assert(native_join(parts) == parts[0]);
        assert(sep_join(parts) == parts[0]);
    } else {
        let dl = parts.drop_last();
        let q = parts.last();
        assert forall|i: int| 0 <= i < dl.len() implies (#[trigger] dl[i]).len() > 0 by {
            assert(dl[i] == parts[i]);
        }
        assert forall|i: int| 1 <= i < dl.len() implies !is_absolute(#[trigger] dl[i]) by {
            assert(dl[i] == parts[i]);
        }
        lemma_sep_join_native_equiv(dl);
        let a = native_join(dl);
        let sj = sep_join(dl);
        assert(q.len() > 0);
        assert(!is_absolute(q));
        assert(dl[0] == parts[0]);
        assert(sep_join(parts) == sj + seq![SEP] + q);
        assert((sj + seq![SEP] + q)[0] == sj[0]);
        lemma_components_sep(sj, q);
        if a.last() == SEP {
            assert(native_join(parts) == a + q);
            lemma_components_trailing_sep(a, q);
            assert((a + q)[0] == a[0]);
        } else {
            assert(native_join(parts) == a + seq![SEP] + q);
            lemma_components_sep(a, q);
            assert((a + seq![SEP] + q)[0] == a[0]);
        }
    }
}

/// Law: the engine's result is path-equivalent to the platform's
/// sequential native join of the same segments.
pub proof fn lemma_engine_matches_native(segs: Seq<Seq<u8>>)
    ensures
        path_equiv(joined(segs), native_join(segs)),
{
    lemma_native_join_retained(segs);
    lemma_retained_all_kept(segs);
    lemma_retained_no_abs_tail(segs);
    lemma_sep_join_native_equiv(retained(segs));
}

/// Law: joining restarts at the last non-empty absolute segment; both the
/// engine and the native join ignore everything before it.
pub proof fn lemma_absolute_override(segs: Seq<Seq<u8>>, i: int)
    requires
        0 <= i < segs.len(),
        is_absolute(segs[i]),
        forall|j: int| i < j < segs.len() ==> !is_absolute(#[trigger] segs[j]),
    ensures
        joined(segs) == joined(segs.skip(i)),
        native_join(segs) == native_join(segs.skip(i)),
        path_equiv(joined(segs), native_join(segs.skip(i))),
{
    lemma_engine_matches_native(segs.skip(i));
    lemma_resolved_start_at(segs, i);
    let sk = segs.skip(i);
    assert(sk[0] == segs[i]);
    assert forall|j: int| 0 < j < sk.len() implies !is_absolute(#[trigger] sk[j]) by {
        assert(sk[j] == segs[i + j]);
    }
    lemma_resolved_start_at(sk, 0);
    assert(sk.skip(0) =~= sk);
    assert(retained(segs) == retained(sk));
    lemma_native_join_override(segs, i);
}

/// Filtering out the kept segments is blind to an inserted empty one.
proof fn lemma_filter_insert_empty(s: Seq<Seq<u8>>, j: int)
    requires
        0 <= j <= s.len(),
    ensures
        s.insert(j, Seq::<u8>::empty()).filter(keep_pred()) == s.filter(keep_pred()),
{
    let e = Seq::<u8>::empty();
    reveal(Seq::filter);
    assert(seq![e].drop_last() =~= Seq::<Seq<u8>>::empty());
    assert(Seq::<Seq<u8>>::empty().filter(keep_pred()) == Seq::<Seq<u8>>::empty());
    assert(seq![e].last() == e);
    assert(!keep_pred()(e));
    assert(seq![e].filter(keep_pred()) == Seq::<Seq<u8>>::empty());
    assert(s.insert(j, e) =~= (s.take(j) + seq![e]) + s.skip(j));
    Seq::<Seq<u8>>::filter_distributes_over_add(s.take(j) + seq![e], s.skip(j), keep_pred());
    Seq::<Seq<u8>>::filter_distributes_over_add(s.take(j), seq![e], keep_pred());
    Seq::<Seq<u8>>::add_empty_right(s.take(j).filter(keep_pred()), seq![e].filter(keep_pred()));
    Seq::<Seq<u8>>::filter_distributes_over_add(s.take(j), s.skip(j), keep_pred());
    assert(s.take(j) + s.skip(j) =~= s);
}

/// Law: inserting an empty segment anywhere in the list changes neither
/// the engine's result nor the native join.
pub proof fn lemma_empty_transparent(segs: Seq<Seq<u8>>, i: int)
    requires
        0 <= i <= segs.len(),
    ensures
        joined(segs.insert(i, Seq::<u8>::empty())) == joined(segs),
        native_join(segs.insert(i, Seq::<u8>::empty())) == native_join(segs),
{
    let e = Seq::<u8>::empty();
    let ins = segs.insert(i, e);
    segs.insert_ensures(i, e);

    // The native join: empties filter away on both sides.
    lemma_native_join_filter(segs);
    lemma_native_join_filter(ins);
    lemma_filter_insert_empty(segs, i);

    // The engine: the resolved start moves with the insertion and the
    // retained segments are untouched.
    let rs = resolved_start(segs);
    lemma_resolved_start_bounds(segs);
    lemma_resolved_start_no_abs_after(segs);
    if segs.len() > 0 && is_absolute(segs[rs]) {
        let rs2 = if i <= rs {
            rs + 1
        } else {
            rs
        };
        assert(ins[rs2] == segs[rs]);
        assert forall|j: int| rs2 < j < ins.len() implies !is_absolute(#[trigger] ins[j]) by {
            if j < i {
                assert(ins[j] == segs[j]);
            } else if j == i {
                assert(ins[j] == e);
            } else {
                assert(ins[j] == segs[j - 1]);
            }
        }
        lemma_resolved_start_at(ins, rs2);
        if i <= rs {
            assert(ins.skip(rs2) =~= segs.skip(rs));
        } else {
            assert(ins.skip(rs2) =~= segs.skip(rs).insert(i - rs, e));
            lemma_filter_insert_empty(segs.skip(rs), i - rs);
        }
    } else {
        // No absolute segment anywhere, in either list.
        if rs > 0 {
            lemma_resolved_start_abs(segs);
        }
        assert(rs == 0);
        assert forall|j: int| 0 <= j < segs.len() implies !is_absolute(#[trigger] segs[j]) by {
        }
        lemma_resolved_start_zero(segs);
        assert forall|j: int| 0 <= j < ins.len() implies !is_absolute(#[trigger] ins[j]) by {
            if j < i {
                assert(ins[j] == segs[j]);
            } else if j == i {
                assert(ins[j] == e);
            } else {
                assert(ins[j] == segs[j - 1]);
            }
        }
        lemma_resolved_start_zero(ins);
        assert(ins.skip(0) =~= ins);
        assert(segs.skip(0) =~= segs);
    }
}

/// Law: the joined result never ends with a separator unless the last
/// retained segment itself does; with nothing retained both results are
/// empty.  The same holds of the native join.
pub proof fn lemma_no_trailing_separator(segs: Seq<Seq<u8>>)
    ensures
        retained(segs).len() == 0 ==> joined(segs).len() == 0 && native_join(segs).len() == 0,
        retained(segs).len() > 0 ==> joined(segs).len() > 0 && native_join(segs).len() > 0 && (
        joined(segs).last() == SEP <==> retained(segs).last().last() == SEP) && (native_join(
            segs,
        ).last() == SEP <==> retained(segs).last().last() == SEP),
{
    lemma_retained_all_kept(segs);
    lemma_native_join_retained(segs);
    if retained(segs).len() > 0 {
        lemma_sep_join_last(retained(segs));
        lemma_native_join_last(retained(segs));
        assert(retained(segs).last().len() > 0);
    }
}

} // verus!
