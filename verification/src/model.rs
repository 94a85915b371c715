//! The mathematical model of unix path joining.
//!
//! A path is a sequence of bytes; a join operates on a sequence of such
//! segments.  The model fixes, once and for all, which segments survive a
//! join (`retained`), what the engine emits (`joined`), and what the
//! platform's sequential two-path join produces (`native_join`).

use vstd::prelude::*;

verus! {

/// The path separator byte, `/`.
pub const SEP: u8 = 47;

/// The sentinel byte written over the final reserved separator on the
/// fast path.
pub const TERMINATOR: u8 = 0;

/// A path is absolute when its first byte is the separator.
pub open spec fn is_absolute(s: Seq<u8>) -> bool {
    s.len() > 0 && s[0] == SEP
}

/// Only non-empty segments take part in a join.
pub open spec fn seg_kept(s: Seq<u8>) -> bool {
    s.len() > 0
}

/// The predicate `seg_kept` as a value, so that every `filter` call in the
/// crate names one and the same function.
pub open spec fn keep_pred() -> spec_fn(Seq<u8>) -> bool {
    |s: Seq<u8>| seg_kept(s)
}

/// The index where the join starts: the position of the right-most
/// absolute segment, or 0 when no segment is absolute.  Empty segments are
/// never absolute, so they do not stop the right-to-left scan.
pub open spec fn resolved_start(segs: Seq<Seq<u8>>) -> int
    decreases segs.len(),
{
    if segs.len() == 0 {
        0
    } else if is_absolute(segs.last()) {
        segs.len() - 1
    } else {
        resolved_start(segs.drop_last())
    }
}

/// The segments that contribute to the join: the non-empty ones at or after
/// the resolved start.
pub open spec fn retained(segs: Seq<Seq<u8>>) -> Seq<Seq<u8>> {
    segs.skip(resolved_start(segs)).filter(keep_pred())
}

/// Joins parts with a single separator between neighbours, byte-for-byte.
pub open spec fn sep_join(parts: Seq<Seq<u8>>) -> Seq<u8>
    decreases parts.len(),
{
    if parts.len() == 0 {
        Seq::<u8>::empty()
    } else if parts.len() == 1 {
        parts[0]
    } else {
        sep_join(parts.drop_last()) + seq![SEP] + parts.last()
    }
}

/// What the join engine produces: the retained segments, separator-joined.
pub open spec fn joined(segs: Seq<Seq<u8>>) -> Seq<u8> {
    sep_join(retained(segs))
}

/// The bytes a segment costs in the engine's buffer: its length plus one
/// reserved separator byte; an empty segment costs nothing.
pub open spec fn seg_cost(s: Seq<u8>) -> int {
    if s.len() > 0 {
        s.len() as int + 1
    } else {
        0
    }
}

/// The summed cost of the segments from index `i` on.
pub open spec fn total_cost(segs: Seq<Seq<u8>>, i: int) -> int
    decreases segs.len() - i,
{
    if i < 0 || i >= segs.len() {
        0
    } else {
        seg_cost(segs[i]) + total_cost(segs, i + 1)
    }
}

/// The summed cost of a sequence of parts, in the recursion direction of
/// `sep_join` and `filter`.
pub open spec fn parts_cost(parts: Seq<Seq<u8>>) -> int
    decreases parts.len(),
{
    if parts.len() == 0 {
        0
    } else {
        parts_cost(parts.drop_last()) + seg_cost(parts.last())
    }
}

/// The engine's total length: the cost of everything from the resolved
/// start on.  When any segment is retained this is one more than the length
/// of the joined result (the final separator is reserved but replaced).
pub open spec fn total_len(segs: Seq<Seq<u8>>) -> int {
    total_cost(segs, resolved_start(segs))
}

/// What the engine's forward emission writes: every non-empty part
/// followed by one separator, left to right.
pub open spec fn emitted(parts: Seq<Seq<u8>>) -> Seq<u8>
    decreases parts.len(),
{
    if parts.len() == 0 {
        Seq::<u8>::empty()
    } else {
        emitted(parts.drop_last()) + (if parts.last().len() > 0 {
            parts.last() + seq![SEP]
        } else {
            Seq::<u8>::empty()
        })
    }
}

/// The platform's two-path join: an absolute right operand replaces the
/// left one; an empty operand is a no-op; otherwise a separator is inserted
/// unless the left operand is empty or already ends with one.
pub open spec fn join_two(a: Seq<u8>, b: Seq<u8>) -> Seq<u8> {
    if is_absolute(b) {
        b
    } else if b.len() == 0 {
        a
    } else if a.len() == 0 {
        b
    } else if a.last() == SEP {
        a + b
    } else {
        a + seq![SEP] + b
    }
}

/// The platform's sequential join, folded left-to-right over the segments,
/// starting from the empty path.
pub open spec fn native_join(segs: Seq<Seq<u8>>) -> Seq<u8>
    decreases segs.len(),
{
    if segs.len() == 0 {
        Seq::<u8>::empty()
    } else {
        join_two(native_join(segs.drop_last()), segs.last())
    }
}

/// `native_join` resumed from an accumulated left operand.
pub open spec fn native_join_from(acc: Seq<u8>, segs: Seq<Seq<u8>>) -> Seq<u8>
    decreases segs.len(),
{
    if segs.len() == 0 {
        acc
    } else {
        native_join_from(join_two(acc, segs.first()), segs.drop_first())
    }
}

/// The deep view of a list of byte vectors is the list of their views.
pub proof fn lemma_vec_paths_view(paths: &Vec<Vec<u8>>)
    ensures
        paths.deep_view().len() == paths@.len(),
        forall|i: int| 0 <= i < paths@.len() ==> paths.deep_view()[i] == (#[trigger] paths@[i])@,
{
    assert forall|i: int| 0 <= i < paths@.len() implies paths.deep_view()[i] == (
    #[trigger] paths@[i])@ by {
        assert(paths@[i].deep_view() =~= paths@[i]@);
    }
}

/// The resolved start lies inside the segment list (or is 0 for an empty
/// list).
pub proof fn lemma_resolved_start_bounds(segs: Seq<Seq<u8>>)
    ensures
        0 <= resolved_start(segs),
        segs.len() == 0 ==> resolved_start(segs) == 0,
        segs.len() > 0 ==> resolved_start(segs) < segs.len(),
    decreases segs.len(),
{
    if segs.len() > 0 && !is_absolute(segs.last()) {
        lemma_resolved_start_bounds(segs.drop_last());
    }
}

/// No segment after the resolved start is absolute.
pub proof fn lemma_resolved_start_no_abs_after(segs: Seq<Seq<u8>>)
    ensures
        forall|j: int| resolved_start(segs) < j < segs.len() ==> !is_absolute(#[trigger] segs[j]),
    decreases segs.len(),
{
    if segs.len() > 0 && !is_absolute(segs.last()) {
        lemma_resolved_start_bounds(segs);
        lemma_resolved_start_no_abs_after(segs.drop_last());
        assert forall|j: int| resolved_start(segs) < j < segs.len() implies !is_absolute(
            #[trigger] segs[j],
        ) by {
            if j < segs.len() - 1 {
                assert(0 <= j < segs.drop_last().len());
                assert(segs.drop_last()[j] == segs[j]);
            }
        }
    }
}

/// A positive resolved start points at an absolute segment.
pub proof fn lemma_resolved_start_abs(segs: Seq<Seq<u8>>)
    requires
        resolved_start(segs) > 0,
    ensures
        is_absolute(segs[resolved_start(segs)]),
    decreases segs.len(),
{
    if segs.len() > 0 && !is_absolute(segs.last()) {
        let rs = resolved_start(segs);
        assert(rs == resolved_start(segs.drop_last()));
        lemma_resolved_start_bounds(segs.drop_last());
        lemma_resolved_start_abs(segs.drop_last());
        assert(rs < segs.drop_last().len());
        assert(segs.drop_last()[rs] == segs[rs]);
    }
}

/// The right-most absolute segment is the resolved start.
pub proof fn lemma_resolved_start_at(segs: Seq<Seq<u8>>, i: int)
    requires
        0 <= i < segs.len(),
        is_absolute(segs[i]),
        forall|j: int| i < j < segs.len() ==> !is_absolute(#[trigger] segs[j]),
    ensures
        resolved_start(segs) == i,
    decreases segs.len(),
{
    if i < segs.len() - 1 {
        assert(!is_absolute(segs.last()));
        assert(segs.drop_last()[i] == segs[i]);
        assert forall|j: int| i < j < segs.drop_last().len() implies !is_absolute(
            #[trigger] segs.drop_last()[j],
        ) by {
            assert(segs.drop_last()[j] == segs[j]);
        }
        lemma_resolved_start_at(segs.drop_last(), i);
    }
}

/// Without any absolute segment the join starts at index 0.
pub proof fn lemma_resolved_start_zero(segs: Seq<Seq<u8>>)
    requires
        forall|j: int| 0 <= j < segs.len() ==> !is_absolute(#[trigger] segs[j]),
    ensures
        resolved_start(segs) == 0,
    decreases segs.len(),
{
    if segs.len() > 0 {
        assert(!is_absolute(segs.last()));
        assert forall|j: int| 0 <= j < segs.drop_last().len() implies !is_absolute(
            #[trigger] segs.drop_last()[j],
        ) by {
            assert(segs.drop_last()[j] == segs[j]);
        }
        lemma_resolved_start_zero(segs.drop_last());
    }
}

/// Summed costs are never negative.
pub proof fn lemma_total_cost_nonneg(segs: Seq<Seq<u8>>, i: int)
    ensures
        0 <= total_cost(segs, i),
    decreases segs.len() - i,
{
    if 0 <= i && i < segs.len() {
        lemma_total_cost_nonneg(segs, i + 1);
    }
}

/// Dropping the last segment removes exactly its cost from a suffix sum.
pub proof fn lemma_total_cost_drop_last(segs: Seq<Seq<u8>>, i: int)
    requires
        0 <= i <= segs.len(),
        segs.len() > 0,
    ensures
        total_cost(segs, i) == if i < segs.len() {
            total_cost(segs.drop_last(), i) + seg_cost(segs.last())
        } else {
            0
        },
    decreases segs.len() - i,
{
    if i < segs.len() {
        lemma_total_cost_drop_last(segs, i + 1);
        if i < segs.len() - 1 {
            assert(segs.drop_last()[i] == segs[i]);
        }
    }
}

/// A suffix sum is the cost of the suffix as a part list.
pub proof fn lemma_total_cost_skip(segs: Seq<Seq<u8>>, i: int)
    requires
        0 <= i <= segs.len(),
    ensures
        total_cost(segs, i) == parts_cost(segs.skip(i)),
    decreases segs.len(),
{
    if segs.len() == 0 || i == segs.len() {
        assert(segs.skip(i) =~= Seq::<Seq<u8>>::empty());
    } else {
        lemma_total_cost_drop_last(segs, i);
        lemma_total_cost_skip(segs.drop_last(), i);
        assert(segs.skip(i).drop_last() =~= segs.drop_last().skip(i));
        assert(segs.skip(i).last() == segs.last());
    }
}

/// Empty segments cost nothing, so filtering them out keeps the cost.
pub proof fn lemma_parts_cost_filter(parts: Seq<Seq<u8>>)
    ensures
        parts_cost(parts.filter(keep_pred())) == parts_cost(parts),
    decreases parts.len(),
{
    reveal(Seq::filter);
    if parts.len() > 0 {
        lemma_parts_cost_filter(parts.drop_last());
        if keep_pred()(parts.last()) {
            assert(parts.filter(keep_pred()).drop_last() =~= parts.drop_last().filter(keep_pred()));
            assert(parts.filter(keep_pred()).last() == parts.last());
        }
    }
}

/// Appending one part extends the emission by that part and a separator
/// (or by nothing, for an empty part).
pub proof fn lemma_emitted_push(parts: Seq<Seq<u8>>, p: Seq<u8>)
    ensures
        emitted(parts.push(p)) == emitted(parts) + (if p.len() > 0 {
            p + seq![SEP]
        } else {
            Seq::<u8>::empty()
        }),
{
    assert(parts.push(p).drop_last() =~= parts);
    assert(parts.push(p).last() == p);
}

/// The emission is the separator-join of the kept parts with one trailing
/// separator, and its length is the summed cost.
pub proof fn lemma_emitted_sep_join(parts: Seq<Seq<u8>>)
    ensures
        emitted(parts).len() == parts_cost(parts),
        parts.filter(keep_pred()).len() > 0 ==> emitted(parts) == sep_join(
            parts.filter(keep_pred()),
        ) + seq![SEP],
        parts.filter(keep_pred()).len() == 0 ==> emitted(parts) == Seq::<u8>::empty(),
    decreases parts.len(),
{
    reveal(Seq::filter);
    if parts.len() > 0 {
        lemma_emitted_sep_join(parts.drop_last());
        let f = parts.filter(keep_pred());
        let fd = parts.drop_last().filter(keep_pred());
        if keep_pred()(parts.last()) {
            assert(f == fd.push(parts.last()));
            assert(f.drop_last() =~= fd);
            assert(f.last() == parts.last());
            if fd.len() == 0 {
                assert(f.len() == 1);
                assert(sep_join(f) == f[0]);
                assert(f[0] == parts.last());
                assert(emitted(parts.drop_last()) =~= Seq::<u8>::empty());
                assert(emitted(parts) =~= sep_join(f) + seq![SEP]);
            } else {
                assert(sep_join(f) == sep_join(fd) + seq![SEP] + parts.last());
                assert(emitted(parts) =~= sep_join(f) + seq![SEP]);
            }
        } else {
            assert(f == fd);
            assert(emitted(parts) =~= emitted(parts.drop_last()));
        }
    }
}

/// The separator-joined length of non-empty parts: their summed cost minus
/// the one separator that is not emitted after the last part.
pub proof fn lemma_sep_join_len(parts: Seq<Seq<u8>>)
    requires
        forall|i: int| 0 <= i < parts.len() ==> (#[trigger] parts[i]).len() > 0,
    ensures
        parts.len() == 0 ==> sep_join(parts).len() == 0,
        parts.len() > 0 ==> sep_join(parts).len() + 1 == parts_cost(parts),
    decreases parts.len(),
{
    if parts.len() > 0 {
        assert forall|i: int| 0 <= i < parts.drop_last().len() implies (#[trigger] parts.drop_last()[i]).len()
            > 0 by {
            assert(parts.drop_last()[i] == parts[i]);
        }
        lemma_sep_join_len(parts.drop_last());
        assert(parts.last().len() > 0);
        assert(seg_cost(parts.last()) == parts.last().len() + 1);
        if parts.len() == 1 {
            assert(parts_cost(parts.drop_last()) == 0);
            assert(sep_join(parts) == parts[0]);
        } else {
            assert(sep_join(parts) == sep_join(parts.drop_last()) + seq![SEP] + parts.last());
        }
    }
}

/// A separator-join of non-empty parts ends with the last part's last byte.
pub proof fn lemma_sep_join_last(parts: Seq<Seq<u8>>)
    requires
        parts.len() > 0,
        forall|i: int| 0 <= i < parts.len() ==> (#[trigger] parts[i]).len() > 0,
    ensures
        sep_join(parts).len() > 0,
        sep_join(parts).last() == parts.last().last(),
    decreases parts.len(),
{
    if parts.len() > 1 {
        assert forall|i: int| 0 <= i < parts.drop_last().len() implies (#[trigger] parts.drop_last()[i]).len()
            > 0 by {
            assert(parts.drop_last()[i] == parts[i]);
        }
        lemma_sep_join_last(parts.drop_last());
    }
}

/// `native_join` is the accumulator fold started from the empty path.
pub proof fn lemma_native_join_from_push(acc: Seq<u8>, segs: Seq<Seq<u8>>, x: Seq<u8>)
    ensures
        native_join_from(acc, segs.push(x)) == join_two(native_join_from(acc, segs), x),
    decreases segs.len(),
{
    if segs.len() == 0 {
        assert(segs.push(x).first() == x);
        assert(segs.push(x).drop_first() =~= Seq::<Seq<u8>>::empty());
        assert(native_join_from(acc, segs.push(x)) == native_join_from(
            join_two(acc, x),
            Seq::<Seq<u8>>::empty(),
        ));
        assert(native_join_from(join_two(acc, x), Seq::<Seq<u8>>::empty()) == join_two(acc, x));
        assert(native_join_from(acc, segs) == acc);
    } else {
        assert(segs.push(x).first() == segs.first());
        assert(segs.push(x).drop_first() =~= segs.drop_first().push(x));
        lemma_native_join_from_push(join_two(acc, segs.first()), segs.drop_first(), x);
        assert(native_join_from(acc, segs.push(x)) == native_join_from(
            join_two(acc, segs.first()),
            segs.drop_first().push(x),
        ));
        assert(native_join_from(acc, segs) == native_join_from(
            join_two(acc, segs.first()),
            segs.drop_first(),
        ));
    }
}

/// See `lemma_native_join_from_push`: the two formulations agree.
pub proof fn lemma_native_join_as_from(segs: Seq<Seq<u8>>)
    ensures
        native_join(segs) == native_join_from(Seq::<u8>::empty(), segs),
    decreases segs.len(),
{
    if segs.len() > 0 {
        lemma_native_join_as_from(segs.drop_last());
        lemma_native_join_from_push(Seq::<u8>::empty(), segs.drop_last(), segs.last());
        assert(segs.drop_last().push(segs.last()) =~= segs);
    }
}

/// Folding across a concatenation is folding the two halves in turn.
pub proof fn lemma_native_join_from_add(acc: Seq<u8>, a: Seq<Seq<u8>>, b: Seq<Seq<u8>>)
    ensures
        native_join_from(acc, a + b) == native_join_from(native_join_from(acc, a), b),
    decreases a.len(),
{
    if a.len() == 0 {
        assert(a + b =~= b);
    } else {
        assert((a + b).first() == a.first());
        assert((a + b).drop_first() =~= a.drop_first() + b);
        lemma_native_join_from_add(join_two(acc, a.first()), a.drop_first(), b);
    }
}

/// An absolute segment at the head of the tail erases whatever was folded
/// before it.
pub proof fn lemma_native_join_from_abs(a: Seq<u8>, b: Seq<u8>, segs: Seq<Seq<u8>>)
    requires
        segs.len() > 0,
        is_absolute(segs.first()),
    ensures
        native_join_from(a, segs) == native_join_from(b, segs),
{
    assert(join_two(a, segs.first()) == segs.first());
    assert(join_two(b, segs.first()) == segs.first());
}

/// The native join restarts at an absolute segment: everything to its left
/// is discarded.
pub proof fn lemma_native_join_override(segs: Seq<Seq<u8>>, i: int)
    requires
        0 <= i < segs.len(),
        is_absolute(segs[i]),
    ensures
        native_join(segs) == native_join(segs.skip(i)),
{
    lemma_native_join_as_from(segs);
    lemma_native_join_as_from(segs.skip(i));
    assert(segs =~= segs.take(i) + segs.skip(i));
    lemma_native_join_from_add(Seq::<u8>::empty(), segs.take(i), segs.skip(i));
    assert(segs.skip(i).first() == segs[i]);
    lemma_native_join_from_abs(
        native_join_from(Seq::<u8>::empty(), segs.take(i)),
        Seq::<u8>::empty(),
        segs.skip(i),
    );
}

/// Empty segments are no-ops for the native join.
pub proof fn lemma_native_join_filter(segs: Seq<Seq<u8>>)
    ensures
        native_join(segs) == native_join(segs.filter(keep_pred())),
    decreases segs.len(),
{
    reveal(Seq::filter);
    if segs.len() > 0 {
        lemma_native_join_filter(segs.drop_last());
        if keep_pred()(segs.last()) {
            assert(segs.filter(keep_pred()).drop_last() =~= segs.drop_last().filter(keep_pred()));
            assert(segs.filter(keep_pred()).last() == segs.last());
        }
    }
}

/// The native join of a segment list is the native join of its retained
/// segments alone.
pub proof fn lemma_native_join_retained(segs: Seq<Seq<u8>>)
    ensures
        native_join(segs) == native_join(retained(segs)),
{
    let rs = resolved_start(segs);
    lemma_resolved_start_bounds(segs);
    if rs > 0 {
        lemma_resolved_start_abs(segs);
        lemma_native_join_override(segs, rs);
    } else {
        assert(segs.skip(0) =~= segs);
    }
    lemma_native_join_filter(segs.skip(rs));
}

/// The native join of non-empty parts ends with the last part's last
/// byte.
pub proof fn lemma_native_join_last(parts: Seq<Seq<u8>>)
    requires
        parts.len() > 0,
        forall|i: int| 0 <= i < parts.len() ==> (#[trigger] parts[i]).len() > 0,
    ensures
        native_join(parts).len() > 0,
        native_join(parts).last() == parts.last().last(),
    decreases parts.len(),
{
    if parts.len() > 1 {
        assert forall|i: int| 0 <= i < parts.drop_last().len() implies (#[trigger] parts.drop_last()[i]).len()
            > 0 by {
            assert(parts.drop_last()[i] == parts[i]);
        }
        lemma_native_join_last(parts.drop_last());
    } else {
        assert(parts[0].len() > 0);
    }
}

/// Every retained segment is non-empty.
pub proof fn lemma_retained_all_kept(segs: Seq<Seq<u8>>)
    ensures
        forall|i: int| 0 <= i < retained(segs).len() ==> (#[trigger] retained(segs)[i]).len() > 0,
{
    assert forall|i: int| 0 <= i < retained(segs).len() implies (#[trigger] retained(segs)[i]).len()
        > 0 by {
        segs.skip(resolved_start(segs)).lemma_filter_pred(keep_pred(), i);
    }
}

/// Among the retained segments only the first can be absolute.
pub proof fn lemma_retained_no_abs_tail(segs: Seq<Seq<u8>>)
    ensures
        forall|i: int| 1 <= i < retained(segs).len() ==> !is_absolute(#[trigger] retained(segs)[i]),
{
    let rs = resolved_start(segs);
    lemma_resolved_start_bounds(segs);
    lemma_resolved_start_no_abs_after(segs);
    let sk = segs.skip(rs);
    assert forall|k: int| 1 <= k < sk.len() implies !is_absolute(#[trigger] sk[k]) by {
        assert(sk[k] == segs[rs + k]);
    }
    if sk.len() > 0 && is_absolute(sk[0]) {
        let tail = sk.skip(1);
        assert(sk =~= seq![sk[0]] + tail);
        Seq::<Seq<u8>>::filter_distributes_over_add(seq![sk[0]], tail, keep_pred());
        reveal(Seq::filter);
        assert(seq![sk[0]].filter(keep_pred()) =~= seq![sk[0]]);
        assert forall|i: int| 1 <= i < retained(segs).len() implies !is_absolute(
            #[trigger] retained(segs)[i],
        ) by {
            assert(retained(segs)[i] == tail.filter(keep_pred())[i - 1]);
            assert(tail.filter(keep_pred()).contains(tail.filter(keep_pred())[i - 1]));
            tail.lemma_filter_contains_rev(keep_pred(), tail.filter(keep_pred())[i - 1]);
            let k = choose|k: int|
                0 <= k < tail.len() && tail[k] == tail.filter(keep_pred())[i - 1];
            assert(tail[k] == sk[k + 1]);
        }
    } else {
        assert forall|i: int| 1 <= i < retained(segs).len() implies !is_absolute(
            #[trigger] retained(segs)[i],
        ) by {
            assert(retained(segs).contains(retained(segs)[i]));
            sk.lemma_filter_contains_rev(keep_pred(), retained(segs)[i]);
            let k = choose|k: int| 0 <= k < sk.len() && sk[k] == retained(segs)[i];
        }
    }
}

/// The engine's total length is the cost of the retained parts; it is 0
/// exactly when nothing is retained, and otherwise one more than the
/// length of the joined result.
pub proof fn lemma_total_len_joined(segs: Seq<Seq<u8>>)
    ensures
        total_len(segs) == parts_cost(retained(segs)),
        retained(segs).len() == 0 <==> total_len(segs) == 0,
        retained(segs).len() > 0 ==> joined(segs).len() + 1 == total_len(segs),
        retained(segs).len() == 0 ==> joined(segs).len() == 0,
{
    let rs = resolved_start(segs);
    lemma_resolved_start_bounds(segs);
    lemma_total_cost_skip(segs, rs);
    lemma_parts_cost_filter(segs.skip(rs));
    lemma_retained_all_kept(segs);
    lemma_sep_join_len(retained(segs));
    if retained(segs).len() > 0 {
        assert(parts_cost(retained(segs)) == sep_join(retained(segs)).len() + 1);
    }
}

} // verus!
