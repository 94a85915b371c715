//! The join engine.
//!
//! `join_in_buff` joins path segments into a caller-supplied scratch
//! buffer when the result fits, and into a growable fallback buffer
//! otherwise.  `native_join_all` is the platform's sequential two-path
//! join, the reference the engine is measured against.

use vstd::prelude::*;

use crate::equiv::path_equiv;
use crate::laws::lemma_engine_matches_native;
use crate::model::SEP;
use crate::model::TERMINATOR;
use crate::model::emitted;
use crate::model::is_absolute;
use crate::model::join_two;
use crate::model::joined;
use crate::model::keep_pred;
use crate::model::lemma_emitted_push;
use crate::model::lemma_emitted_sep_join;
use crate::model::lemma_native_join_filter;
use crate::model::lemma_native_join_retained;
use crate::model::lemma_resolved_start_at;
use crate::model::lemma_resolved_start_zero;
use crate::model::lemma_total_cost_nonneg;
use crate::model::lemma_total_len_joined;
use crate::model::lemma_vec_paths_view;
use crate::model::native_join;
use crate::model::resolved_start;
use crate::model::retained;
use crate::model::seg_cost;
use crate::model::total_cost;
use crate::model::total_len;

verus! {

/// Appends one segment to a growable buffer with the platform's two-path
/// join semantics: an absolute segment resets the buffer, an empty one is
/// a no-op, and otherwise a separator is inserted unless one is already
/// there.
pub fn push_native(buf: &mut Vec<u8>, seg: &[u8])
    ensures
        final(buf)@ == join_two(old(buf)@, seg@),
{
    if seg.len() == 0 {
        return ;
    }
    if seg[0] == SEP {
        buf.clear();
    } else if buf.len() > 0 {
        let lastb = buf[buf.len() - 1];
        if lastb != SEP {
            buf.push(SEP);
        }
    }
    let ghost pre = buf@;
    proof {
        assert(pre + seg@.take(0) =~= pre);
    }
    let mut j: usize = 0;
    while j < seg.len()
        invariant
            j <= seg@.len(),
            buf@ == pre + seg@.take(j as int),
        decreases seg@.len() - j,
    {
        let b = seg[j];
        buf.push(b);
        proof {
            assert((pre + seg@.take(j as int)).push(seg@[j as int]) =~= pre + seg@.take(
                j as int + 1,
            ));
        }
        j += 1;
    }
    proof {
        assert(seg@.take(seg@.len() as int) =~= seg@);
        if seg@[0] == SEP {
            assert(is_absolute(seg@));
            assert(pre =~= Seq::<u8>::empty());
            assert(buf@ =~= seg@);
        } else if old(buf)@.len() == 0 {
            assert(buf@ =~= seg@);
        } else if old(buf)@.last() == SEP {
            assert(buf@ == old(buf)@ + seg@);
        } else {
            assert(pre =~= old(buf)@ + seq![SEP]);
            assert(buf@ =~= old(buf)@ + seq![SEP] + seg@);
        }
    }
}

/// The platform's sequential join: every segment appended in turn, left
/// to right, onto an initially empty path.
pub fn native_join_all(paths: &Vec<Vec<u8>>) -> (r: Vec<u8>)
    ensures
        r@ == native_join(paths.deep_view()),
{
    let ghost vs = paths.deep_view();
    proof {
        lemma_vec_paths_view(paths);
        assert(vs.take(0) =~= Seq::<Seq<u8>>::empty());
    }
    let mut out: Vec<u8> = Vec::new();
    let mut k: usize = 0;
    while k < paths.len()
        invariant
            k <= paths@.len(),
            vs == paths.deep_view(),
            vs.len() == paths@.len(),
            forall|t: int| 0 <= t < paths@.len() ==> vs[t] == (#[trigger] paths@[t])@,
            out@ == native_join(vs.take(k as int)),
        decreases paths@.len() - k,
    {
        push_native(&mut out, paths[k].as_slice());
        proof {
            assert(vs.take(k as int + 1).drop_last() =~= vs.take(k as int));
            assert(vs.take(k as int + 1).last() == vs[k as int]);
        }
        k += 1;
    }
    proof {
        assert(vs.take(vs.len() as int) =~= vs);
    }
    out
}

/// Joins the given segments, avoiding heap allocation when the result is
/// short.
///
/// When the joined result together with its reserved terminator byte fits
/// into `raw_buff` it is written there and the fallback buffer is left
/// untouched; otherwise it is built inside `path_buff` with the
/// platform's native append semantics and the scratch buffer is left
/// untouched.  The returned slice borrows from whichever storage was
/// used, and is empty — touching neither buffer — when every segment is
/// empty.  Either way the result is path-equivalent to the platform's
/// sequential join of the segments.
pub fn join_in_buff<'a>(
    raw_buff: &'a mut Vec<u8>,
    path_buff: &'a mut Option<Vec<u8>>,
    paths: &Vec<Vec<u8>>,
) -> (r: &'a [u8])
    requires
        total_len(paths.deep_view()) <= usize::MAX,
    ensures
        path_equiv(r@, native_join(paths.deep_view())),
        retained(paths.deep_view()).len() == 0 ==> r@ == Seq::<u8>::empty() && final(raw_buff)@
            == old(raw_buff)@ && *final(path_buff) == *old(path_buff),
        retained(paths.deep_view()).len() > 0 && total_len(paths.deep_view()) <= old(
            raw_buff,
        )@.len() ==> r@ == joined(paths.deep_view()) && *final(path_buff) == *old(path_buff) && (
        final(raw_buff)@.len() == old(raw_buff)@.len()) && final(raw_buff)@.subrange(
            0,
            total_len(paths.deep_view()) - 1,
        ) == joined(paths.deep_view()) && final(raw_buff)@[total_len(paths.deep_view()) - 1]
            == TERMINATOR && (forall|t: int|
            total_len(paths.deep_view()) <= t < old(raw_buff)@.len() ==> final(raw_buff)@[t] == old(
                raw_buff,
            )@[t]),
        retained(paths.deep_view()).len() > 0 && total_len(paths.deep_view()) > old(
            raw_buff,
        )@.len() ==> (*final(path_buff) matches Some(b) && r@ == native_join(paths.deep_view())
            && final(raw_buff)@ == old(raw_buff)@ && b@ == native_join(paths.deep_view())),
{
    let ghost vs = paths.deep_view();
    proof {
        lemma_vec_paths_view(paths);
        lemma_total_len_joined(vs);
    }
    let n = paths.len();

    // Scan right to left for the right-most absolute segment; empty
    // segments never stop the scan.
    let mut start: usize = 0;
    let mut found: bool = false;
    let mut i: usize = n;
    while i > 0 && !found
        invariant
            i <= n,
            n == paths@.len(),
            vs == paths.deep_view(),
            vs.len() == n as int,
            forall|t: int| 0 <= t < n ==> vs[t] == (#[trigger] paths@[t])@,
            !found ==> start == 0 && (forall|j: int|
                i <= j < n ==> !is_absolute(#[trigger] vs[j])),
            found ==> start < n && i == start && is_absolute(vs[start as int]) && (forall|j: int|
                start < j < n ==> !is_absolute(#[trigger] vs[j])),
        decreases i,
    {
        i -= 1;
        let p = &paths[i];
        if p.len() > 0 && p[0] == SEP {
            found = true;
            start = i;
        }
    }
    proof {
        if found {
            lemma_resolved_start_at(vs, start as int);
        } else {
            lemma_resolved_start_zero(vs);
        }
        assert(start as int == resolved_start(vs));
    }

    // Sum the cost of the retained region: each non-empty segment and one
    // reserved separator after it.
    let mut total: usize = 0;
    let mut k: usize = start;
    while k < n
        invariant
            start <= k <= n,
            n == paths@.len(),
            vs == paths.deep_view(),
            vs.len() == n as int,
            forall|t: int| 0 <= t < n ==> vs[t] == (#[trigger] paths@[t])@,
            start as int == resolved_start(vs),
            total_len(vs) <= usize::MAX,
            total as int == total_cost(vs, start as int) - total_cost(vs, k as int),
        decreases n - k,
    {
        let p = &paths[k];
        proof {
            lemma_total_cost_nonneg(vs, k as int + 1);
            assert(total_cost(vs, k as int) == seg_cost(vs[k as int]) + total_cost(
                vs,
                k as int + 1,
            ));
        }
        if p.len() > 0 {
            total = total + p.len() + 1;
        }
        k += 1;
    }
    proof {
        assert(total_cost(vs, n as int) == 0);
        assert(total as int == total_len(vs));
    }

    if total == 0 {
        // Nothing is retained: the join is empty and neither buffer is
        // touched.
        let r = vstd::slice::slice_subrange(raw_buff.as_slice(), 0, 0);
        proof {
            assert(r@ =~= Seq::<u8>::empty());
            lemma_native_join_retained(vs);
            assert(native_join(retained(vs)) == Seq::<u8>::empty());
        }
        return r;
    }

    if total <= raw_buff.len() {
        // Fast path: write each retained segment followed by a separator
        // into the scratch buffer, then replace the final separator with
        // the terminator.
        let mut pos: usize = 0;
        let mut k: usize = start;
        proof {
            assert(vs.subrange(start as int, start as int) =~= Seq::<Seq<u8>>::empty());
            assert(raw_buff@.subrange(0, 0) =~= emitted(Seq::<Seq<u8>>::empty()));
        }
        while k < n
            invariant
                start <= k <= n,
                n == paths@.len(),
                vs == paths.deep_view(),
                vs.len() == n as int,
                forall|t: int| 0 <= t < n ==> vs[t] == (#[trigger] paths@[t])@,
                start as int == resolved_start(vs),
                total as int == total_len(vs),
                total <= raw_buff@.len(),
                raw_buff@.len() == old(raw_buff)@.len(),
                pos as int == total_cost(vs, start as int) - total_cost(vs, k as int),
                raw_buff@.subrange(0, pos as int) == emitted(
                    vs.subrange(start as int, k as int),
                ),
                forall|t: int| pos <= t < raw_buff@.len() ==> raw_buff@[t] == old(raw_buff)@[t],
            decreases n - k,
        {
            let p = &paths[k];
            let plen = p.len();
            proof {
                lemma_total_cost_nonneg(vs, k as int + 1);
                assert(total_cost(vs, k as int) == seg_cost(vs[k as int]) + total_cost(
                    vs,
                    k as int + 1,
                ));
            }
            if plen > 0 {
                proof {
                    assert(pos + plen + 1 <= total);
                    assert(vs[k as int].take(0) =~= Seq::<u8>::empty());
                    assert(raw_buff@.subrange(pos as int, pos as int) =~= vs[k as int].take(0));
                }
                let mut jj: usize = 0;
                while jj < plen
                    invariant
                        jj <= plen,
                        p@ == vs[k as int],
                        plen == vs[k as int].len(),
                        pos + plen + 1 <= total,
                        total <= raw_buff@.len(),
                        raw_buff@.len() == old(raw_buff)@.len(),
                        raw_buff@.subrange(0, pos as int) == emitted(
                            vs.subrange(start as int, k as int),
                        ),
                        raw_buff@.subrange(pos as int, pos as int + jj as int) == vs[k as int].take(
                            jj as int,
                        ),
                        forall|t: int|
                            pos + jj <= t < raw_buff@.len() ==> raw_buff@[t] == old(raw_buff)@[t],
                    decreases plen - jj,
                {
                    let ghost prev = raw_buff@;
                    let b = p[jj];
                    raw_buff[pos + jj] = b;
                    proof {
                        assert(raw_buff@ == prev.update(pos as int + jj as int, vs[k as int][jj as int]));
                        assert(raw_buff@.subrange(0, pos as int) =~= prev.subrange(0, pos as int));
                        assert(raw_buff@.subrange(pos as int, pos as int + jj as int + 1)
                            =~= prev.subrange(pos as int, pos as int + jj as int).push(
                            vs[k as int][jj as int],
                        ));
                        assert(vs[k as int].take(jj as int).push(vs[k as int][jj as int])
                            =~= vs[k as int].take(jj as int + 1));
                    }
                    jj += 1;
                }
                let ghost prev = raw_buff@;
                raw_buff[pos + plen] = SEP;
                proof {
                    assert(vs[k as int].take(plen as int) =~= vs[k as int]);
                    assert(raw_buff@ == prev.update(pos as int + plen as int, SEP));
                    assert(raw_buff@.subrange(0, pos as int) =~= prev.subrange(0, pos as int));
                    assert(raw_buff@.subrange(pos as int, pos as int + plen as int) =~= prev.subrange(
                        pos as int,
                        pos as int + plen as int,
                    ));
                    assert(raw_buff@.subrange(0, pos as int + plen as int + 1) =~= raw_buff@.subrange(
                        0,
                        pos as int,
                    ) + raw_buff@.subrange(pos as int, pos as int + plen as int) + seq![SEP]);
                    lemma_emitted_push(vs.subrange(start as int, k as int), vs[k as int]);
                    assert(vs.subrange(start as int, k as int + 1) =~= vs.subrange(
                        start as int,
                        k as int,
                    ).push(vs[k as int]));
                    assert(raw_buff@.subrange(0, pos as int + plen as int + 1) == emitted(
                        vs.subrange(start as int, k as int + 1),
                    ));
                }
                pos = pos + plen + 1;
            } else {
                proof {
                    lemma_emitted_push(vs.subrange(start as int, k as int), vs[k as int]);
                    assert(vs.subrange(start as int, k as int + 1) =~= vs.subrange(
                        start as int,
                        k as int,
                    ).push(vs[k as int]));
                    assert(emitted(vs.subrange(start as int, k as int + 1)) =~= emitted(
                        vs.subrange(start as int, k as int),
                    ));
                }
            }
            k += 1;
        }
        proof {
            assert(total_cost(vs, n as int) == 0);
            assert(pos as int == total as int);
            assert(vs.subrange(start as int, n as int) =~= vs.skip(start as int));
            lemma_emitted_sep_join(vs.skip(start as int));
            assert(retained(vs) == vs.skip(start as int).filter(keep_pred()));
            assert(retained(vs).len() > 0);
            assert(raw_buff@.subrange(0, total as int) == joined(vs) + seq![SEP]);
            assert(joined(vs).len() == total as int - 1);
        }
        let end = pos - 1;
        let ghost prev = raw_buff@;
        raw_buff[end] = TERMINATOR;
        proof {
            assert(raw_buff@ == prev.update(end as int, TERMINATOR));
            assert(raw_buff@.subrange(0, end as int) =~= prev.subrange(0, end as int));
            assert(prev.subrange(0, end as int) =~= prev.subrange(0, total as int).take(
                end as int,
            ));
            assert((joined(vs) + seq![SEP]).take(end as int) =~= joined(vs));
            assert(raw_buff@.subrange(0, end as int) == joined(vs));
            lemma_engine_matches_native(vs);
        }
        let r = vstd::slice::slice_subrange(raw_buff.as_slice(), 0, end);
        r
    } else {
        // Fallback path: build the join inside the growable buffer with
        // the platform's native append semantics.  An already-present
        // buffer is reused: cleared, and grown once to the total length.
        let mut out: Vec<u8> = match path_buff.take() {
            Some(prior) => prior,
            None => Vec::new(),
        };
        out.clear();
        out.reserve(total);
        let mut k: usize = start;
        proof {
            assert(vs.subrange(start as int, start as int) =~= Seq::<Seq<u8>>::empty());
        }
        while k < n
            invariant
                start <= k <= n,
                n == paths@.len(),
                vs == paths.deep_view(),
                vs.len() == n as int,
                forall|t: int| 0 <= t < n ==> vs[t] == (#[trigger] paths@[t])@,
                out@ == native_join(vs.subrange(start as int, k as int)),
            decreases n - k,
        {
            push_native(&mut out, paths[k].as_slice());
            proof {
                assert(vs.subrange(start as int, k as int + 1).drop_last() =~= vs.subrange(
                    start as int,
                    k as int,
                ));
                assert(vs.subrange(start as int, k as int + 1).last() == vs[k as int]);
            }
            k += 1;
        }
        proof {
            assert(vs.subrange(start as int, n as int) =~= vs.skip(start as int));
            lemma_native_join_filter(vs.skip(start as int));
            lemma_native_join_retained(vs);
            assert(retained(vs) == vs.skip(start as int).filter(keep_pred()));
            assert(out@ == native_join(vs));
            lemma_total_len_joined(vs);
            assert(retained(vs).len() > 0);
        }
        let b = path_buff.insert(out);
        let r = b.as_slice();
        r
    }
}

} // verus!
