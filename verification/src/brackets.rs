//! Bracket discipline of generation: balanced sources generate, an extra
//! closing bracket fails the instant it is processed, and an extra opening
//! bracket fails only after the whole instruction list has been processed.
//!
//! The loop stack is itself the matcher, so these laws tie the stack that
//! `gen_fold` carries to the bracket depth of the source.

use vstd::prelude::*;
use crate::compact::{compact, compact_state, compact_step, is_merge_char, is_bf_char};
use crate::codegen::{GenState, GenError, gen_fold, gen_run, init_state};

verus! {

/// What one character does to the bracket depth.
pub open spec fn src_delta(c: char) -> int {
    if c == '[' {
        1
    } else if c == ']' {
        -1
    } else {
        0
    }
}

/// The bracket depth of a source text.
pub open spec fn src_depth(s: Seq<char>) -> int
    decreases s.len(),
{
    if s.len() == 0 {
        0
    } else {
        src_depth(s.drop_last()) + src_delta(s.last())
    }
}

/// No prefix of the source closes more brackets than it has opened.
pub open spec fn src_prefixes_ok(s: Seq<char>) -> bool {
    forall|k: int| 0 <= k <= s.len() ==> src_depth(#[trigger] s.take(k)) >= 0
}

/// Balanced brackets: no prefix dips below zero and the whole text closes
/// every bracket it opens.
pub open spec fn src_balanced(s: Seq<char>) -> bool {
    src_prefixes_ok(s) && src_depth(s) == 0
}

/// What one compacted instruction does to the bracket depth.  Brackets
/// never merge, so each bracket instruction counts once.
pub open spec fn inst_delta(e: (char, int)) -> int {
    src_delta(e.0)
}

/// The bracket depth of a compacted instruction sequence.
pub open spec fn idepth(insts: Seq<(char, int)>) -> int
    decreases insts.len(),
{
    if insts.len() == 0 {
        0
    } else {
        idepth(insts.drop_last()) + inst_delta(insts.last())
    }
}

/// No prefix of the instruction list closes more brackets than it has
/// opened.
pub open spec fn prefixes_ok(insts: Seq<(char, int)>) -> bool {
    forall|k: int| 0 <= k <= insts.len() ==> idepth(#[trigger] insts.take(k)) >= 0
}

/// Prefix nonnegativity relative to the loops already open in `st`.
pub open spec fn prefixes_ok_from(st: GenState, insts: Seq<(char, int)>) -> bool {
    forall|k: int| 0 <= k <= insts.len() ==> st.stack.len() + idepth(#[trigger] insts.take(k))
        >= 0
}

proof fn lemma_idepth_push(insts: Seq<(char, int)>, e: (char, int))
    ensures
        idepth(insts.push(e)) == idepth(insts) + inst_delta(e),
        forall|k: int| 0 <= k <= insts.len() ==> #[trigger] insts.push(e).take(k) == insts.take(
            k,
        ),
{
    assert(insts.push(e).drop_last() =~= insts);
    assert(insts.push(e).last() == e);
    assert forall|k: int| 0 <= k <= insts.len() implies #[trigger] insts.push(e).take(k)
        == insts.take(k) by {
        assert(insts.push(e).take(k) =~= insts.take(k));
    }
}

proof fn lemma_src_depth_push(s: Seq<char>, c: char)
    ensures
        src_depth(s.push(c)) == src_depth(s) + src_delta(c),
        src_prefixes_ok(s.push(c)) <==> (src_prefixes_ok(s) && src_depth(s) + src_delta(c) >= 0),
{
    assert(s.push(c).drop_last() =~= s);
    assert(s.push(c).last() == c);
    assert forall|k: int| 0 <= k <= s.len() implies #[trigger] s.push(c).take(k) == s.take(k) by {
        assert(s.push(c).take(k) =~= s.take(k));
    }
    if src_prefixes_ok(s) && src_depth(s) + src_delta(c) >= 0 {
        assert forall|k: int| 0 <= k <= s.push(c).len() implies src_depth(
            #[trigger] s.push(c).take(k),
        ) >= 0 by {
            if k <= s.len() {
                assert(s.push(c).take(k) == s.take(k));
            } else {
                assert(s.push(c).take(k) =~= s.push(c));
            }
        }
    }
    if src_prefixes_ok(s.push(c)) {
        assert forall|k: int| 0 <= k <= s.len() implies src_depth(#[trigger] s.take(k)) >= 0 by {
            assert(s.push(c).take(k) == s.take(k));
        }
        assert(s.push(c).take(s.len() as int + 1) =~= s.push(c));
        assert(src_depth(s.push(c)) >= 0);
    }
}

proof fn lemma_prefixes_push(insts: Seq<(char, int)>, e: (char, int))
    ensures
        prefixes_ok(insts.push(e)) <==> (prefixes_ok(insts) && idepth(insts) + inst_delta(e)
            >= 0),
{
    lemma_idepth_push(insts, e);
    if prefixes_ok(insts) && idepth(insts) + inst_delta(e) >= 0 {
        assert forall|k: int| 0 <= k <= insts.push(e).len() implies idepth(
            #[trigger] insts.push(e).take(k),
        ) >= 0 by {
            if k <= insts.len() {
                assert(insts.push(e).take(k) == insts.take(k));
            } else {
                assert(insts.push(e).take(k) =~= insts.push(e));
            }
        }
    }
    if prefixes_ok(insts.push(e)) {
        assert forall|k: int| 0 <= k <= insts.len() implies idepth(#[trigger] insts.take(k))
            >= 0 by {
            assert(insts.push(e).take(k) == insts.take(k));
        }
        assert(insts.push(e).take(insts.len() as int + 1) =~= insts.push(e));
        assert(idepth(insts.push(e)) >= 0);
    }
}

/// The generation fold tracks bracket depth exactly: while no prefix
/// overdraws the open loops, the fold succeeds and the stack ends at the
/// starting depth plus the list's bracket depth; the first overdrawing
/// prefix makes it fail with the unmatched-closing-bracket error.
pub proof fn lemma_gen_fold_stack(st: GenState, insts: Seq<(char, int)>)
    ensures
        prefixes_ok_from(st, insts) ==> (gen_fold(st, insts) matches Ok(m) && m.stack.len()
            == st.stack.len() + idepth(insts)),
        !prefixes_ok_from(st, insts) ==> gen_fold(st, insts) == Result::<GenState, GenError>::Err(
            GenError::UnmatchedClosingBracket,
        ),
    decreases insts.len(),
{
    if insts.len() == 0 {
        assert(insts.take(0) =~= insts);
        assert(st.stack.len() + idepth(insts.take(0)) >= 0);
    } else {
        let front = insts.drop_last();
        let e = insts.last();
        assert(front.push(e) =~= insts);
        lemma_gen_fold_stack(st, front);
        lemma_idepth_push(front, e);
        assert(idepth(insts) == idepth(front) + inst_delta(e));
        assert forall|k: int| 0 <= k <= front.len() implies #[trigger] insts.take(k) == front.take(
            k,
        ) by {
            assert(insts.take(k) =~= front.take(k));
        }
        assert(insts.take(insts.len() as int) =~= insts);
        if prefixes_ok_from(st, insts) {
            assert forall|k: int| 0 <= k <= front.len() implies st.stack.len() + idepth(
                #[trigger] front.take(k),
            ) >= 0 by {
                assert(front.take(k) == insts.take(k));
                assert(st.stack.len() + idepth(insts.take(k)) >= 0);
            }
            assert(prefixes_ok_from(st, front));
            let m = gen_fold(st, front)->Ok_0;
            assert(m.stack.len() == st.stack.len() + idepth(front));
            if e.0 == ']' {
                assert(st.stack.len() + idepth(insts) >= 0);
                assert(m.stack.len() >= 1);
            }
        } else {
            if prefixes_ok_from(st, front) {
                let m = gen_fold(st, front)->Ok_0;
                let k = choose|k: int|
                    0 <= k <= insts.len() && st.stack.len() + idepth(#[trigger] insts.take(k))
                        < 0;
                if k <= front.len() {
                    assert(st.stack.len() + idepth(front.take(k)) < 0);
                    assert(false);
                }
                assert(k == insts.len());
                assert(st.stack.len() + idepth(insts) < 0);
                assert(m.stack.len() == st.stack.len() + idepth(front));
                assert(inst_delta(e) == -1);
                assert(e.0 == ']');
                assert(m.stack.len() == 0);
            }
        }
    }
}

/// The outcome of generation, decided by the bracket structure alone:
/// balance gives success with an empty loop stack; a prefix that closes an
/// unopened bracket gives the unmatched-closing error; a surplus of open
/// brackets survives the whole fold and fails only the final emptiness
/// check, with the unmatched-opening error.
pub proof fn lemma_gen_outcome(insts: Seq<(char, int)>)
    ensures
        (prefixes_ok(insts) && idepth(insts) == 0) ==> (gen_run(insts) matches Ok(m)
            && m.stack.len() == 0),
        !prefixes_ok(insts) ==> gen_run(insts) == Result::<GenState, GenError>::Err(
            GenError::UnmatchedClosingBracket,
        ),
        (prefixes_ok(insts) && idepth(insts) > 0) ==> (gen_fold(init_state(), insts) is Ok
            && gen_run(insts) == Result::<GenState, GenError>::Err(
                GenError::UnmatchedOpeningBracket,
            )),
{
    lemma_gen_fold_stack(init_state(), insts);
    assert(init_state().stack.len() == 0);
    assert(prefixes_ok_from(init_state(), insts) <==> prefixes_ok(insts));
}

/// Compaction preserves the bracket structure: the compacted list has the
/// same bracket depth as the source, and overdraws a prefix exactly when
/// the source does.
pub proof fn lemma_compact_brackets(s: Seq<char>)
    ensures
        idepth(compact(s)) == src_depth(s),
        prefixes_ok(compact(s)) <==> src_prefixes_ok(s),
    decreases s.len(),
{
    if s.len() == 0 {
        assert(compact(s) =~= Seq::<(char, int)>::empty());
        assert forall|k: int| 0 <= k <= compact(s).len() implies idepth(
            #[trigger] compact(s).take(k),
        ) >= 0 by {
            assert(compact(s).take(k) =~= compact(s));
        }
        assert forall|k: int| 0 <= k <= s.len() implies src_depth(#[trigger] s.take(k)) >= 0 by {
            assert(s.take(k) =~= s);
        }
    } else {
        let t = s.drop_last();
        let c = s.last();
        assert(t.push(c) =~= s);
        lemma_compact_brackets(t);
        lemma_src_depth_push(t, c);
        let st = compact_state(t);
        let done = st.0;
        let pend = st.1;
        let ct = compact(t);
        assert(compact_state(s) == compact_step(done, pend, c));
        // a prefix property at full length bounds the whole depth
        assert(t.take(t.len() as int) =~= t);
        assert(ct.take(ct.len() as int) =~= ct);
        assert(done.take(done.len() as int) =~= done);
        assert(src_prefixes_ok(t) ==> src_depth(t) >= 0);
        assert(prefixes_ok(ct) ==> idepth(ct) >= 0);
        assert(prefixes_ok(done) ==> idepth(done) >= 0);
        if is_merge_char(c) {
            match pend {
                Option::Some(p) => {
                    if p.0 == c {
                        // both compact(t) and compact(s) are `done` plus one
                        // mergeable entry, which brackets ignore
                        assert(ct == done.push(p));
                        assert(compact(s) == done.push((c, p.1 + 1)));
                        lemma_idepth_push(done, p);
                        lemma_idepth_push(done, (c, p.1 + 1));
                        lemma_prefixes_push(done, p);
                        lemma_prefixes_push(done, (c, p.1 + 1));
                    } else {
                        assert(compact(s) == ct.push((c, 1int)));
                        lemma_idepth_push(ct, (c, 1int));
                        lemma_prefixes_push(ct, (c, 1int));
                    }
                },
                Option::None => {
                    assert(ct == done);
                    assert(compact(s) == done.push((c, 1int)));
                    lemma_idepth_push(ct, (c, 1int));
                    lemma_prefixes_push(ct, (c, 1int));
                },
            }
        } else if is_bf_char(c) {
            assert(compact(s) == ct.push((c, 1int)));
            lemma_idepth_push(ct, (c, 1int));
            lemma_prefixes_push(ct, (c, 1int));
            assert(inst_delta((c, 1int)) == src_delta(c));
        } else {
            assert(compact(s) == ct);
        }
    }
}

/// Every source text with balanced brackets generates: the fold succeeds
/// and ends with an empty loop stack.
pub proof fn lemma_balanced_source_generates(s: Seq<char>)
    requires
        src_balanced(s),
    ensures
        gen_run(compact(s)) matches Ok(m) && m.stack.len() == 0,
{
    lemma_compact_brackets(s);
    lemma_gen_outcome(compact(s));
}

/// A source with an extra closing bracket fails with the
/// unmatched-closing-bracket error, and it already fails on the prefix
/// that ends at the offending character.
pub proof fn lemma_unmatched_closing(s: Seq<char>)
    requires
        !src_prefixes_ok(s),
    ensures
        gen_run(compact(s)) == Result::<GenState, GenError>::Err(
            GenError::UnmatchedClosingBracket,
        ),
        forall|k: int| 0 <= k <= s.len() && src_depth(#[trigger] s.take(k)) < 0 ==> gen_run(
            compact(s.take(k)),
        ) == Result::<GenState, GenError>::Err(GenError::UnmatchedClosingBracket),
{
    lemma_compact_brackets(s);
    lemma_gen_outcome(compact(s));
    assert forall|k: int| 0 <= k <= s.len() && src_depth(#[trigger] s.take(k)) < 0 implies gen_run(
        compact(s.take(k)),
    ) == Result::<GenState, GenError>::Err(GenError::UnmatchedClosingBracket) by {
        let p = s.take(k);
        assert(p.take(k) =~= p);
        assert(!src_prefixes_ok(p));
        lemma_compact_brackets(p);
        lemma_gen_outcome(compact(p));
    }
}

/// A source with an extra opening bracket survives the whole instruction
/// fold and fails only the emptiness check at the end of generation, with
/// the unmatched-opening-bracket error.
pub proof fn lemma_unmatched_opening(s: Seq<char>)
    requires
        src_prefixes_ok(s),
        src_depth(s) > 0,
    ensures
        gen_fold(init_state(), compact(s)) is Ok,
        gen_run(compact(s)) == Result::<GenState, GenError>::Err(
            GenError::UnmatchedOpeningBracket,
        ),
{
    lemma_compact_brackets(s);
    lemma_gen_outcome(compact(s));
}

} // verus!
