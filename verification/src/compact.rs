//! Run-length compaction of the eight-symbol source language.
//!
//! The compactor turns raw source text into an ordered list of
//! [`Instruction`]s.  Consecutive pointer-move or cell-modify characters of
//! the same kind merge into one instruction carrying their count; I/O and
//! bracket characters never merge; every other character is discarded and
//! breaks an in-progress run.

use vstd::prelude::*;

verus! {

/// One compacted instruction: a meaningful source character together with
/// the length of the run it stands for.
pub struct Instruction {
    pub inst: char,
    pub count: isize,
}

impl View for Instruction {
    type V = (char, int);

    open spec fn view(&self) -> (char, int) {
        (self.inst, self.count as int)
    }
}

/// The four characters whose runs merge: pointer moves and cell updates.
pub open spec fn is_merge_char(c: char) -> bool {
    c == '>' || c == '<' || c == '+' || c == '-'
}

/// The eight characters of the source language.
pub open spec fn is_bf_char(c: char) -> bool {
    is_merge_char(c) || c == '.' || c == ',' || c == '[' || c == ']'
}

/// Flush a pending run onto the finished part of the output.
pub open spec fn compact_push(
    done: Seq<(char, int)>,
    pending: Option<(char, int)>,
) -> Seq<(char, int)> {
    match pending {
        Option::Some(p) => done.push(p),
        Option::None => done,
    }
}

/// One step of the compaction fold: `done` holds the flushed output, and
/// `pending` the run still open for merging.
pub open spec fn compact_step(
    done: Seq<(char, int)>,
    pending: Option<(char, int)>,
    c: char,
) -> (Seq<(char, int)>, Option<(char, int)>) {
    if is_merge_char(c) {
        match pending {
            Option::Some(p) => if p.0 == c {
                (done, Option::Some((c, p.1 + 1)))
            } else {
                (done.push(p), Option::Some((c, 1int)))
            },
            Option::None => (done, Option::Some((c, 1int))),
        }
    } else if is_bf_char(c) {
        (compact_push(done, pending).push((c, 1int)), Option::None)
    } else {
        (compact_push(done, pending), Option::None)
    }
}

/// The state of the compaction fold after reading `s`.
pub open spec fn compact_state(s: Seq<char>) -> (Seq<(char, int)>, Option<(char, int)>)
    decreases s.len(),
{
    if s.len() == 0 {
        (Seq::empty(), Option::None)
    } else {
        let st = compact_state(s.drop_last());
        compact_step(st.0, st.1, s.last())
    }
}

/// What the compactor produces for source text `s`.
pub open spec fn compact(s: Seq<char>) -> Seq<(char, int)> {
    compact_push(compact_state(s).0, compact_state(s).1)
}

/// `n` copies of `c` (empty when `n` is not positive).
pub open spec fn repeat_char(c: char, n: int) -> Seq<char> {
    if n <= 0 {
        Seq::empty()
    } else {
        Seq::new(n as nat, |i: int| c)
    }
}

/// Expand each instruction back into unit steps.
pub open spec fn expand(insts: Seq<(char, int)>) -> Seq<char>
    decreases insts.len(),
{
    if insts.len() == 0 {
        Seq::empty()
    } else {
        expand(insts.drop_last()) + repeat_char(insts.last().0, insts.last().1)
    }
}

/// A well-formed compacted entry: a recognized character, a positive count,
/// and a count of exactly one unless the character's runs merge.
pub open spec fn valid_entry(e: (char, int)) -> bool {
    &&& is_bf_char(e.0)
    &&& e.1 >= 1
    &&& !is_merge_char(e.0) ==> e.1 == 1
}

/// Every entry of a compacted sequence is well formed.
pub open spec fn valid_insts(insts: Seq<(char, int)>) -> bool {
    forall|i: int| 0 <= i < insts.len() ==> valid_entry(#[trigger] insts[i])
}

pub(crate) fn merge_char(c: char) -> (b: bool)
    ensures
        b == is_merge_char(c),
{
    c == '>' || c == '<' || c == '+' || c == '-'
}

pub(crate) fn bf_char(c: char) -> (b: bool)
    ensures
        b == is_bf_char(c),
{
    merge_char(c) || c == '.' || c == ',' || c == '[' || c == ']'
}

/// The predicate that keeps exactly the recognized characters.
pub open spec fn bf_pred() -> spec_fn(char) -> bool {
    |c: char| is_bf_char(c)
}

/// The compaction fold keeps its state well formed: every flushed entry is
/// valid, a pending run is a mergeable character with positive count, the
/// output never outgrows the input, and expanding the output reproduces the
/// recognized characters of the input in order.
pub proof fn lemma_compact_state(s: Seq<char>)
    ensures
        valid_insts(compact_state(s).0),
        compact_state(s).1 matches Some(p) ==> is_merge_char(p.0) && p.1 >= 1,
        compact_push(compact_state(s).0, compact_state(s).1).len() <= s.len(),
        expand(compact_push(compact_state(s).0, compact_state(s).1)) == s.filter(bf_pred()),
    decreases s.len(),
{
    reveal(Seq::filter);
    if s.len() == 0 {
        assert(s.filter(bf_pred()) =~= Seq::<char>::empty());
    } else {
        let t = s.drop_last();
        let c = s.last();
        lemma_compact_state(t);
        let st = compact_state(t);
        let done = st.0;
        let pending = st.1;
        let flushed = compact_push(done, pending);
        // expand over a pushed entry splits into the front and the last run
        assert forall|q: Seq<(char, int)>, e: (char, int)| #[trigger]
            expand(q.push(e)) == expand(q) + repeat_char(e.0, e.1) by {
            assert(q.push(e).drop_last() =~= q);
            assert(q.push(e).last() == e);
        }
        if is_merge_char(c) {
            match pending {
                Option::Some(p) => {
                    if p.0 == c {
                        assert(repeat_char(c, p.1 + 1) =~= repeat_char(c, p.1).push(c));
                        assert(expand(done.push((c, p.1 + 1)))
                            =~= expand(done.push((c, p.1))).push(c));
                        assert(s.filter(bf_pred()) == t.filter(bf_pred()).push(c));
                    } else {
                        assert(repeat_char(c, 1int) =~= Seq::empty().push(c));
                        assert(expand(done.push(p).push((c, 1int)))
                            =~= expand(done.push(p)).push(c));
                        assert(valid_insts(done.push(p)));
                    }
                },
                Option::None => {
                    assert(repeat_char(c, 1int) =~= Seq::empty().push(c));
                    assert(expand(done.push((c, 1int))) =~= expand(done).push(c));
                },
            }
        } else if is_bf_char(c) {
            assert(repeat_char(c, 1int) =~= Seq::empty().push(c));
            assert(expand(flushed.push((c, 1int))) =~= expand(flushed).push(c));
            assert(valid_entry((c, 1int)));
            assert(valid_insts(flushed.push((c, 1int))));
        } else {
            assert(valid_insts(flushed));
        }
    }
}

/// Expanding all magnitudes of the compacted output back to unit steps
/// reproduces exactly the subsequence of recognized characters of the
/// source, in the original order.
pub proof fn lemma_expand_compact_roundtrip(s: Seq<char>)
    ensures
        expand(compact(s)) == s.filter(bf_pred()),
{
    lemma_compact_state(s);
}

/// The compacted output is well formed and never longer than the source.
pub proof fn lemma_compact_valid(s: Seq<char>)
    ensures
        valid_insts(compact(s)),
        compact(s).len() <= s.len(),
{
    lemma_compact_state(s);
    let st = compact_state(s);
    match st.1 {
        Option::Some(p) => {
            assert(valid_entry(p));
            assert(valid_insts(st.0.push(p)));
        },
        Option::None => {},
    }
}

/// Filtering a sequence whose characters are all recognized changes nothing.
proof fn lemma_filter_all_bf(s: Seq<char>)
    requires
        forall|i: int| 0 <= i < s.len() ==> is_bf_char(#[trigger] s[i]),
    ensures
        s.filter(bf_pred()) == s,
    decreases s.len(),
{
    reveal(Seq::filter);
    if s.len() == 0 {
        assert(s.filter(bf_pred()) =~= s);
    } else {
        lemma_filter_all_bf(s.drop_last());
        assert(s.filter(bf_pred()) =~= s);
    }
}

/// Idempotence of compaction: running the compactor twice over its own
/// expanded output yields the same compacted sequence as running it once.
pub proof fn lemma_compaction_idempotent(s: Seq<char>)
    ensures
        compact(expand(compact(expand(compact(s))))) == compact(expand(compact(s))),
{
    let u = expand(compact(s));
    lemma_expand_compact_roundtrip(s);
    lemma_expand_compact_roundtrip(u);
    assert forall|i: int| 0 <= i < u.len() implies is_bf_char(#[trigger] u[i]) by {
        s.lemma_filter_pred(bf_pred(), i);
    }
    lemma_filter_all_bf(u);
}

/// The view of a pending exec run.
pub open spec fn pending_view(p: Option<Instruction>) -> Option<(char, int)> {
    match p {
        Option::Some(x) => Option::Some(x@),
        Option::None => Option::None,
    }
}

/// Compact raw source text into an ordered instruction list.
///
/// The output is exactly the compaction fold over the text: runs of the
/// same pointer-move or cell-modify character merge into one instruction,
/// I/O and bracket characters stay single, and unrecognized characters are
/// dropped while breaking any open run.  No zero-count or unrecognized
/// entry ever appears in the result.
pub fn parse_brainfuck(string: &str) -> (insts: Vec<Instruction>)
    requires
        string@.len() <= isize::MAX as int,
    ensures
        insts@.map_values(|x: Instruction| x@) == compact(string@),
        valid_insts(insts@.map_values(|x: Instruction| x@)),
        insts@.len() <= string@.len(),
{
    proof {
        lemma_compact_valid(string@);
    }
    let n = string.unicode_len();
    let mut done: Vec<Instruction> = Vec::new();
    let mut pending: Option<Instruction> = None;
    let mut i: usize = 0;
    while i < n
        invariant
            n as nat == string@.len(),
            string@.len() <= isize::MAX as int,
            i <= n,
            done@.map_values(|x: Instruction| x@) == compact_state(string@.take(i as int)).0,
            pending_view(pending) == compact_state(string@.take(i as int)).1,
            pending matches Some(p) ==> 1 <= p.count && p.count as int <= i as int,
        decreases n - i,
    {
        let c = string.get_char(i);
        proof {
            assert(string@.take(i as int + 1).drop_last() =~= string@.take(i as int));
            assert(string@.take(i as int + 1).last() == string@[i as int]);
        }
        if merge_char(c) {
            pending = match pending {
                Some(p) => {
                    if p.inst == c {
                        Some(Instruction { inst: c, count: p.count + 1 })
                    } else {
                        let ghost prev = done@.map_values(|x: Instruction| x@);
                        done.push(p);
                        proof {
                            assert(done@.map_values(|x: Instruction| x@) =~= prev.push(p@));
                        }
                        Some(Instruction { inst: c, count: 1 })
                    }
                },
                None => Some(Instruction { inst: c, count: 1 }),
            };
        } else if bf_char(c) {
            let ghost prev = done@.map_values(|x: Instruction| x@);
            match pending {
                Some(p) => {
                    done.push(p);
                    proof {
                        assert(done@.map_values(|x: Instruction| x@) =~= prev.push(p@));
                    }
                },
                None => {},
            }
            let ghost mid = done@.map_values(|x: Instruction| x@);
            done.push(Instruction { inst: c, count: 1 });
            proof {
                assert(done@.map_values(|x: Instruction| x@) =~= mid.push((c, 1int)));
            }
            pending = None;
        } else {
            let ghost prev = done@.map_values(|x: Instruction| x@);
            match pending {
                Some(p) => {
                    done.push(p);
                    proof {
                        assert(done@.map_values(|x: Instruction| x@) =~= prev.push(p@));
                    }
                },
                None => {},
            }
            pending = None;
        }
        i += 1;
    }
    proof {
        assert(string@.take(n as int) =~= string@);
    }
    let ghost prev = done@.map_values(|x: Instruction| x@);
    match pending {
        Some(p) => {
            done.push(p);
            proof {
                assert(done@.map_values(|x: Instruction| x@) =~= prev.push(p@));
            }
        },
        None => {},
    }
    done
}

} // verus!
