//! Magic-byte matching: evaluates Single, Multi and MagicRule conditions
//! against a byte buffer.

use vstd::prelude::*;
use crate::bytes_util::{is_prefix, match_at, matches_at};
use crate::rule::{MagicRule, Match, Multi, Single, magic_rule_wf, multi_wf, single_wf};

verus! {

/// `bytes` occurs in `buf` at some start position in `[from, from + count]`.
pub open spec fn window_matches(buf: Seq<u8>, bytes: Seq<u8>, from: int, count: int) -> bool {
    exists|start: int| from <= start <= from + count && match_at(buf, bytes, start)
}

/// A Single matches: its bytes occur in its offset window, and either it has
/// no children or at least one child also matches (children are a disjunction).
pub open spec fn single_matches(buf: Seq<u8>, s: Single) -> bool
    decreases s,
{
    &&& window_matches(buf, s.bytes@, s.offset.from as int, s.offset.count as int)
    &&& (s.conditions@.len() == 0 || exists|i: int|
        0 <= i < s.conditions@.len() && single_matches(buf, #[trigger] s.conditions@[i]))
}

/// How many of `conds` match `buf`.
pub open spec fn count_matching(buf: Seq<u8>, conds: Seq<Single>) -> nat
    decreases conds.len(),
{
    if conds.len() == 0 {
        0
    } else {
        count_matching(buf, conds.drop_last()) + (if single_matches(buf, conds.last()) {
            1nat
        } else {
            0nat
        })
    }
}

/// A Multi matches when at least `min_to_match` of its sub-conditions match.
pub open spec fn multi_matches(buf: Seq<u8>, m: Multi) -> bool {
    count_matching(buf, m.conditions@) >= m.min_to_match
}

pub open spec fn match_matches(buf: Seq<u8>, m: Match) -> bool {
    match m {
        Match::Single(s) => single_matches(buf, s),
        Match::Multi(mu) => multi_matches(buf, mu),
    }
}

/// A magic rule matches when any of its conditions does (disjunction).
pub open spec fn magic_matches(buf: Seq<u8>, r: MagicRule) -> bool {
    exists|i: int| 0 <= i < r.conditions@.len() && match_matches(buf, #[trigger] r.conditions@[i])
}

/// Evaluate a Single condition against the buffer.
pub fn evaluate_match(buf: &[u8], match_clause: &Single) -> (r: bool)
    ensures
        r == single_matches(buf@, *match_clause),
    decreases *match_clause,
{
    let blen = match_clause.bytes.len();
    let ghost bseq = match_clause.bytes@;
    let ghost from_i = match_clause.offset.from as int;
    let ghost count_i = match_clause.offset.count as int;
    if blen > buf.len() {
        proof {
            assert(forall|start: int| !match_at(buf@, bseq, start));
        }
        return false;
    }
    let max_start = buf.len() - blen;
    let from = match_clause.offset.from as usize;
    if from > max_start {
        proof {
            assert(forall|start: int| from_i <= start ==> !match_at(buf@, bseq, start));
        }
        return false;
    }
    let count = match_clause.offset.count as usize;
    let end: usize = if count > max_start - from {
        max_start
    } else {
        from + count
    };
    let buf_len = buf.len();
    let mut st = from;
    let mut found = false;
    while st <= end && !found
        invariant
            from <= st <= end + 1,
            buf_len == s_len(buf@),
            end <= max_start,
            end == if count_i > max_start - from_i {
                max_start as int
            } else {
                from_i + count_i
            },
            max_start == s_len(buf@) - bseq.len(),
            from_i <= max_start,
            from == from_i,
            bseq == match_clause.bytes@,
            found ==> window_matches(buf@, bseq, from_i, count_i),
            !found ==> forall|k: int| from_i <= k < st ==> !match_at(buf@, bseq, k),
        decreases end + 1 - st, (if found { 0int } else { 1int }),
    {
        if matches_at(buf, match_clause.bytes.as_slice(), st) {
            proof {
                assert(match_at(buf@, bseq, st as int));
                assert(st as int <= from_i + count_i);
                assert(window_matches(buf@, bseq, from_i, count_i));
            }
            found = true;
        } else {
            proof {
                if bseq.len() == 0 {
                    assert(buf@.subrange(st as int, st as int) =~= bseq);
                    assert(match_at(buf@, bseq, st as int));
                }
                assert(bseq.len() >= 1);
            }
            st += 1;
        }
    }
    if !found {
        proof {
            assert forall|k: int| from_i <= k <= from_i + count_i implies !match_at(
                buf@,
                bseq,
                k,
            ) by {
                if k > end {
                    assert(k > max_start || k > from_i + count_i);
                }
            }
        }
        return false;
    }
    if match_clause.conditions.len() == 0 {
        return true;
    }
    let n = match_clause.conditions.len();
    let mut i: usize = 0;
    while i < n
        invariant
            i <= n,
            n == match_clause.conditions@.len(),
            window_matches(buf@, match_clause.bytes@, from_i, count_i),
            from_i == match_clause.offset.from as int,
            count_i == match_clause.offset.count as int,
            forall|k: int| 0 <= k < i ==> !single_matches(buf@, #[trigger] match_clause.conditions@[k]),
        decreases n - i,
    {
        if evaluate_match(buf, &match_clause.conditions[i]) {
            return true;
        }
        i += 1;
    }
    false
}

/// The length of a byte sequence (helper to state loop bounds).
pub open spec fn s_len(s: Seq<u8>) -> int {
    s.len() as int
}

/// One step of `count_matching` over a growing prefix.
proof fn lemma_count_take_step(buf: Seq<u8>, conds: Seq<Single>, i: int)
    requires
        0 <= i < conds.len(),
    ensures
        count_matching(buf, conds.take(i + 1)) == count_matching(buf, conds.take(i)) + (
        if single_matches(buf, conds[i]) {
            1nat
        } else {
            0nat
        }),
{
    assert(conds.take(i + 1).drop_last() =~= conds.take(i));
    assert(conds.take(i + 1).last() == conds[i]);
}

/// The match count over a prefix never exceeds the count over the whole list.
proof fn lemma_count_prefix(buf: Seq<u8>, conds: Seq<Single>, i: int)
    requires
        0 <= i <= conds.len(),
    ensures
        count_matching(buf, conds.take(i)) <= count_matching(buf, conds),
    decreases conds.len() - i,
{
    if i == conds.len() {
        assert(conds.take(i) =~= conds);
    } else {
        lemma_count_take_step(buf, conds, i);
        lemma_count_prefix(buf, conds, i + 1);
    }
}

/// Evaluate a Multi condition: count matching sub-conditions until the
/// quorum is reached.
fn multi_matches_exec(buf: &[u8], multi: &Multi) -> (r: bool)
    ensures
        r == multi_matches(buf@, *multi),
{
    if multi.min_to_match == 0 {
        return true;
    }
    let n = multi.conditions.len();
    let mut curr_matches: u8 = 0;
    let mut i: usize = 0;
    while i < n
        invariant
            i <= n,
            n == multi.conditions@.len(),
            curr_matches as nat == count_matching(buf@, multi.conditions@.take(i as int)),
            curr_matches < multi.min_to_match,
        decreases n - i,
    {
        proof {
            lemma_count_take_step(buf@, multi.conditions@, i as int);
        }
        if evaluate_match(buf, &multi.conditions[i]) {
            curr_matches += 1;
            if curr_matches == multi.min_to_match {
                proof {
                    lemma_count_prefix(buf@, multi.conditions@, i + 1);
                }
                return true;
            }
        }
        i += 1;
    }
    proof {
        assert(multi.conditions@.take(n as int) =~= multi.conditions@);
    }
    false
}

/// Evaluate a magic rule: a disjunction over its conditions, first match wins.
pub fn run_magic(buf: &[u8], magic_rule: &MagicRule) -> (r: bool)
    ensures
        r == magic_matches(buf@, *magic_rule),
{
    let n = magic_rule.conditions.len();
    let mut i: usize = 0;
    while i < n
        invariant
            i <= n,
            n == magic_rule.conditions@.len(),
            forall|k: int| 0 <= k < i ==> !match_matches(buf@, #[trigger] magic_rule.conditions@[k]),
        decreases n - i,
    {
        let hit = match &magic_rule.conditions[i] {
            Match::Multi(multi) => multi_matches_exec(buf, multi),
            Match::Single(single) => evaluate_match(buf, single),
        };
        if hit {
            return true;
        }
        i += 1;
    }
    false
}

/// A Single with no children and window `[0, 0]` matches exactly when the
/// buffer begins with its bytes.
pub proof fn lemma_single_prefix(buf: Seq<u8>, s: Single)
    requires
        s.conditions@.len() == 0,
        s.offset.from == 0,
        s.offset.count == 0,
    ensures
        single_matches(buf, s) == is_prefix(buf, s.bytes@),
{
    if single_matches(buf, s) {
        let start = choose|start: int| 0 <= start <= 0 && match_at(buf, s.bytes@, start);
        assert(start == 0);
    }
    if is_prefix(buf, s.bytes@) {
        assert(match_at(buf, s.bytes@, 0));
    }
}

/// A Single with no children matches exactly when its bytes occur at some
/// start within its offset window, inside the buffer's bounds.
pub proof fn lemma_single_window(buf: Seq<u8>, s: Single)
    requires
        s.conditions@.len() == 0,
    ensures
        single_matches(buf, s) == window_matches(
            buf,
            s.bytes@,
            s.offset.from as int,
            s.offset.count as int,
        ),
{
}

/// A Multi matches exactly when at least its quorum of sub-conditions match.
pub proof fn lemma_multi_quorum(buf: Seq<u8>, m: Multi)
    ensures
        multi_matches(buf, m) == (count_matching(buf, m.conditions@) >= m.min_to_match),
{
}

/// A magic rule matches exactly when some condition of it matches.
pub proof fn lemma_magic_disjunction(buf: Seq<u8>, r: MagicRule)
    ensures
        magic_matches(buf, r) == exists|i: int|
            0 <= i < r.conditions@.len() && match_matches(buf, #[trigger] r.conditions@[i]),
{
}

/// No well-formed Single matches an empty buffer.
pub proof fn lemma_single_empty_buffer(buf: Seq<u8>, s: Single)
    requires
        buf.len() == 0,
        single_wf(s),
    ensures
        !single_matches(buf, s),
{
    assert(forall|start: int| !match_at(buf, s.bytes@, start));
}

/// If no sub-condition matches, the match count is zero.
proof fn lemma_count_none(buf: Seq<u8>, conds: Seq<Single>)
    requires
        forall|i: int| 0 <= i < conds.len() ==> !single_matches(buf, #[trigger] conds[i]),
    ensures
        count_matching(buf, conds) == 0,
    decreases conds.len(),
{
    if conds.len() > 0 {
        lemma_count_none(buf, conds.drop_last());
    }
}

/// No well-formed magic rule matches an empty buffer.
pub proof fn lemma_empty_buffer_no_magic(buf: Seq<u8>, r: MagicRule)
    requires
        buf.len() == 0,
        magic_rule_wf(r),
    ensures
        !magic_matches(buf, r),
{
    assert forall|i: int| 0 <= i < r.conditions@.len() implies !match_matches(
        buf,
        #[trigger] r.conditions@[i],
    ) by {
        match r.conditions@[i] {
            Match::Single(s) => {
                lemma_single_empty_buffer(buf, s);
            },
            Match::Multi(mu) => {
                assert(multi_wf(mu));
                assert forall|j: int| 0 <= j < mu.conditions@.len() implies !single_matches(
                    buf,
                    #[trigger] mu.conditions@[j],
                ) by {
                    lemma_single_empty_buffer(buf, mu.conditions@[j]);
                }
                lemma_count_none(buf, mu.conditions@);
            },
        }
    }
}

} // verus!
