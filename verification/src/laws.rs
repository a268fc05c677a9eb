//! Laws of the detection engine, stated and proved over its specification.

use vstd::prelude::*;
use crate::detect::{DetectorConfig, detect_spec, glob_pass, magic_candidates, magic_pass};
use crate::magic::{lemma_empty_buffer_no_magic, magic_matches};
use crate::rule::{
    MagicRule, MediaTypeRegistry, assoc_has_key, is_sub_type_spec, registry_wf,
    sorted_by_priority_desc,
};

verus! {

/// The magic pass only appends: its input is a prefix of its output, and no
/// collected type is followed by one of its own ancestors, because a rule
/// whose type already has a matched descendant is skipped.
pub proof fn lemma_magic_pass_ordering(
    sub: Seq<(String, Vec<String>)>,
    rules: Seq<(String, MagicRule)>,
    buf: Seq<u8>,
    acc: Seq<String>,
    last: u8,
)
    requires
        forall|i: int, j: int|
            0 <= i < j < acc.len() ==> !is_sub_type_spec(
                sub,
                (#[trigger] acc[j])@,
                (#[trigger] acc[i])@,
            ),
    ensures
        ({
            let out = magic_pass(sub, rules, buf, acc, last);
            &&& out.len() >= acc.len()
            &&& out.take(acc.len() as int) == acc
            &&& forall|i: int, j: int|
                0 <= i < j < out.len() ==> !is_sub_type_spec(
                    sub,
                    (#[trigger] out[j])@,
                    (#[trigger] out[i])@,
                )
        }),
    decreases rules.len(),
{
    let out = magic_pass(sub, rules, buf, acc, last);
    if rules.len() == 0 || rules[0].1.priority < last {
        assert(out.take(acc.len() as int) =~= acc);
    } else if exists|k: int|
        0 <= k < acc.len() && is_sub_type_spec(sub, rules[0].0@, (#[trigger] acc[k])@) {
        lemma_magic_pass_ordering(sub, rules.drop_first(), buf, acc, last);
    } else if magic_matches(buf, rules[0].1) {
        let acc2 = acc.push(rules[0].0);
        assert forall|i: int, j: int| 0 <= i < j < acc2.len() implies !is_sub_type_spec(
            sub,
            (#[trigger] acc2[j])@,
            (#[trigger] acc2[i])@,
        ) by {
            if j == acc.len() {
                assert(acc2[j] == rules[0].0);
                assert(acc2[i] == acc[i]);
            } else {
                assert(acc2[i] == acc[i] && acc2[j] == acc[j]);
            }
        }
        lemma_magic_pass_ordering(sub, rules.drop_first(), buf, acc2, rules[0].1.priority);
        assert(out.take(acc2.len() as int) == acc2);
        assert forall|k: int| 0 <= k < acc.len() implies out[k] == acc[k] by {
            assert(out.take(acc2.len() as int)[k] == acc2[k]);
        }
        assert(out.take(acc.len() as int) =~= acc);
    } else {
        lemma_magic_pass_ordering(sub, rules.drop_first(), buf, acc, last);
    }
}

/// After a first match at priority `p0`, with every remaining rule ranked
/// at most `p0`: whatever the pass appends matched one of those rules at
/// exactly priority `p0`.
proof fn lemma_magic_pass_running(
    sub: Seq<(String, Vec<String>)>,
    rules: Seq<(String, MagicRule)>,
    buf: Seq<u8>,
    acc: Seq<String>,
    p0: u8,
)
    requires
        forall|j: int| 0 <= j < rules.len() ==> (#[trigger] rules[j]).1.priority <= p0,
    ensures
        ({
            let out = magic_pass(sub, rules, buf, acc, p0);
            &&& out.len() >= acc.len()
            &&& out.take(acc.len() as int) == acc
            &&& forall|k: int|
                acc.len() <= k < out.len() ==> exists|j: int|
                    0 <= j < rules.len() && (#[trigger] out[k]) == rules[j].0 && magic_matches(
                        buf,
                        rules[j].1,
                    ) && rules[j].1.priority == p0
        }),
    decreases rules.len(),
{
    let out = magic_pass(sub, rules, buf, acc, p0);
    if rules.len() == 0 || rules[0].1.priority < p0 {
        assert(out.take(acc.len() as int) =~= acc);
    } else {
        let tail = rules.drop_first();
        if exists|k: int|
            0 <= k < acc.len() && is_sub_type_spec(sub, rules[0].0@, (#[trigger] acc[k])@) {
            lemma_magic_pass_running(sub, tail, buf, acc, p0);
            assert forall|k: int| acc.len() <= k < out.len() implies exists|j: int|
                0 <= j < rules.len() && (#[trigger] out[k]) == rules[j].0 && magic_matches(
                    buf,
                    rules[j].1,
                ) && rules[j].1.priority == p0 by {
                let j = choose|j: int|
                    0 <= j < tail.len() && (#[trigger] out[k]) == tail[j].0 && magic_matches(
                        buf,
                        tail[j].1,
                    ) && tail[j].1.priority == p0;
                assert(rules[j + 1] == tail[j]);
            }
        } else if magic_matches(buf, rules[0].1) {
            let acc2 = acc.push(rules[0].0);
            lemma_magic_pass_running(sub, tail, buf, acc2, p0);
            assert forall|k: int| 0 <= k < acc.len() implies out[k] == acc[k] by {
                assert(out.take(acc2.len() as int)[k] == acc2[k]);
            }
            assert(out.take(acc.len() as int) =~= acc);
            assert forall|k: int| acc.len() <= k < out.len() implies exists|j: int|
                0 <= j < rules.len() && (#[trigger] out[k]) == rules[j].0 && magic_matches(
                    buf,
                    rules[j].1,
                ) && rules[j].1.priority == p0 by {
                if k == acc.len() {
                    assert(out.take(acc2.len() as int)[k] == acc2[k]);
                    assert(out[k] == rules[0].0);
                } else {
                    let j = choose|j: int|
                        0 <= j < tail.len() && (#[trigger] out[k]) == tail[j].0 && magic_matches(
                            buf,
                            tail[j].1,
                        ) && tail[j].1.priority == p0;
                    assert(rules[j + 1] == tail[j]);
                }
            }
        } else {
            lemma_magic_pass_running(sub, tail, buf, acc, p0);
            assert forall|k: int| acc.len() <= k < out.len() implies exists|j: int|
                0 <= j < rules.len() && (#[trigger] out[k]) == rules[j].0 && magic_matches(
                    buf,
                    rules[j].1,
                ) && rules[j].1.priority == p0 by {
                let j = choose|j: int|
                    0 <= j < tail.len() && (#[trigger] out[k]) == tail[j].0 && magic_matches(
                        buf,
                        tail[j].1,
                    ) && tail[j].1.priority == p0;
                assert(rules[j + 1] == tail[j]);
            }
        }
    }
}

/// Over descending-priority rules and an empty accumulator: the pass
/// collects nothing exactly when no rule matches, and every collected type
/// matched one of its rules at the highest priority any matching rule has.
pub proof fn lemma_magic_pass_from_empty(
    sub: Seq<(String, Vec<String>)>,
    rules: Seq<(String, MagicRule)>,
    buf: Seq<u8>,
)
    requires
        sorted_by_priority_desc(rules),
    ensures
        ({
            let out = magic_pass(sub, rules, buf, Seq::empty(), 0);
            &&& (out.len() == 0 <==> forall|j: int|
                0 <= j < rules.len() ==> !magic_matches(buf, (#[trigger] rules[j]).1))
            &&& forall|k: int|
                0 <= k < out.len() ==> exists|j: int|
                    0 <= j < rules.len() && (#[trigger] out[k]) == rules[j].0 && magic_matches(
                        buf,
                        rules[j].1,
                    ) && (forall|j2: int|
                        0 <= j2 < rules.len() && magic_matches(buf, (#[trigger] rules[j2]).1)
                            ==> rules[j2].1.priority <= rules[j].1.priority)
        }),
    decreases rules.len(),
{
    let empty_acc = Seq::<String>::empty();
    let out = magic_pass(sub, rules, buf, empty_acc, 0);
    if rules.len() == 0 {
    } else {
        let tail = rules.drop_first();
        assert(forall|j: int| 0 <= j < tail.len() ==> (#[trigger] tail[j]) == rules[j + 1]);
        if magic_matches(buf, rules[0].1) {
            let p0 = rules[0].1.priority;
            let acc2 = empty_acc.push(rules[0].0);
            assert(out == magic_pass(sub, tail, buf, acc2, p0));
            lemma_magic_pass_running(sub, tail, buf, acc2, p0);
            assert(out.len() >= 1);
            assert forall|k: int| 0 <= k < out.len() implies exists|j: int|
                0 <= j < rules.len() && (#[trigger] out[k]) == rules[j].0 && magic_matches(
                    buf,
                    rules[j].1,
                ) && (forall|j2: int|
                    0 <= j2 < rules.len() && magic_matches(buf, (#[trigger] rules[j2]).1)
                        ==> rules[j2].1.priority <= rules[j].1.priority) by {
                if k == 0 {
                    assert(out.take(1)[0] == acc2[0]);
                    assert(out[0] == rules[0].0);
                    assert(forall|j2: int|
                        0 <= j2 < rules.len() ==> (#[trigger] rules[j2]).1.priority <= p0);
                } else {
                    let j = choose|j: int|
                        0 <= j < tail.len() && (#[trigger] out[k]) == tail[j].0 && magic_matches(
                            buf,
                            tail[j].1,
                        ) && tail[j].1.priority == p0;
                    assert(rules[j + 1] == tail[j]);
                    assert(forall|j2: int|
                        0 <= j2 < rules.len() ==> (#[trigger] rules[j2]).1.priority <= p0);
                }
            }
        } else {
            assert(out == magic_pass(sub, tail, buf, empty_acc, 0));
            lemma_magic_pass_from_empty(sub, tail, buf);
            if forall|j: int| 0 <= j < tail.len() ==> !magic_matches(buf, (#[trigger] tail[j]).1) {
                assert forall|j: int| 0 <= j < rules.len() implies !magic_matches(
                    buf,
                    (#[trigger] rules[j]).1,
                ) by {
                    if j >= 1 {
                        assert(tail[j - 1] == rules[j]);
                    }
                }
            } else {
                let j = choose|j: int|
                    0 <= j < tail.len() && magic_matches(buf, (#[trigger] tail[j]).1);
                assert(rules[j + 1] == tail[j]);
                assert(magic_matches(buf, rules[j + 1].1));
            }
            assert forall|k: int| 0 <= k < out.len() implies exists|j: int|
                0 <= j < rules.len() && (#[trigger] out[k]) == rules[j].0 && magic_matches(
                    buf,
                    rules[j].1,
                ) && (forall|j2: int|
                    0 <= j2 < rules.len() && magic_matches(buf, (#[trigger] rules[j2]).1)
                        ==> rules[j2].1.priority <= rules[j].1.priority) by {
                let j = choose|j: int|
                    0 <= j < tail.len() && (#[trigger] out[k]) == tail[j].0 && magic_matches(
                        buf,
                        tail[j].1,
                    ) && (forall|j2: int|
                        0 <= j2 < tail.len() && magic_matches(buf, (#[trigger] tail[j2]).1)
                            ==> tail[j2].1.priority <= tail[j].1.priority);
                assert(rules[j + 1] == tail[j]);
                assert forall|j2: int|
                    0 <= j2 < rules.len() && magic_matches(buf, (#[trigger] rules[j2]).1) implies
                    rules[j2].1.priority <= rules[j + 1].1.priority by {
                    assert(j2 >= 1);
                    assert(tail[j2 - 1] == rules[j2]);
                }
            }
        }
    }
}

/// Specificity: if the magic pass collected a type and a strict descendant
/// of it, its answer — the last collected type — is never the ancestor.
pub proof fn lemma_specificity(
    reg: MediaTypeRegistry,
    buf: Seq<u8>,
    parent: Seq<char>,
    child: Seq<char>,
)
    requires
        parent != child,
        is_sub_type_spec(reg.sub_types@, parent, child),
        exists|i: int|
            0 <= i < magic_candidates(reg, buf).len() && (#[trigger] magic_candidates(reg, buf)[i])@
                == parent,
        exists|i: int|
            0 <= i < magic_candidates(reg, buf).len() && (#[trigger] magic_candidates(reg, buf)[i])@
                == child,
    ensures
        magic_candidates(reg, buf).len() > 0,
        magic_candidates(reg, buf).last()@ != parent,
{
    let out = magic_candidates(reg, buf);
    lemma_magic_pass_ordering(reg.sub_types@, reg.magic_rules@, buf, Seq::empty(), 0);
    let ic = choose|i: int| 0 <= i < out.len() && (#[trigger] out[i])@ == child;
    let last = out.len() - 1;
    if out[last]@ == parent {
        if ic == last {
            assert(parent == child);
        } else {
            assert(!is_sub_type_spec(reg.sub_types@, out[last]@, out[ic]@));
        }
    }
}

/// Specificity at the engine level: with magic enabled and no glob result,
/// detection never answers with a type of which a matched strict descendant
/// was also collected.
pub proof fn lemma_detect_never_returns_matched_ancestor(
    reg: MediaTypeRegistry,
    cfg: DetectorConfig,
    name: Option<Seq<u8>>,
    buf: Seq<u8>,
    parent: Seq<char>,
    child: Seq<char>,
)
    requires
        cfg.enable_magic,
        (match name {
            Some(nb) => !cfg.enable_glob || glob_pass(reg.glob_rules@, nb) is None,
            None => true,
        }),
        parent != child,
        is_sub_type_spec(reg.sub_types@, parent, child),
        exists|i: int|
            0 <= i < magic_candidates(reg, buf).len() && (#[trigger] magic_candidates(reg, buf)[i])@
                == parent,
        exists|i: int|
            0 <= i < magic_candidates(reg, buf).len() && (#[trigger] magic_candidates(reg, buf)[i])@
                == child,
    ensures
        match detect_spec(reg, cfg, name, buf) {
            Some(t) => t@ != parent,
            None => true,
        },
{
    lemma_specificity(reg, buf, parent, child);
}

/// Priority: a type whose matching magic rules all rank strictly below some
/// matching rule is never collected by the magic pass, and so never returned
/// from it.
pub proof fn lemma_priority(reg: MediaTypeRegistry, buf: Seq<u8>, a_idx: int, b: Seq<char>)
    requires
        registry_wf(reg),
        0 <= a_idx < reg.magic_rules@.len(),
        magic_matches(buf, reg.magic_rules@[a_idx].1),
        forall|j: int|
            0 <= j < reg.magic_rules@.len() && (#[trigger] reg.magic_rules@[j]).0@ == b
                && magic_matches(buf, reg.magic_rules@[j].1) ==> reg.magic_rules@[j].1.priority
                < reg.magic_rules@[a_idx].1.priority,
    ensures
        forall|k: int|
            0 <= k < magic_candidates(reg, buf).len() ==> (#[trigger] magic_candidates(
                reg,
                buf,
            )[k])@ != b,
{
    let rules = reg.magic_rules@;
    let out = magic_candidates(reg, buf);
    lemma_magic_pass_from_empty(reg.sub_types@, rules, buf);
    assert forall|k: int| 0 <= k < out.len() implies (#[trigger] out[k])@ != b by {
        let j = choose|j: int|
            0 <= j < rules.len() && out[k] == (#[trigger] rules[j]).0 && magic_matches(
                buf,
                rules[j].1,
            ) && (forall|j2: int|
                0 <= j2 < rules.len() && magic_matches(buf, (#[trigger] rules[j2]).1)
                    ==> rules[j2].1.priority <= rules[j].1.priority);
        if out[k]@ == b {
            assert(rules[j].1.priority < rules[a_idx].1.priority);
            assert(rules[a_idx].1.priority <= rules[j].1.priority);
        }
    }
}

/// Priority at the engine level: with no glob result, detection never
/// answers with a type that only matched strictly below another matching
/// rule.
pub proof fn lemma_detect_honors_priority(
    reg: MediaTypeRegistry,
    cfg: DetectorConfig,
    name: Option<Seq<u8>>,
    buf: Seq<u8>,
    a_idx: int,
    b: Seq<char>,
)
    requires
        registry_wf(reg),
        (match name {
            Some(nb) => !cfg.enable_glob || glob_pass(reg.glob_rules@, nb) is None,
            None => true,
        }),
        0 <= a_idx < reg.magic_rules@.len(),
        magic_matches(buf, reg.magic_rules@[a_idx].1),
        forall|j: int|
            0 <= j < reg.magic_rules@.len() && (#[trigger] reg.magic_rules@[j]).0@ == b
                && magic_matches(buf, reg.magic_rules@[j].1) ==> reg.magic_rules@[j].1.priority
                < reg.magic_rules@[a_idx].1.priority,
    ensures
        match detect_spec(reg, cfg, name, buf) {
            Some(t) => t@ != b,
            None => true,
        },
{
    lemma_priority(reg, buf, a_idx, b);
    let out = magic_candidates(reg, buf);
    if cfg.enable_magic && out.len() > 0 {
        assert(out[out.len() - 1]@ != b);
    }
}

/// An empty buffer matches no rule of a well-formed registry: the magic
/// pass over it collects nothing.
pub proof fn lemma_empty_buffer_no_candidates(reg: MediaTypeRegistry, buf: Seq<u8>)
    requires
        registry_wf(reg),
        buf.len() == 0,
    ensures
        magic_candidates(reg, buf).len() == 0,
{
    let rules = reg.magic_rules@;
    assert forall|j: int| 0 <= j < rules.len() implies !magic_matches(
        buf,
        (#[trigger] rules[j]).1,
    ) by {
        lemma_empty_buffer_no_magic(buf, rules[j].1);
    }
    lemma_magic_pass_from_empty(reg.sub_types@, rules, buf);
}

/// Detection is deterministic: the answer is a pure function of the
/// registry, the configuration, the name and the buffer, so two detections
/// over equal inputs give equal answers.
pub proof fn lemma_detect_deterministic(
    reg1: MediaTypeRegistry,
    cfg1: DetectorConfig,
    name1: Option<Seq<u8>>,
    buf1: Seq<u8>,
    reg2: MediaTypeRegistry,
    cfg2: DetectorConfig,
    name2: Option<Seq<u8>>,
    buf2: Seq<u8>,
)
    requires
        reg1 == reg2,
        cfg1 == cfg2,
        name1 == name2,
        buf1 == buf2,
    ensures
        detect_spec(reg1, cfg1, name1, buf1) == detect_spec(reg2, cfg2, name2, buf2),
{
}

/// Every resource name is tried against the glob rules — one without an
/// extension separator as much as any other: whenever globs are enabled and
/// some rule matches the name, the glob result decides the answer.
pub proof fn lemma_glob_tried_for_every_name(
    reg: MediaTypeRegistry,
    cfg: DetectorConfig,
    name: Seq<u8>,
    buf: Seq<u8>,
)
    requires
        cfg.enable_glob,
        glob_pass(reg.glob_rules@, name) is Some,
    ensures
        detect_spec(reg, cfg, Some(name), buf) == glob_pass(reg.glob_rules@, name),
{
}

/// When glob rules are prioritised and both a glob result and magic
/// candidates are present, the glob result wins.
pub proof fn lemma_prioritise_glob(
    reg: MediaTypeRegistry,
    cfg: DetectorConfig,
    name: Seq<u8>,
    buf: Seq<u8>,
)
    requires
        cfg.prioritise_glob,
        cfg.enable_glob,
        glob_pass(reg.glob_rules@, name) is Some,
        magic_candidates(reg, buf).len() > 0,
    ensures
        detect_spec(reg, cfg, Some(name), buf) == glob_pass(reg.glob_rules@, name),
{
}

/// Every media type referenced by the hierarchy — the root types and every
/// subclass child — is a key of the rules registry.
pub proof fn lemma_hierarchy_types_registered(reg: MediaTypeRegistry)
    requires
        registry_wf(reg),
    ensures
        forall|i: int|
            0 <= i < reg.root_types@.len() ==> assoc_has_key(
                reg.rules_registry@,
                (#[trigger] reg.root_types@[i])@,
            ),
        forall|i: int, j: int|
            0 <= i < reg.sub_types@.len() && 0 <= j < (#[trigger] reg.sub_types@[i]).1@.len()
                ==> assoc_has_key(reg.rules_registry@, (#[trigger] reg.sub_types@[i].1@[j])@),
{
}

} // verus!
