//! The built-in registry: a compiled rule set for common media types,
//! emitted as source so that loading performs no parsing at runtime.

use vstd::prelude::*;
use vstd::string::{StrSliceExecFns, StringSliceAdditionalSpecFns};
use crate::bytes_util::{is_prefix, is_suffix, match_at};
use crate::compile::{magic_rule_eq, single_eq};
use crate::detect::{DetectorConfig, detect_spec, glob_pass, magic_candidates, magic_pass};
use crate::glob::glob_rule_matches;
use crate::magic::{magic_matches, match_matches, window_matches};
use crate::rule::{
    GlobRule, GlobType, MagicRule, Match, MediaTypeRegistry, Offset, Rule, Single, assoc_get,
    assoc_has_key, is_sub_type_spec, reaches, registry_wf,
};

verus! {

/// The leading bytes of a PNG stream.
pub open spec fn png_signature() -> Seq<u8> {
    seq![0x89u8, 0x50u8, 0x4Eu8, 0x47u8, 0x0Du8, 0x0Au8, 0x1Au8, 0x0Au8]
}

/// The leading bytes of a JPEG stream.
pub open spec fn jpeg_signature() -> Seq<u8> {
    seq![0xFFu8, 0xD8u8, 0xFFu8]
}

/// A one-condition magic rule: a single childless pattern at a fixed window.
pub open spec fn is_plain_magic(m: MagicRule, priority: u8, from: u32, count: u32, bytes: Seq<u8>) -> bool {
    &&& m.priority == priority
    &&& m.conditions@.len() == 1
    &&& (m.conditions@[0] matches Match::Single(s) && s.offset.from == from && s.offset.count
        == count && s.bytes@ == bytes && s.conditions@.len() == 0)
}

/// A suffix glob rule with the given pattern bytes.
pub open spec fn is_suffix_glob(g: GlobRule, pattern: Seq<u8>) -> bool {
    &&& g.glob_type == GlobType::EndsWith
    &&& g.pattern@ == pattern
}

/// The exact content of the built-in registry: five registered types, their
/// per-type rules (globs first), the flat magic list sorted by descending
/// priority, the flat glob list in registration order, one subclass edge
/// (`application/json` under `text/plain`), and four root types.
pub open spec fn builtin_registry_desc(r: MediaTypeRegistry) -> bool {
    &&& r.rules_registry@.len() == 5
    &&& r.rules_registry@[0].0@ == "image/png"@
    &&& r.rules_registry@[0].1@.len() == 2
    &&& (r.rules_registry@[0].1@[0] matches Rule::Glob(g) && is_suffix_glob(g, ".png".spec_bytes()))
    &&& (r.rules_registry@[0].1@[1] matches Rule::Magic(m) && is_plain_magic(
        m,
        50,
        0,
        0,
        png_signature(),
    ))
    &&& r.rules_registry@[1].0@ == "image/jpeg"@
    &&& r.rules_registry@[1].1@.len() == 3
    &&& (r.rules_registry@[1].1@[0] matches Rule::Glob(g) && is_suffix_glob(g, ".jpg".spec_bytes()))
    &&& (r.rules_registry@[1].1@[1] matches Rule::Glob(g) && is_suffix_glob(
        g,
        ".jpeg".spec_bytes(),
    ))
    &&& (r.rules_registry@[1].1@[2] matches Rule::Magic(m) && is_plain_magic(
        m,
        50,
        0,
        0,
        jpeg_signature(),
    ))
    &&& r.rules_registry@[2].0@ == "image/heic"@
    &&& r.rules_registry@[2].1@.len() == 2
    &&& (r.rules_registry@[2].1@[0] matches Rule::Glob(g) && is_suffix_glob(
        g,
        ".heic".spec_bytes(),
    ))
    &&& (r.rules_registry@[2].1@[1] matches Rule::Magic(m) && is_plain_magic(
        m,
        60,
        4,
        0,
        "ftypheic".spec_bytes(),
    ))
    &&& r.rules_registry@[3].0@ == "application/json"@
    &&& r.rules_registry@[3].1@.len() == 2
    &&& (r.rules_registry@[3].1@[0] matches Rule::Glob(g) && is_suffix_glob(
        g,
        ".json".spec_bytes(),
    ))
    &&& (r.rules_registry@[3].1@[1] matches Rule::Magic(m) && is_plain_magic(
        m,
        50,
        0,
        4,
        "{\"".spec_bytes(),
    ))
    &&& r.rules_registry@[4].0@ == "text/plain"@
    &&& r.rules_registry@[4].1@.len() == 1
    &&& (r.rules_registry@[4].1@[0] matches Rule::Glob(g) && is_suffix_glob(g, ".txt".spec_bytes()))
    &&& r.magic_rules@.len() == 4
    &&& r.magic_rules@[0].0@ == "image/heic"@
    &&& is_plain_magic(r.magic_rules@[0].1, 60, 4, 0, "ftypheic".spec_bytes())
    &&& r.magic_rules@[1].0@ == "image/png"@
    &&& is_plain_magic(r.magic_rules@[1].1, 50, 0, 0, png_signature())
    &&& r.magic_rules@[2].0@ == "image/jpeg"@
    &&& is_plain_magic(r.magic_rules@[2].1, 50, 0, 0, jpeg_signature())
    &&& r.magic_rules@[3].0@ == "application/json"@
    &&& is_plain_magic(r.magic_rules@[3].1, 50, 0, 4, "{\"".spec_bytes())
    &&& r.glob_rules@.len() == 6
    &&& r.glob_rules@[0].0@ == "image/png"@
    &&& is_suffix_glob(r.glob_rules@[0].1, ".png".spec_bytes())
    &&& r.glob_rules@[1].0@ == "image/jpeg"@
    &&& is_suffix_glob(r.glob_rules@[1].1, ".jpg".spec_bytes())
    &&& r.glob_rules@[2].0@ == "image/jpeg"@
    &&& is_suffix_glob(r.glob_rules@[2].1, ".jpeg".spec_bytes())
    &&& r.glob_rules@[3].0@ == "image/heic"@
    &&& is_suffix_glob(r.glob_rules@[3].1, ".heic".spec_bytes())
    &&& r.glob_rules@[4].0@ == "application/json"@
    &&& is_suffix_glob(r.glob_rules@[4].1, ".json".spec_bytes())
    &&& r.glob_rules@[5].0@ == "text/plain"@
    &&& is_suffix_glob(r.glob_rules@[5].1, ".txt".spec_bytes())
    &&& r.sub_types@.len() == 1
    &&& r.sub_types@[0].0@ == "text/plain"@
    &&& r.sub_types@[0].1@.len() == 1
    &&& r.sub_types@[0].1@[0]@ == "application/json"@
    &&& r.root_types@.len() == 4
    &&& r.root_types@[0]@ == "image/png"@
    &&& r.root_types@[1]@ == "image/jpeg"@
    &&& r.root_types@[2]@ == "image/heic"@
    &&& r.root_types@[3]@ == "text/plain"@
}

/// A Single matching `bytes` anywhere in `[from, from + count]`.
fn single_at(from: u32, count: u32, bytes: Vec<u8>) -> (r: Match)
    ensures
        r matches Match::Single(s) && s.offset.from == from && s.offset.count == count && s.bytes
            == bytes && s.conditions@.len() == 0,
{
    Match::Single(Single { offset: Offset { from, count }, bytes, conditions: Vec::new() })
}

/// A one-condition magic rule.
fn magic_rule(priority: u8, condition: Match) -> (r: MagicRule)
    ensures
        r.priority == priority,
        r.conditions@.len() == 1,
        r.conditions@[0] == condition,
{
    let mut conditions: Vec<Match> = Vec::new();
    conditions.push(condition);
    MagicRule { priority, conditions }
}

/// A suffix glob rule.
fn suffix_glob(pattern: &str) -> (r: GlobRule)
    ensures
        is_suffix_glob(r, pattern.spec_bytes()),
{
    GlobRule { pattern: pattern.as_bytes_vec(), glob_type: GlobType::EndsWith }
}

fn png_magic() -> (r: MagicRule)
    ensures
        is_plain_magic(r, 50, 0, 0, png_signature()),
{
    let bytes: Vec<u8> = vec![0x89u8, 0x50u8, 0x4Eu8, 0x47u8, 0x0Du8, 0x0Au8, 0x1Au8, 0x0Au8];
    proof {
        assert(bytes@ =~= png_signature());
    }
    magic_rule(50, single_at(0, 0, bytes))
}

fn jpeg_magic() -> (r: MagicRule)
    ensures
        is_plain_magic(r, 50, 0, 0, jpeg_signature()),
{
    let bytes: Vec<u8> = vec![0xFFu8, 0xD8u8, 0xFFu8];
    proof {
        assert(bytes@ =~= jpeg_signature());
    }
    magic_rule(50, single_at(0, 0, bytes))
}

fn heic_magic() -> (r: MagicRule)
    ensures
        is_plain_magic(r, 60, 4, 0, "ftypheic".spec_bytes()),
{
    magic_rule(60, single_at(4, 0, "ftypheic".as_bytes_vec()))
}

fn json_magic() -> (r: MagicRule)
    ensures
        is_plain_magic(r, 50, 0, 4, "{\"".spec_bytes()),
{
    magic_rule(50, single_at(0, 4, "{\"".as_bytes_vec()))
}

/// The five media type names are pairwise distinct strings.
proof fn lemma_builtin_names_distinct()
    ensures
        "image/png"@ != "image/jpeg"@,
        "image/png"@ != "image/heic"@,
        "image/png"@ != "application/json"@,
        "image/png"@ != "text/plain"@,
        "image/jpeg"@ != "image/heic"@,
        "image/jpeg"@ != "application/json"@,
        "image/jpeg"@ != "text/plain"@,
        "image/heic"@ != "application/json"@,
        "image/heic"@ != "text/plain"@,
        "application/json"@ != "text/plain"@,
{
    reveal_strlit("image/png");
    reveal_strlit("image/jpeg");
    reveal_strlit("image/heic");
    reveal_strlit("application/json");
    reveal_strlit("text/plain");
    assert("image/png"@.len() == 9);
    assert("image/jpeg"@.len() == 10);
    assert("image/heic"@.len() == 10);
    assert("application/json"@.len() == 16);
    assert("text/plain"@.len() == 10);
    assert("image/jpeg"@[6] == 'j' && "image/heic"@[6] == 'h');
    assert("text/plain"@[0] == 't' && "image/jpeg"@[0] == 'i' && "image/heic"@[0] == 'i');
}

/// The magic byte patterns of the built-in rules are non-empty.
proof fn lemma_builtin_patterns_nonempty()
    ensures
        "ftypheic".spec_bytes().len() == 8,
        "{\"".spec_bytes().len() == 2,
{
    reveal_strlit("ftypheic");
    reveal_strlit("{\"");
    assert("ftypheic".is_ascii());
    assert("{\"".is_ascii());
    broadcast use vstd::string::is_ascii_spec_bytes;

    assert("ftypheic".spec_bytes().len() == "ftypheic"@.len());
    assert("{\"".spec_bytes().len() == "{\""@.len());
}

/// Load the built-in media type registry. Loading runs no parser: the rule
/// set is source data, proved well-formed and pinned down entry by entry,
/// so every load returns the same rule set.
pub fn load_type_registry() -> (r: MediaTypeRegistry)
    ensures
        registry_wf(r),
        builtin_registry_desc(r),
{
    let mut rules_registry: Vec<(String, Vec<Rule>)> = Vec::new();

    let mut png_rules: Vec<Rule> = Vec::new();
    png_rules.push(Rule::Glob(suffix_glob(".png")));
    png_rules.push(Rule::Magic(png_magic()));
    rules_registry.push(("image/png".to_owned(), png_rules));

    let mut jpeg_rules: Vec<Rule> = Vec::new();
    jpeg_rules.push(Rule::Glob(suffix_glob(".jpg")));
    jpeg_rules.push(Rule::Glob(suffix_glob(".jpeg")));
    jpeg_rules.push(Rule::Magic(jpeg_magic()));
    rules_registry.push(("image/jpeg".to_owned(), jpeg_rules));

    let mut heic_rules: Vec<Rule> = Vec::new();
    heic_rules.push(Rule::Glob(suffix_glob(".heic")));
    heic_rules.push(Rule::Magic(heic_magic()));
    rules_registry.push(("image/heic".to_owned(), heic_rules));

    let mut json_rules: Vec<Rule> = Vec::new();
    json_rules.push(Rule::Glob(suffix_glob(".json")));
    json_rules.push(Rule::Magic(json_magic()));
    rules_registry.push(("application/json".to_owned(), json_rules));

    let mut text_rules: Vec<Rule> = Vec::new();
    text_rules.push(Rule::Glob(suffix_glob(".txt")));
    rules_registry.push(("text/plain".to_owned(), text_rules));

    let mut magic_rules: Vec<(String, MagicRule)> = Vec::new();
    magic_rules.push(("image/heic".to_owned(), heic_magic()));
    magic_rules.push(("image/png".to_owned(), png_magic()));
    magic_rules.push(("image/jpeg".to_owned(), jpeg_magic()));
    magic_rules.push(("application/json".to_owned(), json_magic()));

    let mut glob_rules: Vec<(String, GlobRule)> = Vec::new();
    glob_rules.push(("image/png".to_owned(), suffix_glob(".png")));
    glob_rules.push(("image/jpeg".to_owned(), suffix_glob(".jpg")));
    glob_rules.push(("image/jpeg".to_owned(), suffix_glob(".jpeg")));
    glob_rules.push(("image/heic".to_owned(), suffix_glob(".heic")));
    glob_rules.push(("application/json".to_owned(), suffix_glob(".json")));
    glob_rules.push(("text/plain".to_owned(), suffix_glob(".txt")));

    let mut children: Vec<String> = Vec::new();
    children.push("application/json".to_owned());
    let mut sub_types: Vec<(String, Vec<String>)> = Vec::new();
    sub_types.push(("text/plain".to_owned(), children));

    let mut root_types: Vec<String> = Vec::new();
    root_types.push("image/png".to_owned());
    root_types.push("image/jpeg".to_owned());
    root_types.push("image/heic".to_owned());
    root_types.push("text/plain".to_owned());

    let r = MediaTypeRegistry { rules_registry, magic_rules, glob_rules, sub_types, root_types };
    proof {
        lemma_builtin_names_distinct();
        lemma_builtin_patterns_nonempty();
        assert(builtin_registry_desc(r));
        lemma_builtin_registry_wf(r);
    }
    r
}

/// The built-in rule set satisfies the registry invariant.
proof fn lemma_builtin_registry_wf(r: MediaTypeRegistry)
    requires
        builtin_registry_desc(r),
        "image/png"@ != "image/jpeg"@,
        "image/png"@ != "image/heic"@,
        "image/png"@ != "application/json"@,
        "image/png"@ != "text/plain"@,
        "image/jpeg"@ != "image/heic"@,
        "image/jpeg"@ != "application/json"@,
        "image/jpeg"@ != "text/plain"@,
        "image/heic"@ != "application/json"@,
        "image/heic"@ != "text/plain"@,
        "application/json"@ != "text/plain"@,
        png_signature().len() == 8,
        jpeg_signature().len() == 3,
        "ftypheic".spec_bytes().len() == 8,
        "{\"".spec_bytes().len() == 2,
    ensures
        registry_wf(r),
{
    // hierarchy references are registered
    assert(r.rules_registry@[0].0@ == "image/png"@);
    assert(assoc_has_key(r.rules_registry@, "image/png"@));
    assert(assoc_has_key(r.rules_registry@, "image/jpeg"@));
    assert(assoc_has_key(r.rules_registry@, "image/heic"@));
    assert(assoc_has_key(r.rules_registry@, "application/json"@));
    assert(assoc_has_key(r.rules_registry@, "text/plain"@));
    // no type reaches itself: the one edge leads from text/plain to
    // application/json, which has no edges of its own
    let sub = r.sub_types@;
    assert(sub.drop_first() =~= Seq::<(String, Vec<String>)>::empty());
    assert(assoc_get(sub, "application/json"@) == assoc_get(sub.drop_first(), "application/json"@));
    assert(assoc_get(sub, "application/json"@) is None);
    assert(!reaches(sub, "application/json"@, "text/plain"@, 2));
    assert(assoc_get(sub, "text/plain"@) == Some(sub[0].1));
    assert(!reaches(sub, "text/plain"@, "text/plain"@, 3));
}

/// A one-condition magic rule matches exactly when its pattern occurs in
/// its window.
proof fn lemma_plain_magic_eval(buf: Seq<u8>, m: MagicRule, priority: u8, from: u32, count: u32, bytes: Seq<u8>)
    requires
        is_plain_magic(m, priority, from, count, bytes),
    ensures
        magic_matches(buf, m) == window_matches(buf, bytes, from as int, count as int),
{
    let s = m.conditions@[0];
    if window_matches(buf, bytes, from as int, count as int) {
        assert(match_matches(buf, m.conditions@[0]));
        assert(magic_matches(buf, m));
    }
    if magic_matches(buf, m) {
        let i = choose|i: int| 0 <= i < m.conditions@.len() && match_matches(
            buf,
            #[trigger] m.conditions@[i],
        );
        assert(i == 0);
    }
}

/// No type but `text/plain` has descendants in the built-in hierarchy.
proof fn lemma_builtin_no_subtype(r: MediaTypeRegistry, t: Seq<char>, c: Seq<char>)
    requires
        builtin_registry_desc(r),
        t != "text/plain"@,
    ensures
        !is_sub_type_spec(r.sub_types@, t, c),
{
    let sub = r.sub_types@;
    assert(assoc_get(sub, t) == assoc_get(sub.drop_first(), t));
    assert(sub.drop_first() =~= Seq::<(String, Vec<String>)>::empty());
    assert(assoc_get(sub, t) is None);
    assert(!reaches(sub, t, c, 1));
}

/// The byte lengths of the built-in patterns.
proof fn lemma_builtin_pattern_lens()
    ensures
        ".png".spec_bytes().len() == 4,
        ".jpg".spec_bytes().len() == 4,
        ".jpeg".spec_bytes().len() == 5,
        ".heic".spec_bytes().len() == 5,
        ".json".spec_bytes().len() == 5,
        ".txt".spec_bytes().len() == 4,
{
    broadcast use vstd::string::is_ascii_spec_bytes;

    reveal_strlit(".png");
    reveal_strlit(".jpg");
    reveal_strlit(".jpeg");
    reveal_strlit(".heic");
    reveal_strlit(".json");
    reveal_strlit(".txt");
    assert(".png".is_ascii() && ".jpg".is_ascii() && ".jpeg".is_ascii() && ".heic".is_ascii()
        && ".json".is_ascii() && ".txt".is_ascii());
}

/// What the magic pass collects over the built-in rules, given which of the
/// four rules match: a matching HEIC rule wins alone at its higher priority;
/// otherwise the matching rules at priority 50 are collected in order.
proof fn lemma_builtin_magic_pass(r: MediaTypeRegistry, buf: Seq<u8>)
    requires
        builtin_registry_desc(r),
    ensures
        ({
            let rules = r.magic_rules@;
            let heic = magic_matches(buf, rules[0].1);
            let png = magic_matches(buf, rules[1].1);
            let jpeg = magic_matches(buf, rules[2].1);
            let json = magic_matches(buf, rules[3].1);
            magic_candidates(r, buf) == if heic {
                seq![rules[0].0]
            } else {
                (if png {
                    seq![rules[1].0]
                } else {
                    Seq::empty()
                }) + (if jpeg {
                    seq![rules[2].0]
                } else {
                    Seq::empty()
                }) + (if json {
                    seq![rules[3].0]
                } else {
                    Seq::empty()
                })
            }
        }),
{
    let rules = r.magic_rules@;
    let sub = r.sub_types@;
    let e = Seq::<String>::empty();
    assert(rules.skip(0) =~= rules);
    assert(rules.skip(0).drop_first() =~= rules.skip(1));
    assert(rules.skip(1).drop_first() =~= rules.skip(2));
    assert(rules.skip(2).drop_first() =~= rules.skip(3));
    assert(rules.skip(3).drop_first() =~= rules.skip(4));
    assert(rules.skip(4) =~= Seq::<(String, MagicRule)>::empty());
    assert(rules.skip(1)[0] == rules[1] && rules.skip(2)[0] == rules[2] && rules.skip(3)[0]
        == rules[3]);
    reveal_strlit("image/png");
    reveal_strlit("image/jpeg");
    reveal_strlit("image/heic");
    reveal_strlit("application/json");
    reveal_strlit("text/plain");
    assert("image/png"@.len() == 9 && "image/jpeg"@.len() == 10 && "image/heic"@.len() == 10
        && "application/json"@.len() == 16 && "text/plain"@.len() == 10);
    assert("image/jpeg"@[6] == 'j' && "image/heic"@[6] == 'h');
    let heic = magic_matches(buf, rules[0].1);
    let png = magic_matches(buf, rules[1].1);
    let jpeg = magic_matches(buf, rules[2].1);
    let json = magic_matches(buf, rules[3].1);
    if heic {
        // collected at priority 60; every later rule is gated out
        assert(magic_candidates(r, buf) == magic_pass(sub, rules.skip(1), buf, e.push(rules[0].0), 60));
        assert(magic_pass(sub, rules.skip(1), buf, e.push(rules[0].0), 60) == e.push(rules[0].0));
        assert(magic_candidates(r, buf) =~= seq![rules[0].0]);
    } else {
        assert(magic_candidates(r, buf) == magic_pass(sub, rules.skip(1), buf, e, 0));
        let acc1 = if png { e.push(rules[1].0) } else { e };
        let last1: u8 = if png { 50 } else { 0 };
        if png {
            assert(magic_pass(sub, rules.skip(1), buf, e, 0) == magic_pass(sub, rules.skip(2), buf, acc1, last1));
        } else {
            assert(magic_pass(sub, rules.skip(1), buf, e, 0) == magic_pass(sub, rules.skip(2), buf, acc1, last1));
        }
        // the jpeg rule is never skipped: its type has no matched descendant
        assert forall|k: int| 0 <= k < acc1.len() implies !is_sub_type_spec(
            sub,
            rules[2].0@,
            (#[trigger] acc1[k])@,
        ) by {
            lemma_builtin_no_subtype(r, "image/jpeg"@, acc1[k]@);
        }
        let acc2 = if jpeg { acc1.push(rules[2].0) } else { acc1 };
        let last2: u8 = if jpeg { 50 } else { last1 };
        assert(magic_pass(sub, rules.skip(2), buf, acc1, last1) == magic_pass(sub, rules.skip(3), buf, acc2, last2));
        assert forall|k: int| 0 <= k < acc2.len() implies !is_sub_type_spec(
            sub,
            rules[3].0@,
            (#[trigger] acc2[k])@,
        ) by {
            lemma_builtin_no_subtype(r, "application/json"@, acc2[k]@);
        }
        let acc3 = if json { acc2.push(rules[3].0) } else { acc2 };
        assert(magic_pass(sub, rules.skip(3), buf, acc2, last2) == magic_pass(sub, rules.skip(4), buf, acc3, if json { 50 } else { last2 }));
        assert(magic_pass(sub, rules.skip(4), buf, acc3, if json { 50 } else { last2 }) == acc3);
        assert(magic_candidates(r, buf) =~= (if png {
            seq![rules[1].0]
        } else {
            Seq::<String>::empty()
        }) + (if jpeg {
            seq![rules[2].0]
        } else {
            Seq::<String>::empty()
        }) + (if json {
            seq![rules[3].0]
        } else {
            Seq::<String>::empty()
        }));
    }
}
/// A window of width zero holds the pattern exactly when the pattern sits
/// at its start.
proof fn lemma_window_at(buf: Seq<u8>, bytes: Seq<u8>, from: int)
    ensures
        window_matches(buf, bytes, from, 0) == match_at(buf, bytes, from),
{
    if window_matches(buf, bytes, from, 0) {
        let start = choose|start: int| from <= start <= from && match_at(buf, bytes, start);
        assert(start == from);
    }
}

/// Over the built-in rules: a buffer beginning with the JPEG signature that
/// carries neither the HEIC brand nor a leading JSON token is detected as
/// image/jpeg, by magic alone.
pub proof fn lemma_builtin_detects_jpeg(
    r: MediaTypeRegistry,
    cfg: DetectorConfig,
    name: Option<Seq<u8>>,
    buf: Seq<u8>,
)
    requires
        builtin_registry_desc(r),
        cfg.enable_magic,
        (match name {
            Some(nb) => !cfg.enable_glob || glob_pass(r.glob_rules@, nb) is None,
            None => true,
        }),
        is_prefix(buf, jpeg_signature()),
        !match_at(buf, "ftypheic".spec_bytes(), 4),
        !window_matches(buf, "{\"".spec_bytes(), 0, 4),
    ensures
        detect_spec(r, cfg, name, buf) matches Some(t) && t@ == "image/jpeg"@,
{
    let rules = r.magic_rules@;
    lemma_plain_magic_eval(buf, rules[0].1, 60, 4, 0, "ftypheic".spec_bytes());
    lemma_plain_magic_eval(buf, rules[1].1, 50, 0, 0, png_signature());
    lemma_plain_magic_eval(buf, rules[2].1, 50, 0, 0, jpeg_signature());
    lemma_plain_magic_eval(buf, rules[3].1, 50, 0, 4, "{\"".spec_bytes());
    lemma_window_at(buf, "ftypheic".spec_bytes(), 4);
    lemma_window_at(buf, png_signature(), 0);
    lemma_window_at(buf, jpeg_signature(), 0);
    // a JPEG prefix is no PNG prefix
    if match_at(buf, png_signature(), 0) {
        assert(buf.subrange(0, 8)[0] == buf.subrange(0, 3)[0]);
    }
    lemma_builtin_magic_pass(r, buf);
    assert(magic_candidates(r, buf) == seq![rules[2].0]);
    assert(magic_candidates(r, buf).last() == rules[2].0);
}

/// Over the built-in rules: a buffer beginning with the PNG signature that
/// carries no HEIC brand is detected as image/png, by magic alone.
pub proof fn lemma_builtin_detects_png_by_magic(
    r: MediaTypeRegistry,
    cfg: DetectorConfig,
    name: Option<Seq<u8>>,
    buf: Seq<u8>,
)
    requires
        builtin_registry_desc(r),
        cfg.enable_magic,
        (match name {
            Some(nb) => !cfg.enable_glob || glob_pass(r.glob_rules@, nb) is None,
            None => true,
        }),
        is_prefix(buf, png_signature()),
        !match_at(buf, "ftypheic".spec_bytes(), 4),
        !window_matches(buf, "{\"".spec_bytes(), 0, 4),
    ensures
        detect_spec(r, cfg, name, buf) matches Some(t) && t@ == "image/png"@,
{
    let rules = r.magic_rules@;
    lemma_plain_magic_eval(buf, rules[0].1, 60, 4, 0, "ftypheic".spec_bytes());
    lemma_plain_magic_eval(buf, rules[1].1, 50, 0, 0, png_signature());
    lemma_plain_magic_eval(buf, rules[2].1, 50, 0, 0, jpeg_signature());
    lemma_plain_magic_eval(buf, rules[3].1, 50, 0, 4, "{\"".spec_bytes());
    lemma_window_at(buf, "ftypheic".spec_bytes(), 4);
    lemma_window_at(buf, png_signature(), 0);
    lemma_window_at(buf, jpeg_signature(), 0);
    // a PNG prefix is no JPEG prefix
    if match_at(buf, jpeg_signature(), 0) {
        assert(buf.subrange(0, 3)[0] == buf.subrange(0, 8)[0]);
    }
    lemma_builtin_magic_pass(r, buf);
    assert(magic_candidates(r, buf) == seq![rules[1].0]);
    assert(magic_candidates(r, buf).last() == rules[1].0);
}

/// Over the built-in rules: a buffer carrying the HEIC brand at byte four
/// is detected as image/heic; the rule's higher priority shuts out every
/// other magic rule.
pub proof fn lemma_builtin_detects_heic(
    r: MediaTypeRegistry,
    cfg: DetectorConfig,
    name: Option<Seq<u8>>,
    buf: Seq<u8>,
)
    requires
        builtin_registry_desc(r),
        cfg.enable_magic,
        (match name {
            Some(nb) => !cfg.enable_glob || glob_pass(r.glob_rules@, nb) is None,
            None => true,
        }),
        match_at(buf, "ftypheic".spec_bytes(), 4),
    ensures
        detect_spec(r, cfg, name, buf) matches Some(t) && t@ == "image/heic"@,
{
    let rules = r.magic_rules@;
    lemma_plain_magic_eval(buf, rules[0].1, 60, 4, 0, "ftypheic".spec_bytes());
    lemma_window_at(buf, "ftypheic".spec_bytes(), 4);
    lemma_builtin_magic_pass(r, buf);
    assert(magic_candidates(r, buf) == seq![rules[0].0]);
    assert(magic_candidates(r, buf).last() == rules[0].0);
}

/// Over the built-in rules: a name ending `.png` is detected as image/png
/// by the glob pass, whatever the buffer holds.
pub proof fn lemma_builtin_detects_png_by_name(
    r: MediaTypeRegistry,
    cfg: DetectorConfig,
    nb: Seq<u8>,
    buf: Seq<u8>,
)
    requires
        builtin_registry_desc(r),
        cfg.enable_glob,
        is_suffix(nb, ".png".spec_bytes()),
    ensures
        detect_spec(r, cfg, Some(nb), buf) matches Some(t) && t@ == "image/png"@,
{
    let rules = r.glob_rules@;
    lemma_builtin_pattern_lens();
    assert(rules.skip(0) =~= rules);
    assert(glob_rule_matches(nb, rules[0].1));
    assert(glob_pass(rules, nb) == Some(rules[0].0));
}

/// Over the built-in rules: a name ending `.json` and in no other built-in
/// suffix is detected as application/json by the glob pass, whatever the
/// buffer holds — the glob fallback classifies by name when magic says
/// nothing.
pub proof fn lemma_builtin_detects_json_by_name(
    r: MediaTypeRegistry,
    cfg: DetectorConfig,
    nb: Seq<u8>,
    buf: Seq<u8>,
)
    requires
        builtin_registry_desc(r),
        cfg.enable_glob,
        is_suffix(nb, ".json".spec_bytes()),
        !is_suffix(nb, ".png".spec_bytes()),
        !is_suffix(nb, ".jpg".spec_bytes()),
        !is_suffix(nb, ".jpeg".spec_bytes()),
        !is_suffix(nb, ".heic".spec_bytes()),
    ensures
        detect_spec(r, cfg, Some(nb), buf) matches Some(t) && t@ == "application/json"@,
{
    let rules = r.glob_rules@;
    lemma_builtin_pattern_lens();
    assert(rules.skip(0) =~= rules);
    assert(rules.skip(0).drop_first() =~= rules.skip(1));
    assert(rules.skip(1).drop_first() =~= rules.skip(2));
    assert(rules.skip(2).drop_first() =~= rules.skip(3));
    assert(rules.skip(3).drop_first() =~= rules.skip(4));
    assert(rules.skip(1)[0] == rules[1] && rules.skip(2)[0] == rules[2] && rules.skip(3)[0]
        == rules[3] && rules.skip(4)[0] == rules[4]);
    assert(!glob_rule_matches(nb, rules[0].1));
    assert(!glob_rule_matches(nb, rules[1].1));
    assert(!glob_rule_matches(nb, rules[2].1));
    assert(!glob_rule_matches(nb, rules[3].1));
    assert(glob_rule_matches(nb, rules[4].1));
    assert(glob_pass(rules.skip(0), nb) == glob_pass(rules.skip(1), nb));
    assert(glob_pass(rules.skip(1), nb) == glob_pass(rules.skip(2), nb));
    assert(glob_pass(rules.skip(2), nb) == glob_pass(rules.skip(3), nb));
    assert(glob_pass(rules.skip(3), nb) == glob_pass(rules.skip(4), nb));
    assert(glob_pass(rules.skip(4), nb) == Some(rules[4].0));
}
/// Any two loads of the built-in registry are structurally equal: every
/// media type name, magic rule, glob pattern, hierarchy edge and root
/// carries the same view, entry for entry — and structurally equal magic
/// rules match exactly the same buffers.
pub proof fn lemma_builtin_registries_agree(a: MediaTypeRegistry, b: MediaTypeRegistry)
    requires
        builtin_registry_desc(a),
        builtin_registry_desc(b),
    ensures
        a.rules_registry@.len() == b.rules_registry@.len(),
        forall|i: int|
            0 <= i < a.rules_registry@.len() ==> (#[trigger] a.rules_registry@[i]).0@
                == b.rules_registry@[i].0@,
        a.magic_rules@.len() == b.magic_rules@.len(),
        forall|i: int|
            0 <= i < a.magic_rules@.len() ==> (#[trigger] a.magic_rules@[i]).0@
                == b.magic_rules@[i].0@ && magic_rule_eq(a.magic_rules@[i].1, b.magic_rules@[i].1),
        a.glob_rules@.len() == b.glob_rules@.len(),
        forall|i: int|
            0 <= i < a.glob_rules@.len() ==> (#[trigger] a.glob_rules@[i]).0@
                == b.glob_rules@[i].0@ && a.glob_rules@[i].1.pattern@ == b.glob_rules@[i].1.pattern@
                && a.glob_rules@[i].1.glob_type == b.glob_rules@[i].1.glob_type,
        a.sub_types@.len() == b.sub_types@.len(),
        a.sub_types@[0].0@ == b.sub_types@[0].0@,
        a.sub_types@[0].1@[0]@ == b.sub_types@[0].1@[0]@,
        a.root_types@.len() == b.root_types@.len(),
        forall|i: int|
            0 <= i < a.root_types@.len() ==> (#[trigger] a.root_types@[i])@ == b.root_types@[i]@,
{
    assert forall|i: int| 0 <= i < a.magic_rules@.len() implies (#[trigger] a.magic_rules@[i]).0@
        == b.magic_rules@[i].0@ && magic_rule_eq(a.magic_rules@[i].1, b.magic_rules@[i].1) by {
        let ma = a.magic_rules@[i].1;
        let mb = b.magic_rules@[i].1;
        assert(ma.conditions@[0] matches Match::Single(_));
        assert(mb.conditions@[0] matches Match::Single(_));
        match (ma.conditions@[0], mb.conditions@[0]) {
            (Match::Single(x), Match::Single(y)) => {
                assert(single_eq(x, y));
            },
            _ => {},
        }
        assert forall|k: int| 0 <= k < ma.conditions@.len() implies (match (
            #[trigger] ma.conditions@[k],
            mb.conditions@[k],
        ) {
            (Match::Single(x), Match::Single(y)) => single_eq(x, y),
            (Match::Multi(x), Match::Multi(y)) => {
                &&& y.min_to_match == x.min_to_match
                &&& y.conditions@.len() == x.conditions@.len()
                &&& forall|j: int|
                    0 <= j < x.conditions@.len() ==> single_eq(
                        #[trigger] x.conditions@[j],
                        y.conditions@[j],
                    )
            },
            _ => false,
        }) by {
            assert(k == 0);
        }
    }
}
} // verus!
