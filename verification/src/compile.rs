//! The XML rule compiler: folds the event stream of the Tika mime-types
//! document into a compiled MediaTypeRegistry.

use vstd::prelude::*;
use vstd::pervasive::VecAdditionalExecFns;
use vstd::string::StringSliceAdditionalSpecFns;
use vstd::utf8::encode_utf8;
use crate::bytes_util::str_eq_string;
use crate::rule::{
    CompileError, GlobRule, GlobType, MagicRule, Match, MediaTypeRegistry, Multi, Offset, Rule,
    Single, adds_child, assoc_find, assoc_get, assoc_has_key, lemma_assoc_get_has_key,
    magic_rule_wf, match_wf, offset_of_attr, opt_bytes_of, reaches, registry_wf, rule_wf,
    single_wf, sorted_by_priority_desc, unique_keys,
};
use crate::text::{decode_value, decoded_value, digits_val, parse_u32_range, parses_as_u32};

verus! {

/// An XML element event handed to the compiler: a start tag with its local
/// name and attributes, or an end tag with its local name.
pub enum RawXmlEvent {
    Start(String, Vec<(String, String)>),
    End(String),
}

pub const ASTERISK: u8 = 0x2A;

/// The glob kind a raw pattern stands for, derived from its asterisks: a
/// leading and a trailing asterisk is a substring test, a leading one alone
/// a suffix test, anything else a prefix test — unless the rule is marked
/// as a regular expression.
pub open spec fn glob_type_of(is_regex: bool, pat: Seq<u8>) -> GlobType {
    if is_regex {
        GlobType::Regex
    } else if pat.len() > 0 && pat[0] == ASTERISK {
        if pat[pat.len() - 1] == ASTERISK {
            GlobType::Contains
        } else {
            GlobType::EndsWith
        }
    } else {
        GlobType::StartsWith
    }
}

/// The rule a `<glob>` element stands for: the derived kind, and the raw
/// pattern with every asterisk stripped.
pub open spec fn is_glob_rule_of(is_regex: bool, pat: Seq<u8>, r: GlobRule) -> bool {
    &&& r.glob_type == glob_type_of(is_regex, pat)
    &&& r.pattern@ == pat.filter(|b: u8| b != ASTERISK)
}

/// Build the glob rule of a `<glob>` element.
pub fn build_glob_rule(pattern: &String, is_regex: bool) -> (r: GlobRule)
    ensures
        is_glob_rule_of(is_regex, encode_utf8(pattern@), r),
{
    let bytes = pattern.as_str().as_bytes();
    let n = bytes.len();
    let glob_type = if is_regex {
        GlobType::Regex
    } else if n > 0 && bytes[0] == ASTERISK {
        if bytes[n - 1] == ASTERISK {
            GlobType::Contains
        } else {
            GlobType::EndsWith
        }
    } else {
        GlobType::StartsWith
    };
    let mut stripped: Vec<u8> = Vec::new();
    let mut i: usize = 0;
    proof {
        assert(bytes@.take(0) =~= Seq::<u8>::empty());
        reveal(Seq::filter);
        assert(bytes@.take(0).filter(|b: u8| b != ASTERISK) =~= Seq::<u8>::empty());
    }
    while i < n
        invariant
            i <= n,
            n == bytes@.len(),
            stripped@ == bytes@.take(i as int).filter(|b: u8| b != ASTERISK),
        decreases n - i,
    {
        let ghost pred = |b: u8| b != ASTERISK;
        proof {
            assert(bytes@.take(i + 1).drop_last() =~= bytes@.take(i as int));
            assert(bytes@.take(i + 1).last() == bytes@[i as int]);
            reveal(Seq::filter);
        }
        if bytes[i] != ASTERISK {
            stripped.push(bytes[i]);
            proof {
                assert(stripped@ =~= bytes@.take(i + 1).filter(pred));
            }
        }
        i += 1;
    }
    proof {
        assert(bytes@.take(n as int) =~= bytes@);
    }
    GlobRule { pattern: stripped, glob_type }
}

/// What building a `<match>` start element returns: a Multi with an empty
/// condition list when `minShouldMatch` is given (the quorum must be 1
/// through 255), otherwise a Single with the decoded value bytes, the
/// parsed offset window and no children yet; and which error otherwise.
pub open spec fn match_condition_result(
    attrs: Seq<(String, String)>,
    r: Result<Match, CompileError>,
) -> bool {
    {
            let ms = assoc_get(attrs, "minShouldMatch"@);
            let val = assoc_get(attrs, "value"@);
            let off = offset_of_attr(opt_bytes_of(assoc_get(attrs, "offset"@)));
            match ms {
                Some(msv) => {
                    let msb = encode_utf8(msv@);
                    if parses_as_u32(msb) && 1 <= digits_val(msb) <= 255 {
                        match r {
                            Ok(m) => m matches Match::Multi(mu) && mu.min_to_match as nat
                                == digits_val(msb) && mu.conditions@.len() == 0,
                            Err(_) => false,
                        }
                    } else {
                        r == Result::<Match, CompileError>::Err(CompileError::Schema)
                    }
                },
                None => match val {
                    None => r == Result::<Match, CompileError>::Err(CompileError::Schema),
                    Some(v) => match off {
                        Err(e) => r == Result::<Match, CompileError>::Err(e),
                        Ok(o) => match decoded_value(encode_utf8(v@)) {
                            None => r == Result::<Match, CompileError>::Err(CompileError::Decode),
                            Some(bs) => match r {
                                Ok(m) => m matches Match::Single(s) && s.offset == o && s.bytes@
                                    == bs && s.conditions@.len() == 0,
                                Err(_) => false,
                            },
                        },
                    },
                },
            }
    }
}

/// Build the match condition a `<match>` start element stands for: a Multi
/// with an empty condition list when `minShouldMatch` is given (the quorum
/// must be 1 through 255), otherwise a Single with the decoded value bytes,
/// the parsed offset window and no children yet.
pub fn create_match_condition(attrs: &Vec<(String, String)>) -> (r: Result<Match, CompileError>)
    ensures
        match_condition_result(attrs@, r),
{
    match assoc_find(attrs, "minShouldMatch") {
        Some(ms) => {
            let msb = ms.as_str().as_bytes();
            proof {
                assert(msb@.subrange(0, msb@.len() as int) =~= msb@);
            }
            match parse_u32_range(msb, 0, msb.len()) {
                Ok(v) => {
                    if v < 1 || v > 255 {
                        Err(CompileError::Schema)
                    } else {
                        Ok(
                            Match::Multi(
                                Multi { min_to_match: v as u8, conditions: Vec::new() },
                            ),
                        )
                    }
                },
                Err(_) => Err(CompileError::Schema),
            }
        },
        None => {
            let value = match assoc_find(attrs, "value") {
                Some(v) => v,
                None => {
                    return Err(CompileError::Schema);
                },
            };
            let off_attr: Option<String> = match assoc_find(attrs, "offset") {
                Some(o) => Some(o.clone()),
                None => None,
            };
            let offset = match Offset::from_attr(off_attr) {
                Ok(o) => o,
                Err(e) => {
                    return Err(e);
                },
            };
            match decode_value(value.as_str()) {
                Ok(bytes) => Ok(Match::Single(Single { offset, bytes, conditions: Vec::new() })),
                Err(e) => Err(e),
            }
        },
    }
}

/// What building a `<magic>` start element returns: the parsed priority
/// attribute (0 through 255), or priority 0 when absent, with no conditions
/// yet; a bad priority is a schema error.
pub open spec fn magic_rule_result(
    attrs: Seq<(String, String)>,
    r: Result<MagicRule, CompileError>,
) -> bool {
    {
            match assoc_get(attrs, "priority"@) {
                None => match r {
                    Ok(m) => m.priority == 0 && m.conditions@.len() == 0,
                    Err(_) => false,
                },
                Some(p) => {
                    let pb = encode_utf8(p@);
                    if parses_as_u32(pb) && digits_val(pb) <= 255 {
                        match r {
                            Ok(m) => m.priority as nat == digits_val(pb) && m.conditions@.len()
                                == 0,
                            Err(_) => false,
                        }
                    } else {
                        r == Result::<MagicRule, CompileError>::Err(CompileError::Schema)
                    }
                },
            }
    }
}

/// Build the magic rule a `<magic>` start element stands for: the parsed
/// priority attribute (0 through 255), or priority 0 when absent, with no
/// conditions yet.
pub fn create_magic_rule(attrs: &Vec<(String, String)>) -> (r: Result<MagicRule, CompileError>)
    ensures
        magic_rule_result(attrs@, r),
{
    match assoc_find(attrs, "priority") {
        None => Ok(MagicRule { priority: 0, conditions: Vec::new() }),
        Some(p) => {
            let pb = p.as_str().as_bytes();
            proof {
                assert(pb@.subrange(0, pb@.len() as int) =~= pb@);
            }
            match parse_u32_range(pb, 0, pb.len()) {
                Ok(v) => {
                    if v > 255 {
                        Err(CompileError::Schema)
                    } else {
                        Ok(MagicRule { priority: v as u8, conditions: Vec::new() })
                    }
                },
                Err(_) => Err(CompileError::Schema),
            }
        },
    }
}

/// Structural equality of two Singles, down through their children.
pub open spec fn single_eq(a: Single, b: Single) -> bool
    decreases a,
{
    &&& b.offset == a.offset
    &&& b.bytes@ == a.bytes@
    &&& b.conditions@.len() == a.conditions@.len()
    &&& forall|i: int|
        0 <= i < a.conditions@.len() ==> single_eq(#[trigger] a.conditions@[i], b.conditions@[i])
}

/// Structural equality of two magic rules.
pub open spec fn magic_rule_eq(a: MagicRule, b: MagicRule) -> bool {
    &&& b.priority == a.priority
    &&& b.conditions@.len() == a.conditions@.len()
    &&& forall|i: int|
        0 <= i < a.conditions@.len() ==> (match (#[trigger] a.conditions@[i], b.conditions@[i]) {
            (Match::Single(x), Match::Single(y)) => single_eq(x, y),
            (Match::Multi(x), Match::Multi(y)) => {
                &&& y.min_to_match == x.min_to_match
                &&& y.conditions@.len() == x.conditions@.len()
                &&& forall|j: int|
                    0 <= j < x.conditions@.len() ==> single_eq(
                        #[trigger] x.conditions@[j],
                        y.conditions@[j],
                    )
            },
            _ => false,
        })
}

/// A structural copy of a byte vector.
fn copy_bytes(v: &Vec<u8>) -> (r: Vec<u8>)
    ensures
        r@ == v@,
{
    vstd::slice::slice_to_vec(v.as_slice())
}

/// A structural copy of a Single, children included.
fn copy_single(s: &Single) -> (r: Single)
    ensures
        single_eq(*s, r),
    decreases *s,
{
    let n = s.conditions.len();
    let mut conditions: Vec<Single> = Vec::new();
    let mut i: usize = 0;
    while i < n
        invariant
            i <= n,
            n == s.conditions@.len(),
            conditions@.len() == i,
            forall|k: int|
                0 <= k < i ==> single_eq(#[trigger] s.conditions@[k], conditions@[k]),
        decreases n - i,
    {
        conditions.push(copy_single(&s.conditions[i]));
        i += 1;
    }
    Single { offset: s.offset, bytes: copy_bytes(&s.bytes), conditions }
}

/// A structural copy of a list of Singles.
fn copy_singles(v: &Vec<Single>) -> (r: Vec<Single>)
    ensures
        r@.len() == v@.len(),
        forall|k: int| 0 <= k < v@.len() ==> single_eq(#[trigger] v@[k], r@[k]),
{
    let n = v.len();
    let mut out: Vec<Single> = Vec::new();
    let mut i: usize = 0;
    while i < n
        invariant
            i <= n,
            n == v@.len(),
            out@.len() == i,
            forall|k: int| 0 <= k < i ==> single_eq(#[trigger] v@[k], out@[k]),
        decreases n - i,
    {
        out.push(copy_single(&v[i]));
        i += 1;
    }
    out
}

/// A structural copy of a magic rule.
fn copy_magic_rule(m: &MagicRule) -> (r: MagicRule)
    ensures
        magic_rule_eq(*m, r),
{
    let n = m.conditions.len();
    let mut conditions: Vec<Match> = Vec::new();
    let mut i: usize = 0;
    while i < n
        invariant
            i <= n,
            n == m.conditions@.len(),
            conditions@.len() == i,
            forall|k: int|
                0 <= k < i ==> (match (#[trigger] m.conditions@[k], conditions@[k]) {
                    (Match::Single(x), Match::Single(y)) => single_eq(x, y),
                    (Match::Multi(x), Match::Multi(y)) => {
                        &&& y.min_to_match == x.min_to_match
                        &&& y.conditions@.len() == x.conditions@.len()
                        &&& forall|j: int|
                            0 <= j < x.conditions@.len() ==> single_eq(
                                #[trigger] x.conditions@[j],
                                y.conditions@[j],
                            )
                    },
                    _ => false,
                }),
        decreases n - i,
    {
        let copied = match &m.conditions[i] {
            Match::Single(s) => Match::Single(copy_single(s)),
            Match::Multi(mu) => Match::Multi(
                Multi { min_to_match: mu.min_to_match, conditions: copy_singles(&mu.conditions) },
            ),
        };
        conditions.push(copied);
        i += 1;
    }
    MagicRule { priority: m.priority, conditions }
}

/// A structural copy of a glob rule.
fn copy_glob_rule(g: &GlobRule) -> (r: GlobRule)
    ensures
        r.pattern@ == g.pattern@,
        r.glob_type == g.glob_type,
{
    GlobRule { pattern: copy_bytes(&g.pattern), glob_type: g.glob_type }
}

/// Structurally equal Singles match exactly the same buffers, so the flat
/// rule lists behave like the per-type rules they were copied from.
pub proof fn lemma_single_eq_same_matching(buf: Seq<u8>, a: Single, b: Single)
    requires
        single_eq(a, b),
    ensures
        crate::magic::single_matches(buf, a) == crate::magic::single_matches(buf, b),
    decreases a,
{
    assert forall|i: int| 0 <= i < a.conditions@.len() implies crate::magic::single_matches(
        buf,
        #[trigger] a.conditions@[i],
    ) == crate::magic::single_matches(buf, b.conditions@[i]) by {
        lemma_single_eq_same_matching(buf, a.conditions@[i], b.conditions@[i]);
    }
    if crate::magic::single_matches(buf, a) && a.conditions@.len() > 0 {
        let i = choose|i: int|
            0 <= i < a.conditions@.len() && crate::magic::single_matches(
                buf,
                #[trigger] a.conditions@[i],
            );
        assert(crate::magic::single_matches(buf, b.conditions@[i]));
    }
    if crate::magic::single_matches(buf, b) && b.conditions@.len() > 0 {
        let i = choose|i: int|
            0 <= i < b.conditions@.len() && crate::magic::single_matches(
                buf,
                #[trigger] b.conditions@[i],
            );
        assert(crate::magic::single_matches(buf, a.conditions@[i]));
    }
}

/// Elementwise structurally equal condition lists have the same match count.
proof fn lemma_count_matching_eq(buf: Seq<u8>, xs: Seq<Single>, ys: Seq<Single>)
    requires
        xs.len() == ys.len(),
        forall|i: int| 0 <= i < xs.len() ==> single_eq(#[trigger] xs[i], ys[i]),
    ensures
        crate::magic::count_matching(buf, xs) == crate::magic::count_matching(buf, ys),
    decreases xs.len(),
{
    if xs.len() > 0 {
        lemma_count_matching_eq(buf, xs.drop_last(), ys.drop_last());
        lemma_single_eq_same_matching(buf, xs.last(), ys.last());
    }
}

/// Structurally equal magic rules match exactly the same buffers.
pub proof fn lemma_magic_rule_eq_same_matching(buf: Seq<u8>, a: MagicRule, b: MagicRule)
    requires
        magic_rule_eq(a, b),
    ensures
        crate::magic::magic_matches(buf, a) == crate::magic::magic_matches(buf, b),
{
    assert forall|i: int| 0 <= i < a.conditions@.len() implies crate::magic::match_matches(
        buf,
        #[trigger] a.conditions@[i],
    ) == crate::magic::match_matches(buf, b.conditions@[i]) by {
        match (a.conditions@[i], b.conditions@[i]) {
            (Match::Single(x), Match::Single(y)) => {
                lemma_single_eq_same_matching(buf, x, y);
            },
            (Match::Multi(x), Match::Multi(y)) => {
                lemma_count_matching_eq(buf, x.conditions@, y.conditions@);
            },
            _ => {},
        }
    }
    if crate::magic::magic_matches(buf, a) {
        let i = choose|i: int|
            0 <= i < a.conditions@.len() && crate::magic::match_matches(
                buf,
                #[trigger] a.conditions@[i],
            );
        assert(crate::magic::match_matches(buf, b.conditions@[i]));
    }
    if crate::magic::magic_matches(buf, b) {
        let i = choose|i: int|
            0 <= i < b.conditions@.len() && crate::magic::match_matches(
                buf,
                #[trigger] b.conditions@[i],
            );
        assert(crate::magic::match_matches(buf, a.conditions@[i]));
    }
}

/// The magic rules of `rules` at exactly priority `p`, in order.
pub open spec fn filter_prio(rules: Seq<(String, MagicRule)>, p: int) -> Seq<(String, MagicRule)> {
    rules.filter(|e: (String, MagicRule)| e.1.priority as int == p)
}

/// No matching element means an empty filter.
proof fn lemma_filter_none<A>(s: Seq<A>, pred: spec_fn(A) -> bool)
    requires
        forall|i: int| 0 <= i < s.len() ==> !pred(#[trigger] s[i]),
    ensures
        s.filter(pred) == Seq::<A>::empty(),
    decreases s.len(),
{
    reveal(Seq::filter);
    if s.len() > 0 {
        assert(forall|i: int| 0 <= i < s.drop_last().len() ==> s.drop_last()[i] == s[i]);
        lemma_filter_none(s.drop_last(), pred);
        assert(s.filter(pred) =~= Seq::<A>::empty());
    }
}

/// Sort the flat magic rule list by descending priority. The sort is stable:
/// for every priority, the rules at that priority keep their original order
/// (the filters at each priority agree).
pub fn sort_magic_rules(input: Vec<(String, MagicRule)>) -> (r: Vec<(String, MagicRule)>)
    ensures
        sorted_by_priority_desc(r@),
        forall|p: int| #[trigger] filter_prio(r@, p) == filter_prio(input@, p),
{
    let ghost orig = input@;
    let mut input = input;
    let mut out: Vec<(String, MagicRule)> = Vec::new();
    proof {
        assert forall|p: int| #[trigger]
            filter_prio(orig, p) == filter_prio(out@, p) + filter_prio(input@, p) by {
            let pred = |e: (String, MagicRule)| e.1.priority as int == p;
            lemma_filter_none(out@, pred);
            assert(Seq::<(String, MagicRule)>::empty() + filter_prio(input@, p) =~= filter_prio(
                input@,
                p,
            ));
        }
    }
    while input.len() > 0
        invariant
            sorted_by_priority_desc(out@),
            forall|a: int, b: int|
                0 <= a < out@.len() && 0 <= b < input@.len() ==> (#[trigger] out@[a]).1.priority
                    >= (#[trigger] input@[b]).1.priority,
            forall|p: int| #[trigger]
                filter_prio(orig, p) == filter_prio(out@, p) + filter_prio(input@, p),
        decreases input.len(),
    {
        let mut best: usize = 0;
        let mut i: usize = 1;
        while i < input.len()
            invariant
                input@.len() > 0,
                best < i <= input@.len(),
                forall|k: int|
                    0 <= k < i ==> (#[trigger] input@[k]).1.priority
                        <= input@[best as int].1.priority,
                forall|k: int|
                    0 <= k < best ==> (#[trigger] input@[k]).1.priority
                        < input@[best as int].1.priority,
            decreases input@.len() - i,
        {
            if input[i].1.priority > input[best].1.priority {
                best = i;
            }
            i += 1;
        }
        let ghost pre_in = input@;
        let ghost pre_out = out@;
        let e = input.remove(best);
        out.push(e);
        proof {
            let bi = best as int;
            assert(pre_in =~= pre_in.take(bi) + (seq![e] + pre_in.skip(bi + 1)));
            assert(input@ =~= pre_in.take(bi) + pre_in.skip(bi + 1));
            assert(out@ =~= pre_out + seq![e]);
            assert forall|p: int| #[trigger]
                filter_prio(orig, p) == filter_prio(out@, p) + filter_prio(input@, p) by {
                let pred = |e2: (String, MagicRule)| e2.1.priority as int == p;
                Seq::filter_distributes_over_add(pre_in.take(bi), seq![e] + pre_in.skip(bi + 1), pred);
                Seq::filter_distributes_over_add(seq![e], pre_in.skip(bi + 1), pred);
                Seq::filter_distributes_over_add(pre_in.take(bi), pre_in.skip(bi + 1), pred);
                Seq::filter_distributes_over_add(pre_out, seq![e], pred);
                reveal(Seq::filter);
                assert(seq![e].drop_last() =~= Seq::<(String, MagicRule)>::empty());
                if p == e.1.priority as int {
                    assert forall|k: int| 0 <= k < pre_in.take(bi).len() implies !pred(
                        #[trigger] pre_in.take(bi)[k],
                    ) by {
                        assert(pre_in.take(bi)[k] == pre_in[k]);
                    }
                    lemma_filter_none(pre_in.take(bi), pred);
                    assert(filter_prio(pre_in, p) =~= seq![e] + filter_prio(pre_in.skip(bi + 1), p));
                    assert(filter_prio(input@, p) =~= filter_prio(pre_in.skip(bi + 1), p));
                    assert(filter_prio(out@, p) =~= filter_prio(pre_out, p) + seq![e]);
                    assert(filter_prio(out@, p) + filter_prio(input@, p) =~= filter_prio(pre_out, p)
                        + (seq![e] + filter_prio(pre_in.skip(bi + 1), p)));
                    assert(filter_prio(pre_out, p) + filter_prio(pre_in, p) =~= filter_prio(
                        pre_out,
                        p,
                    ) + (seq![e] + filter_prio(pre_in.skip(bi + 1), p)));
                } else {
                    assert(seq![e].last() == e && !pred(e));
                    assert(seq![e].drop_last() == Seq::<(String, MagicRule)>::empty());
                    assert(Seq::<(String, MagicRule)>::empty().filter(pred)
                        == Seq::<(String, MagicRule)>::empty());
                    assert(seq![e].filter(pred) =~= Seq::<(String, MagicRule)>::empty());
                    assert(filter_prio(pre_in, p) =~= filter_prio(pre_in.take(bi), p) + filter_prio(
                        pre_in.skip(bi + 1),
                        p,
                    ));
                    assert(filter_prio(input@, p) =~= filter_prio(pre_in, p));
                    assert(filter_prio(out@, p) =~= filter_prio(pre_out, p));
                }
            }
            assert forall|a: int, b: int|
                0 <= a < out@.len() && 0 <= b < input@.len() implies (#[trigger] out@[a]).1.priority
                >= (#[trigger] input@[b]).1.priority by {
                if b < bi {
                    assert(input@[b] == pre_in[b]);
                } else {
                    assert(input@[b] == pre_in[b + 1]);
                }
                if a < pre_out.len() {
                    assert(out@[a] == pre_out[a]);
                } else {
                    assert(out@[a] == e);
                }
            }
        }
    }
    proof {
        assert forall|p: int| #[trigger] filter_prio(out@, p) == filter_prio(orig, p) by {
            let pred = |e2: (String, MagicRule)| e2.1.priority as int == p;
            lemma_filter_none(input@, pred);
            assert(filter_prio(out@, p) + Seq::<(String, MagicRule)>::empty() =~= filter_prio(
                out@,
                p,
            ));
        }
    }
    out
}

/// Nested `<match>` blocks deeper than this are rejected at compile time.
pub const MAX_MATCH_DEPTH: usize = 64;

/// The compiler's running state while folding the event stream.
pub struct CompilerState {
    /// Open XML elements, innermost last: local name and type attribute.
    pub open_elements: Vec<(String, Option<String>)>,
    /// Rules collected for the currently open `<mime-type>`.
    pub curr_rules: Vec<Rule>,
    /// The currently open `<magic>` block.
    pub curr_magic: Option<MagicRule>,
    /// The parent type named by a `<sub-class-of>` under the open type.
    pub curr_parent: Option<String>,
    /// Open `<match>` blocks, innermost last.
    pub nested_matches: Vec<Match>,
    pub rules_registry: Vec<(String, Vec<Rule>)>,
    pub sub_types: Vec<(String, Vec<String>)>,
    pub root_types: Vec<String>,
}

/// The error a `<match>` start element raises, if any: a bad quorum, a
/// missing value, a bad offset, or a bad value encoding.
pub open spec fn match_condition_error(attrs: Seq<(String, String)>) -> Option<CompileError> {
    match assoc_get(attrs, "minShouldMatch"@) {
        Some(msv) => {
            let msb = encode_utf8(msv@);
            if parses_as_u32(msb) && 1 <= digits_val(msb) <= 255 {
                None
            } else {
                Some(CompileError::Schema)
            }
        },
        None => match assoc_get(attrs, "value"@) {
            None => Some(CompileError::Schema),
            Some(v) => match offset_of_attr(opt_bytes_of(assoc_get(attrs, "offset"@))) {
                Err(e) => Some(e),
                Ok(_) => if decoded_value(encode_utf8(v@)) is Some {
                    None
                } else {
                    Some(CompileError::Decode)
                },
            },
        },
    }
}

/// The error a `<magic>` start element raises, if any: a priority outside
/// 0 through 255.
pub open spec fn magic_rule_error(attrs: Seq<(String, String)>) -> Option<CompileError> {
    match assoc_get(attrs, "priority"@) {
        None => None,
        Some(p) => {
            let pb = encode_utf8(p@);
            if parses_as_u32(pb) && digits_val(pb) <= 255 {
                None
            } else {
                Some(CompileError::Schema)
            }
        },
    }
}

/// The exact outcome of handling a start element.
pub open spec fn start_result(
    o: CompilerState,
    name: Seq<char>,
    attrs: Seq<(String, String)>,
) -> Result<(), CompileError> {
    if name == "glob"@ {
        if assoc_get(attrs, "pattern"@) is Some {
            Ok(())
        } else {
            Err(CompileError::Schema)
        }
    } else if name == "match"@ {
        if o.nested_matches@.len() >= MAX_MATCH_DEPTH {
            Err(CompileError::Schema)
        } else {
            match match_condition_error(attrs) {
                Some(e) => Err(e),
                None => Ok(()),
            }
        }
    } else if name == "magic"@ {
        match magic_rule_error(attrs) {
            Some(e) => Err(e),
            None => Ok(()),
        }
    } else if name == "sub-class-of"@ {
        if assoc_get(attrs, "type"@) is Some {
            Ok(())
        } else {
            Err(CompileError::Schema)
        }
    } else {
        Ok(())
    }
}

/// How a handled start element moves the state: every element joins the
/// open-element stack with its type attribute; a glob joins the current
/// rules, a match the nesting stack; a magic block and a parent edge are
/// remembered; nothing else moves.
pub open spec fn start_step(
    o: CompilerState,
    name: String,
    attrs: Vec<(String, String)>,
    f: CompilerState,
) -> bool {
    &&& f.rules_registry == o.rules_registry
    &&& f.sub_types == o.sub_types
    &&& f.root_types == o.root_types
    &&& f.open_elements@.len() == o.open_elements@.len() + 1
    &&& f.open_elements@.drop_last() == o.open_elements@
    &&& f.open_elements@.last().0@ == name@
    &&& f.open_elements@.last().1 == assoc_get(attrs@, "type"@)
    &&& if name@ == "glob"@ {
        &&& f.curr_rules@.len() == o.curr_rules@.len() + 1
        &&& f.curr_rules@.drop_last() == o.curr_rules@
        &&& (f.curr_rules@.last() matches Rule::Glob(g) && is_glob_rule_of(
            assoc_get(attrs@, "isregex"@) is Some,
            encode_utf8((assoc_get(attrs@, "pattern"@)->0)@),
            g,
        ))
        &&& f.curr_magic == o.curr_magic
        &&& f.curr_parent == o.curr_parent
        &&& f.nested_matches == o.nested_matches
    } else if name@ == "match"@ {
        &&& f.nested_matches@.len() == o.nested_matches@.len() + 1
        &&& f.nested_matches@.drop_last() == o.nested_matches@
        &&& match_condition_result(attrs@, Ok(f.nested_matches@.last()))
        &&& f.curr_rules == o.curr_rules
        &&& f.curr_magic == o.curr_magic
        &&& f.curr_parent == o.curr_parent
    } else if name@ == "magic"@ {
        &&& f.curr_magic is Some
        &&& magic_rule_result(attrs@, Ok(f.curr_magic->0))
        &&& f.curr_rules == o.curr_rules
        &&& f.curr_parent == o.curr_parent
        &&& f.nested_matches == o.nested_matches
    } else if name@ == "sub-class-of"@ {
        &&& f.curr_parent == assoc_get(attrs@, "type"@)
        &&& f.curr_rules == o.curr_rules
        &&& f.curr_magic == o.curr_magic
        &&& f.nested_matches == o.nested_matches
    } else {
        &&& f.curr_rules == o.curr_rules
        &&& f.curr_magic == o.curr_magic
        &&& f.curr_parent == o.curr_parent
        &&& f.nested_matches == o.nested_matches
    }
}

/// The position of the first entry with key `k`, if any.
fn find_key_index<V>(m: &Vec<(String, V)>, k: &str) -> (r: Option<usize>)
    ensures
        match r {
            Some(i) => i < m@.len() && m@[i as int].0@ == k@ && forall|j: int|
                0 <= j < i ==> (#[trigger] m@[j]).0@ != k@,
            None => forall|j: int| 0 <= j < m@.len() ==> (#[trigger] m@[j]).0@ != k@,
        },
{
    let n = m.len();
    let mut i: usize = 0;
    while i < n
        invariant
            i <= n,
            n == m@.len(),
            forall|j: int| 0 <= j < i ==> (#[trigger] m@[j]).0@ != k@,
        decreases n - i,
    {
        if crate::bytes_util::str_eq(m[i].0.as_str(), k) {
            return Some(i);
        }
        i += 1;
    }
    None
}

/// Handle an element start: a glob is collected at once, a match joins the
/// nesting stack, a magic block and a parent edge are remembered, every
/// element joins the open-element stack with its type attribute, and
/// nothing else moves.
fn handle_start(
    st: &mut CompilerState,
    name: &String,
    attrs: &Vec<(String, String)>,
) -> (r: Result<(), CompileError>)
    ensures
        r == start_result(*old(st), name@, attrs@),
        r is Ok ==> start_step(*old(st), *name, *attrs, *final(st)),
        r is Err ==> *final(st) == *old(st),
{
    proof {
        // the four element names are pairwise distinct literals
        reveal_strlit("glob");
        reveal_strlit("match");
        reveal_strlit("magic");
        reveal_strlit("sub-class-of");
        assert("glob"@.len() == 4);
        assert("sub-class-of"@.len() == 12);
        assert("match"@[2] == 't' && "magic"@[2] == 'g');
    }
    if str_eq_string(name, "glob") {
        match assoc_find(attrs, "pattern") {
            Some(p) => {
                let is_regex = assoc_find(attrs, "isregex").is_some();
                let rule = build_glob_rule(p, is_regex);
                st.curr_rules.push(Rule::Glob(rule));
                proof {
                    assert(st.curr_rules@.drop_last() =~= old(st).curr_rules@);
                }
            },
            None => {
                return Err(CompileError::Schema);
            },
        }
    } else if str_eq_string(name, "match") {
        if st.nested_matches.len() >= MAX_MATCH_DEPTH {
            return Err(CompileError::Schema);
        }
        match create_match_condition(attrs) {
            Ok(m) => {
                st.nested_matches.push(m);
                proof {
                    assert(st.nested_matches@.drop_last() =~= old(st).nested_matches@);
                }
            },
            Err(e) => {
                return Err(e);
            },
        }
    } else if str_eq_string(name, "magic") {
        match create_magic_rule(attrs) {
            Ok(m) => st.curr_magic = Some(m),
            Err(e) => {
                return Err(e);
            },
        }
    } else if str_eq_string(name, "sub-class-of") {
        match assoc_find(attrs, "type") {
            Some(p) => st.curr_parent = Some(p.clone()),
            None => {
                return Err(CompileError::Schema);
            },
        }
    }
    let ty: Option<String> = match assoc_find(attrs, "type") {
        Some(t) => Some(t.clone()),
        None => None,
    };
    st.open_elements.push((name.clone(), ty));
    proof {
        assert(st.open_elements@.drop_last() =~= old(st).open_elements@);
    }
    Ok(())
}

/// `f` is the hierarchy `o` with `t` recorded as a child of `p`: the first
/// entry keyed `p` gets `t` appended, or a new entry for `p` is added.
pub open spec fn records_child(
    o: Seq<(String, Vec<String>)>,
    p: Seq<char>,
    t: String,
    f: Seq<(String, Vec<String>)>,
) -> bool {
    if assoc_has_key(o, p) {
        exists|i: int|
            {
                &&& 0 <= i < o.len()
                &&& (#[trigger] o[i]).0@ == p
                &&& forall|j: int| 0 <= j < i ==> (#[trigger] o[j]).0@ != p
                &&& f.len() == o.len()
                &&& f[i].0 == o[i].0
                &&& f[i].1@ == o[i].1@.push(t)
                &&& forall|j: int| 0 <= j < o.len() && j != i ==> #[trigger] f[j] == o[j]
            }
    } else {
        &&& f.len() == o.len() + 1
        &&& f.drop_last() == o
        &&& f.last().0@ == p
        &&& f.last().1@ == Seq::empty().push(t)
    }
}

/// `f` is the rule map `o` with `rules` registered under `t`: the first
/// entry keyed `t` is replaced, or a new entry is added.
pub open spec fn registers_rules(
    o: Seq<(String, Vec<Rule>)>,
    t: Seq<char>,
    rules: Vec<Rule>,
    f: Seq<(String, Vec<Rule>)>,
) -> bool {
    if assoc_has_key(o, t) {
        exists|i: int|
            {
                &&& 0 <= i < o.len()
                &&& (#[trigger] o[i]).0@ == t
                &&& forall|j: int| 0 <= j < i ==> (#[trigger] o[j]).0@ != t
                &&& f.len() == o.len()
                &&& f[i].0@ == t
                &&& f[i].1 == rules
                &&& forall|j: int| 0 <= j < o.len() && j != i ==> #[trigger] f[j] == o[j]
            }
    } else {
        &&& f.len() == o.len() + 1
        &&& f.drop_last() == o
        &&& f.last().0@ == t
        &&& f.last().1 == rules
    }
}

/// The enclosing open element of a just-closed one is a `<match>` block.
pub open spec fn parent_is_match(o: CompilerState) -> bool {
    &&& o.open_elements@.len() >= 2
    &&& o.open_elements@[o.open_elements@.len() - 2].0@ == "match"@
}

/// The exact outcome of handling an end element: a stray or misnamed end
/// tag is an Xml error; a match closed with nothing open, a Multi attached
/// as a child, a magic closed without one open, or a mime-type without its
/// type attribute is a schema error.
pub open spec fn end_result(o: CompilerState, name: Seq<char>) -> Result<(), CompileError> {
    if o.open_elements@.len() == 0 {
        Err(CompileError::Xml)
    } else if o.open_elements@.last().0@ != name {
        Err(CompileError::Xml)
    } else if name == "match"@ {
        if o.nested_matches@.len() == 0 {
            Err(CompileError::Schema)
        } else if parent_is_match(o) {
            if o.nested_matches@.len() < 2 {
                Err(CompileError::Schema)
            } else if o.nested_matches@.last() matches Match::Multi(_) {
                Err(CompileError::Schema)
            } else {
                Ok(())
            }
        } else {
            Ok(())
        }
    } else if name == "magic"@ {
        if o.curr_magic is Some {
            Ok(())
        } else {
            Err(CompileError::Schema)
        }
    } else if name == "mime-type"@ {
        if o.open_elements@.last().1 is Some {
            Ok(())
        } else {
            Err(CompileError::Schema)
        }
    } else {
        Ok(())
    }
}

/// How a handled end element moves the state: the element leaves the stack;
/// a closed match attaches to its parent match or joins the open magic
/// block; a closed magic joins the current rules; a closed mime-type commits
/// its rules and its hierarchy edge; anything else moves nothing more.
pub open spec fn end_step(o: CompilerState, name: String, f: CompilerState) -> bool {
    &&& o.open_elements@.len() > 0
    &&& o.open_elements@.last().0@ == name@
    &&& f.open_elements@ == o.open_elements@.drop_last()
    &&& {
        let ename = o.open_elements@.last().0@;
        if ename == "magic"@ {
            &&& o.curr_magic is Some
            &&& f.curr_rules@ == o.curr_rules@.push(Rule::Magic(o.curr_magic->0))
            &&& f.curr_magic is None
            &&& f.curr_parent == o.curr_parent
            &&& f.nested_matches == o.nested_matches
            &&& f.rules_registry == o.rules_registry
            &&& f.sub_types == o.sub_types
            &&& f.root_types == o.root_types
        } else if ename == "match"@ {
            let cur = o.nested_matches@.last();
            &&& o.nested_matches@.len() > 0
            &&& f.curr_parent == o.curr_parent
            &&& f.curr_rules == o.curr_rules
            &&& f.rules_registry == o.rules_registry
            &&& f.sub_types == o.sub_types
            &&& f.root_types == o.root_types
            &&& if parent_is_match(o) {
                // the closed match is a child of the enclosing match block
                &&& o.nested_matches@.len() >= 2
                &&& f.nested_matches@.len() == o.nested_matches@.len() - 1
                &&& f.nested_matches@.drop_last() == o.nested_matches@.drop_last().drop_last()
                &&& (cur matches Match::Single(c) && adds_child(
                    o.nested_matches@[o.nested_matches@.len() - 2],
                    c,
                    f.nested_matches@.last(),
                ))
                &&& f.curr_magic == o.curr_magic
            } else {
                &&& f.nested_matches@ == o.nested_matches@.drop_last()
                &&& match o.curr_magic {
                    // the closed match joins the open magic block
                    Some(m) => f.curr_magic matches Some(m2) && m2.priority == m.priority
                        && m2.conditions@ == m.conditions@.push(cur),
                    // a match outside any magic block is dropped
                    None => f.curr_magic is None,
                }
            }
        } else if ename == "mime-type"@ {
            let ty = o.open_elements@.last().1;
            &&& ty is Some
            &&& f.curr_rules@.len() == 0
            &&& f.curr_parent is None
            &&& f.curr_magic == o.curr_magic
            &&& f.nested_matches == o.nested_matches
            &&& registers_rules(o.rules_registry@, (ty->0)@, o.curr_rules, f.rules_registry@)
            &&& match o.curr_parent {
                Some(p) => records_child(o.sub_types@, p@, ty->0, f.sub_types@) && f.root_types
                    == o.root_types,
                None => f.root_types@ == o.root_types@.push(ty->0) && f.sub_types == o.sub_types,
            }
        } else {
            &&& f.curr_rules == o.curr_rules
            &&& f.curr_magic == o.curr_magic
            &&& f.curr_parent == o.curr_parent
            &&& f.nested_matches == o.nested_matches
            &&& f.rules_registry == o.rules_registry
            &&& f.sub_types == o.sub_types
            &&& f.root_types == o.root_types
        }
    }
}

/// Handle an element end: a closed match attaches to its parent match or to
/// the open magic block; a closed magic joins the current rules; a closed
/// mime-type commits its rules and its hierarchy edge; anything else only
/// leaves the open-element stack.
fn handle_end(st: &mut CompilerState, name: &String) -> (r: Result<(), CompileError>)
    ensures
        r == end_result(*old(st), name@),
        r is Ok ==> end_step(*old(st), *name, *final(st)),
{
    proof {
        // the element names are pairwise distinct literals
        reveal_strlit("match");
        reveal_strlit("magic");
        reveal_strlit("mime-type");
        assert("mime-type"@.len() == 9);
        assert("match"@[2] == 't' && "magic"@[2] == 'g');
    }
    let top = match st.open_elements.pop() {
        Some(t) => t,
        None => {
            return Err(CompileError::Xml);
        },
    };
    proof {
        assert(st.open_elements@ =~= old(st).open_elements@.drop_last());
    }
    let (ename, ty_attr) = top;
    if !str_eq_string(&ename, name.as_str()) {
        return Err(CompileError::Xml);
    }
    if str_eq_string(&ename, "match") {
        let current = match st.nested_matches.pop() {
            Some(m) => m,
            None => {
                return Err(CompileError::Schema);
            },
        };
        let parent_is_match = if st.open_elements.len() > 0 {
            let last = &st.open_elements[st.open_elements.len() - 1];
            str_eq_string(&last.0, "match")
        } else {
            false
        };
        if parent_is_match {
            let mut parent = match st.nested_matches.pop() {
                Some(m) => m,
                None => {
                    return Err(CompileError::Schema);
                },
            };
            let res = parent.add_child_condition(current);
            st.nested_matches.push(parent);
            proof {
                assert(st.nested_matches@.drop_last() =~= old(st).nested_matches@.drop_last(
                ).drop_last());
            }
            match res {
                Ok(_) => {},
                Err(e) => {
                    return Err(e);
                },
            }
        } else {
            match st.curr_magic.take() {
                Some(mut magic) => {
                    magic.conditions.push(current);
                    st.curr_magic = Some(magic);
                },
                // a match outside any magic block is dropped
                None => {},
            }
            proof {
                assert(st.nested_matches@ =~= old(st).nested_matches@.drop_last());
            }
        }
    } else if str_eq_string(&ename, "magic") {
        match st.curr_magic.take() {
            Some(magic) => st.curr_rules.push(Rule::Magic(magic)),
            None => {
                return Err(CompileError::Schema);
            },
        }
    } else if str_eq_string(&ename, "mime-type") {
        let media_type = match ty_attr {
            Some(t) => t,
            None => {
                return Err(CompileError::Schema);
            },
        };
        let ghost sub0 = st.sub_types@;
        match st.curr_parent.take() {
            Some(parent) => {
                match find_key_index(&st.sub_types, parent.as_str()) {
                    Some(i) => {
                        let mut entry: (String, Vec<String>) = (String::new(), Vec::new());
                        st.sub_types.set_and_swap(i, &mut entry);
                        entry.1.push(media_type.clone());
                        st.sub_types.set_and_swap(i, &mut entry);
                        proof {
                            assert(assoc_has_key(sub0, parent@));
                            assert(st.sub_types@[i as int].1@ == sub0[i as int].1@.push(
                                media_type,
                            ));
                            assert(forall|j: int|
                                0 <= j < sub0.len() && j != i as int ==> #[trigger] st.sub_types@[j]
                                    == sub0[j]);
                            assert(records_child(sub0, parent@, media_type, st.sub_types@));
                        }
                    },
                    None => {
                        proof {
                            assert(!assoc_has_key(sub0, parent@));
                        }
                        st.sub_types.push((parent, vec![media_type.clone()]));
                        proof {
                            assert(st.sub_types@.drop_last() =~= sub0);
                            assert(st.sub_types@.last().1@ =~= Seq::<String>::empty().push(
                                media_type,
                            ));
                        }
                    },
                }
            },
            None => st.root_types.push(media_type.clone()),
        }
        let ghost reg0 = st.rules_registry@;
        let mut rules: Vec<Rule> = Vec::new();
        core::mem::swap(&mut st.curr_rules, &mut rules);
        match find_key_index(&st.rules_registry, media_type.as_str()) {
            Some(i) => {
                let ghost t = media_type@;
                st.rules_registry.set(i, (media_type, rules));
                proof {
                    assert(assoc_has_key(reg0, t));
                    assert(forall|j: int|
                        0 <= j < reg0.len() && j != i as int ==> #[trigger] st.rules_registry@[j]
                            == reg0[j]);
                    assert(registers_rules(reg0, t, old(st).curr_rules, st.rules_registry@));
                }
            },
            None => {
                let ghost t = media_type@;
                st.rules_registry.push((media_type, rules));
                proof {
                    assert(!assoc_has_key(reg0, t));
                    assert(st.rules_registry@.drop_last() =~= reg0);
                }
            },
        }
    }
    Ok(())
}

/// `out` is exactly the magic rules of one type's rule list, in order, as
/// structural copies under the type's name.
pub open spec fn entry_magic_of(t: String, rules: Seq<Rule>, out: Seq<(String, MagicRule)>) -> bool
    decreases rules.len(),
{
    if rules.len() == 0 {
        out.len() == 0
    } else {
        match rules.last() {
            Rule::Magic(m) => out.len() > 0 && out.last().0 == t && magic_rule_eq(m, out.last().1)
                && entry_magic_of(t, rules.drop_last(), out.drop_last()),
            Rule::Glob(_) => entry_magic_of(t, rules.drop_last(), out),
        }
    }
}

/// `out` is exactly the flattening of the per-type magic rules, in
/// registration order.
pub open spec fn flat_magic_of(
    entries: Seq<(String, Vec<Rule>)>,
    out: Seq<(String, MagicRule)>,
) -> bool
    decreases entries.len(),
{
    if entries.len() == 0 {
        out.len() == 0
    } else {
        exists|k: int|
            #![trigger out.take(k)]
            0 <= k <= out.len() && flat_magic_of(entries.drop_last(), out.take(k))
                && entry_magic_of(entries.last().0, entries.last().1@, out.skip(k))
    }
}

/// `out` is exactly the glob rules of one type's rule list, in order, as
/// structural copies under the type's name.
pub open spec fn entry_glob_of(t: String, rules: Seq<Rule>, out: Seq<(String, GlobRule)>) -> bool
    decreases rules.len(),
{
    if rules.len() == 0 {
        out.len() == 0
    } else {
        match rules.last() {
            Rule::Glob(g) => out.len() > 0 && out.last().0 == t && out.last().1.pattern@
                == g.pattern@ && out.last().1.glob_type == g.glob_type && entry_glob_of(
                t,
                rules.drop_last(),
                out.drop_last(),
            ),
            Rule::Magic(_) => entry_glob_of(t, rules.drop_last(), out),
        }
    }
}

/// `out` is exactly the flattening of the per-type glob rules, in
/// registration order.
pub open spec fn flat_glob_of(
    entries: Seq<(String, Vec<Rule>)>,
    out: Seq<(String, GlobRule)>,
) -> bool
    decreases entries.len(),
{
    if entries.len() == 0 {
        out.len() == 0
    } else {
        exists|k: int|
            #![trigger out.take(k)]
            0 <= k <= out.len() && flat_glob_of(entries.drop_last(), out.take(k))
                && entry_glob_of(entries.last().0, entries.last().1@, out.skip(k))
    }
}

/// Flatten the per-type rule lists into the flat magic and glob rule lists,
/// keeping registration order.
fn flatten_rules(entries: &Vec<(String, Vec<Rule>)>) -> (r: (Vec<(String, MagicRule)>, Vec<
    (String, GlobRule),
>))
    ensures
        flat_magic_of(entries@, r.0@),
        flat_glob_of(entries@, r.1@),
{
    let mut magic: Vec<(String, MagicRule)> = Vec::new();
    let mut globs: Vec<(String, GlobRule)> = Vec::new();
    let n = entries.len();
    let mut i: usize = 0;
    proof {
        assert(entries@.take(0) =~= Seq::<(String, Vec<Rule>)>::empty());
    }
    while i < n
        invariant
            i <= n,
            n == entries@.len(),
            flat_magic_of(entries@.take(i as int), magic@),
            flat_glob_of(entries@.take(i as int), globs@),
        decreases n - i,
    {
        let entry = &entries[i];
        let rn = entry.1.len();
        let ghost m0 = magic@;
        let ghost g0 = globs@;
        let mut j: usize = 0;
        proof {
            assert(entry.1@.take(0) =~= Seq::<Rule>::empty());
            assert(magic@.skip(m0.len() as int) =~= Seq::<(String, MagicRule)>::empty());
            assert(globs@.skip(g0.len() as int) =~= Seq::<(String, GlobRule)>::empty());
        }
        while j < rn
            invariant
                j <= rn,
                i < entries@.len(),
                *entry == entries@[i as int],
                rn == entry.1@.len(),
                magic@.len() >= m0.len(),
                globs@.len() >= g0.len(),
                magic@.take(m0.len() as int) == m0,
                globs@.take(g0.len() as int) == g0,
                entry_magic_of(entry.0, entry.1@.take(j as int), magic@.skip(m0.len() as int)),
                entry_glob_of(entry.0, entry.1@.take(j as int), globs@.skip(g0.len() as int)),
            decreases rn - j,
        {
            proof {
                assert(entry.1@.take(j + 1).drop_last() =~= entry.1@.take(j as int));
                assert(entry.1@.take(j + 1).last() == entry.1@[j as int]);
            }
            match &entry.1[j] {
                Rule::Magic(m) => {
                    let ghost pre = magic@;
                    magic.push((entry.0.clone(), copy_magic_rule(m)));
                    proof {
                        assert(magic@.take(m0.len() as int) =~= m0);
                        assert(magic@.skip(m0.len() as int).drop_last() =~= pre.skip(
                            m0.len() as int,
                        ));
                        assert(magic@.skip(m0.len() as int).last() == magic@.last());
                        assert(globs@.skip(g0.len() as int) =~= globs@.skip(g0.len() as int));
                    }
                },
                Rule::Glob(g) => {
                    let ghost pre = globs@;
                    globs.push((entry.0.clone(), copy_glob_rule(g)));
                    proof {
                        assert(globs@.take(g0.len() as int) =~= g0);
                        assert(globs@.skip(g0.len() as int).drop_last() =~= pre.skip(
                            g0.len() as int,
                        ));
                        assert(globs@.skip(g0.len() as int).last() == globs@.last());
                    }
                },
            }
            j += 1;
        }
        proof {
            assert(entry.1@.take(rn as int) =~= entry.1@);
            assert(entries@.take(i + 1).drop_last() =~= entries@.take(i as int));
            assert(entries@.take(i + 1).last() == entries@[i as int]);
            assert(flat_magic_of(entries@.take(i + 1).drop_last(), magic@.take(m0.len() as int)));
            assert(entry_magic_of(
                entries@.take(i + 1).last().0,
                entries@.take(i + 1).last().1@,
                magic@.skip(m0.len() as int),
            ));
            assert(flat_magic_of(entries@.take(i + 1), magic@));
            assert(flat_glob_of(entries@.take(i + 1).drop_last(), globs@.take(g0.len() as int)));
            assert(entry_glob_of(
                entries@.take(i + 1).last().0,
                entries@.take(i + 1).last().1@,
                globs@.skip(g0.len() as int),
            ));
            assert(flat_glob_of(entries@.take(i + 1), globs@));
        }
        i += 1;
    }
    proof {
        assert(entries@.take(n as int) =~= entries@);
    }
    (magic, globs)
}

/// Check a Single's well-formedness.
fn check_single_wf(s: &Single) -> (r: bool)
    ensures
        r == single_wf(*s),
    decreases *s,
{
    if s.bytes.len() == 0 {
        return false;
    }
    let n = s.conditions.len();
    let mut i: usize = 0;
    while i < n
        invariant
            i <= n,
            n == s.conditions@.len(),
            s.bytes@.len() >= 1,
            forall|k: int| 0 <= k < i ==> single_wf(#[trigger] s.conditions@[k]),
        decreases n - i,
    {
        if !check_single_wf(&s.conditions[i]) {
            return false;
        }
        i += 1;
    }
    true
}

/// Check a list of Singles for well-formedness.
fn check_singles_wf(v: &Vec<Single>) -> (r: bool)
    ensures
        r == forall|k: int| 0 <= k < v@.len() ==> single_wf(#[trigger] v@[k]),
{
    let n = v.len();
    let mut i: usize = 0;
    while i < n
        invariant
            i <= n,
            n == v@.len(),
            forall|k: int| 0 <= k < i ==> single_wf(#[trigger] v@[k]),
        decreases n - i,
    {
        if !check_single_wf(&v[i]) {
            return false;
        }
        i += 1;
    }
    true
}

/// Check a magic rule's well-formedness.
fn check_magic_rule_wf(m: &MagicRule) -> (r: bool)
    ensures
        r == magic_rule_wf(*m),
{
    let n = m.conditions.len();
    let mut i: usize = 0;
    while i < n
        invariant
            i <= n,
            n == m.conditions@.len(),
            forall|k: int| 0 <= k < i ==> match_wf(#[trigger] m.conditions@[k]),
        decreases n - i,
    {
        let ok = match &m.conditions[i] {
            Match::Single(s) => check_single_wf(s),
            Match::Multi(mu) => {
                if mu.min_to_match == 0 {
                    false
                } else if (mu.min_to_match as usize) > mu.conditions.len() {
                    false
                } else {
                    check_singles_wf(&mu.conditions)
                }
            },
        };
        if !ok {
            return false;
        }
        i += 1;
    }
    true
}

/// Neighbourwise descending priorities give pairwise descending priorities.
proof fn lemma_adjacent_sorted(rules: Seq<(String, MagicRule)>, i: int, j: int)
    requires
        forall|k: int|
            1 <= k < rules.len() ==> (#[trigger] rules[k]).1.priority <= rules[k - 1].1.priority,
        0 <= i <= j < rules.len(),
    ensures
        rules[i].1.priority >= rules[j].1.priority,
    decreases j - i,
{
    if i < j {
        lemma_adjacent_sorted(rules, i, j - 1);
        assert(rules[j].1.priority <= rules[j - 1].1.priority);
    }
}

/// Check that no two entries share a key.
fn check_unique_keys<V>(m: &Vec<(String, V)>) -> (r: bool)
    ensures
        r == unique_keys(m@),
{
    let n = m.len();
    let mut i: usize = 0;
    while i < n
        invariant
            i <= n,
            n == m@.len(),
            forall|a: int, b: int|
                0 <= a < b < m@.len() && a < i ==> (#[trigger] m@[a]).0@ != (#[trigger] m@[b]).0@,
        decreases n - i,
    {
        let mut j: usize = i + 1;
        while j < n
            invariant
                i < j <= n,
                n == m@.len(),
                forall|b: int| i < b < j ==> (#[trigger] m@[b]).0@ != m@[i as int].0@,
            decreases n - j,
        {
            if crate::bytes_util::str_eq(m[i].0.as_str(), m[j].0.as_str()) {
                return false;
            }
            j += 1;
        }
        i += 1;
    }
    true
}

/// Check the whole registry against its well-formedness invariant.
pub(crate) fn check_registry_wf(reg: &MediaTypeRegistry) -> (r: bool)
    ensures
        r == registry_wf(*reg),
{
    if !check_unique_keys(&reg.rules_registry) {
        return false;
    }
    if !check_unique_keys(&reg.sub_types) {
        return false;
    }
    // every root type is registered
    let n = reg.root_types.len();
    let mut i: usize = 0;
    while i < n
        invariant
            i <= n,
            n == reg.root_types@.len(),
            forall|k: int|
                0 <= k < i ==> crate::rule::assoc_has_key(
                    reg.rules_registry@,
                    (#[trigger] reg.root_types@[k])@,
                ),
        decreases n - i,
    {
        let found = assoc_find(&reg.rules_registry, reg.root_types[i].as_str());
        proof {
            lemma_assoc_get_has_key(reg.rules_registry@, reg.root_types@[i as int]@);
        }
        if found.is_none() {
            proof {
                assert(!crate::rule::assoc_has_key(
                    reg.rules_registry@,
                    reg.root_types@[i as int]@,
                ));
                assert(!registry_wf(*reg));
            }
            return false;
        }
        i += 1;
    }
    // every subclass child is registered
    let n = reg.sub_types.len();
    let mut i: usize = 0;
    while i < n
        invariant
            i <= n,
            n == reg.sub_types@.len(),
            forall|a: int, b: int|
                0 <= a < i && 0 <= b < (#[trigger] reg.sub_types@[a]).1@.len()
                    ==> crate::rule::assoc_has_key(
                    reg.rules_registry@,
                    (#[trigger] reg.sub_types@[a].1@[b])@,
                ),
        decreases n - i,
    {
        let entry = &reg.sub_types[i];
        let cn = entry.1.len();
        let mut j: usize = 0;
        while j < cn
            invariant
                j <= cn,
                i < reg.sub_types@.len(),
                *entry == reg.sub_types@[i as int],
                cn == entry.1@.len(),
                forall|b: int|
                    0 <= b < j ==> crate::rule::assoc_has_key(
                        reg.rules_registry@,
                        (#[trigger] entry.1@[b])@,
                    ),
        decreases cn - j,
        {
            let found = assoc_find(&reg.rules_registry, entry.1[j].as_str());
            proof {
                lemma_assoc_get_has_key(reg.rules_registry@, entry.1@[j as int]@);
            }
            if found.is_none() {
                proof {
                    assert(reg.sub_types@[i as int].1@[j as int] == entry.1@[j as int]);
                    assert(!crate::rule::assoc_has_key(
                        reg.rules_registry@,
                        (reg.sub_types@[i as int].1@[j as int])@,
                    ));
                    assert(!registry_wf(*reg));
                }
                return false;
            }
            j += 1;
        }
        i += 1;
    }
    // every rule in the per-type lists is well-formed
    let n = reg.rules_registry.len();
    let mut i: usize = 0;
    while i < n
        invariant
            i <= n,
            n == reg.rules_registry@.len(),
            forall|a: int, b: int|
                0 <= a < i && 0 <= b < (#[trigger] reg.rules_registry@[a]).1@.len() ==> rule_wf(
                    #[trigger] reg.rules_registry@[a].1@[b],
                ),
        decreases n - i,
    {
        let entry = &reg.rules_registry[i];
        let rn = entry.1.len();
        let mut j: usize = 0;
        while j < rn
            invariant
                j <= rn,
                i < reg.rules_registry@.len(),
                *entry == reg.rules_registry@[i as int],
                rn == entry.1@.len(),
                forall|b: int| 0 <= b < j ==> rule_wf(#[trigger] entry.1@[b]),
            decreases rn - j,
        {
            let ok = match &entry.1[j] {
                Rule::Magic(m) => check_magic_rule_wf(m),
                Rule::Glob(_) => true,
            };
            if !ok {
                proof {
                    assert(!rule_wf(reg.rules_registry@[i as int].1@[j as int]));
                    assert(!registry_wf(*reg));
                }
                return false;
            }
            j += 1;
        }
        i += 1;
    }
    // the flat magic rules are well-formed and sorted by descending priority
    let n = reg.magic_rules.len();
    let mut i: usize = 0;
    while i < n
        invariant
            i <= n,
            n == reg.magic_rules@.len(),
            forall|k: int| 0 <= k < i ==> magic_rule_wf((#[trigger] reg.magic_rules@[k]).1),
            forall|k: int|
                1 <= k < i ==> (#[trigger] reg.magic_rules@[k]).1.priority <= reg.magic_rules@[k
                    - 1].1.priority,
        decreases n - i,
    {
        if !check_magic_rule_wf(&reg.magic_rules[i].1) {
            return false;
        }
        if i >= 1 {
            if reg.magic_rules[i].1.priority > reg.magic_rules[i - 1].1.priority {
                return false;
            }
        }
        i += 1;
    }
    proof {
        assert forall|a: int, b: int| 0 <= a <= b < reg.magic_rules@.len() implies (
        #[trigger] reg.magic_rules@[a]).1.priority >= (#[trigger] reg.magic_rules@[b]).1.priority by {
            lemma_adjacent_sorted(reg.magic_rules@, a, b);
        }
    }
    // no type reaches itself through the hierarchy: the step budget covers
    // any closed walk a pair of mutual descendants could form
    let n = reg.sub_types.len();
    let fuel: u128 = 2 * (n as u128) + 1;
    let mut i: usize = 0;
    while i < n
        invariant
            i <= n,
            n == reg.sub_types@.len(),
            fuel as nat == 2 * reg.sub_types@.len() + 1,
            forall|k: int|
                0 <= k < i ==> !reaches(
                    reg.sub_types@,
                    (#[trigger] reg.sub_types@[k]).0@,
                    reg.sub_types@[k].0@,
                    2 * reg.sub_types@.len() + 1,
                ),
        decreases n - i,
    {
        let key = &reg.sub_types[i].0;
        if crate::detect::reaches_exec(&reg.sub_types, key, key, fuel) {
            return false;
        }
        i += 1;
    }
    true
}

/// The starting compiler state: nothing open, nothing collected.
pub open spec fn init_state(o: CompilerState) -> bool {
    &&& o.open_elements@.len() == 0
    &&& o.curr_rules@.len() == 0
    &&& o.curr_magic is None
    &&& o.curr_parent is None
    &&& o.nested_matches@.len() == 0
    &&& o.rules_registry@.len() == 0
    &&& o.sub_types@.len() == 0
    &&& o.root_types@.len() == 0
}

/// The exact outcome of one event.
pub open spec fn event_result(o: CompilerState, ev: RawXmlEvent) -> Result<(), CompileError> {
    match ev {
        RawXmlEvent::Start(n, a) => start_result(o, n@, a@),
        RawXmlEvent::End(n) => end_result(o, n@),
    }
}

/// How one successfully handled event moves the state.
pub open spec fn event_step(o: CompilerState, ev: RawXmlEvent, f: CompilerState) -> bool {
    match ev {
        RawXmlEvent::Start(n, a) => start_step(o, n, a, f),
        RawXmlEvent::End(n) => end_step(o, n, f),
    }
}

/// The compiler's fold over an event sequence, starting from state `o`:
/// `out` is either the state after every event, or the first error raised.
pub open spec fn fold_events(
    events: Seq<RawXmlEvent>,
    o: CompilerState,
    out: Result<CompilerState, CompileError>,
) -> bool
    decreases events.len(),
{
    if events.len() == 0 {
        out == Result::<CompilerState, CompileError>::Ok(o)
    } else {
        // an error raised by the earlier events stays
        ||| (out is Err && fold_events(events.drop_last(), o, out))
        // or the earlier events reach a state on which the last event acts
        ||| (exists|m: CompilerState|
            #![trigger event_result(m, events.last())]
            fold_events(events.drop_last(), o, Result::<CompilerState, CompileError>::Ok(m))
                && (match event_result(m, events.last()) {
                Err(e) => out == Result::<CompilerState, CompileError>::Err(e),
                Ok(_) => exists|f: CompilerState|
                    #![trigger event_step(m, events.last(), f)]
                    event_step(m, events.last(), f) && out == Result::<
                        CompilerState,
                        CompileError,
                    >::Ok(f),
            }))
    }
}

/// An error raised by a prefix of the events is the outcome of the whole
/// sequence.
proof fn lemma_fold_error_stays(
    events: Seq<RawXmlEvent>,
    i: int,
    o: CompilerState,
    e: CompileError,
)
    requires
        0 <= i <= events.len(),
        fold_events(events.take(i), o, Result::<CompilerState, CompileError>::Err(e)),
    ensures
        fold_events(events, o, Result::<CompilerState, CompileError>::Err(e)),
    decreases events.len() - i,
{
    if i == events.len() {
        assert(events.take(i) =~= events);
    } else {
        assert(events.take(i + 1).drop_last() =~= events.take(i));
        assert(fold_events(
            events.take(i + 1).drop_last(),
            o,
            Result::<CompilerState, CompileError>::Err(e),
        ));
        assert(fold_events(
            events.take(i + 1),
            o,
            Result::<CompilerState, CompileError>::Err(e),
        ));
        lemma_fold_error_stays(events, i + 1, o, e);
    }
}

/// How the final fold state is assembled into the answer: a fold error is
/// returned as it is; leftover open elements are an Xml error; otherwise the
/// per-type rules, hierarchy and roots are taken over, the flat lists are
/// the flattenings of the per-type rules (the magic list sorted by
/// descending priority, stable per priority), and a Schema error comes back
/// exactly when no such well-formed registry exists.
pub open spec fn assemble_result(
    out: Result<CompilerState, CompileError>,
    r: Result<MediaTypeRegistry, CompileError>,
) -> bool {
    match out {
        Err(e) => r == Result::<MediaTypeRegistry, CompileError>::Err(e),
        Ok(stf) => if stf.open_elements@.len() > 0 {
            r == Result::<MediaTypeRegistry, CompileError>::Err(CompileError::Xml)
        } else {
            exists|mf: Seq<(String, MagicRule)>|
                #[trigger] flat_magic_of(stf.rules_registry@, mf) && match r {
                    Ok(reg) => {
                        &&& registry_wf(reg)
                        &&& assembles(stf, mf, reg)
                    },
                    Err(e) => e == CompileError::Schema && (exists|reg: MediaTypeRegistry|
                        #![trigger assembles(stf, mf, reg)]
                        assembles(stf, mf, reg) && !registry_wf(reg)),
                }
        },
    }
}

/// `reg` is put together from the folded state `stf` and its flat magic
/// rules `mf`.
pub open spec fn assembles(
    stf: CompilerState,
    mf: Seq<(String, MagicRule)>,
    reg: MediaTypeRegistry,
) -> bool {
    &&& reg.rules_registry == stf.rules_registry
    &&& reg.sub_types == stf.sub_types
    &&& reg.root_types == stf.root_types
    &&& flat_glob_of(stf.rules_registry@, reg.glob_rules@)
    &&& sorted_by_priority_desc(reg.magic_rules@)
    &&& (forall|p: int| #[trigger] filter_prio(reg.magic_rules@, p) == filter_prio(mf, p))
}

/// The whole compilation: some empty starting state folds over the events
/// to an outcome that assembles into `r`.
pub open spec fn compile_outcome(
    events: Seq<RawXmlEvent>,
    r: Result<MediaTypeRegistry, CompileError>,
) -> bool {
    exists|o: CompilerState, out: Result<CompilerState, CompileError>|
        init_state(o) && #[trigger] fold_events(events, o, out) && assemble_result(out, r)
}

/// Fold a stream of XML events into a registry: every completed mime-type
/// element commits its rules and its hierarchy edge, the flat rule lists are
/// built and the magic list sorted by descending priority, and the result is
/// checked against the registry invariant. The answer is exactly the fold's:
/// the first error raised, an Xml error for leftover open elements, and
/// otherwise the assembled registry, well-formed.
pub fn compile_registry(events: &Vec<RawXmlEvent>) -> (r: Result<MediaTypeRegistry, CompileError>)
    ensures
        compile_outcome(events@, r),
        match r {
            Ok(reg) => registry_wf(reg),
            Err(_) => true,
        },
{
    let mut st = CompilerState {
        open_elements: Vec::new(),
        curr_rules: Vec::new(),
        curr_magic: None,
        curr_parent: None,
        nested_matches: Vec::new(),
        rules_registry: Vec::new(),
        sub_types: Vec::new(),
        root_types: Vec::new(),
    };
    let ghost st0 = st;
    proof {
        assert(init_state(st0));
        assert(events@.take(0) =~= Seq::<RawXmlEvent>::empty());
    }
    let n = events.len();
    let mut i: usize = 0;
    while i < n
        invariant
            i <= n,
            n == events@.len(),
            init_state(st0),
            fold_events(events@.take(i as int), st0, Result::<CompilerState, CompileError>::Ok(st)),
        decreases n - i,
    {
        let ghost pre = st;
        proof {
            assert(events@.take(i + 1).drop_last() =~= events@.take(i as int));
            assert(events@.take(i + 1).last() == events@[i as int]);
        }
        let step = match &events[i] {
            RawXmlEvent::Start(name, attrs) => handle_start(&mut st, name, attrs),
            RawXmlEvent::End(name) => handle_end(&mut st, name),
        };
        match step {
            Ok(_) => {
                proof {
                    assert(fold_events(
                        events@.take(i + 1).drop_last(),
                        st0,
                        Result::<CompilerState, CompileError>::Ok(pre),
                    ));
                    assert(event_result(pre, events@.take(i + 1).last()) == Result::<
                        (),
                        CompileError,
                    >::Ok(()));
                    assert(event_step(pre, events@.take(i + 1).last(), st));
                    assert(fold_events(
                        events@.take(i + 1),
                        st0,
                        Result::<CompilerState, CompileError>::Ok(st),
                    ));
                }
            },
            Err(e) => {
                proof {
                    assert(fold_events(
                        events@.take(i + 1).drop_last(),
                        st0,
                        Result::<CompilerState, CompileError>::Ok(pre),
                    ));
                    assert(event_result(pre, events@.take(i + 1).last()) == Result::<
                        (),
                        CompileError,
                    >::Err(e));
                    assert(fold_events(
                        events@.take(i + 1),
                        st0,
                        Result::<CompilerState, CompileError>::Err(e),
                    ));
                    lemma_fold_error_stays(events@, i + 1, st0, e);
                    assert(assemble_result(
                        Result::<CompilerState, CompileError>::Err(e),
                        Result::<MediaTypeRegistry, CompileError>::Err(e),
                    ));
                }
                return Err(e);
            },
        }
        i += 1;
    }
    proof {
        assert(events@.take(n as int) =~= events@);
    }
    let ghost stf = st;
    if st.open_elements.len() > 0 {
        return Err(CompileError::Xml);
    }
    let (magic, globs) = flatten_rules(&st.rules_registry);
    let ghost mf = magic@;
    let magic = sort_magic_rules(magic);
    let reg = MediaTypeRegistry {
        rules_registry: st.rules_registry,
        magic_rules: magic,
        glob_rules: globs,
        sub_types: st.sub_types,
        root_types: st.root_types,
    };
    proof {
        assert(assembles(stf, mf, reg));
    }
    if check_registry_wf(&reg) {
        Ok(reg)
    } else {
        Err(CompileError::Schema)
    }
}

#[verifier::external_type_specification]
#[verifier::external_body]
pub struct ExXmlReaderError(xml::reader::Error);

/// The view of an attribute list: local names and values as character
/// sequences.
pub open spec fn attr_views(attrs: Seq<(String, String)>) -> Seq<(Seq<char>, Seq<char>)> {
    Seq::new(attrs.len(), |i: int| (attrs[i].0@, attrs[i].1@))
}

/// The view of one event: whether it is a start tag, its local name, and
/// its attributes (an end tag carries none).
pub open spec fn event_view(e: RawXmlEvent) -> (bool, Seq<char>, Seq<(Seq<char>, Seq<char>)>) {
    match e {
        RawXmlEvent::Start(n, a) => (true, n@, attr_views(a@)),
        RawXmlEvent::End(n) => (false, n@, Seq::empty()),
    }
}

pub open spec fn events_view(evs: Seq<RawXmlEvent>) -> Seq<
    (bool, Seq<char>, Seq<(Seq<char>, Seq<char>)>),
> {
    Seq::new(evs.len(), |i: int| event_view(evs[i]))
}

/// What the XML reader makes of a document: its element events, or nothing
/// when the document is malformed. The outcome depends on the document
/// bytes alone.
pub uninterp spec fn xml_events_of(xml: Seq<u8>) -> Option<
    Seq<(bool, Seq<char>, Seq<(Seq<char>, Seq<char>)>)>,
>;

/// Relies on xml::reader::EventReader (and its event iterator): pulls the
/// XML events of the document bytes; start- and end-element events are
/// carried over with their local names and attributes, other events hold
/// nothing the compiler reads; a malformed document is the reader's error.
/// The reader is a pure function of the document bytes, so its outcome is
/// the named `xml_events_of`.
#[verifier::external_body]
fn read_xml_events(xml: &[u8]) -> (r: Result<Vec<RawXmlEvent>, xml::reader::Error>)
    ensures
        match r {
            Ok(evs) => xml_events_of(xml@) == Some(events_view(evs@)),
            Err(_) => xml_events_of(xml@) is None,
        },
{
    let mut out = Vec::new();
    for event in xml::reader::EventReader::new(xml) {
        match event? {
            xml::reader::XmlEvent::StartElement { name, attributes, .. } => out.push(
                RawXmlEvent::Start(
                    name.local_name,
                    attributes.into_iter().map(|a| (a.name.local_name, a.value)).collect(),
                ),
            ),
            xml::reader::XmlEvent::EndElement { name } => out.push(RawXmlEvent::End(name.local_name)),
            _ => {},
        }
    }
    Ok(out)
}

/// Compile the Tika mime-types XML document into a registry: a document the
/// reader refuses is an Xml error; otherwise the result is exactly the
/// compilation of the document's named event stream, and every `Ok` result
/// is well-formed.
pub fn compile_from_xml(xml: &[u8]) -> (r: Result<MediaTypeRegistry, CompileError>)
    ensures
        match xml_events_of(xml@) {
            None => r == Result::<MediaTypeRegistry, CompileError>::Err(CompileError::Xml),
            Some(ev) => exists|evs: Seq<RawXmlEvent>|
                events_view(evs) == ev && #[trigger] compile_outcome(evs, r),
        },
        match r {
            Ok(reg) => registry_wf(reg),
            Err(_) => true,
        },
{
    match read_xml_events(xml) {
        Err(_) => Err(CompileError::Xml),
        Ok(events) => compile_registry(&events),
    }
}

} // verus!
