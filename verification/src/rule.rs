//! The rule model: magic conditions, glob rules, the media-type registry
//! and its well-formedness invariants.

use vstd::prelude::*;

verus! {

/// Errors raised while compiling the rule registry from its XML source.
#[derive(Clone, Copy, Debug, PartialEq, Eq, Structural)]
pub enum CompileError {
    /// The XML source could not be read.
    Io,
    /// The XML source is malformed.
    Xml,
    /// A required attribute is missing, a numeric attribute is out of range,
    /// or the elements are nested illegally.
    Schema,
    /// A match value holds bad hex digits or a malformed escape.
    Decode,
}

/// A half-open window of buffer positions at which a magic pattern may begin:
/// every start in `[from, from + count]` (inclusive) is tried.
#[derive(Clone, Copy, Debug, PartialEq, Eq, Structural)]
pub struct Offset {
    /// The first byte position to try.
    pub from: u32,
    /// The number of additional start positions to try after `from`.
    pub count: u32,
}

/// A literal byte sequence with the window it may start in and an ordered
/// list of child conditions, of which at least one must also match
/// (children form a disjunction; an empty child list is vacuously satisfied).
#[derive(Debug)]
pub struct Single {
    pub offset: Offset,
    pub bytes: Vec<u8>,
    pub conditions: Vec<Single>,
}

/// A quorum condition: at least `min_to_match` of `conditions` must match.
#[derive(Debug)]
pub struct Multi {
    pub min_to_match: u8,
    pub conditions: Vec<Single>,
}

/// A magic match condition: either a single pattern or a quorum.
#[derive(Debug)]
pub enum Match {
    Multi(Multi),
    Single(Single),
}

/// A prioritized magic rule: a disjunction of match conditions.
#[derive(Debug)]
pub struct MagicRule {
    /// Priority over other magic rules; higher wins.
    pub priority: u8,
    pub conditions: Vec<Match>,
}

/// How a glob pattern is applied to a resource name.
#[derive(Clone, Copy, Debug, PartialEq, Eq, Structural)]
pub enum GlobType {
    Regex,
    EndsWith,
    StartsWith,
    Contains,
}

/// A file-name rule: the pattern bytes (asterisks already stripped) and the
/// way they are applied.
#[derive(Debug)]
pub struct GlobRule {
    pub pattern: Vec<u8>,
    pub glob_type: GlobType,
}

/// A classification rule owned by a media type.
#[derive(Debug)]
pub enum Rule {
    Glob(GlobRule),
    Magic(MagicRule),
}

/// The compiled registry: per-type rules, flat prioritized rule lists, and
/// the subclass hierarchy.
#[derive(Debug)]
pub struct MediaTypeRegistry {
    /// Every known media type with its rules, glob rules first, in XML order.
    pub rules_registry: Vec<(String, Vec<Rule>)>,
    /// All magic rules, sorted by descending priority, stable on ties.
    pub magic_rules: Vec<(String, MagicRule)>,
    /// All glob rules, in XML order.
    pub glob_rules: Vec<(String, GlobRule)>,
    /// Immediate subclass edges: parent type to its child types.
    pub sub_types: Vec<(String, Vec<String>)>,
    /// Media types with no parent.
    pub root_types: Vec<String>,
}

impl Match {
    /// Attach a just-closed nested match block to this parent condition.
    /// Only Single conditions may be children: attaching a Multi is a
    /// schema error and leaves the parent unchanged.
    pub fn add_child_condition(&mut self, condition: Match) -> (r: Result<(), CompileError>)
        ensures
            match condition {
                Match::Single(c) => r is Ok && adds_child(*old(self), c, *final(self)),
                Match::Multi(_) => r == Result::<(), CompileError>::Err(CompileError::Schema)
                    && *final(self) == *old(self),
            },
    {
        match condition {
            Match::Single(single_condition) => {
                match self {
                    Match::Multi(multi) => multi.conditions.push(single_condition),
                    Match::Single(single) => single.conditions.push(single_condition),
                }
                Ok(())
            },
            Match::Multi(_) => Err(CompileError::Schema),
        }
    }
}

/// `result` is `parent` with `c` appended to its child (for a Single) or
/// quorum (for a Multi) condition list.
pub open spec fn adds_child(parent: Match, c: Single, result: Match) -> bool {
    match (parent, result) {
        (Match::Single(s), Match::Single(s2)) => {
            &&& s2.offset == s.offset
            &&& s2.bytes == s.bytes
            &&& s2.conditions@ == s.conditions@.push(c)
        },
        (Match::Multi(m), Match::Multi(m2)) => {
            &&& m2.min_to_match == m.min_to_match
            &&& m2.conditions@ == m.conditions@.push(c)
        },
        _ => false,
    }
}

/// Well-formed Single: non-empty byte pattern, recursively well-formed children.
pub open spec fn single_wf(s: Single) -> bool
    decreases s,
{
    &&& s.bytes@.len() >= 1
    &&& forall|i: int| 0 <= i < s.conditions@.len() ==> single_wf(#[trigger] s.conditions@[i])
}

/// Well-formed Multi: quorum between 1 and the condition count, well-formed
/// sub-conditions.
pub open spec fn multi_wf(m: Multi) -> bool {
    &&& 1 <= m.min_to_match as int
    &&& m.min_to_match as int <= m.conditions@.len()
    &&& forall|i: int| 0 <= i < m.conditions@.len() ==> single_wf(#[trigger] m.conditions@[i])
}

pub open spec fn match_wf(m: Match) -> bool {
    match m {
        Match::Single(s) => single_wf(s),
        Match::Multi(mu) => multi_wf(mu),
    }
}

pub open spec fn magic_rule_wf(r: MagicRule) -> bool {
    forall|i: int| 0 <= i < r.conditions@.len() ==> match_wf(#[trigger] r.conditions@[i])
}

pub open spec fn rule_wf(r: Rule) -> bool {
    match r {
        Rule::Magic(m) => magic_rule_wf(m),
        Rule::Glob(_) => true,
    }
}

/// Some entry of the association list `m` has key `k`.
pub open spec fn assoc_has_key<V>(m: Seq<(String, V)>, k: Seq<char>) -> bool {
    exists|i: int| 0 <= i < m.len() && (#[trigger] m[i]).0@ == k
}

/// The value under key `k` in `m` (first match wins).
pub open spec fn assoc_get<V>(m: Seq<(String, V)>, k: Seq<char>) -> Option<V>
    decreases m.len(),
{
    if m.len() == 0 {
        None
    } else if m[0].0@ == k {
        Some(m[0].1)
    } else {
        assoc_get(m.drop_first(), k)
    }
}

/// `assoc_get` finds a value exactly when some entry has the key.
pub proof fn lemma_assoc_get_has_key<V>(m: Seq<(String, V)>, k: Seq<char>)
    ensures
        assoc_get(m, k) is Some <==> assoc_has_key(m, k),
    decreases m.len(),
{
    if m.len() > 0 {
        lemma_assoc_get_has_key(m.drop_first(), k);
        if m[0].0@ != k {
            assert forall|i: int| 0 <= i < m.len() && (#[trigger] m[i]).0@ == k implies
                assoc_has_key(m.drop_first(), k) by {
                assert(m.drop_first()[i - 1].0@ == k);
            }
            assert forall|i: int| 0 <= i < m.drop_first().len()
                && (#[trigger] m.drop_first()[i]).0@ == k implies assoc_has_key(m, k) by {
                assert(m[i + 1].0@ == k);
            }
        }
    }
}

/// Linear search of an association list by key.
pub fn assoc_find<'a, V>(m: &'a Vec<(String, V)>, k: &str) -> (r: Option<&'a V>)
    ensures
        match r {
            Some(v) => assoc_get(m@, k@) == Some(*v),
            None => assoc_get(m@, k@) is None,
        },
{
    let n = m.len();
    let mut i: usize = 0;
    proof {
        assert(m@.skip(0) =~= m@);
    }
    while i < n
        invariant
            i <= n,
            n == m@.len(),
            assoc_get(m@, k@) == assoc_get(m@.skip(i as int), k@),
        decreases n - i,
    {
        proof {
            assert(m@.skip(i as int).drop_first() =~= m@.skip(i as int + 1));
            assert(m@.skip(i as int)[0] == m@[i as int]);
        }
        let entry = &m[i];
        if crate::bytes_util::str_eq(entry.0.as_str(), k) {
            return Some(&entry.1);
        }
        i += 1;
    }
    proof {
        assert(m@.skip(n as int) =~= Seq::<(String, V)>::empty());
    }
    None
}

/// No two entries of `m` share a key.
pub open spec fn unique_keys<V>(m: Seq<(String, V)>) -> bool {
    forall|i: int, j: int| 0 <= i < j < m.len() ==> (#[trigger] m[i]).0@ != (#[trigger] m[j]).0@
}

/// `child` is reachable from `parent` through subclass edges in at most
/// `fuel` steps.
pub open spec fn reaches(
    sub: Seq<(String, Vec<String>)>,
    parent: Seq<char>,
    child: Seq<char>,
    fuel: nat,
) -> bool
    decreases fuel,
{
    if fuel == 0 {
        false
    } else {
        match assoc_get(sub, parent) {
            Some(children) => (exists|i: int| 0 <= i < children@.len()
                && (#[trigger] children@[i])@ == child) || (exists|i: int| 0 <= i < children@.len()
                && reaches(sub, (#[trigger] children@[i])@, child, (fuel - 1) as nat)),
            None => false,
        }
    }
}

/// `child` is a (strict) descendant of `parent` in the subclass hierarchy.
/// A budget of one step per hierarchy entry covers every simple path: each
/// node a path leaves through an edge is a key of the hierarchy.
pub open spec fn is_sub_type_spec(
    sub: Seq<(String, Vec<String>)>,
    parent: Seq<char>,
    child: Seq<char>,
) -> bool {
    reaches(sub, parent, child, sub.len())
}

/// The UTF-8 bytes of an optional attribute string.
pub open spec fn opt_bytes_of(s: Option<String>) -> Option<Seq<u8>> {
    match s {
        Some(v) => Some(vstd::utf8::encode_utf8(v@)),
        None => None,
    }
}

/// The first position of `b` in `s` at or after `from`.
pub open spec fn find_byte(s: Seq<u8>, b: u8, from: int) -> Option<int>
    decreases s.len() - from,
{
    if from < 0 || from >= s.len() {
        None
    } else if s[from] == b {
        Some(from)
    } else {
        find_byte(s, b, from + 1)
    }
}

pub const COLON: u8 = 0x3A;

/// The Offset an attribute stands for: no attribute is the window `[0, 0]`;
/// a plain number N is the window `[N, N]`; `N:M` is the window `[N, M]`,
/// so `count` is `M - N`. Anything else — bad digits, a number over the
/// `u32` range, or an end before the start — is a schema error.
pub open spec fn offset_of_attr(attr: Option<Seq<u8>>) -> Result<Offset, CompileError> {
    match attr {
        None => Ok(Offset { from: 0, count: 0 }),
        Some(s) => match find_byte(s, COLON, 0) {
            None => if crate::text::parses_as_u32(s) {
                Ok(Offset { from: crate::text::digits_val(s) as u32, count: 0 })
            } else {
                Err(CompileError::Schema)
            },
            Some(ci) => {
                let a = s.subrange(0, ci);
                let b = s.subrange(ci + 1, s.len() as int);
                if crate::text::parses_as_u32(a) && crate::text::parses_as_u32(b)
                    && crate::text::digits_val(a) <= crate::text::digits_val(b) {
                    Ok(
                        Offset {
                            from: crate::text::digits_val(a) as u32,
                            count: (crate::text::digits_val(b) - crate::text::digits_val(
                                a,
                            )) as u32,
                        },
                    )
                } else {
                    Err(CompileError::Schema)
                }
            },
        },
    }
}

/// The first position of `b` in `s`.
pub fn find_byte_exec(s: &[u8], b: u8) -> (r: Option<usize>)
    ensures
        match r {
            Some(i) => i < s@.len() && find_byte(s@, b, 0) == Some(i as int),
            None => find_byte(s@, b, 0) is None,
        },
{
    let n = s.len();
    let mut i: usize = 0;
    while i < n
        invariant
            i <= n,
            n == s@.len(),
            find_byte(s@, b, 0) == find_byte(s@, b, i as int),
        decreases n - i,
    {
        if s[i] == b {
            return Some(i);
        }
        i += 1;
    }
    None
}

impl Offset {
    /// Parse an XML offset attribute: absent means start-of-buffer; `N`
    /// means exactly position N; `N:M` means any start from N through M.
    pub fn from_attr(attr: Option<String>) -> (r: Result<Offset, CompileError>)
        ensures
            r == offset_of_attr(opt_bytes_of(attr)),
    {
        match attr {
            None => Ok(Offset { from: 0, count: 0 }),
            Some(offset) => {
                let bytes = offset.as_str().as_bytes();
                let blen = bytes.len();
                match find_byte_exec(bytes, COLON) {
                    None => {
                        proof {
                            assert(bytes@.subrange(0, bytes@.len() as int) =~= bytes@);
                        }
                        match crate::text::parse_u32_range(bytes, 0, bytes.len()) {
                            Ok(v) => Ok(Offset { from: v, count: 0 }),
                            Err(e) => Err(e),
                        }
                    },
                    Some(ci) => {
                        let from = match crate::text::parse_u32_range(bytes, 0, ci) {
                            Ok(v) => v,
                            Err(e) => {
                                return Err(e);
                            },
                        };
                        let to = match crate::text::parse_u32_range(bytes, ci + 1, blen) {
                            Ok(v) => v,
                            Err(e) => {
                                return Err(e);
                            },
                        };
                        if to < from {
                            return Err(CompileError::Schema);
                        }
                        Ok(Offset { from, count: to - from })
                    },
                }
            },
        }
    }
}

/// The flat magic rule list is sorted by descending priority.
pub open spec fn sorted_by_priority_desc(rules: Seq<(String, MagicRule)>) -> bool {
    forall|i: int, j: int|
        0 <= i <= j < rules.len() ==> (#[trigger] rules[i]).1.priority
            >= (#[trigger] rules[j]).1.priority
}

/// Well-formed registry: unique keys; every type referenced by the hierarchy
/// is registered; all rules well-formed; the flat magic list sorted by
/// descending priority; no type its own subtype.
pub open spec fn registry_wf(reg: MediaTypeRegistry) -> bool {
    &&& unique_keys(reg.rules_registry@)
    &&& unique_keys(reg.sub_types@)
    &&& forall|i: int| 0 <= i < reg.root_types@.len() ==> assoc_has_key(
        reg.rules_registry@,
        (#[trigger] reg.root_types@[i])@,
    )
    &&& forall|i: int, j: int|
        0 <= i < reg.sub_types@.len() && 0 <= j < (#[trigger] reg.sub_types@[i]).1@.len()
            ==> assoc_has_key(reg.rules_registry@, (#[trigger] reg.sub_types@[i].1@[j])@)
    &&& forall|i: int, j: int|
        0 <= i < reg.rules_registry@.len() && 0 <= j < (#[trigger] reg.rules_registry@[i]).1@.len()
            ==> rule_wf(#[trigger] reg.rules_registry@[i].1@[j])
    &&& forall|i: int| 0 <= i < reg.magic_rules@.len() ==> magic_rule_wf(
        (#[trigger] reg.magic_rules@[i]).1,
    )
    &&& sorted_by_priority_desc(reg.magic_rules@)
    &&& forall|k: int| 0 <= k < reg.sub_types@.len() ==> !reaches(
        reg.sub_types@,
        (#[trigger] reg.sub_types@[k]).0@,
        reg.sub_types@[k].0@,
        2 * reg.sub_types@.len() + 1,
    )
}

/// More fuel reaches no less.
pub proof fn lemma_reaches_mono(
    sub: Seq<(String, Vec<String>)>,
    parent: Seq<char>,
    child: Seq<char>,
    f1: nat,
    f2: nat,
)
    requires
        reaches(sub, parent, child, f1),
        f1 <= f2,
    ensures
        reaches(sub, parent, child, f2),
    decreases f1,
{
    if f1 > 0 {
        match assoc_get(sub, parent) {
            Some(children) => {
                if exists|i: int|
                    0 <= i < children@.len() && reaches(
                        sub,
                        (#[trigger] children@[i])@,
                        child,
                        (f1 - 1) as nat,
                    ) {
                    let i = choose|i: int|
                        0 <= i < children@.len() && reaches(
                            sub,
                            (#[trigger] children@[i])@,
                            child,
                            (f1 - 1) as nat,
                        );
                    lemma_reaches_mono(sub, children@[i]@, child, (f1 - 1) as nat, (f2 - 1) as nat);
                }
            },
            None => {},
        }
    }
}

/// Reachability composes, with the step budgets adding up.
pub proof fn lemma_reaches_trans(
    sub: Seq<(String, Vec<String>)>,
    a: Seq<char>,
    b: Seq<char>,
    c: Seq<char>,
    f1: nat,
    f2: nat,
)
    requires
        reaches(sub, a, b, f1),
        reaches(sub, b, c, f2),
    ensures
        reaches(sub, a, c, f1 + f2),
    decreases f1,
{
    let children = assoc_get(sub, a).unwrap();
    if exists|i: int| 0 <= i < children@.len() && (#[trigger] children@[i])@ == b {
        let i = choose|i: int| 0 <= i < children@.len() && (#[trigger] children@[i])@ == b;
        lemma_reaches_mono(sub, b, c, f2, (f1 + f2 - 1) as nat);
        assert(reaches(sub, children@[i]@, c, (f1 + f2 - 1) as nat));
    } else {
        let i = choose|i: int|
            0 <= i < children@.len() && reaches(sub, (#[trigger] children@[i])@, b, (f1 - 1) as nat);
        lemma_reaches_trans(sub, children@[i]@, b, c, (f1 - 1) as nat, f2);
        assert(reaches(sub, children@[i]@, c, (f1 + f2 - 1) as nat));
    }
}

/// In a well-formed registry the subtype relation is antisymmetric: no two
/// types are each other's descendants — together with irreflexivity, the
/// hierarchy has no cycles.
pub proof fn lemma_sub_type_antisymmetric(reg: MediaTypeRegistry, a: Seq<char>, b: Seq<char>)
    requires
        registry_wf(reg),
    ensures
        !(is_sub_type_spec(reg.sub_types@, a, b) && is_sub_type_spec(reg.sub_types@, b, a)),
{
    let sub = reg.sub_types@;
    let n = sub.len();
    if is_sub_type_spec(sub, a, b) && is_sub_type_spec(sub, b, a) {
        if n == 0 {
            assert(!reaches(sub, a, b, 0));
        } else {
            lemma_reaches_trans(sub, a, b, a, n, n);
            lemma_reaches_mono(sub, a, a, n + n, 2 * n + 1);
            lemma_assoc_get_has_key(sub, a);
            let k = choose|k: int| 0 <= k < sub.len() && (#[trigger] sub[k]).0@ == a;
            assert(!reaches(sub, sub[k].0@, sub[k].0@, 2 * n + 1));
        }
    }
}

/// A type is never its own subtype in a well-formed registry.
pub proof fn lemma_sub_type_irreflexive(reg: MediaTypeRegistry, t: Seq<char>)
    requires
        registry_wf(reg),
    ensures
        !is_sub_type_spec(reg.sub_types@, t, t),
{
    let sub = reg.sub_types@;
    let n = sub.len();
    if is_sub_type_spec(sub, t, t) {
        if n == 0 {
            assert(!reaches(sub, t, t, 0));
        } else {
            lemma_reaches_mono(sub, t, t, n, 2 * n + 1);
            lemma_assoc_get_has_key(sub, t);
            let i = choose|i: int| 0 <= i < sub.len() && (#[trigger] sub[i]).0@ == t;
            assert(!reaches(sub, sub[i].0@, sub[i].0@, 2 * n + 1));
        }
    }
}

} // verus!
