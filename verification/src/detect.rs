//! The detection engine: composes the magic and glob matchers with the
//! type hierarchy into a best-match answer.

use vstd::prelude::*;
use vstd::string::StringSliceAdditionalSpecFns;
use vstd::utf8::encode_utf8;
use crate::glob::{glob_rule_matches, run_glob};
use crate::magic::{magic_matches, run_magic};
use crate::rule::{GlobRule, MagicRule, MediaTypeRegistry, assoc_find, assoc_get, is_sub_type_spec, reaches};

verus! {

/// Options honored by the detection engine.
pub struct DetectorConfig {
    /// Consult glob rules when a resource name is given.
    pub enable_glob: bool,
    /// Consult magic rules against the byte buffer.
    pub enable_magic: bool,
    /// Evaluate the glob rules first and return their result immediately;
    /// the answer is the same either way, only the magic pass is skipped.
    pub prioritise_glob: bool,
    /// A hint to callers that fan out detections in parallel; the engine
    /// itself imposes no ordering.
    pub max_concurrency: u8,
    /// The type a caller may fall back to when nothing matches.
    pub default_type: &'static str,
}

impl Default for DetectorConfig {
    /// The default configuration: both passes enabled, globs not
    /// prioritised, and the catch-all binary type as the fallback.
    fn default() -> (r: DetectorConfig)
        ensures
            r.enable_glob,
            r.enable_magic,
            !r.prioritise_glob,
            r.max_concurrency == 1,
            r.default_type@ == "application/octet-stream"@,
    {
        DetectorConfig {
            enable_glob: true,
            enable_magic: true,
            prioritise_glob: false,
            max_concurrency: 1,
            default_type: "application/octet-stream",
        }
    }
}

/// The detection engine: a compiled registry and its configuration.
pub struct MediaTypeDetector {
    pub registry: MediaTypeRegistry,
    pub config: DetectorConfig,
}

/// The UTF-8 bytes of an optional resource name.
pub open spec fn name_bytes_of(resource_name: Option<String>) -> Option<Seq<u8>> {
    match resource_name {
        Some(n) => Some(encode_utf8(n@)),
        None => None,
    }
}

/// The magic pass over the remaining `rules`, carrying the media types
/// matched so far (`acc`) and the priority of the last match (`last`): stop
/// when a rule's priority falls below `last`; skip a rule whose type already
/// has a matched descendant in `acc`; append a matching rule's type.
pub open spec fn magic_pass(
    sub: Seq<(String, Vec<String>)>,
    rules: Seq<(String, MagicRule)>,
    buf: Seq<u8>,
    acc: Seq<String>,
    last: u8,
) -> Seq<String>
    decreases rules.len(),
{
    if rules.len() == 0 {
        acc
    } else if rules[0].1.priority < last {
        acc
    } else if exists|k: int|
        0 <= k < acc.len() && is_sub_type_spec(sub, rules[0].0@, (#[trigger] acc[k])@) {
        magic_pass(sub, rules.drop_first(), buf, acc, last)
    } else if magic_matches(buf, rules[0].1) {
        magic_pass(sub, rules.drop_first(), buf, acc.push(rules[0].0), rules[0].1.priority)
    } else {
        magic_pass(sub, rules.drop_first(), buf, acc, last)
    }
}

/// All media types the magic pass collects for `buf`, in match order.
pub open spec fn magic_candidates(reg: MediaTypeRegistry, buf: Seq<u8>) -> Seq<String> {
    magic_pass(reg.sub_types@, reg.magic_rules@, buf, Seq::empty(), 0)
}

/// The first glob rule matching the name decides the glob result.
pub open spec fn glob_pass(rules: Seq<(String, GlobRule)>, name: Seq<u8>) -> Option<String>
    decreases rules.len(),
{
    if rules.len() == 0 {
        None
    } else if glob_rule_matches(name, rules[0].1) {
        Some(rules[0].0)
    } else {
        glob_pass(rules.drop_first(), name)
    }
}

/// The full detection answer: the glob result (when enabled and a name is
/// given) wins outright; otherwise the last magic candidate (when enabled)
/// is the best match; otherwise nothing.
pub open spec fn detect_spec(
    reg: MediaTypeRegistry,
    cfg: DetectorConfig,
    name: Option<Seq<u8>>,
    buf: Seq<u8>,
) -> Option<String> {
    let glob = if cfg.enable_glob {
        match name {
            Some(nb) => glob_pass(reg.glob_rules@, nb),
            None => None,
        }
    } else {
        None
    };
    if glob is Some {
        glob
    } else {
        let candidates = if cfg.enable_magic {
            magic_candidates(reg, buf)
        } else {
            Seq::empty()
        };
        if candidates.len() > 0 {
            Some(candidates.last())
        } else {
            None
        }
    }
}

/// Bounded reachability search through the subclass edges.
pub(crate) fn reaches_exec(
    sub: &Vec<(String, Vec<String>)>,
    parent: &String,
    child: &String,
    fuel: u128,
) -> (r: bool)
    ensures
        r == reaches(sub@, parent@, child@, fuel as nat),
    decreases fuel,
{
    if fuel == 0 {
        return false;
    }
    match assoc_find(sub, parent.as_str()) {
        None => false,
        Some(children) => {
            let n = children.len();
            let mut i: usize = 0;
            while i < n
                invariant
                    i <= n,
                    n == children@.len(),
                    assoc_get(sub@, parent@) == Some(*children),
                    fuel >= 1,
                    forall|k: int| 0 <= k < i ==> (#[trigger] children@[k])@ != child@,
                    forall|k: int|
                        0 <= k < i ==> !reaches(
                            sub@,
                            (#[trigger] children@[k])@,
                            child@,
                            (fuel - 1) as nat,
                        ),
                decreases n - i,
            {
                if crate::bytes_util::str_eq_string(&children[i], child.as_str()) {
                    proof {
                        let cs = assoc_get(sub@, parent@).unwrap();
                        assert(cs == *children);
                        assert((cs@[i as int])@ == child@);
                    }
                    return true;
                }
                if reaches_exec(sub, &children[i], child, fuel - 1) {
                    proof {
                        let cs = assoc_get(sub@, parent@).unwrap();
                        assert(cs == *children);
                        assert(reaches(sub@, (cs@[i as int])@, child@, (fuel - 1) as nat));
                    }
                    return true;
                }
                i += 1;
            }
            false
        },
    }
}

impl MediaTypeDetector {
    /// Build a detection engine over a compiled registry.
    pub fn new(registry: MediaTypeRegistry, config: DetectorConfig) -> (r: MediaTypeDetector)
        ensures
            r.registry == registry,
            r.config == config,
    {
        MediaTypeDetector { registry, config }
    }

    /// Whether `potential_child` is a descendant of `parent` in the
    /// subclass hierarchy. The search is depth-bounded by the number of
    /// hierarchy entries, which covers every simple path, so it tolerates
    /// even a cyclic hierarchy.
    pub fn is_sub_type(&self, parent: &String, potential_child: &String) -> (r: bool)
        ensures
            r == is_sub_type_spec(self.registry.sub_types@, parent@, potential_child@),
    {
        reaches_exec(
            &self.registry.sub_types,
            parent,
            potential_child,
            self.registry.sub_types.len() as u128,
        )
    }

    /// Whether some already-matched type in `possible` is a descendant of
    /// `media_type`.
    fn any_is_sub_type(&self, media_type: &String, possible: &Vec<String>) -> (r: bool)
        ensures
            r == exists|k: int|
                0 <= k < possible@.len() && is_sub_type_spec(
                    self.registry.sub_types@,
                    media_type@,
                    (#[trigger] possible@[k])@,
                ),
    {
        let n = possible.len();
        let mut i: usize = 0;
        while i < n
            invariant
                i <= n,
                n == possible@.len(),
                forall|k: int|
                    0 <= k < i ==> !is_sub_type_spec(
                        self.registry.sub_types@,
                        media_type@,
                        (#[trigger] possible@[k])@,
                    ),
            decreases n - i,
        {
            if self.is_sub_type(media_type, &possible[i]) {
                return true;
            }
            i += 1;
        }
        false
    }

    /// Run all magic rules in descending-priority order and return the
    /// matched media types, most specific answer last.
    pub fn run_magic_rules(&self, buf: &[u8]) -> (r: Vec<String>)
        ensures
            r@ == magic_candidates(self.registry, buf@),
    {
        let mut possible_types: Vec<String> = Vec::new();
        let mut last_match_priority: u8 = 0;
        let ghost sub = self.registry.sub_types@;
        let ghost rules = self.registry.magic_rules@;
        let n = self.registry.magic_rules.len();
        let mut i: usize = 0;
        proof {
            assert(rules.skip(0) =~= rules);
        }
        while i < n
            invariant
                i <= n,
                n == rules.len(),
                rules == self.registry.magic_rules@,
                sub == self.registry.sub_types@,
                magic_candidates(self.registry, buf@) == magic_pass(
                    sub,
                    rules.skip(i as int),
                    buf@,
                    possible_types@,
                    last_match_priority,
                ),
            decreases n - i,
        {
            proof {
                assert(rules.skip(i as int).drop_first() =~= rules.skip(i as int + 1));
                assert(rules.skip(i as int)[0] == rules[i as int]);
            }
            let entry = &self.registry.magic_rules[i];
            if entry.1.priority < last_match_priority {
                return possible_types;
            }
            if self.any_is_sub_type(&entry.0, &possible_types) {
                // a more specific type already matched; skip this rule
            } else if run_magic(buf, &entry.1) {
                possible_types.push(entry.0.clone());
                last_match_priority = entry.1.priority;
            }
            i += 1;
        }
        proof {
            assert(rules.skip(n as int) =~= Seq::<(String, MagicRule)>::empty());
        }
        possible_types
    }

    /// Run the glob rules over the resource name; the first match wins.
    /// Every name is tried, whether or not it carries an extension.
    pub fn run_glob_rules(&self, resource_name: &String) -> (r: Option<String>)
        ensures
            r == glob_pass(self.registry.glob_rules@, encode_utf8(resource_name@)),
    {
        let ghost rules = self.registry.glob_rules@;
        let ghost nb = encode_utf8(resource_name@);
        let n = self.registry.glob_rules.len();
        let mut i: usize = 0;
        proof {
            assert(rules.skip(0) =~= rules);
        }
        while i < n
            invariant
                i <= n,
                n == rules.len(),
                rules == self.registry.glob_rules@,
                glob_pass(rules, nb) == glob_pass(rules.skip(i as int), nb),
                nb == encode_utf8(resource_name@),
            decreases n - i,
        {
            proof {
                assert(rules.skip(i as int).drop_first() =~= rules.skip(i as int + 1));
                assert(rules.skip(i as int)[0] == rules[i as int]);
            }
            let entry = &self.registry.glob_rules[i];
            if run_glob(resource_name.as_str(), &entry.1) {
                return Some(entry.0.clone());
            }
            i += 1;
        }
        proof {
            assert(rules.skip(n as int) =~= Seq::<(String, GlobRule)>::empty());
        }
        None
    }

    /// Detect the media type of a buffer with an optional resource name.
    pub fn detect_type(&self, resource_name: &Option<String>, buf: &[u8]) -> (r: Option<String>)
        ensures
            r == detect_spec(self.registry, self.config, name_bytes_of(*resource_name), buf@),
    {
        let glob_match: Option<String> = if self.config.enable_glob {
            match resource_name {
                Some(name) => self.run_glob_rules(name),
                None => None,
            }
        } else {
            None
        };
        if glob_match.is_some() {
            return glob_match;
        }
        if !self.config.enable_magic {
            return None;
        }
        let matches = self.run_magic_rules(buf);
        if matches.len() > 0 {
            let best = &matches[matches.len() - 1];
            Some(best.clone())
        } else {
            None
        }
    }
}

} // verus!
