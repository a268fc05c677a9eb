use detect_media_type::compile::compile_from_xml;
use detect_media_type::detect::{DetectorConfig, MediaTypeDetector};
use detect_media_type::glob::run_glob;
use detect_media_type::magic::{evaluate_match, run_magic};
use detect_media_type::registry_data::load_type_registry;
use detect_media_type::rule::{
    CompileError, GlobRule, GlobType, MagicRule, Match, MediaTypeRegistry, Multi, Offset, Rule,
    Single,
};
use detect_media_type::text::decode_value;

fn config() -> DetectorConfig {
    DetectorConfig {
        enable_glob: true,
        enable_magic: true,
        prioritise_glob: false,
        max_concurrency: 0,
        default_type: "application/octet-stream",
    }
}

fn built_in_detector() -> MediaTypeDetector {
    MediaTypeDetector::new(load_type_registry(), config())
}

#[test]
fn default_config_enables_both_passes() {
    let cfg = DetectorConfig::default();
    assert!(cfg.enable_glob);
    assert!(cfg.enable_magic);
    assert!(!cfg.prioritise_glob);
    assert_eq!(cfg.default_type, "application/octet-stream");
    let detector = MediaTypeDetector::new(load_type_registry(), cfg);
    assert_eq!(
        detector.detect_type(&None, &PNG_BYTES),
        Some("image/png".to_string())
    );
}

fn single(from: u32, count: u32, bytes: &[u8]) -> Single {
    Single {
        offset: Offset { from, count },
        bytes: bytes.to_vec(),
        conditions: Vec::new(),
    }
}

fn magic_of(priority: u8, bytes: &[u8]) -> MagicRule {
    MagicRule {
        priority,
        conditions: vec![Match::Single(single(0, 0, bytes))],
    }
}

fn empty_registry() -> MediaTypeRegistry {
    MediaTypeRegistry {
        rules_registry: Vec::new(),
        magic_rules: Vec::new(),
        glob_rules: Vec::new(),
        sub_types: Vec::new(),
        root_types: Vec::new(),
    }
}

const PNG_BYTES: [u8; 16] = [
    0x89, 0x50, 0x4E, 0x47, 0x0D, 0x0A, 0x1A, 0x0A, 0x00, 0x00, 0x00, 0x0D, 0x49, 0x48, 0x44,
    0x52,
];

const JPEG_BYTES: [u8; 16] = [
    0xFF, 0xD8, 0xFF, 0xE0, 0x00, 0x10, 0x4A, 0x46, 0x49, 0x46, 0x00, 0x01, 0x01, 0x00, 0x00,
    0x01,
];

#[test]
fn detects_jpeg_by_magic_without_extension() {
    let detector = built_in_detector();
    let name = Some("image_jpeg".to_string());
    assert_eq!(
        detector.detect_type(&name, &JPEG_BYTES),
        Some("image/jpeg".to_string())
    );
}

#[test]
fn detects_png_by_name_and_magic() {
    let detector = built_in_detector();
    let name = Some("image.png".to_string());
    assert_eq!(
        detector.detect_type(&name, &PNG_BYTES),
        Some("image/png".to_string())
    );
}

#[test]
fn detects_png_by_magic_without_extension() {
    let detector = built_in_detector();
    let name = Some("image_png".to_string());
    assert_eq!(
        detector.detect_type(&name, &PNG_BYTES),
        Some("image/png".to_string())
    );
}

#[test]
fn detects_json_by_glob_fallback_on_binary_bytes() {
    let detector = built_in_detector();
    let name = Some("file.json".to_string());
    let junk = [0x00u8, 0x01, 0x02, 0x03];
    assert_eq!(
        detector.detect_type(&name, &junk),
        Some("application/json".to_string())
    );
}

#[test]
fn detects_heic_by_brand_at_offset_four() {
    let detector = built_in_detector();
    let mut buf = vec![0x00u8, 0x00, 0x00, 0x18];
    buf.extend_from_slice(b"ftypheic");
    buf.extend_from_slice(&[0u8; 8]);
    let name = Some("image_heic".to_string());
    assert_eq!(
        detector.detect_type(&name, &buf),
        Some("image/heic".to_string())
    );
}

#[test]
fn empty_buffer_yields_none_from_magic_pass() {
    let detector = built_in_detector();
    assert_eq!(detector.detect_type(&None, &[]), None);
    assert_eq!(detector.run_magic_rules(&[]).len(), 0);
}

#[test]
fn built_in_registry_is_populated_and_sorted() {
    let registry = load_type_registry();
    assert_eq!(registry.rules_registry.len(), 5);
    assert!(registry.magic_rules.len() >= 4);
    for w in registry.magic_rules.windows(2) {
        assert!(w[0].1.priority >= w[1].1.priority);
    }
    assert!(registry.root_types.contains(&"image/png".to_string()));
}

#[test]
fn dotless_name_still_tries_glob_rules() {
    let mut registry = empty_registry();
    registry.rules_registry.push(("text/x-makefile".to_string(), Vec::new()));
    registry.root_types.push("text/x-makefile".to_string());
    registry.glob_rules.push((
        "text/x-makefile".to_string(),
        GlobRule {
            pattern: b"Makefile".to_vec(),
            glob_type: GlobType::StartsWith,
        },
    ));
    let detector = MediaTypeDetector::new(registry, config());
    let name = Some("Makefile".to_string());
    assert_eq!(
        detector.detect_type(&name, &[]),
        Some("text/x-makefile".to_string())
    );
}

#[test]
fn glob_wins_when_both_glob_and_magic_match() {
    let mut registry = empty_registry();
    registry.magic_rules.push(("image/png".to_string(), magic_of(50, &PNG_BYTES[..4])));
    registry.glob_rules.push((
        "application/json".to_string(),
        GlobRule {
            pattern: b".json".to_vec(),
            glob_type: GlobType::EndsWith,
        },
    ));
    let name = Some("picture.json".to_string());
    let mut cfg = config();
    let detector = MediaTypeDetector::new(registry, cfg);
    assert_eq!(
        detector.detect_type(&name, &PNG_BYTES),
        Some("application/json".to_string())
    );
    cfg = config();
    cfg.prioritise_glob = true;
    // with prioritised globs the answer is the same
    let mut registry = empty_registry();
    registry.magic_rules.push(("image/png".to_string(), magic_of(50, &PNG_BYTES[..4])));
    registry.glob_rules.push((
        "application/json".to_string(),
        GlobRule {
            pattern: b".json".to_vec(),
            glob_type: GlobType::EndsWith,
        },
    ));
    let detector = MediaTypeDetector::new(registry, cfg);
    assert_eq!(
        detector.detect_type(&name, &PNG_BYTES),
        Some("application/json".to_string())
    );
}

#[test]
fn disabled_passes_are_skipped() {
    let mut cfg = config();
    cfg.enable_magic = false;
    let detector = MediaTypeDetector::new(load_type_registry(), cfg);
    assert_eq!(detector.detect_type(&None, &PNG_BYTES), None);

    let mut cfg = config();
    cfg.enable_glob = false;
    let detector = MediaTypeDetector::new(load_type_registry(), cfg);
    let name = Some("file.json".to_string());
    let junk = [0x00u8, 0x01, 0x02, 0x03];
    assert_eq!(detector.detect_type(&name, &junk), None);
}

#[test]
fn specific_subtype_wins_over_its_ancestor() {
    // text/plain matches and its descendant application/json matches too:
    // the engine must not answer with the ancestor, whichever rule comes
    // first at equal priority.
    for flip in [false, true] {
        let mut registry = empty_registry();
        registry.rules_registry.push(("text/plain".to_string(), Vec::new()));
        registry.rules_registry.push(("application/json".to_string(), Vec::new()));
        registry.root_types.push("text/plain".to_string());
        registry
            .sub_types
            .push(("text/plain".to_string(), vec!["application/json".to_string()]));
        let plain = ("text/plain".to_string(), magic_of(50, b"{"));
        let json = ("application/json".to_string(), magic_of(50, b"{\""));
        if flip {
            registry.magic_rules.push(json);
            registry.magic_rules.push(plain);
        } else {
            registry.magic_rules.push(plain);
            registry.magic_rules.push(json);
        }
        let detector = MediaTypeDetector::new(registry, config());
        assert_eq!(
            detector.detect_type(&None, b"{\"a\":1}"),
            Some("application/json".to_string())
        );
    }
}

#[test]
fn higher_priority_match_shuts_out_lower_ones() {
    let mut registry = empty_registry();
    registry.magic_rules.push(("image/heic".to_string(), {
        MagicRule {
            priority: 60,
            conditions: vec![Match::Single(single(4, 0, b"ftypheic"))],
        }
    }));
    registry.magic_rules.push(("application/octet-stream".to_string(), magic_of(40, b"\x00")));
    let mut buf = vec![0x00u8, 0x00, 0x00, 0x18];
    buf.extend_from_slice(b"ftypheic");
    let detector = MediaTypeDetector::new(registry, config());
    // both rules match the buffer, but the low-priority one is never reached
    assert_eq!(
        detector.detect_type(&None, &buf),
        Some("image/heic".to_string())
    );
}

#[test]
fn is_sub_type_is_transitive_and_irreflexive() {
    let mut registry = empty_registry();
    registry.rules_registry.push(("a".to_string(), Vec::new()));
    registry.rules_registry.push(("b".to_string(), Vec::new()));
    registry.rules_registry.push(("c".to_string(), Vec::new()));
    registry.sub_types.push(("a".to_string(), vec!["b".to_string()]));
    registry.sub_types.push(("b".to_string(), vec!["c".to_string()]));
    let detector = MediaTypeDetector::new(registry, config());
    assert!(detector.is_sub_type(&"a".to_string(), &"b".to_string()));
    assert!(detector.is_sub_type(&"a".to_string(), &"c".to_string()));
    assert!(!detector.is_sub_type(&"c".to_string(), &"a".to_string()));
    assert!(!detector.is_sub_type(&"a".to_string(), &"a".to_string()));
}

#[test]
fn single_matches_prefix_at_offset_zero() {
    let s = single(0, 0, b"PK");
    assert!(evaluate_match(b"PK\x03\x04", &s));
    assert!(!evaluate_match(b"xPK", &s));
    assert!(!evaluate_match(b"", &s));
}

#[test]
fn single_matches_anywhere_in_its_window() {
    let s = single(2, 3, b"AB");
    assert!(evaluate_match(b"xxABxxxx", &s)); // start 2
    assert!(evaluate_match(b"xxxxxABx", &s)); // start 5
    assert!(!evaluate_match(b"xxxxxxAB", &s)); // start 6 is past the window
    assert!(!evaluate_match(b"ABxxxxxx", &s)); // start 0 is before the window
}

#[test]
fn single_requires_some_child_when_children_exist() {
    let mut parent = single(0, 0, b"RIFF");
    parent.conditions.push(single(8, 0, b"WAVE"));
    parent.conditions.push(single(8, 0, b"AVI "));
    assert!(evaluate_match(b"RIFF\x00\x00\x00\x00WAVEfmt ", &parent));
    assert!(evaluate_match(b"RIFF\x00\x00\x00\x00AVI LIST", &parent));
    assert!(!evaluate_match(b"RIFF\x00\x00\x00\x00JUNKdata", &parent));
}

#[test]
fn multi_matches_on_quorum() {
    let conditions = || vec![single(0, 0, b"a"), single(1, 0, b"b"), single(2, 0, b"c")];
    let two_of_three = MagicRule {
        priority: 50,
        conditions: vec![Match::Multi(Multi {
            min_to_match: 2,
            conditions: conditions(),
        })],
    };
    // "abX": two of the three singles match
    assert!(run_magic(b"abX", &two_of_three));
    // "aXX": only one matches
    assert!(!run_magic(b"aXX", &two_of_three));
    let three_of_three = MagicRule {
        priority: 50,
        conditions: vec![Match::Multi(Multi {
            min_to_match: 3,
            conditions: conditions(),
        })],
    };
    assert!(!run_magic(b"abX", &three_of_three));
    assert!(run_magic(b"abc", &three_of_three));
}

#[test]
fn magic_rule_is_a_disjunction() {
    let rule = MagicRule {
        priority: 50,
        conditions: vec![
            Match::Single(single(0, 0, b"GIF87a")),
            Match::Single(single(0, 0, b"GIF89a")),
        ],
    };
    assert!(run_magic(b"GIF87a...", &rule));
    assert!(run_magic(b"GIF89a...", &rule));
    assert!(!run_magic(b"GIF00a...", &rule));
}

#[test]
fn glob_kinds_match_as_documented() {
    let starts = GlobRule { pattern: b"READ".to_vec(), glob_type: GlobType::StartsWith };
    assert!(run_glob("README", &starts));
    assert!(!run_glob("xREADME", &starts));

    let ends = GlobRule { pattern: b".png".to_vec(), glob_type: GlobType::EndsWith };
    assert!(run_glob("a.png", &ends));
    assert!(!run_glob("a.png.bak", &ends));

    let contains = GlobRule { pattern: b"rc".to_vec(), glob_type: GlobType::Contains };
    assert!(run_glob(".bashrc.old", &contains));
    assert!(!run_glob("profile", &contains));

    let regex = GlobRule { pattern: b"foo[0-9]+".to_vec(), glob_type: GlobType::Regex };
    assert!(run_glob("xxfoo12yy", &regex));
    assert!(!run_glob("fooX", &regex));

    let empty = GlobRule { pattern: Vec::new(), glob_type: GlobType::Contains };
    assert!(!run_glob("anything", &empty));
}

#[test]
fn add_child_condition_accepts_singles_only() {
    let mut parent = Match::Single(single(0, 0, b"AA"));
    assert!(parent.add_child_condition(Match::Single(single(2, 0, b"BB"))).is_ok());
    if let Match::Single(s) = &parent {
        assert_eq!(s.conditions.len(), 1);
    } else {
        panic!("parent changed variant");
    }
    let multi_child = Match::Multi(Multi { min_to_match: 1, conditions: Vec::new() });
    assert_eq!(parent.add_child_condition(multi_child), Err(CompileError::Schema));

    let mut multi_parent = Match::Multi(Multi { min_to_match: 1, conditions: Vec::new() });
    assert!(multi_parent.add_child_condition(Match::Single(single(0, 0, b"CC"))).is_ok());
    if let Match::Multi(m) = &multi_parent {
        assert_eq!(m.conditions.len(), 1);
    } else {
        panic!("parent changed variant");
    }
}

#[test]
fn offset_attribute_parses_as_a_window() {
    assert_eq!(Offset::from_attr(None), Ok(Offset { from: 0, count: 0 }));
    assert_eq!(
        Offset::from_attr(Some("4".to_string())),
        Ok(Offset { from: 4, count: 0 })
    );
    assert_eq!(
        Offset::from_attr(Some("256:4096".to_string())),
        Ok(Offset { from: 256, count: 3840 })
    );
    assert_eq!(
        Offset::from_attr(Some("5:3".to_string())),
        Err(CompileError::Schema)
    );
    assert_eq!(
        Offset::from_attr(Some("x".to_string())),
        Err(CompileError::Schema)
    );
    assert_eq!(
        Offset::from_attr(Some("".to_string())),
        Err(CompileError::Schema)
    );
    assert_eq!(
        Offset::from_attr(Some("4294967296".to_string())),
        Err(CompileError::Schema)
    );
}

#[test]
fn a_repeated_mime_type_replaces_its_earlier_rules() {
    let xml = r#"<mime-info>
      <mime-type type="a/b"><glob pattern="*.one"/></mime-type>
      <mime-type type="a/b"><glob pattern="*.two"/></mime-type>
    </mime-info>"#;
    let registry = compile_from_xml(xml.as_bytes()).expect("registry should compile");
    assert_eq!(registry.rules_registry.len(), 1);
    assert_eq!(registry.rules_registry[0].1.len(), 1);
    assert_eq!(registry.glob_rules.len(), 1);
    assert_eq!(registry.glob_rules[0].1.pattern, b".two".to_vec());
}

#[test]
fn escaped_match_values_compile_and_match() {
    let xml = r#"<mime-info>
      <mime-type type="application/x-esc">
        <magic priority="50"><match value="\xCA\xFEz" offset="0"/></magic>
      </mime-type>
    </mime-info>"#;
    let registry = compile_from_xml(xml.as_bytes()).expect("registry should compile");
    let detector = MediaTypeDetector::new(registry, config());
    assert_eq!(
        detector.detect_type(&None, &[0xCA, 0xFE, 0x7A, 0x00]),
        Some("application/x-esc".to_string())
    );
    assert_eq!(detector.detect_type(&None, &[0xCA, 0xFE, 0x00, 0x00]), None);
}

#[test]
fn match_values_decode_from_hex_and_escapes() {
    assert_eq!(decode_value("0xCAFEBABE"), Ok(vec![0xCA, 0xFE, 0xBA, 0xBE]));
    assert_eq!(decode_value("GIF8"), Ok(b"GIF8".to_vec()));
    assert_eq!(decode_value("\\\\"), Ok(vec![0x5C]));
    assert_eq!(decode_value("\\x41B"), Ok(vec![0x41, 0x42]));
    // an unknown escape drops the backslash and keeps the follower
    assert_eq!(decode_value("a\\nb"), Ok(b"anb".to_vec()));
    assert_eq!(decode_value("0xABC"), Err(CompileError::Decode));
    assert_eq!(decode_value("0xZZ"), Err(CompileError::Decode));
    assert_eq!(decode_value("tail\\"), Err(CompileError::Decode));
    assert_eq!(decode_value("\\xG1"), Err(CompileError::Decode));
}

const SAMPLE_XML: &str = r#"<?xml version="1.0" encoding="UTF-8"?>
<mime-info>
  <mime-type type="image/png">
    <glob pattern="*.png"/>
    <magic priority="50">
      <match value="0x89504e470d0a1a0a" offset="0"/>
    </magic>
  </mime-type>
  <mime-type type="image/heic">
    <magic priority="60">
      <match value="ftypheic" offset="4"/>
    </magic>
  </mime-type>
  <mime-type type="application/json">
    <sub-class-of type="text/plain"/>
    <glob pattern="*.json"/>
  </mime-type>
  <mime-type type="text/plain">
    <glob pattern="*.txt"/>
  </mime-type>
</mime-info>
"#;

#[test]
fn compiles_a_registry_from_xml() {
    let registry = compile_from_xml(SAMPLE_XML.as_bytes()).expect("registry should compile");
    assert_eq!(registry.rules_registry.len(), 4);
    assert_eq!(registry.root_types.len(), 3);
    assert_eq!(registry.sub_types.len(), 1);
    assert_eq!(registry.sub_types[0].0, "text/plain");
    assert_eq!(registry.sub_types[0].1, vec!["application/json".to_string()]);
    // sorted by descending priority: the heic rule comes first
    assert_eq!(registry.magic_rules[0].0, "image/heic");
    assert_eq!(registry.magic_rules[0].1.priority, 60);
    assert_eq!(registry.magic_rules[1].0, "image/png");
    assert_eq!(registry.glob_rules.len(), 3);
    assert_eq!(registry.glob_rules[0].1.pattern, b".png".to_vec());

    let detector = MediaTypeDetector::new(registry, config());
    assert_eq!(
        detector.detect_type(&None, &PNG_BYTES),
        Some("image/png".to_string())
    );
    let name = Some("notes.txt".to_string());
    assert_eq!(
        detector.detect_type(&name, b"hello"),
        Some("text/plain".to_string())
    );
}

#[test]
fn compiles_nested_matches_as_child_conditions() {
    let xml = r#"<mime-info>
      <mime-type type="audio/x-wav">
        <magic priority="50">
          <match value="RIFF" offset="0">
            <match value="WAVE" offset="8"/>
          </match>
        </magic>
      </mime-type>
    </mime-info>"#;
    let registry = compile_from_xml(xml.as_bytes()).expect("registry should compile");
    let detector = MediaTypeDetector::new(registry, config());
    assert_eq!(
        detector.detect_type(&None, b"RIFF\x00\x00\x00\x00WAVEfmt "),
        Some("audio/x-wav".to_string())
    );
    assert_eq!(detector.detect_type(&None, b"RIFF\x00\x00\x00\x00JUNKdata"), None);
}

#[test]
fn compiles_quorum_matches() {
    let xml = r#"<mime-info>
      <mime-type type="text/x-diff">
        <magic priority="50">
          <match minShouldMatch="2">
            <match value="aa" offset="0"/>
            <match value="bb" offset="2"/>
            <match value="cc" offset="4"/>
          </match>
        </magic>
      </mime-type>
    </mime-info>"#;
    let registry = compile_from_xml(xml.as_bytes()).expect("registry should compile");
    let detector = MediaTypeDetector::new(registry, config());
    assert_eq!(
        detector.detect_type(&None, b"aabbXX"),
        Some("text/x-diff".to_string())
    );
    assert_eq!(detector.detect_type(&None, b"aaXXXX"), None);
}

#[test]
fn malformed_xml_is_an_xml_error() {
    assert_eq!(
        compile_from_xml(b"<mime-info><mime-type").unwrap_err(),
        CompileError::Xml
    );
}

#[test]
fn missing_required_attributes_are_schema_errors() {
    let xml = r#"<mime-info><mime-type type="a/b"><glob/></mime-type></mime-info>"#;
    assert_eq!(compile_from_xml(xml.as_bytes()).unwrap_err(), CompileError::Schema);
    let xml = r#"<mime-info><mime-type type="a/b"><magic><match offset="0"/></magic></mime-type></mime-info>"#;
    assert_eq!(compile_from_xml(xml.as_bytes()).unwrap_err(), CompileError::Schema);
}

#[test]
fn bad_match_values_are_decode_errors() {
    let xml = r#"<mime-info><mime-type type="a/b"><magic><match value="0xABC" offset="0"/></magic></mime-type></mime-info>"#;
    assert_eq!(compile_from_xml(xml.as_bytes()).unwrap_err(), CompileError::Decode);
}

#[test]
fn zero_quorum_is_a_schema_error() {
    let xml = r#"<mime-info><mime-type type="a/b"><magic><match minShouldMatch="0"/></magic></mime-type></mime-info>"#;
    assert_eq!(compile_from_xml(xml.as_bytes()).unwrap_err(), CompileError::Schema);
}

#[test]
fn cyclic_hierarchies_are_rejected() {
    let xml = r#"<mime-info>
      <mime-type type="a/a"><sub-class-of type="b/b"/></mime-type>
      <mime-type type="b/b"><sub-class-of type="a/a"/></mime-type>
    </mime-info>"#;
    assert_eq!(compile_from_xml(xml.as_bytes()).unwrap_err(), CompileError::Schema);
}

#[test]
fn overdeep_match_nesting_is_rejected() {
    let mut xml = String::from(r#"<mime-info><mime-type type="a/b"><magic>"#);
    for _ in 0..65 {
        xml.push_str(r#"<match value="x" offset="0">"#);
    }
    for _ in 0..65 {
        xml.push_str("</match>");
    }
    xml.push_str("</magic></mime-type></mime-info>");
    assert_eq!(compile_from_xml(xml.as_bytes()).unwrap_err(), CompileError::Schema);
}
