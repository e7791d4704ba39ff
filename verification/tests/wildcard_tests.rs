use relay_gateway::wildcard::{
    is_supported_tool_pattern, wildcard_match, wildcard_patterns_overlap, wildcard_rank,
};

#[test]
fn wildcard_matching_and_overlap_cover_edge_cases() {
    for (pattern, name, expected) in [
        ("*", "", true),
        ("docs_*", "docs_lookup", true),
        ("docs_*", "doc_lookup", false),
        ("*_price", "stock_price", true),
        ("*stock*", "get_stock_price", true),
        ("get_*_price", "get_stock_price", false),
        ("Docs_*", "docs_lookup", false),
    ] {
        assert_eq!(
            wildcard_match(pattern, name),
            expected,
            "{pattern:?}, {name:?}"
        );
    }
    assert!(wildcard_patterns_overlap("*_email", "send_*"));
    assert!(!wildcard_patterns_overlap("docs_*", "send_*"));
    assert!(wildcard_patterns_overlap("é*", "*é"));
    assert_eq!(wildcard_rank("*é*").0, 1);
    for pattern in ["docs_lookup", "docs_*", "*_lookup", "*docs*", "*"] {
        assert!(is_supported_tool_pattern(pattern), "{pattern:?}");
    }
    for pattern in ["**", "docs_*_lookup", "docs**", "*docs**"] {
        assert!(!is_supported_tool_pattern(pattern), "{pattern:?}");
    }
}

#[test]
fn wildcard_match_table() {
    let cases = [
        ("*", "", true),
        ("*", "anything", true),
        ("docs_*", "docs_lookup", true),
        ("docs_*", "docs_", true),
        ("docs_*", "doc_lookup", false),
        ("*_price", "stock_price", true),
        ("*_price", "price", false),
        ("*stock*", "get_stock_price", true),
        ("*stock*", "get_price", false),
        ("get_*_price", "get_stock_price", false),
        ("a*a", "aba", false),
        ("Docs_*", "docs_lookup", false), // case-sensitive
        ("abc*", "abc*", true),           // no escaping: '*' matches itself via the span
    ];
    for (pattern, name, expected) in cases {
        assert_eq!(
            wildcard_match(pattern, name),
            expected,
            "wildcard_match({pattern:?}, {name:?})"
        );
    }
}

#[test]
fn wildcard_overlap_table() {
    let cases = [
        ("*_email", "send_*", true),
        ("delete_*", "*_record", true),
        ("docs_*", "send_*", false),
        ("*docs*", "send_*", true),
        ("é*", "*é", true),
        ("foo*", "bar*", false),
        ("*foo", "*bar", false),
        ("a*b*c", "a*c", false),
    ];
    for (left, right, expected) in cases {
        assert_eq!(
            wildcard_patterns_overlap(left, right),
            expected,
            "wildcard_patterns_overlap({left:?}, {right:?})"
        );
    }
}

#[test]
fn wildcard_rank_counts_unicode_characters_not_utf8_bytes() {
    assert_eq!(wildcard_rank("*é*").0, 1);
    assert_eq!(wildcard_rank("*éé*").0, 2);
    assert_eq!(wildcard_rank("*💡*").0, 1);
}

#[test]
fn wildcard_matching_handles_literals_and_missing_middle_segments() {
    assert!(wildcard_match("docs_lookup", "docs_lookup"));
    assert!(!wildcard_match("docs_lookup", "docs_search"));
    assert!(!wildcard_match("a*b*c", "axc"));
}

#[test]
fn overlap_is_symmetric_and_witnessed_by_a_common_name() {
    let cases = [
        ("docs_*", "docs_read*", Some("docs_read")),
        ("docs_*", "web_*", None),
        ("*_read", "*read", Some("x_read")),
        ("*_read", "*_write", None),
        ("docs_*", "*_read", Some("docs_read")),
        ("*lookup*", "web_*", Some("web_lookup")),
        ("*", "*_write", Some("a_write")),
    ];
    for (left, right, witness) in cases {
        let overlap = wildcard_patterns_overlap(left, right);
        assert_eq!(overlap, wildcard_patterns_overlap(right, left), "{left} / {right}");
        assert_eq!(overlap, witness.is_some(), "{left} / {right}");
        if let Some(name) = witness {
            assert!(wildcard_match(left, name) && wildcard_match(right, name), "{name}");
        }
    }
}

#[test]
fn each_pattern_form_matches_as_documented() {
    assert!(wildcard_match("*ook*", "lookup"));
    assert!(!wildcard_match("*ook*", "LOOKUP"));
    assert!(wildcard_match("*up", "lookup"));
    assert!(!wildcard_match("*up", "upload"));
    assert!(wildcard_match("look*", "lookup"));
    assert!(!wildcard_match("look*", "outlook"));
    assert!(wildcard_match("lookup", "lookup"));
    assert!(!wildcard_match("lookup", "lookup2"));
    assert!(wildcard_match("*", ""));
    assert!(!wildcard_match("a*b", "ab"));
    assert!(wildcard_match("*a*", "x*a*y"));
}
