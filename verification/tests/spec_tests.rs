use jj_hunk::commands::{spec_decision, SpecDecision};
use jj_hunk::filespec::{
    parse_index, parse_selector, Action, DefaultAction, FileSpec, HunkSelector, HunkSpec, Spec,
};
use jj_hunk::ident::normalize_hunk_id;

fn hex64(c: char) -> String {
    std::iter::repeat(c).take(64).collect()
}

#[test]
fn spec_merges_hunk_ids_and_indices() {
    let id_inline = format!("hunk-{}", hex64('a'));
    let id_from_ids = format!("hunk-{}", hex64('b'));

    let hunk_spec = HunkSpec {
        hunks: vec![
            HunkSelector::Index(0),
            parse_selector(&id_inline).expect("inline id should parse"),
        ],
        ids: vec![
            normalize_hunk_id(&format!("sha256:{}", hex64('b'))).expect("id should normalize"),
        ],
    };

    let selection = hunk_spec.to_selection();
    assert!(selection.indices.contains(&0));
    assert!(selection.ids.contains(&id_inline));
    assert!(selection.ids.contains(&id_from_ids));
}

#[test]
fn hunk_selector_string_index_parses() {
    let parsed = parse_selector("1").expect("numeric selector should parse");
    assert!(matches!(parsed, HunkSelector::Index(1)));

    let spaced = parse_selector(" 12 ").expect("padded numeric selector should parse");
    assert!(matches!(spaced, HunkSelector::Index(12)));

    let plus = parse_selector("+3").expect("signed numeric selector should parse");
    assert!(matches!(plus, HunkSelector::Index(3)));
}

#[test]
fn invalid_selectors_are_rejected() {
    assert!(parse_selector("").is_none());
    assert!(parse_selector("   ").is_none());
    assert!(parse_selector("not hex").is_none());
    assert!(parse_selector("hunk-").is_none());
    assert!(parse_selector("hunk-xyz").is_none());
    assert!(parse_selector("-1").is_none());
}

#[test]
fn parse_index_bounds() {
    assert_eq!(parse_index("0"), Some(0));
    assert_eq!(parse_index("18446744073709551615"), Some(usize::MAX));
    assert_eq!(parse_index("18446744073709551616"), None);
    assert_eq!(parse_index("+7"), Some(7));
    assert_eq!(parse_index("+"), None);
    assert_eq!(parse_index(""), None);
    assert_eq!(parse_index("1.5"), None);
}

#[test]
fn normalize_rejects_invalid_ids() {
    assert_eq!(normalize_hunk_id(""), None);
    assert_eq!(normalize_hunk_id("   "), None);
    assert_eq!(normalize_hunk_id("hunk-"), None);
    assert_eq!(normalize_hunk_id("id:"), None);
    assert_eq!(normalize_hunk_id("zz"), None);
    assert_eq!(normalize_hunk_id("sha256:ab cd"), None);
}

#[test]
fn normalize_lowercases_and_is_idempotent() {
    // Recognized prefixes are case-sensitive, and `S` is not a hex digit.
    assert_eq!(normalize_hunk_id("  SHA256:ABCDEF0123  "), None);

    let raw2 = "sha256:ABCDEF0123";
    let once = normalize_hunk_id(raw2).expect("should normalize");
    assert_eq!(once, "hunk-abcdef0123");
    let twice = normalize_hunk_id(&once).expect("canonical id should normalize");
    assert_eq!(twice, once);
}

#[test]
fn spec_decision_follows_actions_and_default() {
    let spec = Spec {
        files: vec![
            (String::from("keep.txt"), FileSpec::Action { action: Action::Keep }),
            (String::from("drop.txt"), FileSpec::Action { action: Action::Reset }),
            (
                String::from("pick.txt"),
                FileSpec::Selection(HunkSpec { hunks: vec![HunkSelector::Index(1)], ids: vec![] }),
            ),
            (
                String::from("none.txt"),
                FileSpec::Selection(HunkSpec { hunks: vec![], ids: vec![] }),
            ),
        ],
        default: DefaultAction::Reset,
    };

    assert!(matches!(spec_decision(Some(&spec), "keep.txt"), SpecDecision::KeepAll));
    assert!(matches!(spec_decision(Some(&spec), "drop.txt"), SpecDecision::Skip));
    match spec_decision(Some(&spec), "pick.txt") {
        SpecDecision::KeepSelection(sel) => {
            assert!(sel.indices.contains(&1));
            assert!(sel.ids.is_empty());
        },
        other => panic!("expected a selection decision, got {:?}", other),
    }
    // An empty selection skips the file outright.
    assert!(matches!(spec_decision(Some(&spec), "none.txt"), SpecDecision::Skip));
    // Unlisted paths follow the default.
    assert!(matches!(spec_decision(Some(&spec), "other.txt"), SpecDecision::Skip));
    // No spec keeps everything.
    assert!(matches!(spec_decision(None, "other.txt"), SpecDecision::KeepAll));

    let keep_default = Spec { files: vec![], default: DefaultAction::Keep };
    assert!(matches!(spec_decision(Some(&keep_default), "any.txt"), SpecDecision::KeepAll));
}

#[test]
fn default_action_is_reset() {
    assert_eq!(DefaultAction::default(), DefaultAction::Reset);
}
