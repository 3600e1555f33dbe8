use jj_hunk::diff::{apply_selected_hunks, get_hunks, HunkSelection};
use jj_hunk::ident::{normalize_hunk_id, HUNK_ID_PREFIX};

#[test]
fn hunk_id_is_sha256_hex_and_stable() {
    let before = "one\nTwo\nthree\n";
    let after = "one\nTWO\nthree\n";

    let hunks_first = get_hunks(before, after);
    let hunks_second = get_hunks(before, after);

    assert_eq!(hunks_first.len(), 1);
    assert_eq!(hunks_second.len(), 1);

    let id_first = &hunks_first[0].id;
    let id_second = &hunks_second[0].id;

    assert_eq!(id_first, id_second);
    assert!(id_first.starts_with(HUNK_ID_PREFIX));

    let hex = id_first.strip_prefix(HUNK_ID_PREFIX).unwrap();
    assert_eq!(hex.len(), 64);
    assert!(hex.chars().all(|c| c.is_ascii_hexdigit()));
}

#[test]
fn hunk_id_changes_with_content() {
    let before = "alpha\nbravo\n";
    let after_one = "alpha\nbravo!\n";
    let after_two = "alpha\nbravo?\n";

    let id_one = get_hunks(before, after_one)[0].id.clone();
    let id_two = get_hunks(before, after_two)[0].id.clone();

    assert_ne!(id_one, id_two);
}

#[test]
fn apply_selected_hunks_matches_by_id() {
    let before = "a\nb\nc\n";
    let after = "a\nb2\nc\n";

    let hunks = get_hunks(before, after);
    let mut selection = HunkSelection::default();
    selection.ids.push(hunks[0].id.clone());

    let selected_result = apply_selected_hunks(before, after, &selection);
    assert_eq!(selected_result, after);

    let empty_result = apply_selected_hunks(before, after, &HunkSelection::default());
    assert_eq!(empty_result, before);
}

#[test]
fn normalize_hunk_id_accepts_prefixes() {
    let before = "foo\nbar\n";
    let after = "foo\nBAR\n";
    let id = get_hunks(before, after)[0].id.clone();
    let hex = id.strip_prefix(HUNK_ID_PREFIX).unwrap();
    let expected = format!("{HUNK_ID_PREFIX}{hex}");

    assert_eq!(normalize_hunk_id(&format!("id:{hex}")).as_deref(), Some(expected.as_str()));
    assert_eq!(normalize_hunk_id(&format!("sha:{hex}")).as_deref(), Some(expected.as_str()));
    assert_eq!(normalize_hunk_id(&format!("sha256:{hex}")).as_deref(), Some(expected.as_str()));
    assert_eq!(normalize_hunk_id(hex).as_deref(), Some(expected.as_str()));
}

#[test]
fn single_replace_hunk_has_expected_shape() {
    let before = "a\nb\nc\n";
    let after = "a\nb2\nc\n";

    let hunks = get_hunks(before, after);
    assert_eq!(hunks.len(), 1);
    let h = &hunks[0];
    assert_eq!(h.index, 0);
    assert_eq!(h.hunk_type, "replace");
    assert_eq!(h.removed, "b\n");
    assert_eq!(h.added, "b2\n");
    assert_eq!(h.before_range.start, 2);
    assert_eq!(h.before_range.length, 1);
    assert_eq!(h.after_range.start, 2);
    assert_eq!(h.after_range.length, 1);

    let mut selection = HunkSelection::default();
    selection.ids.push(h.id.clone());
    assert_eq!(apply_selected_hunks(before, after, &selection), after);
    assert_eq!(apply_selected_hunks(before, after, &HunkSelection::default()), before);
}

#[test]
fn whole_file_insert_hunk() {
    let before = "";
    let after = "x\n";

    let hunks = get_hunks(before, after);
    assert_eq!(hunks.len(), 1);
    let h = &hunks[0];
    assert_eq!(h.hunk_type, "insert");
    assert_eq!(h.before_range.length, 0);
    assert_eq!(h.removed, "");
    assert_eq!(h.added, "x\n");
}

#[test]
fn whole_file_delete_hunk() {
    let before = "x\n";
    let after = "";

    let hunks = get_hunks(before, after);
    assert_eq!(hunks.len(), 1);
    let h = &hunks[0];
    assert_eq!(h.hunk_type, "delete");
    assert_eq!(h.after_range.length, 0);
    assert_eq!(h.removed, "x\n");
    assert_eq!(h.added, "");
}

#[test]
fn equal_texts_have_no_hunks_and_reconstruct_unchanged() {
    let text = "same\nlines\n";
    assert!(get_hunks(text, text).is_empty());
    assert_eq!(apply_selected_hunks(text, text, &HunkSelection::default()), text);
}

#[test]
fn selection_by_index_applies_one_of_two_hunks() {
    let before = "a\nb\nc\nd\ne\nf\ng\nh\ni\nj\nk\n";
    let after = "a\nB\nc\nd\ne\nf\ng\nh\ni\nJ\nk\n";

    let hunks = get_hunks(before, after);
    assert_eq!(hunks.len(), 2);
    assert_eq!(hunks[0].index, 0);
    assert_eq!(hunks[1].index, 1);
    assert!(hunks[0].before_range.start + hunks[0].before_range.length <= hunks[1].before_range.start);

    let mut selection = HunkSelection::default();
    selection.indices.push(0);
    let result = apply_selected_hunks(before, after, &selection);
    assert_eq!(result, "a\nB\nc\nd\ne\nf\ng\nh\ni\nj\nk\n");

    let mut selection2 = HunkSelection::default();
    selection2.indices.push(1);
    let result2 = apply_selected_hunks(before, after, &selection2);
    assert_eq!(result2, "a\nb\nc\nd\ne\nf\ng\nh\ni\nJ\nk\n");
}

#[test]
fn ids_stable_when_other_hunk_changes() {
    // Two far-apart hunks: editing the second must not move the first's id.
    let before = "a\nb\nc\nd\ne\nf\ng\nh\ni\nj\nk\n";
    let after_one = "a\nB\nc\nd\ne\nf\ng\nh\ni\nJ\nk\n";
    let after_two = "a\nB\nc\nd\ne\nf\ng\nh\ni\nJJ\nk\n";

    let first = get_hunks(before, after_one);
    let second = get_hunks(before, after_two);
    assert_eq!(first.len(), 2);
    assert_eq!(second.len(), 2);
    assert_eq!(first[0].id, second[0].id);
    assert_ne!(first[1].id, second[1].id);
}

#[test]
fn context_changes_the_id() {
    // The same replacement under different surrounding lines hashes
    // differently, because the context is part of the identity.
    let one = get_hunks("x\nb\ny\n", "x\nB\ny\n");
    let two = get_hunks("p\nb\nq\n", "p\nB\nq\n");
    assert_eq!(one.len(), 1);
    assert_eq!(two.len(), 1);
    assert_ne!(one[0].id, two[0].id);
}

#[test]
fn selection_is_empty_and_matches() {
    let mut selection = HunkSelection::default();
    assert!(selection.is_empty());
    assert!(!selection.matches(0, "hunk-00"));

    selection.indices.push(3);
    selection.ids.push(String::from("hunk-ab"));
    assert!(!selection.is_empty());
    assert!(selection.matches(3, "something-else"));
    assert!(selection.matches(7, "hunk-ab"));
    assert!(!selection.matches(7, "hunk-cd"));
}

#[test]
fn trailing_partial_line_round_trips() {
    let before = "a\nb";
    let after = "a\nc";
    let hunks = get_hunks(before, after);
    assert_eq!(hunks.len(), 1);
    assert_eq!(hunks[0].removed, "b");
    assert_eq!(hunks[0].added, "c");

    let mut selection = HunkSelection::default();
    selection.ids.push(hunks[0].id.clone());
    assert_eq!(apply_selected_hunks(before, after, &selection), after);
    assert_eq!(apply_selected_hunks(before, after, &HunkSelection::default()), before);
}

#[test]
fn crlf_content_round_trips() {
    let before = "a\r\nb\r\nc\r\n";
    let after = "a\r\nB\r\nc\r\n";
    let hunks = get_hunks(before, after);
    assert_eq!(hunks.len(), 1);
    assert_eq!(hunks[0].removed, "b\r\n");
    assert_eq!(hunks[0].added, "B\r\n");

    let mut selection = HunkSelection::default();
    selection.ids.push(hunks[0].id.clone());
    assert_eq!(apply_selected_hunks(before, after, &selection), after);
    assert_eq!(apply_selected_hunks(before, after, &HunkSelection::default()), before);
}

#[test]
fn non_ascii_content_round_trips() {
    let before = "héllo\nwörld\n";
    let after = "héllo\nwørld\n";
    let hunks = get_hunks(before, after);
    assert_eq!(hunks.len(), 1);
    assert_eq!(hunks[0].removed, "wörld\n");
    assert_eq!(hunks[0].added, "wørld\n");

    let mut selection = HunkSelection::default();
    selection.indices.push(0);
    assert_eq!(apply_selected_hunks(before, after, &selection), after);
    assert_eq!(apply_selected_hunks(before, after, &HunkSelection::default()), before);
}
