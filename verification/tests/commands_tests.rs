use jj_hunk::commands::{
    commit, directory_group, entry_paths, extension_group, file_paths_for_entry, filter_hunks,
    is_binary_data, primary_path, rename_info, should_list_entry, split, squash, status_char,
    truncate_text, BinaryMode, DiffSummaryEntry, ListFormat, ListGrouping, ListMode, ListOptions,
};
use jj_hunk::commands::{build_spec_template, build_summary_output, group_files, SpecTemplateEntry};
use jj_hunk::diff::{get_hunks, HunkSelection};
use jj_hunk::ident::hex_encode;
use jj_hunk::lines::{count_lines, split_lines_with_endings};

fn entry(status: &str, path: &str, source: &str, target: &str) -> DiffSummaryEntry {
    DiffSummaryEntry {
        status: String::from(status),
        path: String::from(path),
        source: String::from(source),
        target: String::from(target),
    }
}

#[test]
fn line_segmentation_keeps_endings() {
    assert_eq!(split_lines_with_endings(""), Vec::<String>::new());
    assert_eq!(split_lines_with_endings("a\nb\n"), vec!["a\n", "b\n"]);
    assert_eq!(split_lines_with_endings("a\nb"), vec!["a\n", "b"]);
    assert_eq!(split_lines_with_endings("\n\n"), vec!["\n", "\n"]);
}

#[test]
fn count_lines_counts_partial_tail() {
    assert_eq!(count_lines(""), 0);
    assert_eq!(count_lines("a\n"), 1);
    assert_eq!(count_lines("a\nb"), 2);
    assert_eq!(count_lines("\n"), 1);
}

#[test]
fn hex_encode_is_lowercase_pairs() {
    assert_eq!(hex_encode(&[]), "");
    assert_eq!(hex_encode(&[0x00, 0x0f, 0xa5, 0xff]), "000fa5ff");
}

#[test]
fn binary_detection() {
    assert!(!is_binary_data(b""));
    assert!(!is_binary_data(b"plain text\n"));
    assert!(is_binary_data(b"a\0b"));
    assert!(is_binary_data(&[0xff, 0xfe, 0x00]));
    assert!(is_binary_data(&[0xc3, 0x28]));
}

#[test]
fn truncate_text_limits_lines_and_bytes() {
    assert_eq!(truncate_text("a\nb\nc\n", None, None), (String::from("a\nb\nc\n"), false));
    assert_eq!(truncate_text("a\nb\nc\n", None, Some(2)), (String::from("a\nb\n"), true));
    assert_eq!(truncate_text("a\nb\n", None, Some(5)), (String::from("a\nb\n"), false));
    assert_eq!(truncate_text("abc\n", None, Some(0)), (String::from(""), true));
    assert_eq!(truncate_text("", None, Some(0)), (String::from(""), false));
    assert_eq!(truncate_text("abcdef", Some(4), None), (String::from("abcd"), true));
    assert_eq!(truncate_text("abc", Some(4), None), (String::from("abc"), false));
    // The byte cut lands on a character boundary.
    assert_eq!(truncate_text("aé", Some(2), None), (String::from("a"), true));
    assert_eq!(truncate_text("a\nb\nc\n", Some(3), Some(2)), (String::from("a\nb"), true));
}

#[test]
fn primary_path_prefers_path_then_target() {
    assert_eq!(primary_path(&entry("modified", "a.txt", "", "")), "a.txt");
    assert_eq!(primary_path(&entry("renamed", "", "old.txt", "new.txt")), "new.txt");
    assert_eq!(primary_path(&entry("removed", "", "old.txt", "")), "old.txt");
}

#[test]
fn rename_info_only_for_renames_and_copies() {
    assert!(rename_info(&entry("modified", "a.txt", "", "")).is_none());
    assert!(rename_info(&entry("renamed", "a.txt", "", "b.txt")).is_none());
    let info = rename_info(&entry("renamed", "a.txt", "old.txt", "new.txt")).unwrap();
    assert_eq!(info.from, "old.txt");
    assert_eq!(info.to, "new.txt");
    let copied = rename_info(&entry("copied", "c.txt", "src.txt", "")).unwrap();
    assert_eq!(copied.from, "src.txt");
    assert_eq!(copied.to, "c.txt");
}

#[test]
fn file_paths_by_status() {
    let added = file_paths_for_entry(&entry("added", "a.txt", "", ""), "a.txt");
    assert_eq!(added.before, None);
    assert_eq!(added.after.as_deref(), Some("a.txt"));

    let removed = file_paths_for_entry(&entry("removed", "a.txt", "", ""), "a.txt");
    assert_eq!(removed.before.as_deref(), Some("a.txt"));
    assert_eq!(removed.after, None);

    let renamed = file_paths_for_entry(&entry("renamed", "n.txt", "o.txt", "n.txt"), "n.txt");
    assert_eq!(renamed.before.as_deref(), Some("o.txt"));
    assert_eq!(renamed.after.as_deref(), Some("n.txt"));

    let modified = file_paths_for_entry(&entry("modified", "m.txt", "", ""), "m.txt");
    assert_eq!(modified.before.as_deref(), Some("m.txt"));
    assert_eq!(modified.after.as_deref(), Some("m.txt"));
}

#[test]
fn entry_paths_are_distinct() {
    let paths = entry_paths(&entry("renamed", "n.txt", "o.txt", "n.txt"));
    assert_eq!(paths, vec![String::from("n.txt"), String::from("o.txt")]);
    let paths2 = entry_paths(&entry("modified", "m.txt", "", ""));
    assert_eq!(paths2, vec![String::from("m.txt")]);
}

#[test]
fn pattern_lists_gate_entries() {
    let e = entry("modified", "src/lib.rs", "", "");
    let none: Vec<String> = vec![];
    let rust = vec![String::from("**/*.rs")];
    let docs = vec![String::from("docs/**")];

    assert!(should_list_entry(&e, &none, &none));
    assert!(should_list_entry(&e, &rust, &none));
    assert!(!should_list_entry(&e, &docs, &none));
    assert!(!should_list_entry(&e, &none, &rust));
    assert!(should_list_entry(&e, &rust, &docs));
}

#[test]
fn filter_hunks_keeps_selected_in_order() {
    let before = "a\nb\nc\nd\ne\nf\ng\nh\ni\nj\nk\n";
    let after = "a\nB\nc\nd\ne\nf\ng\nh\ni\nJ\nk\n";
    let hunks = get_hunks(before, after);
    assert_eq!(hunks.len(), 2);
    let second_id = hunks[1].id.clone();

    let mut selection = HunkSelection::default();
    selection.ids.push(second_id.clone());
    let kept = filter_hunks(hunks, &selection);
    assert_eq!(kept.len(), 1);
    assert_eq!(kept[0].id, second_id);

    let nothing = filter_hunks(get_hunks(before, after), &HunkSelection::default());
    assert!(nothing.is_empty());
}

#[test]
fn grouping_keys() {
    assert_eq!(directory_group("src/a/b.rs"), "src/a");
    assert_eq!(directory_group("b.rs"), ".");
    assert_eq!(directory_group("/b.rs"), ".");
    assert_eq!(extension_group("src/a/b.rs"), "rs");
    assert_eq!(extension_group("a.tar.gz"), "gz");
    assert_eq!(extension_group("Makefile"), "<no-ext>");
    assert_eq!(extension_group(".gitignore"), "<no-ext>");
    assert_eq!(status_char("modified"), "M");
    assert_eq!(status_char("added"), "A");
    assert_eq!(status_char("removed"), "D");
    assert_eq!(status_char("renamed"), "R");
    assert_eq!(status_char("copied"), "C");
    assert_eq!(status_char("weird"), "?");
}

#[test]
fn command_argument_lists() {
    assert_eq!(split("msg", None), vec!["split", "--tool=jj-hunk", "-m", "msg"]);
    assert_eq!(split("msg", Some("@-")), vec!["split", "--tool=jj-hunk", "-m", "msg", "-r", "@-"]);
    assert_eq!(commit("msg"), vec!["commit", "-i", "--tool=jj-hunk", "-m", "msg"]);
    assert_eq!(squash(None), vec!["squash", "-i", "--tool=jj-hunk"]);
    assert_eq!(squash(Some("abc")), vec!["squash", "-i", "--tool=jj-hunk", "-r", "abc"]);
}

#[test]
fn list_options_defaults() {
    let options = ListOptions::default();
    assert!(options.rev.is_none());
    assert!(options.accept.is_empty());
    assert!(options.exclude.is_empty());
    assert_eq!(options.group, ListGrouping::Ungrouped);
    assert_eq!(options.format, ListFormat::Json);
    assert_eq!(options.mode, ListMode::Full);
    assert_eq!(options.binary, BinaryMode::Mark);
    assert!(options.spec_text.is_none());
    assert!(options.spec_file.is_none());
    assert!(options.max_bytes.is_none());
    assert!(options.max_lines.is_none());
}

fn file_entry(path: &str, status: &str) -> jj_hunk::commands::FileEntry {
    jj_hunk::commands::FileEntry {
        path: String::from(path),
        status: String::from(status),
        rename: None,
        hunks: Vec::new(),
        binary: None,
        truncated: None,
    }
}

#[test]
fn group_files_by_directory_keeps_order() {
    let files = vec![
        file_entry("src/a.rs", "modified"),
        file_entry("docs/x.md", "added"),
        file_entry("src/b.rs", "modified"),
    ];
    let groups = group_files(files, ListGrouping::Directory);
    assert_eq!(groups.len(), 2);
    assert_eq!(groups[0].name, "src");
    assert_eq!(groups[0].files.len(), 2);
    assert_eq!(groups[0].files[0].path, "src/a.rs");
    assert_eq!(groups[0].files[1].path, "src/b.rs");
    assert_eq!(groups[1].name, "docs");
    assert_eq!(groups[1].files.len(), 1);
}

#[test]
fn summary_output_flat_and_grouped() {
    let mut with_hunks = file_entry("src/a.rs", "modified");
    with_hunks.hunks = get_hunks("a\n", "b\n");
    let files = vec![with_hunks, file_entry("src/b.rs", "added")];

    let flat = build_summary_output(files, ListGrouping::Ungrouped);
    let summaries = flat.files.expect("flat output should list files");
    assert!(flat.groups.is_none());
    assert_eq!(summaries.len(), 2);
    assert_eq!(summaries[0].hunk_count, 1);
    assert_eq!(summaries[1].hunk_count, 0);

    let mut with_hunks2 = file_entry("src/a.rs", "modified");
    with_hunks2.hunks = get_hunks("a\n", "b\n");
    let files2 = vec![with_hunks2, file_entry("src/b.rs", "added")];
    let grouped = build_summary_output(files2, ListGrouping::Status);
    let groups = grouped.groups.expect("grouped output should carry groups");
    assert!(grouped.files.is_none());
    assert_eq!(groups.len(), 2);
    assert_eq!(groups[0].name, "modified");
    assert_eq!(groups[1].name, "added");
}

#[test]
fn spec_template_selects_all_ids_and_keeps_binaries() {
    let mut with_hunks = file_entry("src/a.rs", "modified");
    with_hunks.hunks = get_hunks("a\n", "b\n");
    let expected_id = with_hunks.hunks[0].id.clone();
    let mut binary = file_entry("img.png", "added");
    binary.binary = Some(true);
    let plain = file_entry("quiet.txt", "modified");

    let template = build_spec_template(vec![with_hunks, binary, plain]);
    assert_eq!(template.default, "reset");
    assert_eq!(template.files.len(), 2);
    assert_eq!(template.files[0].0, "src/a.rs");
    match &template.files[0].1 {
        SpecTemplateEntry::Ids { ids } => assert_eq!(ids, &vec![expected_id]),
        other => panic!("expected ids entry, got {:?}", other),
    }
    assert_eq!(template.files[1].0, "img.png");
    match &template.files[1].1 {
        SpecTemplateEntry::Action { action } => assert_eq!(action, "keep"),
        other => panic!("expected action entry, got {:?}", other),
    }
}
