use jj_hunk::commands::{build_summary_output, group_files, FileEntry, ListGrouping};
use jj_hunk::diff::get_hunks;
use jj_hunk::render::{render_text_output, render_text_summary_output, ListOutput};

fn plain_entry(path: &str, status: &str) -> FileEntry {
    FileEntry {
        path: String::from(path),
        status: String::from(status),
        rename: None,
        hunks: Vec::new(),
        binary: None,
        truncated: None,
    }
}

#[test]
fn text_output_lists_hunks_with_content() {
    let mut entry = plain_entry("a.txt", "modified");
    entry.hunks = get_hunks("a\nb\nc\n", "a\nb2\nc\n");
    let id = entry.hunks[0].id.clone();

    let output = ListOutput {
        files: Some(vec![entry]),
        groups: None,
    };
    let rendered = render_text_output(&output);
    let expected = format!(
        "M a.txt\n  hunk 0 replace {id} (before 2+1 after 2+1)\n    - b\n    + b2\n"
    );
    assert_eq!(rendered, expected);
}

#[test]
fn text_output_empty_listing_renders_nothing() {
    let output = ListOutput {
        files: Some(vec![]),
        groups: None,
    };
    assert_eq!(render_text_output(&output), "");
}

#[test]
fn text_output_groups_are_separated_by_blank_lines() {
    let files = vec![plain_entry("src/a.rs", "modified"), plain_entry("docs/x.md", "added")];
    let groups = group_files(files, ListGrouping::Directory);
    let output = ListOutput {
        files: None,
        groups: Some(groups),
    };
    assert_eq!(render_text_output(&output), "src:\nM src/a.rs\n\ndocs:\nA docs/x.md\n");
}

#[test]
fn summary_text_shows_counts_and_markers() {
    let mut entry = plain_entry("a.txt", "modified");
    entry.hunks = get_hunks("a\nb\nc\n", "a\nb2\nc\n");
    let mut binary = plain_entry("img.png", "added");
    binary.binary = Some(true);

    let summary = build_summary_output(vec![entry, binary], ListGrouping::Ungrouped);
    assert_eq!(
        render_text_summary_output(&summary),
        "M a.txt (1 hunks)\nA img.png (0 hunks) [binary]\n"
    );
}

#[test]
fn summary_text_grouped_by_status() {
    let summary = build_summary_output(
        vec![plain_entry("a.txt", "modified"), plain_entry("b.txt", "added")],
        ListGrouping::Status,
    );
    assert_eq!(
        render_text_summary_output(&summary),
        "modified:\nM a.txt (0 hunks)\n\nadded:\nA b.txt (0 hunks)\n"
    );
}
