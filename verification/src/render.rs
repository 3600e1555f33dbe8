//! Plain-text rendering of hunk listings and summaries: one header line per
//! file, one line per hunk with its spans, and prefixed content lines, with
//! groups separated by blank lines.

use vstd::prelude::*;
use crate::commands::{
    status_char, status_char_spec, FileEntry, FileSummary, ListGroup, ListSummaryGroup,
    ListSummaryOutput, RenameInfo,
};
use crate::diff::Hunk;
use crate::lines::{lines_of, split_lines_with_endings};

verus! {

/// The decimal digit character of `n` (0 to 9).
pub open spec fn dec_digit(n: int) -> char {
    ((48 + n) as u8) as char
}

/// The decimal rendering of `n`, most significant digit first.
pub open spec fn dec_string(n: nat) -> Seq<char>
    decreases n,
{
    if n < 10 {
        seq![dec_digit(n as int)]
    } else {
        dec_string(n / 10).push(dec_digit((n % 10) as int))
    }
}

/// Renders `n` in decimal.
pub fn usize_to_string(n: usize) -> (r: String)
    ensures
        r@ == dec_string(n as nat),
    decreases n,
{
    if n < 10 {
        let mut s = String::new();
        s.push((48 + n as u8) as char);
        proof {
            assert(s@ =~= seq![dec_digit(n as int)]);
        }
        s
    } else {
        let mut s = usize_to_string(n / 10);
        s.push((48 + (n % 10) as u8) as char);
        s
    }
}

/// A line terminator removed for display: a trailing `\r\n` or `\n`.
pub open spec fn strip_eol(l: Seq<char>) -> Seq<char> {
    if l.len() >= 2 && l[l.len() - 2] == '\r' && l[l.len() - 1] == '\n' {
        l.take(l.len() - 2)
    } else if l.len() >= 1 && l.last() == '\n' {
        l.take(l.len() - 1)
    } else {
        l
    }
}

/// The display lines of a text: its physical lines without terminators.
pub open spec fn display_lines(s: Seq<char>) -> Seq<Seq<char>> {
    lines_of(s).map_values(|l: Seq<char>| strip_eol(l))
}

/// Appends one display line per physical line of `text`, each behind
/// `prefix`.
fn push_prefixed_lines(lines: &mut Vec<String>, text: &str, prefix: &str)
    ensures
        final(lines).deep_view() == old(lines).deep_view() + display_lines(text@).map_values(
            |l: Seq<char>| prefix@ + l,
        ),
{
    let ghost start = lines.deep_view();
    let parts = split_lines_with_endings(text);
    let ghost target = display_lines(text@).map_values(|l: Seq<char>| prefix@ + l);
    proof {
        assert(parts.deep_view() == lines_of(text@));
        assert(target.len() == parts.deep_view().len());
    }
    let mut i: usize = 0;
    let n = parts.len();
    while i < n
        invariant
            i <= n,
            n == parts@.len(),
            parts.deep_view() == lines_of(text@),
            target == display_lines(text@).map_values(|l: Seq<char>| prefix@ + l),
            target.len() == n,
            lines.deep_view() == start + target.take(i as int),
        decreases n - i,
    {
        let part: &str = parts[i].as_str();
        let m = part.unicode_len();
        proof {
            assert(part@ == parts.deep_view()[i as int]);
        }
        let stripped: &str = if m >= 2 && part.get_char(m - 2) == '\r' && part.get_char(m - 1)
            == '\n' {
            let sub = part.substring_char(0, m - 2);
            proof {
                assert(sub@ =~= part@.take(m - 2));
            }
            sub
        } else if m >= 1 && part.get_char(m - 1) == '\n' {
            let sub = part.substring_char(0, m - 1);
            proof {
                assert(sub@ =~= part@.take(m - 1));
            }
            sub
        } else {
            part
        };
        proof {
            assert(stripped@ == strip_eol(part@));
        }
        let mut line = String::from_str(prefix);
        line.append(stripped);
        let ghost old_dv = lines.deep_view();
        let ghost line_view = line@;
        lines.push(line);
        proof {
            assert(lines.deep_view() =~= old_dv.push(line_view));
            assert(target[i as int] == prefix@ + strip_eol(lines_of(text@)[i as int]));
            assert(target.take(i + 1) =~= target.take(i as int).push(target[i as int]));
        }
        i = i + 1;
    }
    proof {
        assert(target.take(n as int) =~= target);
    }
}

/// The rename note of a header line.
pub open spec fn rename_suffix(rename: Option<RenameInfo>) -> Seq<char> {
    match rename {
        Some(info) => " ("@ + info.from@ + " -> "@ + info.to@ + ")"@,
        None => Seq::empty(),
    }
}

/// The binary/truncated markers of a header line.
pub open spec fn marker_suffix(binary: Option<bool>, truncated: Option<bool>) -> Seq<char> {
    (if binary == Some(true) {
        " [binary]"@
    } else {
        Seq::<char>::empty()
    }) + (if truncated == Some(true) {
        " [truncated]"@
    } else {
        Seq::<char>::empty()
    })
}

fn push_rename_and_markers(
    line: &mut String,
    rename: &Option<RenameInfo>,
    binary: Option<bool>,
    truncated: Option<bool>,
)
    ensures
        final(line)@ == old(line)@ + rename_suffix(*rename) + marker_suffix(binary, truncated),
{
    match rename {
        Some(info) => {
            line.append(" (");
            line.append(info.from.as_str());
            line.append(" -> ");
            line.append(info.to.as_str());
            line.append(")");
        },
        None => {},
    }
    let is_binary = match binary {
        Some(b) => b,
        None => false,
    };
    if is_binary {
        line.append(" [binary]");
    }
    let is_truncated = match truncated {
        Some(b) => b,
        None => false,
    };
    if is_truncated {
        line.append(" [truncated]");
    }
    proof {
        assert(final(line)@ =~= old(line)@ + rename_suffix(*rename) + marker_suffix(
            binary,
            truncated,
        ));
    }
}

/// The header line of a listed file: status marker, path, rename note and
/// markers.
pub open spec fn header_spec(f: FileEntry) -> Seq<char> {
    status_char_spec(f.status@) + " "@ + f.path@ + rename_suffix(f.rename) + marker_suffix(
        f.binary,
        f.truncated,
    )
}

/// Renders the header line of a listed file (see [`header_spec`]).
pub fn format_file_header(file: &FileEntry) -> (r: String)
    ensures
        r@ == header_spec(*file),
{
    let mut line = String::from_str(status_char(file.status.as_str()));
    line.append(" ");
    line.append(file.path.as_str());
    push_rename_and_markers(&mut line, &file.rename, file.binary, file.truncated);
    line
}

/// The line describing one hunk: index, kind, identity and both spans.
pub open spec fn hunk_line_spec(h: Hunk) -> Seq<char> {
    "  hunk "@ + dec_string(h.index as nat) + " "@ + h.hunk_type@ + " "@ + h.id@ + " (before "@
        + dec_string(h.before_range.start as nat) + "+"@ + dec_string(h.before_range.length as nat)
        + " after "@ + dec_string(h.after_range.start as nat) + "+"@ + dec_string(
        h.after_range.length as nat,
    ) + ")"@
}

fn format_hunk_line(h: &Hunk) -> (r: String)
    ensures
        r@ == hunk_line_spec(*h),
{
    let mut line = String::from_str("  hunk ");
    line.append(usize_to_string(h.index).as_str());
    line.append(" ");
    line.append(h.hunk_type.as_str());
    line.append(" ");
    line.append(h.id.as_str());
    line.append(" (before ");
    line.append(usize_to_string(h.before_range.start).as_str());
    line.append("+");
    line.append(usize_to_string(h.before_range.length).as_str());
    line.append(" after ");
    line.append(usize_to_string(h.after_range.start).as_str());
    line.append("+");
    line.append(usize_to_string(h.after_range.length).as_str());
    line.append(")");
    line
}

/// The lines of one hunk: its description, then its removed and added
/// content behind `-` and `+` markers.
pub open spec fn hunk_block(h: Hunk) -> Seq<Seq<char>> {
    seq![hunk_line_spec(h)] + (if h.removed@.len() > 0 {
        display_lines(h.removed@).map_values(|l: Seq<char>| "    - "@ + l)
    } else {
        Seq::<Seq<char>>::empty()
    }) + (if h.added@.len() > 0 {
        display_lines(h.added@).map_values(|l: Seq<char>| "    + "@ + l)
    } else {
        Seq::<Seq<char>>::empty()
    })
}

pub open spec fn hunks_lines(hs: Seq<Hunk>) -> Seq<Seq<char>>
    decreases hs.len(),
{
    if hs.len() == 0 {
        Seq::empty()
    } else {
        hunks_lines(hs.drop_last()) + hunk_block(hs.last())
    }
}

/// The lines of one listed file: its header, then its hunks.
pub open spec fn file_block(f: FileEntry) -> Seq<Seq<char>> {
    seq![header_spec(f)] + hunks_lines(f.hunks@)
}

pub open spec fn files_lines(fs: Seq<FileEntry>) -> Seq<Seq<char>>
    decreases fs.len(),
{
    if fs.len() == 0 {
        Seq::empty()
    } else {
        files_lines(fs.drop_last()) + file_block(fs.last())
    }
}

/// Appends the rendered lines of the listed files (see [`files_lines`]).
pub fn format_files_text(lines: &mut Vec<String>, files: &Vec<FileEntry>)
    ensures
        final(lines).deep_view() == old(lines).deep_view() + files_lines(files@),
{
    let ghost start = lines.deep_view();
    let mut fi: usize = 0;
    proof {
        assert(files@.take(0) =~= Seq::<FileEntry>::empty());
        assert(start + files_lines(files@.take(0)) =~= start);
    }
    while fi < files.len()
        invariant
            fi <= files@.len(),
            lines.deep_view() == start + files_lines(files@.take(fi as int)),
        decreases files@.len() - fi,
    {
        let file = &files[fi];
        proof {
            assert(files@.take(fi + 1).drop_last() =~= files@.take(fi as int));
            assert(files@.take(fi + 1).last() == files@[fi as int]);
        }
        let ghost file_start = lines.deep_view();
        let header = format_file_header(file);
        let ghost header_view = header@;
        lines.push(header);
        proof {
            assert(lines.deep_view() =~= file_start.push(header_view));
            assert(lines.deep_view() =~= file_start + seq![header_spec(files@[fi as int])]
                + hunks_lines(files@[fi as int].hunks@.take(0)));
            assert(files@[fi as int].hunks@.take(0) =~= Seq::<Hunk>::empty());
        }
        let mut hi: usize = 0;
        while hi < file.hunks.len()
            invariant
                hi <= file.hunks@.len(),
                file == files@[fi as int],
                lines.deep_view() == file_start + seq![header_spec(files@[fi as int])]
                    + hunks_lines(files@[fi as int].hunks@.take(hi as int)),
            decreases file.hunks@.len() - hi,
        {
            let hunk = &file.hunks[hi];
            proof {
                assert(file.hunks@.take(hi + 1).drop_last() =~= file.hunks@.take(hi as int));
                assert(file.hunks@.take(hi + 1).last() == file.hunks@[hi as int]);
            }
            let ghost hunk_start = lines.deep_view();
            let line = format_hunk_line(hunk);
            let ghost line_view = line@;
            lines.push(line);
            proof {
                assert(lines.deep_view() =~= hunk_start.push(line_view));
            }
            if !hunk.removed.as_str().is_empty() {
                push_prefixed_lines(lines, hunk.removed.as_str(), "    - ");
            }
            if !hunk.added.as_str().is_empty() {
                push_prefixed_lines(lines, hunk.added.as_str(), "    + ");
            }
            proof {
                assert(lines.deep_view() =~= hunk_start + hunk_block(file.hunks@[hi as int]));
                assert(lines.deep_view() =~= file_start + seq![header_spec(files@[fi as int])]
                    + hunks_lines(files@[fi as int].hunks@.take(hi + 1)));
            }
            hi = hi + 1;
        }
        proof {
            assert(file.hunks@.take(file.hunks@.len() as int) =~= file.hunks@);
            assert(lines.deep_view() =~= start + files_lines(files@.take(fi + 1)));
        }
        fi = fi + 1;
    }
    proof {
        assert(files@.take(files@.len() as int) =~= files@);
    }
}

/// The line summarizing one file: status marker, path, hunk count, rename
/// note and markers.
pub open spec fn summary_line_spec(s: FileSummary) -> Seq<char> {
    status_char_spec(s.status@) + " "@ + s.path@ + " ("@ + dec_string(s.hunk_count as nat)
        + " hunks)"@ + rename_suffix(s.rename) + marker_suffix(s.binary, s.truncated)
}

pub open spec fn summaries_lines(fs: Seq<FileSummary>) -> Seq<Seq<char>> {
    fs.map_values(|s: FileSummary| summary_line_spec(s))
}

/// Appends one summary line per file (see [`summaries_lines`]).
pub fn format_summary_text(lines: &mut Vec<String>, files: &Vec<FileSummary>)
    ensures
        final(lines).deep_view() == old(lines).deep_view() + summaries_lines(files@),
{
    let ghost start = lines.deep_view();
    let ghost target = summaries_lines(files@);
    let mut i: usize = 0;
    proof {
        assert(lines.deep_view() =~= start + target.take(0));
    }
    while i < files.len()
        invariant
            i <= files@.len(),
            target == summaries_lines(files@),
            target.len() == files@.len(),
            lines.deep_view() == start + target.take(i as int),
        decreases files@.len() - i,
    {
        let file = &files[i];
        let mut line = String::from_str(status_char(file.status.as_str()));
        line.append(" ");
        line.append(file.path.as_str());
        line.append(" (");
        line.append(usize_to_string(file.hunk_count).as_str());
        line.append(" hunks)");
        push_rename_and_markers(&mut line, &file.rename, file.binary, file.truncated);
        let ghost old_dv = lines.deep_view();
        let ghost line_view = line@;
        lines.push(line);
        proof {
            assert(line_view == summary_line_spec(files@[i as int]));
            assert(lines.deep_view() =~= old_dv.push(line_view));
            assert(target.take(i + 1) =~= target.take(i as int).push(target[i as int]));
        }
        i = i + 1;
    }
    proof {
        assert(target.take(files@.len() as int) =~= target);
    }
}

/// The heading of a group: its name, or `<root>` for the empty or `.` name.
pub open spec fn group_name_spec(name: Seq<char>) -> Seq<char> {
    if name == "."@ || name.len() == 0 {
        "<root>"@
    } else {
        name
    }
}

fn format_group_name(name: &str) -> (r: String)
    ensures
        r@ == group_name_spec(name@) + ":"@,
{
    let shown: &str = if crate::strutil::str_eq(name, ".") || name.is_empty() {
        "<root>"
    } else {
        name
    };
    let mut line = String::from_str(shown);
    line.append(":");
    line
}

/// The lines of the grouped listing: each group's heading and files, with a
/// blank line between groups.
pub open spec fn group_blocks(gs: Seq<ListGroup>) -> Seq<Seq<char>>
    decreases gs.len(),
{
    if gs.len() == 0 {
        Seq::empty()
    } else if gs.len() == 1 {
        seq![group_name_spec(gs[0].name@) + ":"@] + files_lines(gs[0].files@)
    } else {
        group_blocks(gs.drop_last()) + seq![Seq::<char>::empty()] + seq![
            group_name_spec(gs.last().name@) + ":"@,
        ] + files_lines(gs.last().files@)
    }
}

pub open spec fn summary_group_blocks(gs: Seq<ListSummaryGroup>) -> Seq<Seq<char>>
    decreases gs.len(),
{
    if gs.len() == 0 {
        Seq::empty()
    } else if gs.len() == 1 {
        seq![group_name_spec(gs[0].name@) + ":"@] + summaries_lines(gs[0].files@)
    } else {
        summary_group_blocks(gs.drop_last()) + seq![Seq::<char>::empty()] + seq![
            group_name_spec(gs.last().name@) + ":"@,
        ] + summaries_lines(gs.last().files@)
    }
}

/// Lines joined by `\n`.
pub open spec fn join_nl(ls: Seq<Seq<char>>) -> Seq<char>
    decreases ls.len(),
{
    if ls.len() == 0 {
        Seq::empty()
    } else if ls.len() == 1 {
        ls[0]
    } else {
        join_nl(ls.drop_last()) + seq!['\n'] + ls.last()
    }
}

/// Joins the lines with `\n` and closes with a final `\n`; no lines render
/// as the empty string.
pub open spec fn finish_lines(ls: Seq<Seq<char>>) -> Seq<char> {
    if ls.len() == 0 {
        Seq::empty()
    } else {
        join_nl(ls) + seq!['\n']
    }
}

fn finish(lines: Vec<String>) -> (r: String)
    ensures
        r@ == finish_lines(lines.deep_view()),
{
    let ghost dv = lines.deep_view();
    if lines.len() == 0 {
        proof {
            assert(dv.len() == 0);
        }
        return String::new();
    }
    let mut out = String::new();
    let mut i: usize = 0;
    let n = lines.len();
    while i < n
        invariant
            i <= n,
            n == lines@.len(),
            n > 0,
            dv == lines.deep_view(),
            dv.len() == n,
            out@ == (if i == 0 {
                Seq::<char>::empty()
            } else {
                join_nl(dv.take(i as int))
            }),
        decreases n - i,
    {
        if i > 0 {
            out.push('\n');
        }
        out.append(lines[i].as_str());
        proof {
            assert(dv.take(i + 1).drop_last() =~= dv.take(i as int));
            assert(dv.take(i + 1).last() == dv[i as int]);
            if i == 0 {
                assert(dv.take(1).len() == 1);
                assert(out@ =~= dv.take(1)[0]);
            }
        }
        i = i + 1;
    }
    out.push('\n');
    proof {
        assert(dv.take(n as int) =~= dv);
        assert(out@ =~= join_nl(dv) + seq!['\n']);
    }
    out
}

/// A hunk listing, flat or grouped, for rendering.
#[derive(Debug, Clone)]
pub struct ListOutput {
    pub files: Option<Vec<FileEntry>>,
    pub groups: Option<Vec<ListGroup>>,
}

/// The full plain-text rendering of a hunk listing: grouped output first
/// renders each group behind its heading, flat output just the files;
/// non-empty output ends with a newline.
pub open spec fn render_output_spec(output: ListOutput) -> Seq<char> {
    match output.groups {
        Some(gs) => finish_lines(group_blocks(gs@)),
        None => match output.files {
            Some(fs) => finish_lines(files_lines(fs@)),
            None => Seq::empty(),
        },
    }
}

/// Renders a hunk listing as plain text (see [`render_output_spec`]).
pub fn render_text_output(output: &ListOutput) -> (r: String)
    ensures
        r@ == render_output_spec(*output),
{
    let mut lines: Vec<String> = Vec::new();
    match &output.groups {
        Some(groups) => {
            let mut gi: usize = 0;
            proof {
                assert(groups@.take(0) =~= Seq::<ListGroup>::empty());
                assert(lines.deep_view() =~= group_blocks(groups@.take(0)));
            }
            while gi < groups.len()
                invariant
                    gi <= groups@.len(),
                    lines.deep_view() == group_blocks(groups@.take(gi as int)),
                decreases groups@.len() - gi,
            {
                proof {
                    assert(groups@.take(gi + 1).drop_last() =~= groups@.take(gi as int));
                    assert(groups@.take(gi + 1).last() == groups@[gi as int]);
                }
                if gi > 0 {
                    let ghost old_dv = lines.deep_view();
                    lines.push(String::new());
                    proof {
                        assert(lines.deep_view() =~= old_dv.push(Seq::<char>::empty()));
                    }
                }
                let group = &groups[gi];
                let ghost before_name = lines.deep_view();
                let name_line = format_group_name(group.name.as_str());
                let ghost name_view = name_line@;
                lines.push(name_line);
                proof {
                    assert(lines.deep_view() =~= before_name.push(name_view));
                }
                format_files_text(&mut lines, &group.files);
                proof {
                    assert(lines.deep_view() =~= group_blocks(groups@.take(gi + 1)));
                }
                gi = gi + 1;
            }
            proof {
                assert(groups@.take(groups@.len() as int) =~= groups@);
            }
        },
        None => {
            match &output.files {
                Some(files) => {
                    format_files_text(&mut lines, files);
                },
                None => {
                    return String::new();
                },
            }
        },
    }
    finish(lines)
}

/// The full plain-text rendering of a summary listing
/// (mirrors [`render_output_spec`] with summary lines).
pub open spec fn render_summary_spec(output: ListSummaryOutput) -> Seq<char> {
    match output.groups {
        Some(gs) => finish_lines(summary_group_blocks(gs@)),
        None => match output.files {
            Some(fs) => finish_lines(summaries_lines(fs@)),
            None => Seq::empty(),
        },
    }
}

/// Renders a summary listing as plain text (see [`render_summary_spec`]).
pub fn render_text_summary_output(output: &ListSummaryOutput) -> (r: String)
    ensures
        r@ == render_summary_spec(*output),
{
    let mut lines: Vec<String> = Vec::new();
    match &output.groups {
        Some(groups) => {
            let mut gi: usize = 0;
            proof {
                assert(groups@.take(0) =~= Seq::<ListSummaryGroup>::empty());
                assert(lines.deep_view() =~= summary_group_blocks(groups@.take(0)));
            }
            while gi < groups.len()
                invariant
                    gi <= groups@.len(),
                    lines.deep_view() == summary_group_blocks(groups@.take(gi as int)),
                decreases groups@.len() - gi,
            {
                proof {
                    assert(groups@.take(gi + 1).drop_last() =~= groups@.take(gi as int));
                    assert(groups@.take(gi + 1).last() == groups@[gi as int]);
                }
                if gi > 0 {
                    let ghost old_dv = lines.deep_view();
                    lines.push(String::new());
                    proof {
                        assert(lines.deep_view() =~= old_dv.push(Seq::<char>::empty()));
                    }
                }
                let group = &groups[gi];
                let ghost before_name = lines.deep_view();
                let name_line = format_group_name(group.name.as_str());
                let ghost name_view = name_line@;
                lines.push(name_line);
                proof {
                    assert(lines.deep_view() =~= before_name.push(name_view));
                }
                format_summary_text(&mut lines, &group.files);
                proof {
                    assert(lines.deep_view() =~= summary_group_blocks(groups@.take(gi + 1)));
                }
                gi = gi + 1;
            }
            proof {
                assert(groups@.take(groups@.len() as int) =~= groups@);
            }
        },
        None => {
            match &output.files {
                Some(files) => {
                    format_summary_text(&mut lines, files);
                },
                None => {
                    return String::new();
                },
            }
        },
    }
    finish(lines)
}

} // verus!
