//! Pure decision logic around the hunk engine: which files a spec keeps,
//! resets or filters; which paths a diff summary entry contributes; binary
//! detection; content truncation; and the argument lists of the
//! version-control commands the engine plugs into.

use vstd::prelude::*;
use vstd::utf8::{valid_utf8, is_char_boundary, encode_utf8};
use crate::diff::{Hunk, SpecHunk, HunkSelection, hunks_view, concat_lines};
use crate::filespec::{Spec, FileSpec, Action, DefaultAction, selector_indices, selector_ids, id_set, lookup_file};
use crate::glob::{glob_match_spec, matches_any};
use crate::lines::{lines_of, split_lines_with_endings};
use crate::strutil::str_eq;

verus! {

broadcast use vstd::utf8::encode_utf8_valid_utf8, vstd::utf8::is_char_boundary_start_end_of_seq;

// ------------------------------------------------------------------
// Listing options
// ------------------------------------------------------------------

#[derive(Debug, Clone, Copy, PartialEq, Eq, Structural)]
pub enum ListFormat {
    Json,
    Yaml,
    Text,
}

impl Default for ListFormat {
    fn default() -> (r: Self)
        ensures
            r == ListFormat::Json,
    {
        ListFormat::Json
    }
}

#[derive(Debug, Clone, Copy, PartialEq, Eq, Structural)]
pub enum ListGrouping {
    Ungrouped,
    Directory,
    Extension,
    Status,
}

impl Default for ListGrouping {
    fn default() -> (r: Self)
        ensures
            r == ListGrouping::Ungrouped,
    {
        ListGrouping::Ungrouped
    }
}

#[derive(Debug, Clone, Copy, PartialEq, Eq, Structural)]
pub enum BinaryMode {
    Skip,
    Mark,
    Include,
}

impl Default for BinaryMode {
    fn default() -> (r: Self)
        ensures
            r == BinaryMode::Mark,
    {
        BinaryMode::Mark
    }
}

#[derive(Debug, Clone, Copy, PartialEq, Eq, Structural)]
pub enum ListMode {
    Full,
    Files,
    SpecTemplate,
}

impl Default for ListMode {
    fn default() -> (r: Self)
        ensures
            r == ListMode::Full,
    {
        ListMode::Full
    }
}

/// Options of a hunk listing.
#[derive(Debug, Clone)]
pub struct ListOptions {
    pub rev: Option<String>,
    pub accept: Vec<String>,
    pub exclude: Vec<String>,
    pub group: ListGrouping,
    pub format: ListFormat,
    pub mode: ListMode,
    pub spec_text: Option<String>,
    pub spec_file: Option<String>,
    pub binary: BinaryMode,
    pub max_bytes: Option<usize>,
    pub max_lines: Option<usize>,
}

impl Default for ListOptions {
    fn default() -> (r: Self)
        ensures
            r.rev is None,
            r.accept@.len() == 0,
            r.exclude@.len() == 0,
            r.group == ListGrouping::Ungrouped,
            r.format == ListFormat::Json,
            r.mode == ListMode::Full,
            r.spec_text is None,
            r.spec_file is None,
            r.binary == BinaryMode::Mark,
            r.max_bytes is None,
            r.max_lines is None,
    {
        ListOptions {
            rev: None,
            accept: Vec::new(),
            exclude: Vec::new(),
            group: ListGrouping::Ungrouped,
            format: ListFormat::Json,
            mode: ListMode::Full,
            spec_text: None,
            spec_file: None,
            binary: BinaryMode::Mark,
            max_bytes: None,
            max_lines: None,
        }
    }
}

// ------------------------------------------------------------------
// Diff summary entries
// ------------------------------------------------------------------

/// One entry of the version-control tool's diff summary: a status plus the
/// path, and the source/target paths of a rename or copy.
#[derive(Debug, Clone)]
pub struct DiffSummaryEntry {
    pub status: String,
    pub path: String,
    pub source: String,
    pub target: String,
}

/// A rename or copy recorded for a file.
#[derive(Debug, Clone)]
pub struct RenameInfo {
    pub from: String,
    pub to: String,
}

/// The before/after paths whose contents a file entry compares.
#[derive(Debug, Clone)]
pub struct FilePaths {
    pub before: Option<String>,
    pub after: Option<String>,
}

pub open spec fn primary_path_spec(status: Seq<char>, path: Seq<char>, source: Seq<char>, target: Seq<char>) -> Seq<char> {
    if path.len() > 0 {
        path
    } else if target.len() > 0 {
        target
    } else {
        source
    }
}

/// The path an entry is listed under: its path, else its target, else its
/// source.
pub fn primary_path(entry: &DiffSummaryEntry) -> (r: String)
    ensures
        r@ == primary_path_spec(entry.status@, entry.path@, entry.source@, entry.target@),
{
    if !entry.path.as_str().is_empty() {
        entry.path.clone()
    } else if !entry.target.as_str().is_empty() {
        entry.target.clone()
    } else {
        entry.source.clone()
    }
}

pub open spec fn rename_info_spec(status: Seq<char>, path: Seq<char>, source: Seq<char>, target: Seq<char>) -> Option<(Seq<char>, Seq<char>)> {
    if (status == "renamed"@ || status == "copied"@) && source.len() > 0 {
        if target.len() > 0 {
            Some((source, target))
        } else {
            Some((source, path))
        }
    } else {
        None
    }
}

/// The rename or copy an entry records: present only for renamed or copied
/// entries with a source; the destination is the target, else the path.
pub fn rename_info(entry: &DiffSummaryEntry) -> (r: Option<RenameInfo>)
    ensures
        (match r {
            Some(info) => Some((info.from@, info.to@)),
            None => None,
        }) == rename_info_spec(entry.status@, entry.path@, entry.source@, entry.target@),
{
    if str_eq(entry.status.as_str(), "renamed") || str_eq(entry.status.as_str(), "copied") {
        if entry.source.as_str().is_empty() {
            return None;
        }
        let to = if !entry.target.as_str().is_empty() {
            entry.target.clone()
        } else {
            entry.path.clone()
        };
        Some(RenameInfo { from: entry.source.clone(), to })
    } else {
        None
    }
}

pub open spec fn file_paths_spec(status: Seq<char>, source: Seq<char>, target: Seq<char>, path: Seq<char>) -> (
    Option<Seq<char>>,
    Option<Seq<char>>,
) {
    if status == "added"@ {
        (None, Some(path))
    } else if status == "removed"@ {
        (Some(path), None)
    } else if status == "renamed"@ || status == "copied"@ {
        let before = if source.len() > 0 {
            source
        } else {
            path
        };
        let after = if target.len() > 0 {
            target
        } else {
            path
        };
        (Some(before), Some(after))
    } else {
        (Some(path), Some(path))
    }
}

/// The before/after paths to read for an entry: an added file has no before
/// side, a removed file no after side, and a rename or copy reads its source
/// and target.
pub fn file_paths_for_entry(entry: &DiffSummaryEntry, path: &str) -> (r: FilePaths)
    ensures
        ({
            let spec_paths = file_paths_spec(entry.status@, entry.source@, entry.target@, path@);
            &&& (match r.before {
                Some(p) => Some(p@),
                None => None,
            }) == spec_paths.0
            &&& (match r.after {
                Some(p) => Some(p@),
                None => None,
            }) == spec_paths.1
        }),
{
    if str_eq(entry.status.as_str(), "added") {
        FilePaths { before: None, after: Some(path.to_owned()) }
    } else if str_eq(entry.status.as_str(), "removed") {
        FilePaths { before: Some(path.to_owned()), after: None }
    } else if str_eq(entry.status.as_str(), "renamed") || str_eq(entry.status.as_str(), "copied") {
        let before = if !entry.source.as_str().is_empty() {
            entry.source.clone()
        } else {
            path.to_owned()
        };
        let after = if !entry.target.as_str().is_empty() {
            entry.target.clone()
        } else {
            path.to_owned()
        };
        FilePaths { before: Some(before), after: Some(after) }
    } else {
        FilePaths { before: Some(path.to_owned()), after: Some(path.to_owned()) }
    }
}

pub open spec fn entry_paths_spec(path: Seq<char>, source: Seq<char>, target: Seq<char>) -> Seq<Seq<char>> {
    let s0: Seq<Seq<char>> = if path.len() > 0 {
        seq![path]
    } else {
        Seq::empty()
    };
    let s1: Seq<Seq<char>> = if source.len() > 0 && source != path {
        s0.push(source)
    } else {
        s0
    };
    if target.len() > 0 && target != path && target != source {
        s1.push(target)
    } else {
        s1
    }
}

/// The distinct non-empty paths an entry names: its path, source and target.
pub fn entry_paths(entry: &DiffSummaryEntry) -> (r: Vec<String>)
    ensures
        r.deep_view() == entry_paths_spec(entry.path@, entry.source@, entry.target@),
{
    let mut paths: Vec<String> = Vec::new();
    if !entry.path.as_str().is_empty() {
        paths.push(entry.path.clone());
    }
    proof {
        let s0: Seq<Seq<char>> = if entry.path@.len() > 0 {
            seq![entry.path@]
        } else {
            Seq::<Seq<char>>::empty()
        };
        assert(paths.deep_view() =~= s0);
    }
    if !entry.source.as_str().is_empty() && !str_eq(entry.source.as_str(), entry.path.as_str()) {
        let ghost old_dv = paths.deep_view();
        paths.push(entry.source.clone());
        proof {
            assert(paths.deep_view() =~= old_dv.push(entry.source@));
        }
    }
    if !entry.target.as_str().is_empty() && !str_eq(entry.target.as_str(), entry.path.as_str())
        && !str_eq(entry.target.as_str(), entry.source.as_str()) {
        let ghost old_dv = paths.deep_view();
        paths.push(entry.target.clone());
        proof {
            assert(paths.deep_view() =~= old_dv.push(entry.target@));
        }
    }
    paths
}

/// Does any pattern of the list match any of the paths?
pub open spec fn any_path_matched(patterns: Seq<Seq<char>>, paths: Seq<Seq<char>>) -> bool {
    exists|i: int|
        0 <= i < paths.len() && exists|k: int|
            0 <= k < patterns.len() && glob_match_spec(#[trigger] patterns[k], #[trigger] paths[i])
}

fn any_path_matches(patterns: &Vec<String>, paths: &Vec<String>) -> (r: bool)
    ensures
        r == any_path_matched(patterns.deep_view(), paths.deep_view()),
{
    let ghost pd = patterns.deep_view();
    let ghost td = paths.deep_view();
    let mut i: usize = 0;
    while i < paths.len()
        invariant
            i <= paths@.len(),
            pd == patterns.deep_view(),
            td == paths.deep_view(),
            td.len() == paths@.len(),
            pd.len() == patterns@.len(),
            forall|j: int|
                0 <= j < i ==> !exists|k: int|
                    0 <= k < pd.len() && glob_match_spec(#[trigger] pd[k], #[trigger] td[j]),
        decreases paths@.len() - i,
    {
        proof {
            assert(td[i as int] == paths@[i as int]@);
            assert(forall|k: int| 0 <= k < pd.len() ==> #[trigger] pd[k] == patterns@[k]@);
        }
        if matches_any(patterns, paths[i].as_str()) {
            proof {
                let k = choose|k: int|
                    0 <= k < patterns@.len() && glob_match_spec(
                        #[trigger] patterns@[k]@,
                        paths@[i as int]@,
                    );
                assert(glob_match_spec(pd[k], td[i as int]));
                assert(any_path_matched(pd, td));
            }
            return true;
        }
        i = i + 1;
    }
    false
}

/// Is an entry kept by the accept/exclude pattern lists?  With accept
/// patterns, some path of the entry must match one; an entry whose path
/// matches an exclude pattern is dropped.
pub fn should_list_entry(entry: &DiffSummaryEntry, accept: &Vec<String>, exclude: &Vec<String>) -> (r: bool)
    ensures
        r == ({
            let paths = entry_paths_spec(entry.path@, entry.source@, entry.target@);
            (accept@.len() == 0 || any_path_matched(accept.deep_view(), paths)) && !(
            exclude@.len() > 0 && any_path_matched(exclude.deep_view(), paths))
        }),
{
    let paths = entry_paths(entry);
    if accept.len() > 0 && !any_path_matches(accept, &paths) {
        return false;
    }
    if exclude.len() > 0 && any_path_matches(exclude, &paths) {
        return false;
    }
    true
}

// ------------------------------------------------------------------
// Binary detection
// ------------------------------------------------------------------

/// Relies on `core::str::from_utf8`: it succeeds exactly on well-formed
/// UTF-8 input.
#[verifier::external_body]
fn utf8_valid(bytes: &[u8]) -> (r: bool)
    ensures
        r == valid_utf8(bytes@),
{
    core::str::from_utf8(bytes).is_ok()
}

/// Non-empty content that holds a NUL byte or is not well-formed UTF-8.
pub open spec fn is_binary_spec(bytes: Seq<u8>) -> bool {
    bytes.len() > 0 && (bytes.contains(0) || !valid_utf8(bytes))
}

/// Is this content binary (see [`is_binary_spec`])?  Empty content is not.
pub fn is_binary_data(bytes: &[u8]) -> (r: bool)
    ensures
        r == is_binary_spec(bytes@),
{
    if bytes.len() == 0 {
        return false;
    }
    let mut i: usize = 0;
    while i < bytes.len()
        invariant
            i <= bytes@.len(),
            forall|j: int| 0 <= j < i ==> bytes@[j] != 0,
        decreases bytes@.len() - i,
    {
        if bytes[i] == 0 {
            return true;
        }
        i = i + 1;
    }
    proof {
        assert(!bytes@.contains(0));
    }
    !utf8_valid(bytes)
}

// ------------------------------------------------------------------
// Content truncation
// ------------------------------------------------------------------

/// The content clipped to its first `m` physical lines.
pub open spec fn clip_lines(s: Seq<char>, m: int) -> Seq<char> {
    if lines_of(s).len() > m {
        concat_lines(lines_of(s).take(m))
    } else {
        s
    }
}

/// The largest character boundary of `bytes` at or below `m`.
pub open spec fn clip_point(bytes: Seq<u8>, m: int) -> int
    decreases m,
{
    if m <= 0 {
        0
    } else if is_char_boundary(bytes, m) {
        m
    } else {
        clip_point(bytes, m - 1)
    }
}

/// The content clipped to at most `m` bytes of its UTF-8 encoding, cut at a
/// character boundary.
pub open spec fn clip_bytes(s: Seq<char>, m: int) -> Seq<u8> {
    let bytes = encode_utf8(s);
    if bytes.len() > m {
        bytes.take(clip_point(bytes, m))
    } else {
        bytes
    }
}

/// Truncates content to at most `max_lines` physical lines and then to at
/// most `max_bytes` bytes (cut at a character boundary); the flag reports
/// whether anything was cut.
pub fn truncate_text(content: &str, max_bytes: Option<usize>, max_lines: Option<usize>) -> (r: (
    String,
    bool,
))
    ensures
        ({
            let s1 = match max_lines {
                Some(m) => clip_lines(content@, m as int),
                None => content@,
            };
            &&& encode_utf8(r.0@) == (match max_bytes {
                Some(m) => clip_bytes(s1, m as int),
                None => encode_utf8(s1),
            })
            &&& r.1 == ((match max_lines {
                Some(m) => lines_of(content@).len() > m,
                None => false,
            }) || (match max_bytes {
                Some(m) => encode_utf8(s1).len() > m,
                None => false,
            }))
        }),
{
    let mut result: String = content.to_owned();
    let mut truncated = false;
    let ghost s1 = match max_lines {
        Some(m) => clip_lines(content@, m as int),
        None => content@,
    };
    match max_lines {
        Some(m) => {
            let ls = split_lines_with_endings(result.as_str());
            if ls.len() > m {
                result = crate::diff::concat_line_range(&ls, 0, m);
                truncated = true;
                proof {
                    assert(ls.deep_view().subrange(0, m as int) =~= lines_of(content@).take(
                        m as int,
                    ));
                }
            }
        },
        None => {},
    }
    proof {
        assert(result@ == s1);
    }
    match max_bytes {
        Some(m) => {
            let byte_len = result.as_str().as_bytes().len();
            if byte_len > m {
                let ghost bytes = encode_utf8(s1);
                let mut end: usize = m;
                while !result.as_str().is_char_boundary(end)
                    invariant
                        result@ == s1,
                        bytes == encode_utf8(s1),
                        valid_utf8(bytes),
                        0 <= end <= m,
                        m < bytes.len(),
                        clip_point(bytes, m as int) == clip_point(bytes, end as int),
                    decreases end,
                {
                    proof {
                        assert(is_char_boundary(bytes, 0));
                        assert(end > 0);
                    }
                    end = end - 1;
                }
                proof {
                    assert(is_char_boundary(bytes, end as int));
                    assert(clip_point(bytes, end as int) == end as int);
                }
                let head = result.as_str().split_at(end).0;
                let clipped = head.to_owned();
                proof {
                    assert(encode_utf8(clipped@) == bytes.subrange(0, end as int));
                    assert(bytes.subrange(0, end as int) =~= bytes.take(end as int));
                }
                result = clipped;
                truncated = true;
            }
        },
        None => {},
    }
    (result, truncated)
}

// ------------------------------------------------------------------
// Per-file decisions
// ------------------------------------------------------------------

/// The decision a spec takes for one file: skip its changes, keep them all,
/// or keep the selected hunks.
#[derive(Debug, Clone)]
pub enum SpecDecision {
    Skip,
    KeepAll,
    KeepSelection(HunkSelection),
}

/// Is a per-file hunk spec an empty selection?
pub open spec fn hunk_spec_empty(hunks: Seq<crate::filespec::HunkSelector>, ids: Seq<String>) -> bool {
    selector_indices(hunks) =~= Set::<int>::empty() && selector_ids(hunks) =~= Set::<
        Seq<char>,
    >::empty() && id_set(ids) =~= Set::<Seq<char>>::empty()
}

/// The decision for `path` under an optional spec: no spec keeps everything;
/// a recorded keep/reset action applies as such; a recorded selection
/// applies per hunk, except that an empty selection skips the file; an
/// unrecorded path follows the default action.
pub fn spec_decision(spec: Option<&Spec>, path: &str) -> (r: SpecDecision)
    ensures
        spec is None ==> r is KeepAll,
        spec matches Some(sp) ==> match lookup_file(sp.files@, path@) {
            Some(FileSpec::Action { action }) => (action == Action::Keep && r is KeepAll) || (
            action == Action::Reset && r is Skip),
            Some(FileSpec::Selection(hs)) => if hunk_spec_empty(hs.hunks@, hs.ids@) {
                r is Skip
            } else {
                r matches SpecDecision::KeepSelection(sel) && (forall|i: int|
                    sel.spec_has_index(i) <==> selector_indices(hs.hunks@).contains(i)) && (
                forall|id: Seq<char>|
                    sel.spec_has_id(id) <==> (selector_ids(hs.hunks@).contains(id) || id_set(
                        hs.ids@,
                    ).contains(id)))
            },
            None => (sp.default == DefaultAction::Reset && r is Skip) || (sp.default
                == DefaultAction::Keep && r is KeepAll),
        },
{
    let sp = match spec {
        Some(sp) => sp,
        None => {
            return SpecDecision::KeepAll;
        },
    };
    match sp.find_file(path) {
        Some(file_spec) => match file_spec {
            FileSpec::Action { action } => match action {
                Action::Keep => SpecDecision::KeepAll,
                Action::Reset => SpecDecision::Skip,
            },
            FileSpec::Selection(selection) => {
                let sel = selection.to_selection();
                if sel.is_empty() {
                    proof {
                        assert forall|i: int|
                            !selector_indices(selection.hunks@).contains(i) by {
                            if selector_indices(selection.hunks@).contains(i) {
                                assert(sel.spec_has_index(i));
                            }
                        }
                        assert forall|id: Seq<char>|
                            !selector_ids(selection.hunks@).contains(id) && !id_set(
                                selection.ids@,
                            ).contains(id) by {
                            if selector_ids(selection.hunks@).contains(id) || id_set(
                                selection.ids@,
                            ).contains(id) {
                                assert(sel.spec_has_id(id));
                            }
                        }
                        assert(hunk_spec_empty(selection.hunks@, selection.ids@));
                    }
                    SpecDecision::Skip
                } else {
                    proof {
                        if sel.indices@.len() > 0 {
                            let i0 = sel.indices@[0] as int;
                            assert(sel.spec_has_index(i0));
                            assert(selector_indices(selection.hunks@).contains(i0));
                            assert(!hunk_spec_empty(selection.hunks@, selection.ids@));
                        } else {
                            let id0 = sel.ids@[0]@;
                            assert(sel.spec_has_id(id0));
                            assert(!hunk_spec_empty(selection.hunks@, selection.ids@));
                        }
                    }
                    SpecDecision::KeepSelection(sel)
                }
            },
        },
        None => {
            match sp.default {
                DefaultAction::Reset => SpecDecision::Skip,
                DefaultAction::Keep => SpecDecision::KeepAll,
            }
        },
    }
}

/// The hunks of the list that the selection accepts, in order.
pub open spec fn kept_hunks(hs: Seq<SpecHunk>, sel: HunkSelection) -> Seq<SpecHunk>
    decreases hs.len(),
{
    if hs.len() == 0 {
        Seq::empty()
    } else {
        let rest = kept_hunks(hs.drop_last(), sel);
        if sel.spec_matches(hs.last().index, hs.last().id) {
            rest.push(hs.last())
        } else {
            rest
        }
    }
}

/// Keeps exactly the hunks the selection accepts, in their original order.
pub fn filter_hunks(hunks: Vec<Hunk>, selection: &HunkSelection) -> (r: Vec<Hunk>)
    ensures
        hunks_view(r@) == kept_hunks(hunks_view(hunks@), *selection),
{
    let ghost orig = hunks@;
    let mut rest = hunks;
    let mut out: Vec<Hunk> = Vec::new();
    let mut i: usize = 0;
    let n = rest.len();
    proof {
        assert(rest@ =~= orig.skip(0));
        assert(hunks_view(orig.take(0)) =~= Seq::<SpecHunk>::empty());
        assert(kept_hunks(hunks_view(orig.take(0)), *selection) =~= Seq::<SpecHunk>::empty());
        assert(hunks_view(out@) =~= Seq::<SpecHunk>::empty());
    }
    while i < n
        invariant
            i <= n,
            n == orig.len(),
            rest@ == orig.skip(i as int),
            hunks_view(out@) == kept_hunks(hunks_view(orig.take(i as int)), *selection),
        decreases n - i,
    {
        let h = rest.remove(0);
        proof {
            assert(h == orig[i as int]);
            assert(orig.skip(i as int).remove(0) =~= orig.skip(i + 1));
            assert(hunks_view(orig.take(i + 1)).drop_last() =~= hunks_view(orig.take(i as int)));
            assert(hunks_view(orig.take(i + 1)).last() == orig[i as int]@);
        }
        let selected = selection.matches(h.index, h.id.as_str());
        if selected {
            let ghost old_out = out@;
            out.push(h);
            proof {
                assert(hunks_view(out@) =~= hunks_view(old_out).push(orig[i as int]@));
            }
        }
        i = i + 1;
    }
    proof {
        assert(orig.take(n as int) =~= orig);
    }
    out
}

// ------------------------------------------------------------------
// Grouping keys
// ------------------------------------------------------------------

/// Index of the last occurrence of `c` in `s`, or -1.
pub open spec fn last_index_of(s: Seq<char>, c: char) -> int
    decreases s.len(),
{
    if s.len() == 0 {
        -1
    } else if s.last() == c {
        s.len() - 1
    } else {
        last_index_of(s.drop_last(), c)
    }
}

/// The grouping key of a path grouped by directory: the text before the last
/// `/`, or `.` when there is no parent.
pub open spec fn directory_group_spec(path: Seq<char>) -> Seq<char> {
    let cut = last_index_of(path, '/');
    if cut <= 0 {
        "."@
    } else {
        path.take(cut)
    }
}

/// The grouping key of a path grouped by extension: the text after the last
/// `.` of the final path segment, unless the segment has no `.` or starts
/// with its only `.`.
pub open spec fn extension_group_spec(path: Seq<char>) -> Seq<char> {
    let name = path.skip(last_index_of(path, '/') + 1);
    let dot = last_index_of(name, '.');
    if dot <= 0 {
        "<no-ext>"@
    } else {
        name.skip(dot + 1)
    }
}

/// Scans for the last occurrence of `c` (see [`last_index_of`]); returns the
/// length of `s` when there is none, so the result is one past the cut.
fn rfind_char(s: &str, c: char) -> (r: Option<usize>)
    ensures
        (match r {
            Some(i) => i as int,
            None => -1,
        }) == last_index_of(s@, c),
        r matches Some(i) ==> i < s@.len() && s@[i as int] == c,
{
    let n = s.unicode_len();
    let mut i: usize = n;
    proof {
        assert(s@.take(n as int) =~= s@);
    }
    while i > 0
        invariant
            n == s@.len(),
            i <= n,
            last_index_of(s@, c) == last_index_of(s@.take(i as int), c),
        decreases i,
    {
        proof {
            assert(s@.take(i as int).drop_last() =~= s@.take(i - 1));
            assert(s@.take(i as int).last() == s@[i - 1]);
        }
        if s.get_char(i - 1) == c {
            proof {
                assert(last_index_of(s@.take(i as int), c) == i - 1);
            }
            return Some(i - 1);
        }
        i = i - 1;
    }
    proof {
        assert(s@.take(0) =~= Seq::<char>::empty());
    }
    None
}

/// The directory grouping key of a path (see [`directory_group_spec`]).
pub fn directory_group(path: &str) -> (r: String)
    ensures
        r@ == directory_group_spec(path@),
{
    match rfind_char(path, '/') {
        Some(cut) => {
            if cut == 0 {
                String::from_str(".")
            } else {
                let head = path.substring_char(0, cut);
                proof {
                    assert(head@ =~= path@.take(cut as int));
                }
                head.to_owned()
            }
        },
        None => String::from_str("."),
    }
}

/// The extension grouping key of a path (see [`extension_group_spec`]).
pub fn extension_group(path: &str) -> (r: String)
    ensures
        r@ == extension_group_spec(path@),
{
    let n = path.unicode_len();
    let name_start: usize = match rfind_char(path, '/') {
        Some(cut) => cut + 1,
        None => 0,
    };
    let name = path.substring_char(name_start, n);
    proof {
        assert(name@ =~= path@.skip(name_start as int));
    }
    match rfind_char(name, '.') {
        Some(dot) => {
            if dot == 0 {
                String::from_str("<no-ext>")
            } else {
                let ext = name.substring_char(dot + 1, name.unicode_len());
                proof {
                    assert(ext@ =~= name@.skip(dot + 1));
                }
                ext.to_owned()
            }
        },
        None => String::from_str("<no-ext>"),
    }
}

pub open spec fn status_char_spec(status: Seq<char>) -> Seq<char> {
    if status == "modified"@ {
        "M"@
    } else if status == "added"@ {
        "A"@
    } else if status == "removed"@ {
        "D"@
    } else if status == "renamed"@ {
        "R"@
    } else if status == "copied"@ {
        "C"@
    } else {
        "?"@
    }
}

/// The one-letter marker of a file status.
pub fn status_char(status: &str) -> (r: &'static str)
    ensures
        r@ == status_char_spec(status@),
{
    if str_eq(status, "modified") {
        "M"
    } else if str_eq(status, "added") {
        "A"
    } else if str_eq(status, "removed") {
        "D"
    } else if str_eq(status, "renamed") {
        "R"
    } else if str_eq(status, "copied") {
        "C"
    } else {
        "?"
    }
}

// ------------------------------------------------------------------
// Listing entries, grouping and summaries
// ------------------------------------------------------------------

/// One file of a hunk listing.
#[derive(Debug, Clone)]
pub struct FileEntry {
    pub path: String,
    pub status: String,
    pub rename: Option<RenameInfo>,
    pub hunks: Vec<Hunk>,
    pub binary: Option<bool>,
    pub truncated: Option<bool>,
}

/// A named group of listing entries.
#[derive(Debug, Clone)]
pub struct ListGroup {
    pub name: String,
    pub files: Vec<FileEntry>,
}

/// One file of a summary listing: hunk count instead of hunks.
#[derive(Debug, Clone)]
pub struct FileSummary {
    pub path: String,
    pub status: String,
    pub rename: Option<RenameInfo>,
    pub hunk_count: usize,
    pub binary: Option<bool>,
    pub truncated: Option<bool>,
}

/// A named group of summary entries.
#[derive(Debug, Clone)]
pub struct ListSummaryGroup {
    pub name: String,
    pub files: Vec<FileSummary>,
}

/// A summary listing: flat, or grouped.
#[derive(Debug, Clone)]
pub struct ListSummaryOutput {
    pub files: Option<Vec<FileSummary>>,
    pub groups: Option<Vec<ListSummaryGroup>>,
}

/// The grouping key of a file: its directory, its extension, its status, or
/// one shared empty key.
pub open spec fn group_key(path: Seq<char>, status: Seq<char>, grouping: ListGrouping) -> Seq<
    char,
> {
    match grouping {
        ListGrouping::Directory => directory_group_spec(path),
        ListGrouping::Extension => extension_group_spec(path),
        ListGrouping::Status => status,
        ListGrouping::Ungrouped => Seq::empty(),
    }
}

/// Index of the first group with the given name, or -1.
pub open spec fn find_group<T>(groups: Seq<(Seq<char>, Seq<T>)>, name: Seq<char>) -> int
    decreases groups.len(),
{
    if groups.len() == 0 {
        -1
    } else if groups[0].0 == name {
        0
    } else {
        let rest = find_group(groups.skip(1), name);
        if rest == -1 {
            -1
        } else {
            rest + 1
        }
    }
}

proof fn lemma_find_group_prefix<T>(groups: Seq<(Seq<char>, Seq<T>)>, name: Seq<char>, k: int)
    requires
        0 <= k <= groups.len(),
        forall|j: int| 0 <= j < k ==> #[trigger] groups[j].0 != name,
    ensures
        k == groups.len() ==> find_group(groups, name) == -1,
        k < groups.len() && groups[k].0 == name ==> find_group(groups, name) == k,
    decreases k,
{
    if k > 0 {
        assert(groups[0].0 != name);
        assert(forall|j: int| 0 <= j < k - 1 ==> #[trigger] groups.skip(1)[j].0 != name);
        lemma_find_group_prefix(groups.skip(1), name, k - 1);
        if k < groups.len() {
            assert(groups.skip(1)[k - 1] == groups[k as int]);
        }
    }
}

/// Files folded into groups: each file joins the first group carrying its
/// key, and a new key opens a new group at the end; order is kept on both
/// levels.
pub open spec fn group_fold(files: Seq<FileEntry>, grouping: ListGrouping) -> Seq<
    (Seq<char>, Seq<FileEntry>),
>
    decreases files.len(),
{
    if files.len() == 0 {
        Seq::empty()
    } else {
        let prev = group_fold(files.drop_last(), grouping);
        let f = files.last();
        let key = group_key(f.path@, f.status@, grouping);
        let idx = find_group(prev, key);
        if idx == -1 {
            prev.push((key, seq![f]))
        } else {
            prev.update(idx, (key, prev[idx].1.push(f)))
        }
    }
}

pub open spec fn groups_view(groups: Seq<ListGroup>) -> Seq<(Seq<char>, Seq<FileEntry>)> {
    groups.map_values(|g: ListGroup| (g.name@, g.files@))
}

/// Computes the grouping key of one file.
fn group_key_of(path: &str, status: &str, grouping: ListGrouping) -> (r: String)
    ensures
        r@ == group_key(path@, status@, grouping),
{
    match grouping {
        ListGrouping::Directory => directory_group(path),
        ListGrouping::Extension => extension_group(path),
        ListGrouping::Status => status.to_owned(),
        ListGrouping::Ungrouped => String::new(),
    }
}


/// Finds the first group carrying `name` (see [`find_group`]).
fn find_group_pos(groups: &Vec<ListGroup>, name: &str) -> (r: Option<usize>)
    ensures
        match r {
            Some(p) => p < groups@.len() && find_group(groups_view(groups@), name@) == p as int
                && groups_view(groups@)[p as int].0 == name@,
            None => find_group(groups_view(groups@), name@) == -1,
        },
{
    let ghost gview = groups_view(groups@);
    let mut pos: usize = 0;
    while pos < groups.len()
        invariant
            pos <= groups@.len(),
            gview == groups_view(groups@),
            gview.len() == groups@.len(),
            forall|j: int| 0 <= j < pos ==> #[trigger] gview[j].0 != name@,
        decreases groups@.len() - pos,
    {
        if str_eq(groups[pos].name.as_str(), name) {
            proof {
                assert(gview[pos as int].0 == name@);
                lemma_find_group_prefix(gview, name@, pos as int);
            }
            return Some(pos);
        }
        pos = pos + 1;
    }
    proof {
        lemma_find_group_prefix(gview, name@, groups@.len() as int);
    }
    None
}

/// Groups listing entries by the chosen key, keeping encounter order of
/// groups and of files within each group (see [`group_fold`]).
pub fn group_files(files: Vec<FileEntry>, grouping: ListGrouping) -> (r: Vec<ListGroup>)
    ensures
        groups_view(r@) == group_fold(files@, grouping),
{
    let ghost orig = files@;
    let mut rest = files;
    let mut groups: Vec<ListGroup> = Vec::new();
    let mut i: usize = 0;
    let n = rest.len();
    proof {
        assert(rest@ =~= orig.skip(0));
        assert(orig.take(0) =~= Seq::<FileEntry>::empty());
        assert(groups_view(groups@) =~= Seq::<(Seq<char>, Seq<FileEntry>)>::empty());
    }
    while i < n
        invariant
            i <= n,
            n == orig.len(),
            rest@ == orig.skip(i as int),
            groups_view(groups@) == group_fold(orig.take(i as int), grouping),
        decreases n - i,
    {
        let file = rest.remove(0);
        proof {
            assert(file == orig[i as int]);
            assert(orig.skip(i as int).remove(0) =~= orig.skip(i + 1));
            assert(orig.take(i + 1).drop_last() =~= orig.take(i as int));
            assert(orig.take(i + 1).last() == orig[i as int]);
        }
        let key = group_key_of(file.path.as_str(), file.status.as_str(), grouping);
        let ghost gview = groups_view(groups@);
        if let Some(pos) = find_group_pos(&groups, key.as_str()) {
            let mut g = groups.remove(pos);
            let ghost gfiles = g.files@;
            g.files.push(file);
            let ghost g_new = g;
            groups.insert(pos, g);
            proof {
                assert(g_new.name@ == key@);
                assert(g_new.files@ == gfiles.push(orig[i as int]));
                assert(groups_view(groups@) =~= gview.update(
                    pos as int,
                    (key@, gfiles.push(orig[i as int])),
                ));
                assert(gview[pos as int].1 == gfiles);
            }
        } else {
            let g = ListGroup { name: key, files: vec![file] };
            let ghost g_new = g;
            groups.push(g);
            proof {
                assert(g_new.files@ =~= seq![orig[i as int]]);
                assert(groups_view(groups@) =~= gview.push((g_new.name@, g_new.files@)));
            }
        }
        i = i + 1;
    }
    proof {
        assert(orig.take(n as int) =~= orig);
    }
    groups
}

pub open spec fn summary_groups_view(groups: Seq<ListSummaryGroup>) -> Seq<
    (Seq<char>, Seq<FileSummary>),
> {
    groups.map_values(|g: ListSummaryGroup| (g.name@, g.files@))
}

/// Summaries folded into groups, exactly as [`group_fold`] folds entries.
pub open spec fn summary_group_fold(files: Seq<FileSummary>, grouping: ListGrouping) -> Seq<
    (Seq<char>, Seq<FileSummary>),
>
    decreases files.len(),
{
    if files.len() == 0 {
        Seq::empty()
    } else {
        let prev = summary_group_fold(files.drop_last(), grouping);
        let f = files.last();
        let key = group_key(f.path@, f.status@, grouping);
        let idx = find_group(prev, key);
        if idx == -1 {
            prev.push((key, seq![f]))
        } else {
            prev.update(idx, (key, prev[idx].1.push(f)))
        }
    }
}


/// Finds the first summary group carrying `name` (see [`find_group`]).
fn find_summary_group_pos(groups: &Vec<ListSummaryGroup>, name: &str) -> (r: Option<usize>)
    ensures
        match r {
            Some(p) => p < groups@.len() && find_group(summary_groups_view(groups@), name@)
                == p as int && summary_groups_view(groups@)[p as int].0 == name@,
            None => find_group(summary_groups_view(groups@), name@) == -1,
        },
{
    let ghost gview = summary_groups_view(groups@);
    let mut pos: usize = 0;
    while pos < groups.len()
        invariant
            pos <= groups@.len(),
            gview == summary_groups_view(groups@),
            gview.len() == groups@.len(),
            forall|j: int| 0 <= j < pos ==> #[trigger] gview[j].0 != name@,
        decreases groups@.len() - pos,
    {
        if str_eq(groups[pos].name.as_str(), name) {
            proof {
                assert(gview[pos as int].0 == name@);
                lemma_find_group_prefix(gview, name@, pos as int);
            }
            return Some(pos);
        }
        pos = pos + 1;
    }
    proof {
        lemma_find_group_prefix(gview, name@, groups@.len() as int);
    }
    None
}

/// Groups summary entries by the chosen key (see [`summary_group_fold`]).
pub fn group_summaries(files: Vec<FileSummary>, grouping: ListGrouping) -> (r: Vec<
    ListSummaryGroup,
>)
    ensures
        summary_groups_view(r@) == summary_group_fold(files@, grouping),
{
    let ghost orig = files@;
    let mut rest = files;
    let mut groups: Vec<ListSummaryGroup> = Vec::new();
    let mut i: usize = 0;
    let n = rest.len();
    proof {
        assert(rest@ =~= orig.skip(0));
        assert(orig.take(0) =~= Seq::<FileSummary>::empty());
        assert(summary_groups_view(groups@) =~= Seq::<(Seq<char>, Seq<FileSummary>)>::empty());
    }
    while i < n
        invariant
            i <= n,
            n == orig.len(),
            rest@ == orig.skip(i as int),
            summary_groups_view(groups@) == summary_group_fold(orig.take(i as int), grouping),
        decreases n - i,
    {
        let file = rest.remove(0);
        proof {
            assert(file == orig[i as int]);
            assert(orig.skip(i as int).remove(0) =~= orig.skip(i + 1));
            assert(orig.take(i + 1).drop_last() =~= orig.take(i as int));
            assert(orig.take(i + 1).last() == orig[i as int]);
        }
        let key = group_key_of(file.path.as_str(), file.status.as_str(), grouping);
        let ghost gview = summary_groups_view(groups@);
        if let Some(pos) = find_summary_group_pos(&groups, key.as_str()) {
            let mut g = groups.remove(pos);
            let ghost gfiles = g.files@;
            g.files.push(file);
            let ghost g_new = g;
            groups.insert(pos, g);
            proof {
                assert(g_new.name@ == key@);
                assert(g_new.files@ == gfiles.push(orig[i as int]));
                assert(summary_groups_view(groups@) =~= gview.update(
                    pos as int,
                    (key@, gfiles.push(orig[i as int])),
                ));
                assert(gview[pos as int].1 == gfiles);
            }
        } else {
            let g = ListSummaryGroup { name: key, files: vec![file] };
            let ghost g_new = g;
            groups.push(g);
            proof {
                assert(g_new.files@ =~= seq![orig[i as int]]);
                assert(summary_groups_view(groups@) =~= gview.push((g_new.name@, g_new.files@)));
            }
        }
        i = i + 1;
    }
    proof {
        assert(orig.take(n as int) =~= orig);
    }
    groups
}

/// The summary of one listing entry: the same fields with the hunk list
/// replaced by its count.
pub open spec fn summary_of(f: FileEntry, s: FileSummary) -> bool {
    &&& s.path@ == f.path@
    &&& s.status@ == f.status@
    &&& (match (s.rename, f.rename) {
        (Some(a), Some(b)) => a.from@ == b.from@ && a.to@ == b.to@,
        (None, None) => true,
        _ => false,
    })
    &&& s.hunk_count == f.hunks@.len()
    &&& s.binary == f.binary
    &&& s.truncated == f.truncated
}

/// Replaces each entry's hunks by their count, and groups the summaries when
/// a grouping is chosen: ungrouped output carries the flat list, grouped
/// output only the groups.
pub fn build_summary_output(files: Vec<FileEntry>, grouping: ListGrouping) -> (r: ListSummaryOutput)
    ensures
        grouping == ListGrouping::Ungrouped ==> ({
            &&& r.groups is None
            &&& r.files matches Some(v) && v@.len() == files@.len() && (forall|k: int|
                0 <= k < v@.len() ==> summary_of(#[trigger] files@[k], v@[k]))
        }),
        grouping != ListGrouping::Ungrouped ==> ({
            &&& r.files is None
            &&& r.groups matches Some(gs) && exists|sv: Seq<FileSummary>|
                sv.len() == files@.len() && (forall|k: int|
                    0 <= k < sv.len() ==> summary_of(#[trigger] files@[k], sv[k]))
                    && summary_groups_view(gs@) == summary_group_fold(sv, grouping)
        }),
{
    let ghost orig = files@;
    let mut rest = files;
    let mut summaries: Vec<FileSummary> = Vec::new();
    let mut i: usize = 0;
    let n = rest.len();
    proof {
        assert(rest@ =~= orig.skip(0));
    }
    while i < n
        invariant
            i <= n,
            n == orig.len(),
            rest@ == orig.skip(i as int),
            summaries@.len() == i,
            forall|k: int| 0 <= k < i ==> summary_of(#[trigger] orig[k], summaries@[k]),
        decreases n - i,
    {
        let file = rest.remove(0);
        proof {
            assert(file == orig[i as int]);
            assert(orig.skip(i as int).remove(0) =~= orig.skip(i + 1));
        }
        let hunk_count = file.hunks.len();
        summaries.push(
            FileSummary {
                path: file.path,
                status: file.status,
                rename: file.rename,
                hunk_count,
                binary: file.binary,
                truncated: file.truncated,
            },
        );
        i = i + 1;
    }
    match grouping {
        ListGrouping::Ungrouped => ListSummaryOutput { files: Some(summaries), groups: None },
        _ => {
            let ghost sv = summaries@;
            let groups = group_summaries(summaries, grouping);
            ListSummaryOutput { files: None, groups: Some(groups) }
        },
    }
}

// ------------------------------------------------------------------
// Spec templates
// ------------------------------------------------------------------

/// One entry of a generated spec template: the identifiers of a file's
/// hunks, or a plain action for a binary file.
#[derive(Debug, Clone)]
pub enum SpecTemplateEntry {
    Ids { ids: Vec<String> },
    Action { action: String },
}

/// A generated spec template: every listed file selects all its hunks by
/// identifier, binary files are kept whole, and everything else is reset.
#[derive(Debug, Clone)]
pub struct SpecTemplateOutput {
    pub files: Vec<(String, SpecTemplateEntry)>,
    pub default: String,
}

/// The mathematical value of a template entry.
pub enum TemplateEntryView {
    Ids(Seq<Seq<char>>),
    Action(Seq<char>),
}

pub open spec fn template_entry_view(e: SpecTemplateEntry) -> TemplateEntryView {
    match e {
        SpecTemplateEntry::Ids { ids } => TemplateEntryView::Ids(ids.deep_view()),
        SpecTemplateEntry::Action { action } => TemplateEntryView::Action(action@),
    }
}

pub open spec fn template_view(files: Seq<(String, SpecTemplateEntry)>) -> Seq<
    (Seq<char>, TemplateEntryView),
> {
    files.map_values(|p: (String, SpecTemplateEntry)| (p.0@, template_entry_view(p.1)))
}

pub open spec fn hunk_ids_of(hs: Seq<Hunk>) -> Seq<Seq<char>> {
    hs.map_values(|h: Hunk| h.id@)
}

/// Files folded into a template: a file with hunks contributes their
/// identifiers; a binary file without hunks contributes a keep action; other
/// files contribute nothing.
pub open spec fn template_fold(files: Seq<FileEntry>) -> Seq<(Seq<char>, TemplateEntryView)>
    decreases files.len(),
{
    if files.len() == 0 {
        Seq::empty()
    } else {
        let prev = template_fold(files.drop_last());
        let f = files.last();
        if f.hunks@.len() == 0 {
            if f.binary == Some(true) {
                prev.push((f.path@, TemplateEntryView::Action("keep"@)))
            } else {
                prev
            }
        } else {
            prev.push((f.path@, TemplateEntryView::Ids(hunk_ids_of(f.hunks@))))
        }
    }
}

/// Builds a spec template from a listing: each file with hunks selects all
/// of them by identifier, binary files are kept, and the default is reset.
pub fn build_spec_template(files: Vec<FileEntry>) -> (r: SpecTemplateOutput)
    ensures
        template_view(r.files@) == template_fold(files@),
        r.default@ == "reset"@,
{
    let ghost orig = files@;
    let mut rest = files;
    let mut out: Vec<(String, SpecTemplateEntry)> = Vec::new();
    let mut i: usize = 0;
    let n = rest.len();
    proof {
        assert(rest@ =~= orig.skip(0));
        assert(orig.take(0) =~= Seq::<FileEntry>::empty());
        assert(template_view(out@) =~= Seq::<(Seq<char>, TemplateEntryView)>::empty());
    }
    while i < n
        invariant
            i <= n,
            n == orig.len(),
            rest@ == orig.skip(i as int),
            template_view(out@) == template_fold(orig.take(i as int)),
        decreases n - i,
    {
        let file = rest.remove(0);
        proof {
            assert(file == orig[i as int]);
            assert(orig.skip(i as int).remove(0) =~= orig.skip(i + 1));
            assert(orig.take(i + 1).drop_last() =~= orig.take(i as int));
            assert(orig.take(i + 1).last() == orig[i as int]);
        }
        if file.hunks.len() == 0 {
            let is_binary = match file.binary {
                Some(b) => b,
                None => false,
            };
            if is_binary {
                let ghost old_view = template_view(out@);
                let entry = SpecTemplateEntry::Action { action: String::from_str("keep") };
                let ghost entry_ghost = entry;
                out.push((file.path, entry));
                proof {
                    assert(template_view(out@) =~= old_view.push(
                        (orig[i as int].path@, template_entry_view(entry_ghost)),
                    ));
                }
            }
        } else {
            let ghost hunks_orig = file.hunks@;
            let mut hunks = file.hunks;
            let mut ids: Vec<String> = Vec::new();
            let mut k: usize = 0;
            let m = hunks.len();
            proof {
                assert(hunks@ =~= hunks_orig.skip(0));
                assert(ids.deep_view() =~= hunk_ids_of(hunks_orig.take(0)));
            }
            while k < m
                invariant
                    k <= m,
                    m == hunks_orig.len(),
                    hunks@ == hunks_orig.skip(k as int),
                    ids.deep_view() == hunk_ids_of(hunks_orig.take(k as int)),
                decreases m - k,
            {
                let h = hunks.remove(0);
                proof {
                    assert(h == hunks_orig[k as int]);
                    assert(hunks_orig.skip(k as int).remove(0) =~= hunks_orig.skip(k + 1));
                }
                let ghost old_ids = ids.deep_view();
                ids.push(h.id);
                proof {
                    assert(ids.deep_view() =~= old_ids.push(hunks_orig[k as int].id@));
                    assert(hunk_ids_of(hunks_orig.take(k + 1)) =~= hunk_ids_of(
                        hunks_orig.take(k as int),
                    ).push(hunks_orig[k as int].id@));
                }
                k = k + 1;
            }
            proof {
                assert(hunks_orig.take(m as int) =~= hunks_orig);
            }
            let ghost old_view = template_view(out@);
            let entry = SpecTemplateEntry::Ids { ids };
            let ghost entry_ghost = entry;
            out.push((file.path, entry));
            proof {
                assert(template_view(out@) =~= old_view.push(
                    (orig[i as int].path@, template_entry_view(entry_ghost)),
                ));
            }
        }
        i = i + 1;
    }
    proof {
        assert(orig.take(n as int) =~= orig);
        reveal_strlit("reset");
    }
    SpecTemplateOutput { files: out, default: String::from_str("reset") }
}

// ------------------------------------------------------------------
// Command argument lists
// ------------------------------------------------------------------

/// A fault in the spec/message arguments of a command.
#[derive(Debug, Clone, Copy, PartialEq, Eq, Structural)]
pub enum SpecArgError {
    MissingMessage,
    SpecBesideSpecFile,
    MissingSpec,
}

/// Sorts out the positional spec and message arguments of a command that
/// takes both: with a spec file and no message, the single positional
/// argument is the message; a message is always required; beside a spec
/// file no inline spec may stand, without one it must.
pub fn normalize_spec_message(spec: Option<String>, message: Option<String>, spec_file_given: bool) -> (r: Result<
    (Option<String>, String),
    SpecArgError,
>)
    ensures
        ({
            let shifted = spec_file_given && message is None;
            let msg = if shifted {
                spec
            } else {
                message
            };
            let sp: Option<String> = if shifted {
                None
            } else {
                spec
            };
            match msg {
                None => r == Err::<(Option<String>, String), SpecArgError>(
                    SpecArgError::MissingMessage,
                ),
                Some(m) => if spec_file_given {
                    if sp is Some {
                        r == Err::<(Option<String>, String), SpecArgError>(
                            SpecArgError::SpecBesideSpecFile,
                        )
                    } else {
                        r matches Ok(p) && p.0 is None && p.1@ == m@
                    }
                } else {
                    match sp {
                        None => r == Err::<(Option<String>, String), SpecArgError>(
                            SpecArgError::MissingSpec,
                        ),
                        Some(s) => r matches Ok(p) && (p.0 matches Some(ps) && ps@ == s@) && p.1@
                            == m@,
                    }
                },
            }
        }),
{
    let shifted = spec_file_given && message.is_none();
    let (sp, msg) = if shifted {
        (None, spec)
    } else {
        (spec, message)
    };
    let m = match msg {
        Some(m) => m,
        None => {
            return Err(SpecArgError::MissingMessage);
        },
    };
    if spec_file_given {
        if sp.is_some() {
            return Err(SpecArgError::SpecBesideSpecFile);
        }
        return Ok((None, m));
    }
    match sp {
        Some(s) => Ok((Some(s), m)),
        None => Err(SpecArgError::MissingSpec),
    }
}

/// Sorts out the spec argument of a command without a message: beside a
/// spec file no inline spec may stand, without one it must.
pub fn normalize_spec_only(spec: Option<String>, spec_file_given: bool) -> (r: Result<
    Option<String>,
    SpecArgError,
>)
    ensures
        spec_file_given && spec is Some ==> r == Err::<Option<String>, SpecArgError>(
            SpecArgError::SpecBesideSpecFile,
        ),
        spec_file_given && spec is None ==> (r matches Ok(p) && p is None),
        !spec_file_given && spec is None ==> r == Err::<Option<String>, SpecArgError>(
            SpecArgError::MissingSpec,
        ),
        !spec_file_given && spec is Some ==> (r matches Ok(p) && p matches Some(ps) && ps@
            == spec.unwrap()@),
{
    if spec_file_given {
        if spec.is_some() {
            return Err(SpecArgError::SpecBesideSpecFile);
        }
        return Ok(None);
    }
    match spec {
        Some(s) => Ok(Some(s)),
        None => Err(SpecArgError::MissingSpec),
    }
}

/// The revisions whose contents a listing compares: the parent of the named
/// revision against the revision itself, or the working copy's parent
/// against the working copy.
pub fn resolve_revisions(revset: Option<&str>) -> (r: (Option<String>, Option<String>))
    ensures
        match revset {
            Some(rv) => ({
                &&& r.0 matches Some(b) && b@ == "("@ + rv@ + ")^"@
                &&& r.1 matches Some(a) && a@ == rv@
            }),
            None => ({
                &&& r.0 matches Some(b) && b@ == "@-"@
                &&& r.1 is None
            }),
        },
{
    match revset {
        Some(rv) => {
            let mut before = String::from_str("(");
            before.append(rv);
            before.append(")^");
            (Some(before), Some(String::from_str(rv)))
        },
        None => (Some(String::from_str("@-")), None),
    }
}

/// The arguments of a split of the given revision (or the working copy) with
/// the given message, handing hunk selection to this tool.
pub fn split(message: &str, rev: Option<&str>) -> (r: Vec<String>)
    ensures
        r.deep_view() == (match rev {
            Some(rv) => seq!["split"@, "--tool=jj-hunk"@, "-m"@, message@, "-r"@, rv@],
            None => seq!["split"@, "--tool=jj-hunk"@, "-m"@, message@],
        }),
{
    let mut args: Vec<String> = Vec::new();
    args.push(String::from_str("split"));
    args.push(String::from_str("--tool=jj-hunk"));
    args.push(String::from_str("-m"));
    args.push(String::from_str(message));
    match rev {
        Some(rv) => {
            args.push(String::from_str("-r"));
            args.push(String::from_str(rv));
            proof {
                assert(args.deep_view() =~= seq![
                    "split"@,
                    "--tool=jj-hunk"@,
                    "-m"@,
                    message@,
                    "-r"@,
                    rv@,
                ]);
            }
        },
        None => {
            proof {
                assert(args.deep_view() =~= seq!["split"@, "--tool=jj-hunk"@, "-m"@, message@]);
            }
        },
    }
    args
}

/// The arguments of an interactive commit with the given message, handing
/// hunk selection to this tool.
pub fn commit(message: &str) -> (r: Vec<String>)
    ensures
        r.deep_view() == seq!["commit"@, "-i"@, "--tool=jj-hunk"@, "-m"@, message@],
{
    let mut args: Vec<String> = Vec::new();
    args.push(String::from_str("commit"));
    args.push(String::from_str("-i"));
    args.push(String::from_str("--tool=jj-hunk"));
    args.push(String::from_str("-m"));
    args.push(String::from_str(message));
    proof {
        assert(args.deep_view() =~= seq!["commit"@, "-i"@, "--tool=jj-hunk"@, "-m"@, message@]);
    }
    args
}

/// The arguments of an interactive squash of the given revision (or the
/// working copy), handing hunk selection to this tool.
pub fn squash(rev: Option<&str>) -> (r: Vec<String>)
    ensures
        r.deep_view() == (match rev {
            Some(rv) => seq!["squash"@, "-i"@, "--tool=jj-hunk"@, "-r"@, rv@],
            None => seq!["squash"@, "-i"@, "--tool=jj-hunk"@],
        }),
{
    let mut args: Vec<String> = Vec::new();
    args.push(String::from_str("squash"));
    args.push(String::from_str("-i"));
    args.push(String::from_str("--tool=jj-hunk"));
    match rev {
        Some(rv) => {
            args.push(String::from_str("-r"));
            args.push(String::from_str(rv));
            proof {
                assert(args.deep_view() =~= seq!["squash"@, "-i"@, "--tool=jj-hunk"@, "-r"@, rv@]);
            }
        },
        None => {
            proof {
                assert(args.deep_view() =~= seq!["squash"@, "-i"@, "--tool=jj-hunk"@]);
            }
        },
    }
    args
}

} // verus!
