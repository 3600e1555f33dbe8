//! The hunk engine: extraction of hunks from the line edit script between two
//! texts, and selective reconstruction of an output text from a chosen subset
//! of hunks.  Both passes replay the same deterministic edit script, so the
//! indices and identities seen by a selection are stable between them.

use vstd::prelude::*;
use crate::lines::{line_count, lines_of, count_lines, split_lines_with_endings, lemma_line_count_le_len};
use crate::ident::hunk_id_spec;
use crate::ident::hash_hunk_id;
use crate::strutil::str_eq;

verus! {

// ------------------------------------------------------------------
// The edit script
// ------------------------------------------------------------------

/// The tag of one edit-script operation.
#[derive(Debug, Clone, Copy, PartialEq, Eq, Structural)]
pub enum EditTag {
    Equal,
    Delete,
    Insert,
}

/// One operation of a line-level edit script: a tag and the exact text
/// (with line terminators) the operation covers.
#[derive(Debug, Clone)]
pub struct EditOp {
    pub tag: EditTag,
    pub text: String,
}

pub open spec fn tag_code(t: EditTag) -> int {
    match t {
        EditTag::Equal => 0,
        EditTag::Delete => 1,
        EditTag::Insert => 2,
    }
}

/// The mathematical view of an edit script: tag codes paired with texts.
pub open spec fn ops_view(ops: Seq<EditOp>) -> Seq<(int, Seq<char>)> {
    ops.map_values(|op: EditOp| (tag_code(op.tag), op.text@))
}

/// The line edit script that the differ computes for a text pair; a pure
/// function of the two texts.
pub uninterp spec fn edit_script_of(before: Seq<char>, after: Seq<char>) -> Seq<(int, Seq<char>)>;

/// Concatenation of the texts of the `Equal` and `Delete` operations:
/// the before text.
pub open spec fn script_before(script: Seq<(int, Seq<char>)>) -> Seq<char>
    decreases script.len(),
{
    if script.len() == 0 {
        Seq::empty()
    } else {
        script_before(script.drop_last()) + if script.last().0 == 0 || script.last().0 == 1 {
            script.last().1
        } else {
            Seq::empty()
        }
    }
}

/// Concatenation of the texts of the `Equal` and `Insert` operations:
/// the after text.
pub open spec fn script_after(script: Seq<(int, Seq<char>)>) -> Seq<char>
    decreases script.len(),
{
    if script.len() == 0 {
        Seq::empty()
    } else {
        script_after(script.drop_last()) + if script.last().0 != 1 {
            script.last().1
        } else {
            Seq::empty()
        }
    }
}

/// Relies on `similar::TextDiff::from_lines` and `iter_all_changes`: the diff
/// is a pure function of the two texts; its ops cover both inputs in order,
/// so the `Equal`/`Delete` values concatenate to the before text and the
/// `Equal`/`Insert` values concatenate to the after text, line terminators
/// included; every change carries exactly one line token, which is never
/// empty.
#[verifier::external_body]
fn diff_lines(before: &str, after: &str) -> (r: Vec<EditOp>)
    ensures
        ops_view(r@) == edit_script_of(before@, after@),
        script_before(ops_view(r@)) == before@,
        script_after(ops_view(r@)) == after@,
        forall|k: int| 0 <= k < r@.len() ==> (#[trigger] r@[k]).text@.len() > 0,
{
    let diff = similar::TextDiff::from_lines(before, after);
    let mut ops: Vec<EditOp> = Vec::new();
    for change in diff.iter_all_changes() {
        let tag = match change.tag() {
            similar::ChangeTag::Equal => EditTag::Equal,
            similar::ChangeTag::Delete => EditTag::Delete,
            similar::ChangeTag::Insert => EditTag::Insert,
        };
        ops.push(EditOp { tag, text: change.value().to_string() });
    }
    ops
}

// ------------------------------------------------------------------
// Hunks and their model
// ------------------------------------------------------------------

/// A contiguous span of lines: 1-based starting line and line count.
/// A zero length marks a pure insertion (before side) or pure deletion
/// (after side) located at `start`.
#[derive(Debug, Clone, Copy)]
pub struct LineRange {
    pub start: usize,
    pub length: usize,
}

/// Unchanged lines of the before text around a hunk, used only to
/// strengthen the hunk's identity.
#[derive(Debug, Clone)]
pub struct HunkContext {
    pub before: String,
    pub after: String,
}

/// One maximal run of non-equal line changes between two texts.
#[derive(Debug, Clone)]
pub struct Hunk {
    pub index: usize,
    pub id: String,
    pub hunk_type: String,
    pub removed: String,
    pub added: String,
    pub before_range: LineRange,
    pub after_range: LineRange,
    pub context: Option<HunkContext>,
}

/// The mathematical value of a hunk.
pub struct SpecHunk {
    pub index: int,
    pub id: Seq<char>,
    pub kind: Seq<char>,
    pub removed: Seq<char>,
    pub added: Seq<char>,
    pub before_start: int,
    pub before_len: int,
    pub after_start: int,
    pub after_len: int,
    pub context: Option<(Seq<char>, Seq<char>)>,
}

impl View for Hunk {
    type V = SpecHunk;

    open spec fn view(&self) -> SpecHunk {
        SpecHunk {
            index: self.index as int,
            id: self.id@,
            kind: self.hunk_type@,
            removed: self.removed@,
            added: self.added@,
            before_start: self.before_range.start as int,
            before_len: self.before_range.length as int,
            after_start: self.after_range.start as int,
            after_len: self.after_range.length as int,
            context: match self.context {
                Some(ref c) => Some((c.before@, c.after@)),
                None => None,
            },
        }
    }
}

pub open spec fn hunks_view(s: Seq<Hunk>) -> Seq<SpecHunk> {
    s.map_values(|h: Hunk| h@)
}

/// The kind of a hunk, from the emptiness of its two texts: an empty removed
/// text is an insertion, an empty added text a deletion, anything else a
/// replacement.
pub open spec fn kind_of(removed: Seq<char>, added: Seq<char>) -> Seq<char> {
    if removed.len() == 0 && added.len() > 0 {
        "insert"@
    } else if removed.len() > 0 && added.len() == 0 {
        "delete"@
    } else {
        "replace"@
    }
}

/// Classifies a hunk from its removed and added text (see [`kind_of`]).
pub fn determine_hunk_type(removed: &str, added: &str) -> (r: &'static str)
    ensures
        r@ == kind_of(removed@, added@),
{
    if removed.is_empty() && !added.is_empty() {
        "insert"
    } else if !removed.is_empty() && added.is_empty() {
        "delete"
    } else {
        "replace"
    }
}

// ------------------------------------------------------------------
// Context windows
// ------------------------------------------------------------------

/// Number of unchanged lines captured on each side of a hunk.
pub const CONTEXT_LINES: usize = 3;

pub open spec fn int_min(a: int, b: int) -> int {
    if a < b {
        a
    } else {
        b
    }
}

pub open spec fn int_max(a: int, b: int) -> int {
    if a > b {
        a
    } else {
        b
    }
}

/// Concatenation of a sequence of lines.
pub open spec fn concat_lines(ls: Seq<Seq<char>>) -> Seq<char>
    decreases ls.len(),
{
    if ls.len() == 0 {
        Seq::empty()
    } else {
        concat_lines(ls.drop_last()) + ls.last()
    }
}

/// The context of a hunk whose before range starts at 1-based line `start`
/// and spans `len` lines: up to [`CONTEXT_LINES`] unchanged lines right
/// before and right after the range, clipped at the text boundaries.  Absent
/// when the text has no lines, or when both windows come out empty.
pub open spec fn context_of(lines: Seq<Seq<char>>, start: int, len: int) -> Option<
    (Seq<char>, Seq<char>),
> {
    if lines.len() == 0 {
        None
    } else {
        let start_idx = int_min(int_max(start - 1, 0), lines.len() as int);
        let pre_start = int_max(start_idx - CONTEXT_LINES as int, 0);
        let post_start = int_min(start_idx + len, lines.len() as int);
        let post_end = int_min(post_start + CONTEXT_LINES as int, lines.len() as int);
        if start_idx - pre_start == 0 && post_end - post_start == 0 {
            None
        } else {
            Some(
                (
                    concat_lines(lines.subrange(pre_start, start_idx)),
                    concat_lines(lines.subrange(post_start, post_end)),
                ),
            )
        }
    }
}

/// Concatenates the lines `[from, to)` of `lines`.
pub fn concat_line_range(lines: &Vec<String>, from: usize, to: usize) -> (r: String)
    requires
        from <= to <= lines@.len(),
    ensures
        r@ == concat_lines(lines.deep_view().subrange(from as int, to as int)),
{
    let ghost dv = lines.deep_view();
    let mut out = String::new();
    let mut k: usize = from;
    proof {
        assert(dv.subrange(from as int, from as int) =~= Seq::<Seq<char>>::empty());
    }
    while k < to
        invariant
            from <= k <= to <= lines@.len(),
            dv == lines.deep_view(),
            dv.len() == lines@.len(),
            out@ == concat_lines(dv.subrange(from as int, k as int)),
        decreases to - k,
    {
        proof {
            assert(dv.subrange(from as int, k + 1).drop_last() =~= dv.subrange(
                from as int,
                k as int,
            ));
            assert(dv.subrange(from as int, k + 1).last() == dv[k as int]);
            assert(dv[k as int] == lines@[k as int]@);
        }
        out.append(lines[k].as_str());
        k = k + 1;
    }
    out
}

/// Builds the context window of a hunk (see [`context_of`]).
pub fn build_context(before_lines: &Vec<String>, start: usize, length: usize) -> (r: Option<
    HunkContext,
>)
    ensures
        (match r {
            Some(c) => Some((c.before@, c.after@)),
            None => None,
        }) == context_of(before_lines.deep_view(), start as int, length as int),
{
    let n = before_lines.len();
    if n == 0 {
        return None;
    }
    let s0: usize = if start >= 1 {
        start - 1
    } else {
        0
    };
    let start_idx: usize = if s0 > n {
        n
    } else {
        s0
    };
    let pre_start: usize = if start_idx > CONTEXT_LINES {
        start_idx - CONTEXT_LINES
    } else {
        0
    };
    let post_start: usize = if length > n - start_idx {
        n
    } else {
        start_idx + length
    };
    let post_end: usize = if n - post_start > CONTEXT_LINES {
        post_start + CONTEXT_LINES
    } else {
        n
    };
    if pre_start == start_idx && post_start == post_end {
        return None;
    }
    let pre = concat_line_range(before_lines, pre_start, start_idx);
    let post = concat_line_range(before_lines, post_start, post_end);
    Some(HunkContext { before: pre, after: post })
}

// ------------------------------------------------------------------
// The extraction state machine
// ------------------------------------------------------------------

/// The state of one replay of the edit script: the hunks closed so far, the
/// open hunk's accumulating texts and spans, and the running 1-based line
/// counters of both texts.
pub struct ExtState {
    pub hunks: Seq<SpecHunk>,
    pub removed: Seq<char>,
    pub added: Seq<char>,
    pub in_hunk: bool,
    pub before_line: int,
    pub after_line: int,
    pub h_before_start: int,
    pub h_after_start: int,
    pub h_before_len: int,
    pub h_after_len: int,
}

pub open spec fn ext_init() -> ExtState {
    ExtState {
        hunks: Seq::empty(),
        removed: Seq::empty(),
        added: Seq::empty(),
        in_hunk: false,
        before_line: 1,
        after_line: 1,
        h_before_start: 0,
        h_after_start: 0,
        h_before_len: 0,
        h_after_len: 0,
    }
}

/// The hunk that closing the open hunk of a state yields.
pub open spec fn closed_hunk(
    index: int,
    removed: Seq<char>,
    added: Seq<char>,
    lines: Seq<Seq<char>>,
    before_start: int,
    after_start: int,
    before_len: int,
    after_len: int,
) -> SpecHunk {
    let kind = kind_of(removed, added);
    let ctx = context_of(lines, before_start, before_len);
    SpecHunk {
        index,
        id: hunk_id_spec(kind, removed, added, ctx),
        kind,
        removed,
        added,
        before_start,
        before_len,
        after_start,
        after_len,
        context: ctx,
    }
}

/// Closes the open hunk: appends it to the closed hunks and clears the
/// accumulators.
pub open spec fn close_hunk(st: ExtState, lines: Seq<Seq<char>>) -> ExtState {
    ExtState {
        hunks: st.hunks.push(
            closed_hunk(
                st.hunks.len() as int,
                st.removed,
                st.added,
                lines,
                st.h_before_start,
                st.h_after_start,
                st.h_before_len,
                st.h_after_len,
            ),
        ),
        removed: Seq::empty(),
        added: Seq::empty(),
        in_hunk: false,
        h_before_len: 0,
        h_after_len: 0,
        ..st
    }
}

/// Marks the state as inside a hunk that starts at the current line counters.
pub open spec fn open_hunk(st: ExtState) -> ExtState {
    if st.in_hunk {
        st
    } else {
        ExtState {
            in_hunk: true,
            h_before_start: st.before_line,
            h_after_start: st.after_line,
            h_before_len: 0,
            h_after_len: 0,
            ..st
        }
    }
}

/// One step of the replay: an `Equal` operation closes the open hunk (if
/// any) and advances both line counters; `Delete` and `Insert` open a hunk
/// if none is open, extend its text and span, and advance their side's
/// counter.
pub open spec fn ext_step(st: ExtState, op: (int, Seq<char>), lines: Seq<Seq<char>>) -> ExtState {
    let n = line_count(op.1);
    if op.0 == 0 {
        let st1 = if st.in_hunk {
            close_hunk(st, lines)
        } else {
            st
        };
        ExtState { before_line: st1.before_line + n, after_line: st1.after_line + n, ..st1 }
    } else if op.0 == 1 {
        let st1 = open_hunk(st);
        ExtState {
            removed: st1.removed + op.1,
            h_before_len: st1.h_before_len + n,
            before_line: st1.before_line + n,
            ..st1
        }
    } else {
        let st1 = open_hunk(st);
        ExtState {
            added: st1.added + op.1,
            h_after_len: st1.h_after_len + n,
            after_line: st1.after_line + n,
            ..st1
        }
    }
}

pub open spec fn ext_run(script: Seq<(int, Seq<char>)>, lines: Seq<Seq<char>>) -> ExtState
    decreases script.len(),
{
    if script.len() == 0 {
        ext_init()
    } else {
        ext_step(ext_run(script.drop_last(), lines), script.last(), lines)
    }
}

/// Closes a hunk still open at the end of the script.
pub open spec fn ext_finish(st: ExtState, lines: Seq<Seq<char>>) -> ExtState {
    if st.in_hunk {
        close_hunk(st, lines)
    } else {
        st
    }
}

/// The hunks of an edit script over a before text with the given lines.
pub open spec fn extract_spec(script: Seq<(int, Seq<char>)>, lines: Seq<Seq<char>>) -> Seq<
    SpecHunk,
> {
    ext_finish(ext_run(script, lines), lines).hunks
}

/// The hunks of a text pair.
pub open spec fn spec_hunks(before: Seq<char>, after: Seq<char>) -> Seq<SpecHunk> {
    extract_spec(edit_script_of(before, after), lines_of(before))
}

// ------------------------------------------------------------------
// Well-formedness of replay states
// ------------------------------------------------------------------

pub open spec fn ext_wf(st: ExtState) -> bool {
    &&& 1 <= st.before_line
    &&& 1 <= st.after_line
    &&& 0 <= st.h_before_len
    &&& 0 <= st.h_after_len
    &&& (!st.in_hunk ==> st.removed.len() == 0 && st.added.len() == 0)
    &&& (st.in_hunk ==> 1 <= st.h_before_start && st.h_before_start + st.h_before_len
        == st.before_line)
    &&& (st.in_hunk ==> 1 <= st.h_after_start && st.h_after_start + st.h_after_len
        == st.after_line)
}

pub proof fn lemma_ext_run_wf(script: Seq<(int, Seq<char>)>, lines: Seq<Seq<char>>)
    ensures
        ext_wf(ext_run(script, lines)),
        ext_run(script, lines).before_line <= 1 + script_before(script).len(),
        ext_run(script, lines).after_line <= 1 + script_after(script).len(),
        ext_run(script, lines).hunks.len() <= script.len(),
    decreases script.len(),
{
    if script.len() > 0 {
        let prev = script.drop_last();
        let op = script.last();
        lemma_ext_run_wf(prev, lines);
        lemma_line_count_le_len(op.1);
    }
}

/// A prefix of the script leaves the before text no longer than the whole
/// script does; likewise for the after text.
pub proof fn lemma_script_prefix_len(script: Seq<(int, Seq<char>)>, i: int)
    requires
        0 <= i <= script.len(),
    ensures
        script_before(script.take(i)).len() <= script_before(script).len(),
        script_after(script.take(i)).len() <= script_after(script).len(),
    decreases script.len(),
{
    if i == script.len() {
        assert(script.take(i) =~= script);
    } else {
        let prev = script.drop_last();
        assert(prev.take(i) =~= script.take(i));
        lemma_script_prefix_len(prev, i);
    }
}

/// Unfolds one step of `ext_run` on a prefix.
pub proof fn lemma_ext_take_step(script: Seq<(int, Seq<char>)>, i: int, lines: Seq<Seq<char>>)
    requires
        0 <= i < script.len(),
    ensures
        ext_run(script.take(i + 1), lines) == ext_step(ext_run(script.take(i), lines), script[i], lines),
        script_before(script.take(i + 1)) == script_before(script.take(i)) + (if script[i].0 == 0
            || script[i].0 == 1 {
            script[i].1
        } else {
            Seq::<char>::empty()
        }),
        script_after(script.take(i + 1)) == script_after(script.take(i)) + (if script[i].0 != 1 {
            script[i].1
        } else {
            Seq::<char>::empty()
        }),
{
    assert(script.take(i + 1).drop_last() =~= script.take(i));
    assert(script.take(i + 1).last() == script[i]);
}

/// Does every operation of the script carry text?
pub open spec fn script_nonempty(script: Seq<(int, Seq<char>)>) -> bool {
    forall|k: int| 0 <= k < script.len() ==> (#[trigger] script[k]).1.len() > 0
}

/// The shape every extracted hunk list has: indices count up from 0, the
/// removed and added texts are never both empty, the before ranges start at
/// line 1 or later, and successive hunks neither overlap nor run backwards.
pub open spec fn hunks_ordered(hs: Seq<SpecHunk>) -> bool {
    &&& (forall|k: int| 0 <= k < hs.len() ==> (#[trigger] hs[k]).index == k)
    &&& (forall|k: int|
        0 <= k < hs.len() ==> (#[trigger] hs[k]).removed.len() + hs[k].added.len() > 0)
    &&& (forall|k: int| 0 <= k < hs.len() ==> 1 <= (#[trigger] hs[k]).before_start)
    &&& (forall|k: int| 0 <= k < hs.len() ==> 0 <= (#[trigger] hs[k]).before_len)
    &&& (forall|k: int|
        0 <= k < hs.len() - 1 ==> (#[trigger] hs[k]).before_start + hs[k].before_len <= hs[k
            + 1].before_start)
}

/// The end of the before text covered by the closed hunks, as the replay
/// carries it.
pub open spec fn ext_ordered(st: ExtState) -> bool {
    &&& hunks_ordered(st.hunks)
    &&& (forall|k: int|
        0 <= k < st.hunks.len() ==> (#[trigger] st.hunks[k]).before_start
            + st.hunks[k].before_len <= (if st.in_hunk {
            st.h_before_start
        } else {
            st.before_line
        }))
    &&& (st.in_hunk ==> st.removed.len() + st.added.len() > 0)
}

proof fn lemma_ext_run_ordered(script: Seq<(int, Seq<char>)>, lines: Seq<Seq<char>>)
    requires
        script_nonempty(script),
    ensures
        ext_ordered(ext_run(script, lines)),
    decreases script.len(),
{
    lemma_ext_run_wf(script, lines);
    if script.len() > 0 {
        let prev = script.drop_last();
        let op = script.last();
        assert(script_nonempty(prev));
        lemma_ext_run_ordered(prev, lines);
        lemma_ext_run_wf(prev, lines);
        lemma_line_count_le_len(op.1);
        let st_p = ext_run(prev, lines);
        let st = ext_run(script, lines);
        assert(st == ext_step(st_p, op, lines));
        assert(op.1.len() > 0);
        if op.0 == 0 && st_p.in_hunk {
            let h = st.hunks.last();
            assert(h.before_start == st_p.h_before_start);
            assert(h.before_len == st_p.h_before_len);
            assert(h.before_start + h.before_len == st_p.before_line);
            assert(forall|k: int|
                0 <= k < st_p.hunks.len() ==> (#[trigger] st_p.hunks[k]).before_start
                    + st_p.hunks[k].before_len <= st_p.h_before_start);
        }
    }
}

/// Law: every extracted hunk list is well formed — hunks are indexed in
/// order from 0, never have both texts empty, and appear at non-decreasing,
/// non-overlapping before positions (see [`hunks_ordered`]).
pub proof fn lemma_extract_well_formed(script: Seq<(int, Seq<char>)>, lines: Seq<Seq<char>>)
    requires
        script_nonempty(script),
    ensures
        hunks_ordered(extract_spec(script, lines)),
{
    lemma_ext_run_ordered(script, lines);
    lemma_ext_run_wf(script, lines);
    let st = ext_run(script, lines);
    if st.in_hunk {
        let stf = ext_finish(st, lines);
        let h = stf.hunks.last();
        assert(h.before_start + h.before_len == st.before_line);
        assert(forall|k: int|
            0 <= k < st.hunks.len() ==> (#[trigger] st.hunks[k]).before_start
                + st.hunks[k].before_len <= st.h_before_start);
    }
}

// ------------------------------------------------------------------
// Extraction
// ------------------------------------------------------------------

/// Closes the pending hunk: classifies it, computes its context and
/// identity, and appends it to `hunks`; the accumulators are cleared.
fn finalize_hunk(
    hunks: &mut Vec<Hunk>,
    current_removed: &mut String,
    current_added: &mut String,
    before_lines: &Vec<String>,
    before_start: usize,
    after_start: usize,
    before_length: usize,
    after_length: usize,
)
    ensures
        final(current_removed)@ == Seq::<char>::empty(),
        final(current_added)@ == Seq::<char>::empty(),
        hunks_view(final(hunks)@) == hunks_view(old(hunks)@).push(
            closed_hunk(
                old(hunks)@.len() as int,
                old(current_removed)@,
                old(current_added)@,
                before_lines.deep_view(),
                before_start as int,
                after_start as int,
                before_length as int,
                after_length as int,
            ),
        ),
{
    let removed: String = current_removed.clone();
    let added: String = current_added.clone();
    *current_removed = String::new();
    *current_added = String::new();
    let hunk_type = determine_hunk_type(removed.as_str(), added.as_str());
    let context = build_context(before_lines, before_start, before_length);
    let id = match &context {
        Some(c) => hash_hunk_id(
            hunk_type,
            removed.as_str(),
            added.as_str(),
            Some((c.before.as_str(), c.after.as_str())),
        ),
        None => hash_hunk_id(hunk_type, removed.as_str(), added.as_str(), None),
    };
    let index = hunks.len();
    let hunk = Hunk {
        index,
        id,
        hunk_type: hunk_type.to_owned(),
        removed,
        added,
        before_range: LineRange { start: before_start, length: before_length },
        after_range: LineRange { start: after_start, length: after_length },
        context,
    };
    let ghost expected = closed_hunk(
        old(hunks)@.len() as int,
        old(current_removed)@,
        old(current_added)@,
        before_lines.deep_view(),
        before_start as int,
        after_start as int,
        before_length as int,
        after_length as int,
    );
    proof {
        assert(hunk@ == expected);
    }
    let ghost old_hunks = hunks@;
    hunks.push(hunk);
    proof {
        assert(hunks_view(hunks@) =~= hunks_view(old_hunks).push(expected));
    }
}

/// The conjunction tying the extraction loop's variables to the replay state
/// after `i` operations.
pub open spec fn ext_inv(
    hunks: Seq<Hunk>,
    removed: Seq<char>,
    added: Seq<char>,
    in_hunk: bool,
    before_line: int,
    after_line: int,
    hbs: int,
    has: int,
    hbl: int,
    hal: int,
    script: Seq<(int, Seq<char>)>,
    i: int,
    lines: Seq<Seq<char>>,
) -> bool {
    let st = ext_run(script.take(i), lines);
    &&& hunks_view(hunks) == st.hunks
    &&& removed == st.removed
    &&& added == st.added
    &&& in_hunk == st.in_hunk
    &&& before_line == st.before_line
    &&& after_line == st.after_line
    &&& hbs == st.h_before_start
    &&& has == st.h_after_start
    &&& hbl == st.h_before_len
    &&& hal == st.h_after_len
}

/// Extracts the hunks of the text pair `(before, after)`: maximal runs of
/// non-equal edit operations, in order, each with its kind, texts, 1-based
/// line ranges, context and stable identity, indexed from 0.
pub fn get_hunks(before: &str, after: &str) -> (r: Vec<Hunk>)
    requires
        before@.len() < usize::MAX,
        after@.len() < usize::MAX,
    ensures
        hunks_view(r@) == spec_hunks(before@, after@),
        hunks_ordered(hunks_view(r@)),
{
    let ops = diff_lines(before, after);
    let before_lines = split_lines_with_endings(before);
    let ghost script = ops_view(ops@);
    let ghost linesd = before_lines.deep_view();
    proof {
        assert forall|k: int| 0 <= k < script.len() implies (#[trigger] script[k]).1.len() > 0 by {
            assert(script[k] == (tag_code(ops@[k].tag), ops@[k].text@));
        }
        lemma_extract_well_formed(script, linesd);
    }
    let mut hunks: Vec<Hunk> = Vec::new();
    let mut current_removed = String::new();
    let mut current_added = String::new();
    let mut in_hunk = false;
    let mut before_line: usize = 1;
    let mut after_line: usize = 1;
    let mut hunk_before_start: usize = 0;
    let mut hunk_after_start: usize = 0;
    let mut hunk_before_len: usize = 0;
    let mut hunk_after_len: usize = 0;
    let mut i: usize = 0;
    proof {
        assert(script.take(0) =~= Seq::<(int, Seq<char>)>::empty());
        assert(ext_run(script.take(0), linesd) == ext_init());
        assert(hunks_view(hunks@) =~= Seq::<SpecHunk>::empty());
    }
    while i < ops.len()
        invariant
            i <= ops@.len(),
            script == ops_view(ops@),
            script.len() == ops@.len(),
            linesd == before_lines.deep_view(),
            script_before(script) == before@,
            script_after(script) == after@,
            before@.len() < usize::MAX,
            after@.len() < usize::MAX,
            ext_inv(
                hunks@,
                current_removed@,
                current_added@,
                in_hunk,
                before_line as int,
                after_line as int,
                hunk_before_start as int,
                hunk_after_start as int,
                hunk_before_len as int,
                hunk_after_len as int,
                script,
                i as int,
                linesd,
            ),
        decreases ops@.len() - i,
    {
        let ghost st = ext_run(script.take(i as int), linesd);
        let ghost st_next = ext_run(script.take(i + 1), linesd);
        proof {
            lemma_ext_take_step(script, i as int, linesd);
            lemma_ext_run_wf(script.take(i as int), linesd);
            lemma_ext_run_wf(script.take(i + 1), linesd);
            lemma_script_prefix_len(script, i + 1);
            assert(script[i as int] == (tag_code(ops@[i as int].tag), ops@[i as int].text@));
        }
        let op = &ops[i];
        let n = count_lines(op.text.as_str());
        match op.tag {
            EditTag::Equal => {
                if in_hunk {
                    finalize_hunk(
                        &mut hunks,
                        &mut current_removed,
                        &mut current_added,
                        &before_lines,
                        hunk_before_start,
                        hunk_after_start,
                        hunk_before_len,
                        hunk_after_len,
                    );
                    hunk_before_len = 0;
                    hunk_after_len = 0;
                    in_hunk = false;
                }
                proof {
                    assert(st_next.before_line <= 1 + script_before(script).len());
                    assert(st_next.after_line <= 1 + script_after(script).len());
                }
                before_line = before_line + n;
                after_line = after_line + n;
            },
            EditTag::Delete => {
                if !in_hunk {
                    in_hunk = true;
                    hunk_before_start = before_line;
                    hunk_after_start = after_line;
                    hunk_before_len = 0;
                    hunk_after_len = 0;
                }
                current_removed.append(op.text.as_str());
                proof {
                    assert(st_next.before_line <= 1 + script_before(script).len());
                }
                hunk_before_len = hunk_before_len + n;
                before_line = before_line + n;
            },
            EditTag::Insert => {
                if !in_hunk {
                    in_hunk = true;
                    hunk_before_start = before_line;
                    hunk_after_start = after_line;
                    hunk_before_len = 0;
                    hunk_after_len = 0;
                }
                current_added.append(op.text.as_str());
                proof {
                    assert(st_next.after_line <= 1 + script_after(script).len());
                }
                hunk_after_len = hunk_after_len + n;
                after_line = after_line + n;
            },
        }
        i = i + 1;
    }
    proof {
        assert(script.take(ops@.len() as int) =~= script);
    }
    if in_hunk {
        finalize_hunk(
            &mut hunks,
            &mut current_removed,
            &mut current_added,
            &before_lines,
            hunk_before_start,
            hunk_after_start,
            hunk_before_len,
            hunk_after_len,
        );
    }
    hunks
}

// ------------------------------------------------------------------
// Selections
// ------------------------------------------------------------------

/// The set of hunks a caller accepts: by 0-based ordinal index, or by stable
/// identifier.  A hunk matches when its index or its identifier occurs;
/// an empty selection accepts nothing.
#[derive(Debug, Clone)]
pub struct HunkSelection {
    pub indices: Vec<usize>,
    pub ids: Vec<String>,
}

impl HunkSelection {
    pub open spec fn spec_has_index(self, index: int) -> bool {
        exists|k: int| 0 <= k < self.indices@.len() && #[trigger] self.indices@[k] as int == index
    }

    pub open spec fn spec_has_id(self, id: Seq<char>) -> bool {
        exists|k: int| 0 <= k < self.ids@.len() && #[trigger] self.ids@[k]@ == id
    }

    pub open spec fn spec_matches(self, index: int, id: Seq<char>) -> bool {
        self.spec_has_index(index) || self.spec_has_id(id)
    }

    pub open spec fn spec_is_empty(self) -> bool {
        self.indices@.len() == 0 && self.ids@.len() == 0
    }

    /// Does the selection accept nothing at all?
    pub fn is_empty(&self) -> (r: bool)
        ensures
            r == self.spec_is_empty(),
    {
        self.indices.len() == 0 && self.ids.len() == 0
    }

    /// Does the selection accept a hunk with this index or this identifier?
    pub fn matches(&self, index: usize, id: &str) -> (r: bool)
        ensures
            r == self.spec_matches(index as int, id@),
    {
        let mut k: usize = 0;
        while k < self.indices.len()
            invariant
                k <= self.indices@.len(),
                forall|j: int| 0 <= j < k ==> #[trigger] self.indices@[j] != index,
        decreases self.indices@.len() - k,
        {
            if self.indices[k] == index {
                return true;
            }
            k = k + 1;
        }
        let mut k2: usize = 0;
        while k2 < self.ids.len()
            invariant
                k2 <= self.ids@.len(),
                forall|j: int| 0 <= j < k2 ==> #[trigger] self.ids@[j]@ != id@,
                forall|j: int| 0 <= j < self.indices@.len() ==> #[trigger] self.indices@[j] != index,
        decreases self.ids@.len() - k2,
        {
            if str_eq(self.ids[k2].as_str(), id) {
                return true;
            }
            k2 = k2 + 1;
        }
        false
    }
}

impl Default for HunkSelection {
    /// The empty selection.
    fn default() -> (r: Self)
        ensures
            r.spec_is_empty(),
            r.indices@.len() == 0,
            r.ids@.len() == 0,
    {
        HunkSelection { indices: Vec::new(), ids: Vec::new() }
    }
}

/// Does the selection accept every hunk of the list?
pub open spec fn sel_covers_all(sel: HunkSelection, hs: Seq<SpecHunk>) -> bool {
    forall|k: int| 0 <= k < hs.len() ==> sel.spec_matches(#[trigger] hs[k].index, hs[k].id)
}

/// Does the selection accept no hunk of the list?
pub open spec fn sel_rejects_all(sel: HunkSelection, hs: Seq<SpecHunk>) -> bool {
    forall|k: int| 0 <= k < hs.len() ==> !sel.spec_matches(#[trigger] hs[k].index, hs[k].id)
}

// ------------------------------------------------------------------
// Selective reconstruction
// ------------------------------------------------------------------

/// The text a closed hunk contributes to the output: its added text when
/// the selection accepts it, else its removed text.
pub open spec fn rec_chosen(h: SpecHunk, sel: HunkSelection) -> Seq<char> {
    if sel.spec_matches(h.index, h.id) {
        h.added
    } else {
        h.removed
    }
}

/// The state of a reconstruction replay: the extraction state, plus the
/// output text so far.
pub struct RecState {
    pub est: ExtState,
    pub out: Seq<char>,
}

/// One step of the reconstruction replay: the extraction step, plus output.
/// An `Equal` operation first emits the closing hunk's chosen text (if a
/// hunk was open) and then the equal text itself.
pub open spec fn rec_step(
    st: RecState,
    op: (int, Seq<char>),
    lines: Seq<Seq<char>>,
    sel: HunkSelection,
) -> RecState {
    let est2 = ext_step(st.est, op, lines);
    if op.0 == 0 {
        let closed = if st.est.in_hunk {
            rec_chosen(est2.hunks.last(), sel)
        } else {
            Seq::<char>::empty()
        };
        RecState { est: est2, out: st.out + closed + op.1 }
    } else {
        RecState { est: est2, out: st.out }
    }
}

pub open spec fn rec_run(
    script: Seq<(int, Seq<char>)>,
    lines: Seq<Seq<char>>,
    sel: HunkSelection,
) -> RecState
    decreases script.len(),
{
    if script.len() == 0 {
        RecState { est: ext_init(), out: Seq::empty() }
    } else {
        rec_step(rec_run(script.drop_last(), lines, sel), script.last(), lines, sel)
    }
}

/// Emits the chosen text of a hunk still open at the end of the script.
pub open spec fn rec_finish(st: RecState, lines: Seq<Seq<char>>, sel: HunkSelection) -> Seq<
    char,
> {
    if st.est.in_hunk {
        st.out + rec_chosen(ext_finish(st.est, lines).hunks.last(), sel)
    } else {
        st.out
    }
}

/// The output text of replaying an edit script against a selection.
pub open spec fn reconstruct_spec(
    script: Seq<(int, Seq<char>)>,
    lines: Seq<Seq<char>>,
    sel: HunkSelection,
) -> Seq<char> {
    rec_finish(rec_run(script, lines, sel), lines, sel)
}

/// The output text of reconstructing a text pair against a selection.
pub open spec fn spec_reconstruct(
    before: Seq<char>,
    after: Seq<char>,
    sel: HunkSelection,
) -> Seq<char> {
    reconstruct_spec(edit_script_of(before, after), lines_of(before), sel)
}

/// The reconstruction replay carries exactly the extraction replay state,
/// so both passes see the same hunks, indices and identities.
pub proof fn lemma_rec_est(script: Seq<(int, Seq<char>)>, lines: Seq<Seq<char>>, sel: HunkSelection)
    ensures
        rec_run(script, lines, sel).est == ext_run(script, lines),
    decreases script.len(),
{
    if script.len() > 0 {
        lemma_rec_est(script.drop_last(), lines, sel);
    }
}

proof fn lemma_rec_take_step(
    script: Seq<(int, Seq<char>)>,
    i: int,
    lines: Seq<Seq<char>>,
    sel: HunkSelection,
)
    requires
        0 <= i < script.len(),
    ensures
        rec_run(script.take(i + 1), lines, sel) == rec_step(
            rec_run(script.take(i), lines, sel),
            script[i],
            lines,
            sel,
        ),
{
    assert(script.take(i + 1).drop_last() =~= script.take(i));
    assert(script.take(i + 1).last() == script[i]);
}

/// When the selection rejects every hunk closed so far, the output plus the
/// open removed buffer is exactly the before text covered so far.
proof fn lemma_rec_rejected(script: Seq<(int, Seq<char>)>, lines: Seq<Seq<char>>, sel: HunkSelection)
    requires
        sel_rejects_all(sel, ext_run(script, lines).hunks),
    ensures
        rec_run(script, lines, sel).out + ext_run(script, lines).removed == script_before(script),
    decreases script.len(),
{
    if script.len() == 0 {
        assert(rec_run(script, lines, sel).out + ext_run(script, lines).removed =~= script_before(
            script,
        ));
    } else {
        let prev = script.drop_last();
        let op = script.last();
        let st_p = ext_run(prev, lines);
        let st = ext_run(script, lines);
        lemma_ext_run_wf(prev, lines);
        assert(st == ext_step(st_p, op, lines));
        assert forall|k: int| 0 <= k < st_p.hunks.len() implies st_p.hunks[k] == st.hunks[k] by {}
        assert forall|k: int|
            0 <= k < st_p.hunks.len() implies !sel.spec_matches(
            #[trigger] st_p.hunks[k].index,
            st_p.hunks[k].id,
        ) by {
            assert(st_p.hunks[k] == st.hunks[k]);
        }
        lemma_rec_rejected(prev, lines, sel);
        let r_p = rec_run(prev, lines, sel);
        let r = rec_run(script, lines, sel);
        assert(r == rec_step(r_p, op, lines, sel));
        lemma_rec_est(prev, lines, sel);
        if op.0 == 0 {
            if st_p.in_hunk {
                let h = st.hunks.last();
                assert(h == closed_hunk(
                    st_p.hunks.len() as int,
                    st_p.removed,
                    st_p.added,
                    lines,
                    st_p.h_before_start,
                    st_p.h_after_start,
                    st_p.h_before_len,
                    st_p.h_after_len,
                ));
                assert(st.hunks.len() == st_p.hunks.len() + 1);
                assert(!sel.spec_matches(h.index, h.id));
                assert(rec_chosen(h, sel) == st_p.removed);
                assert(r.out =~= (r_p.out + st_p.removed) + op.1);
                assert(st.removed.len() == 0);
                assert(r.out + st.removed =~= (r_p.out + st_p.removed) + op.1);
                assert(script_before(script) == script_before(prev) + op.1);
            } else {
                assert(st_p.removed.len() == 0);
                assert(r.out =~= (r_p.out + st_p.removed) + op.1);
                assert(st.removed.len() == 0);
                assert(r.out + st.removed =~= (r_p.out + st_p.removed) + op.1);
                assert(script_before(script) == script_before(prev) + op.1);
            }
        } else if op.0 == 1 {
            assert(r.out == r_p.out);
            assert(st.removed =~= st_p.removed + op.1);
            assert(r.out + st.removed =~= (r_p.out + st_p.removed) + op.1);
            assert(script_before(script) == script_before(prev) + op.1);
        } else {
            assert(r.out == r_p.out);
            assert(st.removed == st_p.removed);
            assert(script_before(script) =~= script_before(prev));
            assert(r.out + st.removed =~= r_p.out + st_p.removed);
        }
    }
}

/// When the selection accepts every hunk closed so far, the output plus the
/// open added buffer is exactly the after text covered so far.
proof fn lemma_rec_selected(script: Seq<(int, Seq<char>)>, lines: Seq<Seq<char>>, sel: HunkSelection)
    requires
        sel_covers_all(sel, ext_run(script, lines).hunks),
    ensures
        rec_run(script, lines, sel).out + ext_run(script, lines).added == script_after(script),
    decreases script.len(),
{
    if script.len() == 0 {
        assert(rec_run(script, lines, sel).out + ext_run(script, lines).added =~= script_after(
            script,
        ));
    } else {
        let prev = script.drop_last();
        let op = script.last();
        let st_p = ext_run(prev, lines);
        let st = ext_run(script, lines);
        lemma_ext_run_wf(prev, lines);
        assert(st == ext_step(st_p, op, lines));
        assert forall|k: int| 0 <= k < st_p.hunks.len() implies st_p.hunks[k] == st.hunks[k] by {}
        assert forall|k: int|
            0 <= k < st_p.hunks.len() implies sel.spec_matches(
            #[trigger] st_p.hunks[k].index,
            st_p.hunks[k].id,
        ) by {
            assert(st_p.hunks[k] == st.hunks[k]);
        }
        lemma_rec_selected(prev, lines, sel);
        let r_p = rec_run(prev, lines, sel);
        let r = rec_run(script, lines, sel);
        assert(r == rec_step(r_p, op, lines, sel));
        lemma_rec_est(prev, lines, sel);
        if op.0 == 0 {
            if st_p.in_hunk {
                let h = st.hunks.last();
                assert(st.hunks.len() == st_p.hunks.len() + 1);
                assert(sel.spec_matches(h.index, h.id));
                assert(rec_chosen(h, sel) == st_p.added);
                assert(r.out =~= (r_p.out + st_p.added) + op.1);
                assert(st.added.len() == 0);
                assert(r.out + st.added =~= (r_p.out + st_p.added) + op.1);
                assert(script_after(script) == script_after(prev) + op.1);
            } else {
                assert(st_p.added.len() == 0);
                assert(r.out =~= (r_p.out + st_p.added) + op.1);
                assert(st.added.len() == 0);
                assert(r.out + st.added =~= (r_p.out + st_p.added) + op.1);
                assert(script_after(script) == script_after(prev) + op.1);
            }
        } else if op.0 == 1 {
            assert(r.out == r_p.out);
            assert(st.added == st_p.added);
            assert(script_after(script) =~= script_after(prev));
            assert(r.out + st.added =~= r_p.out + st_p.added);
        } else {
            assert(r.out == r_p.out);
            assert(st.added =~= st_p.added + op.1);
            assert(r.out + st.added =~= (r_p.out + st_p.added) + op.1);
            assert(script_after(script) == script_after(prev) + op.1);
        }
    }
}

/// Law: a selection that rejects every extracted hunk reconstructs the
/// before text exactly.
pub proof fn lemma_reconstruct_rejected(
    script: Seq<(int, Seq<char>)>,
    lines: Seq<Seq<char>>,
    sel: HunkSelection,
)
    requires
        sel_rejects_all(sel, extract_spec(script, lines)),
    ensures
        reconstruct_spec(script, lines, sel) == script_before(script),
{
    let st = ext_run(script, lines);
    let hs = extract_spec(script, lines);
    lemma_ext_run_wf(script, lines);
    assert forall|k: int| 0 <= k < st.hunks.len() implies st.hunks[k] == hs[k] by {}
    assert forall|k: int|
        0 <= k < st.hunks.len() implies !sel.spec_matches(
        #[trigger] st.hunks[k].index,
        st.hunks[k].id,
    ) by {
        assert(st.hunks[k] == hs[k]);
    }
    lemma_rec_rejected(script, lines, sel);
    lemma_rec_est(script, lines, sel);
    let r = rec_run(script, lines, sel);
    if st.in_hunk {
        let h = ext_finish(st, lines).hunks.last();
        assert(h == hs[hs.len() - 1]);
        assert(!sel.spec_matches(h.index, h.id));
        assert(rec_chosen(h, sel) == st.removed);
        assert(reconstruct_spec(script, lines, sel) == r.out + st.removed);
    } else {
        assert(st.removed.len() == 0);
        assert(r.out =~= r.out + st.removed);
    }
}

/// Law: a selection that accepts every extracted hunk reconstructs the
/// after text exactly.
pub proof fn lemma_reconstruct_selected(
    script: Seq<(int, Seq<char>)>,
    lines: Seq<Seq<char>>,
    sel: HunkSelection,
)
    requires
        sel_covers_all(sel, extract_spec(script, lines)),
    ensures
        reconstruct_spec(script, lines, sel) == script_after(script),
{
    let st = ext_run(script, lines);
    let hs = extract_spec(script, lines);
    lemma_ext_run_wf(script, lines);
    assert forall|k: int| 0 <= k < st.hunks.len() implies st.hunks[k] == hs[k] by {}
    assert forall|k: int|
        0 <= k < st.hunks.len() implies sel.spec_matches(
        #[trigger] st.hunks[k].index,
        st.hunks[k].id,
    ) by {
        assert(st.hunks[k] == hs[k]);
    }
    lemma_rec_selected(script, lines, sel);
    lemma_rec_est(script, lines, sel);
    let r = rec_run(script, lines, sel);
    if st.in_hunk {
        let h = ext_finish(st, lines).hunks.last();
        assert(h == hs[hs.len() - 1]);
        assert(sel.spec_matches(h.index, h.id));
        assert(rec_chosen(h, sel) == st.added);
        assert(reconstruct_spec(script, lines, sel) == r.out + st.added);
    } else {
        assert(st.added.len() == 0);
        assert(r.out =~= r.out + st.added);
    }
}

/// Law: over a script that yields no hunks, reconstruction returns the
/// before text unchanged, whatever the selection holds.
pub proof fn lemma_reconstruct_no_hunks(
    script: Seq<(int, Seq<char>)>,
    lines: Seq<Seq<char>>,
    sel: HunkSelection,
)
    requires
        extract_spec(script, lines).len() == 0,
    ensures
        reconstruct_spec(script, lines, sel) == script_before(script),
{
    lemma_reconstruct_rejected(script, lines, sel);
}

/// The text the closing hunk contributes to the output, from the values the
/// reconstruction pass tracks.
pub open spec fn chosen_text(
    sel: HunkSelection,
    index: int,
    removed: Seq<char>,
    added: Seq<char>,
    lines: Seq<Seq<char>>,
    before_start: int,
    before_len: int,
) -> Seq<char> {
    let kind = kind_of(removed, added);
    let ctx = context_of(lines, before_start, before_len);
    if sel.spec_matches(index, hunk_id_spec(kind, removed, added, ctx)) {
        added
    } else {
        removed
    }
}

/// Recomputes the closing hunk's kind, context and identity, and appends its
/// added text to the output when the selection accepts it, else its removed
/// text; the accumulators are cleared.
fn apply_hunk_selection(
    result: &mut String,
    hunk_before: &mut String,
    hunk_after: &mut String,
    before_lines: &Vec<String>,
    selected: &HunkSelection,
    hunk_idx: usize,
    before_start: usize,
    before_length: usize,
)
    ensures
        final(hunk_before)@ == Seq::<char>::empty(),
        final(hunk_after)@ == Seq::<char>::empty(),
        final(result)@ == old(result)@ + chosen_text(
            *selected,
            hunk_idx as int,
            old(hunk_before)@,
            old(hunk_after)@,
            before_lines.deep_view(),
            before_start as int,
            before_length as int,
        ),
{
    let removed: String = hunk_before.clone();
    let added: String = hunk_after.clone();
    *hunk_before = String::new();
    *hunk_after = String::new();
    let hunk_type = determine_hunk_type(removed.as_str(), added.as_str());
    let context = build_context(before_lines, before_start, before_length);
    let id = match &context {
        Some(c) => hash_hunk_id(
            hunk_type,
            removed.as_str(),
            added.as_str(),
            Some((c.before.as_str(), c.after.as_str())),
        ),
        None => hash_hunk_id(hunk_type, removed.as_str(), added.as_str(), None),
    };
    if selected.matches(hunk_idx, id.as_str()) {
        result.append(added.as_str());
    } else {
        result.append(removed.as_str());
    }
}

/// The conjunction tying the reconstruction loop's variables to the replay
/// state after `i` operations.
pub open spec fn rec_inv(
    result: Seq<char>,
    hunk_before: Seq<char>,
    hunk_after: Seq<char>,
    in_hunk: bool,
    before_line: int,
    hbs: int,
    hbl: int,
    hunk_idx: int,
    script: Seq<(int, Seq<char>)>,
    i: int,
    lines: Seq<Seq<char>>,
    sel: HunkSelection,
) -> bool {
    let r = rec_run(script.take(i), lines, sel);
    &&& result == r.out
    &&& hunk_before == r.est.removed
    &&& hunk_after == r.est.added
    &&& in_hunk == r.est.in_hunk
    &&& before_line == r.est.before_line
    &&& hbs == r.est.h_before_start
    &&& hbl == r.est.h_before_len
    &&& hunk_idx == r.est.hunks.len()
}

/// Replays the edit script of `(before, after)` a second time and emits, for
/// every hunk, its added text when `selected` accepts the hunk (by index or
/// identity) and its removed text otherwise; equal regions pass through
/// unchanged.  Selecting nothing reproduces `before`; selecting every hunk
/// reproduces `after`.
pub fn apply_selected_hunks(before: &str, after: &str, selected: &HunkSelection) -> (r: String)
    requires
        before@.len() < usize::MAX,
    ensures
        r@ == spec_reconstruct(before@, after@, *selected),
        selected.spec_is_empty() ==> r@ == before@,
        sel_covers_all(*selected, spec_hunks(before@, after@)) ==> r@ == after@,
{
    let ops = diff_lines(before, after);
    let before_lines = split_lines_with_endings(before);
    let ghost script = ops_view(ops@);
    let ghost linesd = before_lines.deep_view();
    let ghost sel = *selected;
    let mut result = String::new();
    let mut hunk_idx: usize = 0;
    let mut in_hunk = false;
    let mut hunk_before = String::new();
    let mut hunk_after = String::new();
    let mut before_line: usize = 1;
    let mut hunk_before_start: usize = 0;
    let mut hunk_before_len: usize = 0;
    let mut i: usize = 0;
    proof {
        assert(script.take(0) =~= Seq::<(int, Seq<char>)>::empty());
        assert(rec_run(script.take(0), linesd, sel).est == ext_init());
    }
    while i < ops.len()
        invariant
            i <= ops@.len(),
            script == ops_view(ops@),
            script.len() == ops@.len(),
            linesd == before_lines.deep_view(),
            sel == *selected,
            script_before(script) == before@,
            script_after(script) == after@,
            before@.len() < usize::MAX,
            rec_inv(
                result@,
                hunk_before@,
                hunk_after@,
                in_hunk,
                before_line as int,
                hunk_before_start as int,
                hunk_before_len as int,
                hunk_idx as int,
                script,
                i as int,
                linesd,
                sel,
            ),
        decreases ops@.len() - i,
    {
        let ghost r_st = rec_run(script.take(i as int), linesd, sel);
        let ghost r_next = rec_run(script.take(i + 1), linesd, sel);
        proof {
            lemma_rec_take_step(script, i as int, linesd, sel);
            lemma_ext_take_step(script, i as int, linesd);
            lemma_rec_est(script.take(i as int), linesd, sel);
            lemma_rec_est(script.take(i + 1), linesd, sel);
            lemma_ext_run_wf(script.take(i as int), linesd);
            lemma_ext_run_wf(script.take(i + 1), linesd);
            lemma_script_prefix_len(script, i + 1);
            assert(script[i as int] == (tag_code(ops@[i as int].tag), ops@[i as int].text@));
            assert(ext_run(script.take(i as int), linesd).hunks.len() <= script.take(
                i as int,
            ).len());
        }
        let op = &ops[i];
        let n = count_lines(op.text.as_str());
        match op.tag {
            EditTag::Equal => {
                if in_hunk {
                    apply_hunk_selection(
                        &mut result,
                        &mut hunk_before,
                        &mut hunk_after,
                        &before_lines,
                        selected,
                        hunk_idx,
                        hunk_before_start,
                        hunk_before_len,
                    );
                    proof {
                        let est2 = ext_step(r_st.est, script[i as int], linesd);
                        assert(est2.hunks.last() == closed_hunk(
                            r_st.est.hunks.len() as int,
                            r_st.est.removed,
                            r_st.est.added,
                            linesd,
                            r_st.est.h_before_start,
                            r_st.est.h_after_start,
                            r_st.est.h_before_len,
                            r_st.est.h_after_len,
                        ));
                        assert(chosen_text(
                            sel,
                            hunk_idx as int,
                            r_st.est.removed,
                            r_st.est.added,
                            linesd,
                            r_st.est.h_before_start,
                            r_st.est.h_before_len,
                        ) == rec_chosen(est2.hunks.last(), sel));
                    }
                    hunk_idx = hunk_idx + 1;
                    hunk_before_len = 0;
                    in_hunk = false;
                }
                result.append(op.text.as_str());
                proof {
                    assert(r_next.est.before_line <= 1 + script_before(script).len());
                    assert(result@ == r_next.out);
                }
                before_line = before_line + n;
            },
            EditTag::Delete => {
                if !in_hunk {
                    in_hunk = true;
                    hunk_before_start = before_line;
                    hunk_before_len = 0;
                }
                hunk_before.append(op.text.as_str());
                proof {
                    assert(r_next.est.before_line <= 1 + script_before(script).len());
                }
                hunk_before_len = hunk_before_len + n;
                before_line = before_line + n;
            },
            EditTag::Insert => {
                if !in_hunk {
                    in_hunk = true;
                    hunk_before_start = before_line;
                    hunk_before_len = 0;
                }
                hunk_after.append(op.text.as_str());
            },
        }
        i = i + 1;
    }
    proof {
        assert(script.take(ops@.len() as int) =~= script);
    }
    if in_hunk {
        let ghost r_fin = rec_run(script, linesd, sel);
        apply_hunk_selection(
            &mut result,
            &mut hunk_before,
            &mut hunk_after,
            &before_lines,
            selected,
            hunk_idx,
            hunk_before_start,
            hunk_before_len,
        );
        proof {
            lemma_rec_est(script, linesd, sel);
            let stf = ext_finish(r_fin.est, linesd);
            assert(stf.hunks.last() == closed_hunk(
                r_fin.est.hunks.len() as int,
                r_fin.est.removed,
                r_fin.est.added,
                linesd,
                r_fin.est.h_before_start,
                r_fin.est.h_after_start,
                r_fin.est.h_before_len,
                r_fin.est.h_after_len,
            ));
            assert(chosen_text(
                sel,
                hunk_idx as int,
                r_fin.est.removed,
                r_fin.est.added,
                linesd,
                r_fin.est.h_before_start,
                r_fin.est.h_before_len,
            ) == rec_chosen(stf.hunks.last(), sel));
            assert(result@ == reconstruct_spec(script, linesd, sel));
        }
    }
    proof {
        if sel.spec_is_empty() {
            assert(sel_rejects_all(sel, extract_spec(script, linesd)));
            lemma_reconstruct_rejected(script, linesd, sel);
        }
        if sel_covers_all(sel, spec_hunks(before@, after@)) {
            lemma_reconstruct_selected(script, linesd, sel);
        }
    }
    result
}

// ------------------------------------------------------------------
// Determinism and identity laws
// ------------------------------------------------------------------

/// Law: extraction is deterministic — any two hunk lists extracted from the
/// same text pair carry identical identifier sequences, because the list is
/// a pure function of the two texts.
pub proof fn lemma_extract_deterministic(
    before: Seq<char>,
    after: Seq<char>,
    h1: Seq<SpecHunk>,
    h2: Seq<SpecHunk>,
)
    requires
        h1 == spec_hunks(before, after),
        h2 == spec_hunks(before, after),
    ensures
        h1.map_values(|h: SpecHunk| h.id) == h2.map_values(|h: SpecHunk| h.id),
{
}

/// Law: a hunk's identity depends only on its own kind, texts and context;
/// a change anywhere else in the text pair cannot alter it.
pub proof fn lemma_id_from_content_alone(
    kind1: Seq<char>,
    removed1: Seq<char>,
    added1: Seq<char>,
    context1: Option<(Seq<char>, Seq<char>)>,
    kind2: Seq<char>,
    removed2: Seq<char>,
    added2: Seq<char>,
    context2: Option<(Seq<char>, Seq<char>)>,
)
    requires
        kind1 == kind2,
        removed1 == removed2,
        added1 == added2,
        context1 == context2,
    ensures
        hunk_id_spec(kind1, removed1, added1, context1) == hunk_id_spec(
            kind2,
            removed2,
            added2,
            context2,
        ),
{
}

} // verus!
