//! The selection spec model: per-file decisions (keep, reset, or a hunk
//! selection), a default action for unlisted paths, and the parsing of
//! user-supplied hunk selectors (ordinal index or stable identifier).

use vstd::prelude::*;
use crate::diff::HunkSelection;
use crate::ident::{trim_spec, trim_ascii, normalize_spec, normalize_hunk_id};
use crate::strutil::str_eq;

verus! {

/// The decision for one file path.
#[derive(Debug, Clone, Copy, PartialEq, Eq, Structural)]
pub enum Action {
    Keep,
    Reset,
}

/// The decision applied to paths absent from the file map.
#[derive(Debug, Clone, Copy, PartialEq, Eq, Structural)]
pub enum DefaultAction {
    Keep,
    Reset,
}

impl Default for DefaultAction {
    /// Unlisted paths are reset by default.
    fn default() -> (r: Self)
        ensures
            r == DefaultAction::Reset,
    {
        DefaultAction::Reset
    }
}

/// One user-supplied hunk selector: an ordinal index or a stable identifier.
#[derive(Debug, Clone)]
pub enum HunkSelector {
    Index(usize),
    Id(String),
}

/// The per-file hunk selection as supplied: mixed selectors, plus a separate
/// list of identifiers.
#[derive(Debug, Clone)]
pub struct HunkSpec {
    pub hunks: Vec<HunkSelector>,
    pub ids: Vec<String>,
}

impl Default for HunkSpec {
    /// The empty selection spec.
    fn default() -> (r: Self)
        ensures
            r.hunks@.len() == 0,
            r.ids@.len() == 0,
    {
        HunkSpec { hunks: Vec::new(), ids: Vec::new() }
    }
}

/// The decision for one file: apply a hunk selection, or keep or reset the
/// whole file.
#[derive(Debug, Clone)]
pub enum FileSpec {
    Selection(HunkSpec),
    Action { action: Action },
}

/// A whole selection spec: per-path decisions plus a default action.
#[derive(Debug, Clone)]
pub struct Spec {
    pub files: Vec<(String, FileSpec)>,
    pub default: DefaultAction,
}

// ------------------------------------------------------------------
// Selector parsing
// ------------------------------------------------------------------

pub open spec fn is_digit(c: char) -> bool {
    48 <= c as u32 && c as u32 <= 57
}

pub open spec fn digit_val(c: char) -> int {
    c as u32 - 48
}

pub open spec fn all_digits(s: Seq<char>) -> bool {
    forall|i: int| 0 <= i < s.len() ==> is_digit(#[trigger] s[i])
}

/// The numeric value of a digit string, most significant digit first.
pub open spec fn dec_val(s: Seq<char>) -> int
    decreases s.len(),
{
    if s.len() == 0 {
        0
    } else {
        dec_val(s.drop_last()) * 10 + digit_val(s.last())
    }
}

proof fn lemma_dec_val_nonneg(s: Seq<char>)
    requires
        all_digits(s),
    ensures
        dec_val(s) >= 0,
    decreases s.len(),
{
    if s.len() > 0 {
        assert(all_digits(s.drop_last()));
        lemma_dec_val_nonneg(s.drop_last());
        assert(is_digit(s.last()));
    }
}

proof fn lemma_dec_val_prefix(s: Seq<char>, j: int)
    requires
        all_digits(s),
        0 <= j <= s.len(),
    ensures
        dec_val(s.take(j)) <= dec_val(s),
    decreases s.len() - j,
{
    if j == s.len() {
        assert(s.take(j) =~= s);
    } else {
        assert(s.take(j + 1).drop_last() =~= s.take(j));
        assert(s.take(j + 1).last() == s[j]);
        assert(all_digits(s.take(j)));
        lemma_dec_val_nonneg(s.take(j));
        assert(is_digit(s[j]));
        assert(dec_val(s.take(j + 1)) >= dec_val(s.take(j)));
        lemma_dec_val_prefix(s, j + 1);
    }
}

/// A selector string parsed as an ordinal index: an optional leading `+`,
/// then a non-empty run of decimal digits whose value fits the machine.
pub open spec fn index_body(s: Seq<char>) -> Seq<char> {
    if s.len() > 0 && s[0] == '+' {
        s.skip(1)
    } else {
        s
    }
}

pub open spec fn parse_index_spec(s: Seq<char>) -> Option<int> {
    let body = index_body(s);
    if body.len() > 0 && all_digits(body) && dec_val(body) <= usize::MAX as int {
        Some(dec_val(body))
    } else {
        None
    }
}

/// Parses a decimal index, with an optional leading `+`
/// (see [`parse_index_spec`]).
pub fn parse_index(s: &str) -> (r: Option<usize>)
    ensures
        (r is Some) == (parse_index_spec(s@) is Some),
        r is Some ==> r.unwrap() as int == parse_index_spec(s@).unwrap(),
{
    let n = s.unicode_len();
    let start: usize = if n > 0 && s.get_char(0) == '+' {
        1
    } else {
        0
    };
    let ghost body = index_body(s@);
    proof {
        assert(body =~= s@.subrange(start as int, n as int));
    }
    if start == n {
        return None;
    }
    let mut val: usize = 0;
    let mut i: usize = start;
    while i < n
        invariant
            n == s@.len(),
            start <= i <= n,
            start < n,
            body == index_body(s@),
            body == s@.subrange(start as int, n as int),
            body.len() == n - start,
            forall|k: int| 0 <= k < i - start ==> is_digit(#[trigger] body[k]),
            val as int == dec_val(body.take(i - start)),
        decreases n - i,
    {
        let c = s.get_char(i);
        let x = c as u32;
        proof {
            assert(body[i - start] == s@[i as int]);
        }
        if !(48 <= x && x <= 57) {
            proof {
                assert(!is_digit(body[i - start]));
                assert(!all_digits(body));
            }
            return None;
        }
        let d = (x - 48) as usize;
        proof {
            assert(body.take(i - start + 1).drop_last() =~= body.take(i - start));
            assert(body.take(i - start + 1).last() == body[i - start]);
        }
        let next = match val.checked_mul(10) {
            Some(v) => v.checked_add(d),
            None => None,
        };
        match next {
            Some(v) => {
                val = v;
            },
            None => {
                proof {
                    let j = i - start + 1;
                    assert(all_digits(body.take(j)));
                    assert(dec_val(body.take(j)) > usize::MAX as int);
                    if all_digits(body) {
                        lemma_dec_val_prefix(body, j);
                    }
                }
                return None;
            },
        }
        i = i + 1;
    }
    proof {
        assert(body.take(n - start) =~= body);
    }
    Some(val)
}

/// The mathematical value of one parsed selector.
pub enum SpecSelector {
    Index(int),
    Id(Seq<char>),
}

/// Parsing one raw selector string: after trimming, an empty string is
/// invalid; a decimal integer is an ordinal index; anything else must
/// normalize as a hunk identifier, else the selector is invalid.
pub open spec fn parse_selector_spec(s: Seq<char>) -> Option<SpecSelector> {
    let t = trim_spec(s);
    if t.len() == 0 {
        None
    } else if parse_index_spec(t) is Some {
        Some(SpecSelector::Index(parse_index_spec(t).unwrap()))
    } else if normalize_spec(t) is Some {
        Some(SpecSelector::Id(normalize_spec(t).unwrap()))
    } else {
        None
    }
}

/// Parses one raw selector string (see [`parse_selector_spec`]); `None`
/// marks a hard input error.
pub fn parse_selector(value: &str) -> (r: Option<HunkSelector>)
    ensures
        (r is Some) == (parse_selector_spec(value@) is Some),
        r matches Some(HunkSelector::Index(i)) ==> parse_selector_spec(value@) == Some(
            SpecSelector::Index(i as int),
        ),
        r matches Some(HunkSelector::Id(s)) ==> parse_selector_spec(value@) == Some(
            SpecSelector::Id(s@),
        ),
{
    let t = trim_ascii(value);
    if t.unicode_len() == 0 {
        return None;
    }
    match parse_index(t) {
        Some(i) => Some(HunkSelector::Index(i)),
        None => {
            match normalize_hunk_id(t) {
                Some(id) => Some(HunkSelector::Id(id)),
                None => None,
            }
        },
    }
}

// ------------------------------------------------------------------
// Building a selection
// ------------------------------------------------------------------

/// The ordinal indices named by a selector list.
pub open spec fn selector_indices(hs: Seq<HunkSelector>) -> Set<int>
    decreases hs.len(),
{
    if hs.len() == 0 {
        Set::empty()
    } else {
        let rest = selector_indices(hs.drop_last());
        match hs.last() {
            HunkSelector::Index(i) => rest.insert(i as int),
            HunkSelector::Id(_) => rest,
        }
    }
}

/// The identifiers named by a selector list.
pub open spec fn selector_ids(hs: Seq<HunkSelector>) -> Set<Seq<char>>
    decreases hs.len(),
{
    if hs.len() == 0 {
        Set::empty()
    } else {
        let rest = selector_ids(hs.drop_last());
        match hs.last() {
            HunkSelector::Index(_) => rest,
            HunkSelector::Id(s) => rest.insert(s@),
        }
    }
}

/// The identifiers of a plain identifier list.
pub open spec fn id_set(ids: Seq<String>) -> Set<Seq<char>>
    decreases ids.len(),
{
    if ids.len() == 0 {
        Set::empty()
    } else {
        id_set(ids.drop_last()).insert(ids.last()@)
    }
}

impl HunkSpec {
    /// Merges the mixed selectors and the identifier list into one
    /// selection: a hunk is accepted when its index or its identifier is
    /// named by either input; duplicates collapse.
    pub fn to_selection(&self) -> (r: HunkSelection)
        ensures
            forall|i: int| r.spec_has_index(i) <==> selector_indices(self.hunks@).contains(i),
            forall|id: Seq<char>|
                r.spec_has_id(id) <==> (selector_ids(self.hunks@).contains(id) || id_set(
                    self.ids@,
                ).contains(id)),
    {
        let mut sel = HunkSelection::default();
        let mut k: usize = 0;
        while k < self.hunks.len()
            invariant
                k <= self.hunks@.len(),
                forall|i: int|
                    sel.spec_has_index(i) <==> selector_indices(
                        self.hunks@.take(k as int),
                    ).contains(i),
                forall|id: Seq<char>|
                    sel.spec_has_id(id) <==> selector_ids(self.hunks@.take(k as int)).contains(id),
            decreases self.hunks@.len() - k,
        {
            let ghost old_sel = sel;
            proof {
                assert(self.hunks@.take(k + 1).drop_last() =~= self.hunks@.take(k as int));
                assert(self.hunks@.take(k + 1).last() == self.hunks@[k as int]);
            }
            match &self.hunks[k] {
                HunkSelector::Index(index) => {
                    sel.indices.push(*index);
                    proof {
                        assert(sel.indices@ == old_sel.indices@.push(self.hunks@[k as int]->Index_0));
                        assert(sel.ids@ == old_sel.ids@);
                        let newi = self.hunks@[k as int]->Index_0 as int;
                        assert forall|i: int| sel.spec_has_index(i) implies (old_sel.spec_has_index(
                            i,
                        ) || i == newi) by {
                            let w = choose|w: int|
                                0 <= w < sel.indices@.len() && #[trigger] sel.indices@[w] as int
                                    == i;
                            if w < old_sel.indices@.len() {
                                assert(old_sel.indices@[w] as int == i);
                            }
                        }
                        assert forall|i: int|
                            (old_sel.spec_has_index(i) || i == newi) implies sel.spec_has_index(
                            i,
                        ) by {
                            if old_sel.spec_has_index(i) {
                                let w = choose|w: int|
                                    0 <= w < old_sel.indices@.len()
                                        && #[trigger] old_sel.indices@[w] as int == i;
                                assert(sel.indices@[w] as int == i);
                            } else {
                                assert(sel.indices@[old_sel.indices@.len() as int] as int == i);
                            }
                        }
                        assert forall|id: Seq<char>| sel.spec_has_id(id) <==> old_sel.spec_has_id(
                            id,
                        ) by {
                            if old_sel.spec_has_id(id) {
                                let w = choose|w: int|
                                    0 <= w < old_sel.ids@.len() && #[trigger] old_sel.ids@[w]@
                                        == id;
                                assert(sel.ids@[w]@ == id);
                            }
                            if sel.spec_has_id(id) {
                                let w = choose|w: int|
                                    0 <= w < sel.ids@.len() && #[trigger] sel.ids@[w]@ == id;
                                assert(old_sel.ids@[w]@ == id);
                            }
                        }
                    }
                },
                HunkSelector::Id(id) => {
                    sel.ids.push(id.clone());
                    proof {
                        assert(sel.ids@ == old_sel.ids@.push(self.hunks@[k as int]->Id_0));
                        assert(sel.indices@ == old_sel.indices@);
                        let newid = self.hunks@[k as int]->Id_0@;
                        assert forall|id2: Seq<char>| sel.spec_has_id(id2) implies (
                        old_sel.spec_has_id(id2) || id2 == newid) by {
                            let w = choose|w: int|
                                0 <= w < sel.ids@.len() && #[trigger] sel.ids@[w]@ == id2;
                            if w < old_sel.ids@.len() {
                                assert(old_sel.ids@[w]@ == id2);
                            }
                        }
                        assert forall|id2: Seq<char>|
                            (old_sel.spec_has_id(id2) || id2 == newid) implies sel.spec_has_id(
                            id2,
                        ) by {
                            if old_sel.spec_has_id(id2) {
                                let w = choose|w: int|
                                    0 <= w < old_sel.ids@.len() && #[trigger] old_sel.ids@[w]@
                                        == id2;
                                assert(sel.ids@[w]@ == id2);
                            } else {
                                assert(sel.ids@[old_sel.ids@.len() as int]@ == id2);
                            }
                        }
                        assert forall|i: int| sel.spec_has_index(i) <==> old_sel.spec_has_index(
                            i,
                        ) by {
                            if old_sel.spec_has_index(i) {
                                let w = choose|w: int|
                                    0 <= w < old_sel.indices@.len()
                                        && #[trigger] old_sel.indices@[w] as int == i;
                                assert(sel.indices@[w] as int == i);
                            }
                            if sel.spec_has_index(i) {
                                let w = choose|w: int|
                                    0 <= w < sel.indices@.len() && #[trigger] sel.indices@[w] as int
                                        == i;
                                assert(old_sel.indices@[w] as int == i);
                            }
                        }
                    }
                },
            }
            k = k + 1;
        }
        proof {
            assert(self.hunks@.take(self.hunks@.len() as int) =~= self.hunks@);
        }
        let mut k2: usize = 0;
        while k2 < self.ids.len()
            invariant
                k2 <= self.ids@.len(),
                forall|i: int|
                    sel.spec_has_index(i) <==> selector_indices(self.hunks@).contains(i),
                forall|id: Seq<char>|
                    sel.spec_has_id(id) <==> (selector_ids(self.hunks@).contains(id) || id_set(
                        self.ids@.take(k2 as int),
                    ).contains(id)),
            decreases self.ids@.len() - k2,
        {
            let ghost old_sel = sel;
            proof {
                assert(self.ids@.take(k2 + 1).drop_last() =~= self.ids@.take(k2 as int));
                assert(self.ids@.take(k2 + 1).last() == self.ids@[k2 as int]);
            }
            sel.ids.push(self.ids[k2].clone());
            proof {
                assert(sel.ids@ == old_sel.ids@.push(self.ids@[k2 as int]));
                assert(sel.indices@ == old_sel.indices@);
                let newid = self.ids@[k2 as int]@;
                assert forall|id2: Seq<char>| sel.spec_has_id(id2) implies (old_sel.spec_has_id(
                    id2,
                ) || id2 == newid) by {
                    let w = choose|w: int| 0 <= w < sel.ids@.len() && #[trigger] sel.ids@[w]@ == id2;
                    if w < old_sel.ids@.len() {
                        assert(old_sel.ids@[w]@ == id2);
                    }
                }
                assert forall|id2: Seq<char>|
                    (old_sel.spec_has_id(id2) || id2 == newid) implies sel.spec_has_id(id2) by {
                    if old_sel.spec_has_id(id2) {
                        let w = choose|w: int|
                            0 <= w < old_sel.ids@.len() && #[trigger] old_sel.ids@[w]@ == id2;
                        assert(sel.ids@[w]@ == id2);
                    } else {
                        assert(sel.ids@[old_sel.ids@.len() as int]@ == id2);
                    }
                }
                assert forall|i: int| sel.spec_has_index(i) <==> old_sel.spec_has_index(i) by {
                    if old_sel.spec_has_index(i) {
                        let w = choose|w: int|
                            0 <= w < old_sel.indices@.len() && #[trigger] old_sel.indices@[w] as int
                                == i;
                        assert(sel.indices@[w] as int == i);
                    }
                    if sel.spec_has_index(i) {
                        let w = choose|w: int|
                            0 <= w < sel.indices@.len() && #[trigger] sel.indices@[w] as int == i;
                        assert(old_sel.indices@[w] as int == i);
                    }
                }
            }
            k2 = k2 + 1;
        }
        proof {
            assert(self.ids@.take(self.ids@.len() as int) =~= self.ids@);
        }
        sel
    }
}

// ------------------------------------------------------------------
// Path lookup
// ------------------------------------------------------------------

/// The first decision recorded for `path`, if any.
pub open spec fn lookup_file(files: Seq<(String, FileSpec)>, path: Seq<char>) -> Option<FileSpec>
    decreases files.len(),
{
    if files.len() == 0 {
        None
    } else if files[0].0@ == path {
        Some(files[0].1)
    } else {
        lookup_file(files.skip(1), path)
    }
}

proof fn lemma_lookup_skip(files: Seq<(String, FileSpec)>, path: Seq<char>, k: int)
    requires
        0 <= k <= files.len(),
        forall|j: int| 0 <= j < k ==> #[trigger] files[j].0@ != path,
    ensures
        lookup_file(files, path) == lookup_file(files.skip(k), path),
    decreases k,
{
    if k > 0 {
        assert(files[0].0@ != path);
        assert(forall|j: int| 0 <= j < k - 1 ==> #[trigger] files.skip(1)[j].0@ != path);
        lemma_lookup_skip(files.skip(1), path, k - 1);
        assert(files.skip(1).skip(k - 1) =~= files.skip(k));
    } else {
        assert(files.skip(0) =~= files);
    }
}

impl Spec {
    /// The decision recorded for `path`, if any.
    pub fn find_file(&self, path: &str) -> (r: Option<&FileSpec>)
        ensures
            match r {
                Some(fs) => lookup_file(self.files@, path@) == Some(*fs),
                None => lookup_file(self.files@, path@) is None,
            },
    {
        let mut k: usize = 0;
        while k < self.files.len()
            invariant
                k <= self.files@.len(),
                forall|j: int| 0 <= j < k ==> #[trigger] self.files@[j].0@ != path@,
            decreases self.files@.len() - k,
        {
            if str_eq(self.files[k].0.as_str(), path) {
                proof {
                    lemma_lookup_skip(self.files@, path@, k as int);
                    assert(self.files@.skip(k as int)[0] == self.files@[k as int]);
                }
                return Some(&self.files[k].1);
            }
            k = k + 1;
        }
        proof {
            lemma_lookup_skip(self.files@, path@, self.files@.len() as int);
            assert(self.files@.skip(self.files@.len() as int).len() == 0);
        }
        None
    }
}

} // verus!
