//! Glob matching over `/`-separated paths: `*` and `?` are segment-local
//! wildcards, and a whole `**` segment matches zero or more path segments.
//! Also pattern-list normalization (comma splitting and trimming).

use vstd::prelude::*;
use crate::strutil::str_eq;
use crate::ident::{trim_spec, trim_ascii};

verus! {

/// Classic glob matching within one path segment: `*` matches any run of
/// characters (possibly empty), `?` matches exactly one character, and any
/// other character matches itself.  Anchored at both ends.
pub open spec fn wild_match(p: Seq<char>, t: Seq<char>) -> bool
    decreases p.len() + t.len(),
{
    if p.len() == 0 {
        t.len() == 0
    } else if p.last() == '*' {
        wild_match(p.drop_last(), t) || (t.len() > 0 && wild_match(p, t.drop_last()))
    } else if p.last() == '?' {
        t.len() > 0 && wild_match(p.drop_last(), t.drop_last())
    } else {
        t.len() > 0 && p.last() == t.last() && wild_match(p.drop_last(), t.drop_last())
    }
}

/// A single `*` matches every segment value.
pub proof fn lemma_star_matches_all(t: Seq<char>)
    ensures
        wild_match(seq!['*'], t),
    decreases t.len(),
{
    let p = seq!['*'];
    assert(p.last() == '*');
    assert(p.drop_last() =~= Seq::<char>::empty());
    if t.len() == 0 {
        assert(wild_match(p.drop_last(), t));
    } else {
        lemma_star_matches_all(t.drop_last());
    }
}

/// Matching of segment lists: a `**` pattern segment matches zero or more
/// whole path segments; any other pattern segment must wildcard-match
/// exactly one path segment.
pub open spec fn seg_match(p: Seq<Seq<char>>, t: Seq<Seq<char>>) -> bool
    decreases p.len() + t.len(),
{
    if p.len() == 0 {
        t.len() == 0
    } else if p[0] == "**"@ {
        seg_match(p.skip(1), t) || (t.len() > 0 && seg_match(p, t.skip(1)))
    } else if t.len() == 0 {
        false
    } else {
        wild_match(p[0], t[0]) && seg_match(p.skip(1), t.skip(1))
    }
}

/// `s` with every leading `./` removed.
pub open spec fn strip_dot_slash(s: Seq<char>) -> Seq<char>
    decreases s.len(),
{
    if s.len() >= 2 && s[0] == '.' && s[1] == '/' {
        strip_dot_slash(s.skip(2))
    } else {
        s
    }
}

/// The state of a left-to-right segment split on `/`: the non-empty segments
/// closed so far, and the open segment being accumulated.
pub open spec fn seg_fold(s: Seq<char>) -> (Seq<Seq<char>>, Seq<char>)
    decreases s.len(),
{
    if s.len() == 0 {
        (Seq::empty(), Seq::empty())
    } else {
        let prev = seg_fold(s.drop_last());
        if s.last() == '/' {
            if prev.1.len() > 0 {
                (prev.0.push(prev.1), Seq::empty())
            } else {
                (prev.0, Seq::empty())
            }
        } else {
            (prev.0, prev.1.push(s.last()))
        }
    }
}

/// The non-empty `/`-separated segments of `s`.
pub open spec fn segments_of(s: Seq<char>) -> Seq<Seq<char>> {
    let f = seg_fold(s);
    if f.1.len() > 0 {
        f.0.push(f.1)
    } else {
        f.0
    }
}

/// Whole-path glob matching: leading `./` is stripped from both sides, then
/// the segment lists must match end to end.  An empty pattern matches only
/// an empty path.
pub open spec fn glob_match_spec(pattern: Seq<char>, path: Seq<char>) -> bool {
    let p = strip_dot_slash(pattern);
    let t = strip_dot_slash(path);
    if p.len() == 0 {
        t.len() == 0
    } else {
        seg_match(segments_of(p), segments_of(t))
    }
}

/// Removes every leading `./` of `s`.
pub fn strip_leading_dot_slash(s: &str) -> (r: &str)
    ensures
        r@ == strip_dot_slash(s@),
{
    let mut cur: &str = s;
    loop
        invariant
            strip_dot_slash(cur@) == strip_dot_slash(s@),
        decreases cur@.len(),
    {
        let n = cur.unicode_len();
        if n >= 2 && cur.get_char(0) == '.' && cur.get_char(1) == '/' {
            let next = cur.substring_char(2, n);
            proof {
                assert(next@ =~= cur@.skip(2));
            }
            cur = next;
        } else {
            return cur;
        }
    }
}

/// Splits `s` into its non-empty `/`-separated segments.
pub fn split_segments(s: &str) -> (r: Vec<String>)
    ensures
        r.deep_view() == segments_of(s@),
{
    let n = s.unicode_len();
    let mut result: Vec<String> = Vec::new();
    let mut cur: String = String::new();
    let mut i: usize = 0;
    while i < n
        invariant
            n == s@.len(),
            i <= n,
            result.deep_view() == seg_fold(s@.take(i as int)).0,
            cur@ == seg_fold(s@.take(i as int)).1,
        decreases n - i,
    {
        let c = s.get_char(i);
        proof {
            assert(s@.take(i + 1) =~= s@.take(i as int).push(s@[i as int]));
            assert(s@.take(i + 1).drop_last() =~= s@.take(i as int));
        }
        if c == '/' {
            if cur.as_str().unicode_len() > 0 {
                let ghost old_dv = result.deep_view();
                let ghost cur_view = cur@;
                result.push(cur);
                proof {
                    assert(result.deep_view() =~= old_dv.push(cur_view));
                }
            }
            cur = String::new();
        } else {
            cur.push(c);
        }
        i = i + 1;
    }
    proof {
        assert(s@.take(n as int) =~= s@);
    }
    if cur.as_str().unicode_len() > 0 {
        let ghost old_dv = result.deep_view();
        let ghost cur_view = cur@;
        result.push(cur);
        proof {
            assert(result.deep_view() =~= old_dv.push(cur_view));
        }
    }
    result
}

/// Wildcard-matches one path segment against one pattern segment
/// (see [`wild_match`]), by dynamic programming over prefixes.
pub fn match_segment(pattern: &str, text: &str) -> (r: bool)
    ensures
        r == wild_match(pattern@, text@),
{
    if str_eq(pattern, "*") {
        proof {
            reveal_strlit("*");
            assert(pattern@ =~= seq!['*']);
            lemma_star_matches_all(text@);
        }
        return true;
    }
    let np = pattern.unicode_len();
    let nt = text.unicode_len();
    // Row `i` of the table: entry `j` says whether the first `i` pattern
    // characters match the first `j` text characters.
    let mut prev: Vec<bool> = Vec::new();
    prev.push(true);
    let mut j: usize = 0;
    while j < nt
        invariant
            nt == text@.len(),
            j <= nt,
            prev@.len() == j + 1,
            forall|k: int|
                0 <= k <= j ==> prev@[k] == wild_match(pattern@.take(0), #[trigger] text@.take(k)),
        decreases nt - j,
    {
        prev.push(false);
        j = j + 1;
    }
    let mut i: usize = 0;
    while i < np
        invariant
            np == pattern@.len(),
            nt == text@.len(),
            i <= np,
            prev@.len() == nt + 1,
            forall|k: int|
                0 <= k <= nt ==> prev@[k] == wild_match(
                    pattern@.take(i as int),
                    #[trigger] text@.take(k),
                ),
        decreases np - i,
    {
        let pc = pattern.get_char(i);
        proof {
            assert(pattern@.take(i + 1).drop_last() =~= pattern@.take(i as int));
            assert(pattern@.take(i + 1).last() == pattern@[i as int]);
        }
        let mut cur: Vec<bool> = Vec::new();
        let first: bool = if pc == '*' {
            prev[0]
        } else {
            false
        };
        proof {
            assert(text@.take(0) =~= Seq::<char>::empty());
        }
        cur.push(first);
        let mut jj: usize = 0;
        while jj < nt
            invariant
                np == pattern@.len(),
                nt == text@.len(),
                i < np,
                pc == pattern@[i as int],
                jj <= nt,
                prev@.len() == nt + 1,
                cur@.len() == jj + 1,
                forall|k: int|
                    0 <= k <= nt ==> prev@[k] == wild_match(
                        pattern@.take(i as int),
                        #[trigger] text@.take(k),
                    ),
                forall|k: int|
                    0 <= k <= jj ==> cur@[k] == wild_match(
                        pattern@.take(i + 1),
                        #[trigger] text@.take(k),
                    ),
            decreases nt - jj,
        {
            let tc = text.get_char(jj);
            proof {
                assert(pattern@.take(i + 1).drop_last() =~= pattern@.take(i as int));
                assert(pattern@.take(i + 1).last() == pattern@[i as int]);
                assert(text@.take(jj + 1).drop_last() =~= text@.take(jj as int));
                assert(text@.take(jj + 1).last() == text@[jj as int]);
            }
            let entry: bool = if pc == '*' {
                prev[jj + 1] || cur[jj]
            } else if pc == '?' {
                prev[jj]
            } else {
                prev[jj] && pc == tc
            };
            cur.push(entry);
            jj = jj + 1;
        }
        prev = cur;
        i = i + 1;
    }
    proof {
        assert(pattern@.take(np as int) =~= pattern@);
        assert(text@.take(nt as int) =~= text@);
    }
    prev[nt]
}

/// Matches the pattern segments starting at `pi` against the path segments
/// starting at `qi` (see [`seg_match`]).
pub fn match_segments(pattern: &Vec<String>, pi: usize, path: &Vec<String>, qi: usize) -> (r: bool)
    requires
        pi <= pattern@.len(),
        qi <= path@.len(),
    ensures
        r == seg_match(pattern.deep_view().skip(pi as int), path.deep_view().skip(qi as int)),
    decreases pattern@.len() - pi + path@.len() - qi,
{
    let ghost pd = pattern.deep_view();
    let ghost td = path.deep_view();
    proof {
        assert(pd.len() == pattern@.len());
        assert(td.len() == path@.len());
    }
    if pi == pattern.len() {
        proof {
            assert(pd.skip(pi as int).len() == 0);
        }
        return qi == path.len();
    }
    proof {
        assert(pd.skip(pi as int)[0] == pd[pi as int]);
        assert(pd[pi as int] == pattern@[pi as int]@);
        assert(pd.skip(pi as int).skip(1) =~= pd.skip(pi + 1));
    }
    let pseg: &String = &pattern[pi];
    if str_eq(pseg.as_str(), "**") {
        if match_segments(pattern, pi + 1, path, qi) {
            return true;
        }
        if qi < path.len() {
            proof {
                assert(td.skip(qi as int).skip(1) =~= td.skip(qi + 1));
            }
            return match_segments(pattern, pi, path, qi + 1);
        }
        return false;
    }
    if qi == path.len() {
        return false;
    }
    proof {
        assert(td.skip(qi as int)[0] == td[qi as int]);
        assert(td[qi as int] == path@[qi as int]@);
        assert(td.skip(qi as int).skip(1) =~= td.skip(qi + 1));
    }
    if !match_segment(pseg.as_str(), path[qi].as_str()) {
        return false;
    }
    match_segments(pattern, pi + 1, path, qi + 1)
}

/// Whole-path glob matching of `path` against `pattern`
/// (see [`glob_match_spec`]).
pub fn glob_match(pattern: &str, path: &str) -> (r: bool)
    ensures
        r == glob_match_spec(pattern@, path@),
{
    let p = strip_leading_dot_slash(pattern);
    let t = strip_leading_dot_slash(path);
    if p.unicode_len() == 0 {
        return t.unicode_len() == 0;
    }
    let psegs = split_segments(p);
    let tsegs = split_segments(t);
    proof {
        assert(psegs.deep_view().skip(0) =~= psegs.deep_view());
        assert(tsegs.deep_view().skip(0) =~= tsegs.deep_view());
    }
    match_segments(&psegs, 0, &tsegs, 0)
}

/// Does any pattern of the list match `path`?
pub fn matches_any(patterns: &Vec<String>, path: &str) -> (r: bool)
    ensures
        r == exists|k: int|
            0 <= k < patterns@.len() && glob_match_spec(#[trigger] patterns@[k]@, path@),
{
    let mut i: usize = 0;
    while i < patterns.len()
        invariant
            i <= patterns@.len(),
            forall|k: int| 0 <= k < i ==> !glob_match_spec(#[trigger] patterns@[k]@, path@),
        decreases patterns@.len() - i,
    {
        if glob_match(patterns[i].as_str(), path) {
            return true;
        }
        i = i + 1;
    }
    false
}

/// The state of splitting one raw pattern on commas: the trimmed non-empty
/// patterns closed so far, and the raw piece being accumulated.
pub open spec fn pat_fold(s: Seq<char>) -> (Seq<Seq<char>>, Seq<char>)
    decreases s.len(),
{
    if s.len() == 0 {
        (Seq::empty(), Seq::empty())
    } else {
        let prev = pat_fold(s.drop_last());
        if s.last() == ',' {
            if trim_spec(prev.1).len() > 0 {
                (prev.0.push(trim_spec(prev.1)), Seq::empty())
            } else {
                (prev.0, Seq::empty())
            }
        } else {
            (prev.0, prev.1.push(s.last()))
        }
    }
}

/// The trimmed, non-empty comma-separated pieces of one raw pattern.
pub open spec fn patterns_in(s: Seq<char>) -> Seq<Seq<char>> {
    let f = pat_fold(s);
    if trim_spec(f.1).len() > 0 {
        f.0.push(trim_spec(f.1))
    } else {
        f.0
    }
}

/// All patterns of a raw list, each split on commas and trimmed, with empty
/// pieces dropped.
pub open spec fn normalized_patterns(ps: Seq<Seq<char>>) -> Seq<Seq<char>>
    decreases ps.len(),
{
    if ps.len() == 0 {
        Seq::empty()
    } else {
        normalized_patterns(ps.drop_last()) + patterns_in(ps.last())
    }
}

/// Splits every raw pattern on commas, trims the pieces, and drops empty
/// ones.
pub fn normalize_patterns(patterns: &Vec<String>) -> (r: Vec<String>)
    ensures
        r.deep_view() == normalized_patterns(patterns.deep_view()),
{
    let mut out: Vec<String> = Vec::new();
    let mut pi: usize = 0;
    while pi < patterns.len()
        invariant
            pi <= patterns@.len(),
            out.deep_view() == normalized_patterns(patterns.deep_view().take(pi as int)),
        decreases patterns@.len() - pi,
    {
        let ghost done = normalized_patterns(patterns.deep_view().take(pi as int));
        let s: &str = patterns[pi].as_str();
        proof {
            assert(patterns.deep_view()[pi as int] == patterns@[pi as int]@);
            assert(patterns.deep_view().take(pi + 1).drop_last() =~= patterns.deep_view().take(
                pi as int,
            ));
            assert(patterns.deep_view().take(pi + 1).last() == patterns.deep_view()[pi as int]);
        }
        let n = s.unicode_len();
        let mut cur: String = String::new();
        let mut i: usize = 0;
        while i < n
            invariant
                n == s@.len(),
                i <= n,
                done == normalized_patterns(patterns.deep_view().take(pi as int)),
                out.deep_view() == done + pat_fold(s@.take(i as int)).0,
                cur@ == pat_fold(s@.take(i as int)).1,
            decreases n - i,
        {
            let c = s.get_char(i);
            proof {
                assert(s@.take(i + 1) =~= s@.take(i as int).push(s@[i as int]));
                assert(s@.take(i + 1).drop_last() =~= s@.take(i as int));
            }
            if c == ',' {
                let piece = trim_ascii(cur.as_str());
                if piece.unicode_len() > 0 {
                    let ghost old_dv = out.deep_view();
                    let ghost piece_view = piece@;
                    out.push(piece.to_owned());
                    proof {
                        assert(out.deep_view() =~= old_dv.push(piece_view));
                    }
                }
                cur = String::new();
            } else {
                cur.push(c);
            }
            i = i + 1;
        }
        proof {
            assert(s@.take(n as int) =~= s@);
        }
        let piece = trim_ascii(cur.as_str());
        if piece.unicode_len() > 0 {
            let ghost old_dv = out.deep_view();
            let ghost piece_view = piece@;
            out.push(piece.to_owned());
            proof {
                assert(out.deep_view() =~= old_dv.push(piece_view));
            }
        }
        proof {
            assert(out.deep_view() =~= done + patterns_in(s@));
            assert(out.deep_view() =~= normalized_patterns(patterns.deep_view().take(pi + 1)));
        }
        pi = pi + 1;
    }
    proof {
        assert(patterns.deep_view().take(patterns@.len() as int) =~= patterns.deep_view());
    }
    out
}

/// Law: a segment-local wildcard never crosses a path separator — a pattern
/// of one segment other than `**` matches no path of any other number of
/// segments.
pub proof fn lemma_single_segment_stays_in_segment(p: Seq<Seq<char>>, t: Seq<Seq<char>>)
    requires
        p.len() == 1,
        p[0] != "**"@,
        t.len() != 1,
    ensures
        !seg_match(p, t),
{
    if t.len() > 1 {
        assert(p.skip(1).len() == 0);
        assert(t.skip(1).len() != 0);
        assert(!seg_match(p.skip(1), t.skip(1)));
    }
}

/// Law: a pattern consisting of the single segment `**` matches every path.
pub proof fn lemma_double_star_matches_all(path: Seq<char>)
    ensures
        glob_match_spec("**"@, path),
{
    reveal_strlit("**");
    reveal_with_fuel(seg_fold, 4);
    let s = "**"@;
    let s1 = seq!['*'];
    assert(s.len() == 2 && s[0] == '*' && s[1] == '*');
    assert(strip_dot_slash(s) == s);
    assert(s1.drop_last() =~= Seq::<char>::empty());
    assert(seg_fold(s1).0 =~= Seq::<Seq<char>>::empty());
    assert(seg_fold(s1).1 =~= s1);
    assert(s.drop_last() =~= s1);
    assert(s.last() == '*');
    assert(seg_fold(s).0 =~= Seq::<Seq<char>>::empty());
    assert(seg_fold(s).1 =~= s);
    assert(segments_of(s) =~= seq![s]);
    lemma_seg_double_star(segments_of(strip_dot_slash(path)));
}

proof fn lemma_seg_double_star(t: Seq<Seq<char>>)
    ensures
        seg_match(seq!["**"@], t),
    decreases t.len(),
{
    let p = seq!["**"@];
    assert(p[0] == "**"@);
    assert(p.skip(1) =~= Seq::<Seq<char>>::empty());
    if t.len() == 0 {
        assert(seg_match(p.skip(1), t));
    } else {
        lemma_seg_double_star(t.skip(1));
    }
}

} // verus!
