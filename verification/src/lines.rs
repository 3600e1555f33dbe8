//! Line segmentation: splitting a text into physical lines that keep their
//! trailing `'\n'`, and counting the lines of a piece of text.

use vstd::prelude::*;

verus! {

/// Number of `'\n'` characters in `s`.
pub open spec fn newline_count(s: Seq<char>) -> int
    decreases s.len(),
{
    if s.len() == 0 {
        0
    } else {
        newline_count(s.drop_last()) + if s.last() == '\n' {
            1int
        } else {
            0int
        }
    }
}

/// Number of physical lines in `s`: every `'\n'` closes a line, and a
/// non-empty trailing remainder without `'\n'` counts as one more line.
pub open spec fn line_count(s: Seq<char>) -> int {
    if s.len() == 0 {
        0
    } else if s.last() == '\n' {
        newline_count(s)
    } else {
        newline_count(s) + 1
    }
}

pub proof fn lemma_newline_count_le_len(s: Seq<char>)
    ensures
        0 <= newline_count(s) <= s.len(),
    decreases s.len(),
{
    if s.len() > 0 {
        lemma_newline_count_le_len(s.drop_last());
    }
}

pub proof fn lemma_line_count_le_len(s: Seq<char>)
    ensures
        0 <= line_count(s) <= s.len(),
{
    lemma_newline_count_le_len(s);
    if s.len() > 0 && s.last() != '\n' {
        lemma_newline_count_le_len(s.drop_last());
    }
}

/// The state of a left-to-right line split: the closed lines so far, and the
/// open line being accumulated.
pub open spec fn split_fold(s: Seq<char>) -> (Seq<Seq<char>>, Seq<char>)
    decreases s.len(),
{
    if s.len() == 0 {
        (Seq::empty(), Seq::empty())
    } else {
        let prev = split_fold(s.drop_last());
        if s.last() == '\n' {
            (prev.0.push(prev.1.push('\n')), Seq::empty())
        } else {
            (prev.0, prev.1.push(s.last()))
        }
    }
}

/// The physical lines of `s`, each keeping its trailing `'\n'`; a trailing
/// partial line is kept as the final element.
pub open spec fn lines_of(s: Seq<char>) -> Seq<Seq<char>> {
    let f = split_fold(s);
    if f.1.len() > 0 {
        f.0.push(f.1)
    } else {
        f.0
    }
}

/// Counts the physical lines of `value` (see [`line_count`]).
pub fn count_lines(value: &str) -> (r: usize)
    ensures
        r as int == line_count(value@),
{
    let n = value.unicode_len();
    let mut count: usize = 0;
    let mut i: usize = 0;
    while i < n
        invariant
            n == value@.len(),
            i <= n,
            count as int == newline_count(value@.take(i as int)),
            count <= i,
        decreases n - i,
    {
        let c = value.get_char(i);
        proof {
            assert(value@.take(i + 1) =~= value@.take(i as int).push(value@[i as int]));
            assert(value@.take(i + 1).drop_last() =~= value@.take(i as int));
        }
        if c == '\n' {
            count = count + 1;
        }
        i = i + 1;
    }
    proof {
        assert(value@.take(n as int) =~= value@);
    }
    if n > 0 && value.get_char(n - 1) != '\n' {
        proof {
            assert(value@.last() == value@[n - 1]);
            lemma_newline_count_le_len(value@.drop_last());
        }
        count = count + 1;
    }
    count
}

/// Splits `text` into its physical lines, each keeping its trailing `'\n'`;
/// a non-empty trailing remainder without `'\n'` becomes the final line.
/// Empty input yields no lines.
pub fn split_lines_with_endings(text: &str) -> (r: Vec<String>)
    ensures
        r.deep_view() == lines_of(text@),
{
    let n = text.unicode_len();
    let mut result: Vec<String> = Vec::new();
    let mut cur: String = String::new();
    let mut i: usize = 0;
    while i < n
        invariant
            n == text@.len(),
            i <= n,
            result.deep_view() == split_fold(text@.take(i as int)).0,
            cur@ == split_fold(text@.take(i as int)).1,
        decreases n - i,
    {
        let c = text.get_char(i);
        proof {
            assert(text@.take(i + 1) =~= text@.take(i as int).push(text@[i as int]));
            assert(text@.take(i + 1).drop_last() =~= text@.take(i as int));
        }
        cur.push(c);
        if c == '\n' {
            let ghost old_dv = result.deep_view();
            let ghost cur_view = cur@;
            result.push(cur);
            proof {
                assert(result.deep_view() =~= old_dv.push(cur_view));
            }
            cur = String::new();
        }
        i = i + 1;
    }
    proof {
        assert(text@.take(n as int) =~= text@);
    }
    if cur.as_str().unicode_len() > 0 {
        let ghost old_dv = result.deep_view();
        let ghost cur_view = cur@;
        result.push(cur);
        proof {
            assert(result.deep_view() =~= old_dv.push(cur_view));
        }
    }
    result
}

} // verus!
