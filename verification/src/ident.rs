//! Hunk identity: a content-addressed identifier per hunk, computed as a
//! 256-bit digest over the hunk's kind, removed text, added text and optional
//! context, rendered as lowercase hexadecimal behind a fixed prefix; and
//! normalization of externally supplied identifiers.

use vstd::prelude::*;
use crate::strutil::{has_prefix, starts_with};
use sha2::Digest;

verus! {

/// Canonical prefix of every hunk identifier.
pub const HUNK_ID_PREFIX: &'static str = "hunk-";

/// The 32-byte digest that the SHA-256 hash of the UTF-8 encoding of `s`
/// yields; a pure function of `s`.
pub uninterp spec fn sha256_of(s: Seq<char>) -> Seq<u8>;

/// Relies on `sha2::Sha256` through `digest::Digest::digest`: a pure
/// 32-byte digest of the input bytes, the same for equal inputs everywhere.
#[verifier::external_body]
fn sha256_digest(s: &str) -> (r: Vec<u8>)
    ensures
        r@ == sha256_of(s@),
        r@.len() == 32,
{
    sha2::Sha256::digest(s.as_bytes()).to_vec()
}

/// The lowercase hexadecimal digit for a nibble.
pub open spec fn hex_digit(n: int) -> char {
    if n < 10 {
        ((48 + n) as u8) as char
    } else {
        ((87 + n) as u8) as char
    }
}

/// The two lowercase hexadecimal digits of one byte, high nibble first.
pub open spec fn hex_pair(b: u8) -> Seq<char> {
    seq![hex_digit(b as int / 16), hex_digit(b as int % 16)]
}

/// The lowercase hexadecimal rendering of a byte string.
pub open spec fn hex_of(bytes: Seq<u8>) -> Seq<char>
    decreases bytes.len(),
{
    if bytes.len() == 0 {
        Seq::empty()
    } else {
        hex_of(bytes.drop_last()) + hex_pair(bytes.last())
    }
}

/// Renders `bytes` as lowercase hexadecimal, two digits per byte.
pub fn hex_encode(bytes: &[u8]) -> (r: String)
    ensures
        r@ == hex_of(bytes@),
{
    let n = bytes.len();
    let mut out = String::new();
    let mut i: usize = 0;
    while i < n
        invariant
            n == bytes@.len(),
            i <= n,
            out@ == hex_of(bytes@.take(i as int)),
        decreases n - i,
    {
        let b = bytes[i];
        let hi = b / 16;
        let lo = b % 16;
        let hi_c: char = if hi < 10 {
            ((48 + hi) as u8) as char
        } else {
            ((87 + hi) as u8) as char
        };
        let lo_c: char = if lo < 10 {
            ((48 + lo) as u8) as char
        } else {
            ((87 + lo) as u8) as char
        };
        out.push(hi_c);
        out.push(lo_c);
        proof {
            assert(bytes@.take(i + 1).drop_last() =~= bytes@.take(i as int));
            assert(bytes@.take(i + 1).last() == bytes@[i as int]);
            assert(hex_of(bytes@.take(i as int)).push(hi_c).push(lo_c) =~= hex_of(
                bytes@.take(i as int),
            ) + hex_pair(bytes@[i as int]));
        }
        i = i + 1;
    }
    proof {
        assert(bytes@.take(n as int) =~= bytes@);
    }
    out
}

/// The exact character string whose digest identifies a hunk: the kind,
/// removed text, added text and optional context, joined by fixed separators.
/// An absent context and an empty context hash differently.
pub open spec fn id_input(
    kind: Seq<char>,
    removed: Seq<char>,
    added: Seq<char>,
    context: Option<(Seq<char>, Seq<char>)>,
) -> Seq<char> {
    let base = "type\0"@ + kind + "\0removed\0"@ + removed + "\0added\0"@ + added + "\0context\0"@;
    match context {
        Some(ctx) => base + ctx.0 + "\0"@ + ctx.1,
        None => base,
    }
}

/// The stable identifier of a hunk with the given kind, texts and context.
pub open spec fn hunk_id_spec(
    kind: Seq<char>,
    removed: Seq<char>,
    added: Seq<char>,
    context: Option<(Seq<char>, Seq<char>)>,
) -> Seq<char> {
    "hunk-"@ + hex_of(sha256_of(id_input(kind, removed, added, context)))
}

/// Computes the stable identifier of a hunk: the prefixed lowercase
/// hexadecimal digest of the hunk's kind, texts and optional context.
pub fn hash_hunk_id(kind: &str, removed: &str, added: &str, context: Option<(&str, &str)>) -> (r:
    String)
    ensures
        r@ == hunk_id_spec(
            kind@,
            removed@,
            added@,
            match context {
                Some(ctx) => Some((ctx.0@, ctx.1@)),
                None => None,
            },
        ),
{
    let mut input = String::new();
    input.append("type\0");
    input.append(kind);
    input.append("\0removed\0");
    input.append(removed);
    input.append("\0added\0");
    input.append(added);
    input.append("\0context\0");
    match context {
        Some(ctx) => {
            input.append(ctx.0);
            input.append("\0");
            input.append(ctx.1);
        },
        None => {},
    }
    let digest = sha256_digest(input.as_str());
    let hex = hex_encode(digest.as_slice());
    let mut out = String::from_str(HUNK_ID_PREFIX);
    out.append(hex.as_str());
    out
}

/// ASCII whitespace, as stripped from the ends of a raw identifier.
pub open spec fn is_space(c: char) -> bool {
    c == ' ' || c == '\t' || c == '\n' || c == '\r'
}

pub open spec fn trim_front(s: Seq<char>) -> Seq<char>
    decreases s.len(),
{
    if s.len() > 0 && is_space(s[0]) {
        trim_front(s.skip(1))
    } else {
        s
    }
}

pub open spec fn trim_back(s: Seq<char>) -> Seq<char>
    decreases s.len(),
{
    if s.len() > 0 && is_space(s.last()) {
        trim_back(s.drop_last())
    } else {
        s
    }
}

/// `s` with ASCII whitespace removed from both ends.
pub open spec fn trim_spec(s: Seq<char>) -> Seq<char> {
    trim_back(trim_front(s))
}

proof fn lemma_trim_front_skip(s: Seq<char>, lo: int)
    requires
        0 <= lo <= s.len(),
        forall|k: int| 0 <= k < lo ==> is_space(s[k]),
    ensures
        trim_front(s) == trim_front(s.skip(lo)),
    decreases lo,
{
    if lo > 0 {
        assert(is_space(s[0]));
        assert(trim_front(s) == trim_front(s.skip(1)));
        assert(s.skip(1).len() == s.len() - 1);
        assert(forall|k: int| 0 <= k < lo - 1 ==> is_space(s.skip(1)[k]));
        lemma_trim_front_skip(s.skip(1), lo - 1);
        assert(s.skip(1).skip(lo - 1) =~= s.skip(lo));
    } else {
        assert(s.skip(0) =~= s);
    }
}

proof fn lemma_trim_back_sub(s: Seq<char>, hi: int)
    requires
        0 <= hi <= s.len(),
        forall|k: int| hi <= k < s.len() ==> is_space(s[k]),
    ensures
        trim_back(s) == trim_back(s.take(hi)),
    decreases s.len() - hi,
{
    if hi < s.len() {
        assert(is_space(s.last()));
        assert(trim_back(s) == trim_back(s.drop_last()));
        lemma_trim_back_sub(s.drop_last(), hi);
        assert(s.drop_last().take(hi) =~= s.take(hi));
    } else {
        assert(s.take(hi) =~= s);
    }
}

/// Index of the first character of `s` that is not ASCII whitespace.
fn first_non_space(s: &str) -> (r: usize)
    ensures
        r <= s@.len(),
        forall|k: int| 0 <= k < r ==> is_space(s@[k]),
        r < s@.len() ==> !is_space(s@[r as int]),
{
    let n = s.unicode_len();
    let mut lo: usize = 0;
    while lo < n
        invariant
            n == s@.len(),
            lo <= n,
            forall|k: int| 0 <= k < lo ==> is_space(s@[k]),
        decreases n - lo,
    {
        let c = s.get_char(lo);
        if !(c == ' ' || c == '\t' || c == '\n' || c == '\r') {
            return lo;
        }
        lo = lo + 1;
    }
    lo
}

/// One past the last character of `s` at index `lo` or later that is not
/// ASCII whitespace.
fn last_non_space(s: &str, lo: usize) -> (r: usize)
    requires
        lo <= s@.len(),
    ensures
        lo <= r <= s@.len(),
        forall|k: int| r <= k < s@.len() ==> is_space(s@[k]),
        r > lo ==> !is_space(s@[r - 1]),
{
    let n = s.unicode_len();
    let mut hi: usize = n;
    while hi > lo
        invariant
            n == s@.len(),
            lo <= hi <= n,
            forall|k: int| hi <= k < n ==> is_space(s@[k]),
        decreases hi,
    {
        let c = s.get_char(hi - 1);
        if !(c == ' ' || c == '\t' || c == '\n' || c == '\r') {
            return hi;
        }
        hi = hi - 1;
    }
    hi
}

/// Removes ASCII whitespace from both ends of `s`.
pub fn trim_ascii(s: &str) -> (r: &str)
    ensures
        r@ == trim_spec(s@),
{
    let n = s.unicode_len();
    let lo = first_non_space(s);
    proof {
        lemma_trim_front_skip(s@, lo as int);
        if lo < n {
            assert(s@.skip(lo as int)[0] == s@[lo as int]);
        }
        assert(trim_front(s@) == s@.skip(lo as int));
    }
    let hi = last_non_space(s, lo);
    let r = s.substring_char(lo, hi);
    proof {
        let t = s@.skip(lo as int);
        assert(forall|k: int| hi - lo <= k < t.len() ==> is_space(t[k]));
        lemma_trim_back_sub(t, hi - lo);
        assert(t.take(hi - lo) =~= s@.subrange(lo as int, hi as int));
        if hi > lo {
            assert(t.take(hi - lo).last() == s@[hi - 1]);
            assert(!is_space(t.take(hi - lo).last()));
        }
        assert(trim_back(t.take(hi - lo)) == t.take(hi - lo));
    }
    r
}

/// A hexadecimal digit, either case.
pub open spec fn is_hex_char(c: char) -> bool {
    (48 <= c as u32 && c as u32 <= 57) || (97 <= c as u32 && c as u32 <= 102) || (65 <= c as u32
        && c as u32 <= 70)
}

pub open spec fn all_hex(s: Seq<char>) -> bool {
    forall|i: int| 0 <= i < s.len() ==> is_hex_char(#[trigger] s[i])
}

/// Uppercase hexadecimal letters lowered; all other characters unchanged.
pub open spec fn lower_hex_char(c: char) -> char {
    if 65 <= c as u32 && c as u32 <= 70 {
        ((c as u32 + 32) as u8) as char
    } else {
        c
    }
}

pub open spec fn lower_hex(s: Seq<char>) -> Seq<char> {
    s.map_values(|c: char| lower_hex_char(c))
}

/// A recognized identifier prefix removed from the front of `t`, if any.
pub open spec fn strip_recognized(t: Seq<char>) -> Seq<char> {
    if has_prefix(t, "hunk-"@) {
        t.skip("hunk-"@.len() as int)
    } else if has_prefix(t, "id:"@) {
        t.skip("id:"@.len() as int)
    } else if has_prefix(t, "sha:"@) {
        t.skip("sha:"@.len() as int)
    } else if has_prefix(t, "sha256:"@) {
        t.skip("sha256:"@.len() as int)
    } else {
        t
    }
}

/// Canonical form of a raw identifier: after trimming, a recognized prefix is
/// stripped; the remainder must be non-empty hexadecimal, and is lowercased
/// and put behind the canonical prefix.  Anything else fails.
pub open spec fn normalize_spec(s: Seq<char>) -> Option<Seq<char>> {
    let t = trim_spec(s);
    if t.len() == 0 {
        None
    } else {
        let h = strip_recognized(t);
        if h.len() > 0 && all_hex(h) {
            Some("hunk-"@ + lower_hex(h))
        } else {
            None
        }
    }
}

/// Normalizes a user-supplied hunk identifier to its canonical form, or
/// reports that it is not a valid identifier.
pub fn normalize_hunk_id(value: &str) -> (r: Option<String>)
    ensures
        (r is Some) == (normalize_spec(value@) is Some),
        r is Some ==> r.unwrap()@ == normalize_spec(value@).unwrap(),
{
    let t = trim_ascii(value);
    let n = t.unicode_len();
    if n == 0 {
        return None;
    }
    let h: &str = if starts_with(t, "hunk-") {
        proof {
            reveal_strlit("hunk-");
        }
        let sub = t.substring_char(5, n);
        proof {
            assert(sub@ =~= t@.skip(5));
        }
        sub
    } else if starts_with(t, "id:") {
        proof {
            reveal_strlit("id:");
        }
        let sub = t.substring_char(3, n);
        proof {
            assert(sub@ =~= t@.skip(3));
        }
        sub
    } else if starts_with(t, "sha:") {
        proof {
            reveal_strlit("sha:");
        }
        let sub = t.substring_char(4, n);
        proof {
            assert(sub@ =~= t@.skip(4));
        }
        sub
    } else if starts_with(t, "sha256:") {
        proof {
            reveal_strlit("sha256:");
        }
        let sub = t.substring_char(7, n);
        proof {
            assert(sub@ =~= t@.skip(7));
        }
        sub
    } else {
        t
    };
    proof {
        assert(h@ == strip_recognized(t@));
    }
    let hn = h.unicode_len();
    if hn == 0 {
        return None;
    }
    let mut i: usize = 0;
    while i < hn
        invariant
            t@ == trim_spec(value@),
            t@.len() > 0,
            h@ == strip_recognized(t@),
            hn == h@.len(),
            hn > 0,
            i <= hn,
            forall|k: int| 0 <= k < i ==> is_hex_char(#[trigger] h@[k]),
        decreases hn - i,
    {
        let c = h.get_char(i);
        let x = c as u32;
        if !((48 <= x && x <= 57) || (97 <= x && x <= 102) || (65 <= x && x <= 70)) {
            proof {
                assert(!is_hex_char(h@[i as int]));
                assert(!all_hex(h@));
            }
            return None;
        }
        i = i + 1;
    }
    let mut out = String::from_str(HUNK_ID_PREFIX);
    let mut j: usize = 0;
    while j < hn
        invariant
            t@ == trim_spec(value@),
            t@.len() > 0,
            h@ == strip_recognized(t@),
            hn == h@.len(),
            hn > 0,
            all_hex(h@),
            j <= hn,
            out@ == "hunk-"@ + lower_hex(h@.take(j as int)),
        decreases hn - j,
    {
        let c = h.get_char(j);
        let x = c as u32;
        let lc: char = if 65 <= x && x <= 70 {
            ((x + 32) as u8) as char
        } else {
            c
        };
        out.push(lc);
        proof {
            assert(lower_hex(h@.take(j + 1)) =~= lower_hex(h@.take(j as int)).push(
                lower_hex_char(h@[j as int]),
            ));
        }
        j = j + 1;
    }
    proof {
        assert(h@.take(hn as int) =~= h@);
    }
    Some(out)
}

/// Law: normalization is idempotent — normalizing an already canonical
/// identifier yields it unchanged — and its output is canonical lowercase.
pub proof fn lemma_normalize_idempotent(s: Seq<char>)
    ensures
        normalize_spec(s) is Some ==> normalize_spec(normalize_spec(s).unwrap()) == normalize_spec(
            s,
        ),
{
    reveal_strlit("hunk-");
    reveal_strlit("id:");
    reveal_strlit("sha:");
    reveal_strlit("sha256:");
    if normalize_spec(s) is Some {
        let t = trim_spec(s);
        let h = strip_recognized(t);
        let y = "hunk-"@ + lower_hex(h);
        assert(normalize_spec(s) == Some(y));
        // No character of `y` is whitespace, so trimming leaves it unchanged.
        assert forall|i: int| 0 <= i < y.len() implies !is_space(y[i]) by {
            if i < 5 {
                assert(!is_space(y[i]));
            } else {
                let c = h[i - 5];
                assert(is_hex_char(c));
                assert(y[i] == lower_hex_char(c));
            }
        }
        assert(y.len() > 0);
        assert(!is_space(y[0]));
        assert(trim_front(y) == y);
        assert(!is_space(y.last()));
        assert(trim_back(y) == y);
        assert(trim_spec(y) == y);
        // `y` carries the canonical prefix, which is stripped again.
        assert(y.subrange(0, 5) =~= "hunk-"@);
        assert(has_prefix(y, "hunk-"@));
        assert(strip_recognized(y) =~= lower_hex(h));
        // The stripped remainder is non-empty lowercase hexadecimal.
        assert(lower_hex(h).len() == h.len());
        assert forall|i: int| 0 <= i < lower_hex(h).len() implies is_hex_char(
            #[trigger] lower_hex(h)[i],
        ) by {
            assert(is_hex_char(h[i]));
        }
        // Lowercasing is idempotent.
        assert(lower_hex(lower_hex(h)) =~= lower_hex(h));
        assert(normalize_spec(y) == Some(y));
    }
}

} // verus!
