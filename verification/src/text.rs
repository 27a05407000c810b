//! Character-level text primitives: equality and lexicographic order on
//! strings (by Unicode code point, the order `str` comparison uses for
//! ASCII paths), and whitespace trimming over an index range.

use vstd::prelude::*;

verus! {

/// The Unicode `White_Space` set, the characters `str::trim` strips:
/// the ASCII whitespace controls and space, next line, no-break space, the
/// Ogham space mark, the typographic spaces, both line and paragraph
/// separators, the narrow and medium mathematical spaces, and the
/// ideographic space.
pub open spec fn is_space(c: char) -> bool {
    ('\u{0009}' <= c && c <= '\u{000D}') || c == ' ' || c == '\u{0085}' || c == '\u{00A0}'
        || c == '\u{1680}' || ('\u{2000}' <= c && c <= '\u{200A}') || c == '\u{2028}'
        || c == '\u{2029}' || c == '\u{202F}' || c == '\u{205F}' || c == '\u{3000}'
}

fn is_space_char(c: char) -> (r: bool)
    ensures
        r == is_space(c),
{
    ('\u{0009}' <= c && c <= '\u{000D}') || c == ' ' || c == '\u{0085}' || c == '\u{00A0}'
        || c == '\u{1680}' || ('\u{2000}' <= c && c <= '\u{200A}') || c == '\u{2028}'
        || c == '\u{2029}' || c == '\u{202F}' || c == '\u{205F}' || c == '\u{3000}'
}

/// Lexicographic "less than or equal" on the suffixes of `a` and `b`
/// starting at position `i`, comparing code points.
pub open spec fn lex_le_from(a: Seq<char>, b: Seq<char>, i: int) -> bool
    decreases a.len() - i,
{
    if i >= a.len() {
        true
    } else if i >= b.len() {
        false
    } else if (a[i] as u32) == (b[i] as u32) {
        lex_le_from(a, b, i + 1)
    } else {
        (a[i] as u32) < (b[i] as u32)
    }
}

/// Lexicographic order on character sequences: a prefix sorts before its
/// extensions; otherwise the first differing code point decides.
pub open spec fn lex_le(a: Seq<char>, b: Seq<char>) -> bool {
    lex_le_from(a, b, 0)
}

proof fn lemma_lex_total_from(a: Seq<char>, b: Seq<char>, i: int)
    requires
        0 <= i,
    ensures
        lex_le_from(a, b, i) || lex_le_from(b, a, i),
    decreases a.len() - i,
{
    if i >= a.len() {
    } else if i >= b.len() {
    } else if (a[i] as u32) == (b[i] as u32) {
        lemma_lex_total_from(a, b, i + 1);
    }
}

/// Any two sequences are comparable.
pub proof fn lemma_lex_total(a: Seq<char>, b: Seq<char>)
    ensures
        lex_le(a, b) || lex_le(b, a),
{
    lemma_lex_total_from(a, b, 0);
}

proof fn lemma_lex_trans_from(a: Seq<char>, b: Seq<char>, c: Seq<char>, i: int)
    requires
        0 <= i,
        lex_le_from(a, b, i),
        lex_le_from(b, c, i),
    ensures
        lex_le_from(a, c, i),
    decreases a.len() - i,
{
    if i >= a.len() {
    } else if i >= b.len() {
        assert(false);
    } else if i >= c.len() {
        assert(false);
    } else if (a[i] as u32) == (b[i] as u32) && (b[i] as u32) == (c[i] as u32) {
        lemma_lex_trans_from(a, b, c, i + 1);
    }
}

/// The order is transitive.
pub proof fn lemma_lex_trans(a: Seq<char>, b: Seq<char>, c: Seq<char>)
    requires
        lex_le(a, b),
        lex_le(b, c),
    ensures
        lex_le(a, c),
{
    lemma_lex_trans_from(a, b, c, 0);
}

/// Whether the character sequences of `a` and `b` are equal.
pub fn str_eq(a: &str, b: &str) -> (r: bool)
    ensures
        r == (a@ == b@),
{
    let la = a.unicode_len();
    let lb = b.unicode_len();
    if la != lb {
        return false;
    }
    let mut i: usize = 0;
    while i < la
        invariant
            la == a@.len(),
            la == b@.len(),
            i <= la,
            forall|j: int| 0 <= j < i ==> a@[j] == b@[j],
        decreases la - i,
    {
        if a.get_char(i) != b.get_char(i) {
            return false;
        }
        i = i + 1;
    }
    proof {
        assert(a@ =~= b@);
    }
    true
}

/// Whether `a` sorts at or before `b` in lexicographic code-point order.
pub fn str_le(a: &str, b: &str) -> (r: bool)
    ensures
        r == lex_le(a@, b@),
{
    let la = a.unicode_len();
    let lb = b.unicode_len();
    let mut i: usize = 0;
    loop
        invariant
            la == a@.len(),
            lb == b@.len(),
            i <= la,
            i <= lb,
            lex_le(a@, b@) == lex_le_from(a@, b@, i as int),
        decreases la - i,
    {
        if i >= la {
            return true;
        }
        if i >= lb {
            return false;
        }
        let ca = a.get_char(i);
        let cb = b.get_char(i);
        if (ca as u32) != (cb as u32) {
            return (ca as u32) < (cb as u32);
        }
        i = i + 1;
    }
}

/// How many leading characters of `s` are whitespace.
pub open spec fn space_prefix(s: Seq<char>) -> int
    decreases s.len(),
{
    if s.len() > 0 && is_space(s[0]) {
        1 + space_prefix(s.drop_first())
    } else {
        0
    }
}

/// How many trailing characters of `s` are whitespace.
pub open spec fn space_suffix(s: Seq<char>) -> int
    decreases s.len(),
{
    if s.len() > 0 && is_space(s.last()) {
        1 + space_suffix(s.drop_last())
    } else {
        0
    }
}

/// `s` with leading and trailing whitespace removed.
pub open spec fn trim_spec(s: Seq<char>) -> Seq<char> {
    let lo = space_prefix(s);
    let hi = s.len() - space_suffix(s);
    if lo <= hi {
        s.subrange(lo, hi)
    } else {
        Seq::empty()
    }
}

pub proof fn lemma_space_prefix(s: Seq<char>)
    ensures
        0 <= space_prefix(s) <= s.len(),
        forall|j: int| 0 <= j < space_prefix(s) ==> is_space(s[j]),
        space_prefix(s) < s.len() ==> !is_space(s[space_prefix(s)]),
    decreases s.len(),
{
    if s.len() > 0 && is_space(s[0]) {
        lemma_space_prefix(s.drop_first());
        assert forall|j: int| 0 <= j < space_prefix(s) implies is_space(s[j]) by {
            if j > 0 {
                assert(s.drop_first()[j - 1] == s[j]);
            }
        }
        if space_prefix(s) < s.len() {
            assert(s.drop_first()[space_prefix(s) - 1] == s[space_prefix(s)]);
        }
    }
}

pub proof fn lemma_space_suffix(s: Seq<char>)
    ensures
        0 <= space_suffix(s) <= s.len(),
        forall|j: int| s.len() - space_suffix(s) <= j < s.len() ==> is_space(s[j]),
        space_suffix(s) < s.len() ==> !is_space(s[s.len() - space_suffix(s) - 1]),
    decreases s.len(),
{
    if s.len() > 0 && is_space(s.last()) {
        lemma_space_suffix(s.drop_last());
        assert forall|j: int| s.len() - space_suffix(s) <= j < s.len() implies is_space(s[j]) by {
            if j < s.len() - 1 {
                assert(s.drop_last()[j] == s[j]);
            }
        }
        if space_suffix(s) < s.len() {
            assert(s.drop_last()[s.len() - space_suffix(s) - 1] == s[s.len() - space_suffix(s)
                - 1]);
        }
    }
}

/// Scans the characters of `s` in the range `[from, to)` and returns the
/// sub-range that remains after trimming whitespace from both ends.
pub fn scan_trim(s: &str, from: usize, to: usize) -> (r: (usize, usize))
    requires
        from <= to <= s@.len(),
    ensures
        from <= r.0 <= r.1 <= to,
        s@.subrange(r.0 as int, r.1 as int) == trim_spec(s@.subrange(from as int, to as int)),
{
    let ghost t = s@.subrange(from as int, to as int);
    let mut lo = from;
    while lo < to && is_space_char(s.get_char(lo))
        invariant
            from <= lo <= to <= s@.len(),
            forall|j: int| from <= j < lo ==> is_space(s@[j]),
        decreases to - lo,
    {
        lo = lo + 1;
    }
    let mut hi = to;
    while hi > lo && is_space_char(s.get_char(hi - 1))
        invariant
            lo <= hi <= to <= s@.len(),
            lo == to || !is_space(s@[lo as int]),
            lo < to ==> hi > lo,
            forall|j: int| hi <= j < to ==> is_space(s@[j]),
        decreases hi,
    {
        hi = hi - 1;
    }
    proof {
        lemma_space_prefix(t);
        lemma_space_suffix(t);
        let p = space_prefix(t);
        let q = space_suffix(t);
        assert forall|j: int| 0 <= j < t.len() implies t[j] == s@[from + j] by {}
        // the forward scan stopped exactly at the whitespace prefix of t
        if lo < to {
            assert(!is_space(t[lo - from]));
            if p < lo - from {
                assert(is_space(t[p]));
                assert(false);
            }
            if p > lo - from {
                assert(is_space(t[lo - from]));
                assert(false);
            }
        } else {
            if p < t.len() {
                assert(is_space(t[p]));
                assert(false);
            }
        }
        assert(p == lo - from);
        // and the backward scan stopped exactly at the whitespace suffix
        if lo < to {
            assert(hi > lo);
            assert(!is_space(t[hi - 1 - from]));
            if t.len() - q > hi - from {
                assert(is_space(t[t.len() - q - 1]));
                assert(false);
            }
            if t.len() - q < hi - from {
                assert(is_space(t[hi - 1 - from]));
                assert(false);
            }
            assert(t.len() - q == hi - from);
            assert(s@.subrange(lo as int, hi as int) =~= t.subrange(p, t.len() - q));
        } else {
            assert(lo == to && hi == to);
            assert(p == t.len());
            if q < t.len() {
                assert(is_space(t[t.len() - q - 1]));
                assert(false);
            }
            assert(s@.subrange(lo as int, hi as int) =~= Seq::<char>::empty());
        }
    }
    (lo, hi)
}

} // verus!
