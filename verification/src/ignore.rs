//! Path-exclusion rules, parsed from a per-group rule file. One rule per
//! line: blank lines and `#` comments are skipped, an inline ` #` comment is
//! stripped, a leading `!` negates, and the rest is a shell-style glob
//! matched against a forward-slash relative path. Evaluation is
//! last-match-wins: the final matching rule decides, so order in the file is
//! semantically significant.

use vstd::prelude::*;

use crate::error::{Error, ErrorKind};
use crate::text::{scan_trim, space_prefix, space_suffix, trim_spec};
use vstd::string::StringExecFns;

verus! {

/// Whether a rule text compiles as a glob pattern, as glob::Pattern::new
/// decides it.
pub uninterp spec fn pattern_ok(pattern: Seq<char>) -> bool;

/// Whether a glob pattern matches a path under default match options, as
/// glob::Pattern::matches decides it; a text that does not compile as a
/// pattern matches nothing. The matching rules are fixed per build of this
/// library: glob selects its path-separator handling at compile time.
pub uninterp spec fn glob_match(pattern: Seq<char>, path: Seq<char>) -> bool;

/// Relies on glob::Pattern::new: whether a pattern text compiles depends on
/// the text alone. The error's rendering is handed back for diagnostics.
#[verifier::external_body]
fn check_pattern(text: &str) -> (r: Result<(), String>)
    ensures
        (r is Ok) == pattern_ok(text@),
{
    match glob::Pattern::new(text) {
        Ok(_) => Ok(()),
        Err(e) => Err(e.to_string()),
    }
}

/// Relies on glob::Pattern::new and glob::Pattern::matches: whether the
/// pattern, compiled fresh and matched with default options, matches the
/// path is a function of the two strings alone; a text that does not
/// compile matches nothing.
#[verifier::external_body]
fn glob_match_str(pattern: &str, path: &str) -> (r: bool)
    ensures
        r == glob_match(pattern@, path@),
{
    match glob::Pattern::new(pattern) {
        Ok(p) => p.matches(path),
        Err(_) => false,
    }
}

/// The position of the first inline-comment marker `" #"` in `s`, or
/// `s.len()` when there is none.
pub open spec fn comment_cut(s: Seq<char>) -> int
    decreases s.len(),
{
    if s.len() < 2 {
        s.len() as int
    } else if s[0] == ' ' && s[1] == '#' {
        0
    } else {
        1 + comment_cut(s.drop_first())
    }
}

proof fn lemma_comment_cut(s: Seq<char>)
    ensures
        0 <= comment_cut(s) <= s.len(),
        comment_cut(s) < s.len() ==> comment_cut(s) + 1 < s.len() && s[comment_cut(s)] == ' '
            && s[comment_cut(s) + 1] == '#',
        forall|j: int|
            0 <= j < comment_cut(s) && j + 1 < s.len() ==> !(#[trigger] s[j] == ' ' && s[j + 1]
                == '#'),
    decreases s.len(),
{
    if s.len() < 2 {
    } else if s[0] == ' ' && s[1] == '#' {
    } else {
        lemma_comment_cut(s.drop_first());
        assert forall|j: int|
            0 <= j < comment_cut(s) && j + 1 < s.len() implies !(#[trigger] s[j] == ' ' && s[j + 1]
            == '#') by {
            if j > 0 {
                assert(s.drop_first()[j - 1] == s[j]);
                assert(s.drop_first()[j] == s[j + 1]);
            }
        }
        if comment_cut(s) < s.len() {
            assert(s.drop_first()[comment_cut(s) - 1] == s[comment_cut(s)]);
            assert(s.drop_first()[comment_cut(s)] == s[comment_cut(s) + 1]);
        }
    }
}

/// What one raw line contributes: `None` for blank and comment lines,
/// otherwise the glob text (after inline-comment stripping and trimming,
/// with a leading `!` removed) and whether the rule is negated.
pub open spec fn parse_line(raw: Seq<char>) -> Option<(Seq<char>, bool)> {
    let t = trim_spec(raw);
    if t.len() == 0 || t[0] == '#' {
        None
    } else {
        let c = comment_cut(t);
        let p = if c < t.len() {
            trim_spec(t.take(c))
        } else {
            t
        };
        if p.len() > 0 && p[0] == '!' {
            Some((p.skip(1), true))
        } else {
            Some((p, false))
        }
    }
}

/// How many characters the line starting at `i` has before its newline
/// (or before the end of input).
pub open spec fn line_len(s: Seq<char>, i: int) -> nat
    decreases s.len() - i,
{
    if i < 0 || i >= s.len() || s[i] == '\n' {
        0
    } else {
        1 + line_len(s, i + 1)
    }
}

/// Where the line starting at `i` ends: the index of its newline, or the
/// end of input.
pub open spec fn line_end(s: Seq<char>, i: int) -> int {
    if i + line_len(s, i) <= s.len() {
        i + line_len(s, i)
    } else {
        s.len() as int
    }
}

proof fn lemma_line_end(s: Seq<char>, i: int)
    requires
        0 <= i <= s.len(),
    ensures
        i <= line_end(s, i) <= s.len(),
        forall|j: int| i <= j < line_end(s, i) ==> s[j] != '\n',
        line_end(s, i) < s.len() ==> s[line_end(s, i)] == '\n',
    decreases s.len() - i,
{
    if i < s.len() && s[i] != '\n' {
        lemma_line_end(s, i + 1);
    }
}

proof fn lemma_rules_from_end(s: Seq<char>)
    ensures
        rules_from(s, s.len() as int) =~= Seq::<(Seq<char>, bool)>::empty(),
{
    assert(line_len(s, s.len() as int) == 0);
    assert(line_end(s, s.len() as int) == s.len());
    let empty = Seq::<char>::empty();
    assert(s.subrange(s.len() as int, s.len() as int) =~= empty);
    assert(space_prefix(empty) == 0);
    assert(space_suffix(empty) == 0);
    assert(trim_spec(empty) =~= empty);
    assert(parse_line(empty) is None);
    assert(rules_from(s, s.len() as int + 1) =~= Seq::<(Seq<char>, bool)>::empty());
}

/// The rules contributed by the lines of `s` from position `i` on, in file
/// order.
pub open spec fn rules_from(s: Seq<char>, i: int) -> Seq<(Seq<char>, bool)>
    decreases s.len() + 1 - i,
{
    if i < 0 || i > s.len() {
        Seq::empty()
    } else {
        let e = line_end(s, i);
        let rest = rules_from(s, e + 1);
        match parse_line(s.subrange(i, e)) {
            Some(p) => seq![p] + rest,
            None => rest,
        }
    }
}

/// All rules of a rule-file text, in file order.
pub open spec fn rules_of(content: Seq<char>) -> Seq<(Seq<char>, bool)> {
    rules_from(content, 0)
}

/// Whether every rule's glob text compiles.
pub open spec fn all_patterns_ok(rules: Seq<(Seq<char>, bool)>) -> bool {
    forall|i: int| 0 <= i < rules.len() ==> pattern_ok(rules[i].0)
}

/// The position of the first rule whose glob text does not compile, or the
/// rule count when all compile.
pub open spec fn first_invalid(rules: Seq<(Seq<char>, bool)>) -> int
    decreases rules.len(),
{
    if rules.len() == 0 {
        0
    } else if !pattern_ok(rules.first().0) {
        0
    } else {
        1 + first_invalid(rules.drop_first())
    }
}

/// How a parse failure describes itself: the message names the first rule
/// whose glob text did not compile.
pub open spec fn pattern_error_prefix(rules: Seq<(Seq<char>, bool)>) -> Seq<char> {
    "Invalid pattern '"@ + rules[first_invalid(rules)].0 + "': "@
}

proof fn lemma_first_invalid(rules: Seq<(Seq<char>, bool)>, k: int)
    requires
        0 <= k < rules.len(),
        forall|j: int| 0 <= j < k ==> pattern_ok((#[trigger] rules[j]).0),
        !pattern_ok(rules[k].0),
    ensures
        first_invalid(rules) == k,
    decreases k,
{
    if k == 0 {
    } else {
        assert(pattern_ok(rules[0].0));
        assert forall|j: int| 0 <= j < k - 1 implies pattern_ok(
            (#[trigger] rules.drop_first()[j]).0,
        ) by {
            assert(rules.drop_first()[j] == rules[j + 1]);
        }
        assert(rules.drop_first()[k - 1] == rules[k]);
        lemma_first_invalid(rules.drop_first(), k - 1);
    }
}

/// Last-match-wins evaluation: the final rule whose glob matches the path
/// decides (a negated rule includes, a plain rule ignores); with no match
/// the path is not ignored.
pub open spec fn spec_ignored(rules: Seq<(Seq<char>, bool)>, path: Seq<char>) -> bool
    decreases rules.len(),
{
    if rules.len() == 0 {
        false
    } else if glob_match(rules.last().0, path) {
        !rules.last().1
    } else {
        spec_ignored(rules.drop_last(), path)
    }
}

/// The complement of `spec_ignored`: a path is included exactly when it is
/// not ignored.
pub open spec fn spec_included(rules: Seq<(Seq<char>, bool)>, path: Seq<char>) -> bool {
    !spec_ignored(rules, path)
}

/// For every rule set and every path, inclusion is the exact complement of
/// being ignored.
pub proof fn lemma_included_complements_ignored(rules: Seq<(Seq<char>, bool)>, path: Seq<char>)
    ensures
        spec_included(rules, path) == !spec_ignored(rules, path),
{
}

/// Order sensitivity, the overriding half: appending a rule whose glob
/// matches the path decides the verdict, whatever the earlier rules said.
pub proof fn lemma_later_rule_wins(
    rules: Seq<(Seq<char>, bool)>,
    rule: (Seq<char>, bool),
    path: Seq<char>,
)
    requires
        glob_match(rule.0, path),
    ensures
        spec_ignored(rules.push(rule), path) == !rule.1,
{
    assert(rules.push(rule).last() == rule);
}

/// Order sensitivity, the inert half: appending a rule whose glob does not
/// match the path leaves the verdict unchanged.
pub proof fn lemma_unmatched_rule_inert(
    rules: Seq<(Seq<char>, bool)>,
    rule: (Seq<char>, bool),
    path: Seq<char>,
)
    requires
        !glob_match(rule.0, path),
    ensures
        spec_ignored(rules.push(rule), path) == spec_ignored(rules, path),
{
    assert(rules.push(rule).drop_last() =~= rules);
}

/// One rule: a glob text and whether a match includes rather than ignores.
#[derive(Debug)]
struct IgnorePattern {
    text: String,
    negated: bool,
}

/// An ordered rule set; evaluation order matters.
#[derive(Debug)]
pub struct IgnoreRules {
    patterns: Vec<IgnorePattern>,
}

impl View for IgnoreRules {
    type V = Seq<(Seq<char>, bool)>;

    closed spec fn view(&self) -> Seq<(Seq<char>, bool)> {
        Seq::new(self.patterns@.len(), |i: int| (self.patterns@[i].text@, self.patterns@[i].negated))
    }
}

/// What one scanned line of the input contributed.
enum LineOutcome {
    Skip,
    Rule(String, bool),
}

/// Scans one line, the characters of `s` in `[from, to)`, and returns its
/// contribution, mirroring `parse_line`.
fn parse_one_line(s: &str, from: usize, to: usize) -> (r: LineOutcome)
    requires
        from <= to <= s@.len(),
    ensures
        (match r {
            LineOutcome::Skip => parse_line(s@.subrange(from as int, to as int)) is None,
            LineOutcome::Rule(text, neg) => parse_line(s@.subrange(from as int, to as int))
                == Some((text@, neg)),
        }),
{
    let ghost raw = s@.subrange(from as int, to as int);
    let ghost t = trim_spec(raw);
    let (lo, hi) = scan_trim(s, from, to);
    if lo == hi {
        return LineOutcome::Skip;
    }
    if s.get_char(lo) == '#' {
        return LineOutcome::Skip;
    }
    let ghost c = comment_cut(t);
    proof {
        lemma_comment_cut(t);
    }
    let mut k = lo;
    while k < hi - 1 && !(s.get_char(k) == ' ' && s.get_char(k + 1) == '#')
        invariant
            lo <= k < hi <= s@.len(),
            hi > lo,
            forall|j: int| lo <= j < k ==> !(#[trigger] s@[j] == ' ' && s@[j + 1] == '#'),
        decreases hi - k,
    {
        k = k + 1;
    }
    let plo: usize;
    let phi: usize;
    if k + 1 < hi {
        // an inline comment starts at k; cut there and trim again
        proof {
            assert forall|j: int| 0 <= j < t.len() implies t[j] == s@[lo + j] by {}
            if c < k - lo {
                assert(s@[lo + c] == ' ' && s@[lo + c + 1] == '#');
                assert(false);
            }
            if c > k - lo {
                assert(!(t[k - lo] == ' ' && t[k - lo + 1] == '#'));
                assert(false);
            }
            assert(c == k - lo);
            assert(t.take(c) =~= s@.subrange(lo as int, k as int));
        }
        let (a, b) = scan_trim(s, lo, k);
        plo = a;
        phi = b;
        proof {
            assert(s@.subrange(plo as int, phi as int) == trim_spec(t.take(c)));
        }
    } else {
        // no inline comment on this line
        proof {
            assert forall|j: int| 0 <= j < t.len() implies t[j] == s@[lo + j] by {}
            if c < t.len() {
                assert(!(t[c] == ' ' && t[c + 1] == '#'));
                assert(false);
            }
            assert(c == t.len());
        }
        plo = lo;
        phi = hi;
    }
    let ghost p = (if c < t.len() {
        trim_spec(t.take(c))
    } else {
        t
    });
    proof {
        assert(s@.subrange(plo as int, phi as int) == p);
    }
    if phi > plo && s.get_char(plo) == '!' {
        let text = s.substring_char(plo + 1, phi).to_owned();
        proof {
            assert(p.skip(1) =~= s@.subrange(plo as int + 1, phi as int));
        }
        LineOutcome::Rule(text, true)
    } else {
        let text = s.substring_char(plo, phi).to_owned();
        LineOutcome::Rule(text, false)
    }
}

impl IgnoreRules {
    /// Parses a rule-file text. Returns the rule set exactly when every
    /// rule's glob compiles; the first malformed glob is reported as a
    /// `Pattern` error.
    pub fn parse(content: &str) -> (r: Result<IgnoreRules, Error>)
        ensures
            (r is Ok) == all_patterns_ok(rules_of(content@)),
            (match r {
                Ok(rules) => rules@ == rules_of(content@),
                Err(e) => e.spec_kind() == ErrorKind::Pattern && e.spec_chain().len() == 1
                    && first_invalid(rules_of(content@)) < rules_of(content@).len() && e.spec_chain()[0].take(
                    pattern_error_prefix(rules_of(content@)).len() as int,
                ) == pattern_error_prefix(rules_of(content@)),
            }),
    {
        let n = content.unicode_len();
        let mut patterns: Vec<IgnorePattern> = Vec::new();
        let mut start: usize = 0;
        proof {
            assert(Seq::new(patterns@.len(), |i: int| (patterns@[i].text@, patterns@[i].negated))
                =~= Seq::<(Seq<char>, bool)>::empty());
        }
        while start < n
            invariant
                n == content@.len(),
                start <= n,
                rules_of(content@) =~= Seq::new(
                    patterns@.len(),
                    |i: int| (patterns@[i].text@, patterns@[i].negated),
                ) + rules_from(content@, start as int),
                forall|i: int| 0 <= i < patterns@.len() ==> pattern_ok(#[trigger] patterns@[i].text@),
            decreases n - start,
        {
            let ghost pats_before = patterns@;
            let mut e = start;
            while e < n && content.get_char(e) != '\n'
                invariant
                    n == content@.len(),
                    start <= e <= n,
                    forall|j: int| start <= j < e ==> content@[j] != '\n',
                decreases n - e,
            {
                e = e + 1;
            }
            proof {
                lemma_line_end(content@, start as int);
                let le = line_end(content@, start as int);
                if le < e {
                    assert(content@[le] == '\n');
                    assert(false);
                }
                if le > e {
                    assert(e < n && content@[e as int] != '\n');
                    assert(false);
                }
                assert(le == e);
            }
            match parse_one_line(content, start, e) {
                LineOutcome::Skip => {
                    proof {
                        assert(rules_from(content@, start as int) == rules_from(
                            content@,
                            e as int + 1,
                        ));
                    }
                },
                LineOutcome::Rule(text, negated) => {
                    match check_pattern(text.as_str()) {
                        Ok(_) => {
                            patterns.push(IgnorePattern { text, negated });
                            proof {
                                assert(Seq::new(
                                    patterns@.len(),
                                    |i: int| (patterns@[i].text@, patterns@[i].negated),
                                ) =~= Seq::new(
                                    pats_before.len(),
                                    |i: int| (pats_before[i].text@, pats_before[i].negated),
                                ).push((text@, negated)));
                                assert(rules_from(content@, start as int) == seq![(text@, negated)]
                                    + rules_from(content@, e as int + 1));
                                assert(rules_of(content@) =~= Seq::new(
                                    patterns@.len(),
                                    |i: int| (patterns@[i].text@, patterns@[i].negated),
                                ) + rules_from(content@, e as int + 1));
                            }
                        },
                        Err(cause) => {
                            proof {
                                let k = pats_before.len() as int;
                                let rules = rules_of(content@);
                                assert(rules_from(content@, start as int)[0] == (text@, negated));
                                assert(rules[k] == (text@, negated));
                                assert(!all_patterns_ok(rules));
                                assert forall|j: int| 0 <= j < k implies pattern_ok(
                                    (#[trigger] rules[j]).0,
                                ) by {
                                    assert(rules[j] == (pats_before[j].text@, pats_before[j].negated));
                                }
                                lemma_first_invalid(rules, k);
                            }
                            let mut message = String::new();
                            message.append("Invalid pattern '");
                            message.append(text.as_str());
                            message.append("': ");
                            message.append(cause.as_str());
                            proof {
                                assert(message@.take(pattern_error_prefix(rules_of(content@)).len() as int)
                                    =~= "Invalid pattern '"@ + text@ + "': "@);
                            }
                            return Err(Error::new(ErrorKind::Pattern, message));
                        },
                    }
                },
            }
            if e < n {
                start = e + 1;
            } else {
                proof {
                    assert(rules_from(content@, e as int + 1) =~= Seq::<(
                        Seq<char>,
                        bool,
                    )>::empty());
                    lemma_rules_from_end(content@);
                }
                start = n;
            }
        }
        proof {
            lemma_rules_from_end(content@);
            assert(rules_from(content@, start as int) =~= Seq::<(Seq<char>, bool)>::empty());
            assert(rules_of(content@) =~= Seq::new(
                patterns@.len(),
                |i: int| (patterns@[i].text@, patterns@[i].negated),
            ));
        }
        Ok(IgnoreRules { patterns })
    }

    /// Last-match-wins evaluation of the rules against a relative path.
    pub fn is_ignored(&self, path: &str) -> (r: bool)
        ensures
            r == spec_ignored(self@, path@),
    {
        let mut verdict = false;
        let mut i: usize = 0;
        proof {
            assert(self@.take(0) =~= Seq::<(Seq<char>, bool)>::empty());
        }
        while i < self.patterns.len()
            invariant
                i <= self.patterns@.len(),
                self@.len() == self.patterns@.len(),
                verdict == spec_ignored(self@.take(i as int), path@),
            decreases self.patterns@.len() - i,
        {
            proof {
                assert(self@.take(i as int + 1).drop_last() =~= self@.take(i as int));
                assert(self@.take(i as int + 1).last() == self@[i as int]);
            }
            if glob_match_str(self.patterns[i].text.as_str(), path) {
                verdict = !self.patterns[i].negated;
            }
            i = i + 1;
        }
        proof {
            assert(self@.take(self@.len() as int) =~= self@);
        }
        verdict
    }

    /// The logical complement of `is_ignored`.
    pub fn is_included(&self, path: &str) -> (r: bool)
        ensures
            r == spec_included(self@, path@),
    {
        !self.is_ignored(path)
    }
}

} // verus!
