//! Known problem signatures, and which of them a batch shows.
//!
//! A signature is a regular expression, searched for anywhere in a record's
//! message, letter case observed. The expressions are compiled and matched by
//! the `regex` crate; what that crate makes of an expression and finds in a
//! text is named here, not restated.

use crate::entry::LogEntry;
use regex::Regex;
use vstd::prelude::*;

verus! {

/// `regex::Regex`, a compiled expression. Nothing of its inside is known here.
#[verifier::external_type_specification]
#[verifier::external_body]
pub struct ExRegex(regex::Regex);

/// `regex::Error`, the reason why an expression was turned down. Nothing of
/// its inside is known here.
#[verifier::external_type_specification]
#[verifier::external_body]
pub struct ExRegexError(regex::Error);

/// What `Regex::new` makes of an expression: a matcher, or the reason why
/// the expression was turned down.
pub uninterp spec fn regex_new(expression: Seq<char>) -> Result<Regex, regex::Error>;

/// Whether `Regex::is_match` finds a match of the matcher anywhere in `text`.
pub uninterp spec fn regex_is_match(matcher: Regex, text: Seq<char>) -> bool;

/// `Regex::new` compiles an expression; equal expressions give equal results.
pub assume_specification[ Regex::new ](re: &str) -> (r: Result<Regex, regex::Error>)
    ensures
        r == regex_new(re@),
;

/// `Regex::is_match` searches a text; the answer depends on the matcher and
/// the text alone.
pub assume_specification[ Regex::is_match ](matcher: &Regex, haystack: &str) -> (r: bool)
    ensures
        r == regex_is_match(*matcher, haystack@),
;

/// How many signatures are known.
pub const SIGNATURE_COUNT: usize = 5;

/// How many sample messages a pattern keeps at most.
pub const EXAMPLE_LIMIT: usize = 3;

/// One signature that a batch shows.
#[derive(Clone, Debug, PartialEq, Eq)]
pub struct Pattern {
    /// The signature's expression.
    pub pattern: String,
    /// How many records match it.
    pub occurrences: usize,
    /// The first matching messages, in batch order.
    pub examples: Vec<String>,
}

/// The matches of one signature as far as a scan has come: their count, and
/// the first of them.
#[derive(Clone, Debug, PartialEq, Eq)]
pub struct Matches {
    pub occurrences: usize,
    pub examples: Vec<String>,
}

/// What a `Pattern` stands for.
pub struct PatternView {
    pub pattern: Seq<char>,
    pub occurrences: nat,
    pub examples: Seq<Seq<char>>,
}

impl View for Pattern {
    type V = PatternView;

    open spec fn view(&self) -> PatternView {
        PatternView {
            pattern: self.pattern@,
            occurrences: self.occurrences as nat,
            examples: texts(self.examples@),
        }
    }
}

/// The texts of a sequence of strings.
pub open spec fn texts(strings: Seq<String>) -> Seq<Seq<char>> {
    strings.map_values(|s: String| s@)
}

/// What a sequence of patterns stands for.
pub open spec fn pattern_views(patterns: Seq<Pattern>) -> Seq<PatternView> {
    patterns.map_values(|p: Pattern| p@)
}

/// The expression of the `k`-th known signature.
pub open spec fn signature_text(k: int) -> Seq<char> {
    if k == 0 {
        "failed to connect"@
    } else if k == 1 {
        "timeout"@
    } else if k == 2 {
        "exception"@
    } else if k == 3 {
        "error code \\d+"@
    } else {
        "invalid (request|response)"@
    }
}

/// The messages among the first `upto` records that the matcher matches, in
/// batch order and with repetitions.
pub open spec fn matching(matcher: Regex, logs: Seq<LogEntry>, upto: int) -> Seq<Seq<char>>
    decreases upto,
{
    if upto <= 0 {
        Seq::<Seq<char>>::empty()
    } else if regex_is_match(matcher, logs[upto - 1].message@) {
        matching(matcher, logs, upto - 1).push(logs[upto - 1].message@)
    } else {
        matching(matcher, logs, upto - 1)
    }
}

/// The first messages of `found`, as many as a pattern keeps.
pub open spec fn leading(found: Seq<Seq<char>>) -> Seq<Seq<char>> {
    if found.len() <= EXAMPLE_LIMIT {
        found
    } else {
        found.take(EXAMPLE_LIMIT as int)
    }
}

/// What a batch shows of one matcher: nothing where no message matches, and
/// otherwise the count of matching messages and the first of them.
pub open spec fn pattern_for(label: Seq<char>, matcher: Regex, logs: Seq<LogEntry>) -> Option<
    PatternView,
> {
    let found = matching(matcher, logs, logs.len() as int);
    if found.len() == 0 {
        None
    } else {
        Some(PatternView { pattern: label, occurrences: found.len(), examples: leading(found) })
    }
}

/// The messages of a batch that the `k`-th known signature matches, in
/// batch order; none where the expression is turned down.
pub open spec fn signature_matches(k: int, logs: Seq<LogEntry>) -> Seq<Seq<char>> {
    match regex_new(signature_text(k)) {
        Ok(matcher) => matching(matcher, logs, logs.len() as int),
        Err(_) => Seq::<Seq<char>>::empty(),
    }
}

/// What a batch shows of the `k`-th known signature. A signature whose
/// expression is turned down shows nothing.
pub open spec fn signature_pattern(k: int, logs: Seq<LogEntry>) -> Option<PatternView> {
    match regex_new(signature_text(k)) {
        Ok(matcher) => pattern_for(signature_text(k), matcher, logs),
        Err(_) => None,
    }
}

/// The patterns of the first `k` known signatures, in the signatures' order.
pub open spec fn patterns_upto(logs: Seq<LogEntry>, k: int) -> Seq<PatternView>
    decreases k,
{
    if k <= 0 {
        Seq::<PatternView>::empty()
    } else {
        match signature_pattern(k - 1, logs) {
            Some(p) => patterns_upto(logs, k - 1).push(p),
            None => patterns_upto(logs, k - 1),
        }
    }
}

/// The patterns of all known signatures.
pub open spec fn patterns_of(logs: Seq<LogEntry>) -> Seq<PatternView> {
    patterns_upto(logs, SIGNATURE_COUNT as int)
}

/// No two known signatures have the same expression.
pub proof fn lemma_signatures_differ(j: int, k: int)
    requires
        0 <= j < k < SIGNATURE_COUNT,
    ensures
        signature_text(j) != signature_text(k),
{
    reveal_strlit("failed to connect");
    reveal_strlit("timeout");
    reveal_strlit("exception");
    reveal_strlit("error code \\d+");
    reveal_strlit("invalid (request|response)");
    assert(signature_text(0).len() == 17);
    assert(signature_text(1).len() == 7);
    assert(signature_text(2).len() == 9);
    assert(signature_text(3).len() == 14);
    assert(signature_text(4).len() == 26);
}

/// A pattern carries the count of the matching messages, which is not
/// zero, and the first three of them or, where there are fewer, all.
pub proof fn lemma_pattern_counts(label: Seq<char>, matcher: Regex, logs: Seq<LogEntry>)
    ensures
        ({
            let n = matching(matcher, logs, logs.len() as int).len();
            match pattern_for(label, matcher, logs) {
                None => n == 0,
                Some(p) => {
                    &&& n >= 1
                    &&& p.pattern == label
                    &&& p.occurrences == n
                    &&& p.examples.len() == (if n < 3 { n } else { 3 })
                },
            }
        }),
{
}

/// Every pattern among those of the first `n` signatures is that of one of
/// them.
proof fn lemma_patterns_origin(logs: Seq<LogEntry>, n: int, j: int)
    requires
        0 <= n <= SIGNATURE_COUNT,
        0 <= j < patterns_upto(logs, n).len(),
    ensures
        exists|k: int|
            0 <= k < n && #[trigger] signature_pattern(k, logs) == Some(patterns_upto(logs, n)[j]),
    decreases n,
{
    if n > 0 {
        let all = patterns_upto(logs, n);
        let rest = patterns_upto(logs, n - 1);
        if j < rest.len() {
            lemma_patterns_origin(logs, n - 1, j);
            let k = choose|k: int|
                0 <= k < n - 1 && #[trigger] signature_pattern(k, logs) == Some(rest[j]);
            assert(signature_pattern(k, logs) == Some(all[j]));
        } else {
            assert(signature_pattern(n - 1, logs) == Some(all[j]));
        }
    }
}

/// The pattern of each of the first `n` signatures that shows stands among
/// their patterns.
proof fn lemma_patterns_hold(logs: Seq<LogEntry>, n: int, k: int)
    requires
        0 <= k < n <= SIGNATURE_COUNT,
        signature_pattern(k, logs) is Some,
    ensures
        exists|j: int|
            0 <= j < patterns_upto(logs, n).len() && Some(#[trigger] patterns_upto(logs, n)[j])
                == signature_pattern(k, logs),
    decreases n,
{
    let all = patterns_upto(logs, n);
    if k == n - 1 {
        assert(Some(all[all.len() - 1]) == signature_pattern(k, logs));
    } else {
        lemma_patterns_hold(logs, n - 1, k);
        let rest = patterns_upto(logs, n - 1);
        let j = choose|j: int|
            0 <= j < rest.len() && Some(#[trigger] rest[j]) == signature_pattern(k, logs);
        assert(Some(all[j]) == signature_pattern(k, logs));
    }
}

/// A known signature that matches no message of a batch does not appear
/// among the batch's patterns. One that matches `n` messages, `n` at least
/// one, appears with `n` occurrences and with three examples or, where `n` is
/// less, with `n`.
pub proof fn lemma_signature_appears(logs: Seq<LogEntry>, k: int)
    requires
        0 <= k < SIGNATURE_COUNT,
    ensures
        ({
            let n = signature_matches(k, logs).len();
            let shown = patterns_of(logs);
            &&& n == 0 ==> forall|j: int|
                0 <= j < shown.len() ==> (#[trigger] shown[j]).pattern != signature_text(k)
            &&& n >= 1 ==> exists|j: int|
                {
                    &&& 0 <= j < shown.len()
                    &&& (#[trigger] shown[j]).pattern == signature_text(k)
                    &&& shown[j].occurrences == n
                    &&& shown[j].examples.len() == (if n < 3 { n } else { 3 })
                }
        }),
{
    let n = signature_matches(k, logs).len();
    let shown = patterns_of(logs);
    if let Ok(matcher) = regex_new(signature_text(k)) {
        lemma_pattern_counts(signature_text(k), matcher, logs);
    }
    if n == 0 {
        assert forall|j: int| 0 <= j < shown.len() implies (#[trigger] shown[j]).pattern
            != signature_text(k) by {
            lemma_patterns_origin(logs, SIGNATURE_COUNT as int, j);
            let i = choose|i: int|
                0 <= i < SIGNATURE_COUNT && #[trigger] signature_pattern(i, logs) == Some(shown[j]);
            if let Ok(matcher) = regex_new(signature_text(i)) {
                lemma_pattern_counts(signature_text(i), matcher, logs);
            }
            if i < k {
                lemma_signatures_differ(i, k);
            } else if k < i {
                lemma_signatures_differ(k, i);
            }
        }
    } else {
        lemma_patterns_hold(logs, SIGNATURE_COUNT as int, k);
    }
}

/// The expression of the `k`-th known signature, counted from zero.
pub fn signature(k: usize) -> (r: Option<&'static str>)
    ensures
        k < SIGNATURE_COUNT ==> r is Some && r->Some_0@ == signature_text(k as int),
        k >= SIGNATURE_COUNT ==> r is None,
{
    if k == 0 {
        Some("failed to connect")
    } else if k == 1 {
        Some("timeout")
    } else if k == 2 {
        Some("exception")
    } else if k == 3 {
        Some("error code \\d+")
    } else if k == 4 {
        Some("invalid (request|response)")
    } else {
        None
    }
}

impl Matches {
    /// The collection holds the count of `found` and the first of it.
    pub open spec fn collects(self, found: Seq<Seq<char>>) -> bool {
        self.occurrences == found.len() && texts(self.examples@) == leading(found)
    }

    /// A collection that one more message is added to: the count rises by
    /// one, and the message joins the examples while they are fewer than
    /// three.
    pub open spec fn extended_by(self, message: Seq<char>, after: Matches) -> bool {
        &&& after.occurrences == self.occurrences + 1
        &&& texts(after.examples@) == (if self.examples.len() < EXAMPLE_LIMIT {
            texts(self.examples@).push(message)
        } else {
            texts(self.examples@)
        })
    }

    /// Adding a message to the collection of `found` gives the collection of
    /// `found` with that message at its end.
    pub proof fn lemma_extended(self, found: Seq<Seq<char>>, message: Seq<char>, after: Matches)
        requires
            self.collects(found),
            self.extended_by(message, after),
        ensures
            after.collects(found.push(message)),
    {
        assert(texts(self.examples@).len() == self.examples.len());
        if self.examples.len() < EXAMPLE_LIMIT {
            assert(leading(found) == found);
        } else {
            assert(found.push(message).take(EXAMPLE_LIMIT as int) =~= found.take(
                EXAMPLE_LIMIT as int,
            ));
            assert(found.take(EXAMPLE_LIMIT as int) =~= leading(found));
        }
    }

    /// A collection without matches.
    pub fn new() -> (r: Matches)
        ensures
            r.occurrences == 0,
            r.examples@ == Seq::<String>::empty(),
            r.collects(Seq::<Seq<char>>::empty()),
    {
        let r = Matches { occurrences: 0, examples: Vec::new() };
        proof {
            assert(texts(r.examples@) =~= Seq::<Seq<char>>::empty());
        }
        r
    }

    /// Takes note of one message and of whether the signature matched it. A
    /// message that did not match changes nothing.
    pub fn observe(&mut self, message: &String, matched: bool)
        requires
            old(self).occurrences < usize::MAX,
        ensures
            !matched ==> *final(self) == *old(self),
            matched ==> old(self).extended_by(message@, *final(self)),
    {
        if matched {
            let ghost kept = self.examples@;
            if self.examples.len() < EXAMPLE_LIMIT {
                self.examples.push(message.clone());
                proof {
                    assert(texts(self.examples@) =~= texts(kept).push(message@));
                }
            }
            self.occurrences = self.occurrences + 1;
        }
    }

    /// Makes the pattern of a signature out of its matches: nothing where
    /// there are none, and otherwise their count and examples under `label`.
    pub fn into_pattern(self, label: &str) -> (r: Option<Pattern>)
        ensures
            match r {
                None => self.occurrences == 0,
                Some(p) => self.occurrences > 0 && p@ == (PatternView {
                    pattern: label@,
                    occurrences: self.occurrences as nat,
                    examples: texts(self.examples@),
                }),
            },
    {
        if self.occurrences == 0 {
            None
        } else {
            Some(
                Pattern {
                    pattern: label.to_owned(),
                    occurrences: self.occurrences,
                    examples: self.examples,
                },
            )
        }
    }
}

/// Scans a batch for one compiled signature. Returns nothing where no message
/// matches. Otherwise the pattern carries `label`, the number of matching
/// records, and the first three matching messages in batch order, repeated
/// messages included.
pub fn scan(label: &str, matcher: &Regex, logs: &Vec<LogEntry>) -> (r: Option<Pattern>)
    ensures
        match r {
            Some(p) => pattern_for(label@, *matcher, logs@) == Some(p@),
            None => pattern_for(label@, *matcher, logs@) is None,
        },
{
    let n = logs.len();
    let mut matches = Matches::new();
    let mut i: usize = 0;
    while i < n
        invariant
            i <= n,
            n == logs.len(),
            matches.collects(matching(*matcher, logs@, i as int)),
            matches.occurrences <= i,
        decreases n - i,
    {
        let ghost before = matches;
        let matched = matcher.is_match(logs[i].message.as_str());
        matches.observe(&logs[i].message, matched);
        proof {
            if matched {
                before.lemma_extended(
                    matching(*matcher, logs@, i as int),
                    logs@[i as int].message@,
                    matches,
                );
            }
        }
        i = i + 1;
    }
    matches.into_pattern(label)
}

/// Scans a batch for every known signature, in the signatures' order. A
/// signature that no message matches is left out, as is one whose expression
/// is turned down; each of the others comes with its expression, its number
/// of matching records and the first three matching messages.
pub fn detect_patterns(logs: &Vec<LogEntry>) -> (r: Vec<Pattern>)
    ensures
        pattern_views(r@) == patterns_of(logs@),
{
    let mut patterns: Vec<Pattern> = Vec::new();
    let mut k: usize = 0;
    while k < SIGNATURE_COUNT
        invariant
            k <= SIGNATURE_COUNT,
            pattern_views(patterns@) == patterns_upto(logs@, k as int),
        decreases SIGNATURE_COUNT - k,
    {
        let ghost before = patterns@;
        if let Some(text) = signature(k) {
            if let Ok(matcher) = Regex::new(text) {
                if let Some(pattern) = scan(text, &matcher, logs) {
                    patterns.push(pattern);
                    proof {
                        assert(pattern_views(patterns@) =~= pattern_views(before).push(pattern@));
                    }
                }
            }
        }
        k = k + 1;
    }
    patterns
}

} // verus!
