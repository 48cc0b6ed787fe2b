//! The constraint-matching predicate: decides whether a candidate word is
//! still consistent with the evidence gathered from previous guesses.
//!
//! Three independently optional pieces of evidence are supported:
//! - a template of letters confirmed at exact positions, with `_` standing
//!   for an unconstrained position;
//! - letters known to be in the word at unconfirmed positions, where
//!   repeating a letter demands that many occurrences;
//! - letters known to be absent from the word.
//!
//! Absent evidence constrains nothing; a word is eligible exactly when it
//! satisfies every piece of evidence that is present.

use vstd::prelude::*;

verus! {

/// Whether a template character constrains nothing: `_` is the placeholder
/// a correct-positions template uses for a position not yet confirmed.
pub open spec fn is_placeholder(c: char) -> bool {
    c == '_'
}

/// Number of occurrences of the character `c` in `s`.
pub open spec fn count_char(s: Seq<char>, c: char) -> nat
    decreases s.len(),
{
    if s.len() == 0 {
        0
    } else {
        count_char(s.drop_last(), c) + (if s.last() == c {
            1nat
        } else {
            0nat
        })
    }
}

/// A character occurs in a sequence exactly when its count is positive.
pub proof fn lemma_count_char_contains(s: Seq<char>, c: char)
    ensures
        count_char(s, c) >= 1 <==> s.contains(c),
    decreases s.len(),
{
    if s.len() > 0 {
        lemma_count_char_contains(s.drop_last(), c);
        if s.contains(c) && s.last() != c {
            let i = choose|i: int| 0 <= i < s.len() && s[i] == c;
            assert(s.drop_last()[i] == c);
        }
    }
}

/// Wrong-position evidence is satisfied: for every letter the evidence
/// mentions, the word contains at least as many occurrences of that letter
/// as the evidence itself does.
pub open spec fn required_counts_ok(evidence: Seq<char>, word: Seq<char>) -> bool {
    forall|i: int|
        0 <= i < evidence.len() ==> count_char(word, #[trigger] evidence[i]) >= count_char(
            evidence,
            evidence[i],
        )
}

/// Correct-position evidence is satisfied: wherever the template holds a
/// non-placeholder letter at an index the word also has, the word's letter
/// at that index is that letter. Template positions beyond the word's end
/// constrain nothing, as do word positions beyond the template's end.
pub open spec fn positions_ok(template: Seq<char>, word: Seq<char>) -> bool {
    forall|i: int|
        0 <= i < word.len() && i < template.len() && !is_placeholder(template[i]) ==> (
        #[trigger] word[i]) == template[i]
}

/// Forbidden-letter evidence is satisfied: no letter of the word occurs in
/// the evidence, however often either mentions it.
pub open spec fn no_forbidden(forbidden: Seq<char>, word: Seq<char>) -> bool {
    forall|i: int| 0 <= i < word.len() ==> !forbidden.contains(#[trigger] word[i])
}

/// A word is consistent with an evidence triple exactly when every piece of
/// evidence that is present is satisfied; absent evidence is vacuously
/// satisfied.
pub open spec fn evidence_matches(
    wrong: Option<Seq<char>>,
    correct: Option<Seq<char>>,
    invalid: Option<Seq<char>>,
    word: Seq<char>,
) -> bool {
    &&& match wrong {
        Some(ev) => required_counts_ok(ev, word),
        None => true,
    }
    &&& match correct {
        Some(t) => positions_ok(t, word),
        None => true,
    }
    &&& match invalid {
        Some(f) => no_forbidden(f, word),
        None => true,
    }
}

/// When all three pieces of evidence are absent, every word matches.
pub proof fn lemma_absent_evidence_matches_all(word: Seq<char>)
    ensures
        evidence_matches(None, None, None, word),
{
}

/// The wrong-position check is multiplicity-sensitive: a word that satisfies
/// it contains every letter of the evidence at least as often as the
/// evidence itself mentions that letter.
pub proof fn lemma_wrong_evidence_multiplicity(evidence: Seq<char>, word: Seq<char>, c: char)
    requires
        required_counts_ok(evidence, word),
        evidence.contains(c),
    ensures
        count_char(word, c) >= count_char(evidence, c),
{
    let i = choose|i: int| 0 <= i < evidence.len() && evidence[i] == c;
    assert(count_char(word, evidence[i]) >= count_char(evidence, evidence[i]));
}

/// The correct-position check is index-exact: a word that satisfies it
/// carries the template's letter at every position the template pins down
/// within the word's length.
pub proof fn lemma_correct_position_exact(template: Seq<char>, word: Seq<char>, i: int)
    requires
        positions_ok(template, word),
        0 <= i < word.len(),
        i < template.len(),
        !is_placeholder(template[i]),
    ensures
        word[i] == template[i],
{
}

/// A word containing any forbidden letter fails the forbidden-letter check,
/// however often the word contains that letter.
pub proof fn lemma_forbidden_letter_rejects(forbidden: Seq<char>, word: Seq<char>, c: char)
    requires
        forbidden.contains(c),
        word.contains(c),
    ensures
        !no_forbidden(forbidden, word),
{
    let i = choose|i: int| 0 <= i < word.len() && word[i] == c;
    assert(forbidden.contains(word[i]));
}

/// The forbidden-letter check is presence-only: two forbidden-letter
/// evidence strings mentioning the same set of letters reject exactly the
/// same words, whatever the multiplicities.
pub proof fn lemma_forbidden_letters_presence_only(
    forbidden1: Seq<char>,
    forbidden2: Seq<char>,
    word: Seq<char>,
)
    requires
        forbidden1.to_set() == forbidden2.to_set(),
    ensures
        no_forbidden(forbidden1, word) == no_forbidden(forbidden2, word),
{
    assert forall|i: int|
        0 <= i < word.len() implies (forbidden1.contains(#[trigger] word[i]) <==> forbidden2.contains(
        word[i],
    )) by {
        let c = word[i];
        assert(forbidden1.contains(c) <==> forbidden1.to_set().contains(c));
        assert(forbidden2.contains(c) <==> forbidden2.to_set().contains(c));
        assert(forbidden1.to_set().contains(c) <==> forbidden2.to_set().contains(c));
    }
}

/// Combined evidence is conjunctive: a word matches an evidence triple
/// exactly when it satisfies each present piece of evidence on its own.
pub proof fn lemma_evidence_conjunctive(
    wrong: Option<Seq<char>>,
    correct: Option<Seq<char>>,
    invalid: Option<Seq<char>>,
    word: Seq<char>,
)
    ensures
        evidence_matches(wrong, correct, invalid, word) <==> {
            &&& evidence_matches(wrong, None, None, word)
            &&& evidence_matches(None, correct, None, word)
            &&& evidence_matches(None, None, invalid, word)
        },
{
}

/// The empty word fails any present wrong-position evidence that mentions at
/// least one letter, whatever the other evidence says.
pub proof fn lemma_empty_word_fails_required_letters(
    evidence: Seq<char>,
    correct: Option<Seq<char>>,
    invalid: Option<Seq<char>>,
)
    requires
        evidence.len() > 0,
    ensures
        !evidence_matches(Some(evidence), correct, invalid, Seq::<char>::empty()),
{
    let c = evidence[0];
    lemma_count_char_contains(evidence, c);
    assert(count_char(evidence, c) >= 1);
    assert(count_char(Seq::<char>::empty(), c) == 0);
    assert(!required_counts_ok(evidence, Seq::<char>::empty())) by {
        assert(count_char(Seq::<char>::empty(), evidence[0]) < count_char(evidence, evidence[0]));
    }
}

/// Compiled evidence from previous guesses, evaluated against candidate
/// words. Immutable once built.
pub struct WordlePredicate {
    wrong_positions: Option<Vec<char>>,
    correct_positions: Option<Vec<char>>,
    invalid_letters: Option<Vec<char>>,
}

impl WordlePredicate {
    /// The wrong-position evidence this predicate was built from, if any.
    pub closed spec fn wrong_evidence(&self) -> Option<Seq<char>> {
        self.wrong_positions.deep_view()
    }

    /// The correct-positions template this predicate was built from, if any.
    pub closed spec fn correct_evidence(&self) -> Option<Seq<char>> {
        self.correct_positions.deep_view()
    }

    /// The forbidden-letter evidence this predicate was built from, if any.
    pub closed spec fn invalid_evidence(&self) -> Option<Seq<char>> {
        self.invalid_letters.deep_view()
    }

    /// What `matches` decides for a given word.
    pub open spec fn spec_matches(&self, word: Seq<char>) -> bool {
        evidence_matches(
            self.wrong_evidence(),
            self.correct_evidence(),
            self.invalid_evidence(),
            word,
        )
    }

    /// Compiles the three optional evidence strings. Never fails: any string,
    /// including an empty one, is accepted as evidence.
    pub fn new(
        wrong_positions: Option<String>,
        correct_positions: Option<String>,
        invalid_letters: Option<String>,
    ) -> (p: WordlePredicate)
        ensures
            p.wrong_evidence() == wrong_positions.deep_view(),
            p.correct_evidence() == correct_positions.deep_view(),
            p.invalid_evidence() == invalid_letters.deep_view(),
    {
        let wrong_positions = opt_chars(wrong_positions);
        let correct_positions = opt_chars(correct_positions);
        let invalid_letters = opt_chars(invalid_letters);
        WordlePredicate { wrong_positions, correct_positions, invalid_letters }
    }

    /// Returns whether the given word is consistent with all the evidence,
    /// i.e. whether it is still an eligible candidate.
    pub fn matches(&self, word: &str) -> (eligible: bool)
        ensures
            eligible == self.spec_matches(word@),
    {
        let w = chars_of(word);
        let wrong_ok = match &self.wrong_positions {
            Some(ev) => {
                proof {
                    assert(ev.deep_view() =~= ev@);
                }
                required_counts_hold(ev, &w)
            },
            None => true,
        };
        let correct_ok = match &self.correct_positions {
            Some(t) => {
                proof {
                    assert(t.deep_view() =~= t@);
                }
                positions_hold(t, &w)
            },
            None => true,
        };
        let invalid_ok = match &self.invalid_letters {
            Some(f) => {
                proof {
                    assert(f.deep_view() =~= f@);
                }
                no_forbidden_holds(f, &w)
            },
            None => true,
        };
        wrong_ok && correct_ok && invalid_ok
    }
}

/// The characters of each present evidence string, in order.
fn opt_chars(s: Option<String>) -> (r: Option<Vec<char>>)
    ensures
        r.deep_view() == s.deep_view(),
{
    match s {
        Some(s) => Some(chars_of(s.as_str())),
        None => None,
    }
}

/// The characters of `s`, in order.
fn chars_of(s: &str) -> (r: Vec<char>)
    ensures
        r@ == s@,
{
    let n = s.unicode_len();
    let mut r: Vec<char> = Vec::new();
    let mut i: usize = 0;
    while i < n
        invariant
            i <= n,
            n == s@.len(),
            r@ == s@.take(i as int),
        decreases n - i,
    {
        r.push(s.get_char(i));
        assert(s@.take(i + 1) =~= s@.take(i as int).push(s@[i as int]));
        i = i + 1;
    }
    assert(s@.take(n as int) =~= s@);
    r
}

/// Counts the occurrences of `c` among the characters of `w`.
pub fn count_occurrences(w: &Vec<char>, c: char) -> (n: usize)
    ensures
        n == count_char(w@, c),
{
    let mut n: usize = 0;
    let mut i: usize = 0;
    while i < w.len()
        invariant
            i <= w@.len(),
            n <= i,
            n == count_char(w@.take(i as int), c),
        decreases w@.len() - i,
    {
        assert(w@.take(i + 1).drop_last() =~= w@.take(i as int));
        assert(w@.take(i + 1).last() == w@[i as int]);
        if w[i] == c {
            n = n + 1;
        }
        i = i + 1;
    }
    assert(w@.take(w@.len() as int) =~= w@);
    n
}

/// Checks the wrong-position evidence `ev` against the word `w`.
fn required_counts_hold(ev: &Vec<char>, w: &Vec<char>) -> (r: bool)
    ensures
        r == required_counts_ok(ev@, w@),
{
    let mut i: usize = 0;
    while i < ev.len()
        invariant
            i <= ev@.len(),
            forall|j: int|
                0 <= j < i ==> count_char(w@, #[trigger] ev@[j]) >= count_char(ev@, ev@[j]),
        decreases ev@.len() - i,
    {
        let c = ev[i];
        if count_occurrences(w, c) < count_occurrences(ev, c) {
            return false;
        }
        i = i + 1;
    }
    true
}

/// Checks the correct-positions template `t` against the word `w`.
fn positions_hold(t: &Vec<char>, w: &Vec<char>) -> (r: bool)
    ensures
        r == positions_ok(t@, w@),
{
    let mut i: usize = 0;
    while i < w.len()
        invariant
            i <= w@.len(),
            forall|j: int|
                0 <= j < i && j < t@.len() && !is_placeholder(t@[j]) ==> (#[trigger] w@[j]) == t@[j],
        decreases w@.len() - i,
    {
        if i < t.len() && t[i] != '_' && w[i] != t[i] {
            return false;
        }
        i = i + 1;
    }
    true
}

/// Checks the forbidden-letter evidence `f` against the word `w`.
fn no_forbidden_holds(f: &Vec<char>, w: &Vec<char>) -> (r: bool)
    ensures
        r == no_forbidden(f@, w@),
{
    let mut i: usize = 0;
    while i < w.len()
        invariant
            i <= w@.len(),
            forall|j: int| 0 <= j < i ==> !f@.contains(#[trigger] w@[j]),
        decreases w@.len() - i,
    {
        if contains_char(f, w[i]) {
            return false;
        }
        i = i + 1;
    }
    true
}

/// Returns whether `c` occurs among the characters of `v`.
fn contains_char(v: &Vec<char>, c: char) -> (r: bool)
    ensures
        r == v@.contains(c),
{
    let mut i: usize = 0;
    while i < v.len()
        invariant
            i <= v@.len(),
            forall|j: int| 0 <= j < i ==> v@[j] != c,
        decreases v@.len() - i,
    {
        if v[i] == c {
            return true;
        }
        i = i + 1;
    }
    false
}

} // verus!

