//! Holds the word list and offers filtering and random sampling over it.

use vstd::prelude::*;

use rand::Rng;

use crate::predicate::evidence_matches;
use crate::predicate::WordlePredicate;

verus! {

/// The word list a game session works over, in its original order.
pub struct App {
    words: Vec<String>,
}

/// Relies on `rand::Rng::gen_range` over `0..bound`: the sampled value lies
/// in the given range, which must be non-empty (an empty range panics).
#[verifier::external_body]
fn random_below(bound: usize) -> (r: usize)
    requires
        bound > 0,
    ensures
        r < bound,
{
    rand::thread_rng().gen_range(0..bound)
}

impl App {
    /// The words, as sequences of characters, in their original order.
    pub closed spec fn spec_words(&self) -> Seq<Seq<char>> {
        self.words.deep_view()
    }

    pub fn new(words: Vec<String>) -> (app: App)
        ensures
            app.spec_words() == words.deep_view(),
    {
        App { words }
    }

    /// How many words the list holds, duplicates included.
    pub fn word_count(&self) -> (n: usize)
        ensures
            n == self.spec_words().len(),
    {
        self.words.len()
    }

    /// All words of the list that are consistent with the given evidence, in
    /// their original relative order; the list itself is left untouched.
    pub fn eligible_words(
        &self,
        correct_positions: &Option<String>,
        wrong_positions: &Option<String>,
        invalid_letters: &Option<String>,
    ) -> (eligible: Vec<String>)
        ensures
            eligible.deep_view() == self.spec_words().filter(
                |w: Seq<char>|
                    evidence_matches(
                        wrong_positions.deep_view(),
                        correct_positions.deep_view(),
                        invalid_letters.deep_view(),
                        w,
                    ),
            ),
    {
        broadcast use vstd::prelude::Seq::lemma_filter_push;

        let ghost pred = |w: Seq<char>|
            evidence_matches(
                wrong_positions.deep_view(),
                correct_positions.deep_view(),
                invalid_letters.deep_view(),
                w,
            );
        let predicate = WordlePredicate::new(
            clone_opt_string(wrong_positions),
            clone_opt_string(correct_positions),
            clone_opt_string(invalid_letters),
        );
        let mut eligible: Vec<String> = Vec::new();
        let mut i: usize = 0;
        assert(self.spec_words().take(0) =~= Seq::<Seq<char>>::empty());
        assert(Seq::<Seq<char>>::empty().filter(pred) =~= Seq::<Seq<char>>::empty());
        while i < self.words.len()
            invariant
                i <= self.words@.len(),
                predicate.wrong_evidence() == wrong_positions.deep_view(),
                predicate.correct_evidence() == correct_positions.deep_view(),
                predicate.invalid_evidence() == invalid_letters.deep_view(),
                pred == (|w: Seq<char>|
                    evidence_matches(
                        wrong_positions.deep_view(),
                        correct_positions.deep_view(),
                        invalid_letters.deep_view(),
                        w,
                    )),
                eligible.deep_view() == self.spec_words().take(i as int).filter(pred),
            decreases self.words@.len() - i,
        {
            broadcast use vstd::prelude::Seq::lemma_filter_push;

            let ghost prev = eligible.deep_view();
            let word = &self.words[i];
            proof {
                assert(self.spec_words()[i as int] == word.deep_view());
                assert(self.spec_words().take(i + 1) =~= self.spec_words().take(i as int).push(
                    self.spec_words()[i as int],
                ));
            }
            if predicate.matches(word.as_str()) {
                eligible.push(word.clone());
                proof {
                    assert(eligible.deep_view() =~= prev.push(word.deep_view()));
                }
            }
            i = i + 1;
        }
        proof {
            assert(self.spec_words().take(self.words@.len() as int) =~= self.spec_words());
        }
        eligible
    }

    /// One word of the list, picked at random. The list must be non-empty.
    pub fn random_word(&self) -> (word: &String)
        requires
            self.spec_words().len() > 0,
        ensures
            self.spec_words().contains(word@),
    {
        let index = random_below(self.words.len());
        let word = &self.words[index];
        proof {
            assert(self.spec_words()[index as int] == word@);
        }
        word
    }

    /// `count` distinct words of the list, each picked at random without
    /// replacement. Returns `None` exactly when the list does not hold
    /// `count` distinct words, rather than searching forever for them.
    pub fn random_words(&self, count: usize) -> (sample: Option<Vec<String>>)
        ensures
            sample is Some <==> count <= self.spec_words().to_set().len(),
            sample matches Some(sample) ==> {
                &&& sample.deep_view().len() == count
                &&& sample.deep_view().no_duplicates()
                &&& forall|i: int|
                    0 <= i < count ==> self.spec_words().contains(#[trigger] sample.deep_view()[i])
            },
    {
        let mut pool = distinct_words(&self.words);
        proof {
            pool.deep_view().unique_seq_to_set();
            assert(forall|j: int|
                0 <= j < pool.deep_view().len() ==> self.spec_words().to_set().contains(
                    #[trigger] pool.deep_view()[j],
                ));
        }
        if count > pool.len() {
            return None;
        }
        let ghost total = pool.deep_view().len() as int;
        let mut sample: Vec<String> = Vec::new();
        while sample.len() < count
            invariant
                count <= total,
                sample.deep_view().len() + pool.deep_view().len() == total,
                sample.deep_view().len() == sample@.len(),
                pool.deep_view().len() == pool@.len(),
                sample.deep_view().len() <= count,
                sample.deep_view().no_duplicates(),
                pool.deep_view().no_duplicates(),
                forall|a: int, b: int|
                    #![trigger sample.deep_view()[a], pool.deep_view()[b]]
                    0 <= a < sample.deep_view().len() && 0 <= b < pool.deep_view().len()
                        ==> sample.deep_view()[a] != pool.deep_view()[b],
                forall|a: int|
                    0 <= a < sample.deep_view().len() ==> self.spec_words().contains(
                        #[trigger] sample.deep_view()[a],
                    ),
                forall|b: int|
                    0 <= b < pool.deep_view().len() ==> self.spec_words().contains(
                        #[trigger] pool.deep_view()[b],
                    ),
            decreases count - sample@.len(),
        {
            let ghost old_pool = pool.deep_view();
            let ghost old_sample = sample.deep_view();
            let index = random_below(pool.len());
            let word = pool.remove(index);
            proof {
                assert(pool.deep_view() =~= old_pool.remove(index as int));
            }
            sample.push(word);
            proof {
                assert(sample.deep_view() =~= old_sample.push(word.deep_view()));
                assert(old_pool[index as int] == word.deep_view());
                assert forall|a: int, b: int|
                    #![trigger sample.deep_view()[a], pool.deep_view()[b]]
                    0 <= a < sample.deep_view().len() && 0 <= b
                        < pool.deep_view().len() implies sample.deep_view()[a]
                    != pool.deep_view()[b] by {
                    assert(pool.deep_view()[b] == if b < index as int {
                        old_pool[b]
                    } else {
                        old_pool[b + 1]
                    });
                }
                assert(sample.deep_view().no_duplicates()) by {
                    assert(forall|a: int|
                        0 <= a < old_sample.len() ==> #[trigger] old_sample[a] != old_pool[
                        index as int]);
                }
            }
        }
        Some(sample)
    }
}

/// A sequence whose elements all satisfy a predicate passes a filter by that
/// predicate unchanged.
proof fn lemma_filter_all_matching<A>(s: Seq<A>, pred: spec_fn(A) -> bool)
    requires
        forall|i: int| 0 <= i < s.len() ==> pred(#[trigger] s[i]),
    ensures
        s.filter(pred) == s,
    decreases s.len(),
{
    reveal(Seq::filter);
    if s.len() == 0 {
        assert(s.filter(pred) =~= s);
    } else {
        assert(forall|i: int|
            0 <= i < s.drop_last().len() ==> pred(#[trigger] s.drop_last()[i]));
        lemma_filter_all_matching(s.drop_last(), pred);
        assert(pred(s.last()));
        assert(s.filter(pred) =~= s.drop_last().push(s.last()));
        assert(s.drop_last().push(s.last()) =~= s);
    }
}

/// Filtering is idempotent: filtering an already filtered word list with the
/// same predicate returns it unchanged, so repeated filtering with the same
/// evidence always yields identical results.
pub proof fn lemma_filtering_idempotent<A>(words: Seq<A>, pred: spec_fn(A) -> bool)
    ensures
        words.filter(pred).filter(pred) == words.filter(pred),
{
    broadcast use vstd::prelude::Seq::lemma_filter_pred;

    lemma_filter_all_matching(words.filter(pred), pred);
}

/// A copy of the evidence string, when one is present.
fn clone_opt_string(s: &Option<String>) -> (r: Option<String>)
    ensures
        r.deep_view() == s.deep_view(),
{
    match s {
        Some(v) => Some(v.clone()),
        None => None,
    }
}

/// Returns whether some string of `v` has the same characters as `s`.
fn contains_string(v: &Vec<String>, s: &String) -> (r: bool)
    ensures
        r == v.deep_view().contains(s@),
{
    let mut i: usize = 0;
    while i < v.len()
        invariant
            i <= v@.len(),
            forall|j: int| 0 <= j < i ==> v.deep_view()[j] != s@,
        decreases v@.len() - i,
    {
        if v[i].eq(s) {
            proof {
                assert(v.deep_view()[i as int] == s@);
            }
            return true;
        }
        i = i + 1;
    }
    false
}

/// The distinct words of the list: first occurrences, in order.
fn distinct_words(words: &Vec<String>) -> (d: Vec<String>)
    ensures
        d.deep_view().no_duplicates(),
        d.deep_view().to_set() == words.deep_view().to_set(),
{
    let mut d: Vec<String> = Vec::new();
    let mut i: usize = 0;
    while i < words.len()
        invariant
            i <= words@.len(),
            d.deep_view().no_duplicates(),
            d.deep_view().to_set() == words.deep_view().take(i as int).to_set(),
        decreases words@.len() - i,
    {
        let ghost prev = d.deep_view();
        let word = &words[i];
        proof {
            assert(words.deep_view()[i as int] == word.deep_view());
            assert(words.deep_view().take(i + 1) =~= words.deep_view().take(i as int).push(
                word.deep_view(),
            ));
            assert(words.deep_view().take(i + 1).to_set() =~= words.deep_view().take(
                i as int,
            ).to_set().insert(word.deep_view())) by {
                words.deep_view().take(i as int).lemma_push_to_set_commute(word.deep_view());
            }
        }
        if !contains_string(&d, word) {
            d.push(word.clone());
            proof {
                assert(d.deep_view() =~= prev.push(word.deep_view()));
                assert(d.deep_view().to_set() =~= prev.to_set().insert(word.deep_view())) by {
                    prev.lemma_push_to_set_commute(word.deep_view());
                }
            }
        } else {
            proof {
                assert(prev.to_set().contains(word.deep_view()));
                assert(prev.to_set() =~= prev.to_set().insert(word.deep_view()));
            }
        }
        i = i + 1;
    }
    proof {
        assert(words.deep_view().take(words@.len() as int) =~= words.deep_view());
    }
    d
}

} // verus!
