use vstd::prelude::*;

use crate::draw::{random_below, shuffle_answers};
use crate::quiz::{
    answer_views, exactly_one_correct, lemma_reorder_keeps_members,
    lemma_reorder_keeps_one_correct, Answer, Question, Quiz,
};
use crate::text::{first_uppercase, push_char, uppercase_first};
use vstd::string::StrSliceExecFns;

verus! {

/// The combining acute accent that follows a stressed vowel.
pub const STRESS_MARK: char = '\u{0301}';

/// How many times a random pick is drawn before the corpus is given up on.
pub const MAX_DRAWS: usize = 1000;

/// The uppercase Ukrainian vowels.
pub open spec fn is_upper_vowel(u: char) -> bool {
    u == 'А' || u == 'Е' || u == 'Є' || u == 'И' || u == 'І' || u == 'Ї' || u == 'О' || u == 'У'
        || u == 'Ю' || u == 'Я'
}

/// `c` is a Ukrainian vowel, in either case.
pub open spec fn vowel(c: char) -> bool {
    is_upper_vowel(first_uppercase(c))
}

/// `s` with every stress mark taken out.
pub open spec fn strip_marks(s: Seq<char>) -> Seq<char>
    decreases s.len(),
{
    if s.len() == 0 {
        seq![]
    } else if s.last() == STRESS_MARK {
        strip_marks(s.drop_last())
    } else {
        strip_marks(s.drop_last()).push(s.last())
    }
}

/// How many stress marks `s` holds.
pub open spec fn mark_count(s: Seq<char>) -> nat
    decreases s.len(),
{
    if s.len() == 0 {
        0
    } else {
        mark_count(s.drop_last()) + if s.last() == STRESS_MARK { 1nat } else { 0nat }
    }
}

/// How many vowels `s` holds.
pub open spec fn vowel_count(s: Seq<char>) -> nat
    decreases s.len(),
{
    if s.len() == 0 {
        0
    } else {
        vowel_count(s.drop_last()) + if vowel(s.last()) { 1nat } else { 0nat }
    }
}

/// `s` with a stress mark put right after position `p`.
pub open spec fn insert_mark(s: Seq<char>, p: int) -> Seq<char> {
    s.subrange(0, p + 1) + seq![STRESS_MARK] + s.subrange(p + 1, s.len() as int)
}

/// The question text that shows the two forms side by side.
pub open spec fn stress_question_text(a: Seq<char>, b: Seq<char>) -> Seq<char> {
    "<b><i>"@ + a + "</i></b> чи <b><i>"@ + b + "</i></b> ?"@
}

proof fn lemma_strip_concat(a: Seq<char>, b: Seq<char>)
    ensures
        strip_marks(a + b) == strip_marks(a) + strip_marks(b),
        mark_count(a + b) == mark_count(a) + mark_count(b),
    decreases b.len(),
{
    if b.len() == 0 {
        assert(a + b =~= a);
    } else {
        lemma_strip_concat(a, b.drop_last());
        assert((a + b).drop_last() =~= a + b.drop_last());
        assert((a + b).last() == b.last());
        if b.last() != STRESS_MARK {
            assert(strip_marks(a) + strip_marks(b.drop_last()).push(b.last()) =~= (strip_marks(a)
                + strip_marks(b.drop_last())).push(b.last()));
        }
    }
}

proof fn lemma_strip_unmarked(s: Seq<char>)
    ensures
        mark_count(strip_marks(s)) == 0,
        mark_count(s) == 0 ==> strip_marks(s) == s,
    decreases s.len(),
{
    if s.len() > 0 {
        lemma_strip_unmarked(s.drop_last());
        if s.last() != STRESS_MARK {
            let t = strip_marks(s.drop_last());
            assert(t.push(s.last()).drop_last() =~= t);
        }
        if mark_count(s) == 0 {
            assert(s.drop_last().push(s.last()) =~= s);
        }
    }
}

proof fn lemma_stripped_len(s: Seq<char>)
    ensures
        strip_marks(s).len() + mark_count(s) == s.len(),
    decreases s.len(),
{
    if s.len() > 0 {
        lemma_stripped_len(s.drop_last());
    }
}

proof fn lemma_insert_mark(s: Seq<char>, p: int)
    requires
        mark_count(s) == 0,
        0 <= p < s.len(),
    ensures
        strip_marks(insert_mark(s, p)) == s,
        mark_count(insert_mark(s, p)) == 1,
{
    let a = s.subrange(0, p + 1);
    let b = s.subrange(p + 1, s.len() as int);
    let m = seq![STRESS_MARK];
    assert(a + b =~= s);
    assert(insert_mark(s, p) == a + m + b);
    lemma_strip_concat(a, b);
    lemma_strip_concat(a, m);
    lemma_strip_concat(a + m, b);
    assert(m.drop_last() =~= Seq::<char>::empty());
    assert(strip_marks(m.drop_last()) == Seq::<char>::empty());
    assert(mark_count(m.drop_last()) == 0);
    assert(strip_marks(m) == Seq::<char>::empty());
    assert(mark_count(m) == 1);
    lemma_strip_unmarked(a);
    lemma_strip_unmarked(b);
    assert(strip_marks(a) + Seq::<char>::empty() =~= strip_marks(a));
}

/// A dictionary word: its form with the stress mark, and the same form without it.
#[derive(Clone, Debug)]
pub struct StressWord {
    pub word_with_stress_symbol: String,
    pub word_without_stress_symbol: String,
}

/// A stress question could not be built from a word.
pub enum StressQuestionError {
    NoDistractorPosition,
}

/// No word fit for a question was drawn from a corpus.
pub enum PickError {
    CorpusExhausted,
}

/// Whether `c` is a Ukrainian vowel. Every character has an uppercase
/// mapping, so this never fails.
pub fn is_vowel(c: char) -> (r: Result<bool, ()>)
    ensures
        r == Ok::<bool, ()>(vowel(c)),
{
    match uppercase_first(c) {
        None => Err(()),
        Some(u) => Ok(
            u == 'А' || u == 'Е' || u == 'Є' || u == 'И' || u == 'І' || u == 'Ї' || u == 'О' || u
                == 'У' || u == 'Ю' || u == 'Я',
        ),
    }
}

impl StressWord {
    /// The word as the dictionary gives it, with its stress mark.
    pub fn new(word_with_stress_symbol: String) -> (r: StressWord)
        ensures
            r.word_with_stress_symbol == word_with_stress_symbol,
            r.word_without_stress_symbol@ == strip_marks(word_with_stress_symbol@),
    {
        let word_without_stress_symbol = Self::get_word_without_stress(
            word_with_stress_symbol.as_str(),
        );
        StressWord { word_with_stress_symbol, word_without_stress_symbol }
    }

    /// `word` with every stress mark taken out.
    pub fn get_word_without_stress(word: &str) -> (r: String)
        ensures
            r@ == strip_marks(word@),
    {
        let n = word.unicode_len();
        let mut out = String::new();
        let mut i: usize = 0;
        while i < n
            invariant
                n == word@.len(),
                i <= n,
                out@ == strip_marks(word@.subrange(0, i as int)),
            decreases n - i,
        {
            let c = word.get_char(i);
            assert(word@.subrange(0, i + 1).drop_last() =~= word@.subrange(0, i as int));
            if c != STRESS_MARK {
                push_char(&mut out, c);
            }
            i = i + 1;
        }
        assert(word@.subrange(0, n as int) =~= word@);
        out
    }

    /// The word fits a stress question: at least two vowels and no space.
    pub open spec fn eligible(&self) -> bool {
        vowel_count(self.word_without_stress_symbol@) >= 2 && !self.word_without_stress_symbol@.contains(
            ' ',
        )
    }

    /// The runtime test of `eligible`.
    pub fn is_eligible(&self) -> (r: bool)
        ensures
            r == self.eligible(),
    {
        let w = self.word_without_stress_symbol.as_str();
        let n = w.unicode_len();
        let mut vowels: usize = 0;
        let mut i: usize = 0;
        while i < n
            invariant
                n == w@.len(),
                i <= n,
                w@ == self.word_without_stress_symbol@,
                vowels == vowel_count(w@.subrange(0, i as int)),
                vowels <= i,
                forall|j: int| 0 <= j < i ==> w@[j] != ' ',
            decreases n - i,
        {
            let c = w.get_char(i);
            if c == ' ' {
                assert(w@.contains(' ')) by {
                    assert(w@[i as int] == ' ');
                }
                return false;
            }
            assert(w@.subrange(0, i + 1).drop_last() =~= w@.subrange(0, i as int));
            if let Ok(true) = is_vowel(c) {
                vowels = vowels + 1;
            }
            i = i + 1;
        }
        assert(w@.subrange(0, n as int) =~= w@);
        vowels >= 2
    }

    /// Position `p` of the bare form is stressed in the marked form: a mark
    /// follows it there.
    pub open spec fn stressed_at(&self, p: int) -> bool {
        let m = self.word_with_stress_symbol@;
        0 <= p && p + 1 < m.len() && m[p + 1] == STRESS_MARK
    }

    /// A wrong stress can be put after position `p`: a vowel that is not stressed.
    pub open spec fn distractor_position(&self, p: int) -> bool {
        let b = self.word_without_stress_symbol@;
        0 <= p < b.len() && vowel(b[p]) && !self.stressed_at(p)
    }

    /// The marked form holds one mark, after a character, and the bare form
    /// is the marked one without it.
    pub open spec fn well_formed(&self) -> bool {
        &&& mark_count(self.word_with_stress_symbol@) == 1
        &&& self.word_with_stress_symbol@.len() > 0
        &&& self.word_with_stress_symbol@[0] != STRESS_MARK
        &&& self.word_without_stress_symbol@ == strip_marks(self.word_with_stress_symbol@)
    }

    /// `q` asks about this word: one option is the marked form and right, the
    /// other puts the mark after a vowel that is not stressed and is wrong,
    /// and the text shows both in their order.
    pub open spec fn is_question(&self, q: Question) -> bool {
        let o = q.options();
        &&& o.len() == 2
        &&& exactly_one_correct(o)
        &&& forall|i: int|
            0 <= i < 2 && (#[trigger] o[i]).is_correct ==> o[i].text
                == self.word_with_stress_symbol@
        &&& forall|i: int|
            0 <= i < 2 && !(#[trigger] o[i]).is_correct ==> exists|p: int|
                self.distractor_position(p) && o[i].text == insert_mark(
                    self.word_without_stress_symbol@,
                    p,
                )
        &&& q.text@ == stress_question_text(o[0].text, o[1].text)
    }

    /// The positions after which a wrong stress can be put, in order.
    fn distractor_positions(&self) -> (r: Vec<usize>)
        ensures
            forall|k: int| 0 <= k < r@.len() ==> self.distractor_position(#[trigger] r@[k] as int),
            forall|p: int| #[trigger] self.distractor_position(p) ==> r@.contains(p as usize),
    {
        let bare = self.word_without_stress_symbol.as_str();
        let marked = self.word_with_stress_symbol.as_str();
        let n = bare.unicode_len();
        let m = marked.unicode_len();
        let mut r: Vec<usize> = Vec::new();
        let mut i: usize = 0;
        while i < n
            invariant
                n == bare@.len(),
                m == marked@.len(),
                bare@ == self.word_without_stress_symbol@,
                marked@ == self.word_with_stress_symbol@,
                i <= n,
                forall|k: int|
                    0 <= k < r@.len() ==> self.distractor_position(#[trigger] r@[k] as int),
                forall|p: int|
                    0 <= p < i && #[trigger] self.distractor_position(p) ==> r@.contains(
                        p as usize,
                    ),
            decreases n - i,
        {
            let c = bare.get_char(i);
            let stressed = i + 1 < m && marked.get_char(i + 1) == STRESS_MARK;
            let is_v = match is_vowel(c) {
                Ok(v) => v,
                Err(_) => true,
            };
            let ghost before = r@;
            assert(c == bare@[i as int]);
            assert(stressed == self.stressed_at(i as int));
            if !stressed && is_v {
                r.push(i);
                assert(r@[r@.len() - 1] == i);
            }
            proof {
                assert forall|p: int|
                    0 <= p < i + 1 && #[trigger] self.distractor_position(p) implies r@.contains(
                    p as usize,
                ) by {
                    if p == i {
                        assert(r@[r@.len() - 1] == i);
                    } else {
                        assert(before.contains(p as usize));
                        let k = choose|k: int| 0 <= k < before.len() && before[k] == p as usize;
                        assert(r@[k] == before[k]);
                    }
                }
            }
            i = i + 1;
        }
        r
    }

    /// A two-option question on where this word's stress falls, the options
    /// in random order; fails when no vowel is left for a wrong stress.
    pub fn generate_question(&self) -> (r: Result<Question, StressQuestionError>)
        ensures
            r is Err <==> forall|p: int| !self.distractor_position(p),
            match r {
                Ok(q) => self.is_question(q),
                Err(e) => e == StressQuestionError::NoDistractorPosition,
            },
    {
        let positions = self.distractor_positions();
        if positions.len() == 0 {
            proof {
                assert forall|p: int| !self.distractor_position(p) by {
                    if self.distractor_position(p) {
                        assert(positions@.contains(p as usize));
                    }
                }
            }
            return Err(StressQuestionError::NoDistractorPosition);
        }
        let k = random_below(positions.len());
        let p = positions[k];
        assert(self.distractor_position(positions@[k as int] as int));
        let bare = self.word_without_stress_symbol.as_str();
        let n = bare.unicode_len();
        let head = bare.substring_char(0, p + 1);
        let tail = bare.substring_char(p + 1, n);
        let mut wrong = String::from_str(head);
        push_char(&mut wrong, STRESS_MARK);
        wrong.append(tail);
        assert(wrong@ =~= insert_mark(self.word_without_stress_symbol@, p as int));

        let mut answers: Vec<Answer> = Vec::new();
        answers.push(Answer::new(self.word_with_stress_symbol.clone(), true));
        answers.push(Answer::new(wrong, false));
        let ghost before = answer_views(answers@);
        assert(before[0].is_correct && !before[1].is_correct);
        assert(exactly_one_correct(before));
        shuffle_answers(&mut answers);
        proof {
            let after = answer_views(answers@);
            lemma_reorder_keeps_members(before, after);
            lemma_reorder_keeps_one_correct(before, after);
            assert forall|i: int| 0 <= i < 2 implies after[i] == before[0] || after[i] == before[1] by {
                assert(before.contains(after[i]));
            }
        }
        let mut text = String::from_str("<b><i>");
        text.append(answers[0].text.as_str());
        text.append("</i></b> чи <b><i>");
        text.append(answers[1].text.as_str());
        text.append("</i></b> ?");
        Ok(Question::new(text, answers))
    }
}

/// For a well-formed word, both options of its question hold the bare form
/// with exactly one stress mark, and the two options differ.
pub proof fn lemma_stress_options_differ_only_in_mark(w: StressWord, q: Question)
    requires
        w.well_formed(),
        w.is_question(q),
    ensures
        forall|i: int|
            0 <= i < 2 ==> strip_marks((#[trigger] q.options()[i]).text)
                == w.word_without_stress_symbol@ && mark_count(q.options()[i].text) == 1,
        q.options()[0].text != q.options()[1].text,
{
    let o = q.options();
    let marked = w.word_with_stress_symbol@;
    let bare = w.word_without_stress_symbol@;
    lemma_strip_unmarked(marked);
    lemma_strip_unmarked(bare);
    lemma_stripped_len(marked);
    assert(bare.len() + 1 == marked.len());
    assert forall|i: int|
        0 <= i < 2 implies strip_marks((#[trigger] o[i]).text) == bare && mark_count(o[i].text)
        == 1 by {
        if !o[i].is_correct {
            let p = choose|p: int| w.distractor_position(p) && o[i].text == insert_mark(bare, p);
            lemma_insert_mark(bare, p);
        } else {
            assert(o[i].text == marked);
        }
    }
    let (c, d) = if o[0].is_correct { (0int, 1int) } else { (1int, 0int) };
    assert(o[c].is_correct && !o[d].is_correct);
    let p = choose|p: int| w.distractor_position(p) && o[d].text == insert_mark(bare, p);
    assert(o[d].text[p + 1] == STRESS_MARK);
    assert(o[c].text[p + 1] != STRESS_MARK);
}

/// The words of a stress dictionary.
#[derive(Clone, Debug)]
pub struct StressWords {
    pub words: Vec<StressWord>,
}

impl StressWords {
    /// The dictionary built from its lines, one marked word on each.
    pub fn new(lines: Vec<String>) -> (r: StressWords)
        ensures
            r.words@.len() == lines@.len(),
            forall|i: int|
                0 <= i < lines@.len() ==> (#[trigger] r.words@[i]).word_with_stress_symbol
                    == lines@[i] && r.words@[i].word_without_stress_symbol@ == strip_marks(
                    lines@[i]@,
                ),
    {
        let mut words: Vec<StressWord> = Vec::new();
        let mut i: usize = 0;
        while i < lines.len()
            invariant
                i <= lines@.len(),
                words@.len() == i,
                forall|j: int|
                    0 <= j < i ==> (#[trigger] words@[j]).word_with_stress_symbol == lines@[j]
                        && words@[j].word_without_stress_symbol@ == strip_marks(lines@[j]@),
            decreases lines@.len() - i,
        {
            words.push(StressWord::new(lines[i].clone()));
            i = i + 1;
        }
        StressWords { words }
    }

    /// `q` is a stress question on an eligible word of this dictionary.
    pub open spec fn from_corpus(&self, q: Question) -> bool {
        exists|w: StressWord| w.eligible() && self.words@.contains(w) && w.is_question(q)
    }

    /// Every draw succeeds: the dictionary has words, and each is eligible
    /// and well formed.
    pub open spec fn all_fit(&self) -> bool {
        &&& self.words@.len() > 0
        &&& forall|i: int|
            0 <= i < self.words@.len() ==> (#[trigger] self.words@[i]).eligible()
                && self.words@[i].well_formed()
    }

    /// A quiz of `count` stress questions, each on a random word of the
    /// dictionary fit for one. Fails only when the draws run out.
    pub fn make_quiz(&self, count: usize) -> (r: Result<Quiz, PickError>)
        ensures
            match r {
                Ok(quiz) => {
                    &&& quiz.questions@.len() == count
                    &&& quiz.current_question == 0
                    &&& quiz.score == 0
                    &&& forall|i: int| 0 <= i < count ==> #[trigger] self.from_corpus(quiz.questions@[i])
                },
                Err(e) => e == PickError::CorpusExhausted,
            },
            (forall|i: int| 0 <= i < self.words@.len() ==> !(#[trigger] self.words@[i]).eligible())
                && count > 0 ==> r is Err,
            count == 0 ==> r is Ok,
            self.all_fit() ==> r is Ok,
    {
        let mut questions: Vec<Question> = Vec::new();
        let mut tries: usize = 0;
        while questions.len() < count
            invariant
                questions@.len() <= count,
                forall|i: int| 0 <= i < questions@.len() ==> #[trigger] self.from_corpus(questions@[i]),
                (forall|i: int| 0 <= i < self.words@.len() ==> !(#[trigger] self.words@[i]).eligible())
                    ==> questions@.len() == 0,
                self.all_fit() ==> tries == 0,
            decreases count - questions@.len(), MAX_DRAWS - tries,
        {
            if tries >= MAX_DRAWS {
                return Err(PickError::CorpusExhausted);
            }
            let w = self.get_random_word()?;
            proof {
                if self.all_fit() {
                    let k = choose|k: int| 0 <= k < self.words@.len() && self.words@[k] == *w;
                    assert(self.words@[k].well_formed());
                    lemma_fit_word_has_distractor(*w);
                }
            }
            match w.generate_question() {
                Ok(q) => {
                    let ghost before = questions@;
                    questions.push(q);
                    proof {
                        assert forall|i: int| 0 <= i < questions@.len() implies #[trigger] self.from_corpus(
                            questions@[i],
                        ) by {
                            if i < before.len() {
                                assert(questions@[i] == before[i]);
                            } else {
                                assert(w.is_question(questions@[i]));
                            }
                        }
                    }
                    tries = 0;
                },
                Err(_) => {
                    tries = tries + 1;
                },
            }
        }
        Ok(Quiz::new(questions))
    }

    /// A random word fit for a stress question. Draws are repeated a bounded
    /// number of times; a dictionary without such a word always fails, and
    /// one whose words are all fit never does.
    pub fn get_random_word(&self) -> (r: Result<&StressWord, PickError>)
        ensures
            match r {
                Ok(w) => w.eligible() && self.words@.contains(*w),
                Err(e) => e == PickError::CorpusExhausted,
            },
            (forall|i: int| 0 <= i < self.words@.len() ==> !(#[trigger] self.words@[i]).eligible())
                ==> r is Err,
            self.words@.len() > 0 && (forall|i: int|
                0 <= i < self.words@.len() ==> (#[trigger] self.words@[i]).eligible()) ==> r is Ok,
    {
        if self.words.len() == 0 {
            return Err(PickError::CorpusExhausted);
        }
        let mut tries: usize = 0;
        while tries < MAX_DRAWS
            invariant
                self.words@.len() > 0,
                (forall|i: int| 0 <= i < self.words@.len() ==> (#[trigger] self.words@[i]).eligible())
                    ==> tries == 0,
            decreases MAX_DRAWS - tries,
        {
            let i = random_below(self.words.len());
            if self.words[i].is_eligible() {
                assert(self.words@.contains(self.words@[i as int]));
                return Ok(&self.words[i]);
            }
            tries = tries + 1;
        }
        Err(PickError::CorpusExhausted)
    }
}

proof fn lemma_has_vowel(s: Seq<char>) -> (i: int)
    requires
        vowel_count(s) >= 1,
    ensures
        0 <= i < s.len(),
        vowel(s[i]),
    decreases s.len(),
{
    if vowel(s.last()) {
        (s.len() - 1) as int
    } else {
        let i = lemma_has_vowel(s.drop_last());
        assert(s[i] == s.drop_last()[i]);
        i
    }
}

proof fn lemma_two_vowels(s: Seq<char>) -> (ij: (int, int))
    requires
        vowel_count(s) >= 2,
    ensures
        0 <= ij.0 < ij.1 < s.len(),
        vowel(s[ij.0]),
        vowel(s[ij.1]),
    decreases s.len(),
{
    if vowel(s.last()) {
        let i = lemma_has_vowel(s.drop_last());
        assert(s[i] == s.drop_last()[i]);
        (i, (s.len() - 1) as int)
    } else {
        let ij = lemma_two_vowels(s.drop_last());
        assert(s[ij.0] == s.drop_last()[ij.0]);
        assert(s[ij.1] == s.drop_last()[ij.1]);
        ij
    }
}

proof fn lemma_mark_counted(s: Seq<char>, i: int)
    requires
        0 <= i < s.len(),
        s[i] == STRESS_MARK,
    ensures
        mark_count(s) >= 1,
    decreases s.len(),
{
    if i < s.len() - 1 {
        assert(s.drop_last()[i] == s[i]);
        lemma_mark_counted(s.drop_last(), i);
    }
}

proof fn lemma_two_marks_counted(s: Seq<char>, i: int, j: int)
    requires
        0 <= i < j < s.len(),
        s[i] == STRESS_MARK,
        s[j] == STRESS_MARK,
    ensures
        mark_count(s) >= 2,
    decreases s.len(),
{
    assert(s.drop_last()[i] == s[i]);
    if j == s.len() - 1 {
        lemma_mark_counted(s.drop_last(), i);
    } else {
        assert(s.drop_last()[j] == s[j]);
        lemma_two_marks_counted(s.drop_last(), i, j);
    }
}

/// A well-formed eligible word always has a vowel left for a wrong stress.
pub proof fn lemma_fit_word_has_distractor(w: StressWord)
    requires
        w.eligible(),
        w.well_formed(),
    ensures
        exists|p: int| w.distractor_position(p),
{
    let ij = lemma_two_vowels(w.word_without_stress_symbol@);
    if w.stressed_at(ij.0) && w.stressed_at(ij.1) {
        lemma_two_marks_counted(w.word_with_stress_symbol@, ij.0 + 1, ij.1 + 1);
    }
    if !w.stressed_at(ij.0) {
        assert(w.distractor_position(ij.0));
    } else {
        assert(w.distractor_position(ij.1));
    }
}

} // verus!
