use vstd::prelude::*;

verus! {

broadcast use vstd::seq_lib::group_to_multiset_ensures, vstd::multiset::group_multiset_axioms;

/// What an answer option means: its text and whether it is the right one.
pub ghost struct AnswerView {
    pub text: Seq<char>,
    pub is_correct: bool,
}

/// One answer option of a quiz question.
#[derive(Clone, Debug)]
pub struct Answer {
    pub text: String,
    pub is_correct: bool,
}

impl View for Answer {
    type V = AnswerView;

    open spec fn view(&self) -> AnswerView {
        AnswerView { text: self.text@, is_correct: self.is_correct }
    }
}

impl Answer {
    pub fn new(text: String, is_correct: bool) -> (r: Answer)
        ensures
            r.text == text,
            r.is_correct == is_correct,
    {
        Answer { text, is_correct }
    }
}

impl Default for Answer {
    fn default() -> (r: Answer)
        ensures
            r.text@ == Seq::<char>::empty(),
            !r.is_correct,
    {
        Answer { text: String::new(), is_correct: false }
    }
}

/// The answer options of a question, as values.
pub open spec fn answer_views(s: Seq<Answer>) -> Seq<AnswerView> {
    s.map_values(|a: Answer| a@)
}

/// Exactly one option is marked as the right one.
pub open spec fn exactly_one_correct(s: Seq<AnswerView>) -> bool {
    exists|i: int|
        #![trigger s[i]]
        0 <= i < s.len() && s[i].is_correct && forall|j: int|
            #![trigger s[j]]
            0 <= j < s.len() && s[j].is_correct ==> j == i
}

/// No two options carry the same text.
pub open spec fn distinct_texts(s: Seq<AnswerView>) -> bool {
    forall|i: int, j: int|
        #![trigger s[i], s[j]]
        0 <= i < s.len() && 0 <= j < s.len() && i != j ==> s[i].text != s[j].text
}

/// `s` holds the same options as `t`, possibly in another order.
pub open spec fn same_options(s: Seq<AnswerView>, t: Seq<AnswerView>) -> bool {
    s.to_multiset() == t.to_multiset()
}

/// `k` is the position of the first option marked as right.
pub open spec fn is_first_correct(s: Seq<AnswerView>, k: int) -> bool {
    &&& 0 <= k < s.len()
    &&& s[k].is_correct
    &&& forall|j: int| 0 <= j < k ==> !(#[trigger] s[j]).is_correct
}

/// The text of the first option marked as right; empty when there is none.
pub open spec fn right_text(s: Seq<AnswerView>) -> Seq<char> {
    if exists|k: int| is_first_correct(s, k) {
        s[choose|k: int| is_first_correct(s, k)].text
    } else {
        seq![]
    }
}

/// A reply is accepted when it equals the text of the first option marked as right.
pub open spec fn accepts(s: Seq<AnswerView>, reply: Seq<char>) -> bool {
    exists|k: int| is_first_correct(s, k) && (#[trigger] s[k]).text == reply
}

proof fn lemma_repeat_counts_twice<A>(s: Seq<A>, i: int, j: int)
    requires
        0 <= i < s.len(),
        0 <= j < s.len(),
        i != j,
        s[i] == s[j],
    ensures
        s.to_multiset().count(s[i]) >= 2,
{
    let r = s.remove(i);
    let k = if j < i { j } else { j - 1 };
    assert(r[k] == s[j]);
    assert(r.contains(s[j]));
    assert(r.to_multiset().count(s[i]) > 0);
}

proof fn lemma_twice_has_two_positions<A>(s: Seq<A>, x: A) -> (pq: (int, int))
    requires
        s.to_multiset().count(x) >= 2,
    ensures
        0 <= pq.0 < s.len(),
        0 <= pq.1 < s.len(),
        pq.0 != pq.1,
        s[pq.0] == x,
        s[pq.1] == x,
{
    assert(s.contains(x));
    let p = choose|p: int| 0 <= p < s.len() && s[p] == x;
    let r = s.remove(p);
    assert(r.to_multiset().count(x) > 0);
    assert(r.contains(x));
    let m = choose|m: int| 0 <= m < r.len() && r[m] == x;
    let q = if m < p { m } else { m + 1 };
    assert(s[q] == r[m]);
    (p, q)
}

proof fn lemma_found_in_other<A>(s: Seq<A>, t: Seq<A>, i: int) -> (k: int)
    requires
        s.to_multiset() == t.to_multiset(),
        0 <= i < s.len(),
    ensures
        0 <= k < t.len(),
        t[k] == s[i],
{
    assert(s.contains(s[i]));
    assert(t.to_multiset().count(s[i]) > 0);
    assert(t.contains(s[i]));
    choose|k: int| 0 <= k < t.len() && t[k] == s[i]
}

/// Reordering the options keeps exactly one of them right.
pub proof fn lemma_reorder_keeps_one_correct(s: Seq<AnswerView>, t: Seq<AnswerView>)
    requires
        same_options(s, t),
        exactly_one_correct(s),
    ensures
        exactly_one_correct(t),
{
    let i = choose|i: int|
        #![trigger s[i]]
        0 <= i < s.len() && s[i].is_correct && forall|j: int|
            #![trigger s[j]]
            0 <= j < s.len() && s[j].is_correct ==> j == i;
    let k = lemma_found_in_other(s, t, i);
    assert forall|j: int| #![trigger t[j]] 0 <= j < t.len() && t[j].is_correct implies j == k by {
        if j != k {
            if t[j] == t[k] {
                lemma_repeat_counts_twice(t, j, k);
                let pq = lemma_twice_has_two_positions(s, t[j]);
                assert(s[pq.0].is_correct && s[pq.1].is_correct);
            } else {
                let p = lemma_found_in_other(t, s, j);
                assert(s[p].is_correct);
            }
        }
    }
}

/// Reordering the options keeps their texts pairwise distinct.
pub proof fn lemma_reorder_keeps_distinct_texts(s: Seq<AnswerView>, t: Seq<AnswerView>)
    requires
        same_options(s, t),
        distinct_texts(s),
    ensures
        distinct_texts(t),
{
    assert forall|i: int, j: int|
        #![trigger t[i], t[j]]
        0 <= i < t.len() && 0 <= j < t.len() && i != j implies t[i].text != t[j].text by {
        if t[i].text == t[j].text {
            if t[i] == t[j] {
                lemma_repeat_counts_twice(t, i, j);
                let pq = lemma_twice_has_two_positions(s, t[i]);
                assert(s[pq.0].text == s[pq.1].text);
            } else {
                let p = lemma_found_in_other(t, s, i);
                let q = lemma_found_in_other(t, s, j);
                assert(s[p].text == s[q].text);
            }
        }
    }
}

/// Reordering keeps every option, and brings in none.
pub proof fn lemma_reorder_keeps_members(s: Seq<AnswerView>, t: Seq<AnswerView>)
    requires
        same_options(s, t),
    ensures
        forall|i: int| 0 <= i < s.len() ==> t.contains(#[trigger] s[i]),
        forall|i: int| 0 <= i < t.len() ==> s.contains(#[trigger] t[i]),
        s.len() == t.len(),
{
    assert(s.to_multiset().len() == t.to_multiset().len());
    assert forall|i: int| 0 <= i < s.len() implies t.contains(#[trigger] s[i]) by {
        let k = lemma_found_in_other(s, t, i);
    }
    assert forall|i: int| 0 <= i < t.len() implies s.contains(#[trigger] t[i]) by {
        let k = lemma_found_in_other(t, s, i);
    }
}

/// A question: its text and its answer options.
#[derive(Clone, Debug)]
pub struct Question {
    pub text: String,
    pub answers: Vec<Answer>,
}

impl Question {
    pub fn new(text: String, answers: Vec<Answer>) -> (r: Question)
        ensures
            r.text == text,
            r.answers == answers,
    {
        Question { text, answers }
    }

    /// The options as values.
    pub open spec fn options(&self) -> Seq<AnswerView> {
        answer_views(self.answers@)
    }

    /// Exactly one option is right.
    pub open spec fn has_one_correct(&self) -> bool {
        exactly_one_correct(self.options())
    }

    /// The position of the first option marked as right, if any.
    pub fn correct_answer_index(&self) -> (r: Option<usize>)
        ensures
            match r {
                Some(k) => is_first_correct(self.options(), k as int),
                None => forall|j: int|
                    0 <= j < self.options().len() ==> !(#[trigger] self.options()[j]).is_correct,
            },
    {
        let mut i: usize = 0;
        while i < self.answers.len()
            invariant
                i <= self.answers@.len(),
                forall|j: int| 0 <= j < i ==> !(#[trigger] self.options()[j]).is_correct,
            decreases self.answers@.len() - i,
        {
            if self.answers[i].is_correct {
                return Some(i);
            }
            i = i + 1;
        }
        None
    }

    /// The message shown after a wrong reply when no explanation can be had:
    /// it names the right answer.
    pub fn fallback_feedback(&self) -> (r: String)
        ensures
            r@ == "Правильна відповідь -- "@ + right_text(self.options()) + " Будь уважнішим!"@,
    {
        let mut r = String::from_str("Правильна відповідь -- ");
        match self.correct_answer_index() {
            Some(k) => {
                r.append(self.answers[k].text.as_str());
                proof {
                    let k2 = choose|k2: int| is_first_correct(self.options(), k2);
                    assert(!(k2 < k) && !(k < k2));
                }
            },
            None => {},
        }
        r.append(" Будь уважнішим!");
        r
    }

    /// Whether `reply` is the text of the first option marked as right.
    pub fn is_correct_reply(&self, reply: &str) -> (r: bool)
        ensures
            r == accepts(self.options(), reply@),
    {
        match self.correct_answer_index() {
            Some(k) => {
                let wanted = String::from_str(reply);
                let ok = self.answers[k].text == wanted;
                proof {
                    if accepts(self.options(), reply@) {
                        let k2 = choose|k2: int|
                            is_first_correct(self.options(), k2) && (#[trigger] self.options()[k2]).text
                                == reply@;
                        assert(!(k2 < k) && !(k < k2));
                    }
                }
                ok
            },
            None => false,
        }
    }
}

impl Default for Question {
    fn default() -> (r: Question)
        ensures
            r.text@ == Seq::<char>::empty(),
            r.answers@.len() == 0,
    {
        Question { text: String::new(), answers: Vec::new() }
    }
}

/// How the reply of a turn was judged.
pub enum Verdict {
    Correct,
    Wrong,
}

/// What a turn hands back: the next question to show, or the end of the quiz.
pub enum Step {
    Ask { index: usize },
    Finished { score: u32, total: usize },
}

/// The outcome of one turn: the verdict on the previous reply, if there was
/// one, and the next step.
pub struct Turn {
    pub verdict: Option<Verdict>,
    pub step: Step,
}

/// The position and score after one turn of a quiz with `total` questions,
/// where `right` tells whether the reply of that turn was right.
pub open spec fn next_position(index: nat, score: nat, total: nat, right: bool) -> (nat, nat) {
    let score2 = if index > 0 && right { score + 1 } else { score };
    let index2 = if index < total { index + 1 } else { index };
    (index2, score2)
}

/// The position and score after the first `k` turns of a fresh quiz.
pub open spec fn position_after(total: nat, replies: Seq<bool>, k: nat) -> (nat, nat)
    decreases k,
{
    if k == 0 {
        (0, 0)
    } else {
        let p = position_after(total, replies, (k - 1) as nat);
        next_position(p.0, p.1, total, replies[k - 1])
    }
}

/// Starting fresh, a quiz of `n` questions asks its questions in order over
/// `n` turns and ends with the next one; the score never falls and never
/// passes the number of questions answered.
pub proof fn lemma_quiz_runs_to_completion(n: nat, replies: Seq<bool>)
    requires
        replies.len() == n + 1,
    ensures
        forall|k: nat| k <= n ==> (#[trigger] position_after(n, replies, k)).0 == k,
        position_after(n, replies, n + 1).0 == n,
        forall|k: nat|
            k <= n ==> (#[trigger] position_after(n, replies, k)).1 <= position_after(
                n,
                replies,
                k + 1,
            ).1,
        forall|k: nat|
            k <= n + 1 ==> (#[trigger] position_after(n, replies, k)).1 <= position_after(
                n,
                replies,
                k,
            ).0,
{
    assert forall|k: nat| k <= n implies (#[trigger] position_after(n, replies, k)).0 == k && (k
        > 0 ==> position_after(n, replies, k).1 < k) by {
        lemma_position_prefix(n, replies, k);
    }
    lemma_position_prefix(n, replies, n);
    assert forall|k: nat| k <= n + 1 implies (#[trigger] position_after(n, replies, k)).1
        <= position_after(n, replies, k).0 by {
        if k <= n {
            lemma_position_prefix(n, replies, k);
        }
    }
}

proof fn lemma_position_prefix(n: nat, replies: Seq<bool>, k: nat)
    requires
        k <= n,
    ensures
        position_after(n, replies, k).0 == k,
        k > 0 ==> position_after(n, replies, k).1 < k,
        k == 0 ==> position_after(n, replies, k).1 == 0,
    decreases k,
{
    if k > 0 {
        lemma_position_prefix(n, replies, (k - 1) as nat);
    }
}

/// A running quiz: its questions, how many of them have been shown, and the
/// number of right replies so far.
#[derive(Clone, Debug)]
pub struct Quiz {
    pub questions: Vec<Question>,
    pub current_question: usize,
    pub score: u32,
}

impl Quiz {
    pub fn new(questions: Vec<Question>) -> (r: Quiz)
        ensures
            r.questions == questions,
            r.current_question == 0,
            r.score == 0,
    {
        Quiz { questions, current_question: 0, score: 0 }
    }

    /// The quiz may take another turn: its position lies within its questions
    /// and its score counts at most the replies judged so far.
    pub open spec fn can_advance(&self) -> bool {
        &&& self.current_question <= self.questions@.len()
        &&& self.questions@.len() <= u32::MAX
        &&& self.score + 1 <= self.current_question || self.score == 0
    }

    /// The runtime test of `can_advance`.
    pub fn is_ready(&self) -> (r: bool)
        ensures
            r == self.can_advance(),
    {
        self.current_question <= self.questions.len() && self.questions.len() <= 0xffff_ffffusize
            && (self.score == 0 || (self.score as usize) < self.current_question)
    }

    /// One turn: judge `reply` against the question shown last, if any, then
    /// show the next question or, after the last one, end the quiz.
    pub fn advance(&mut self, reply: &str) -> (r: Turn)
        requires
            old(self).can_advance(),
        ensures
            final(self).questions == old(self).questions,
            ({
                let i = old(self).current_question as int;
                let right = i > 0 && accepts(old(self).questions@[i - 1].options(), reply@);
                let p = next_position(
                    i as nat,
                    old(self).score as nat,
                    old(self).questions@.len(),
                    right,
                );
                &&& final(self).current_question == p.0
                &&& final(self).score == p.1
                &&& (i == 0 <==> r.verdict is None)
                &&& (r.verdict == Some(Verdict::Correct) <==> right)
                &&& (i < old(self).questions@.len() ==> r.step == Step::Ask { index: i as usize }
                    && final(self).can_advance())
                &&& (i == old(self).questions@.len() ==> r.step == (Step::Finished {
                    score: final(self).score,
                    total: old(self).questions@.len() as usize,
                }))
            }),
    {
        let i = self.current_question;
        let mut verdict: Option<Verdict> = None;
        if i > 0 {
            if self.questions[i - 1].is_correct_reply(reply) {
                self.score = self.score + 1;
                verdict = Some(Verdict::Correct);
            } else {
                verdict = Some(Verdict::Wrong);
            }
        }
        if i < self.questions.len() {
            self.current_question = i + 1;
            Turn { verdict, step: Step::Ask { index: i } }
        } else {
            Turn { verdict, step: Step::Finished { score: self.score, total: self.questions.len() } }
        }
    }
}

impl Default for Quiz {
    fn default() -> (r: Quiz)
        ensures
            r.questions@.len() == 0,
            r.current_question == 0,
            r.score == 0,
    {
        Quiz::new(Vec::new())
    }
}

/// The value of an ASCII decimal digit.
pub open spec fn digit_value(c: char) -> Option<nat> {
    if c == '0' {
        Some(0)
    } else if c == '1' {
        Some(1)
    } else if c == '2' {
        Some(2)
    } else if c == '3' {
        Some(3)
    } else if c == '4' {
        Some(4)
    } else if c == '5' {
        Some(5)
    } else if c == '6' {
        Some(6)
    } else if c == '7' {
        Some(7)
    } else if c == '8' {
        Some(8)
    } else if c == '9' {
        Some(9)
    } else {
        None
    }
}

/// `c` is an ASCII decimal digit.
pub open spec fn is_digit(c: char) -> bool {
    digit_value(c) is Some
}

/// The value of a run of decimal digits.
pub open spec fn digits_value(s: Seq<char>) -> nat
    decreases s.len(),
{
    if s.len() == 0 {
        0
    } else {
        digits_value(s.drop_last()) * 10 + digit_value(s.last())->0
    }
}

/// Every character of `s` is an ASCII decimal digit.
pub open spec fn all_digits(s: Seq<char>) -> bool {
    forall|i: int| 0 <= i < s.len() ==> is_digit(#[trigger] s[i])
}

/// `s` without one leading `+`, if it has one.
pub open spec fn unsigned_part(s: Seq<char>) -> Seq<char> {
    if s.len() > 0 && s[0] == '+' {
        s.subrange(1, s.len() as int)
    } else {
        s
    }
}

/// The number that `s` spells as a `usize`: an optional `+`, then one or
/// more ASCII digits whose value fits; `None` for anything else.
pub open spec fn parsed_usize(s: Seq<char>) -> Option<usize> {
    let d = unsigned_part(s);
    if d.len() > 0 && all_digits(d) && digits_value(d) <= usize::MAX {
        Some(digits_value(d) as usize)
    } else {
        None
    }
}

/// Relies on `str::parse::<usize>` (`usize::from_str`): an optional `+`
/// followed by decimal digits whose value fits gives that value; any other
/// text is an error.
#[verifier::external_body]
fn parse_usize(s: &str) -> (r: Option<usize>)
    ensures
        r == parsed_usize(s@),
{
    s.parse::<usize>().ok()
}

/// Why a requested number of questions was refused.
pub enum CountError {
    NotANumber,
    Zero,
}

/// The number of questions that a reply asks for.
pub fn parse_question_count(reply: &str) -> (r: Result<usize, CountError>)
    ensures
        match parsed_usize(reply@) {
            None => r == Err::<usize, CountError>(CountError::NotANumber),
            Some(n) => if n == 0 {
                r == Err::<usize, CountError>(CountError::Zero)
            } else {
                r == Ok::<usize, CountError>(n)
            },
        },
{
    match parse_usize(reply) {
        None => Err(CountError::NotANumber),
        Some(0) => Err(CountError::Zero),
        Some(n) => Ok(n),
    }
}

} // verus!
