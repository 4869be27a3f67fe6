use vstd::prelude::*;

use crate::draw::{random_below, shuffle_answers};
use crate::quiz::{
    answer_views, exactly_one_correct, lemma_reorder_keeps_members,
    lemma_reorder_keeps_one_correct, Answer, Question, Quiz,
};
use crate::stress::{PickError, MAX_DRAWS};
use crate::text::{alphanumeric, is_alphanumeric, push_char};
use vstd::string::StrSliceExecFns;

verus! {

/// A universal part-of-speech tag.
#[derive(Clone, Copy, Debug, PartialEq, Eq, Structural, Hash)]
pub enum PosTag {
    Adj,
    Adp,
    Adv,
    Aux,
    Cconj,
    Det,
    Intj,
    Noun,
    Num,
    Part,
    Pron,
    Propn,
    Punct,
    Sconj,
    Sym,
    Verb,
    X,
}

/// A word of a tagged sentence: its surface form and its tag, if any.
#[derive(Clone, Debug)]
pub struct TaggedToken {
    pub form: String,
    pub upos: Option<PosTag>,
}

/// A tagged sentence: its tokens and its comment lines.
#[derive(Clone, Debug)]
pub struct PartsSentence {
    pub tokens: Vec<TaggedToken>,
    pub meta: Vec<String>,
}

/// A corpus of tagged sentences.
pub struct PartsSentences {
    pub sentenses: Vec<PartsSentence>,
}

/// Why a part-of-speech question could not be built.
pub enum PartsQuestionError {
    NoTargetWord,
    NoSentenceText,
}

/// The Ukrainian label of a tag.
pub open spec fn pos_label_of(t: Option<PosTag>) -> Seq<char> {
    match t {
        Some(PosTag::Adj) => "прикметник"@,
        Some(PosTag::Adv) => "прислівник"@,
        Some(PosTag::Intj) => "вигук"@,
        Some(PosTag::Noun) => "іменник"@,
        Some(PosTag::Propn) => "власний іменник"@,
        Some(PosTag::Verb) => "дієслово"@,
        Some(PosTag::Pron) => "займенник"@,
        Some(PosTag::Adp) => "прийменник"@,
        Some(PosTag::Cconj) => "сполучник"@,
        Some(PosTag::Sconj) => "підрядний сполучник"@,
        Some(PosTag::Aux) => "допоміжне дієслово"@,
        Some(PosTag::Det) => "детермінатив"@,
        Some(PosTag::Num) => "числівник"@,
        Some(PosTag::Part) => "частка"@,
        Some(PosTag::X) => "інше"@,
        Some(PosTag::Sym) => "символ"@,
        Some(PosTag::Punct) => "пунктуація"@,
        None => "інше"@,
    }
}

/// The tags that a question may ask about: all but other, symbol and punctuation.
pub open spec fn is_target_tag(t: Option<PosTag>) -> bool {
    match t {
        Some(PosTag::Punct) | Some(PosTag::Sym) | Some(PosTag::X) | None => false,
        _ => true,
    }
}

/// The labels that answer options are drawn from, in order.
pub open spec fn option_label(i: int) -> Seq<char> {
    if i == 0 {
        "прикметник"@
    } else if i == 1 {
        "прислівник"@
    } else if i == 2 {
        "вигук"@
    } else if i == 3 {
        "іменник"@
    } else if i == 4 {
        "власний іменник"@
    } else if i == 5 {
        "дієслово"@
    } else if i == 6 {
        "займенник"@
    } else if i == 7 {
        "прийменник"@
    } else if i == 8 {
        "сполучник"@
    } else if i == 9 {
        "підрядний сполучник"@
    } else if i == 10 {
        "допоміжне дієслово"@
    } else if i == 11 {
        "детермінатив"@
    } else if i == 12 {
        "числівник"@
    } else {
        "частка"@
    }
}

/// How many labels answer options are drawn from.
pub const OPTION_LABELS: usize = 14;

/// The label of a tag.
pub fn pos_label(t: Option<PosTag>) -> (r: &'static str)
    ensures
        r@ == pos_label_of(t),
{
    match t {
        Some(PosTag::Adj) => "прикметник",
        Some(PosTag::Adv) => "прислівник",
        Some(PosTag::Intj) => "вигук",
        Some(PosTag::Noun) => "іменник",
        Some(PosTag::Propn) => "власний іменник",
        Some(PosTag::Verb) => "дієслово",
        Some(PosTag::Pron) => "займенник",
        Some(PosTag::Adp) => "прийменник",
        Some(PosTag::Cconj) => "сполучник",
        Some(PosTag::Sconj) => "підрядний сполучник",
        Some(PosTag::Aux) => "допоміжне дієслово",
        Some(PosTag::Det) => "детермінатив",
        Some(PosTag::Num) => "числівник",
        Some(PosTag::Part) => "частка",
        Some(PosTag::X) => "інше",
        Some(PosTag::Sym) => "символ",
        Some(PosTag::Punct) => "пунктуація",
        None => "інше",
    }
}

/// The option label at position `i`.
pub fn option_label_at(i: usize) -> (r: &'static str)
    requires
        i < OPTION_LABELS,
    ensures
        r@ == option_label(i as int),
{
    match i {
        0 => "прикметник",
        1 => "прислівник",
        2 => "вигук",
        3 => "іменник",
        4 => "власний іменник",
        5 => "дієслово",
        6 => "займенник",
        7 => "прийменник",
        8 => "сполучник",
        9 => "підрядний сполучник",
        10 => "допоміжне дієслово",
        11 => "детермінатив",
        12 => "числівник",
        _ => "частка",
    }
}

/// The words of `s`, split at each space; empty pieces are kept.
pub open spec fn words_of(s: Seq<char>) -> Seq<Seq<char>>
    decreases s.len(),
{
    if s.len() == 0 {
        seq![seq![]]
    } else {
        let w = words_of(s.drop_last());
        if s.last() == ' ' {
            w.push(seq![])
        } else {
            w.drop_last().push(w.last().push(s.last()))
        }
    }
}

/// The alphanumeric characters of `w`, in order.
pub open spec fn alphanumeric_part(w: Seq<char>) -> Seq<char>
    decreases w.len(),
{
    if w.len() == 0 {
        seq![]
    } else if alphanumeric(w.last()) {
        alphanumeric_part(w.drop_last()).push(w.last())
    } else {
        alphanumeric_part(w.drop_last())
    }
}

/// `w`, emphasised when its alphanumeric part is `target`.
pub open spec fn mark_word(w: Seq<char>, target: Seq<char>) -> Seq<char> {
    if alphanumeric_part(w) == target {
        "<b><u>"@ + w + "</u></b>"@
    } else {
        w
    }
}

/// Each word followed by a space.
pub open spec fn spaced(ws: Seq<Seq<char>>) -> Seq<char>
    decreases ws.len(),
{
    if ws.len() == 0 {
        seq![]
    } else {
        spaced(ws.drop_last()) + ws.last() + seq![' ']
    }
}

/// The words joined by single spaces.
pub open spec fn joined(ws: Seq<Seq<char>>) -> Seq<char> {
    if ws.len() == 0 {
        seq![]
    } else {
        spaced(ws.drop_last()) + ws.last()
    }
}

/// The sentence `s` with every word whose alphanumeric part is `target` emphasised.
pub open spec fn highlighted(s: Seq<char>, target: Seq<char>) -> Seq<char> {
    joined(words_of(s).map_values(|w: Seq<char>| mark_word(w, target)))
}

/// The question text around a highlighted sentence and its target word.
pub open spec fn parts_question_text(sentence: Seq<char>, word: Seq<char>) -> Seq<char> {
    "У реченні:\n\""@ + sentence + "\"\n\nЯкою частиною мови є підкреслене слово \""@ + word
        + "\"?"@
}

/// The prefix of the comment line that holds the sentence text.
pub open spec fn text_prefix() -> Seq<char> {
    "text = "@
}

/// `m` is a comment line that holds the sentence text.
pub open spec fn is_text_line(m: Seq<char>) -> bool {
    m.len() >= 7 && m.subrange(0, 7) == text_prefix()
}

/// The alphanumeric characters of `w`.
fn alphanumeric_only(w: &str) -> (r: String)
    ensures
        r@ == alphanumeric_part(w@),
{
    let n = w.unicode_len();
    let mut out = String::new();
    let mut i: usize = 0;
    while i < n
        invariant
            n == w@.len(),
            i <= n,
            out@ == alphanumeric_part(w@.subrange(0, i as int)),
        decreases n - i,
    {
        let c = w.get_char(i);
        assert(w@.subrange(0, i + 1).drop_last() =~= w@.subrange(0, i as int));
        if is_alphanumeric(c) {
            push_char(&mut out, c);
        }
        i = i + 1;
    }
    assert(w@.subrange(0, n as int) =~= w@);
    out
}

/// `w`, emphasised when its alphanumeric part is `target`.
fn mark_word_exec(w: &String, target: &String) -> (r: String)
    ensures
        r@ == mark_word(w@, target@),
{
    let bare = alphanumeric_only(w.as_str());
    if bare == *target {
        let mut r = String::from_str("<b><u>");
        r.append(w.as_str());
        r.append("</u></b>");
        r
    } else {
        w.clone()
    }
}

proof fn lemma_words_nonempty(s: Seq<char>)
    ensures
        words_of(s).len() >= 1,
    decreases s.len(),
{
    if s.len() > 0 {
        lemma_words_nonempty(s.drop_last());
    }
}

/// The sentence `text` with every word whose alphanumeric part is `target`
/// emphasised; words are split at single spaces.
pub fn highlight_sentence(text: &str, target: &String) -> (r: String)
    ensures
        r@ == highlighted(text@, target@),
{
    let n = text.unicode_len();
    let mut out = String::new();
    let mut cur = String::new();
    let ghost mut done: Seq<Seq<char>> = seq![];
    let ghost f = |w: Seq<char>| mark_word(w, target@);
    let mut i: usize = 0;
    while i < n
        invariant
            n == text@.len(),
            i <= n,
            words_of(text@.subrange(0, i as int)) == done.push(cur@),
            out@ == spaced(done.map_values(f)),
            f == (|w: Seq<char>| mark_word(w, target@)),
        decreases n - i,
    {
        let c = text.get_char(i);
        let ghost prev = text@.subrange(0, i as int);
        assert(text@.subrange(0, i + 1).drop_last() =~= prev);
        assert(text@.subrange(0, i + 1).last() == c);
        if c == ' ' {
            let m = mark_word_exec(&cur, target);
            out.append(m.as_str());
            push_char(&mut out, ' ');
            proof {
                let d2 = done.push(cur@);
                assert(d2.map_values(f).drop_last() =~= done.map_values(f));
                assert(d2.map_values(f).last() == f(cur@));
                assert(out@ =~= spaced(done.map_values(f)) + f(cur@) + seq![' ']);
                done = d2;
            }
            cur = String::new();
            proof {
                assert(words_of(text@.subrange(0, i + 1)) =~= done.push(cur@));
            }
        } else {
            let ghost old_cur = cur@;
            push_char(&mut cur, c);
            proof {
                assert(done.push(old_cur).drop_last() =~= done);
                assert(words_of(text@.subrange(0, i + 1)) =~= done.push(cur@));
            }
        }
        i = i + 1;
    }
    let m = mark_word_exec(&cur, target);
    out.append(m.as_str());
    proof {
        assert(text@.subrange(0, n as int) =~= text@);
        let ws = done.push(cur@);
        assert(ws.map_values(f).drop_last() =~= done.map_values(f));
        assert(ws.map_values(f).last() == f(cur@));
        assert(ws.map_values(f).len() >= 1);
    }
    out
}

impl PartsSentence {
    pub fn new(tokens: Vec<TaggedToken>, meta: Vec<String>) -> (r: PartsSentence)
        ensures
            r.tokens == tokens,
            r.meta == meta,
    {
        PartsSentence { tokens, meta }
    }

    /// The position of the first comment line that holds the sentence text.
    pub open spec fn text_line(&self, k: int) -> bool {
        &&& 0 <= k < self.meta@.len()
        &&& is_text_line(self.meta@[k]@)
        &&& forall|j: int| 0 <= j < k ==> !is_text_line((#[trigger] self.meta@[j])@)
    }

    /// The sentence text, from the first comment line that starts with `text = `.
    pub fn sentence_text(&self) -> (r: Option<String>)
        ensures
            match r {
                Some(t) => exists|k: int|
                    #[trigger] self.text_line(k) && t@ == self.meta@[k]@.subrange(
                        7,
                        self.meta@[k]@.len() as int,
                    ),
                None => forall|k: int|
                    0 <= k < self.meta@.len() ==> !is_text_line((#[trigger] self.meta@[k])@),
            },
    {
        let prefix = String::from_str("text = ");
        proof {
            reveal_strlit("text = ");
        }
        let mut i: usize = 0;
        while i < self.meta.len()
            invariant
                i <= self.meta@.len(),
                prefix@ == text_prefix(),
                text_prefix().len() == 7,
                forall|j: int| 0 <= j < i ==> !is_text_line((#[trigger] self.meta@[j])@),
            decreases self.meta@.len() - i,
        {
            let m = self.meta[i].as_str();
            let n = m.unicode_len();
            if n >= 7 {
                let head = String::from_str(m.substring_char(0, 7));
                if head == prefix {
                    let rest = String::from_str(m.substring_char(7, n));
                    assert(self.text_line(i as int));
                    return Some(rest);
                }
            }
            i = i + 1;
        }
        None
    }

    /// `q` is a question on one of this sentence's tokens, within the text of
    /// its first text comment line.
    pub open spec fn asks(&self, q: Question) -> bool {
        exists|t: int, k: int|
            #[trigger] self.text_line(k) && #[trigger] self.is_question_on(
                t,
                self.meta@[k]@.subrange(7, self.meta@[k]@.len() as int),
                q,
            )
    }

    /// Some token carries a tag that a question may ask about.
    pub open spec fn has_target(&self) -> bool {
        exists|i: int| 0 <= i < self.tokens@.len() && is_target_tag((#[trigger] self.tokens@[i]).upos)
    }

    /// `q` asks for the part of speech of token `t` within sentence text `s`:
    /// the right option is the label of its tag, the wrong one another option
    /// label, and the text shows the sentence with the token's word emphasised.
    pub open spec fn is_question_on(&self, t: int, s: Seq<char>, q: Question) -> bool {
        let o = q.options();
        let tok = self.tokens@[t];
        &&& 0 <= t < self.tokens@.len()
        &&& is_target_tag(tok.upos)
        &&& o.len() == 2
        &&& exactly_one_correct(o)
        &&& forall|i: int| 0 <= i < 2 && (#[trigger] o[i]).is_correct ==> o[i].text == pos_label_of(tok.upos)
        &&& forall|i: int|
            0 <= i < 2 && !(#[trigger] o[i]).is_correct ==> o[i].text != pos_label_of(tok.upos)
                && exists|j: int| 0 <= j < OPTION_LABELS && o[i].text == option_label(j)
        &&& q.text@ == parts_question_text(highlighted(s, tok.form@), tok.form@)
    }

    /// A two-option question on the part of speech of a random token of this
    /// sentence whose tag may be asked about, the options in random order.
    pub fn generate_question(&self) -> (r: Result<Question, PartsQuestionError>)
        ensures
            r == Err::<Question, PartsQuestionError>(PartsQuestionError::NoTargetWord) <==> !self.has_target(),
            r == Err::<Question, PartsQuestionError>(PartsQuestionError::NoSentenceText) <==> self.has_target()
                && forall|k: int| 0 <= k < self.meta@.len() ==> !is_text_line((#[trigger] self.meta@[k])@),
            match r {
                Ok(q) => exists|t: int, k: int|
                    #[trigger] self.text_line(k) && #[trigger] self.is_question_on(
                        t,
                        self.meta@[k]@.subrange(7, self.meta@[k]@.len() as int),
                        q,
                    ),
                Err(_) => true,
            },
    {
        generate_question_out_of_sentence(self)
    }
}

/// The positions of the tokens whose tag may be asked about.
fn target_positions(s: &PartsSentence) -> (r: Vec<usize>)
    ensures
        forall|k: int| 0 <= k < r@.len() ==> (#[trigger] r@[k]) < s.tokens@.len() && is_target_tag(s.tokens@[r@[k] as int].upos),
        r@.len() == 0 ==> !s.has_target(),
{
    let mut r: Vec<usize> = Vec::new();
    let mut i: usize = 0;
    while i < s.tokens.len()
        invariant
            i <= s.tokens@.len(),
            forall|k: int| 0 <= k < r@.len() ==> (#[trigger] r@[k]) < s.tokens@.len() && is_target_tag(s.tokens@[r@[k] as int].upos),
            r@.len() == 0 ==> forall|j: int| 0 <= j < i ==> !is_target_tag((#[trigger] s.tokens@[j]).upos),
        decreases s.tokens@.len() - i,
    {
        let t = s.tokens[i].upos;
        let target = match t {
            Some(PosTag::Punct) | Some(PosTag::Sym) | Some(PosTag::X) | None => false,
            _ => true,
        };
        if target {
            r.push(i);
        }
        i = i + 1;
    }
    r
}

/// A wrong option for right label `right`, drawn from the other option labels.
fn other_label(right: &String) -> (r: String)
    ensures
        r@ != right@,
        exists|j: int| 0 <= j < OPTION_LABELS && r@ == option_label(j),
{
    let mut others: Vec<String> = Vec::new();
    let mut i: usize = 0;
    while i < OPTION_LABELS
        invariant
            i <= OPTION_LABELS,
            forall|k: int| 0 <= k < others@.len() ==> (#[trigger] others@[k])@ != right@ && exists|j: int| 0 <= j < OPTION_LABELS && others@[k]@ == option_label(j),
            others@.len() == 0 ==> forall|j: int| 0 <= j < i ==> option_label(j) == right@,
        decreases OPTION_LABELS - i,
    {
        let l = String::from_str(option_label_at(i));
        if !(l == *right) {
            others.push(l);
        }
        i = i + 1;
    }
    if others.len() == 0 {
        proof {
            reveal_strlit("вигук");
            reveal_strlit("іменник");
            assert(option_label(2) == right@ && option_label(3) == right@);
            assert(option_label(2).len() != option_label(3).len());
        }
        return String::new();
    }
    let k = random_below(others.len());
    others[k].clone()
}

/// A two-option question on the part of speech of a random token of
/// `sentence` whose tag may be asked about, the options in random order.
pub fn generate_question_out_of_sentence(sentence: &PartsSentence) -> (r: Result<
    Question,
    PartsQuestionError,
>)
    ensures
        r == Err::<Question, PartsQuestionError>(PartsQuestionError::NoTargetWord) <==> !sentence.has_target(),
        r == Err::<Question, PartsQuestionError>(PartsQuestionError::NoSentenceText) <==> sentence.has_target()
            && forall|k: int| 0 <= k < sentence.meta@.len() ==> !is_text_line((#[trigger] sentence.meta@[k])@),
        match r {
            Ok(q) => exists|t: int, k: int|
                #[trigger] sentence.text_line(k) && #[trigger] sentence.is_question_on(
                    t,
                    sentence.meta@[k]@.subrange(7, sentence.meta@[k]@.len() as int),
                    q,
                ),
            Err(_) => true,
        },
{
    let targets = target_positions(sentence);
    if targets.len() == 0 {
        return Err(PartsQuestionError::NoTargetWord);
    }
    assert(sentence.has_target()) by {
        assert(is_target_tag(sentence.tokens@[targets@[0] as int].upos));
    }
    let text = match sentence.sentence_text() {
        Some(t) => t,
        None => {
            return Err(PartsQuestionError::NoSentenceText);
        },
    };
    let ghost k = choose|k: int|
        #[trigger] sentence.text_line(k) && text@ == sentence.meta@[k]@.subrange(
            7,
            sentence.meta@[k]@.len() as int,
        );
    let t = targets[random_below(targets.len())];
    let token = &sentence.tokens[t];
    let right = String::from_str(pos_label(token.upos));
    let wrong = other_label(&right);
    let mut answers: Vec<Answer> = Vec::new();
    answers.push(Answer::new(right, true));
    answers.push(Answer::new(wrong, false));
    let ghost before = answer_views(answers@);
    assert(before[0].is_correct && !before[1].is_correct);
    assert(exactly_one_correct(before));
    shuffle_answers(&mut answers);
    proof {
        let after = answer_views(answers@);
        lemma_reorder_keeps_members(before, after);
        lemma_reorder_keeps_one_correct(before, after);
        assert forall|i: int| 0 <= i < 2 implies after[i] == before[0] || after[i] == before[1] by {
            assert(before.contains(after[i]));
        }
    }
    let sentence_text = highlight_sentence(text.as_str(), &token.form);
    let mut qt = String::from_str("У реченні:\n\"");
    qt.append(sentence_text.as_str());
    qt.append("\"\n\nЯкою частиною мови є підкреслене слово \"");
    qt.append(token.form.as_str());
    qt.append("\"?");
    let r: Result<Question, PartsQuestionError> = Ok(Question::new(qt, answers));
    assert(sentence.text_line(k) && sentence.is_question_on(
        t as int,
        sentence.meta@[k]@.subrange(7, sentence.meta@[k]@.len() as int),
        r->Ok_0,
    ));
    r
}

/// The right option of a part-of-speech question is never the label for
/// other, symbol or punctuation, and its two options differ.
pub proof fn lemma_parts_label_never_giveaway(s: PartsSentence, t: int, text: Seq<char>, q: Question)
    requires
        s.is_question_on(t, text, q),
    ensures
        forall|i: int|
            0 <= i < 2 && (#[trigger] q.options()[i]).is_correct ==> q.options()[i].text != "інше"@
                && q.options()[i].text != "символ"@ && q.options()[i].text != "пунктуація"@,
        q.options()[0].text != q.options()[1].text,
{
    let o = q.options();
    let l = pos_label_of(s.tokens@[t].upos);
    reveal_strlit("інше");
    reveal_strlit("символ");
    reveal_strlit("пунктуація");
    reveal_strlit("прикметник");
    reveal_strlit("прислівник");
    reveal_strlit("вигук");
    reveal_strlit("іменник");
    reveal_strlit("власний іменник");
    reveal_strlit("дієслово");
    reveal_strlit("займенник");
    reveal_strlit("прийменник");
    reveal_strlit("сполучник");
    reveal_strlit("підрядний сполучник");
    reveal_strlit("допоміжне дієслово");
    reveal_strlit("детермінатив");
    reveal_strlit("числівник");
    reveal_strlit("частка");
    assert(l != "інше"@ && l != "символ"@ && l != "пунктуація"@) by {
        if l.len() == 10 {
            assert(l[1] != "пунктуація"@[1]);
        }
        if l.len() == 6 {
            assert(l[0] != "символ"@[0]);
        }
    }
    if o[0].is_correct {
        assert(!o[1].is_correct);
    } else {
        assert(o[1].is_correct);
    }
}

impl PartsSentences {
    pub fn new(sentenses: Vec<PartsSentence>) -> (r: PartsSentences)
        ensures
            r.sentenses == sentenses,
    {
        PartsSentences { sentenses }
    }

    /// A sentence drawn at random.
    pub fn get_random_sentence(&self) -> (r: &PartsSentence)
        requires
            self.sentenses@.len() > 0,
        ensures
            self.sentenses@.contains(*r),
    {
        let i = random_below(self.sentenses.len());
        assert(self.sentenses@.contains(self.sentenses@[i as int]));
        &self.sentenses[i]
    }
    /// `q` is a question on a sentence of this corpus.
    pub open spec fn from_corpus(&self, q: Question) -> bool {
        exists|s: PartsSentence| self.sentenses@.contains(s) && s.asks(q)
    }

    /// Every draw succeeds: each sentence has a token that may be asked about
    /// and a comment line with its text.
    pub open spec fn all_fit(&self) -> bool {
        forall|i: int|
            0 <= i < self.sentenses@.len() ==> (#[trigger] self.sentenses@[i]).has_target()
                && exists|k: int| self.sentenses@[i].text_line(k)
    }

    /// A quiz of `count` part-of-speech questions, each on a random sentence
    /// of the corpus. Fails only when the draws run out.
    pub fn make_quiz(&self, count: usize) -> (r: Result<Quiz, PickError>)
        requires
            self.sentenses@.len() > 0,
        ensures
            match r {
                Ok(quiz) => {
                    &&& quiz.questions@.len() == count
                    &&& quiz.current_question == 0
                    &&& quiz.score == 0
                    &&& forall|i: int|
                        0 <= i < count ==> #[trigger] self.from_corpus(quiz.questions@[i])
                },
                Err(e) => e == PickError::CorpusExhausted,
            },
            count == 0 ==> r is Ok,
            self.all_fit() ==> r is Ok,
    {
        let mut questions: Vec<Question> = Vec::new();
        let mut tries: usize = 0;
        while questions.len() < count
            invariant
                self.sentenses@.len() > 0,
                self.all_fit() ==> tries == 0,
                questions@.len() <= count,
                forall|i: int|
                    0 <= i < questions@.len() ==> #[trigger] self.from_corpus(questions@[i]),
            decreases count - questions@.len(), MAX_DRAWS - tries,
        {
            if tries >= MAX_DRAWS {
                return Err(PickError::CorpusExhausted);
            }
            let s = self.get_random_sentence();
            let made = s.generate_question();
            proof {
                if self.all_fit() {
                    let m = choose|m: int| 0 <= m < self.sentenses@.len() && self.sentenses@[m] == *s;
                    assert(self.sentenses@[m].has_target());
                    let k = choose|k: int| self.sentenses@[m].text_line(k);
                    assert(is_text_line(s.meta@[k]@));
                    if made is Err {
                        assert(made->Err_0 is NoTargetWord || made->Err_0 is NoSentenceText);
                    }
                }
            }
            match made {
                Ok(q) => {
                    let ghost before = questions@;
                    questions.push(q);
                    proof {
                        assert(s.asks(q));
                        assert forall|i: int| 0 <= i < questions@.len() implies #[trigger] self.from_corpus(questions@[i]) by {
                            if i < before.len() {
                                assert(questions@[i] == before[i]);
                            } else {
                                assert(questions@[i] == q);
                                assert(self.sentenses@.contains(*s) && s.asks(questions@[i]));
                            }
                        }
                    }
                    tries = 0;
                },
                Err(_) => {
                    tries = tries + 1;
                },
            }
        }
        Ok(Quiz::new(questions))
    }
}

} // verus!
