use vstd::prelude::*;

use crate::draw::{random_below, random_flag, shuffle_answers};
use crate::quiz::{
    answer_views, distinct_texts, exactly_one_correct, lemma_reorder_keeps_distinct_texts,
    lemma_reorder_keeps_members, lemma_reorder_keeps_one_correct, Answer, AnswerView, Question,
};

verus! {

/// A grammatical case of a Ukrainian noun.
#[derive(Clone, Copy, Debug, PartialEq, Eq, Structural, PartialOrd, Ord, Hash)]
pub enum NounCase {
    Nominative,
    Genitive,
    Dative,
    Accusative,
    Instrumental,
    Locative,
    Vocative,
}

impl Default for NounCase {
    fn default() -> (r: NounCase)
        ensures
            r == NounCase::Nominative,
    {
        NounCase::Nominative
    }
}

/// The Ukrainian name of a case.
pub open spec fn case_name(c: NounCase) -> Seq<char> {
    match c {
        NounCase::Nominative => "називний"@,
        NounCase::Genitive => "родовий"@,
        NounCase::Dative => "давальний"@,
        NounCase::Accusative => "знахідний"@,
        NounCase::Instrumental => "орудний"@,
        NounCase::Locative => "місцевий"@,
        NounCase::Vocative => "кличний"@,
    }
}

/// The questions that a noun in a case answers.
pub open spec fn case_question(c: NounCase) -> Seq<char> {
    match c {
        NounCase::Nominative => "Хто? Що?"@,
        NounCase::Genitive => "Кого? Чого?"@,
        NounCase::Dative => "Кому? Чому?"@,
        NounCase::Accusative => "Кого? Що?"@,
        NounCase::Instrumental => "Ким? Чим?"@,
        NounCase::Locative => "На кому? На чому?"@,
        NounCase::Vocative => "Звертання до когось або чогось"@,
    }
}

impl NounCase {
    pub fn to_ukrainian_string(&self) -> (r: &'static str)
        ensures
            r@ == case_name(*self),
    {
        match self {
            NounCase::Nominative => "називний",
            NounCase::Genitive => "родовий",
            NounCase::Dative => "давальний",
            NounCase::Accusative => "знахідний",
            NounCase::Instrumental => "орудний",
            NounCase::Locative => "місцевий",
            NounCase::Vocative => "кличний",
        }
    }

    pub fn ukrainian_question(&self) -> (r: &'static str)
        ensures
            r@ == case_question(*self),
    {
        match self {
            NounCase::Nominative => "Хто? Що?",
            NounCase::Genitive => "Кого? Чого?",
            NounCase::Dative => "Кому? Чому?",
            NounCase::Accusative => "Кого? Що?",
            NounCase::Instrumental => "Ким? Чим?",
            NounCase::Locative => "На кому? На чому?",
            NounCase::Vocative => "Звертання до когось або чогось",
        }
    }

    /// A case drawn at random from all seven.
    pub fn get_random_by_case() -> (r: NounCase) {
        match random_below(7) {
            0 => NounCase::Nominative,
            1 => NounCase::Genitive,
            2 => NounCase::Dative,
            3 => NounCase::Accusative,
            4 => NounCase::Instrumental,
            5 => NounCase::Locative,
            _ => NounCase::Vocative,
        }
    }

    /// A case drawn at random from the six besides the nominative.
    pub fn get_random_by_case_exluding_nominative() -> (r: NounCase)
        ensures
            r != NounCase::Nominative,
    {
        match random_below(6) {
            0 => NounCase::Genitive,
            1 => NounCase::Dative,
            2 => NounCase::Accusative,
            3 => NounCase::Instrumental,
            4 => NounCase::Locative,
            _ => NounCase::Vocative,
        }
    }
}

/// One inflected form of a noun.
#[derive(Clone, Debug)]
pub struct NounForm {
    pub word: String,
    pub case: NounCase,
    pub is_plural: bool,
}

/// The Ukrainian word for a number, as a label.
pub open spec fn number_label(is_plural: bool) -> Seq<char> {
    if is_plural {
        "множина"@
    } else {
        "однина"@
    }
}

impl NounForm {
    /// The form with its case and number, for display.
    pub fn to_ukrainian_string(&self) -> (r: String)
        ensures
            r@ == self.word@ + " ("@ + case_name(self.case) + " відмінок, "@ + number_label(
                self.is_plural,
            ) + ")"@,
    {
        let mut s = self.word.clone();
        s.append(" (");
        s.append(self.case.to_ukrainian_string());
        s.append(" відмінок, ");
        s.append(if self.is_plural { "множина" } else { "однина" });
        s.append(")");
        s
    }
}

/// A noun: its dictionary form and its inflected forms.
#[derive(Clone, Debug)]
pub struct Noun {
    pub word: String,
    pub forms: Vec<NounForm>,
}

/// Why a declension question could not be built.
pub enum GenerateQuestionError {
    NoNominativeForm,
    NoCorrectAnswer,
}

/// `k` is the first form in `forms` of case `c` and number `pl`.
pub open spec fn is_first_with(forms: Seq<NounForm>, k: int, c: NounCase, pl: bool) -> bool {
    &&& 0 <= k < forms.len()
    &&& forms[k].case == c
    &&& forms[k].is_plural == pl
    &&& forall|j: int|
        0 <= j < k ==> !((#[trigger] forms[j]).case == c && forms[j].is_plural == pl)
}

/// Some form of case `c` and number `pl` exists.
pub open spec fn has_form(forms: Seq<NounForm>, c: NounCase, pl: bool) -> bool {
    exists|k: int| 0 <= k < forms.len() && (#[trigger] forms[k]).case == c && forms[k].is_plural == pl
}

/// Form `k` answers the request for case `c` and number `pl`: the first of
/// that case and number, or, where there is none, the first of that case and
/// the other number.
pub open spec fn answers_request(forms: Seq<NounForm>, k: int, c: NounCase, pl: bool) -> bool {
    is_first_with(forms, k, c, pl) || (!has_form(forms, c, pl) && is_first_with(forms, k, c, !pl))
}

/// `t` is a wrong option for the right form `k`: the text of a form outside
/// the nominative and outside the case of `k`, of the number of `k`, and not
/// the text of `k`.
pub open spec fn is_distractor(forms: Seq<NounForm>, k: int, t: Seq<char>) -> bool {
    &&& t != forms[k].word@
    &&& exists|j: int|
        0 <= j < forms.len() && (#[trigger] forms[j]).case != NounCase::Nominative && forms[j].case
            != forms[k].case && forms[j].is_plural == forms[k].is_plural && forms[j].word@ == t
}

/// The question text for `lemma`, case `c` and number `pl`.
pub open spec fn declension_text(lemma: Seq<char>, c: NounCase, pl: bool) -> Seq<char> {
    "Поставте іменник \""@ + lemma + "\" у "@ + case_name(c) + " відмінок ("@ + case_question(c)
        + ") "@ + (if pl {
        "множини"@
    } else {
        "однини"@
    }) + " "@
}

/// The case that a dictionary key code names.
pub open spec fn case_of_code(s: Seq<char>) -> Option<NounCase> {
    if s == "nom"@ {
        Some(NounCase::Nominative)
    } else if s == "gen"@ {
        Some(NounCase::Genitive)
    } else if s == "dat"@ {
        Some(NounCase::Dative)
    } else if s == "acc"@ {
        Some(NounCase::Accusative)
    } else if s == "ins"@ {
        Some(NounCase::Instrumental)
    } else if s == "loc"@ {
        Some(NounCase::Locative)
    } else if s == "voc"@ {
        Some(NounCase::Vocative)
    } else {
        None
    }
}

/// The number that a dictionary key code names: `np` plural, `ns` singular.
pub open spec fn plural_of_code(s: Seq<char>) -> Option<bool> {
    if s == "np"@ {
        Some(true)
    } else if s == "ns"@ {
        Some(false)
    } else {
        None
    }
}

/// `i` is the position of the first space in `s`.
pub open spec fn is_first_space(s: Seq<char>, i: int) -> bool {
    0 <= i < s.len() && s[i] == ' ' && forall|j: int| 0 <= j < i ==> s[j] != ' '
}

/// The case and number that a dictionary key such as `gen ns` names: the
/// case code before its first space and the number code after it.
pub open spec fn form_key(s: Seq<char>) -> Option<(NounCase, bool)> {
    if exists|i: int| is_first_space(s, i) {
        let i = choose|i: int| is_first_space(s, i);
        match (case_of_code(s.subrange(0, i)), plural_of_code(s.subrange(i + 1, s.len() as int))) {
            (Some(c), Some(p)) => Some((c, p)),
            _ => None,
        }
    } else {
        None
    }
}

/// A form as a value: its text, case and number.
pub open spec fn form_view(f: NounForm) -> (Seq<char>, NounCase, bool) {
    (f.word@, f.case, f.is_plural)
}

/// The forms that dictionary entries (a key and the first form listed under
/// it) give, in order; entries whose key names no case and number are skipped.
pub open spec fn forms_of_entries(entries: Seq<(String, String)>) -> Seq<(Seq<char>, NounCase, bool)>
    decreases entries.len(),
{
    if entries.len() == 0 {
        seq![]
    } else {
        let rest = forms_of_entries(entries.drop_last());
        match form_key(entries.last().0@) {
            Some((c, p)) => rest.push((entries.last().1@, c, p)),
            None => rest,
        }
    }
}

fn case_from_code(s: &str) -> (r: Option<NounCase>)
    ensures
        r == case_of_code(s@),
{
    let h = String::from_str(s);
    if h == String::from_str("nom") {
        Some(NounCase::Nominative)
    } else if h == String::from_str("gen") {
        Some(NounCase::Genitive)
    } else if h == String::from_str("dat") {
        Some(NounCase::Dative)
    } else if h == String::from_str("acc") {
        Some(NounCase::Accusative)
    } else if h == String::from_str("ins") {
        Some(NounCase::Instrumental)
    } else if h == String::from_str("loc") {
        Some(NounCase::Locative)
    } else if h == String::from_str("voc") {
        Some(NounCase::Vocative)
    } else {
        None
    }
}

fn plural_from_code(s: &str) -> (r: Option<bool>)
    ensures
        r == plural_of_code(s@),
{
    let h = String::from_str(s);
    if h == String::from_str("np") {
        Some(true)
    } else if h == String::from_str("ns") {
        Some(false)
    } else {
        None
    }
}

/// The case and number that a dictionary key names.
pub fn parse_form_key(key: &str) -> (r: Option<(NounCase, bool)>)
    ensures
        r == form_key(key@),
{
    let n = key.unicode_len();
    let mut i: usize = 0;
    while i < n
        invariant
            n == key@.len(),
            i <= n,
            forall|j: int| 0 <= j < i ==> key@[j] != ' ',
        decreases n - i,
    {
        if key.get_char(i) == ' ' {
            assert(is_first_space(key@, i as int));
            let ghost c = choose|c: int| is_first_space(key@, c);
            assert(!(c < i) && !(i < c));
            let case = case_from_code(key.substring_char(0, i));
            let plural = plural_from_code(key.substring_char(i + 1, n));
            return match (case, plural) {
                (Some(c), Some(p)) => Some((c, p)),
                _ => None,
            };
        }
        i = i + 1;
    }
    None
}

impl Noun {
    /// The noun that a dictionary word gives: `None` unless its part of
    /// speech is `noun`; its forms come from the entries, each a key such as
    /// `gen ns` and the first form listed under it.
    pub fn from_entries(word: String, pos: &str, entries: &Vec<(String, String)>) -> (r: Option<Noun>)
        ensures
            r is None <==> pos@ != "noun"@,
            match r {
                Some(n) => n.word == word && n.forms@.map_values(|f: NounForm| form_view(f))
                    == forms_of_entries(entries@),
                None => true,
            },
    {
        if !(String::from_str(pos) == String::from_str("noun")) {
            return None;
        }
        let mut forms: Vec<NounForm> = Vec::new();
        let mut i: usize = 0;
        while i < entries.len()
            invariant
                i <= entries@.len(),
                forms@.map_values(|f: NounForm| form_view(f)) == forms_of_entries(
                    entries@.subrange(0, i as int),
                ),
            decreases entries@.len() - i,
        {
            let ghost prefix = entries@.subrange(0, i + 1);
            assert(prefix.drop_last() =~= entries@.subrange(0, i as int));
            assert(prefix.last() == entries@[i as int]);
            match parse_form_key(entries[i].0.as_str()) {
                Some((case, is_plural)) => {
                    let ghost before = forms@;
                    forms.push(NounForm { word: entries[i].1.clone(), case, is_plural });
                    assert(forms@.map_values(|f: NounForm| form_view(f)) =~= before.map_values(
                        |f: NounForm| form_view(f),
                    ).push((entries@[i as int].1@, case, is_plural)));
                },
                None => {},
            }
            i = i + 1;
        }
        assert(entries@.subrange(0, entries@.len() as int) =~= entries@);
        Some(Noun { word, forms })
    }

    /// `q` asks for this noun in case `c` and number `pl`, with form `k` as
    /// the one right option and every distractor once as a wrong one.
    pub open spec fn is_question_for(&self, c: NounCase, pl: bool, k: int, q: Question) -> bool {
        let f = self.forms@;
        let o = q.options();
        &&& answers_request(f, k, c, pl)
        &&& q.text@ == declension_text(self.word@, c, pl)
        &&& exactly_one_correct(o)
        &&& distinct_texts(o)
        &&& forall|i: int| 0 <= i < o.len() && (#[trigger] o[i]).is_correct ==> o[i].text == f[k].word@
        &&& forall|i: int|
            0 <= i < o.len() && !(#[trigger] o[i]).is_correct ==> is_distractor(f, k, o[i].text)
        &&& forall|t: Seq<char>|
            #[trigger] is_distractor(f, k, t) ==> o.contains(AnswerView { text: t, is_correct: false })
    }

    /// The first form of case `c` and number `pl`.
    fn find_form(&self, c: NounCase, pl: bool) -> (r: Option<usize>)
        ensures
            match r {
                Some(k) => is_first_with(self.forms@, k as int, c, pl),
                None => !has_form(self.forms@, c, pl),
            },
    {
        let mut i: usize = 0;
        while i < self.forms.len()
            invariant
                i <= self.forms@.len(),
                forall|j: int|
                    0 <= j < i ==> !((#[trigger] self.forms@[j]).case == c && self.forms@[j].is_plural
                        == pl),
            decreases self.forms@.len() - i,
        {
            if self.forms[i].case == c && self.forms[i].is_plural == pl {
                return Some(i);
            }
            i = i + 1;
        }
        None
    }

    /// The distractor texts for right form `k`, each once.
    fn distractor_texts(&self, k: usize) -> (r: Vec<String>)
        requires
            k < self.forms@.len(),
        ensures
            forall|i: int| 0 <= i < r@.len() ==> is_distractor(self.forms@, k as int, (#[trigger] r@[i])@),
            forall|i: int, j: int|
                0 <= i < r@.len() && 0 <= j < r@.len() && i != j ==> (#[trigger] r@[i])@ != (
                #[trigger] r@[j])@,
            forall|t: Seq<char>|
                #[trigger] is_distractor(self.forms@, k as int, t) ==> exists|i: int|
                    0 <= i < r@.len() && (#[trigger] r@[i])@ == t,
    {
        let f = &self.forms;
        let right = &f[k];
        let mut r: Vec<String> = Vec::new();
        let mut j: usize = 0;
        while j < f.len()
            invariant
                j <= f@.len(),
                k < f@.len(),
                f@ == self.forms@,
                *right == f@[k as int],
                forall|i: int| 0 <= i < r@.len() ==> is_distractor(f@, k as int, (#[trigger] r@[i])@),
                forall|a: int, b: int|
                    0 <= a < r@.len() && 0 <= b < r@.len() && a != b ==> (#[trigger] r@[a])@ != (
                    #[trigger] r@[b])@,
                forall|m: int|
                    0 <= m < j && (#[trigger] f@[m]).case != NounCase::Nominative && f@[m].case
                        != right.case && f@[m].is_plural == right.is_plural && f@[m].word@
                        != right.word@ ==> exists|i: int| 0 <= i < r@.len() && (#[trigger] r@[i])@ == f@[m].word@,
            decreases f@.len() - j,
        {
            let g = &f[j];
            if g.case != NounCase::Nominative && g.case != right.case && g.is_plural
                == right.is_plural && !(g.word == right.word) {
                let mut seen = false;
                let mut i: usize = 0;
                while i < r.len()
                    invariant
                        i <= r@.len(),
                        seen <==> exists|a: int| 0 <= a < i && (#[trigger] r@[a])@ == g.word@,
                    decreases r@.len() - i,
                {
                    if r[i] == g.word {
                        seen = true;
                    }
                    i = i + 1;
                }
                if !seen {
                    let ghost before = r@;
                    r.push(g.word.clone());
                    proof {
                        assert(is_distractor(f@, k as int, g.word@)) by {
                            assert(f@[j as int] == *g);
                        }
                        assert forall|m: int|
                            0 <= m < j + 1 && (#[trigger] f@[m]).case != NounCase::Nominative
                                && f@[m].case != right.case && f@[m].is_plural == right.is_plural
                                && f@[m].word@ != right.word@ implies exists|i: int|
                            0 <= i < r@.len() && (#[trigger] r@[i])@ == f@[m].word@ by {
                            if m == j {
                                assert(r@[r@.len() - 1]@ == f@[m].word@);
                            } else {
                                let i = choose|i: int|
                                    0 <= i < before.len() && (#[trigger] before[i])@ == f@[m].word@;
                                assert(r@[i] == before[i]);
                            }
                        }
                    }
                } else {
                    proof {
                        assert forall|m: int|
                            0 <= m < j + 1 && (#[trigger] f@[m]).case != NounCase::Nominative
                                && f@[m].case != right.case && f@[m].is_plural == right.is_plural
                                && f@[m].word@ != right.word@ implies exists|i: int|
                            0 <= i < r@.len() && (#[trigger] r@[i])@ == f@[m].word@ by {
                            if m == j {
                                assert(f@[m] == *g);
                            }
                        }
                    }
                }
            }
            j = j + 1;
        }
        proof {
            assert forall|t: Seq<char>| #[trigger] is_distractor(f@, k as int, t) implies exists|i: int|
                0 <= i < r@.len() && (#[trigger] r@[i])@ == t by {
                let m = choose|m: int|
                    0 <= m < f@.len() && (#[trigger] f@[m]).case != NounCase::Nominative && f@[m].case
                        != f@[k as int].case && f@[m].is_plural == f@[k as int].is_plural
                        && f@[m].word@ == t;
                assert(f@[m].word@ != right.word@);
            }
        }
        r
    }

    /// The question asking for this noun in case `c` and number `pl`, its
    /// options in random order; fails when the noun has no form of case `c`.
    pub fn question_for(&self, c: NounCase, pl: bool) -> (r: Result<Question, GenerateQuestionError>)
        ensures
            r is Err <==> !has_form(self.forms@, c, pl) && !has_form(self.forms@, c, !pl),
            match r {
                Ok(q) => exists|k: int| #[trigger] self.is_question_for(c, pl, k, q),
                Err(e) => e == GenerateQuestionError::NoCorrectAnswer,
            },
    {
        let k = match self.find_form(c, pl) {
            Some(k) => k,
            None => match self.find_form(c, !pl) {
                Some(k) => k,
                None => {
                    return Err(GenerateQuestionError::NoCorrectAnswer);
                },
            },
        };
        let ghost f = self.forms@;
        assert(answers_request(f, k as int, c, pl));
        let texts = self.distractor_texts(k);
        let mut answers: Vec<Answer> = Vec::new();
        let mut i: usize = 0;
        while i < texts.len()
            invariant
                i <= texts@.len(),
                answers@.len() == i,
                forall|a: int|
                    0 <= a < i ==> (#[trigger] answers@[a])@ == (AnswerView {
                        text: texts@[a]@,
                        is_correct: false,
                    }),
            decreases texts@.len() - i,
        {
            answers.push(Answer::new(texts[i].clone(), false));
            i = i + 1;
        }
        answers.push(Answer::new(self.forms[k].word.clone(), true));
        let ghost before = answer_views(answers@);
        let ghost n = texts@.len() as int;
        proof {
            assert(before[n].is_correct);
            assert(exactly_one_correct(before));
            assert forall|a: int, b: int|
                #![trigger before[a], before[b]]
                0 <= a < before.len() && 0 <= b < before.len() && a != b implies before[a].text
                != before[b].text by {
                if a < n && b < n {
                    assert(texts@[a]@ != texts@[b]@);
                } else if a < n {
                    assert(is_distractor(f, k as int, texts@[a]@));
                } else {
                    assert(is_distractor(f, k as int, texts@[b]@));
                }
            }
            assert forall|t: Seq<char>| #[trigger] is_distractor(f, k as int, t) implies before.contains(
                AnswerView { text: t, is_correct: false },
            ) by {
                let a = choose|a: int| 0 <= a < texts@.len() && (#[trigger] texts@[a])@ == t;
                assert(before[a] == (AnswerView { text: t, is_correct: false }));
            }
        }
        shuffle_answers(&mut answers);
        let ghost after = answer_views(answers@);
        proof {
            lemma_reorder_keeps_members(before, after);
            lemma_reorder_keeps_one_correct(before, after);
            lemma_reorder_keeps_distinct_texts(before, after);
            assert forall|i: int| 0 <= i < after.len() && (#[trigger] after[i]).is_correct
                implies after[i].text == f[k as int].word@ by {
                assert(before.contains(after[i]));
            }
            assert forall|i: int| 0 <= i < after.len() && !(#[trigger] after[i]).is_correct implies is_distractor(
                f,
                k as int,
                after[i].text,
            ) by {
                assert(before.contains(after[i]));
            }
            assert forall|t: Seq<char>| #[trigger] is_distractor(f, k as int, t) implies after.contains(
                AnswerView { text: t, is_correct: false },
            ) by {
                let a = choose|a: int|
                    0 <= a < before.len() && before[a] == (AnswerView { text: t, is_correct: false });
                assert(after.contains(before[a]));
            }
        }
        let mut text = String::from_str("Поставте іменник \"");
        text.append(self.word.as_str());
        text.append("\" у ");
        text.append(c.to_ukrainian_string());
        text.append(" відмінок (");
        text.append(c.ukrainian_question());
        text.append(") ");
        text.append(if pl { "множини" } else { "однини" });
        text.append(" ");
        let r: Result<Question, GenerateQuestionError> = Ok(Question::new(text, answers));
        assert(self.is_question_for(c, pl, k as int, r->Ok_0));
        r
    }

    /// A question for a random case other than the nominative and a random
    /// number; fails when the noun has no form of the drawn case.
    pub fn generate_question_out_of_noun(&self) -> (r: Result<Question, GenerateQuestionError>)
        ensures
            match r {
                Ok(q) => exists|c: NounCase, pl: bool, k: int|
                    c != NounCase::Nominative && #[trigger] self.is_question_for(c, pl, k, q),
                Err(e) => e == GenerateQuestionError::NoCorrectAnswer && exists|c: NounCase|
                    c != NounCase::Nominative && !#[trigger] has_form(self.forms@, c, true)
                        && !has_form(self.forms@, c, false),
            },
    {
        let c = NounCase::get_random_by_case_exluding_nominative();
        let pl = random_flag();
        let r = self.question_for(c, pl);
        proof {
            if r is Err {
                assert(!has_form(self.forms@, c, true) && !has_form(self.forms@, c, false));
            }
        }
        r
    }
}

/// The right option of a declension question has the requested case, and
/// the requested number unless the noun has no form of that case and number.
pub proof fn lemma_declension_answer_matches_request(
    noun: Noun,
    c: NounCase,
    pl: bool,
    k: int,
    q: Question,
)
    requires
        noun.is_question_for(c, pl, k, q),
    ensures
        noun.forms@[k].case == c,
        noun.forms@[k].is_plural == pl || !has_form(noun.forms@, c, pl),
        forall|i: int|
            0 <= i < q.options().len() && (#[trigger] q.options()[i]).is_correct
                ==> q.options()[i].text == noun.forms@[k].word@,
{
}

/// The wrong options of a declension question never carry the right text,
/// and no two of them carry the same text.
pub proof fn lemma_declension_distractors_distinct(noun: Noun, c: NounCase, pl: bool, k: int, q: Question)
    requires
        noun.is_question_for(c, pl, k, q),
    ensures
        forall|i: int|
            0 <= i < q.options().len() && !(#[trigger] q.options()[i]).is_correct ==> q.options()[i].text
                != noun.forms@[k].word@,
        forall|i: int, j: int|
            0 <= i < q.options().len() && 0 <= j < q.options().len() && i != j ==> (#[trigger] q.options()[i]).text
                != (#[trigger] q.options()[j]).text,
{
}

/// A dictionary of nouns.
pub struct Declension {
    pub noun_words: Vec<Noun>,
}

impl Declension {
    pub fn new(noun_words: Vec<Noun>) -> (r: Declension)
        ensures
            r.noun_words == noun_words,
    {
        Declension { noun_words }
    }

    /// A noun drawn at random.
    pub fn get_random_noun(&self) -> (r: &Noun)
        requires
            self.noun_words@.len() > 0,
        ensures
            self.noun_words@.contains(*r),
    {
        let i = random_below(self.noun_words.len());
        assert(self.noun_words@.contains(self.noun_words@[i as int]));
        &self.noun_words[i]
    }
}

} // verus!
