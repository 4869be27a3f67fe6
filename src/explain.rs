use vstd::prelude::*;

use crate::quiz::{is_first_correct, right_text, AnswerView, Question};

verus! {

/// Whose voice the explanations take.
#[derive(Clone, Copy, Debug, PartialEq, Eq, Structural)]
pub enum Personality {
    Shevchenko,
    Lesya,
    Franko,
}

/// The name of a personality.
pub open spec fn personality_name(p: Personality) -> Seq<char> {
    match p {
        Personality::Shevchenko => "Тарас Шевченко"@,
        Personality::Lesya => "Леся Українка"@,
        Personality::Franko => "Іван Франко"@,
    }
}

impl Personality {
    pub fn get_personality(&self) -> (r: String)
        ensures
            r@ == personality_name(*self),
    {
        String::from_str(
            match self {
                Personality::Shevchenko => "Тарас Шевченко",
                Personality::Lesya => "Леся Українка",
                Personality::Franko => "Іван Франко",
            },
        )
    }
}

/// The question has an option marked as right.
pub open spec fn has_right(s: Seq<AnswerView>) -> bool {
    exists|k: int| is_first_correct(s, k)
}

/// Opening of the request for an example sentence.
pub open spec fn example_intro() -> Seq<char> {
    "Ти -- Чат-бот, який допомагає учням вивчати українську мову.\n        Учню було задано питання про наголос у слові з двома варіянтами: \""@
}

/// Middle of the request for an example sentence, before the personality.
pub open spec fn example_outro() -> Seq<char> {
    "\".\n        Згенеруй речення де використовується це слово (не вказуючи наголос, звісно). До того ж напиши це речення так, наче ти -- "@
}

/// Opening of the request to explain a wrong stress answer.
pub open spec fn stress_reply_intro() -> Seq<char> {
    "Ти -- Чат-бот, який допомагає учням вивчати українську мову.\n        Учень відповів неправильно на питання про наголос у слові; з двома варіянтами: \""@
}

/// Before the wrong answer in a stress explanation request.
pub open spec fn stress_reply_wrong() -> Seq<char> {
    "\".\n        Учень відповів "@
}

/// Before the right answer in a stress explanation request.
pub open spec fn stress_reply_right() -> Seq<char> {
    ", а правильна відповідь -- "@
}

/// Before the personality in a stress explanation request.
pub open spec fn stress_reply_voice() -> Seq<char> {
    ".\n        Згенеруй відповідь, яка пояснює, чому правильний наголос саме на цьому слові. До того ж напиши це речення так, наче ти -- "@
}

/// End of a stress explanation request.
pub open spec fn stress_reply_end() -> Seq<char> {
    ". Ліміт речення -- 100 символів."@
}

/// Opening of the request to explain a wrong part-of-speech answer.
pub open spec fn parts_reply_intro() -> Seq<char> {
    "Ти -- Чат-бот, який допомагає учням вивчати українську мову.\n        Учень вирішував задачу яка звучить так:\n        "@
}

/// Before the wrong answer in a part-of-speech explanation request.
pub open spec fn parts_reply_wrong() -> Seq<char> {
    "\n        Учень відповів "@
}

/// Before the right answer in a part-of-speech explanation request.
pub open spec fn parts_reply_right() -> Seq<char> {
    ", а правильна відповідь -- "@
}

/// Before the personality in a part-of-speech explanation request.
pub open spec fn parts_reply_voice() -> Seq<char> {
    ".\n        Згенеруй відповідь, яка пояснює в чому була помилка, на яке питання відповідає правильна частина мови.\n        До того ж напиши це речення так, наче ти -- "@
}

/// End of a part-of-speech explanation request.
pub open spec fn parts_reply_end() -> Seq<char> {
    ". Ліміт 1-2 середніх абзаців."@
}

/// The request for an example sentence that uses the word of a stress question.
pub fn example_prompt(question: &Question, personality: Personality) -> (r: String)
    ensures
        r@ == example_intro() + question.text@ + example_outro() + personality_name(personality),
{
    let mut r = String::from_str("Ти -- Чат-бот, який допомагає учням вивчати українську мову.\n        Учню було задано питання про наголос у слові з двома варіянтами: \"");
    r.append(question.text.as_str());
    r.append("\".\n        Згенеруй речення де використовується це слово (не вказуючи наголос, звісно). До того ж напиши це речення так, наче ти -- ");
    let name = personality.get_personality();
    r.append(name.as_str());
    r
}

/// The request to explain the wrong reply `reply` to a stress question;
/// `None` when the question has no option marked as right.
pub fn stress_reply_prompt(
    question: &Question,
    reply: &str,
    personality: Personality,
) -> (r: Option<String>)
    ensures
        r is Some <==> has_right(question.options()),
        match r {
            Some(p) => p@ == stress_reply_intro() + question.text@ + stress_reply_wrong() + reply@
                + stress_reply_right() + right_text(question.options()) + stress_reply_voice()
                + personality_name(personality) + stress_reply_end(),
            None => true,
        },
{
    let c = match question.correct_answer_index() {
        Some(c) => c,
        None => {
            return None;
        },
    };
    proof {
        let o = question.options();
        let c2 = choose|k: int| is_first_correct(o, k);
        assert(!(c2 < c) && !(c < c2));
    }
    let mut r = String::from_str("Ти -- Чат-бот, який допомагає учням вивчати українську мову.\n        Учень відповів неправильно на питання про наголос у слові; з двома варіянтами: \"");
    r.append(question.text.as_str());
    r.append("\".\n        Учень відповів ");
    r.append(reply);
    r.append(", а правильна відповідь -- ");
    r.append(question.answers[c].text.as_str());
    r.append(".\n        Згенеруй відповідь, яка пояснює, чому правильний наголос саме на цьому слові. До того ж напиши це речення так, наче ти -- ");
    let name = personality.get_personality();
    r.append(name.as_str());
    r.append(". Ліміт речення -- 100 символів.");
    Some(r)
}

/// The request to explain the wrong reply `reply` to a part-of-speech
/// question; `None` when the question has no option marked as right.
pub fn parts_reply_prompt(
    question: &Question,
    reply: &str,
    personality: Personality,
) -> (r: Option<String>)
    ensures
        r is Some <==> has_right(question.options()),
        match r {
            Some(p) => p@ == parts_reply_intro() + question.text@ + parts_reply_wrong() + reply@
                + parts_reply_right() + right_text(question.options()) + parts_reply_voice()
                + personality_name(personality) + parts_reply_end(),
            None => true,
        },
{
    let c = match question.correct_answer_index() {
        Some(c) => c,
        None => {
            return None;
        },
    };
    proof {
        let o = question.options();
        let c2 = choose|k: int| is_first_correct(o, k);
        assert(!(c2 < c) && !(c < c2));
    }
    let mut r = String::from_str("Ти -- Чат-бот, який допомагає учням вивчати українську мову.\n        Учень вирішував задачу яка звучить так:\n        ");
    r.append(question.text.as_str());
    r.append("\n        Учень відповів ");
    r.append(reply);
    r.append(", а правильна відповідь -- ");
    r.append(question.answers[c].text.as_str());
    r.append(".\n        Згенеруй відповідь, яка пояснює в чому була помилка, на яке питання відповідає правильна частина мови.\n        До того ж напиши це речення так, наче ти -- ");
    let name = personality.get_personality();
    r.append(name.as_str());
    r.append(". Ліміт 1-2 середніх абзаців.");
    Some(r)
}

} // verus!
