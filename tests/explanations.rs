use grammar_quiz::explain::{example_prompt, parts_reply_prompt, stress_reply_prompt, Personality};
use grammar_quiz::quiz::{Answer, Question};
use grammar_quiz::stress::StressWord;

fn question() -> Question {
    Question::new(
        "ма́ма чи мама́".to_string(),
        vec![Answer::new("мама́".to_string(), false), Answer::new("ма́ма".to_string(), true)],
    )
}

#[test]
fn personalities_have_names() {
    assert_eq!(Personality::Shevchenko.get_personality(), "Тарас Шевченко");
    assert_eq!(Personality::Lesya.get_personality(), "Леся Українка");
    assert_eq!(Personality::Franko.get_personality(), "Іван Франко");
}

#[test]
fn fallback_names_the_right_answer() {
    assert_eq!(question().fallback_feedback(), "Правильна відповідь -- ма́ма Будь уважнішим!");
    let none = Question::new("?".to_string(), vec![Answer::new("x".to_string(), false)]);
    assert_eq!(none.fallback_feedback(), "Правильна відповідь --  Будь уважнішим!");
}

#[test]
fn example_request_text() {
    let p = example_prompt(&question(), Personality::Lesya);
    let expected = format!(
        "Ти -- Чат-бот, який допомагає учням вивчати українську мову.\n        Учню було задано питання про наголос у слові з двома варіянтами: \"{}\".\n        Згенеруй речення де використовується це слово (не вказуючи наголос, звісно). До того ж напиши це речення так, наче ти -- {}",
        "ма́ма чи мама́", "Леся Українка"
    );
    assert_eq!(p, expected);
}

#[test]
fn stress_reply_request_text() {
    let p = stress_reply_prompt(&question(), "мама́", Personality::Shevchenko).unwrap();
    let expected = format!(
        "Ти -- Чат-бот, який допомагає учням вивчати українську мову.\n        Учень відповів неправильно на питання про наголос у слові; з двома варіянтами: \"{}\".\n        Учень відповів {}, а правильна відповідь -- {}.\n        Згенеруй відповідь, яка пояснює, чому правильний наголос саме на цьому слові. До того ж напиши це речення так, наче ти -- {}. Ліміт речення -- 100 символів.",
        "ма́ма чи мама́", "мама́", "ма́ма", "Тарас Шевченко"
    );
    assert_eq!(p, expected);
}

#[test]
fn parts_reply_request_text() {
    let q = Question::new(
        "Яка частина мови?".to_string(),
        vec![Answer::new("дієслово".to_string(), true), Answer::new("частка".to_string(), false)],
    );
    let p = parts_reply_prompt(&q, "прислівник", Personality::Franko).unwrap();
    let expected = format!(
        "Ти -- Чат-бот, який допомагає учням вивчати українську мову.\n        Учень вирішував задачу яка звучить так:\n        {}\n        Учень відповів {}, а правильна відповідь -- {}.\n        Згенеруй відповідь, яка пояснює в чому була помилка, на яке питання відповідає правильна частина мови.\n        До того ж напиши це речення так, наче ти -- {}. Ліміт 1-2 середніх абзаців.",
        "Яка частина мови?", "прислівник", "дієслово", "Іван Франко"
    );
    assert_eq!(p, expected);
}

#[test]
fn reply_request_needs_a_right_option() {
    let only_right = Question::new("?".to_string(), vec![Answer::new("так".to_string(), true)]);
    let p = stress_reply_prompt(&only_right, "може", Personality::Franko).unwrap();
    assert!(p.contains("Учень відповів може, а правильна відповідь -- так."));
    let only_wrong = Question::new("?".to_string(), vec![Answer::new("ні".to_string(), false)]);
    assert!(parts_reply_prompt(&only_wrong, "ні", Personality::Franko).is_none());
    assert!(stress_reply_prompt(&only_wrong, "ні", Personality::Franko).is_none());
}

#[test]
fn options_come_in_both_orders() {
    let w = StressWord::new("програмі\u{301}ст".to_string());
    let mut right_first = 0;
    let mut right_second = 0;
    for _ in 0..200 {
        let q = w.generate_question().ok().unwrap();
        if q.answers[0].is_correct {
            right_first += 1;
        } else {
            right_second += 1;
        }
    }
    assert!(right_first > 0 && right_second > 0);
}
