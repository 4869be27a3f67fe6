use grammar_quiz::quiz::{Answer, Question, Quiz};
use grammar_quiz::stress::{is_vowel, PickError, StressQuestionError, StressWord, StressWords};

fn strip(s: &str) -> String {
    s.chars().filter(|c| *c != '\u{301}').collect()
}

fn mark_count(s: &str) -> usize {
    s.chars().filter(|c| *c == '\u{301}').count()
}

#[test]
fn answer_and_question_constructors_keep_fields() {
    let a = Answer::new("так".to_string(), true);
    assert_eq!(a.text, "так");
    assert!(a.is_correct);
    let q = Question::new("питання".to_string(), vec![a]);
    assert_eq!(q.text, "питання");
    assert_eq!(q.answers.len(), 1);
    let quiz = Quiz::new(vec![q]);
    assert_eq!(quiz.current_question, 0);
    assert_eq!(quiz.score, 0);
    assert_eq!(quiz.questions.len(), 1);
}

#[test]
fn vowels_in_both_cases() {
    assert_eq!(is_vowel('а'), Ok(true));
    assert_eq!(is_vowel('І'), Ok(true));
    assert_eq!(is_vowel('ї'), Ok(true));
    assert_eq!(is_vowel('б'), Ok(false));
    assert_eq!(is_vowel('a'), Ok(false));
}

#[test]
fn stress_mark_is_stripped() {
    assert_eq!(StressWord::get_word_without_stress("програмі\u{301}ст"), "програміст");
    let w = StressWord::new("вико\u{301}нувати".to_string());
    assert_eq!(w.word_with_stress_symbol, "вико\u{301}нувати");
    assert_eq!(w.word_without_stress_symbol, "виконувати");
}

#[test]
fn eligibility_needs_two_vowels_and_no_space() {
    assert!(!StressWord::new("кі\u{301}т".to_string()).is_eligible());
    assert!(!StressWord::new("до\u{301}брий де\u{301}нь".to_string()).is_eligible());
    assert!(StressWord::new("програмі\u{301}ст".to_string()).is_eligible());
}

#[test]
fn programist_gives_two_marked_forms() {
    let w = StressWord::new("програмі\u{301}ст".to_string());
    for _ in 0..50 {
        let q = match w.generate_question() {
            Ok(q) => q,
            Err(_) => panic!("a word with three vowels has distractor positions"),
        };
        assert_eq!(q.answers.len(), 2);
        assert_eq!(q.answers.iter().filter(|a| a.is_correct).count(), 1);
        let right = q.answers.iter().find(|a| a.is_correct).unwrap();
        let wrong = q.answers.iter().find(|a| !a.is_correct).unwrap();
        assert_eq!(right.text, "програмі\u{301}ст");
        assert_ne!(wrong.text, right.text);
        for a in &q.answers {
            assert_eq!(strip(&a.text), "програміст");
            assert_eq!(mark_count(&a.text), 1);
        }
        let expected = format!(
            "<b><i>{}</i></b> чи <b><i>{}</i></b> ?",
            q.answers[0].text, q.answers[1].text
        );
        assert_eq!(q.text, expected);
    }
}

#[test]
fn two_vowel_word_has_one_wrong_form() {
    let w = StressWord::new("ма\u{301}ма".to_string());
    for _ in 0..20 {
        let q = w.generate_question().ok().unwrap();
        let wrong = q.answers.iter().find(|a| !a.is_correct).unwrap();
        assert_eq!(wrong.text, "мама\u{301}");
    }
}

#[test]
fn single_vowel_word_has_no_distractor_position() {
    let w = StressWord::new("кі\u{301}т".to_string());
    assert!(matches!(w.generate_question(), Err(StressQuestionError::NoDistractorPosition)));
}

#[test]
fn random_word_is_always_eligible() {
    let words = StressWords::new(vec![
        "кі\u{301}т".to_string(),
        "до\u{301}брий де\u{301}нь".to_string(),
        "програмі\u{301}ст".to_string(),
        "сон".to_string(),
    ]);
    assert_eq!(words.words.len(), 4);
    for _ in 0..1000 {
        let w = words.get_random_word().ok().unwrap();
        assert_eq!(w.word_without_stress_symbol, "програміст");
    }
}

#[test]
fn corpus_without_eligible_word_is_exhausted() {
    let words = StressWords::new(vec!["кі\u{301}т".to_string(), "до\u{301}брий де\u{301}нь".to_string()]);
    assert!(matches!(words.get_random_word(), Err(PickError::CorpusExhausted)));
    let empty = StressWords::new(vec![]);
    assert!(matches!(empty.get_random_word(), Err(PickError::CorpusExhausted)));
    assert!(matches!(words.make_quiz(3), Err(PickError::CorpusExhausted)));
}

#[test]
fn stress_quiz_has_requested_length() {
    let words = StressWords::new(vec!["програмі\u{301}ст".to_string(), "ма\u{301}ма".to_string()]);
    let quiz = words.make_quiz(5).ok().unwrap();
    assert_eq!(quiz.questions.len(), 5);
    assert_eq!(quiz.current_question, 0);
    assert_eq!(quiz.score, 0);
    for q in &quiz.questions {
        assert_eq!(q.answers.iter().filter(|a| a.is_correct).count(), 1);
    }
}

#[test]
fn defaults_are_empty() {
    let a = Answer::default();
    assert_eq!(a.text, "");
    assert!(!a.is_correct);
    let q = Question::default();
    assert_eq!(q.text, "");
    assert!(q.answers.is_empty());
    let quiz = Quiz::default();
    assert!(quiz.questions.is_empty());
    assert_eq!((quiz.current_question, quiz.score), (0, 0));
}

#[test]
fn fit_dictionary_always_gives_a_word_and_a_quiz() {
    let words = StressWords::new(vec!["ма\u{301}ма".to_string(), "програмі\u{301}ст".to_string()]);
    for _ in 0..200 {
        assert!(words.get_random_word().is_ok());
    }
    assert!(words.make_quiz(20).is_ok());
    let unfit = StressWords::new(vec!["кі\u{301}т".to_string()]);
    assert!(unfit.make_quiz(0).ok().unwrap().questions.is_empty());
}
