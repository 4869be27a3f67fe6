use grammar_quiz::declension::{
    parse_form_key, GenerateQuestionError, Noun, NounCase, NounForm, Declension,
};

fn form(word: &str, case: NounCase, is_plural: bool) -> NounForm {
    NounForm { word: word.to_string(), case, is_plural }
}

fn knyha() -> Noun {
    Noun {
        word: "книга".to_string(),
        forms: vec![
            form("книги", NounCase::Genitive, false),
            form("книгу", NounCase::Accusative, false),
        ],
    }
}

#[test]
fn case_names_and_questions() {
    assert_eq!(NounCase::Genitive.to_ukrainian_string(), "родовий");
    assert_eq!(NounCase::Vocative.to_ukrainian_string(), "кличний");
    assert_eq!(NounCase::Locative.ukrainian_question(), "На кому? На чому?");
    assert_eq!(NounCase::Nominative.ukrainian_question(), "Хто? Що?");
    assert_eq!(NounCase::default(), NounCase::Nominative);
}

#[test]
fn random_case_skips_nominative() {
    for _ in 0..300 {
        assert_ne!(NounCase::get_random_by_case_exluding_nominative(), NounCase::Nominative);
    }
    let mut seen_nominative = false;
    for _ in 0..500 {
        if NounCase::get_random_by_case() == NounCase::Nominative {
            seen_nominative = true;
        }
    }
    assert!(seen_nominative);
}

#[test]
fn noun_form_display() {
    let f = form("книгу", NounCase::Accusative, false);
    assert_eq!(f.to_ukrainian_string(), "книгу (знахідний відмінок, однина)");
    let g = form("книгами", NounCase::Instrumental, true);
    assert_eq!(g.to_ukrainian_string(), "книгами (орудний відмінок, множина)");
}

#[test]
fn knyha_genitive_singular() {
    let noun = knyha();
    let q = noun.question_for(NounCase::Genitive, false).ok().unwrap();
    assert_eq!(q.text, "Поставте іменник \"книга\" у родовий відмінок (Кого? Чого?) однини ");
    assert_eq!(q.answers.len(), 2);
    let right: Vec<_> = q.answers.iter().filter(|a| a.is_correct).collect();
    assert_eq!(right.len(), 1);
    assert_eq!(right[0].text, "книги");
    let wrong: Vec<_> = q.answers.iter().filter(|a| !a.is_correct).map(|a| a.text.clone()).collect();
    assert_eq!(wrong, vec!["книгу".to_string()]);
}

#[test]
fn number_falls_back_to_the_other_one() {
    let noun = knyha();
    let q = noun.question_for(NounCase::Genitive, true).ok().unwrap();
    assert_eq!(q.text, "Поставте іменник \"книга\" у родовий відмінок (Кого? Чого?) множини ");
    let right = q.answers.iter().find(|a| a.is_correct).unwrap();
    assert_eq!(right.text, "книги");
}

#[test]
fn missing_case_has_no_correct_answer() {
    let noun = knyha();
    assert!(matches!(
        noun.question_for(NounCase::Dative, false),
        Err(GenerateQuestionError::NoCorrectAnswer)
    ));
}

#[test]
fn sparse_noun_gives_single_option() {
    let noun = Noun { word: "кава".to_string(), forms: vec![form("кави", NounCase::Genitive, false)] };
    let q = noun.question_for(NounCase::Genitive, false).ok().unwrap();
    assert_eq!(q.answers.len(), 1);
    assert!(q.answers[0].is_correct);
    assert_eq!(q.answers[0].text, "кави");
}

#[test]
fn distractors_are_deduplicated_and_skip_the_right_text() {
    let noun = Noun {
        word: "брат".to_string(),
        forms: vec![
            form("брат", NounCase::Nominative, false),
            form("брата", NounCase::Genitive, false),
            form("брата", NounCase::Accusative, false),
            form("братові", NounCase::Dative, false),
            form("братові", NounCase::Locative, false),
            form("братом", NounCase::Instrumental, false),
            form("братів", NounCase::Genitive, true),
        ],
    };
    for _ in 0..20 {
        let q = noun.question_for(NounCase::Genitive, false).ok().unwrap();
        let mut wrong: Vec<String> =
            q.answers.iter().filter(|a| !a.is_correct).map(|a| a.text.clone()).collect();
        wrong.sort();
        assert_eq!(wrong, vec!["братові".to_string(), "братом".to_string()]);
        assert_eq!(q.answers.iter().filter(|a| a.is_correct).count(), 1);
    }
}

#[test]
fn random_question_uses_a_non_nominative_form() {
    let noun = Noun {
        word: "стіл".to_string(),
        forms: vec![
            form("стіл", NounCase::Nominative, false),
            form("стола", NounCase::Genitive, false),
            form("столу", NounCase::Dative, false),
            form("стіл ", NounCase::Accusative, false),
            form("столом", NounCase::Instrumental, false),
            form("столі", NounCase::Locative, false),
            form("столе", NounCase::Vocative, false),
        ],
    };
    for _ in 0..100 {
        let q = noun.generate_question_out_of_noun().ok().unwrap();
        let right = q.answers.iter().find(|a| a.is_correct).unwrap();
        assert_ne!(right.text, "стіл");
        assert_eq!(q.answers.iter().filter(|a| a.is_correct).count(), 1);
    }
    let dictionary = Declension::new(vec![noun]);
    assert_eq!(dictionary.get_random_noun().word, "стіл");
}

#[test]
fn form_keys_are_read() {
    assert_eq!(parse_form_key("gen ns"), Some((NounCase::Genitive, false)));
    assert_eq!(parse_form_key("nom np"), Some((NounCase::Nominative, true)));
    assert_eq!(parse_form_key("voc np"), Some((NounCase::Vocative, true)));
    assert_eq!(parse_form_key("xyz ns"), None);
    assert_eq!(parse_form_key("gen"), None);
    assert_eq!(parse_form_key("gen xs"), None);
    assert_eq!(parse_form_key("gen ns extra"), None);
}

#[test]
fn noun_from_dictionary_entries() {
    let entries = vec![
        ("nom ns".to_string(), "книга".to_string()),
        ("gen ns".to_string(), "книги".to_string()),
        ("comparative".to_string(), "x".to_string()),
        ("acc np".to_string(), "книги".to_string()),
    ];
    assert!(Noun::from_entries("книга".to_string(), "verb", &entries).is_none());
    let noun = Noun::from_entries("книга".to_string(), "noun", &entries).unwrap();
    assert_eq!(noun.word, "книга");
    assert_eq!(noun.forms.len(), 3);
    assert_eq!(noun.forms[1].word, "книги");
    assert_eq!(noun.forms[1].case, NounCase::Genitive);
    assert!(!noun.forms[1].is_plural);
    assert_eq!(noun.forms[2].case, NounCase::Accusative);
    assert!(noun.forms[2].is_plural);
}
