use grammar_quiz::parts::{
    generate_question_out_of_sentence, highlight_sentence, pos_label, PartsQuestionError,
    PartsSentence, PartsSentences, PosTag, TaggedToken,
};
use grammar_quiz::dialogue::{choose_game, next_state, Action, Game, State, PARTS_OF_SPEECH_GAME};
use grammar_quiz::stress::StressWords;
use grammar_quiz::quiz::{parse_question_count, Answer, CountError, Question, Quiz, Step, Verdict};

fn token(form: &str, upos: Option<PosTag>) -> TaggedToken {
    TaggedToken { form: form.to_string(), upos }
}

fn sentence() -> PartsSentence {
    PartsSentence::new(
        vec![
            token("Мама", Some(PosTag::Noun)),
            token("варить", Some(PosTag::Verb)),
            token("борщ", Some(PosTag::Noun)),
            token(".", Some(PosTag::Punct)),
        ],
        vec!["sent_id = 1".to_string(), "text = Мама варить борщ.".to_string()],
    )
}

#[test]
fn labels_of_tags() {
    assert_eq!(pos_label(Some(PosTag::Verb)), "дієслово");
    assert_eq!(pos_label(Some(PosTag::Propn)), "власний іменник");
    assert_eq!(pos_label(Some(PosTag::Punct)), "пунктуація");
    assert_eq!(pos_label(None), "інше");
}

#[test]
fn sentence_text_comes_from_metadata() {
    assert_eq!(sentence().sentence_text(), Some("Мама варить борщ.".to_string()));
    let bare = PartsSentence::new(vec![token("Так", Some(PosTag::Part))], vec!["sent_id = 2".to_string()]);
    assert_eq!(bare.sentence_text(), None);
}

#[test]
fn highlighting_matches_alphanumeric_part() {
    let target = "борщ".to_string();
    assert_eq!(highlight_sentence("Мама варить борщ.", &target), "Мама варить <b><u>борщ.</u></b>");
    let none = "суп".to_string();
    assert_eq!(highlight_sentence("Мама варить борщ.", &none), "Мама варить борщ.");
    assert_eq!(highlight_sentence("а  б", &"б".to_string()), "а  <b><u>б</u></b>");
}

#[test]
fn punctuation_is_never_the_target() {
    let s = sentence();
    for _ in 0..1000 {
        let q = generate_question_out_of_sentence(&s).ok().unwrap();
        assert_eq!(q.answers.len(), 2);
        assert_ne!(q.answers[0].text, q.answers[1].text);
        let right = q.answers.iter().find(|a| a.is_correct).unwrap();
        assert!(right.text == "іменник" || right.text == "дієслово");
        assert!(!q.text.ends_with("слово \".\"?"));
        assert_eq!(q.answers.iter().filter(|a| a.is_correct).count(), 1);
    }
}

#[test]
fn verb_question_text() {
    let s = PartsSentence::new(
        vec![token("Біжи", Some(PosTag::Verb)), token("!", Some(PosTag::Punct))],
        vec!["text = Біжи!".to_string()],
    );
    let q = s.generate_question().ok().unwrap();
    assert_eq!(
        q.text,
        "У реченні:\n\"<b><u>Біжи!</u></b>\"\n\nЯкою частиною мови є підкреслене слово \"Біжи\"?"
    );
    let right = q.answers.iter().find(|a| a.is_correct).unwrap();
    assert_eq!(right.text, "дієслово");
    let wrong = q.answers.iter().find(|a| !a.is_correct).unwrap();
    assert_ne!(wrong.text, "інше");
    assert_ne!(wrong.text, "символ");
    assert_ne!(wrong.text, "пунктуація");
}

#[test]
fn other_symbol_and_punctuation_are_not_asked() {
    let s = PartsSentence::new(
        vec![token("%", Some(PosTag::Sym)), token("xyz", Some(PosTag::X)), token("?", None), token(",", Some(PosTag::Punct))],
        vec!["text = % xyz ? ,".to_string()],
    );
    assert!(matches!(generate_question_out_of_sentence(&s), Err(PartsQuestionError::NoTargetWord)));
    let no_text = PartsSentence::new(vec![token("Так", Some(PosTag::Part))], vec![]);
    assert!(matches!(no_text.generate_question(), Err(PartsQuestionError::NoSentenceText)));
}

#[test]
fn parts_quiz_has_requested_length() {
    let corpus = PartsSentences::new(vec![sentence()]);
    assert_eq!(corpus.get_random_sentence().tokens.len(), 4);
    let quiz = corpus.make_quiz(4).ok().unwrap();
    assert_eq!(quiz.questions.len(), 4);
}

fn two_option(right: &str, wrong: &str) -> Question {
    Question::new(
        format!("{} чи {}", right, wrong),
        vec![Answer::new(wrong.to_string(), false), Answer::new(right.to_string(), true)],
    )
}

#[test]
fn quiz_runs_n_plus_one_turns() {
    let mut quiz = Quiz::new(vec![two_option("а", "б"), two_option("в", "г")]);
    assert!(quiz.is_ready());
    let t1 = quiz.advance("Вйо!");
    assert!(t1.verdict.is_none());
    assert!(matches!(t1.step, Step::Ask { index: 0 }));
    assert_eq!((quiz.current_question, quiz.score), (1, 0));
    let t2 = quiz.advance("а");
    assert!(matches!(t2.verdict, Some(Verdict::Correct)));
    assert!(matches!(t2.step, Step::Ask { index: 1 }));
    assert_eq!((quiz.current_question, quiz.score), (2, 1));
    let t3 = quiz.advance("г");
    assert!(matches!(t3.verdict, Some(Verdict::Wrong)));
    assert!(matches!(t3.step, Step::Finished { score: 1, total: 2 }));
    assert_eq!((quiz.current_question, quiz.score), (2, 1));
}

#[test]
fn reply_must_match_exactly() {
    let q = two_option("а", "б");
    assert_eq!(q.correct_answer_index(), Some(1));
    assert!(q.is_correct_reply("а"));
    assert!(!q.is_correct_reply("а "));
    assert!(!q.is_correct_reply("б"));
    let none = Question::new("?".to_string(), vec![Answer::new("x".to_string(), false)]);
    assert_eq!(none.correct_answer_index(), None);
    assert!(!none.is_correct_reply("x"));
}

#[test]
fn question_count_is_parsed() {
    assert!(matches!(parse_question_count("5"), Ok(5)));
    assert!(matches!(parse_question_count("15"), Ok(15)));
    assert!(matches!(parse_question_count("0"), Err(CountError::Zero)));
    assert!(matches!(parse_question_count("п'ять"), Err(CountError::NotANumber)));
    assert!(matches!(parse_question_count(""), Err(CountError::NotANumber)));
    assert!(matches!(parse_question_count("+7"), Ok(7)));
    assert!(matches!(parse_question_count("007"), Ok(7)));
    assert!(matches!(parse_question_count("+"), Err(CountError::NotANumber)));
    assert!(matches!(parse_question_count("-1"), Err(CountError::NotANumber)));
    assert!(matches!(parse_question_count(" 5"), Err(CountError::NotANumber)));
    assert!(matches!(
        parse_question_count("99999999999999999999999"),
        Err(CountError::NotANumber)
    ));
}

#[test]
fn dialogue_walks_through_a_quiz() {
    let words = StressWords::new(vec!["програмі\u{301}ст".to_string()]);
    let sentences = PartsSentences::new(vec![sentence()]);
    assert_eq!(choose_game("Почати тест на наголос"), Some(Game::Stress));
    assert_eq!(choose_game("щось інше"), None);

    let (s, a) = next_state(State::Start, Some("/start"), &words, &sentences);
    assert!(matches!(s, State::ReceiveFullName) && matches!(a, Action::Greet));
    let (s, a) = next_state(s, None, &words, &sentences);
    assert!(matches!(s, State::ReceiveFullName) && matches!(a, Action::AskNameAgain));
    let (s, a) = next_state(s, Some("Олена"), &words, &sentences);
    assert!(matches!(s, State::RecieveGameChoice));
    match a {
        Action::WelcomeAndOfferGames { name } => assert_eq!(name, "Олена"),
        _ => panic!("expected a welcome"),
    }
    let (s, a) = next_state(s, Some("грати"), &words, &sentences);
    assert!(matches!(s, State::RecieveGameChoice) && matches!(a, Action::AskToChooseGame));
    let (s, a) = next_state(s, Some(PARTS_OF_SPEECH_GAME), &words, &sentences);
    assert!(matches!(s, State::RecieveAmountOfQuestions { game: Game::PartsOfSpeech }));
    assert!(matches!(a, Action::AskForCount));
    let (s, a) = next_state(s, Some("багато"), &words, &sentences);
    assert!(matches!(a, Action::AskForNumber));
    let (s, a) = next_state(s, Some("0"), &words, &sentences);
    assert!(matches!(a, Action::RejectZeroCount));
    let (mut s, a) = next_state(s, Some("2"), &words, &sentences);
    assert!(matches!(a, Action::QuizStarted));
    let mut finished = false;
    for turn in 0..3 {
        let (s2, a) = next_state(s, Some("дієслово"), &words, &sentences);
        match a {
            Action::QuizTurn { turn: t } => {
                if turn < 2 {
                    assert!(matches!(t.step, Step::Ask { index } if index == turn));
                } else {
                    assert!(matches!(t.step, Step::Finished { total: 2, .. }));
                    finished = true;
                }
            }
            _ => panic!("expected a quiz turn"),
        }
        s = s2;
    }
    assert!(finished);
    assert!(matches!(s, State::RecieveGameChoice));
}

#[test]
fn parts_quiz_on_fit_corpus_always_starts() {
    let corpus = PartsSentences::new(vec![sentence()]);
    assert!(corpus.make_quiz(0).ok().unwrap().questions.is_empty());
    for _ in 0..20 {
        assert!(corpus.make_quiz(10).is_ok());
    }
    let words = StressWords::new(vec!["ма\u{301}ма".to_string()]);
    let (s, a) = next_state(State::RecieveAmountOfQuestions { game: Game::Stress }, Some("3"), &words, &corpus);
    assert!(matches!(a, Action::QuizStarted));
    match s {
        State::InQuiz { quiz, .. } => assert_eq!(quiz.questions.len(), 3),
        _ => panic!("expected a running quiz"),
    }
}
