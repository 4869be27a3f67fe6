use vstd::prelude::*;

use crate::parts::PartsSentences;
use crate::quiz::{
    accepts, next_position, parse_question_count, parsed_usize, CountError, Question, Quiz, Step, Turn,
    Verdict,
};
use crate::stress::StressWords;

verus! {

/// The reply that starts the stress quiz.
pub const STRESSED_WORDS_GAME: &'static str = "Почати тест на наголос";

/// The reply that starts the part-of-speech quiz.
pub const PARTS_OF_SPEECH_GAME: &'static str = "Почати тест на частини мови";

/// The kinds of quiz on offer.
#[derive(Clone, Copy, Debug, PartialEq, Eq, Structural)]
pub enum Game {
    Stress,
    PartsOfSpeech,
}

/// Where a conversation stands between two messages.
pub enum State {
    Start,
    ReceiveFullName,
    RecieveGameChoice,
    RecieveAmountOfQuestions { game: Game },
    InQuiz { game: Game, quiz: Quiz },
}

/// What to tell the user after a message.
pub enum Action {
    /// Greet and ask for a name.
    Greet,
    /// The message held no text; ask for the name again.
    AskNameAgain,
    /// Welcome the named user and offer the games.
    WelcomeAndOfferGames { name: String },
    /// Ask how many questions the quiz should have.
    AskForCount,
    /// The reply named no game; ask again.
    AskToChooseGame,
    /// The reply was not a number.
    AskForNumber,
    /// The reply asked for no questions.
    RejectZeroCount,
    /// No quiz could be built from the corpus.
    CannotBuildQuiz,
    /// The quiz was built and starts with the next message.
    QuizStarted,
    /// One turn of a running quiz.
    QuizTurn { turn: Turn },
}

/// The game that a reply names, if any.
pub open spec fn game_named(reply: Seq<char>) -> Option<Game> {
    if reply == STRESSED_WORDS_GAME@ {
        Some(Game::Stress)
    } else if reply == PARTS_OF_SPEECH_GAME@ {
        Some(Game::PartsOfSpeech)
    } else {
        None
    }
}

/// `q` is a question that a quiz of kind `game` builds from the corpora.
pub open spec fn built_from(
    game: Game,
    words: &StressWords,
    sentences: &PartsSentences,
    q: Question,
) -> bool {
    match game {
        Game::Stress => words.from_corpus(q),
        Game::PartsOfSpeech => sentences.from_corpus(q),
    }
}

/// No draw can keep a quiz of kind `game` from being built.
pub open spec fn always_builds(game: Game, words: &StressWords, sentences: &PartsSentences) -> bool {
    match game {
        Game::Stress => words.all_fit(),
        Game::PartsOfSpeech => sentences.sentenses@.len() > 0 && sentences.all_fit(),
    }
}

/// The game that a reply names, if any.
pub fn choose_game(reply: &str) -> (r: Option<Game>)
    ensures
        r == game_named(reply@),
{
    let t = String::from_str(reply);
    if t == String::from_str(STRESSED_WORDS_GAME) {
        Some(Game::Stress)
    } else if t == String::from_str(PARTS_OF_SPEECH_GAME) {
        Some(Game::PartsOfSpeech)
    } else {
        None
    }
}

/// The state and action that one message leads to. `text` is the message's
/// text, if it has one; the corpora are those the quizzes are built from.
pub fn next_state(
    state: State,
    text: Option<&str>,
    words: &StressWords,
    sentences: &PartsSentences,
) -> (r: (State, Action))
    ensures
        match state {
            State::Start => r.0 is ReceiveFullName && r.1 is Greet,
            State::ReceiveFullName => match text {
                None => r.0 is ReceiveFullName && r.1 is AskNameAgain,
                Some(t) => r.0 is RecieveGameChoice && (match r.1 {
                    Action::WelcomeAndOfferGames { name } => name@ == t@,
                    _ => false,
                }),
            },
            State::RecieveGameChoice => match text {
                Some(t) => match game_named(t@) {
                    Some(g) => r.0 == (State::RecieveAmountOfQuestions { game: g }) && r.1 is AskForCount,
                    None => r.0 is RecieveGameChoice && r.1 is AskToChooseGame,
                },
                None => r.0 is RecieveGameChoice && r.1 is AskToChooseGame,
            },
            State::RecieveAmountOfQuestions { game } => match text {
                None => r.0 == state && r.1 is AskForNumber,
                Some(t) => match parsed_usize(t@) {
                    None => r.0 == state && r.1 is AskForNumber,
                    Some(n) => if n == 0 {
                        r.0 == state && r.1 is RejectZeroCount
                    } else {
                        match r.1 {
                            Action::QuizStarted => match r.0 {
                                State::InQuiz { game: g, quiz } => {
                                    &&& g == game
                                    &&& quiz.questions@.len() == n
                                    &&& quiz.current_question == 0
                                    &&& quiz.score == 0
                                    &&& forall|i: int|
                                        0 <= i < n ==> #[trigger] built_from(
                                            game,
                                            words,
                                            sentences,
                                            quiz.questions@[i],
                                        )
                                },
                                _ => false,
                            },
                            Action::CannotBuildQuiz => r.0 is RecieveGameChoice && !always_builds(
                                game,
                                words,
                                sentences,
                            ),
                            _ => false,
                        }
                    },
                },
            },
            State::InQuiz { game, quiz } => if !quiz.can_advance() {
                r.0 is RecieveGameChoice && r.1 is AskToChooseGame
            } else {
                let i = quiz.current_question as int;
                let reply = match text {
                    Some(t) => t@,
                    None => Seq::<char>::empty(),
                };
                let right = i > 0 && accepts(quiz.questions@[i - 1].options(), reply);
                let p = next_position(i as nat, quiz.score as nat, quiz.questions@.len(), right);
                match r.1 {
                    Action::QuizTurn { turn } => {
                        &&& (i == 0 <==> turn.verdict is None)
                        &&& (turn.verdict == Some(Verdict::Correct) <==> right)
                        &&& (i < quiz.questions@.len() ==> turn.step == Step::Ask {
                            index: i as usize,
                        } && match r.0 {
                            State::InQuiz { game: g, quiz: q } => g == game && q.questions
                                == quiz.questions && q.current_question == p.0 && q.score == p.1
                                && q.can_advance(),
                            _ => false,
                        })
                        &&& (i == quiz.questions@.len() ==> r.0 is RecieveGameChoice
                            && turn.step == (Step::Finished {
                            score: p.1 as u32,
                            total: quiz.questions@.len() as usize,
                        }))
                    },
                    _ => false,
                }
            },
        },
{
    match state {
        State::Start => (State::ReceiveFullName, Action::Greet),
        State::ReceiveFullName => match text {
            None => (State::ReceiveFullName, Action::AskNameAgain),
            Some(t) => (
                State::RecieveGameChoice,
                Action::WelcomeAndOfferGames { name: String::from_str(t) },
            ),
        },
        State::RecieveGameChoice => {
            let game = match text {
                Some(t) => choose_game(t),
                None => None,
            };
            match game {
                Some(g) => (State::RecieveAmountOfQuestions { game: g }, Action::AskForCount),
                None => (State::RecieveGameChoice, Action::AskToChooseGame),
            }
        },
        State::RecieveAmountOfQuestions { game } => {
            let t = match text {
                Some(t) => t,
                None => {
                    return (State::RecieveAmountOfQuestions { game }, Action::AskForNumber);
                },
            };
            let count = match parse_question_count(t) {
                Ok(n) => n,
                Err(CountError::NotANumber) => {
                    return (State::RecieveAmountOfQuestions { game }, Action::AskForNumber);
                },
                Err(CountError::Zero) => {
                    return (State::RecieveAmountOfQuestions { game }, Action::RejectZeroCount);
                },
            };
            let made = match game {
                Game::Stress => words.make_quiz(count),
                Game::PartsOfSpeech => {
                    if sentences.sentenses.len() == 0 {
                        return (State::RecieveGameChoice, Action::CannotBuildQuiz);
                    }
                    sentences.make_quiz(count)
                },
            };
            match made {
                Ok(quiz) => (State::InQuiz { game, quiz }, Action::QuizStarted),
                Err(_) => (State::RecieveGameChoice, Action::CannotBuildQuiz),
            }
        },
        State::InQuiz { game, quiz } => {
            let mut quiz = quiz;
            if !quiz.is_ready() {
                return (State::RecieveGameChoice, Action::AskToChooseGame);
            }
            let reply = match text {
                Some(t) => t,
                None => "",
            };
            proof {
                reveal_strlit("");
                if text is None {
                    assert(reply@ =~= Seq::<char>::empty());
                }
            }
            let turn = quiz.advance(reply);
            match turn.step {
                Step::Finished { .. } => (State::RecieveGameChoice, Action::QuizTurn { turn }),
                Step::Ask { .. } => (State::InQuiz { game, quiz }, Action::QuizTurn { turn }),
            }
        },
    }
}

} // verus!
