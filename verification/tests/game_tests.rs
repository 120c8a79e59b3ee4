use guessing_game::commands::{
    execute_command, files_to_remove, get_user_commands, help_lines, CommandAction, CommandKind,
};
use guessing_game::game::{
    classify_input, draw_secret_number, outcome_lines, parse_options_document, secret_range_valid,
    try_intro_lines, GameState, GuessOutcome, Hint, InputEvent, JSONOptions,
};
use guessing_game::json::{
    lang_title, options_error_message, options_with_locale, parse_json_document, set_string_member,
    streamed_category, strip_json_comments, JsonDocument, JsonErrorCategory, JsonMember,
};
use guessing_game::locales::{
    CommDescs, CommErrs, CommText, Commands, DebugMessages, ErrorMessages, FirstTryMessages,
    FormatError, GameMessages, GuessResults, InfoMessages, InputErrors, Localization, Messages,
    WrongGuessResult,
};

fn s(x: &str) -> String {
    x.to_string()
}

fn sample_locale() -> Localization {
    Localization {
        lang_title: s("English"),
        messages: Messages {
            error_messages: ErrorMessages {
                cant_read_line: s("Can't read line"),
                input_errors: InputErrors {
                    empty: s("Empty input"),
                    invalid_digit: s("Not a number"),
                    pos_overflow: s("Too big"),
                    neg_overflow: s("Too small"),
                    zero: s("Zero"),
                    unknown_err: s("Unknown error: {}"),
                },
            },
            info_messages: InfoMessages {
                debug: DebugMessages {
                    secret_number: s("Secret: {}"),
                    current_try: s("Try: {}"),
                },
                welcome_message: s("Welcome!"),
                user_exit: s("Bye! The number was {}"),
                game_messages: GameMessages {
                    first_try_messages: FirstTryMessages {
                        beginning_message: s("Let's begin"),
                        total_tries_announcement: s("You have {} tries"),
                        secret_number_range: s("The number is between {1} and {2}"),
                    },
                    last_try: s("Last try!"),
                    other_tries: s("Try again"),
                    input_prompt_message: s("Your guess: "),
                    guess_results: GuessResults {
                        correct: s("Correct, on try {}!"),
                        wrong: WrongGuessResult {
                            announcement: s("Wrong"),
                            higher_hint: s("Go higher"),
                            lower_hint: s("Go lower"),
                            remaining_tries: s("{1} {2} left"),
                            try_singular: s("try"),
                            try_plural: s("tries"),
                            no_tries_remaining: s("No tries left; it was {}"),
                        },
                    },
                },
            },
        },
        commands: Commands {
            descriptions: CommDescs {
                quit: s("Leave the game"),
                reset: s("Forget the settings"),
                help: s("List the commands"),
            },
            text: CommText { quit: s("Quitting"), reset: s("Settings removed") },
            errors: CommErrs {
                cant_read_dir: s("Can't read {}"),
                cant_read_file_in_path: s("Can't read a file in {}"),
                cant_remove_file: s("Can't remove {}"),
            },
        },
    }
}

fn options(total: u32, min: u32, max: u32) -> JSONOptions {
    JSONOptions { total_tries: total, max_number: max, min_number: min, locale_name: s("en-US") }
}

fn texts(v: Vec<Result<String, FormatError>>) -> Vec<Result<String, String>> {
    v.into_iter().map(|r| r.map_err(|e| e.template)).collect()
}

#[test]
fn command_names() {
    let commands = get_user_commands(&sample_locale());
    assert_eq!(commands.len(), 3);
    assert_eq!(commands[0].get_names(), vec!["q", "quit"]);
    assert_eq!(commands[1].get_names(), vec!["r", "reset"]);
    assert_eq!(commands[2].get_names(), vec!["help"]);
    assert_eq!(commands[0].kind, CommandKind::Quit);
    assert_eq!(commands[1].kind, CommandKind::Reset);
    assert_eq!(commands[2].kind, CommandKind::Help);
    assert_eq!(commands[2].description, "List the commands");
}

#[test]
fn help_lists_every_command() {
    let commands = get_user_commands(&sample_locale());
    assert_eq!(
        help_lines(&commands),
        vec![
            s("quit (q) - Leave the game"),
            s("reset (r) - Forget the settings"),
            s("help - List the commands"),
        ]
    );
}

#[test]
fn running_commands() {
    let l = sample_locale();
    assert_eq!(
        execute_command("q\n", &l, 57),
        Some(CommandAction::Quit(Ok(s("Bye! The number was 57"))))
    );
    assert_eq!(
        execute_command("  quit ", &l, 3),
        Some(CommandAction::Quit(Ok(s("Bye! The number was 3"))))
    );
    assert_eq!(execute_command("r", &l, 3), Some(CommandAction::Reset));
    assert_eq!(execute_command("reset\r\n", &l, 3), Some(CommandAction::Reset));
    assert!(matches!(execute_command("help", &l, 3), Some(CommandAction::Help(lines)) if lines.len() == 3));
    assert_eq!(execute_command("h", &l, 3), None);
    assert_eq!(execute_command("QUIT", &l, 3), None);
    assert_eq!(execute_command("quit now", &l, 3), None);
    assert_eq!(execute_command("42", &l, 3), None);
}

#[test]
fn quit_with_a_broken_template_reports_it() {
    let mut l = sample_locale();
    l.messages.info_messages.user_exit = s("Bye!");
    assert_eq!(
        execute_command("q", &l, 3),
        Some(CommandAction::Quit(Err(FormatError { template: s("Bye!") })))
    );
}

#[test]
fn reset_targets() {
    let entries = vec![s("config/options.json"), s(""), s("config/keep.json"), s("config/b")];
    assert_eq!(
        files_to_remove(&entries, &vec![s("config/keep.json")]),
        vec![s("config/options.json"), s("config/b")]
    );
    assert_eq!(files_to_remove(&entries, &vec![]).len(), 3);
}

#[test]
fn default_options() {
    let o = JSONOptions::default();
    assert_eq!(o.total_tries, 4);
    assert_eq!(o.max_number, 100);
    assert_eq!(o.min_number, 1);
    assert_eq!(o.locale_name, "No locale detected");
    assert!(o.locale_unset());
    assert!(!options(4, 1, 100).locale_unset());
}

#[test]
fn secret_numbers_stay_in_range() {
    assert!(secret_range_valid(&options(4, 1, 100)));
    assert!(secret_range_valid(&options(4, 5, 5)));
    assert!(!secret_range_valid(&options(4, 6, 5)));
    assert!(!secret_range_valid(&options(4, 1, u32::MAX)));
    for _ in 0..200 {
        let n = draw_secret_number(&options(4, 1, 10));
        assert!((1..=10).contains(&n));
    }
    assert_eq!(draw_secret_number(&options(4, 7, 7)), 7);
}

#[test]
fn a_correct_guess_wins() {
    let mut g = GameState::new(42, 4);
    assert!(!g.is_over());
    assert_eq!(g.current_try(), 1);
    assert_eq!(g.submit_guess(10), GuessOutcome::Wrong { hint: Hint::Higher, remaining: 3 });
    assert_eq!(g.current_try(), 2);
    assert_eq!(g.submit_guess(50), GuessOutcome::Wrong { hint: Hint::Lower, remaining: 2 });
    assert_eq!(g.submit_guess(42), GuessOutcome::Correct { attempt: 3 });
    assert!(g.is_over());
    assert!(g.won);
}

#[test]
fn wrong_guesses_use_up_the_tries() {
    let mut g = GameState::new(5, 2);
    assert_eq!(g.submit_guess(1), GuessOutcome::Wrong { hint: Hint::Higher, remaining: 1 });
    assert_eq!(g.submit_guess(9), GuessOutcome::Lost { secret: 5 });
    assert!(g.is_over());
    assert!(!g.won);
    assert_eq!(g.tries_made, 2);
}

#[test]
fn a_game_without_tries_is_over_at_once() {
    assert!(GameState::new(5, 0).is_over());
    let mut g = GameState::new(5, 1);
    assert_eq!(g.submit_guess(5), GuessOutcome::Correct { attempt: 1 });
}

#[test]
fn messages_before_each_try() {
    let l = sample_locale();
    let o = options(3, 1, 100);
    assert_eq!(
        texts(try_intro_lines(&l, &o, 1)),
        vec![
            Ok(s("Let's begin")),
            Ok(s("You have 3 tries")),
            Ok(s("The number is between 1 and 100")),
        ]
    );
    assert_eq!(texts(try_intro_lines(&l, &o, 2)), vec![Ok(s("Try again"))]);
    assert_eq!(texts(try_intro_lines(&l, &o, 3)), vec![Ok(s("Last try!"))]);
    assert_eq!(texts(try_intro_lines(&l, &options(1, 1, 100), 1)), vec![Ok(s("Last try!"))]);
}

#[test]
fn broken_templates_are_reported_in_place() {
    let mut l = sample_locale();
    l.messages.info_messages.game_messages.first_try_messages.secret_number_range = s("from {1}");
    assert_eq!(
        texts(try_intro_lines(&l, &options(3, 1, 100), 1)),
        vec![Ok(s("Let's begin")), Ok(s("You have 3 tries")), Err(s("from {1}"))]
    );
}

#[test]
fn messages_after_a_guess() {
    let l = sample_locale();
    assert_eq!(
        texts(outcome_lines(&l, GuessOutcome::Correct { attempt: 2 })),
        vec![Ok(s("Correct, on try 2!"))]
    );
    assert_eq!(
        texts(outcome_lines(&l, GuessOutcome::Wrong { hint: Hint::Higher, remaining: 1 })),
        vec![Ok(s("Wrong")), Ok(s("Go higher")), Ok(s("1 try left"))]
    );
    assert_eq!(
        texts(outcome_lines(&l, GuessOutcome::Wrong { hint: Hint::Lower, remaining: 3 })),
        vec![Ok(s("Wrong")), Ok(s("Go lower")), Ok(s("3 tries left"))]
    );
    assert_eq!(
        texts(outcome_lines(&l, GuessOutcome::Lost { secret: 77 })),
        vec![Ok(s("No tries left; it was 77"))]
    );
}

#[test]
fn reading_a_guess() {
    let l = sample_locale();
    assert_eq!(classify_input("42\n", &l, 7), InputEvent::Guess(42));
    assert_eq!(classify_input(" +8 ", &l, 7), InputEvent::Guess(8));
    assert_eq!(classify_input("\n", &l, 7), InputEvent::Rejected(s("Empty input")));
    assert_eq!(classify_input("abc\n", &l, 7), InputEvent::Rejected(s("Not a number")));
    assert_eq!(classify_input("-3\n", &l, 7), InputEvent::Rejected(s("Not a number")));
    assert_eq!(classify_input("5000000000\n", &l, 7), InputEvent::Rejected(s("Too big")));
    assert_eq!(
        classify_input("q\n", &l, 7),
        InputEvent::Command(CommandAction::Quit(Ok(s("Bye! The number was 7"))))
    );
    assert_eq!(classify_input("r\n", &l, 7), InputEvent::Command(CommandAction::Reset));
}

#[test]
fn reading_the_options_document() {
    assert_eq!(parse_options_document(None), Ok(JsonDocument::Object(vec![])));
    assert_eq!(parse_options_document(Some(s("null"))), Ok(JsonDocument::Null));
    assert_eq!(
        parse_options_document(Some(s("[1]"))),
        Ok(JsonDocument::Other(serde_json::Value::Array(vec![serde_json::Value::from(1)])))
    );
    assert_eq!(
        parse_options_document(Some(s("{\"total_tries\": 5, // five\n \"locale_name\": \"en-US\"}"))),
        Ok(JsonDocument::Object(vec![
            (s("locale_name"), JsonMember::Text(s("en-US"))),
            (s("total_tries"), JsonMember::Json(serde_json::Value::from(5))),
        ]))
    );
    assert_eq!(parse_options_document(Some(s("{"))).err(), Some(JsonErrorCategory::Eof));
    assert_eq!(parse_options_document(Some(s("{]"))).err(), Some(JsonErrorCategory::Syntax));
    assert_eq!(parse_options_document(Some(s("{} /* open"))).err(), Some(JsonErrorCategory::Io));
    assert_eq!(parse_options_document(Some(s("/x"))).err(), Some(JsonErrorCategory::Io));
    assert_eq!(parse_options_document(Some(s("{\"a\": 1 /x"))).err(), Some(JsonErrorCategory::Io));
}

#[test]
fn an_error_before_a_broken_comment_keeps_its_category() {
    assert_eq!(parse_options_document(Some(s("{\"a\": x /"))).err(), Some(JsonErrorCategory::Syntax));
    assert_eq!(parse_json_document("[1 2] /* open").err(), Some(JsonErrorCategory::Syntax));
    assert_eq!(streamed_category(Some(JsonErrorCategory::Eof), true), Some(JsonErrorCategory::Io));
    assert_eq!(streamed_category(None, true), Some(JsonErrorCategory::Io));
    assert_eq!(streamed_category(Some(JsonErrorCategory::Data), true), Some(JsonErrorCategory::Data));
    assert_eq!(streamed_category(Some(JsonErrorCategory::Eof), false), Some(JsonErrorCategory::Eof));
    assert_eq!(streamed_category(None, false), None);
}

#[test]
fn stripping_comments_keeps_the_length() {
    let text = "{\"a\": 1} // note\n# shell\n";
    let (stripped, failed) = strip_json_comments(text);
    assert!(!failed);
    assert_eq!(stripped.len(), text.len());
    assert_eq!(String::from_utf8(stripped).unwrap(), "{\"a\": 1}        \n       \n");
    let (prefix, failed) = strip_json_comments("[1] /x");
    assert!(failed);
    assert_eq!(prefix, b"[1]  ".to_vec());
    assert!(strip_json_comments("\"open").1);
}

#[test]
fn saving_the_chosen_locale() {
    let mut doc = parse_options_document(Some(s("{\"total_tries\": 5, \"locale_name\": \"fr-FR\"}"))).unwrap();
    let text = options_with_locale(&mut doc, "el-GR").unwrap();
    assert_eq!(text, "{\n\t\"locale_name\": \"el-GR\",\n\t\"total_tries\": 5\n}");
    assert_eq!(
        doc,
        JsonDocument::Object(vec![
            (s("locale_name"), JsonMember::Text(s("el-GR"))),
            (s("total_tries"), JsonMember::Json(serde_json::Value::from(5))),
        ])
    );
    let mut empty = parse_options_document(None).unwrap();
    assert_eq!(options_with_locale(&mut empty, "en-US").unwrap(), "{\n\t\"locale_name\": \"en-US\"\n}");
    let mut null = parse_options_document(Some(s("null"))).unwrap();
    assert_eq!(options_with_locale(&mut null, "en-US").unwrap(), "{\n\t\"locale_name\": \"en-US\"\n}");
    let mut list = parse_options_document(Some(s("[1, 2]"))).unwrap();
    assert_eq!(options_with_locale(&mut list, "en-US"), None);
    assert_eq!(list, parse_options_document(Some(s("[1, 2]"))).unwrap());
}

#[test]
fn saved_options_read_back_with_the_new_locale() {
    let mut doc = parse_options_document(Some(s(
        "{\"total_tries\": 6, \"min_number\": 2, \"max_number\": 9, \"locale_name\": \"fr-FR\", \"extra\": [1, {\"a\": null}]}",
    )))
    .unwrap();
    let text = options_with_locale(&mut doc, "en-US").unwrap();
    let back = parse_options_document(Some(text)).unwrap();
    assert_eq!(back, doc);
    match back {
        JsonDocument::Object(members) => {
            assert!(members.contains(&(s("locale_name"), JsonMember::Text(s("en-US")))));
            assert!(members.contains(&(s("total_tries"), JsonMember::Json(serde_json::Value::from(6)))));
            assert!(members.contains(&(s("min_number"), JsonMember::Json(serde_json::Value::from(2)))));
            assert!(members.contains(&(s("max_number"), JsonMember::Json(serde_json::Value::from(9)))));
        }
        _ => panic!("an object"),
    }
}

#[test]
fn setting_a_member() {
    let mut doc = JsonDocument::Null;
    assert!(set_string_member(&mut doc, "k", "v"));
    assert_eq!(doc, JsonDocument::Object(vec![(s("k"), JsonMember::Text(s("v")))]));
    assert!(set_string_member(&mut doc, "j", "w"));
    assert!(set_string_member(&mut doc, "k", "x"));
    assert_eq!(
        doc,
        JsonDocument::Object(vec![
            (s("k"), JsonMember::Text(s("x"))),
            (s("j"), JsonMember::Text(s("w"))),
        ])
    );
    let mut other = JsonDocument::Other(serde_json::Value::from(true));
    assert!(!set_string_member(&mut other, "k", "v"));
    assert_eq!(other, JsonDocument::Other(serde_json::Value::from(true)));
}

#[test]
fn language_titles() {
    let doc = parse_json_document("{\"lang_title\": \"English\"}").unwrap();
    assert_eq!(lang_title(&doc), Some(s("\"English\"")));
    let doc = parse_json_document("{\"lang_title\": \"a\\nb\"}").unwrap();
    assert_eq!(lang_title(&doc), Some(s("\"a\\nb\"")));
    assert_eq!(lang_title(&parse_json_document("{\"lang_title\": 5}").unwrap()), None);
    assert_eq!(lang_title(&parse_json_document("{}").unwrap()), None);
    assert_eq!(lang_title(&parse_json_document("\"lang_title\"").unwrap()), None);
    assert_eq!(lang_title(&parse_json_document("null").unwrap()), None);
}

#[test]
fn options_error_messages() {
    assert_eq!(
        options_error_message(JsonErrorCategory::Syntax),
        "There was an error in the syntax of \"options.json\". Exiting..."
    );
    assert_eq!(
        options_error_message(JsonErrorCategory::Eof),
        "Reached the end of the file while still waiting for more data. Exiting..."
    );
    assert!(options_error_message(JsonErrorCategory::Data)
        .starts_with("There was an error embedding the JSON info to the \"JSONOptions\" struct"));
    assert!(options_error_message(JsonErrorCategory::Io).starts_with("Couldn't read bytes"));
}

#[test]
fn every_name_runs_its_command() {
    let l = sample_locale();
    for command in get_user_commands(&l) {
        for name in command.get_names() {
            let action = execute_command(name, &l, 9).expect("a command");
            let kind = match action {
                CommandAction::Quit(_) => CommandKind::Quit,
                CommandAction::Reset => CommandKind::Reset,
                CommandAction::Help(_) => CommandKind::Help,
            };
            assert_eq!(kind, command.kind, "name {name}");
        }
    }
}
