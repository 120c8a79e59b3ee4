//! The game itself: its options, the drawing of the secret number, the
//! rounds of guessing, and the texts shown along the way.
use vstd::prelude::*;
use rand::Rng;
use crate::commands::{command_for_input, command_outcome, execute_command, CommandAction};
use crate::json::{
    json_document_outcome, parse_json_document, DocumentView, JsonDocument, JsonErrorCategory,
};
use crate::locales::{
    filled, format_once, format_twice, once_filled, twice_filled, FormatError, Localization,
};
use crate::text::{decimal, parse_u32, parse_u32_spec, trim, trim_spec, u32_to_decimal, ParseErrorKind};
use vstd::utf8::encode_utf8;

verus! {

/// The game's options, saved in `config/options.json`.
#[derive(Debug)]
pub struct JSONOptions {
    pub total_tries: u32,
    pub max_number: u32,
    pub min_number: u32,
    pub locale_name: String,
}

/// The locale name of options where no locale was chosen yet.
pub open spec fn no_locale_name() -> Seq<char> {
    "No locale detected"@
}

impl Default for JSONOptions {
    /// Four tries, a number from 1 to 100, and no locale chosen yet.
    fn default() -> (r: Self)
        ensures
            r.total_tries == 4,
            r.max_number == 100,
            r.min_number == 1,
            r.locale_name@ == no_locale_name(),
    {
        JSONOptions {
            total_tries: 4,
            max_number: 100,
            min_number: 1,
            locale_name: String::from_str("No locale detected"),
        }
    }
}

impl JSONOptions {
    /// Whether no locale was chosen yet.
    pub fn locale_unset(&self) -> (r: bool)
        ensures
            r == (self.locale_name@ == no_locale_name()),
    {
        crate::text::same_text(self.locale_name.as_str(), "No locale detected")
    }
}

/// The options document, read as a JSON value or as the game's options.
pub enum JSONResults {
    Value(JsonDocument),
    JSONOptions(JSONOptions),
}

/// The text read for the options: the file's contents, or `{}` where there
/// is no file.
pub open spec fn options_text(contents: Option<String>) -> Seq<char> {
    match contents {
        Some(c) => c@,
        None => seq!['{', '}'],
    }
}

/// Reads the options document from the contents of the options file (`None`
/// where there is no such file, which counts as the empty object `{}`).
pub fn parse_options_document(contents: Option<String>) -> (r: Result<
    JsonDocument,
    JsonErrorCategory,
>)
    ensures
        match r {
            Ok(d) => json_document_outcome(encode_utf8(options_text(contents)))
                == Ok::<DocumentView, JsonErrorCategory>(d@),
            Err(c) => json_document_outcome(encode_utf8(options_text(contents)))
                == Err::<DocumentView, JsonErrorCategory>(c),
        },
{
    match contents {
        Some(text) => parse_json_document(text.as_str()),
        None => {
            let empty = "{}";
            proof {
                reveal_strlit("{}");
                assert(empty@ =~= seq!['{', '}']);
            }
            parse_json_document(empty)
        },
    }
}

/// `rand::thread_rng().gen_range(low..high)`: a number drawn at random from
/// `low` up to, not including, `high`. Of the outcome the contract states
/// only that it lies in that range; which number comes is chance.
#[verifier::external_body]
fn random_in_range(low: u32, high: u32) -> (r: u32)
    requires
        low < high,
    ensures
        low <= r < high,
{
    rand::thread_rng().gen_range(low..high)
}

/// Whether the options describe a range that a secret number can be drawn
/// from: `min_number` up to `max_number`, with `max_number` below `u32::MAX`.
pub open spec fn range_drawable(options: &JSONOptions) -> bool {
    options.min_number <= options.max_number < u32::MAX
}

/// Whether the options describe a range that a secret number can be drawn
/// from.
pub fn secret_range_valid(options: &JSONOptions) -> (r: bool)
    ensures
        r == range_drawable(options),
{
    options.min_number <= options.max_number && options.max_number < u32::MAX
}

/// Draws the secret number, at random, from `min_number` to `max_number`.
pub fn draw_secret_number(options: &JSONOptions) -> (r: u32)
    requires
        range_drawable(options),
    ensures
        options.min_number <= r <= options.max_number,
{
    random_in_range(options.min_number, options.max_number + 1)
}


/// Which way the secret number lies from a wrong guess.
#[derive(Clone, Copy, Debug, PartialEq, Eq)]
pub enum Hint {
    /// The secret number is higher than the guess.
    Higher,
    /// The secret number is lower than the guess.
    Lower,
}

/// What a guess comes to.
#[derive(Clone, Copy, Debug, PartialEq, Eq)]
pub enum GuessOutcome {
    /// The guess is the secret number, found at this attempt.
    Correct { attempt: u32 },
    /// The guess is wrong; tries are left.
    Wrong { hint: Hint, remaining: u32 },
    /// The guess is wrong and it was the last try; the secret number is
    /// revealed.
    Lost { secret: u32 },
}

/// The state of a game: the secret number, the number of tries allowed, the
/// tries made and whether the secret was found.
#[derive(Clone, Copy, Debug, PartialEq, Eq)]
pub struct GameState {
    pub secret: u32,
    pub total_tries: u32,
    pub tries_made: u32,
    pub won: bool,
}

/// A state that play can reach: never more tries made than allowed.
pub open spec fn state_valid(g: GameState) -> bool {
    g.tries_made <= g.total_tries
}

/// The game is over once the secret is found or no try is left.
pub open spec fn game_over(g: GameState) -> bool {
    g.won || g.tries_made >= g.total_tries
}

/// One guess: the try is counted; the right number wins; a wrong one gets a
/// hint while tries are left, and reveals the secret on the last try.
pub open spec fn guess_step(g: GameState, guess: u32) -> (GameState, GuessOutcome) {
    let t = (g.tries_made + 1) as u32;
    if guess == g.secret {
        (GameState { tries_made: t, won: true, ..g }, GuessOutcome::Correct { attempt: t })
    } else if t < g.total_tries {
        (
            GameState { tries_made: t, ..g },
            GuessOutcome::Wrong {
                hint: if guess < g.secret {
                    Hint::Higher
                } else {
                    Hint::Lower
                },
                remaining: (g.total_tries - t) as u32,
            },
        )
    } else {
        (GameState { tries_made: t, ..g }, GuessOutcome::Lost { secret: g.secret })
    }
}

/// A game with the given secret number and number of tries, no try made.
pub open spec fn new_game(secret: u32, total_tries: u32) -> GameState {
    GameState { secret, total_tries, tries_made: 0, won: false }
}

/// The state after the guesses, in order; guesses made once the game is
/// over are not taken.
pub open spec fn play(g: GameState, guesses: Seq<u32>) -> GameState
    decreases guesses.len(),
{
    if guesses.len() == 0 || game_over(g) {
        g
    } else {
        play(guess_step(g, guesses[0]).0, guesses.drop_first())
    }
}

impl GameState {
    /// A game with the secret number `secret` and `total_tries` tries.
    pub fn new(secret: u32, total_tries: u32) -> (r: GameState)
        ensures
            r == new_game(secret, total_tries),
    {
        GameState { secret, total_tries, tries_made: 0, won: false }
    }

    /// Whether the game is over.
    pub fn is_over(&self) -> (r: bool)
        ensures
            r == game_over(*self),
    {
        self.won || self.tries_made >= self.total_tries
    }

    /// The number of the try about to be made, counting from 1.
    pub fn current_try(&self) -> (r: u32)
        requires
            !game_over(*self),
        ensures
            r == self.tries_made + 1,
    {
        self.tries_made + 1
    }

    /// Makes the guess `guess`.
    pub fn submit_guess(&mut self, guess: u32) -> (r: GuessOutcome)
        requires
            !game_over(*old(self)),
        ensures
            (*final(self), r) == guess_step(*old(self), guess),
    {
        let t = self.tries_made + 1;
        self.tries_made = t;
        if guess == self.secret {
            self.won = true;
            GuessOutcome::Correct { attempt: t }
        } else if t < self.total_tries {
            let hint = if guess < self.secret {
                Hint::Higher
            } else {
                Hint::Lower
            };
            GuessOutcome::Wrong { hint, remaining: self.total_tries - t }
        } else {
            GuessOutcome::Lost { secret: self.secret }
        }
    }
}

/// Guessing the secret number wins the game at once, at the current try.
pub proof fn law_correct_guess_wins(g: GameState)
    requires
        !game_over(g),
    ensures
        guess_step(g, g.secret).1 == (GuessOutcome::Correct { attempt: (g.tries_made + 1) as u32 }),
        game_over(guess_step(g, g.secret).0),
{
}

/// A hint always points towards the secret number, and a wrong guess leaves
/// the count of tries that are left.
pub proof fn law_hints_point_to_secret(g: GameState, guess: u32)
    requires
        state_valid(g),
        !game_over(g),
    ensures
        guess_step(g, guess).1 matches GuessOutcome::Wrong { hint, remaining } ==> {
            &&& guess != g.secret
            &&& (hint == Hint::Higher <==> guess < g.secret)
            &&& (hint == Hint::Lower <==> guess > g.secret)
            &&& remaining == g.total_tries - guess_step(g, guess).0.tries_made
            &&& remaining >= 1
        },
        guess_step(g, guess).1 matches GuessOutcome::Lost { secret } ==> secret == g.secret
            && guess != g.secret,
{
}

/// Play never takes more tries than the game allows.
pub proof fn law_tries_never_exceed_total(g: GameState, guesses: Seq<u32>)
    requires
        state_valid(g),
    ensures
        state_valid(play(g, guesses)),
        play(g, guesses).tries_made <= g.tries_made + guesses.len(),
    decreases guesses.len(),
{
    if guesses.len() > 0 && !game_over(g) {
        law_tries_never_exceed_total(guess_step(g, guesses[0]).0, guesses.drop_first());
    }
}

/// A game in which every guess misses is over, lost, once all its tries are
/// made.
pub proof fn law_wrong_guesses_exhaust_tries(g: GameState, guesses: Seq<u32>)
    requires
        state_valid(g),
        !g.won,
        guesses.len() >= g.total_tries - g.tries_made,
        forall|i: int| 0 <= i < guesses.len() ==> guesses[i] != g.secret,
    ensures
        game_over(play(g, guesses)),
        !play(g, guesses).won,
        play(g, guesses).tries_made == g.total_tries,
    decreases guesses.len(),
{
    if !game_over(g) {
        let next = guess_step(g, guesses[0]).0;
        assert forall|i: int| 0 <= i < guesses.drop_first().len() implies guesses.drop_first()[i]
            != next.secret by {
            assert(guesses.drop_first()[i] == guesses[i + 1]);
        }
        law_wrong_guesses_exhaust_tries(next, guesses.drop_first());
    }
}

/// A game is won exactly when one of its guesses, before it is over, is the
/// secret number.
pub proof fn law_win_needs_secret(g: GameState, guesses: Seq<u32>)
    requires
        state_valid(g),
        !g.won,
        play(g, guesses).won,
    ensures
        exists|i: int| 0 <= i < guesses.len() && guesses[i] == g.secret,
    decreases guesses.len(),
{
    if guesses.len() > 0 && !game_over(g) {
        if guesses[0] != g.secret {
            let next = guess_step(g, guesses[0]).0;
            law_win_needs_secret(next, guesses.drop_first());
            let i = choose|i: int| 0 <= i < guesses.drop_first().len() && guesses.drop_first()[i]
                == next.secret;
            assert(guesses[i + 1] == g.secret);
        } else {
            assert(guesses[0] == g.secret);
        }
    }
}


/// A wrong guess reveals the secret only when it used the last try; while
/// tries are left after it, it is answered with a hint and the count of the
/// tries left, and the game goes on.
pub proof fn law_lost_only_on_last_try(g: GameState, guess: u32)
    requires
        state_valid(g),
        !game_over(g),
        guess != g.secret,
    ensures
        guess_step(g, guess).0.tries_made == g.tries_made + 1,
        guess_step(g, guess).1 is Lost ==> guess_step(g, guess).0.tries_made == g.total_tries,
        g.tries_made + 1 == g.total_tries ==> guess_step(g, guess).1 == (GuessOutcome::Lost {
            secret: g.secret,
        }),
        g.tries_made + 1 < g.total_tries ==> {
            &&& guess_step(g, guess).1 == (GuessOutcome::Wrong {
                hint: if guess < g.secret {
                    Hint::Higher
                } else {
                    Hint::Lower
                },
                remaining: (g.total_tries - g.tries_made - 1) as u32,
            })
            &&& !game_over(guess_step(g, guess).0)
        },
{
}

/// The messages shown before the try numbered `current_try` of a game of
/// `total_tries` tries, with a number from `min` to `max`: on the last try,
/// that it is the last; on the first, the opening, the number of tries and
/// the range; on the others, the message for further tries.
pub open spec fn intro_text(
    locale: &Localization,
    total_tries: u32,
    min: u32,
    max: u32,
    current_try: u32,
) -> Seq<Result<Seq<char>, Seq<char>>> {
    let gm = locale.messages.info_messages.game_messages;
    if current_try == total_tries {
        seq![Ok(gm.last_try@)]
    } else if current_try == 1 {
        seq![
            Ok(gm.first_try_messages.beginning_message@),
            once_filled(gm.first_try_messages.total_tries_announcement@, decimal(total_tries as nat)),
            twice_filled(
                gm.first_try_messages.secret_number_range@,
                decimal(min as nat),
                decimal(max as nat),
            ),
        ]
    } else {
        seq![Ok(gm.other_tries@)]
    }
}

/// The messages shown before the try numbered `current_try`, in order; a
/// template that cannot be filled is reported in place of its message.
pub fn try_intro_lines(locale: &Localization, options: &JSONOptions, current_try: u32) -> (r: Vec<
    Result<String, FormatError>,
>)
    ensures
        r@.map_values(|x: Result<String, FormatError>| filled(x)) == intro_text(
            locale,
            options.total_tries,
            options.min_number,
            options.max_number,
            current_try,
        ),
{
    let gm = &locale.messages.info_messages.game_messages;
    let mut out: Vec<Result<String, FormatError>> = Vec::new();
    if current_try == options.total_tries {
        out.push(Ok(gm.last_try.clone()));
    } else if current_try == 1 {
        out.push(Ok(gm.first_try_messages.beginning_message.clone()));
        let total = u32_to_decimal(options.total_tries);
        out.push(format_once(gm.first_try_messages.total_tries_announcement.as_str(), total.as_str()));
        let min = u32_to_decimal(options.min_number);
        let max = u32_to_decimal(options.max_number);
        out.push(
            format_twice(
                gm.first_try_messages.secret_number_range.as_str(),
                [min.as_str(), max.as_str()],
            ),
        );
    } else {
        out.push(Ok(gm.other_tries.clone()));
    }
    assert(out@.map_values(|x: Result<String, FormatError>| filled(x)) =~= intro_text(
        locale,
        options.total_tries,
        options.min_number,
        options.max_number,
        current_try,
    ));
    out
}

/// The last-try message is shown on the try numbered `total_tries` and on no
/// other: a try after the first that is not the last gets the message for
/// further tries alone, and the first try of a longer game gets the opening,
/// the number of tries and the range.
pub proof fn law_last_try_only_at_the_end(
    locale: &Localization,
    total_tries: u32,
    min: u32,
    max: u32,
    current_try: u32,
)
    ensures
        current_try == total_tries ==> intro_text(locale, total_tries, min, max, current_try)
            == seq![Ok::<Seq<char>, Seq<char>>(locale.messages.info_messages.game_messages.last_try@)],
        1 < current_try < total_tries ==> intro_text(locale, total_tries, min, max, current_try)
            == seq![Ok::<Seq<char>, Seq<char>>(locale.messages.info_messages.game_messages.other_tries@)],
        current_try == 1 < total_tries ==> {
            let ft = locale.messages.info_messages.game_messages.first_try_messages;
            let lines = intro_text(locale, total_tries, min, max, current_try);
            &&& lines.len() == 3
            &&& lines[0] == Ok::<Seq<char>, Seq<char>>(ft.beginning_message@)
            &&& lines[1] == once_filled(ft.total_tries_announcement@, decimal(total_tries as nat))
            &&& lines[2] == twice_filled(
                ft.secret_number_range@,
                decimal(min as nat),
                decimal(max as nat),
            )
        },
{
}

/// Before each try of a game that is not over, the last-try message is shown
/// exactly when the try about to be made is the game's last one.
pub proof fn law_intro_of_each_try(locale: &Localization, g: GameState, min: u32, max: u32)
    requires
        state_valid(g),
        !game_over(g),
    ensures
        g.tries_made + 1 == g.total_tries ==> intro_text(
            locale,
            g.total_tries,
            min,
            max,
            (g.tries_made + 1) as u32,
        ) == seq![Ok::<Seq<char>, Seq<char>>(locale.messages.info_messages.game_messages.last_try@)],
        0 < g.tries_made && g.tries_made + 1 < g.total_tries ==> intro_text(
            locale,
            g.total_tries,
            min,
            max,
            (g.tries_made + 1) as u32,
        ) == seq![Ok::<Seq<char>, Seq<char>>(locale.messages.info_messages.game_messages.other_tries@)],
{
    law_last_try_only_at_the_end(locale, g.total_tries, min, max, (g.tries_made + 1) as u32);
}

/// The messages shown after a guess: for a right guess, the message with the
/// number of the try; for a wrong one with tries left, the announcement, the
/// hint and the tries left (with the singular word for one try, else the
/// plural one); for a wrong last guess, the message with the secret number.
pub open spec fn outcome_text(locale: &Localization, outcome: GuessOutcome) -> Seq<
    Result<Seq<char>, Seq<char>>,
> {
    let gr = locale.messages.info_messages.game_messages.guess_results;
    match outcome {
        GuessOutcome::Correct { attempt } => seq![once_filled(gr.correct@, decimal(attempt as nat))],
        GuessOutcome::Wrong { hint, remaining } => seq![
            Ok(gr.wrong.announcement@),
            Ok(
                match hint {
                    Hint::Higher => gr.wrong.higher_hint@,
                    Hint::Lower => gr.wrong.lower_hint@,
                },
            ),
            twice_filled(
                gr.wrong.remaining_tries@,
                decimal(remaining as nat),
                if remaining == 1 {
                    gr.wrong.try_singular@
                } else {
                    gr.wrong.try_plural@
                },
            ),
        ],
        GuessOutcome::Lost { secret } => seq![
            once_filled(gr.wrong.no_tries_remaining@, decimal(secret as nat)),
        ],
    }
}

/// The messages shown after a guess, in order; a template that cannot be
/// filled is reported in place of its message.
pub fn outcome_lines(locale: &Localization, outcome: GuessOutcome) -> (r: Vec<
    Result<String, FormatError>,
>)
    ensures
        r@.map_values(|x: Result<String, FormatError>| filled(x)) == outcome_text(locale, outcome),
{
    let gr = &locale.messages.info_messages.game_messages.guess_results;
    let mut out: Vec<Result<String, FormatError>> = Vec::new();
    match outcome {
        GuessOutcome::Correct { attempt } => {
            let n = u32_to_decimal(attempt);
            out.push(format_once(gr.correct.as_str(), n.as_str()));
        },
        GuessOutcome::Wrong { hint, remaining } => {
            out.push(Ok(gr.wrong.announcement.clone()));
            match hint {
                Hint::Higher => out.push(Ok(gr.wrong.higher_hint.clone())),
                Hint::Lower => out.push(Ok(gr.wrong.lower_hint.clone())),
            }
            let n = u32_to_decimal(remaining);
            let word = if remaining == 1 {
                gr.wrong.try_singular.as_str()
            } else {
                gr.wrong.try_plural.as_str()
            };
            out.push(format_twice(gr.wrong.remaining_tries.as_str(), [n.as_str(), word]));
        },
        GuessOutcome::Lost { secret } => {
            let n = u32_to_decimal(secret);
            out.push(format_once(gr.wrong.no_tries_remaining.as_str(), n.as_str()));
        },
    }
    assert(out@.map_values(|x: Result<String, FormatError>| filled(x)) =~= outcome_text(
        locale,
        outcome,
    ));
    out
}

/// A wrong guess with tries left is answered by three lines: the
/// announcement, the hint (the locale's higher hint when the hint is
/// `Higher`, its lower hint when it is `Lower`, whatever the number of tries
/// left) and the tries left, with the singular word for one try and the
/// plural one otherwise.
pub proof fn law_wrong_outcome_lines(locale: &Localization, hint: Hint, remaining: u32)
    ensures
        ({
            let w = locale.messages.info_messages.game_messages.guess_results.wrong;
            let lines = outcome_text(locale, GuessOutcome::Wrong { hint, remaining });
            &&& lines.len() == 3
            &&& lines[0] == Ok::<Seq<char>, Seq<char>>(w.announcement@)
            &&& hint == Hint::Higher ==> lines[1] == Ok::<Seq<char>, Seq<char>>(w.higher_hint@)
            &&& hint == Hint::Lower ==> lines[1] == Ok::<Seq<char>, Seq<char>>(w.lower_hint@)
            &&& remaining == 1 ==> lines[2] == twice_filled(
                w.remaining_tries@,
                decimal(1),
                w.try_singular@,
            )
            &&& remaining != 1 ==> lines[2] == twice_filled(
                w.remaining_tries@,
                decimal(remaining as nat),
                w.try_plural@,
            )
        }),
{
}

/// After a wrong guess with tries left, the hint line sends the player
/// towards the secret number: the higher hint when the guess was below it,
/// the lower hint when it was above.
pub proof fn law_hint_line_points_to_secret(locale: &Localization, g: GameState, guess: u32)
    requires
        state_valid(g),
        !game_over(g),
        guess != g.secret,
        g.tries_made + 1 < g.total_tries,
    ensures
        ({
            let w = locale.messages.info_messages.game_messages.guess_results.wrong;
            let lines = outcome_text(locale, guess_step(g, guess).1);
            &&& lines.len() == 3
            &&& guess < g.secret ==> lines[1] == Ok::<Seq<char>, Seq<char>>(w.higher_hint@)
            &&& guess > g.secret ==> lines[1] == Ok::<Seq<char>, Seq<char>>(w.lower_hint@)
        }),
{
    law_lost_only_on_last_try(g, guess);
    let (next, outcome) = guess_step(g, guess);
    if let GuessOutcome::Wrong { hint, remaining } = outcome {
        law_wrong_outcome_lines(locale, hint, remaining);
    }
}

/// What a line typed at the guess prompt is.
#[derive(Debug, PartialEq, Eq)]
pub enum InputEvent {
    /// It names a command, which ran.
    Command(CommandAction),
    /// It is a number.
    Guess(u32),
    /// It is neither; the message tells why.
    Rejected(String),
}

/// The message of `locale` for a text that is not a number, by the reason.
pub open spec fn input_error_text(locale: &Localization, kind: ParseErrorKind) -> Seq<char> {
    let ie = locale.messages.error_messages.input_errors;
    match kind {
        ParseErrorKind::Empty => ie.empty@,
        ParseErrorKind::InvalidDigit => ie.invalid_digit@,
        ParseErrorKind::PosOverflow => ie.pos_overflow@,
        ParseErrorKind::NegOverflow => ie.neg_overflow@,
        ParseErrorKind::Zero => ie.zero@,
    }
}

/// Reads a line typed at the guess prompt: leading and trailing white space
/// do not count; a command name runs the command; else the line must be the
/// decimal notation of a number.
pub fn classify_input(raw_input: &str, locale: &Localization, secret_number: u32) -> (r: InputEvent)
    ensures
        match command_for_input(trim_spec(raw_input@)) {
            Some(_) => r matches InputEvent::Command(a) && command_outcome(
                Some(a),
                raw_input@,
                locale,
                secret_number,
            ),
            None => match parse_u32_spec(trim_spec(raw_input@)) {
                Ok(n) => r matches InputEvent::Guess(g) && g == n,
                Err(k) => r matches InputEvent::Rejected(m) && m@ == input_error_text(locale, k),
            },
        },
{
    match execute_command(raw_input, locale, secret_number) {
        Some(a) => InputEvent::Command(a),
        None => {
            let ie = &locale.messages.error_messages.input_errors;
            match parse_u32(trim(raw_input)) {
                Ok(n) => InputEvent::Guess(n),
                Err(ParseErrorKind::Empty) => InputEvent::Rejected(ie.empty.clone()),
                Err(ParseErrorKind::InvalidDigit) => InputEvent::Rejected(ie.invalid_digit.clone()),
                Err(ParseErrorKind::PosOverflow) => InputEvent::Rejected(ie.pos_overflow.clone()),
                Err(ParseErrorKind::NegOverflow) => InputEvent::Rejected(ie.neg_overflow.clone()),
                Err(ParseErrorKind::Zero) => InputEvent::Rejected(ie.zero.clone()),
            }
        },
    }
}

} // verus!
