//! The texts of one language (a locale), the templates they hold and how
//! they are filled, and the catalogue of available locales.
use vstd::prelude::*;
use crate::json::{
    comments_stripped, json_document, lang_title, lang_title_of, parse_json_bytes,
    strip_json_comments, JsonErrorCategory,
};
use vstd::string::StringSliceAdditionalSpecFns;
use crate::text::{
    chars_of, count_matches, count_matches_in, is_brace_pattern, lemma_border_after_brace,
    lemma_border_before_brace, lemma_concat_scan, lemma_no_match_unchanged, lemma_part_without_pattern,
    lemma_pattern_alone, lemma_shorter_than_pattern, starts_with,
    replace_all, replace_all_in, string_from_chars, trim, trim_spec,
};

verus! {

/// Messages shown when a guess is not a valid number.
#[derive(Debug)]
pub struct InputErrors {
    pub empty: String,
    pub invalid_digit: String,
    pub pos_overflow: String,
    pub neg_overflow: String,
    pub zero: String,
    pub unknown_err: String,
}

/// Messages shown on errors.
#[derive(Debug)]
pub struct ErrorMessages {
    pub cant_read_line: String,
    pub input_errors: InputErrors,
}

/// Messages shown only in debug builds.
#[derive(Debug)]
pub struct DebugMessages {
    pub secret_number: String,
    pub current_try: String,
}

/// Messages shown before the first guess.
#[derive(Debug)]
pub struct FirstTryMessages {
    pub beginning_message: String,
    pub total_tries_announcement: String,
    pub secret_number_range: String,
}

/// Messages shown after a wrong guess.
#[derive(Debug)]
pub struct WrongGuessResult {
    pub announcement: String,
    pub higher_hint: String,
    pub lower_hint: String,
    pub remaining_tries: String,
    pub try_singular: String,
    pub try_plural: String,
    pub no_tries_remaining: String,
}

/// Messages shown after a guess.
#[derive(Debug)]
pub struct GuessResults {
    pub correct: String,
    pub wrong: WrongGuessResult,
}

/// Messages shown during the game.
#[derive(Debug)]
pub struct GameMessages {
    pub first_try_messages: FirstTryMessages,
    pub last_try: String,
    pub other_tries: String,
    pub input_prompt_message: String,
    pub guess_results: GuessResults,
}

/// Informative messages.
#[derive(Debug)]
pub struct InfoMessages {
    pub debug: DebugMessages,
    pub welcome_message: String,
    pub user_exit: String,
    pub game_messages: GameMessages,
}

/// All messages of a locale.
#[derive(Debug)]
pub struct Messages {
    pub error_messages: ErrorMessages,
    pub info_messages: InfoMessages,
}

/// Descriptions of the in-game commands.
#[derive(Debug)]
pub struct CommDescs {
    pub quit: String,
    pub reset: String,
    pub help: String,
}

/// Texts printed by the in-game commands.
#[derive(Debug)]
pub struct CommText {
    pub quit: String,
    pub reset: String,
}

/// Error messages of the in-game commands.
#[derive(Debug)]
pub struct CommErrs {
    pub cant_read_dir: String,
    pub cant_read_file_in_path: String,
    pub cant_remove_file: String,
}

/// Texts of the in-game commands.
#[derive(Debug)]
pub struct Commands {
    pub descriptions: CommDescs,
    pub text: CommText,
    pub errors: CommErrs,
}

/// Every text of one locale.
#[derive(Debug)]
pub struct Localization {
    pub lang_title: String,
    pub messages: Messages,
    pub commands: Commands,
}

/// A template that does not hold its placeholders exactly once.
#[derive(Debug, PartialEq, Eq)]
pub struct FormatError {
    pub template: String,
}

/// The placeholder of a template with one argument: `{}`.
pub open spec fn placeholder() -> Seq<char> {
    seq!['{', '}']
}

/// The first placeholder of a template with two arguments: `{1}`.
pub open spec fn first_placeholder() -> Seq<char> {
    seq!['{', '1', '}']
}

/// The second placeholder of a template with two arguments: `{2}`.
pub open spec fn second_placeholder() -> Seq<char> {
    seq!['{', '2', '}']
}

/// Filling a one-argument template: it must hold `{}` exactly once, which is
/// replaced by the argument.
pub open spec fn format_once_spec(template: Seq<char>, argument: Seq<char>) -> Option<Seq<char>> {
    if count_matches(template, placeholder()) == 1 {
        Some(replace_all(template, placeholder(), argument))
    } else {
        None
    }
}

/// Filling a two-argument template: it must hold `{1}` and `{2}` exactly
/// once each; every `{1}` is replaced by the first argument, then every `{2}`
/// of the outcome by the second.
pub open spec fn format_twice_spec(template: Seq<char>, first: Seq<char>, second: Seq<char>) -> Option<
    Seq<char>,
> {
    if count_matches(template, first_placeholder()) == 1 && count_matches(
        template,
        second_placeholder(),
    ) == 1 {
        Some(
            replace_all(
                replace_all(template, first_placeholder(), first),
                second_placeholder(),
                second,
            ),
        )
    } else {
        None
    }
}

fn placeholder_chars() -> (r: Vec<char>)
    ensures
        r@ == placeholder(),
{
    let mut v = Vec::new();
    v.push('{');
    v.push('}');
    assert(v@ =~= placeholder());
    v
}

fn numbered_placeholder_chars(n: char) -> (r: Vec<char>)
    ensures
        r@ == seq!['{', n, '}'],
{
    let mut v = Vec::new();
    v.push('{');
    v.push(n);
    v.push('}');
    assert(v@ =~= seq!['{', n, '}']);
    v
}

/// Fills the one-argument template `to_format` with `argument`.
pub fn format_once(to_format: &str, argument: &str) -> (r: Result<String, FormatError>)
    ensures
        match r {
            Ok(s) => format_once_spec(to_format@, argument@) == Some(s@),
            Err(e) => format_once_spec(to_format@, argument@) is None && e.template@ == to_format@,
        },
{
    let t = chars_of(to_format);
    let p = placeholder_chars();
    if count_matches_in(&t, &p) != 1 {
        return Err(FormatError { template: to_format.to_owned() });
    }
    let a = chars_of(argument);
    let out = replace_all_in(&t, &p, &a);
    Ok(string_from_chars(out.as_slice()))
}

/// Fills the two-argument template `to_format` with `arguments`.
pub fn format_twice(to_format: &str, arguments: [&str; 2]) -> (r: Result<String, FormatError>)
    ensures
        match r {
            Ok(s) => format_twice_spec(to_format@, arguments[0]@, arguments[1]@) == Some(s@),
            Err(e) => format_twice_spec(to_format@, arguments[0]@, arguments[1]@) is None
                && e.template@ == to_format@,
        },
{
    let t = chars_of(to_format);
    let p1 = numbered_placeholder_chars('1');
    let p2 = numbered_placeholder_chars('2');
    if count_matches_in(&t, &p1) != 1 || count_matches_in(&t, &p2) != 1 {
        return Err(FormatError { template: to_format.to_owned() });
    }
    let a1 = chars_of(arguments[0]);
    let a2 = chars_of(arguments[1]);
    let once = replace_all_in(&t, &p1, &a1);
    let twice = replace_all_in(&once, &p2, &a2);
    Ok(string_from_chars(twice.as_slice()))
}

proof fn lemma_placeholders_are_brace_patterns()
    ensures
        is_brace_pattern(placeholder()),
        is_brace_pattern(first_placeholder()),
        is_brace_pattern(second_placeholder()),
{
}

/// A filled template as a plain value: the text, or the template that could
/// not be filled.
pub open spec fn filled(r: Result<String, FormatError>) -> Result<Seq<char>, Seq<char>> {
    match r {
        Ok(s) => Ok(s@),
        Err(e) => Err(e.template@),
    }
}

/// Filling a one-argument template: the text, or the template itself where it
/// cannot be filled.
pub open spec fn once_filled(template: Seq<char>, argument: Seq<char>) -> Result<Seq<char>, Seq<char>> {
    match format_once_spec(template, argument) {
        Some(s) => Ok(s),
        None => Err(template),
    }
}

/// Filling a two-argument template: the text, or the template itself where
/// it cannot be filled.
pub open spec fn twice_filled(template: Seq<char>, first: Seq<char>, second: Seq<char>) -> Result<
    Seq<char>,
    Seq<char>,
> {
    match format_twice_spec(template, first, second) {
        Some(s) => Ok(s),
        None => Err(template),
    }
}

/// A one-argument template `pre{}suf`, where neither `pre` nor `suf` holds a
/// placeholder, is accepted, and filling it gives `pre`, the argument, then
/// `suf`.
pub proof fn law_format_once_fills_placeholder(pre: Seq<char>, suf: Seq<char>, argument: Seq<char>)
    requires
        count_matches(pre, placeholder()) == 0,
        count_matches(suf, placeholder()) == 0,
    ensures
        format_once_spec(pre + placeholder() + suf, argument) == Some(pre + argument + suf),
{
    let p = placeholder();
    lemma_placeholders_are_brace_patterns();
    let tail = p + suf;
    lemma_border_before_brace(pre, tail, p);
    lemma_concat_scan(pre, tail, p, argument);
    lemma_border_after_brace(p, suf, p);
    lemma_concat_scan(p, suf, p, argument);
    lemma_pattern_alone(p, argument);
    lemma_no_match_unchanged(pre, p, argument);
    lemma_no_match_unchanged(suf, p, argument);
    assert(pre + p + suf =~= pre + tail);
    assert(pre + (argument + suf) =~= pre + argument + suf);
}

/// A one-argument template without a placeholder is refused.
pub proof fn law_format_once_needs_placeholder(template: Seq<char>, argument: Seq<char>)
    requires
        count_matches(template, placeholder()) == 0,
    ensures
        format_once_spec(template, argument) is None,
{
}


/// One numbered placeholder holds no occurrence of the other.
proof fn lemma_other_placeholder(t: Seq<char>, p: Seq<char>, r: Seq<char>)
    requires
        t == first_placeholder() && p == second_placeholder() || t == second_placeholder() && p
            == first_placeholder(),
    ensures
        count_matches(t, p) == 0,
        replace_all(t, p, r) == t,
{
    assert(!starts_with(t, p)) by {
        assert(t.take(3)[1] != p[1]);
    }
    lemma_shorter_than_pattern(t.drop_first(), p, r);
    assert(seq![t[0]] + t.drop_first() =~= t);
}

/// A two-argument template `pre{1}mid{2}suf`, where `pre`, `mid` and `suf`
/// hold no `{1}`, `suf` holds no `{2}`, and no `{2}` shows in `pre`, the first
/// argument and `mid` put together, is accepted, and filling it gives `pre`,
/// the first argument, `mid`, the second argument, then `suf`.
pub proof fn law_format_twice_fills_placeholders(
    pre: Seq<char>,
    mid: Seq<char>,
    suf: Seq<char>,
    first: Seq<char>,
    second: Seq<char>,
)
    requires
        count_matches(pre, first_placeholder()) == 0,
        count_matches(mid, first_placeholder()) == 0,
        count_matches(suf, first_placeholder()) == 0,
        count_matches(pre + first + mid, second_placeholder()) == 0,
        count_matches(suf, second_placeholder()) == 0,
    ensures
        format_twice_spec(
            pre + first_placeholder() + mid + second_placeholder() + suf,
            first,
            second,
        ) == Some(pre + first + mid + second + suf),
{
    let a = first_placeholder();
    let b = second_placeholder();
    lemma_placeholders_are_brace_patterns();
    let y3 = b + suf;
    let y2 = mid + y3;
    let y1 = a + y2;
    let t = pre + y1;
    assert(pre + a + mid + b + suf =~= t);
    // the first placeholder
    lemma_border_before_brace(pre, y1, a);
    lemma_concat_scan(pre, y1, a, first);
    lemma_border_after_brace(a, y2, a);
    lemma_concat_scan(a, y2, a, first);
    lemma_border_before_brace(mid, y3, a);
    lemma_concat_scan(mid, y3, a, first);
    lemma_border_after_brace(b, suf, a);
    lemma_concat_scan(b, suf, a, first);
    lemma_other_placeholder(b, a, first);
    lemma_pattern_alone(a, first);
    lemma_no_match_unchanged(pre, a, first);
    lemma_no_match_unchanged(mid, a, first);
    lemma_no_match_unchanged(suf, a, first);
    let x = pre + first + mid;
    let u = x + y3;
    assert(replace_all(t, a, first) =~= u);
    // the second placeholder, after the first is filled
    lemma_border_before_brace(x, y3, b);
    lemma_concat_scan(x, y3, b, second);
    lemma_border_after_brace(b, suf, b);
    lemma_concat_scan(b, suf, b, second);
    lemma_pattern_alone(b, second);
    lemma_no_match_unchanged(x, b, second);
    lemma_no_match_unchanged(suf, b, second);
    assert(replace_all(u, b, second) =~= pre + first + mid + second + suf);
    // the second placeholder occurs once in the template
    lemma_part_without_pattern(x, 0, pre.len() as int, b);
    assert(x.subrange(0, pre.len() as int) =~= pre);
    lemma_part_without_pattern(x, (pre.len() + first.len()) as int, x.len() as int, b);
    assert(x.subrange((pre.len() + first.len()) as int, x.len() as int) =~= mid);
    lemma_concat_scan(pre, y1, b, second);
    lemma_border_after_brace(a, y2, b);
    lemma_concat_scan(a, y2, b, second);
    lemma_border_before_brace(mid, y3, b);
    lemma_concat_scan(mid, y3, b, second);
    lemma_other_placeholder(a, b, second);
}


/// Whether `c` has the Unicode `Lowercase` property, as `char::is_lowercase`
/// tells it.
pub uninterp spec fn char_is_lowercase(c: char) -> bool;

/// Whether `c` has the Unicode `Uppercase` property, as `char::is_uppercase`
/// tells it.
pub uninterp spec fn char_is_uppercase(c: char) -> bool;

/// `char::is_lowercase`; the contract names its answer
/// `char_is_lowercase(c)`, a Unicode table that is not written out here.
#[verifier::external_body]
fn is_lowercase(c: char) -> (r: bool)
    ensures
        r == char_is_lowercase(c),
{
    c.is_lowercase()
}

/// `char::is_uppercase`; the contract names its answer
/// `char_is_uppercase(c)`, a Unicode table that is not written out here.
#[verifier::external_body]
fn is_uppercase(c: char) -> (r: bool)
    ensures
        r == char_is_uppercase(c),
{
    c.is_uppercase()
}

/// The file name extension of a locale: `.json`.
pub open spec fn json_extension() -> Seq<char> {
    seq!['.', 'j', 's', 'o', 'n']
}

/// A locale file is named `ll-CC.json`: ten characters, two lowercase
/// letters (the language), `-`, two uppercase letters (the country), and the
/// `.json` extension.
pub open spec fn is_locale_file_name(name: Seq<char>) -> bool {
    &&& name.len() == 10
    &&& name.subrange(5, 10) == json_extension()
    &&& char_is_lowercase(name[0])
    &&& char_is_lowercase(name[1])
    &&& name[2] == '-'
    &&& char_is_uppercase(name[3])
    &&& char_is_uppercase(name[4])
}

/// The locale named by a file name: its first five characters, where the
/// file name is that of a locale.
pub open spec fn locale_of_file_name(name: Seq<char>) -> Option<Seq<char>> {
    if is_locale_file_name(name) {
        Some(name.take(5))
    } else {
        None
    }
}

/// The locale named by the file name `file_name`, if it is the name of a
/// locale file.
pub fn locale_name_from_file_name(file_name: &str) -> (r: Option<String>)
    ensures
        match r {
            Some(s) => locale_of_file_name(file_name@) == Some(s@),
            None => locale_of_file_name(file_name@) is None,
        },
{
    let cs = chars_of(file_name);
    if cs.len() != 10 {
        return None;
    }
    if !(cs[5] == '.' && cs[6] == 'j' && cs[7] == 's' && cs[8] == 'o' && cs[9] == 'n') {
        assert(cs@.subrange(5, 10)[0] == cs@[5]);
        assert(cs@.subrange(5, 10)[1] == cs@[6]);
        assert(cs@.subrange(5, 10)[2] == cs@[7]);
        assert(cs@.subrange(5, 10)[3] == cs@[8]);
        assert(cs@.subrange(5, 10)[4] == cs@[9]);
        return None;
    }
    assert(cs@.subrange(5, 10) =~= json_extension());
    if !(is_lowercase(cs[0]) && is_lowercase(cs[1]) && cs[2] == '-' && is_uppercase(cs[3])
        && is_uppercase(cs[4])) {
        return None;
    }
    let name = string_from_chars(&cs.as_slice()[0..5]);
    assert(cs@.subrange(0, 5) =~= cs@.take(5));
    Some(name)
}

/// A locale found under a file name is read back from that same file: its
/// name followed by `.json` is the file name.
pub proof fn law_locale_names_its_file(file_name: Seq<char>)
    requires
        locale_of_file_name(file_name) is Some,
    ensures
        locale_of_file_name(file_name).unwrap() + json_extension() == file_name,
{
    assert(file_name.take(5) + file_name.subrange(5, 10) =~= file_name);
}

/// The views of a list of strings.
pub open spec fn texts(v: Seq<String>) -> Seq<Seq<char>> {
    v.map_values(|s: String| s@)
}

/// The locales named by a list of file names, in the order of the list.
pub open spec fn locales_of_file_names(names: Seq<Seq<char>>) -> Seq<Seq<char>>
    decreases names.len(),
{
    if names.len() == 0 {
        Seq::empty()
    } else {
        let rest = locales_of_file_names(names.drop_last());
        match locale_of_file_name(names.last()) {
            Some(l) => rest.push(l),
            None => rest,
        }
    }
}

/// A file name added after others adds its locale, if it names one, after
/// the locales of the others; any other name adds nothing.
pub proof fn law_locale_names_append(names: Seq<Seq<char>>, name: Seq<char>)
    ensures
        locale_of_file_name(name) matches Some(l) ==> locales_of_file_names(names.push(name))
            == locales_of_file_names(names).push(l),
        locale_of_file_name(name) is None ==> locales_of_file_names(names.push(name))
            == locales_of_file_names(names),
{
    assert(names.push(name).drop_last() =~= names);
}

/// Every locale file among the names yields its locale in the list.
pub proof fn law_every_locale_file_is_listed(names: Seq<Seq<char>>, i: int)
    requires
        0 <= i < names.len(),
        locale_of_file_name(names[i]) is Some,
    ensures
        locales_of_file_names(names).contains(locale_of_file_name(names[i]).unwrap()),
    decreases names.len(),
{
    let rest = locales_of_file_names(names.drop_last());
    if i == names.len() - 1 {
        let l = locale_of_file_name(names[i]).unwrap();
        assert(locales_of_file_names(names) == rest.push(l));
        assert(locales_of_file_names(names)[rest.len() as int] == l);
    } else {
        assert(names.drop_last()[i] == names[i]);
        law_every_locale_file_is_listed(names.drop_last(), i);
        let l = locale_of_file_name(names[i]).unwrap();
        let k = choose|k: int| 0 <= k < rest.len() && rest[k] == l;
        match locale_of_file_name(names.last()) {
            Some(m) => {
                assert(locales_of_file_names(names)[k] == l);
            },
            None => {},
        }
    }
}

/// Every locale listed is the locale of one of the file names.
pub proof fn law_listed_locales_come_from_files(names: Seq<Seq<char>>, j: int)
    requires
        0 <= j < locales_of_file_names(names).len(),
    ensures
        exists|i: int| 0 <= i < names.len() && locale_of_file_name(names[i]) == Some(
            locales_of_file_names(names)[j],
        ),
    decreases names.len(),
{
    let rest = locales_of_file_names(names.drop_last());
    if j < rest.len() {
        law_listed_locales_come_from_files(names.drop_last(), j);
        let i = choose|i: int| 0 <= i < names.drop_last().len() && locale_of_file_name(
            names.drop_last()[i],
        ) == Some(rest[j]);
        assert(names[i] == names.drop_last()[i]);
        match locale_of_file_name(names.last()) {
            Some(m) => assert(locales_of_file_names(names)[j] == rest[j]),
            None => {},
        }
    } else {
        let i = names.len() - 1;
        assert(locale_of_file_name(names[i]) == Some(locales_of_file_names(names)[j]));
    }
}

/// The list holds as many locales as there are locale file names.
pub proof fn law_one_locale_per_locale_file(names: Seq<Seq<char>>)
    ensures
        locales_of_file_names(names).len() == names.filter(
            |n: Seq<char>| locale_of_file_name(n) is Some,
        ).len(),
    decreases names.len(),
{
    reveal_with_fuel(Seq::<Seq<char>>::filter, 1);
    if names.len() > 0 {
        law_one_locale_per_locale_file(names.drop_last());
    }
}

/// The locales named by the file names `file_names`, in their order; the
/// names of other files are passed over.
pub fn locale_names(file_names: &Vec<String>) -> (r: Vec<String>)
    ensures
        texts(r@) == locales_of_file_names(texts(file_names@)),
{
    let mut out: Vec<String> = Vec::new();
    let mut i: usize = 0;
    while i < file_names.len()
        invariant
            0 <= i <= file_names@.len(),
            texts(out@) == locales_of_file_names(texts(file_names@).take(i as int)),
        decreases file_names@.len() - i,
    {
        let ghost before = out@;
        assert(texts(file_names@).take(i + 1).drop_last() =~= texts(file_names@).take(i as int));
        match locale_name_from_file_name(file_names[i].as_str()) {
            Some(l) => {
                out.push(l);
                assert(texts(out@) =~= texts(before).push(out@.last()@));
            },
            None => {},
        }
        i = i + 1;
    }
    assert(texts(file_names@).take(file_names@.len() as int) =~= texts(file_names@));
    out
}

/// Whether the text `name` is one of `names`.
pub fn contains_text(names: &Vec<String>, name: &String) -> (r: bool)
    ensures
        r == texts(names@).contains(name@),
{
    let mut i: usize = 0;
    while i < names.len()
        invariant
            0 <= i <= names@.len(),
            forall|j: int| 0 <= j < i ==> names@[j]@ != name@,
        decreases names@.len() - i,
    {
        if names[i] == *name {
            assert(texts(names@)[i as int] == name@);
            return true;
        }
        i = i + 1;
    }
    assert forall|j: int| 0 <= j < texts(names@).len() implies texts(names@)[j] != name@ by {
        assert(texts(names@)[j] == names@[j]@);
    }
    false
}


/// The keys of a list of pairs are pairwise distinct.
pub open spec fn keys_unique(e: Seq<(Seq<char>, Seq<char>)>) -> bool {
    forall|i: int, j: int| 0 <= i < j < e.len() ==> e[i].0 != e[j].0
}

/// The key `k` is one of the keys of `e`.
pub open spec fn has_key(e: Seq<(Seq<char>, Seq<char>)>, k: Seq<char>) -> bool {
    exists|i: int| 0 <= i < e.len() && e[i].0 == k
}

/// The position of the key `k` in `e`, where it is there.
pub open spec fn key_position(e: Seq<(Seq<char>, Seq<char>)>, k: Seq<char>) -> int {
    choose|i: int| 0 <= i < e.len() && e[i].0 == k
}

/// The value that `e` pairs with the key `k`.
pub open spec fn lookup(e: Seq<(Seq<char>, Seq<char>)>, k: Seq<char>) -> Option<Seq<char>> {
    if has_key(e, k) {
        Some(e[key_position(e, k)].1)
    } else {
        None
    }
}

/// `e` with the key `k` paired with `v`: the pair of `k` is replaced where
/// there is one, else the new pair comes last.
pub open spec fn insert_entry(e: Seq<(Seq<char>, Seq<char>)>, k: Seq<char>, v: Seq<char>) -> Seq<
    (Seq<char>, Seq<char>),
> {
    if has_key(e, k) {
        e.update(key_position(e, k), (k, v))
    } else {
        e.push((k, v))
    }
}

/// Where keys are distinct, the key at a position is found at that position.
proof fn lemma_key_at(e: Seq<(Seq<char>, Seq<char>)>, i: int)
    requires
        keys_unique(e),
        0 <= i < e.len(),
    ensures
        has_key(e, e[i].0),
        key_position(e, e[i].0) == i,
        lookup(e, e[i].0) == Some(e[i].1),
{
    let k = e[i].0;
    assert(has_key(e, k));
    let j = key_position(e, k);
    if j != i {
        if j < i {
            assert(e[j].0 != e[i].0);
        } else {
            assert(e[i].0 != e[j].0);
        }
    }
}

/// The catalogue of the locales found, each with the title of its language.
#[derive(Debug)]
pub struct LocaleTable {
    entries: Vec<(String, String)>,
}

impl LocaleTable {
    /// The pairs of locale and language title, in the order they were added.
    pub closed spec fn entries(&self) -> Seq<(Seq<char>, Seq<char>)> {
        self.entries@.map_values(|e: (String, String)| (e.0@, e.1@))
    }

    /// No locale is listed twice.
    #[verifier::type_invariant]
    spec fn wf(&self) -> bool {
        keys_unique(self.entries())
    }

    /// An empty catalogue.
    pub fn new() -> (r: LocaleTable)
        ensures
            r.entries() == Seq::<(Seq<char>, Seq<char>)>::empty(),
            keys_unique(r.entries()),
    {
        let r = LocaleTable { entries: Vec::new() };
        assert(r.entries() =~= Seq::<(Seq<char>, Seq<char>)>::empty());
        r
    }

    /// The number of locales listed.
    pub fn len(&self) -> (r: usize)
        ensures
            r == self.entries().len(),
    {
        self.entries.len()
    }

    /// Whether no locale is listed.
    pub fn is_empty(&self) -> (r: bool)
        ensures
            r == (self.entries().len() == 0),
    {
        self.entries.len() == 0
    }

    /// The position of `locale` in the catalogue.
    fn position(&self, locale: &String) -> (r: Option<usize>)
        ensures
            match r {
                Some(i) => i < self.entries().len() && self.entries()[i as int].0 == locale@
                    && has_key(self.entries(), locale@) && key_position(self.entries(), locale@)
                    == i,
                None => !has_key(self.entries(), locale@),
            },
    {
        proof {
            use_type_invariant(self);
        }
        let mut i: usize = 0;
        while i < self.entries.len()
            invariant
                0 <= i <= self.entries@.len(),
                self.entries().len() == self.entries@.len(),
                keys_unique(self.entries()),
                forall|j: int| 0 <= j < i ==> self.entries()[j].0 != locale@,
            decreases self.entries@.len() - i,
        {
            if self.entries[i].0 == *locale {
                proof {
                    lemma_key_at(self.entries(), i as int);
                }
                return Some(i);
            }
            i = i + 1;
        }
        None
    }

    /// The language title listed for `locale`.
    pub fn get(&self, locale: &String) -> (r: Option<&String>)
        ensures
            keys_unique(self.entries()),
            match r {
                Some(t) => lookup(self.entries(), locale@) == Some(t@),
                None => lookup(self.entries(), locale@) is None,
            },
    {
        proof {
            use_type_invariant(self);
        }
        match self.position(locale) {
            Some(i) => Some(&self.entries[i].1),
            None => None,
        }
    }

    /// Lists `locale` with the language title `title`, in place of the title
    /// it had.
    pub fn insert(&mut self, locale: String, title: String)
        ensures
            final(self).entries() == insert_entry(old(self).entries(), locale@, title@),
            keys_unique(final(self).entries()),
    {
        proof {
            use_type_invariant(&*self);
        }
        let ghost e = self.entries();
        proof {
            law_insert_keeps_keys_unique(e, locale@, title@);
        }
        let found = self.position(&locale);
        let mut entries: Vec<(String, String)> = Vec::new();
        std::mem::swap(&mut entries, &mut self.entries);
        let ghost k = locale@;
        let ghost v = title@;
        match found {
            Some(i) => {
                entries.set(i, (locale, title));
            },
            None => {
                entries.push((locale, title));
            },
        }
        let ghost f = entries@.map_values(|e: (String, String)| (e.0@, e.1@));
        assert(f =~= insert_entry(e, k, v));
        self.entries = entries;
    }

    /// One line per locale, in the order they were added: `(locale): title`.
    pub fn listing_lines(&self) -> (r: Vec<String>)
        ensures
            texts(r@) == self.entries().map_values(
                |e: (Seq<char>, Seq<char>)| listing_line(e.0, e.1),
            ),
    {
        let mut out: Vec<String> = Vec::new();
        let mut i: usize = 0;
        while i < self.entries.len()
            invariant
                0 <= i <= self.entries@.len(),
                self.entries().len() == self.entries@.len(),
                texts(out@) == self.entries().take(i as int).map_values(
                    |e: (Seq<char>, Seq<char>)| listing_line(e.0, e.1),
                ),
            decreases self.entries@.len() - i,
        {
            proof {
                reveal_strlit("(");
                reveal_strlit("): ");
            }
            let mut line = String::new();
            line.append("(");
            line.append(self.entries[i].0.as_str());
            line.append("): ");
            line.append(self.entries[i].1.as_str());
            assert(line@ =~= listing_line(self.entries()[i as int].0, self.entries()[i as int].1));
            let ghost before = out@;
            let ghost l = line@;
            out.push(line);
            i = i + 1;
            proof {
                let m = self.entries().take(i as int).map_values(
                    |e: (Seq<char>, Seq<char>)| listing_line(e.0, e.1),
                );
                let m0 = self.entries().take(i - 1).map_values(
                    |e: (Seq<char>, Seq<char>)| listing_line(e.0, e.1),
                );
                assert(texts(out@) =~= texts(before).push(l));
                assert(m =~= m0.push(l));
            }
        }
        assert(self.entries().take(self.entries().len() as int) =~= self.entries());
        out
    }
}

/// The line that lists a locale: `(locale): title`.
pub open spec fn listing_line(locale: Seq<char>, title: Seq<char>) -> Seq<char> {
    seq!['('] + locale + seq![')', ':', ' '] + title
}

/// After `locale` is listed with `title`, the catalogue gives `title` for it.
pub proof fn law_lookup_after_insert(
    e: Seq<(Seq<char>, Seq<char>)>,
    locale: Seq<char>,
    title: Seq<char>,
)
    requires
        keys_unique(e),
    ensures
        lookup(insert_entry(e, locale, title), locale) == Some(title),
{
    law_insert_keeps_keys_unique(e, locale, title);
    let f = insert_entry(e, locale, title);
    if has_key(e, locale) {
        let i = key_position(e, locale);
        lemma_key_at(f, i);
    } else {
        lemma_key_at(f, e.len() as int);
    }
}

/// Listing one locale leaves what the catalogue gives for every other locale.
pub proof fn law_lookup_other_after_insert(
    e: Seq<(Seq<char>, Seq<char>)>,
    locale: Seq<char>,
    title: Seq<char>,
    other: Seq<char>,
)
    requires
        keys_unique(e),
        other != locale,
    ensures
        lookup(insert_entry(e, locale, title), other) == lookup(e, other),
{
    law_insert_keeps_keys_unique(e, locale, title);
    let f = insert_entry(e, locale, title);
    if has_key(e, other) {
        let i = key_position(e, other);
        lemma_key_at(e, i);
        assert(f[i] == e[i]);
        lemma_key_at(f, i);
    } else {
        assert(!has_key(f, other)) by {
            if has_key(f, other) {
                let j = key_position(f, other);
                assert(f[j].0 == other);
                assert(j < e.len() && f[j] == e[j]);
            }
        }
    }
}

/// Listing a locale never lists a locale twice.
pub proof fn law_insert_keeps_keys_unique(
    e: Seq<(Seq<char>, Seq<char>)>,
    locale: Seq<char>,
    title: Seq<char>,
)
    requires
        keys_unique(e),
    ensures
        keys_unique(insert_entry(e, locale, title)),
        insert_entry(e, locale, title).len() == e.len() + if has_key(e, locale) {
            0int
        } else {
            1int
        },
{
    let f = insert_entry(e, locale, title);
    if has_key(e, locale) {
        let p = key_position(e, locale);
        assert forall|i: int, j: int| 0 <= i < j < f.len() implies f[i].0 != f[j].0 by {
            if i == p {
                assert(e[p].0 != e[j].0);
            } else if j == p {
                assert(e[i].0 != e[p].0);
            } else {
                assert(e[i].0 != e[j].0);
            }
        }
    } else {
        assert forall|i: int, j: int| 0 <= i < j < f.len() implies f[i].0 != f[j].0 by {
            if j == e.len() {
                assert(e[i].0 != locale);
            } else {
                assert(e[i].0 != e[j].0);
            }
        }
    }
}


/// What the user's answer to the locale prompt asks for.
#[derive(Debug, PartialEq, Eq)]
pub enum LocaleChoice {
    /// `q`: leave the game.
    Quit,
    /// A locale of the catalogue.
    Chosen(String),
    /// Anything else.
    Unknown,
}

/// Reads the user's answer to the locale prompt: leading and trailing white
/// space do not count; `q` quits, a listed locale is chosen.
pub fn choose_locale(table: &LocaleTable, user_input: &str) -> (r: LocaleChoice)
    ensures
        match r {
            LocaleChoice::Quit => trim_spec(user_input@) == seq!['q'],
            LocaleChoice::Chosen(s) => trim_spec(user_input@) != seq!['q'] && s@ == trim_spec(
                user_input@,
            ) && lookup(table.entries(), s@) is Some,
            LocaleChoice::Unknown => trim_spec(user_input@) != seq!['q'] && lookup(
                table.entries(),
                trim_spec(user_input@),
            ) is None,
        },
{
    let t = trim(user_input);
    let cs = chars_of(t);
    if cs.len() == 1 && cs[0] == 'q' {
        assert(cs@ =~= seq!['q']);
        return LocaleChoice::Quit;
    }
    assert(cs@ != seq!['q']) by {
        if cs@ == seq!['q'] {
            assert(cs@.len() == 1 && cs@[0] == 'q');
        }
    }
    let name = t.to_owned();
    match table.get(&name) {
        Some(_) => LocaleChoice::Chosen(name),
        None => LocaleChoice::Unknown,
    }
}

/// Why the title of a locale could not be read.
#[derive(Debug, PartialEq, Eq)]
pub enum LocaleTitleError {
    /// The file's comments could not be stripped (an unfinished comment or
    /// string).
    Unreadable,
    /// The stripped file is not JSON.
    Json(JsonErrorCategory),
}

/// Adds the locale `locale`, whose JSON file holds `json_text`, to the
/// catalogue when the file gives its language title (`lang_title_of`): the
/// string member `lang_title`, rendered as a JSON string. A file whose
/// comments cannot be stripped is unreadable; one that is not JSON is
/// reported with the category of its error.
pub fn add_locale_title(table: &mut LocaleTable, locale: &String, json_text: &str) -> (r: Result<
    (),
    LocaleTitleError,
>)
    ensures
        comments_stripped(json_text.spec_bytes()).1 ==> (r matches Err(LocaleTitleError::Unreadable)
            && final(table).entries() == old(table).entries()),
        !comments_stripped(json_text.spec_bytes()).1 ==> match json_document(
            comments_stripped(json_text.spec_bytes()).0,
        ) {
            Err(c) => r matches Err(LocaleTitleError::Json(e)) && e == c
                && final(table).entries() == old(table).entries(),
            Ok(d) => r is Ok && final(table).entries() == match lang_title_of(d) {
                Some(t) => insert_entry(old(table).entries(), locale@, t),
                None => old(table).entries(),
            },
        },
{
    let (stripped, failed) = strip_json_comments(json_text);
    if failed {
        return Err(LocaleTitleError::Unreadable);
    }
    let doc = match parse_json_bytes(stripped.as_slice()) {
        Ok(d) => d,
        Err(c) => {
            return Err(LocaleTitleError::Json(c));
        },
    };
    match lang_title(&doc) {
        Some(title) => {
            table.insert(locale.clone(), title);
        },
        None => {},
    }
    Ok(())
}

/// The path of the JSON file of `locale` in the directory `dir`:
/// `dir/locale.json`.
pub fn locale_file_path(dir: &str, locale: &str) -> (r: String)
    ensures
        r@ == dir@ + seq!['/'] + locale@ + json_extension(),
{
    proof {
        reveal_strlit("/");
        reveal_strlit(".json");
    }
    let mut s = String::from_str(dir);
    s.append("/");
    s.append(locale);
    s.append(".json");
    assert(s@ =~= dir@ + seq!['/'] + locale@ + json_extension());
    s
}

/// The report printed when the JSON file of the locale `locale` cannot be
/// read.
pub open spec fn locale_error_text(c: JsonErrorCategory, locale: Seq<char>) -> Seq<char> {
    match c {
        JsonErrorCategory::Io => "Couldn't read bytes due to an IO error. This error shouldn't occur normally, and if it keeps occuring, report it at https://github.com/Oakchris1955/rust-guessing-game/issues "@,
        JsonErrorCategory::Syntax => "There was an error in the syntax of "@ + locale + " locale. Exiting..."@,
        JsonErrorCategory::Data => "There was an error embedding the extracted struct into the Localization struct because a field's values didn't match each other. Exiting..."@,
        JsonErrorCategory::Eof => "Reached the end of the file while still waiting for more data. Exiting..."@,
    }
}

/// The report printed when the JSON file of the locale `locale` cannot be
/// read.
pub fn locale_error_message(c: JsonErrorCategory, locale: &str) -> (r: String)
    ensures
        r@ == locale_error_text(c, locale@),
{
    match c {
        JsonErrorCategory::Io => String::from_str("Couldn't read bytes due to an IO error. This error shouldn't occur normally, and if it keeps occuring, report it at https://github.com/Oakchris1955/rust-guessing-game/issues "),
        JsonErrorCategory::Syntax => {
            let mut s = String::from_str("There was an error in the syntax of ");
            s.append(locale);
            s.append(" locale. Exiting...");
            s
        },
        JsonErrorCategory::Data => String::from_str("There was an error embedding the extracted struct into the Localization struct because a field's values didn't match each other. Exiting..."),
        JsonErrorCategory::Eof => String::from_str("Reached the end of the file while still waiting for more data. Exiting..."),
    }
}

} // verus!
