//! The commands a player may type in place of a guess: `quit`, `reset` and
//! `help`, with the names they answer to and what running each one does.
use vstd::prelude::*;
use crate::locales::{format_once, format_once_spec, texts, FormatError, Localization};
use crate::text::{decimal, same_text, trim, trim_spec, u32_to_decimal};

verus! {

/// What a command does.
#[derive(Clone, Copy, Debug, PartialEq, Eq)]
pub enum CommandKind {
    /// Reveals the secret number and leaves the game.
    Quit,
    /// Removes the saved configuration and leaves the game.
    Reset,
    /// Lists the commands.
    Help,
}

/// A command: its name, the other names it answers to, what it does and the
/// description shown by `help`.
#[derive(Debug)]
pub struct Command {
    pub name: &'static str,
    pub aliases: Vec<&'static str>,
    pub kind: CommandKind,
    pub description: String,
}

/// The views of a list of string slices.
pub open spec fn str_texts(v: Seq<&str>) -> Seq<Seq<char>> {
    v.map_values(|s: &str| s@)
}

impl Command {
    /// Every name the command answers to: its aliases, then its name.
    pub open spec fn names(&self) -> Seq<Seq<char>> {
        str_texts(self.aliases@).push(self.name@)
    }

    /// Every name the command answers to: its aliases, then its name.
    pub fn get_names(&self) -> (r: Vec<&str>)
        ensures
            r@ == self.aliases@.push(self.name),
            str_texts(r@) == self.names(),
    {
        let mut v: Vec<&str> = Vec::new();
        let mut i: usize = 0;
        while i < self.aliases.len()
            invariant
                0 <= i <= self.aliases@.len(),
                v@ == self.aliases@.take(i as int),
            decreases self.aliases@.len() - i,
        {
            v.push(self.aliases[i]);
            i = i + 1;
            assert(v@ =~= self.aliases@.take(i as int));
        }
        assert(self.aliases@.take(self.aliases@.len() as int) =~= self.aliases@);
        v.push(self.name);
        assert(str_texts(v@) =~= str_texts(self.aliases@).push(self.name@));
        v
    }
}

/// The command names of the game.
pub open spec fn quit_name() -> Seq<char> {
    seq!['q', 'u', 'i', 't']
}

pub open spec fn quit_alias() -> Seq<char> {
    seq!['q']
}

pub open spec fn reset_name() -> Seq<char> {
    seq!['r', 'e', 's', 'e', 't']
}

pub open spec fn reset_alias() -> Seq<char> {
    seq!['r']
}

pub open spec fn help_name() -> Seq<char> {
    seq!['h', 'e', 'l', 'p']
}

/// The commands of the game, in the order `help` lists them: `quit` (alias
/// `q`), `reset` (alias `r`) and `help`, with the descriptions of `locale`.
pub open spec fn commands_are_those_of(cmds: Seq<Command>, locale: &Localization) -> bool {
    &&& cmds.len() == 3
    &&& cmds[0].name@ == quit_name() && str_texts(cmds[0].aliases@) == seq![quit_alias()]
        && cmds[0].kind == CommandKind::Quit
        && cmds[0].description@ == locale.commands.descriptions.quit@
    &&& cmds[1].name@ == reset_name() && str_texts(cmds[1].aliases@) == seq![reset_alias()]
        && cmds[1].kind == CommandKind::Reset
        && cmds[1].description@ == locale.commands.descriptions.reset@
    &&& cmds[2].name@ == help_name() && cmds[2].aliases@.len() == 0
        && cmds[2].kind == CommandKind::Help
        && cmds[2].description@ == locale.commands.descriptions.help@
}

/// The commands of the game, described in the language of `locale`.
pub fn get_user_commands(locale: &Localization) -> (r: Vec<Command>)
    ensures
        commands_are_those_of(r@, locale),
{
    proof {
        reveal_strlit("quit");
        reveal_strlit("q");
        reveal_strlit("reset");
        reveal_strlit("r");
        reveal_strlit("help");
        assert("quit"@ =~= quit_name());
        assert("q"@ =~= quit_alias());
        assert("reset"@ =~= reset_name());
        assert("r"@ =~= reset_alias());
        assert("help"@ =~= help_name());
    }
    let mut quit_aliases: Vec<&'static str> = Vec::new();
    quit_aliases.push("q");
    let mut reset_aliases: Vec<&'static str> = Vec::new();
    reset_aliases.push("r");
    let mut commands: Vec<Command> = Vec::new();
    commands.push(
        Command {
            name: "quit",
            aliases: quit_aliases,
            kind: CommandKind::Quit,
            description: locale.commands.descriptions.quit.clone(),
        },
    );
    commands.push(
        Command {
            name: "reset",
            aliases: reset_aliases,
            kind: CommandKind::Reset,
            description: locale.commands.descriptions.reset.clone(),
        },
    );
    commands.push(
        Command {
            name: "help",
            aliases: Vec::new(),
            kind: CommandKind::Help,
            description: locale.commands.descriptions.help.clone(),
        },
    );
    assert(commands@[0].aliases@ =~= seq!["q"]);
    assert(str_texts(commands@[0].aliases@) =~= seq![quit_alias()]);
    assert(commands@[1].aliases@ =~= seq!["r"]);
    assert(str_texts(commands@[1].aliases@) =~= seq![reset_alias()]);
    commands
}


/// The parts joined into one text, with `sep` between each two.
pub open spec fn join_texts(parts: Seq<Seq<char>>, sep: Seq<char>) -> Seq<char>
    decreases parts.len(),
{
    if parts.len() == 0 {
        Seq::empty()
    } else if parts.len() == 1 {
        parts[0]
    } else {
        join_texts(parts.drop_last(), sep) + sep + parts.last()
    }
}

/// The line `help` prints for a command: `name - description`, or
/// `name (alias, alias) - description` where it has aliases.
pub open spec fn help_line(name: Seq<char>, aliases: Seq<Seq<char>>, description: Seq<char>) -> Seq<
    char,
> {
    if aliases.len() == 0 {
        name + seq![' ', '-', ' '] + description
    } else {
        name + seq![' ', '('] + join_texts(aliases, seq![',', ' ']) + seq![')', ' ', '-', ' ']
            + description
    }
}

/// The line `help` prints for `cmd`.
pub fn command_help_line(cmd: &Command) -> (r: String)
    ensures
        r@ == help_line(cmd.name@, str_texts(cmd.aliases@), cmd.description@),
{
    proof {
        reveal_strlit(" - ");
        reveal_strlit(" (");
        reveal_strlit(", ");
        reveal_strlit(") - ");
        assert(" - "@ =~= seq![' ', '-', ' ']);
        assert(" ("@ =~= seq![' ', '(']);
        assert(", "@ =~= seq![',', ' ']);
        assert(") - "@ =~= seq![')', ' ', '-', ' ']);
    }
    let mut line = String::from_str(cmd.name);
    if cmd.aliases.len() == 0 {
        line.append(" - ");
        line.append(cmd.description.as_str());
        return line;
    }
    line.append(" (");
    let ghost start = line@;
    let ghost al = str_texts(cmd.aliases@);
    let mut i: usize = 0;
    while i < cmd.aliases.len()
        invariant
            0 <= i <= cmd.aliases@.len(),
            al == str_texts(cmd.aliases@),
            ", "@ == seq![',', ' '],
            line@ == start + join_texts(al.take(i as int), seq![',', ' ']),
        decreases cmd.aliases@.len() - i,
    {
        let ghost before = line@;
        if i > 0 {
            line.append(", ");
        }
        line.append(cmd.aliases[i]);
        i = i + 1;
        proof {
            let t = al.take(i as int);
            assert(t.drop_last() =~= al.take(i - 1));
            assert(t.last() == cmd.aliases@[i - 1]@);
            if i == 1 {
                assert(join_texts(al.take(0), seq![',', ' ']) =~= Seq::<char>::empty());
                assert(line@ =~= start + join_texts(t, seq![',', ' ']));
            } else {
                assert(line@ =~= start + join_texts(t, seq![',', ' ']));
            }
        }
    }
    assert(al.take(cmd.aliases@.len() as int) =~= al);
    line.append(") - ");
    line.append(cmd.description.as_str());
    line
}

/// The lines `help` prints for `commands`, one per command.
pub fn help_lines(commands: &Vec<Command>) -> (r: Vec<String>)
    ensures
        texts(r@) == commands@.map_values(
            |c: Command| help_line(c.name@, str_texts(c.aliases@), c.description@),
        ),
{
    let mut out: Vec<String> = Vec::new();
    let mut i: usize = 0;
    while i < commands.len()
        invariant
            0 <= i <= commands@.len(),
            texts(out@) == commands@.take(i as int).map_values(
                |c: Command| help_line(c.name@, str_texts(c.aliases@), c.description@),
            ),
        decreases commands@.len() - i,
    {
        let ghost before = out@;
        let line = command_help_line(&commands[i]);
        let ghost l = line@;
        out.push(line);
        i = i + 1;
        proof {
            assert(texts(out@) =~= texts(before).push(l));
            assert(commands@.take(i as int).map_values(
                |c: Command| help_line(c.name@, str_texts(c.aliases@), c.description@),
            ) =~= commands@.take(i - 1).map_values(
                |c: Command| help_line(c.name@, str_texts(c.aliases@), c.description@),
            ).push(l));
        }
    }
    assert(commands@.take(commands@.len() as int) =~= commands@);
    out
}

/// The lines `help` prints, in the language of `locale`.
pub open spec fn help_text(locale: &Localization) -> Seq<Seq<char>> {
    seq![
        help_line(quit_name(), seq![quit_alias()], locale.commands.descriptions.quit@),
        help_line(reset_name(), seq![reset_alias()], locale.commands.descriptions.reset@),
        help_line(help_name(), Seq::empty(), locale.commands.descriptions.help@),
    ]
}

/// The command that a (trimmed) input names, if any.
pub open spec fn command_for_input(t: Seq<char>) -> Option<CommandKind> {
    if t == quit_alias() || t == quit_name() {
        Some(CommandKind::Quit)
    } else if t == reset_alias() || t == reset_name() {
        Some(CommandKind::Reset)
    } else if t == help_name() {
        Some(CommandKind::Help)
    } else {
        None
    }
}

/// Every name that a command of the game answers to selects that command,
/// and no other.
pub proof fn law_names_select_their_command(cmds: Seq<Command>, locale: &Localization, i: int, j: int)
    requires
        commands_are_those_of(cmds, locale),
        0 <= i < cmds.len(),
        0 <= j < cmds[i].names().len(),
    ensures
        command_for_input(cmds[i].names()[j]) == Some(cmds[i].kind),
{
    assert(cmds[0].names() =~= seq![quit_alias(), quit_name()]);
    assert(cmds[1].names() =~= seq![reset_alias(), reset_name()]);
    assert(cmds[2].names() =~= seq![help_name()]);
    assert(reset_alias() != quit_alias() && reset_alias() != quit_name()) by {
        assert(reset_alias()[0] != quit_alias()[0]);
        assert(reset_alias().len() != quit_name().len());
    }
    assert(reset_name() != quit_alias() && reset_name() != quit_name()) by {
        assert(reset_name().len() != quit_alias().len());
        assert(reset_name().len() != quit_name().len());
    }
    assert(help_name() != quit_alias() && help_name() != quit_name()) by {
        assert(help_name().len() != quit_alias().len());
        assert(help_name()[0] != quit_name()[0]);
    }
    assert(help_name() != reset_alias() && help_name() != reset_name()) by {
        assert(help_name().len() != reset_alias().len());
        assert(help_name().len() != reset_name().len());
    }
}

/// What running a command asks of the program.
#[derive(Debug, PartialEq, Eq)]
pub enum CommandAction {
    /// Print these lines; the game goes on.
    Help(Vec<String>),
    /// Print this message (or report the template that could not be filled)
    /// and leave the game.
    Quit(Result<String, FormatError>),
    /// Remove the saved configuration, print the locale's reset text and leave
    /// the game.
    Reset,
}

/// What running the command named by `raw_input` gives: nothing where it
/// names no command; for `quit`, the locale's exit message filled with the
/// secret number; for `reset`, the reset; for `help`, the help lines.
pub open spec fn command_outcome(
    r: Option<CommandAction>,
    raw_input: Seq<char>,
    locale: &Localization,
    secret_number: u32,
) -> bool {
    match command_for_input(trim_spec(raw_input)) {
        None => r is None,
        Some(CommandKind::Quit) => r matches Some(CommandAction::Quit(res)) && match res {
            Ok(m) => format_once_spec(
                locale.messages.info_messages.user_exit@,
                decimal(secret_number as nat),
            ) == Some(m@),
            Err(e) => format_once_spec(
                locale.messages.info_messages.user_exit@,
                decimal(secret_number as nat),
            ) is None && e.template@ == locale.messages.info_messages.user_exit@,
        },
        Some(CommandKind::Reset) => r matches Some(CommandAction::Reset),
        Some(CommandKind::Help) => r matches Some(CommandAction::Help(lines)) && texts(lines@)
            == help_text(locale),
    }
}

/// Whether one of `names` is the text `t`.
fn names_contain(names: &Vec<&str>, t: &str) -> (r: bool)
    ensures
        r == str_texts(names@).contains(t@),
{
    let mut i: usize = 0;
    while i < names.len()
        invariant
            0 <= i <= names@.len(),
            forall|j: int| 0 <= j < i ==> names@[j]@ != t@,
        decreases names@.len() - i,
    {
        if same_text(names[i], t) {
            assert(str_texts(names@)[i as int] == t@);
            return true;
        }
        i = i + 1;
    }
    assert forall|j: int| 0 <= j < str_texts(names@).len() implies str_texts(names@)[j] != t@ by {
        assert(str_texts(names@)[j] == names@[j]@);
    }
    false
}

/// Runs the command that `raw_input` names, once trimmed, if it names one:
/// `q` or `quit`, `r` or `reset`, `help`. `None` where it names none.
pub fn execute_command(raw_input: &str, locale: &Localization, secret_number: u32) -> (r: Option<
    CommandAction,
>)
    ensures
        command_outcome(r, raw_input@, locale, secret_number),
{
    let commands = get_user_commands(locale);
    let input = trim(raw_input);
    let ghost t = input@;
    let mut i: usize = 0;
    while i < commands.len()
        invariant
            0 <= i <= commands@.len(),
            commands_are_those_of(commands@, locale),
            input@ == t,
            t == trim_spec(raw_input@),
            forall|j: int| 0 <= j < i ==> !(#[trigger] commands@[j].names()).contains(t),
        decreases commands@.len() - i,
    {
        let names = commands[i].get_names();
        if names_contain(&names, input) {
            proof {
                let n = commands@[i as int].names();
                assert(n.contains(t));
                if i == 0 {
                    assert(n =~= seq![quit_alias(), quit_name()]);
                } else if i == 1 {
                    assert(n =~= seq![reset_alias(), reset_name()]);
                    assert(commands@[0].names() =~= seq![quit_alias(), quit_name()]);
                    assert(commands@[0].names()[0] == quit_alias());
                    assert(commands@[0].names()[1] == quit_name());
                } else {
                    assert(n =~= seq![help_name()]);
                    assert(commands@[0].names() =~= seq![quit_alias(), quit_name()]);
                    assert(commands@[0].names()[0] == quit_alias());
                    assert(commands@[0].names()[1] == quit_name());
                    assert(commands@[1].names() =~= seq![reset_alias(), reset_name()]);
                    assert(commands@[1].names()[0] == reset_alias());
                    assert(commands@[1].names()[1] == reset_name());
                }
            }
            return match commands[i].kind {
                CommandKind::Quit => {
                    let number = u32_to_decimal(secret_number);
                    Some(
                        CommandAction::Quit(
                            format_once(
                                locale.messages.info_messages.user_exit.as_str(),
                                number.as_str(),
                            ),
                        ),
                    )
                },
                CommandKind::Reset => Some(CommandAction::Reset),
                CommandKind::Help => {
                    let lines = help_lines(&commands);
                    proof {
                        assert(commands@.map_values(
                            |c: Command| help_line(c.name@, str_texts(c.aliases@), c.description@),
                        ) =~= help_text(locale));
                    }
                    Some(CommandAction::Help(lines))
                },
            };
        }
        i = i + 1;
    }
    proof {
        assert(commands@[0].names() =~= seq![quit_alias(), quit_name()]);
        assert(commands@[1].names() =~= seq![reset_alias(), reset_name()]);
        assert(commands@[2].names() =~= seq![help_name()]);
        assert(!commands@[0].names().contains(t));
        assert(!commands@[1].names().contains(t));
        assert(!commands@[2].names().contains(t));
        assert(commands@[0].names()[0] == quit_alias());
        assert(commands@[0].names()[1] == quit_name());
        assert(commands@[1].names()[0] == reset_alias());
        assert(commands@[1].names()[1] == reset_name());
        assert(commands@[2].names()[0] == help_name());
    }
    None
}


/// The paths that `reset` removes: the entries found, in their order, except
/// the excluded ones and the empty ones (entries whose path could not be
/// read as text).
pub open spec fn reset_targets(entries: Seq<Seq<char>>, excluded: Seq<Seq<char>>) -> Seq<Seq<char>>
    decreases entries.len(),
{
    if entries.len() == 0 {
        Seq::empty()
    } else {
        let rest = reset_targets(entries.drop_last(), excluded);
        let e = entries.last();
        if e.len() > 0 && !excluded.contains(e) {
            rest.push(e)
        } else {
            rest
        }
    }
}

/// The paths that `reset` removes among `entries`.
pub fn files_to_remove(entries: &Vec<String>, excluded: &Vec<String>) -> (r: Vec<String>)
    ensures
        texts(r@) == reset_targets(texts(entries@), texts(excluded@)),
{
    let mut out: Vec<String> = Vec::new();
    let mut i: usize = 0;
    while i < entries.len()
        invariant
            0 <= i <= entries@.len(),
            texts(out@) == reset_targets(texts(entries@).take(i as int), texts(excluded@)),
        decreases entries@.len() - i,
    {
        let ghost before = out@;
        assert(texts(entries@).take(i + 1).drop_last() =~= texts(entries@).take(i as int));
        assert(texts(entries@).take(i + 1).last() == entries@[i as int]@);
        let e = &entries[i];
        if e.as_str().unicode_len() > 0 && !crate::locales::contains_text(excluded, e) {
            out.push(e.clone());
            assert(texts(out@) =~= texts(before).push(entries@[i as int]@));
        }
        i = i + 1;
    }
    assert(texts(entries@).take(entries@.len() as int) =~= texts(entries@));
    out
}

} // verus!
