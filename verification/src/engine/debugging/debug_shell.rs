use std::num::ParseIntError;
use std::time::Duration;
use clap::{App, AppSettings, Arg};
use vstd::prelude::*;
use vstd::string::StringExecFns;
use crate::ecs::assembly::Assembly;
use crate::ecs::loop_stage::LoopStageFlag;
use crate::ecs::system::{DispatchEvents, SystemTrait};
use crate::engine::event::{EngineEvent, EngineEventFlag};

verus! {

#[verifier::external_type_specification]
#[verifier::external_body]
pub struct ExParseIntError(ParseIntError);

/// The errors that the shell reports for a command line.
#[derive(Debug)]
pub enum DebugShellError {
    /// The command name is neither a builtin nor a registered command.
    CommandNotFound(String),
    /// The argument (second field) required by the command (first field) is missing.
    MissingArgument(String, String),
    /// A numeric argument could not be parsed.
    ParseError(ParseIntError),
}

impl From<ParseIntError> for DebugShellError {
    fn from(value: ParseIntError) -> (r: Self) {
        DebugShellError::ParseError(value)
    }
}

impl vstd::std_specs::convert::FromSpecImpl<ParseIntError> for DebugShellError {
    open spec fn obeys_from_spec() -> bool {
        true
    }

    open spec fn from_spec(value: ParseIntError) -> DebugShellError {
        DebugShellError::ParseError(value)
    }
}

/// What a command produces: an event to send to the bus, if any, or an error.
pub type ShellResult = Result<Option<EngineEvent>, DebugShellError>;

/// Represents a basic shell command.
pub trait CustomCommand {
    /// Executes the command given a set of command line arguments. The first argument refers to
    /// the command name.
    fn run(&self, args: &[String]) -> ShellResult;
}

/// The text that the `help` builtin prints.
pub const HELP_TEXT: &'static str = "For more information on a specific command, type COMMAND-NAME --help.\nhelp\tPrints this message.\nreload-shaders\tReloads all OpenGl shaders in use by the engine.\nspeech-bubble\tSends a speech bubble event.\nexit\tShuts down the engine.";

/// The value of a decimal digit character, or `None` for any other character.
pub open spec fn digit_value(c: char) -> Option<nat> {
    if '0' <= c && c <= '9' {
        Some((c as nat - '0' as nat) as nat)
    } else {
        None
    }
}

/// The number written by a sequence of decimal digits, or `None` if some character is not a
/// digit.
pub open spec fn digits_value(d: Seq<char>) -> Option<nat>
    decreases d.len(),
{
    if d.len() == 0 {
        Some(0)
    } else {
        match (digits_value(d.drop_last()), digit_value(d.last())) {
            (Some(v), Some(x)) => Some(v * 10 + x),
            _ => None,
        }
    }
}

/// What parsing a decimal `u64` accepts: an optional `+` followed by at least one digit, with a
/// value that fits; `None` for every other text.
pub open spec fn decimal_u64(s: Seq<char>) -> Option<u64> {
    let d = if s.len() > 0 && s[0] == '+' {
        s.drop_first()
    } else {
        s
    };
    if d.len() == 0 {
        None
    } else {
        match digits_value(d) {
            Some(v) => if v <= u64::MAX {
                Some(v as u64)
            } else {
                None
            },
            None => None,
        }
    }
}

/// Calls `str::parse::<u64>`: succeeds exactly on an optional `+` followed by decimal digits whose
/// value fits in a `u64` (as the documentation of `u64::from_str_radix` describes), with that
/// value. Which kind of `ParseIntError` a failure carries is not stated.
#[verifier::external_body]
fn parse_u64(s: &str) -> (r: Result<u64, ParseIntError>)
    ensures
        r is Ok <==> decimal_u64(s@) is Some,
        r matches Ok(v) ==> decimal_u64(s@) == Some(v),
{
    s.parse::<u64>()
}

/// Calls `ParseIntError::to_string`; the text is not stated.
#[verifier::external_body]
fn parse_error_message(e: &ParseIntError) -> String {
    e.to_string()
}

/// The views of a sequence of strings.
pub open spec fn views(args: Seq<String>) -> Seq<Seq<char>> {
    args.map_values(|s: String| s@)
}

/// The view of an optional string.
pub open spec fn option_view(s: Option<String>) -> Option<Seq<char>> {
    match s {
        Some(t) => Some(t@),
        None => None,
    }
}

/// An option of a command line grammar: it takes a value, is written `-short` or `--long`, and
/// has a default value and a help text.
pub struct OptionGrammar {
    pub name: String,
    pub short: String,
    pub long: String,
    pub default_value: String,
    pub help: String,
}

/// A positional argument of a command line grammar, with its help text.
pub struct PositionalGrammar {
    pub name: String,
    pub help: String,
}

/// The grammar of a command line: the command's name and description, its options and its
/// positional arguments, in order.
pub struct CommandGrammar {
    pub name: String,
    pub about: String,
    pub options: Vec<OptionGrammar>,
    pub positionals: Vec<PositionalGrammar>,
}

/// The view of an option: name, short form, long form, default value, help text.
pub open spec fn option_grammar_view(o: OptionGrammar) -> (Seq<char>, Seq<char>, Seq<char>, Seq<char>, Seq<char>) {
    (o.name@, o.short@, o.long@, o.default_value@, o.help@)
}

/// The view of a positional argument: name, help text.
pub open spec fn positional_grammar_view(p: PositionalGrammar) -> (Seq<char>, Seq<char>) {
    (p.name@, p.help@)
}

/// The view of a grammar: name, description, options, positional arguments.
pub open spec fn grammar_view(g: CommandGrammar) -> (
    Seq<char>,
    Seq<char>,
    Seq<(Seq<char>, Seq<char>, Seq<char>, Seq<char>, Seq<char>)>,
    Seq<(Seq<char>, Seq<char>)>,
) {
    (
        g.name@,
        g.about@,
        g.options@.map_values(|o: OptionGrammar| option_grammar_view(o)),
        g.positionals@.map_values(|p: PositionalGrammar| positional_grammar_view(p)),
    )
}

/// The values that `clap` finds on the command line `args` (the command name first) under the
/// grammar: one per option, then one per positional argument; `None` where it rejects the
/// command line.
pub uninterp spec fn command_matches(
    grammar: (
        Seq<char>,
        Seq<char>,
        Seq<(Seq<char>, Seq<char>, Seq<char>, Seq<char>, Seq<char>)>,
        Seq<(Seq<char>, Seq<char>)>,
    ),
    args: Seq<Seq<char>>,
) -> Option<Seq<Option<Seq<char>>>>;

/// The views of a sequence of optional strings.
pub open spec fn option_views(values: Seq<Option<String>>) -> Seq<Option<Seq<char>>> {
    values.map_values(|v: Option<String>| option_view(v))
}

/// `true` if `clap` accepts the grammar without failing one of its assertions: the argument
/// names are distinct, and each option's short form is one character other than `-`, its long
/// form is not empty and does not start with `-`, and no two options share a short or a long
/// form.
pub open spec fn grammar_well_formed(
    g: (
        Seq<char>,
        Seq<char>,
        Seq<(Seq<char>, Seq<char>, Seq<char>, Seq<char>, Seq<char>)>,
        Seq<(Seq<char>, Seq<char>)>,
    ),
) -> bool {
    &&& (g.2.map_values(|o: (Seq<char>, Seq<char>, Seq<char>, Seq<char>, Seq<char>)| o.0) + g.3.map_values(
        |p: (Seq<char>, Seq<char>)| p.0,
    )).no_duplicates()
    &&& forall|i: int|
        0 <= i < g.2.len() ==> (#[trigger] g.2[i]).1.len() == 1 && g.2[i].1[0] != '-' && g.2[i].2.len() > 0
            && g.2[i].2[0] != '-'
    &&& forall|i: int, j: int| 0 <= i < j < g.2.len() ==> (#[trigger] g.2[i]).1 != (#[trigger] g.2[j]).1 && g.2[i].2 != g.2[j].2
}

/// Builds the `clap` `App` for the grammar (with the version flag disabled) and calls
/// `App::get_matches_from_safe` on the command line: the values of the options (their default
/// where absent) and of the positional arguments, in the grammar's order, or the parser's
/// message where it rejects the arguments (also for `--help`). The message is not stated.
#[verifier::external_body]
fn match_command(g: &CommandGrammar, names: &[String], args: &[String]) -> (r: Result<Vec<Option<String>>, String>)
    requires
        views(names@) == grammar_names(*g),
        grammar_well_formed(grammar_view(*g)),
    ensures
        r is Ok <==> command_matches(grammar_view(*g), views(args@)) is Some,
        r matches Ok(v) ==> command_matches(grammar_view(*g), views(args@)) == Some(option_views(v@))
            && v@.len() == names@.len(),
{
    let mut app = App::new(g.name.as_str()).about(g.about.as_str()).setting(AppSettings::DisableVersion);
    for o in g.options.iter() {
        app = app.arg(Arg::with_name(&o.name).short(&o.short).long(&o.long).takes_value(true)
            .default_value(&o.default_value).help(&o.help));
    }
    for p in g.positionals.iter() {
        app = app.arg(Arg::with_name(&p.name).takes_value(true).help(&p.help));
    }
    let m = app.get_matches_from_safe(args).map_err(|e| e.message)?;
    Ok(names.iter().map(|n| m.value_of(n).map(String::from)).collect())
}

/// The names of the grammar's options, then of its positional arguments.
pub open spec fn grammar_names(g: CommandGrammar) -> Seq<Seq<char>> {
    g.options@.map_values(|o: OptionGrammar| o.name@) + g.positionals@.map_values(|p: PositionalGrammar| p.name@)
}

/// Lists the names of the grammar's options, then of its positional arguments.
fn value_names(g: &CommandGrammar) -> (names: Vec<String>)
    ensures
        views(names@) == grammar_names(*g),
{
    let mut names: Vec<String> = Vec::new();
    let mut i: usize = 0;
    while i < g.options.len()
        invariant
            i <= g.options@.len(),
            views(names@) == g.options@.subrange(0, i as int).map_values(|o: OptionGrammar| o.name@),
        decreases g.options@.len() - i,
    {
        names.push(g.options[i].name.clone());
        proof {
            assert(g.options@.subrange(0, i + 1).map_values(|o: OptionGrammar| o.name@) =~= g.options@.subrange(
                0,
                i as int,
            ).map_values(|o: OptionGrammar| o.name@).push(g.options@[i as int].name@));
            assert(views(names@) =~= views(names@.drop_last()).push(names@.last()@));
        }
        i = i + 1;
    }
    let ghost first = views(names@);
    let mut j: usize = 0;
    while j < g.positionals.len()
        invariant
            j <= g.positionals@.len(),
            views(names@) == first + g.positionals@.subrange(0, j as int).map_values(|p: PositionalGrammar| p.name@),
        decreases g.positionals@.len() - j,
    {
        let ghost prev = views(names@);
        names.push(g.positionals[j].name.clone());
        proof {
            assert(views(names@) =~= prev.push(g.positionals@[j as int].name@));
            assert(g.positionals@.subrange(0, j + 1).map_values(|p: PositionalGrammar| p.name@) =~= g.positionals@.subrange(
                0,
                j as int,
            ).map_values(|p: PositionalGrammar| p.name@).push(g.positionals@[j as int].name@));
            assert(views(names@) =~= views(names@.drop_last()).push(names@.last()@));
        }
        j = j + 1;
    }
    proof {
        assert(g.options@.subrange(0, g.options@.len() as int) =~= g.options@);
        assert(g.positionals@.subrange(0, g.positionals@.len() as int) =~= g.positionals@);
    }
    names
}

/// The description of the `speech-bubble` command.
pub const SPEECH_BUBBLE_ABOUT: &'static str = "Requests a speech-bubble for the specified target with the specified content.";
/// The help text of the `lifetime` option.
pub const LIFETIME_HELP: &'static str = "Determines how long the speech-bubble will live (in seconds)";
/// The help text of the `target` argument.
pub const TARGET_HELP: &'static str = "Determines the name of the target entity";
/// The help text of the `text` argument.
pub const TEXT_HELP: &'static str = "Determines the speech-bubble text";

/// The grammar of the `speech-bubble` command: the option `lifetime` (`-l`, `--lifetime`,
/// default "5"), then the positional arguments `target` and `text`.
pub open spec fn speech_bubble_grammar_view() -> (
    Seq<char>,
    Seq<char>,
    Seq<(Seq<char>, Seq<char>, Seq<char>, Seq<char>, Seq<char>)>,
    Seq<(Seq<char>, Seq<char>)>,
) {
    (
        "speech-bubble"@,
        SPEECH_BUBBLE_ABOUT@,
        seq![("lifetime"@, "l"@, "lifetime"@, "5"@, LIFETIME_HELP@)],
        seq![("target"@, TARGET_HELP@), ("text"@, TEXT_HELP@)],
    )
}

/// The target, text and lifetime that a `speech-bubble` command line requests, if the parser
/// accepts it with all three values and the lifetime is a decimal `u64`.
pub open spec fn speech_bubble_request(args: Seq<Seq<char>>) -> Option<(Seq<char>, Seq<char>, u64)> {
    if args.len() > 0 && args[0] == "speech-bubble"@ {
        match command_matches(speech_bubble_grammar_view(), args) {
            Some(m) => if m.len() == 3 {
                match (m[0], m[1], m[2]) {
                    (Some(l), Some(t), Some(x)) => match decimal_u64(l) {
                        Some(v) => Some((t, x, v)),
                        None => None,
                    },
                    _ => None,
                }
            } else {
                None
            },
            None => None,
        }
    } else {
        None
    }
}

/// Builds the grammar of the `speech-bubble` command.
pub fn speech_bubble_grammar() -> (g: CommandGrammar)
    ensures
        grammar_view(g) == speech_bubble_grammar_view(),
        grammar_well_formed(grammar_view(g)),
{
    let lifetime = OptionGrammar {
        name: "lifetime".to_owned(),
        short: "l".to_owned(),
        long: "lifetime".to_owned(),
        default_value: "5".to_owned(),
        help: LIFETIME_HELP.to_owned(),
    };
    let target = PositionalGrammar { name: "target".to_owned(), help: TARGET_HELP.to_owned() };
    let text = PositionalGrammar { name: "text".to_owned(), help: TEXT_HELP.to_owned() };
    let g = CommandGrammar {
        name: "speech-bubble".to_owned(),
        about: SPEECH_BUBBLE_ABOUT.to_owned(),
        options: vec![lifetime],
        positionals: vec![target, text],
    };
    proof {
        assert(g.options@.map_values(|o: OptionGrammar| option_grammar_view(o)) =~= seq![
            ("lifetime"@, "l"@, "lifetime"@, "5"@, LIFETIME_HELP@),
        ]);
        assert(g.positionals@.map_values(|p: PositionalGrammar| positional_grammar_view(p)) =~= seq![
            ("target"@, TARGET_HELP@),
            ("text"@, TEXT_HELP@),
        ]);
        reveal_strlit("lifetime");
        reveal_strlit("target");
        reveal_strlit("text");
        reveal_strlit("l");
        let v = speech_bubble_grammar_view();
        let names = v.2.map_values(|o: (Seq<char>, Seq<char>, Seq<char>, Seq<char>, Seq<char>)| o.0) + v.3.map_values(
            |p: (Seq<char>, Seq<char>)| p.0,
        );
        assert(names =~= seq!["lifetime"@, "target"@, "text"@]);
        assert("lifetime"@.len() == 8 && "target"@.len() == 6 && "text"@.len() == 4);
        assert(names.no_duplicates());
        assert(v.2[0].1 == "l"@);
    }
    g
}

/// `true` if `r` reports that the command `command` lacks the argument `arg`.
pub open spec fn is_missing(r: ShellResult, command: Seq<char>, arg: Seq<char>) -> bool {
    r matches Err(DebugShellError::MissingArgument(c, a)) && c@ == command && a@ == arg
}

/// `true` if `r` is what the `speech-bubble` command gives for the values that the parser found:
/// a missing argument is reported in the order lifetime, target, text, a lifetime that is no
/// decimal `u64` as a parse error, and otherwise the speech bubble event.
pub open spec fn speech_bubble_outcome(
    r: ShellResult,
    command: Seq<char>,
    lifetime: Option<Seq<char>>,
    target: Option<Seq<char>>,
    text: Option<Seq<char>>,
) -> bool {
    match lifetime {
        None => is_missing(r, command, "lifetime"@),
        Some(l) => match decimal_u64(l) {
            None => r matches Err(DebugShellError::ParseError(_)),
            Some(v) => match (target, text) {
                (None, _) => is_missing(r, command, "target"@),
                (Some(_), None) => is_missing(r, command, "text"@),
                (Some(t), Some(x)) => {
                    &&& r matches Ok(Some(EngineEvent::SpeechBubble(t2, x2, v2)))
                    &&& t2@ == t
                    &&& x2@ == x
                    &&& v2 == v
                },
            },
        },
    }
}

/// Turns the values found for the arguments of the `speech-bubble` command into its result.
pub fn speech_bubble_from_matches(
    command: &String,
    lifetime: Option<String>,
    target: Option<String>,
    text: Option<String>,
) -> (r: ShellResult)
    ensures
        speech_bubble_outcome(
            r,
            command@,
            option_view(lifetime),
            option_view(target),
            option_view(text),
        ),
{
    let lifetime = match lifetime {
        Some(l) => l,
        None => {
            return Err(DebugShellError::MissingArgument(command.clone(), "lifetime".to_owned()));
        },
    };
    let lifetime = match parse_u64(lifetime.as_str()) {
        Ok(v) => v,
        Err(e) => {
            return Err(DebugShellError::ParseError(e));
        },
    };
    let target = match target {
        Some(t) => t,
        None => {
            return Err(DebugShellError::MissingArgument(command.clone(), "target".to_owned()));
        },
    };
    let text = match text {
        Some(t) => t,
        None => {
            return Err(DebugShellError::MissingArgument(command.clone(), "text".to_owned()));
        },
    };
    Ok(Some(EngineEvent::SpeechBubble(target, text, lifetime)))
}

impl DebugShellError {
    /// The message that describes the error.
    pub fn message(&self) -> (m: String)
        ensures
            self matches DebugShellError::CommandNotFound(n) ==> m@ == "'"@ + n@
                + "' is not a recognized builtin or command"@,
            self matches DebugShellError::MissingArgument(c, a) ==> m@ == "The required argument '"@
                + a@ + "' is missing for command '"@ + c@ + "'"@,
    {
        match self {
            DebugShellError::CommandNotFound(n) => {
                let mut m = "'".to_owned();
                m.append(n.as_str());
                m.append("' is not a recognized builtin or command");
                m
            },
            DebugShellError::MissingArgument(c, a) => {
                let mut m = "The required argument '".to_owned();
                m.append(a.as_str());
                m.append("' is missing for command '");
                m.append(c.as_str());
                m.append("'");
                m
            },
            DebugShellError::ParseError(e) => parse_error_message(e),
        }
    }
}

/// Returns `true` if the argument is the text `name`.
fn is_named(arg: &String, name: &str) -> (r: bool)
    ensures
        r == (arg@ == name@),
{
    *arg == name.to_owned()
}

/// Calls `Box::new` to hold a command behind the `CustomCommand` trait, ready to be registered.
#[verifier::external_body]
fn box_command<C: CustomCommand + 'static>(command: C) -> Registered {
    Registered { command: Box::new(command) }
}

/// `true` if `name` is the name of a builtin command.
pub open spec fn is_builtin(name: Seq<char>) -> bool {
    ||| name == "help"@
    ||| name == "reload-shaders"@
    ||| name == "speech-bubble"@
    ||| name == "exit"@
}

/// The `DebugShell` listens for `ConsoleCommand` events and interprets them as commands. The
/// shell provides both builtin commands and the ability to register custom commands through the
/// `CustomCommand` trait. What the shell has to say (help, parser messages, errors) is collected
/// and handed out by `take_output`.
pub struct DebugShell {
    names: Vec<String>,
    commands: Vec<Registered>,
    output: Vec<String>,
}

/// A registered custom command.
pub struct Registered {
    command: Box<dyn CustomCommand>,
}

impl DebugShell {
    /// The names of the registered commands.
    pub closed spec fn command_names(&self) -> Seq<Seq<char>> {
        views(self.names@)
    }

    /// The messages collected so far, oldest first.
    pub closed spec fn output(&self) -> Seq<Seq<char>> {
        views(self.output@)
    }

    /// The command registered under each name.
    pub closed spec fn registry(&self) -> Map<Seq<char>, Registered> {
        Map::new(
            |n: Seq<char>| self.command_names().contains(n),
            |n: Seq<char>| self.commands@[self.command_names().index_of(n)],
        )
    }

    /// The command at position `i` is the one that the registry holds under the name at `i`.
    proof fn lemma_registry_at(&self, i: int)
        requires
            self.wf(),
            0 <= i < self.command_names().len(),
        ensures
            self.registry().contains_key(self.command_names()[i]),
            self.registry()[self.command_names()[i]] == self.commands@[i],
    {
        let names = self.command_names();
        assert(names.contains(names[i]));
        let k = names.index_of(names[i]);
        assert(names[k] == names[i]);
    }

    /// A map that holds exactly the registered names, each with the command at its position, is
    /// the registry.
    proof fn lemma_registry_equals(&self, m: Map<Seq<char>, Registered>)
        requires
            self.wf(),
            forall|n: Seq<char>| m.contains_key(n) <==> self.command_names().contains(n),
            forall|i: int| 0 <= i < self.command_names().len() ==> m[#[trigger] self.command_names()[i]]
                == self.commands@[i],
        ensures
            self.registry() == m,
    {
        let names = self.command_names();
        assert forall|n: Seq<char>| #[trigger] self.registry().contains_key(n) implies self.registry()[n] == m[n] by {
            let k = names.index_of(n);
            self.lemma_registry_at(k);
        }
        assert(self.registry() =~= m);
    }

    /// Well-formedness: each name has its command, and no name is registered twice.
    pub closed spec fn wf(&self) -> bool {
        &&& self.names@.len() == self.commands@.len()
        &&& self.command_names().no_duplicates()
    }

    /// Creates a new, default `DebugShell`.
    pub fn new() -> (s: Self)
        ensures
            s.wf(),
            s.command_names() == Seq::<Seq<char>>::empty(),
            s.registry() == Map::<Seq<char>, Registered>::empty(),
            s.output() == Seq::<Seq<char>>::empty(),
    {
        let s = DebugShell { names: Vec::new(), commands: Vec::new(), output: Vec::new() };
        assert(s.command_names() =~= Seq::<Seq<char>>::empty());
        assert(s.output() =~= Seq::<Seq<char>>::empty());
        assert(s.registry() =~= Map::<Seq<char>, Registered>::empty());
        s
    }

    /// Returns the index of the command registered under `name`.
    fn find_command(&self, name: &String) -> (r: Option<usize>)
        ensures
            r matches Some(i) ==> i < self.command_names().len() && self.command_names()[i as int]
                == name@,
            r is None <==> !self.command_names().contains(name@),
    {
        let mut i: usize = 0;
        while i < self.names.len()
            invariant
                i <= self.names@.len(),
                forall|k: int| 0 <= k < i ==> self.command_names()[k] != name@,
            decreases self.names@.len() - i,
        {
            if self.names[i] == *name {
                proof {
                    assert(self.command_names()[i as int] == name@);
                }
                return Some(i);
            }
            i = i + 1;
        }
        None
    }

    /// Adds a custom command to the registry, in place of one registered under the same name.
    pub fn add_command<C: CustomCommand + 'static>(&mut self, name: &str, command: C)
        requires
            old(self).wf(),
        ensures
            final(self).wf(),
            final(self).command_names().to_set() == old(self).command_names().to_set().insert(name@),
            final(self).output() == old(self).output(),
            final(self).registry() == old(self).registry().insert(name@, final(self).registry()[name@]),
    {
        let boxed = box_command(command);
        let ghost added = boxed;
        self.register(name, boxed);
        proof {
            assert(self.registry() == old(self).registry().insert(name@, added));
        }
    }

    /// Registers a boxed command under `name`, in place of one registered under the same name.
    fn register(&mut self, name: &str, boxed: Registered)
        requires
            old(self).wf(),
        ensures
            final(self).wf(),
            final(self).command_names().to_set() == old(self).command_names().to_set().insert(name@),
            final(self).output() == old(self).output(),
            final(self).registry() == old(self).registry().insert(name@, boxed),
    {
        let key = name.to_owned();
        let ghost before = *self;
        let ghost cmd = boxed;
        let ghost names = self.command_names();
        match self.find_command(&key) {
            Some(i) => {
                self.names.set(i, key);
                self.commands.set(i, boxed);
                proof {
                    assert(self.command_names() =~= names);
                    assert(names.to_set() =~= names.to_set().insert(name@));
                    let m = before.registry().insert(name@, cmd);
                    assert forall|n: Seq<char>| m.contains_key(n) <==> self.command_names().contains(n) by {
                        if n == name@ {
                            assert(self.command_names()[i as int] == n);
                        }
                    }
                    assert forall|j: int| 0 <= j < self.command_names().len() implies m[#[trigger] self.command_names()[j]]
                        == self.commands@[j] by {
                        if j != i {
                            before.lemma_registry_at(j);
                        }
                    }
                    self.lemma_registry_equals(m);
                }
            },
            None => {
                self.names.push(key);
                self.commands.push(boxed);
                proof {
                    let after = names.push(name@);
                    assert(self.command_names() =~= after);
                    assert forall|x: Seq<char>| #[trigger] after.contains(x) <==> names.contains(x) || x == name@ by {
                        if after.contains(x) {
                            let k = after.index_of(x);
                            if k < names.len() {
                                assert(names[k] == x);
                            }
                        }
                        if names.contains(x) {
                            let k = names.index_of(x);
                            assert(after[k] == x);
                        }
                        if x == name@ {
                            assert(after[names.len() as int] == x);
                        }
                    }
                    assert(after.to_set() =~= names.to_set().insert(name@));
                    assert forall|a: int, b: int| 0 <= a < after.len() && 0 <= b < after.len() && a != b implies after[a] != after[b] by {
                        if a == names.len() {
                            assert(names[b] == after[b]);
                        } else if b == names.len() {
                            assert(names[a] == after[a]);
                        }
                    }
                    let m = before.registry().insert(name@, cmd);
                    assert forall|n: Seq<char>| m.contains_key(n) <==> self.command_names().contains(n) by {
                        assert(after.contains(n) <==> names.contains(n) || n == name@);
                    }
                    assert forall|j: int| 0 <= j < self.command_names().len() implies m[#[trigger] self.command_names()[j]]
                        == self.commands@[j] by {
                        if j < names.len() {
                            before.lemma_registry_at(j);
                        }
                    }
                    self.lemma_registry_equals(m);
                }
            },
        }
    }

    /// Removes a custom command from the registry.
    pub fn remove_command(&mut self, name: &str)
        requires
            old(self).wf(),
        ensures
            final(self).wf(),
            final(self).command_names().to_set() == old(self).command_names().to_set().remove(name@),
            final(self).output() == old(self).output(),
            final(self).registry() == old(self).registry().remove(name@),
    {
        let key = name.to_owned();
        let ghost names = self.command_names();
        let ghost before = *self;
        match self.find_command(&key) {
            Some(i) => {
                self.names.remove(i);
                self.commands.remove(i);
                proof {
                    assert(self.command_names() =~= names.remove(i as int));
                    assert forall|x: Seq<char>| #[trigger] self.command_names().contains(x) <==> names.contains(x) && x != name@ by {
                        if names.contains(x) && x != name@ {
                            let k = names.index_of(x);
                            if k < i {
                                assert(self.command_names()[k] == x);
                            } else {
                                assert(self.command_names()[k - 1] == x);
                            }
                        }
                        if self.command_names().contains(x) {
                            let k = self.command_names().index_of(x);
                            let old_k = if k < i { k } else { k + 1 };
                            assert(names[old_k] == x);
                        }
                    }
                    assert(self.command_names().to_set() =~= names.to_set().remove(name@));
                    let m = before.registry().remove(name@);
                    assert forall|j: int| 0 <= j < self.command_names().len() implies m[#[trigger] self.command_names()[j]]
                        == self.commands@[j] by {
                        if j < i {
                            before.lemma_registry_at(j);
                        } else {
                            before.lemma_registry_at(j + 1);
                        }
                    }
                    assert(self.wf()) by {
                        assert forall|a: int, b: int| 0 <= a < self.command_names().len() && 0 <= b < self.command_names().len() && a != b
                            implies self.command_names()[a] != self.command_names()[b] by {
                            let oa = if a < i { a } else { a + 1 };
                            let ob = if b < i { b } else { b + 1 };
                            assert(names[oa] == self.command_names()[a]);
                            assert(names[ob] == self.command_names()[b]);
                        }
                    }
                    self.lemma_registry_equals(m);
                }
            },
            None => {
                proof {
                    assert(names.to_set() =~= names.to_set().remove(name@));
                    assert(self.registry() =~= before.registry().remove(name@));
                }
            },
        }
    }

    /// Hands out the collected messages and forgets them.
    pub fn take_output(&mut self) -> (r: Vec<String>)
        ensures
            views(r@) == old(self).output(),
            final(self).output() == Seq::<Seq<char>>::empty(),
            final(self).command_names() == old(self).command_names(),
            final(self).registry() == old(self).registry(),
    {
        let mut out: Vec<String> = Vec::new();
        std::mem::swap(&mut out, &mut self.output);
        proof {
            assert(self.output() =~= Seq::<Seq<char>>::empty());
        }
        out
    }

    /// Interprets a set of arguments as a command line (the first argument names the command).
    /// Returns the command's result and the text to show, if any.
    pub fn interpret(&self, args: &[String]) -> (r: (ShellResult, Option<String>))
        ensures
            args@.len() == 0 ==> (r.0 matches Ok(None)) && r.1 is None,
            args@.len() > 0 && args@[0]@ == "help"@ ==> (r.0 matches Ok(None)) && (r.1 matches Some(
                m,
            ) && m@ == HELP_TEXT@),
            args@.len() > 0 && args@[0]@ == "reload-shaders"@ ==> (r.0 matches Ok(
                Some(EngineEvent::ReloadShaders),
            )) && r.1 is None,
            args@.len() > 0 && args@[0]@ == "exit"@ ==> (r.0 matches Ok(
                Some(EngineEvent::Shutdown),
            )) && r.1 is None,
            args@.len() > 0 && args@[0]@ == "speech-bubble"@ ==> match command_matches(
                speech_bubble_grammar_view(),
                views(args@),
            ) {
                None => (r.0 matches Ok(None)) && r.1 is Some,
                Some(m) => m.len() == 3 && speech_bubble_outcome(r.0, args@[0]@, m[0], m[1], m[2])
                    && r.1 is None,
            },
            args@.len() > 0 && !is_builtin(args@[0]@) && !self.command_names().contains(args@[0]@)
                ==> (r.0 matches Err(DebugShellError::CommandNotFound(n)) && n@ == args@[0]@)
                && r.1 is None,
            args@.len() > 0 && !is_builtin(args@[0]@) ==> r.1 is None,
    {
        proof {
            reveal_strlit("help");
            reveal_strlit("reload-shaders");
            reveal_strlit("speech-bubble");
            reveal_strlit("exit");
            assert("help"@.len() == 4);
            assert("reload-shaders"@.len() == 14);
            assert("speech-bubble"@.len() == 13);
            assert("exit"@.len() == 4);
            assert("exit"@[0] != "help"@[0]);
        }
        if args.len() == 0 {
            return (Ok(None), None);
        }
        let name = &args[0];
        if is_named(name, "help") {
            (Ok(None), Some(HELP_TEXT.to_owned()))
        } else if is_named(name, "reload-shaders") {
            (Ok(Some(EngineEvent::ReloadShaders)), None)
        } else if is_named(name, "speech-bubble") {
            let grammar = speech_bubble_grammar();
            proof {
                assert(grammar.options@.len() == grammar_view(grammar).2.len());
                assert(grammar.positionals@.len() == grammar_view(grammar).3.len());
                assert(grammar_names(grammar).len() == 3);
            }
            let names = value_names(&grammar);
            match match_command(&grammar, names.as_slice(), args) {
                Ok(mut values) => {
                    let ghost found = option_views(values@);
                    let ghost vals = values@;
                    let text = values.pop();
                    assert(values@ =~= vals.subrange(0, 2));
                    let target = values.pop();
                    assert(values@ =~= vals.subrange(0, 1));
                    let lifetime = values.pop();
                    match (lifetime, target, text) {
                        (Some(lifetime), Some(target), Some(text)) => {
                            proof {
                                assert(lifetime == vals[0] && target == vals[1] && text == vals[2]);
                                assert(found[0] == option_view(lifetime));
                                assert(found[1] == option_view(target));
                                assert(found[2] == option_view(text));
                            }
                            (speech_bubble_from_matches(name, lifetime, target, text), None)
                        },
                        _ => (Ok(None), None),
                    }
                },
                Err(message) => (Ok(None), Some(message)),
            }
        } else if is_named(name, "exit") {
            (Ok(Some(EngineEvent::Shutdown)), None)
        } else {
            match self.find_command(name) {
                Some(i) => if i < self.commands.len() {
                    (self.commands[i].command.run(args), None)
                } else {
                    (Err(DebugShellError::CommandNotFound(name.clone())), None)
                },
                None => (Err(DebugShellError::CommandNotFound(name.clone())), None),
            }
        }
    }
}

/// The names under which the registry holds a command are exactly the registered names.
pub proof fn lemma_registry_names(shell: DebugShell)
    requires
        shell.wf(),
    ensures
        shell.registry().dom() == shell.command_names().to_set(),
{
    assert(shell.registry().dom() =~= shell.command_names().to_set());
}

/// Adding a command under a name that already has one replaces it: after two additions under
/// the same name the registry is the first registry with only the second command under that
/// name, and every other name keeps its command.
pub proof fn lemma_add_twice_keeps_last(before: DebugShell, first: DebugShell, second: DebugShell, name: Seq<char>)
    requires
        first.registry() == before.registry().insert(name, first.registry()[name]),
        second.registry() == first.registry().insert(name, second.registry()[name]),
    ensures
        second.registry() == before.registry().insert(name, second.registry()[name]),
        second.registry().dom() == before.registry().dom().insert(name),
        forall|n: Seq<char>| n != name ==> #[trigger] second.registry().contains_key(n) == before.registry().contains_key(n)
            && second.registry()[n] == before.registry()[n],
{
    assert(second.registry() =~= before.registry().insert(name, second.registry()[name]));
}

/// Removing a command right after adding it under the same name gives the registry that removing
/// the name alone would give: nothing of the added command stays behind.
pub proof fn lemma_add_then_remove(before: DebugShell, added: DebugShell, removed: DebugShell, name: Seq<char>)
    requires
        added.registry() == before.registry().insert(name, added.registry()[name]),
        removed.registry() == added.registry().remove(name),
    ensures
        removed.registry() == before.registry().remove(name),
        !removed.registry().contains_key(name),
{
    assert(removed.registry() =~= before.registry().remove(name));
}

impl<A> SystemTrait<EngineEvent, A> for DebugShell {
    open spec fn spec_requirements_met(&self, entities: Assembly) -> bool {
        true
    }

    open spec fn spec_loop_stage_filter(&self) -> LoopStageFlag {
        LoopStageFlag { bits: LoopStageFlag::HANDLE_EVENT }
    }

    open spec fn spec_event_filter(&self) -> EngineEventFlag {
        EngineEventFlag { bits: EngineEventFlag::CONSOLE_COMMAND }
    }

    /// Handling an event leaves the assembly, the auxiliary object and the registered commands
    /// as they are and returns no event for immediate dispatch; an event other than a console
    /// command returns no event at all and leaves the output as it is.
    open spec fn spec_handles(
        &self,
        after: Self,
        entities: Assembly,
        entities_after: Assembly,
        aux: A,
        aux_after: A,
        event: EngineEvent,
        r: DispatchEvents<EngineEvent>,
    ) -> bool {
        &&& entities_after == entities
        &&& aux_after == aux
        &&& r.0 is None
        &&& after.command_names() == self.command_names()
        &&& after.registry() == self.registry()
        &&& !(event is ConsoleCommand) ==> r.1 is None && after.output() == self.output()
    }

    /// Updating changes nothing and returns no events.
    open spec fn spec_updates(
        &self,
        after: Self,
        entities: Assembly,
        entities_after: Assembly,
        aux: A,
        aux_after: A,
        time: Duration,
        delta_time: Duration,
        r: DispatchEvents<EngineEvent>,
    ) -> bool {
        after == *self && entities_after == entities && aux_after == aux && r.0 is None && r.1 is None
    }

    /// Updating changes nothing and returns no events.
    open spec fn spec_dynamic_updates(
        &self,
        after: Self,
        entities: Assembly,
        entities_after: Assembly,
        aux: A,
        aux_after: A,
        time: Duration,
        delta_time: Duration,
        r: DispatchEvents<EngineEvent>,
    ) -> bool {
        after == *self && entities_after == entities && aux_after == aux && r.0 is None && r.1 is None
    }

    /// Rendering leaves the system and the auxiliary object as they are.
    open spec fn spec_renders(
        &self,
        after: Self,
        entities: Assembly,
        aux: A,
        aux_after: A,
        time: Duration,
        delta_time: Duration,
    ) -> bool {
        after == *self && aux_after == aux
    }

    fn verify_requirements(&self, entities: &Assembly) -> (r: bool) {
        true
    }

    fn get_loop_stage_filter(&self) -> (f: LoopStageFlag) {
        LoopStageFlag::new(LoopStageFlag::HANDLE_EVENT)
    }

    fn get_event_filter(&self) -> (f: EngineEventFlag) {
        EngineEventFlag::new(EngineEventFlag::CONSOLE_COMMAND)
    }

    /// Interprets a `ConsoleCommand` event as a command line: the event it produces is
    /// dispatched in the next loop iteration, and what the shell has to say (help, parser
    /// messages, error messages) is added to its output. Other events are ignored.
    fn handle_event(&mut self, entities: &mut Assembly, aux: &mut A, event: &EngineEvent) -> (r:
        DispatchEvents<EngineEvent>)
        ensures
            r.0 is None,
            final(self).command_names() == old(self).command_names(),
            final(self).registry() == old(self).registry(),
            !(event is ConsoleCommand) ==> r.1 is None && final(self).output() == old(self).output(),
            r.1 matches Some(v) ==> v@.len() == 1,
            event matches EngineEvent::ConsoleCommand(c) ==> {
                &&& c@.len() == 0 ==> r.1 is None && final(self).output() == old(self).output()
                &&& c@.len() > 0 && c@[0]@ == "help"@ ==> r.1 is None && final(self).output()
                    == old(self).output().push(HELP_TEXT@)
                &&& c@.len() > 0 && c@[0]@ == "reload-shaders"@ ==> (r.1 matches Some(v) && v@ == seq![
                    EngineEvent::ReloadShaders,
                ]) && final(self).output() == old(self).output()
                &&& c@.len() > 0 && c@[0]@ == "exit"@ ==> (r.1 matches Some(v) && v@ == seq![
                    EngineEvent::Shutdown,
                ]) && final(self).output() == old(self).output()
                &&& speech_bubble_request(views(c@)) matches Some(q) ==> (r.1 matches Some(v) && v@.len() == 1
                    && (v@[0] matches EngineEvent::SpeechBubble(t, x, l) && t@ == q.0 && x@ == q.1 && l == q.2))
                    && final(self).output() == old(self).output()
                &&& c@.len() > 0 && !is_builtin(c@[0]@) && !old(self).command_names().contains(c@[0]@)
                    ==> r.1 is None && final(self).output() == old(self).output().push(
                    "'"@ + c@[0]@ + "' is not a recognized builtin or command"@,
                )
            },
    {
        match event {
            EngineEvent::ConsoleCommand(c) => {
                let (result, message) = self.interpret(c.as_slice());
                if let Some(m) = message {
                    self.output.push(m);
                }
                proof {
                    assert(views(self.output@) =~= views(old(self).output@) + (match message {
                        Some(m) => seq![m@],
                        None => Seq::empty(),
                    }));
                }
                match result {
                    Ok(Some(e)) => (None, Some(vec![e])),
                    Ok(None) => (None, None),
                    Err(e) => {
                        let ghost before = views(self.output@);
                        let text = e.message();
                        self.output.push(text);
                        proof {
                            assert(views(self.output@) =~= before.push(text@));
                        }
                        (None, None)
                    },
                }
            },
            _ => (None, None),
        }
    }

    fn update(
        &mut self,
        entities: &mut Assembly,
        aux: &mut A,
        time: &Duration,
        delta_time: &Duration,
    ) -> (r: DispatchEvents<EngineEvent>)
        ensures
            r.0 is None && r.1 is None,
    {
        (None, None)
    }

    fn dynamic_update(
        &mut self,
        entities: &mut Assembly,
        aux: &mut A,
        time: &Duration,
        delta_time: &Duration,
    ) -> (r: DispatchEvents<EngineEvent>)
        ensures
            r.0 is None && r.1 is None,
    {
        (None, None)
    }

    fn render(&mut self, entities: &Assembly, aux: &mut A, time: &Duration, delta_time: &Duration) {
    }
}

} // verus!
