//! The argument resolver: from tokens to what is run, with which arguments,
//! in which environment and with which descriptors.
//!
//! Leading tokens of the form `KEY=VALUE` are additions to the environment of
//! the command. The token after them names the command. Of the tokens that
//! follow, one that begins with `$` stands for the value of a variable, one
//! that holds `>` asks for a redirection, and the others are the arguments.

use vstd::prelude::*;
use vstd::slice::slice_subrange;
use vstd::string::{StrSliceExecFns, StringExecFns};

use crate::native::error::{Error, ErrorModel};
use crate::native::file_stat::FileMode;
use crate::shell::splitter::{
    bare, is_plain, lemma_split_of_join, lex, tokenize, Lexeme, Quoting, Token,
};
use crate::shell::variables::{lookup, value_of, Variables};
use crate::shell::Shell;
use crate::text::{
    chars_of, find_from, first_index, join, lemma_first_index, number, parse_number, same_text,
};

verus! {

/// The permission bits of a file that only its owner may read.
pub const OWNER_READ: FileMode = 0o400;

/// The descriptor that a redirection without a number stands for: the
/// standard output.
pub const STANDARD_OUTPUT: i32 = 1;

/// How a file is opened.
#[derive(Debug, Clone, Copy, PartialEq, Eq, Structural)]
pub struct OpenMode {
    /// The file is made if it is not there.
    pub create: bool,
    /// The file is written to; where this is not set, it is read.
    pub write: bool,
    /// The permission bits of a file that is made.
    pub permissions: FileMode,
}

/// How the file of a redirection is opened: for writing, made if it is not
/// there, and then readable by its owner alone.
pub open spec fn write_mode() -> OpenMode {
    OpenMode { create: true, write: true, permissions: OWNER_READ }
}

/// Where a redirected descriptor leads.
#[derive(Debug, Clone, PartialEq, Eq)]
pub enum Target {
    /// To where another descriptor leads.
    Descriptor(i32),
    /// To a file.
    File { path: String, mode: OpenMode },
}

/// What a [`Target`] stands for in contracts.
pub enum TargetModel {
    Descriptor(int),
    File { path: Seq<char>, mode: OpenMode },
}

impl DeepView for Target {
    type V = TargetModel;

    open spec fn deep_view(&self) -> TargetModel {
        match self {
            Target::Descriptor(descriptor) => TargetModel::Descriptor(*descriptor as int),
            Target::File { path, mode } => TargetModel::File { path: path@, mode: *mode },
        }
    }
}

/// A request to rebind the descriptor `source` before the program runs.
#[derive(Debug, Clone, PartialEq, Eq)]
pub struct Redirection {
    pub source: i32,
    pub target: Target,
}

/// What a [`Redirection`] stands for in contracts.
pub struct RedirectionModel {
    pub source: int,
    pub target: TargetModel,
}

impl DeepView for Redirection {
    type V = RedirectionModel;

    open spec fn deep_view(&self) -> RedirectionModel {
        RedirectionModel { source: self.source as int, target: self.target.deep_view() }
    }
}

/// What a field stands for once variables are put in: the value of the
/// variable that a field beginning with `$` names, taken from the variables
/// of the shell or else from the environment, and empty where neither has it;
/// the field itself where it does not begin with `$`.
pub open spec fn expand(
    variables: Map<Seq<char>, Seq<char>>,
    environment: Seq<(Seq<char>, Seq<char>)>,
    field: Seq<char>,
) -> Seq<char> {
    if field.len() > 0 && field[0] == '$' {
        let name = field.drop_first();
        if variables.contains_key(name) {
            variables[name]
        } else {
            match lookup(environment, name) {
                Some(value) => value,
                None => seq![],
            }
        }
    } else {
        field
    }
}

/// A variable of the shell stands for its value, whatever the environment
/// holds under the same name.
pub proof fn lemma_expand_shell_variable(
    variables: Map<Seq<char>, Seq<char>>,
    environment: Seq<(Seq<char>, Seq<char>)>,
    name: Seq<char>,
)
    requires
        variables.contains_key(name),
    ensures
        expand(variables, environment, seq!['$'] + name) == variables[name],
{
    assert((seq!['$'] + name).drop_first() == name);
}

/// A name that neither the shell nor the environment knows stands for the
/// empty text.
pub proof fn lemma_expand_unknown(
    variables: Map<Seq<char>, Seq<char>>,
    environment: Seq<(Seq<char>, Seq<char>)>,
    name: Seq<char>,
)
    requires
        !variables.contains_key(name),
        lookup(environment, name).is_none(),
    ensures
        expand(variables, environment, seq!['$'] + name) == Seq::<char>::empty(),
{
    assert((seq!['$'] + name).drop_first() == name);
}

/// The text of a token once variables are put in. A token between single
/// quotes is taken as it is written.
pub open spec fn expanded(
    variables: Map<Seq<char>, Seq<char>>,
    environment: Seq<(Seq<char>, Seq<char>)>,
    token: Lexeme,
) -> Seq<char> {
    if token.quoting == Quoting::Single {
        token.text
    } else {
        expand(variables, environment, token.text)
    }
}

/// Whether a token with the text `text` asks for a redirection: it holds `>`
/// and was not written between double quotes.
pub open spec fn is_redirection(token: Lexeme, text: Seq<char>) -> bool {
    token.quoting != Quoting::Double && text.contains('>')
}

/// A redirection read from a field, and whether the token after the field
/// was used up as its operand.
pub struct Request {
    pub redirection: RedirectionModel,
    pub takes_operand: bool,
}

/// The descriptor that a redirection field rebinds: the number before `>`,
/// or the standard output where `>` comes first.
pub open spec fn source_of(field: Seq<char>) -> Option<int> {
    let at = first_index(field, '>');
    if at == 0 {
        Some(STANDARD_OUTPUT as int)
    } else {
        number(field.take(at))
    }
}

/// The redirection that `field` asks for, where `operand` is the token after
/// the field, if there is one.
///
/// After the first `>` comes `&` and a descriptor number, or the path of a
/// file. Where the field ends with the operator, the operand is the number or
/// the path. `None` where the field holds no `>`, a number is malformed or the
/// operand is missing.
pub open spec fn redirection(field: Seq<char>, operand: Option<Seq<char>>) -> Option<Request> {
    let rest = field.skip(first_index(field, '>') + 1);
    let duplicates = rest.len() > 0 && rest[0] == '&';
    let written = if duplicates {
        rest.drop_first()
    } else {
        rest
    };
    let takes_operand = written.len() == 0;
    let target = if takes_operand {
        operand
    } else {
        Some(written)
    };
    if !field.contains('>') {
        None
    } else {
        match (source_of(field), target) {
            (Some(source), Some(text)) => match target_of(duplicates, text) {
                Some(target) => Some(
                    Request { redirection: RedirectionModel { source, target }, takes_operand },
                ),
                None => None,
            },
            _ => None,
        }
    }
}

/// Where a redirection leads: to the descriptor whose number `text` writes,
/// where the operator was `>&`, and else to the file at the path `text`.
pub open spec fn target_of(duplicates: bool, text: Seq<char>) -> Option<TargetModel> {
    if duplicates {
        match number(text) {
            Some(descriptor) => Some(TargetModel::Descriptor(descriptor)),
            None => None,
        }
    } else {
        Some(TargetModel::File { path: text, mode: write_mode() })
    }
}

/// The arguments and the redirections that a run of tokens stands for.
pub struct Resolved {
    pub arguments: Seq<Seq<char>>,
    pub redirections: Seq<RedirectionModel>,
}

/// `found` with some arguments and redirections before its own.
pub open spec fn preceded(
    arguments: Seq<Seq<char>>,
    redirections: Seq<RedirectionModel>,
    found: Option<Resolved>,
) -> Option<Resolved> {
    match found {
        Some(rest) => Some(
            Resolved {
                arguments: arguments + rest.arguments,
                redirections: redirections + rest.redirections,
            },
        ),
        None => None,
    }
}

/// What the tokens after the command name stand for: each token, with its
/// variables put in, is a redirection (together with its operand, where it
/// takes one) or else an argument. Arguments and redirections keep the order
/// in which they were written. `None` where a redirection is malformed.
pub open spec fn resolve(
    variables: Map<Seq<char>, Seq<char>>,
    environment: Seq<(Seq<char>, Seq<char>)>,
    tokens: Seq<Lexeme>,
) -> Option<Resolved>
    decreases tokens.len(),
{
    if tokens.len() == 0 {
        Some(Resolved { arguments: seq![], redirections: seq![] })
    } else {
        let text = expanded(variables, environment, tokens[0]);
        if is_redirection(tokens[0], text) {
            let operand = if tokens.len() > 1 {
                Some(tokens[1].text)
            } else {
                None
            };
            match redirection(text, operand) {
                Some(request) => preceded(
                    seq![],
                    seq![request.redirection],
                    resolve(
                        variables,
                        environment,
                        tokens.skip(
                            if request.takes_operand {
                                2
                            } else {
                                1
                            },
                        ),
                    ),
                ),
                None => None,
            }
        } else {
            preceded(seq![text], seq![], resolve(variables, environment, tokens.skip(1)))
        }
    }
}

/// Puts the value of a variable in the place of a field that names one.
pub fn expand_field(
    variables: &Variables,
    environment: &Vec<(String, String)>,
    field: &str,
) -> (text: String)
    ensures
        text@ == expand(variables@, environment.deep_view(), field@),
{
    if !field.is_empty() && field.get_char(0) == '$' {
        let name = field.substring_char(1, field.unicode_len());
        match variables.get(name) {
            Some(value) => value.clone(),
            None => match value_of(environment, name) {
                Some(value) => value.clone(),
                None => String::new(),
            },
        }
    } else {
        field.to_string()
    }
}

/// Reads the redirection that `field` asks for; `operand` is the token after
/// the field, if there is one. Also says whether the operand was used up.
pub fn parse_redirection(field: &str, operand: Option<&str>) -> (request: Result<
    (Redirection, bool),
    Error,
>)
    ensures
        match request {
            Ok((found, takes_operand)) => redirection(
                field@,
                match operand {
                    Some(text) => Some(text@),
                    None => None,
                },
            ) == Some(Request { redirection: found.deep_view(), takes_operand }),
            Err(error) => error == Error::NotFound && redirection(
                field@,
                match operand {
                    Some(text) => Some(text@),
                    None => None,
                },
            ).is_none(),
        },
{
    let chars = chars_of(field);
    let at = find_from(&chars, '>', 0);
    proof {
        assert(chars@.skip(0) == chars@);
        lemma_first_index(field@, '>');
    }
    if at == chars.len() {
        return Err(Error::NotFound);
    }
    let source = if at == 0 {
        STANDARD_OUTPUT
    } else {
        match parse_number(field.substring_char(0, at)) {
            Some(number) => number,
            None => {
                return Err(Error::NotFound);
            },
        }
    };
    let duplicates = at + 1 < chars.len() && chars[at + 1] == '&';
    let start: usize = if duplicates {
        at + 2
    } else {
        at + 1
    };
    let ghost rest = field@.skip(at + 1);
    proof {
        if duplicates {
            assert(rest.drop_first() == field@.skip(start as int));
        }
    }
    let takes_operand = start == chars.len();
    let text: &str = if takes_operand {
        match operand {
            Some(text) => text,
            None => {
                return Err(Error::NotFound);
            },
        }
    } else {
        field.substring_char(start, chars.len())
    };
    let target = if duplicates {
        match parse_number(text) {
            Some(descriptor) => Target::Descriptor(descriptor),
            None => {
                return Err(Error::NotFound);
            },
        }
    } else {
        Target::File {
            path: text.to_string(),
            mode: OpenMode { create: true, write: true, permissions: OWNER_READ },
        }
    };
    Ok((Redirection { source, target }, takes_operand))
}

/// Whether a token adds to the environment of the command: it holds `=`, and
/// no `>` before it.
pub open spec fn is_assignment(text: Seq<char>) -> bool {
    text.contains('=') && !text.take(first_index(text, '=')).contains('>')
}

/// The name and the value of an assignment: what stands before its first `=`
/// and what stands after it.
pub open spec fn assignment_of(text: Seq<char>) -> (Seq<char>, Seq<char>) {
    let at = first_index(text, '=');
    (text.take(at), text.skip(at + 1))
}

/// The number of assignments with which a line begins.
pub open spec fn assignments(tokens: Seq<Lexeme>) -> int
    decreases tokens.len(),
{
    if tokens.len() > 0 && is_assignment(tokens[0].text) {
        1 + assignments(tokens.drop_first())
    } else {
        0
    }
}

/// The names and values of the assignments among the first `count` tokens.
pub open spec fn overrides(tokens: Seq<Lexeme>, count: int) -> Seq<(Seq<char>, Seq<char>)> {
    tokens.take(count).map_values(|token: Lexeme| assignment_of(token.text))
}

/// A program to run: its name as it was written, its arguments with the name
/// as the first of them, what is added to its environment, and the
/// descriptors that are rebound before it starts, in the order in which they
/// are rebound.
#[derive(Debug, Clone, PartialEq, Eq)]
pub struct Invocation {
    pub environment: Vec<(String, String)>,
    pub command: String,
    pub arguments: Vec<String>,
    pub redirections: Vec<Redirection>,
}

/// What an [`Invocation`] stands for in contracts.
pub struct InvocationModel {
    pub environment: Seq<(Seq<char>, Seq<char>)>,
    pub command: Seq<char>,
    pub arguments: Seq<Seq<char>>,
    pub redirections: Seq<RedirectionModel>,
}

impl DeepView for Invocation {
    type V = InvocationModel;

    open spec fn deep_view(&self) -> InvocationModel {
        InvocationModel {
            environment: self.environment.deep_view(),
            command: self.command@,
            arguments: self.arguments.deep_view(),
            redirections: self.redirections.deep_view(),
        }
    }
}

/// What a line of input asks for.
#[derive(Debug, Clone, PartialEq, Eq)]
pub enum Command {
    /// To stop reading commands.
    Exit,
    /// To write this text to the standard output.
    Print(String),
    /// To run a program.
    Run(Invocation),
}

/// What a [`Command`] stands for in contracts.
pub enum CommandModel {
    Exit,
    Print(Seq<char>),
    Run(InvocationModel),
}

impl DeepView for Command {
    type V = CommandModel;

    open spec fn deep_view(&self) -> CommandModel {
        match self {
            Command::Exit => CommandModel::Exit,
            Command::Print(text) => CommandModel::Print(text@),
            Command::Run(invocation) => CommandModel::Run(invocation.deep_view()),
        }
    }
}

/// What the tokens of a line ask for.
///
/// The assignments at the start are additions to the environment. The token
/// after them is the command, unless it holds `=`: a token that holds `=`
/// never names a command, so where it is no assignment either (a `>` stands
/// before its `=`) the line has no command. `exit` and `pwd` are commands of
/// the shell itself, any other is a program, whose arguments and redirections
/// the remaining tokens give. A line without a command, or with a malformed
/// redirection, asks for nothing that can be done. In particular a line
/// whose tokens all hold `=`, and a line without tokens, cannot be run.
pub open spec fn command_of_tokens(
    variables: Map<Seq<char>, Seq<char>>,
    environment: Seq<(Seq<char>, Seq<char>)>,
    cwd: Seq<char>,
    tokens: Seq<Lexeme>,
) -> Result<CommandModel, ErrorModel> {
    let count = assignments(tokens);
    if count >= tokens.len() || tokens[count].text.contains('=') {
        Err(ErrorModel::NotFound)
    } else {
        let name = tokens[count].text;
        if name == seq!['e', 'x', 'i', 't'] {
            Ok(CommandModel::Exit)
        } else if name == seq!['p', 'w', 'd'] {
            Ok(CommandModel::Print(cwd + seq!['\n']))
        } else {
            match resolve(variables, environment, tokens.skip(count + 1)) {
                Some(found) => Ok(
                    CommandModel::Run(
                        InvocationModel {
                            environment: overrides(tokens, count),
                            command: name,
                            arguments: seq![name] + found.arguments,
                            redirections: found.redirections,
                        },
                    ),
                ),
                None => Err(ErrorModel::NotFound),
            }
        }
    }
}

/// What a line of input asks for.
pub open spec fn command_of(
    variables: Map<Seq<char>, Seq<char>>,
    environment: Seq<(Seq<char>, Seq<char>)>,
    cwd: Seq<char>,
    line: Seq<char>,
) -> Result<CommandModel, ErrorModel> {
    command_of_tokens(variables, environment, cwd, lex(line))
}

/// A word that stands for itself on a command line: a plain word that names
/// no variable, asks for no redirection and assigns nothing.
pub open spec fn is_literal(word: Seq<char>) -> bool {
    is_plain(word) && word[0] != '$' && !word.contains('>') && !word.contains('=')
}

/// Tokens that stand for themselves are the arguments, and nothing is
/// redirected.
pub proof fn lemma_resolve_literals(
    variables: Map<Seq<char>, Seq<char>>,
    environment: Seq<(Seq<char>, Seq<char>)>,
    words: Seq<Seq<char>>,
)
    requires
        forall|i: int| 0 <= i < words.len() ==> is_literal(#[trigger] words[i]),
    ensures
        resolve(variables, environment, bare(words)) == Some(
            Resolved { arguments: words, redirections: seq![] },
        ),
    decreases words.len(),
{
    let tokens = bare(words);
    if words.len() == 0 {
        assert(words == Seq::<Seq<char>>::empty());
    } else {
        let others = words.drop_first();
        assert(is_literal(words[0]));
        assert forall|i: int| 0 <= i < others.len() implies is_literal(#[trigger] others[i]) by {
            assert(others[i] == words[i + 1]);
        }
        lemma_resolve_literals(variables, environment, others);
        assert(tokens[0] == Lexeme { text: words[0], quoting: Quoting::Bare });
        assert(expanded(variables, environment, tokens[0]) == words[0]);
        assert(!is_redirection(tokens[0], words[0]));
        assert(tokens.skip(1) == bare(others));
        assert(seq![words[0]] + others == words);
        assert(Seq::<RedirectionModel>::empty() + Seq::<RedirectionModel>::empty() == Seq::<
            RedirectionModel,
        >::empty());
    }
}

/// A line of words that stand for themselves runs the first word as a
/// program, with all the words as its arguments, nothing added to its
/// environment and nothing redirected, unless the first word is a command of
/// the shell itself.
pub proof fn lemma_literal_line_runs(
    variables: Map<Seq<char>, Seq<char>>,
    environment: Seq<(Seq<char>, Seq<char>)>,
    cwd: Seq<char>,
    words: Seq<Seq<char>>,
)
    requires
        words.len() > 0,
        forall|i: int| 0 <= i < words.len() ==> is_literal(#[trigger] words[i]),
        words[0] != seq!['e', 'x', 'i', 't'],
        words[0] != seq!['p', 'w', 'd'],
    ensures
        command_of(variables, environment, cwd, join(words, ' ')) == Ok::<
            CommandModel,
            ErrorModel,
        >(
            CommandModel::Run(
                InvocationModel {
                    environment: seq![],
                    command: words[0],
                    arguments: words,
                    redirections: seq![],
                },
            ),
        ),
{
    assert forall|i: int| 0 <= i < words.len() implies is_plain(#[trigger] words[i]) by {
        assert(is_literal(words[i]));
    }
    lemma_split_of_join(words);
    let tokens = bare(words);
    let others = words.drop_first();
    assert(is_literal(words[0]));
    assert(assignments(tokens) == 0);
    assert forall|i: int| 0 <= i < others.len() implies is_literal(#[trigger] others[i]) by {
        assert(others[i] == words[i + 1]);
    }
    lemma_resolve_literals(variables, environment, others);
    assert(tokens.skip(1) == bare(others));
    assert(seq![words[0]] + others == words);
    assert(overrides(tokens, 0) == Seq::<(Seq<char>, Seq<char>)>::empty());
}

/// An environment entry as a program receives it: the name, `=`, the value.
pub open spec fn definition(pair: (Seq<char>, Seq<char>)) -> Seq<char> {
    pair.0 + seq!['='] + pair.1
}

/// The environment of a program: each pair as a program receives it.
pub open spec fn definitions(pairs: Seq<(Seq<char>, Seq<char>)>) -> Seq<Seq<char>> {
    pairs.map_values(|pair: (Seq<char>, Seq<char>)| definition(pair))
}

/// Whether a text holds a character.
fn holds(text: &str, c: char) -> (found: bool)
    ensures
        found == text@.contains(c),
{
    let chars = chars_of(text);
    let at = find_from(&chars, c, 0);
    proof {
        assert(chars@.skip(0) == chars@);
        lemma_first_index(text@, c);
    }
    at < chars.len()
}

/// A line whose tokens all hold `=` has no command and cannot be run. A line
/// without tokens, such as an empty line or a line of white space, is one of
/// them.
pub proof fn lemma_no_command(
    variables: Map<Seq<char>, Seq<char>>,
    environment: Seq<(Seq<char>, Seq<char>)>,
    cwd: Seq<char>,
    line: Seq<char>,
)
    requires
        forall|i: int| 0 <= i < lex(line).len() ==> (#[trigger] lex(line)[i]).text.contains('='),
    ensures
        command_of(variables, environment, cwd, line) == Err::<CommandModel, ErrorModel>(
            ErrorModel::NotFound,
        ),
{
    lemma_assignments(lex(line));
}

/// The tokens before the first that is no assignment are assignments.
pub proof fn lemma_assignments(tokens: Seq<Lexeme>)
    ensures
        0 <= assignments(tokens) <= tokens.len(),
        forall|i: int|
            0 <= i < assignments(tokens) ==> is_assignment((#[trigger] tokens[i]).text),
        assignments(tokens) < tokens.len() ==> !is_assignment(tokens[assignments(tokens)].text),
    decreases tokens.len(),
{
    if tokens.len() > 0 && is_assignment(tokens[0].text) {
        let rest = tokens.drop_first();
        lemma_assignments(rest);
        assert forall|i: int| 0 <= i < assignments(tokens) implies is_assignment(
            (#[trigger] tokens[i]).text,
        ) by {
            if i > 0 {
                assert(tokens[i] == rest[i - 1]);
            }
        }
    }
}

/// Reads a token as an assignment, if it is one.
pub fn parse_assignment(text: &str) -> (pair: Option<(String, String)>)
    ensures
        match pair {
            Some((name, value)) => is_assignment(text@) && (name@, value@) == assignment_of(
                text@,
            ),
            None => !is_assignment(text@),
        },
{
    let chars = chars_of(text);
    let at = find_from(&chars, '=', 0);
    proof {
        assert(chars@.skip(0) == chars@);
        lemma_first_index(text@, '=');
    }
    if at == chars.len() {
        return None;
    }
    let mark = find_from(&chars, '>', 0);
    proof {
        lemma_first_index(text@, '>');
        let name = text@.take(at as int);
        if mark >= at {
            assert forall|i: int| 0 <= i < name.len() implies name[i] != '>' by {
            }
        }
    }
    if mark < at {
        return None;
    }
    let name = text.substring_char(0, at).to_string();
    let value = text.substring_char(at + 1, chars.len()).to_string();
    Some((name, value))
}

/// Adds each pair to `envp` as a program receives it.
fn define(envp: &mut Vec<String>, pairs: &Vec<(String, String)>)
    ensures
        final(envp).deep_view() == old(envp).deep_view() + definitions(pairs.deep_view()),
{
    let ghost before = envp.deep_view();
    let ghost added = definitions(pairs.deep_view());
    proof {
        reveal_strlit("=");
    }
    let mut i: usize = 0;
    while i < pairs.len()
        invariant
            i <= pairs.len(),
            added == definitions(pairs.deep_view()),
            "="@ == seq!['='],
            envp.deep_view() == before + added.take(i as int),
        decreases pairs.len() - i,
    {
        let pair = &pairs[i];
        let ghost so_far = envp.deep_view();
        let text = pair.0.clone().concat("=").concat(pair.1.as_str());
        assert(text@ == added[i as int]);
        envp.push(text);
        assert(envp.deep_view() == so_far.push(text@));
        assert(added.take(i + 1) == added.take(i as int).push(added[i as int]));
        i += 1;
    }
    assert(added.take(i as int) == added);
}

impl Invocation {
    /// The environment that the program receives: `environment`, which is
    /// that of the shell, and after it what the line adds.
    pub fn envp(&self, environment: &Vec<(String, String)>) -> (envp: Vec<String>)
        ensures
            envp.deep_view() == definitions(
                environment.deep_view() + self.environment.deep_view(),
            ),
    {
        let mut envp: Vec<String> = Vec::new();
        define(&mut envp, environment);
        define(&mut envp, &self.environment);
        envp
    }
}

impl Shell {
    /// Sorts the tokens after the command name into the arguments of the
    /// program and the redirections that are made before it runs.
    pub fn parse_shell(&self, tokens: &[Token], environment: &Vec<(String, String)>) -> (found:
        Result<(Vec<String>, Vec<Redirection>), Error>)
        ensures
            match found {
                Ok((arguments, redirections)) => resolve(
                    self.variables@,
                    environment.deep_view(),
                    tokens.deep_view(),
                ) == Some(
                    Resolved {
                        arguments: arguments.deep_view(),
                        redirections: redirections.deep_view(),
                    },
                ),
                Err(error) => error == Error::NotFound && resolve(
                    self.variables@,
                    environment.deep_view(),
                    tokens.deep_view(),
                ).is_none(),
            },
    {
        let ghost all = tokens.deep_view();
        let ghost names = self.variables@;
        let ghost values = environment.deep_view();
        let mut arguments: Vec<String> = Vec::new();
        let mut redirections: Vec<Redirection> = Vec::new();
        let mut i: usize = 0;
        assert(all.skip(0) == all);
        while i < tokens.len()
            invariant
                i <= tokens.len(),
                all == tokens.deep_view(),
                names == self.variables@,
                values == environment.deep_view(),
                resolve(names, values, all) == preceded(
                    arguments.deep_view(),
                    redirections.deep_view(),
                    resolve(names, values, all.skip(i as int)),
                ),
            decreases tokens.len() - i,
        {
            let token = &tokens[i];
            let ghost rest = all.skip(i as int);
            let ghost before_arguments = arguments.deep_view();
            let ghost before_redirections = redirections.deep_view();
            let text = match token.quoting {
                Quoting::Single => token.text.clone(),
                _ => expand_field(&self.variables, environment, token.text.as_str()),
            };
            let redirects = match token.quoting {
                Quoting::Double => false,
                _ => {
                    let chars = chars_of(text.as_str());
                    let at = find_from(&chars, '>', 0);
                    proof {
                        assert(chars@.skip(0) == chars@);
                        lemma_first_index(text@, '>');
                    }
                    at < chars.len()
                },
            };
            if redirects {
                let operand: Option<&str> = if i + 1 < tokens.len() {
                    Some(tokens[i + 1].text.as_str())
                } else {
                    None
                };
                match parse_redirection(text.as_str(), operand) {
                    Ok((found, takes_operand)) => {
                        redirections.push(found);
                        let step: usize = if takes_operand {
                            2
                        } else {
                            1
                        };
                        proof {
                            assert(rest.skip(step as int) == all.skip(i + step));
                            if let Some(r) = resolve(names, values, all.skip(i + step)) {
                                assert(before_redirections + (seq![found.deep_view()]
                                    + r.redirections) == redirections.deep_view()
                                    + r.redirections);
                            }
                        }
                        i += step;
                    },
                    Err(error) => {
                        return Err(error);
                    },
                }
            } else {
                arguments.push(text);
                proof {
                    assert(rest.skip(1) == all.skip(i + 1));
                    if let Some(r) = resolve(names, values, all.skip(i + 1)) {
                        assert(before_arguments + (seq![text@] + r.arguments)
                            == arguments.deep_view() + r.arguments);
                    }
                }
                i += 1;
            }
        }
        Ok((arguments, redirections))
    }

    /// Reads a line of input: says what it asks for, or that it cannot be
    /// done.
    pub fn parse(&self, line: &str, environment: &Vec<(String, String)>) -> (command: Result<
        Command,
        Error,
    >)
        ensures
            match command {
                Ok(found) => command_of(
                    self.variables@,
                    environment.deep_view(),
                    self.cwd@,
                    line@,
                ) == Ok::<CommandModel, ErrorModel>(found.deep_view()),
                Err(error) => error == Error::NotFound && command_of(
                    self.variables@,
                    environment.deep_view(),
                    self.cwd@,
                    line@,
                ) == Err::<CommandModel, ErrorModel>(ErrorModel::NotFound),
            },
    {
        let tokens = tokenize(line);
        let ghost all = tokens.deep_view();
        let mut added: Vec<(String, String)> = Vec::new();
        let mut count: usize = 0;
        proof {
            assert(all.skip(0) == all);
        }
        loop
            invariant_except_break
                assignments(all) == count + assignments(all.skip(count as int)),
            invariant
                count <= tokens.len(),
                all == tokens.deep_view(),
                added.deep_view() == overrides(all, count as int),
            ensures
                assignments(all) == count,
            decreases tokens.len() - count,
        {
            if count == tokens.len() {
                break ;
            }
            let ghost rest = all.skip(count as int);
            let ghost before = added.deep_view();
            match parse_assignment(tokens[count].text.as_str()) {
                Some(pair) => {
                    added.push(pair);
                    proof {
                        assert(rest.drop_first() == all.skip(count + 1));
                        assert(added.deep_view() == before.push((pair.0@, pair.1@)));
                    }
                },
                None => {
                    break ;
                },
            }
            count += 1;
        }
        if count == tokens.len() {
            return Err(Error::NotFound);
        }
        let name = tokens[count].text.as_str();
        if holds(name, '=') {
            return Err(Error::NotFound);
        }
        proof {
            reveal_strlit("exit");
            reveal_strlit("pwd");
            reveal_strlit("\n");
            assert("exit"@ == seq!['e', 'x', 'i', 't']);
            assert("pwd"@ == seq!['p', 'w', 'd']);
            assert("\n"@ == seq!['\n']);
        }
        if same_text(name, "exit") {
            Ok(Command::Exit)
        } else if same_text(name, "pwd") {
            Ok(Command::Print(self.cwd.clone().concat("\n")))
        } else {
            let rest = slice_subrange(tokens.as_slice(), count + 1, tokens.len());
            assert(rest.deep_view() == all.skip(count + 1));
            match self.parse_shell(rest, environment) {
                Ok((mut arguments, redirections)) => {
                    let ghost found = arguments.deep_view();
                    arguments.insert(0, name.to_string());
                    assert(arguments.deep_view() == seq![name@] + found);
                    Ok(
                        Command::Run(
                            Invocation {
                                environment: added,
                                command: name.to_string(),
                                arguments,
                                redirections,
                            },
                        ),
                    )
                },
                Err(error) => Err(error),
            }
        }
    }
}

} // verus!
