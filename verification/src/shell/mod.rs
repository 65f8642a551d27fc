//! The state of the shell and what it does with a line of input.
//!
//! The shell itself reads nothing and runs nothing. For each line it says
//! what is to be done, and the program around it does that and reports how
//! it went.

pub mod descriptors;
pub mod path;
pub mod resolver;
pub mod splitter;
pub mod variables;

use vstd::prelude::*;
use vstd::string::{StrSliceExecFns, StringExecFns};

use crate::native::error::Error;
use crate::native::file_stat::FileStat;
use crate::native::users::{GroupId, UserId};
use crate::native::ExitCode;
use crate::text::{same_text, split, split_text, starts_with};
use path::{join_path, joined};
use resolver::{command_of, Command, CommandModel, Invocation, InvocationModel};
use variables::Variables;

verus! {

/// The search path of a shell that was started without one.
pub open spec fn default_path() -> Seq<char> {
    "/usr/bin"@
}

/// The status of a command that could not be run.
pub const FAILURE: ExitCode = 1;

/// The state of a shell.
#[derive(Debug, Clone, PartialEq, Eq)]
pub struct Shell {
    /// The variables of the shell itself, which its commands do not inherit.
    pub variables: Variables,
    /// Whether this is a login shell.
    pub is_login: bool,
    /// The arguments that the shell was started with.
    pub argv: Vec<String>,
    /// The user who runs the shell.
    pub user: UserId,
    /// The status with which the last command ended.
    pub status: ExitCode,
    /// The home directory of the user.
    pub home: String,
    /// The directories that are searched for commands, in this order.
    pub path: Vec<String>,
    /// The text shown before each line of input.
    pub prompt: String,
    /// The working directory.
    pub cwd: String,
}

/// Whether arguments make a login shell: a single argument that begins with
/// `-`, or a program name and the one option `-l`.
pub open spec fn login(args: Seq<Seq<char>>) -> bool {
    if args.len() == 1 {
        args[0].len() > 0 && args[0][0] == '-'
    } else if args.len() == 2 {
        args[1] == seq!['-', 'l']
    } else {
        false
    }
}

/// The prompt for a user on a host: the name of the host, `#` for the
/// superuser and `%` for anyone else, and a space. A host without a known
/// name is called `hostname`.
pub open spec fn prompt_of(user: UserId, hostname: Option<Seq<char>>) -> Seq<char> {
    let host = match hostname {
        Some(name) => name,
        None => "hostname"@,
    };
    host + seq![if user == 0 { '#' } else { '%' }, ' ']
}

/// Makes the text of the prompt.
pub fn get_prompt(user: UserId, hostname: Option<&str>) -> (prompt: String)
    ensures
        prompt@ == prompt_of(
            user,
            match hostname {
                Some(name) => Some(name@),
                None => None,
            },
        ),
{
    let host = match hostname {
        Some(name) => name,
        None => "hostname",
    };
    let suffix = if user == 0 {
        "# "
    } else {
        "% "
    };
    proof {
        reveal_strlit("# ");
        reveal_strlit("% ");
    }
    host.to_string().concat(suffix)
}

/// Whether a user may have a file interpreted: the file is the user's own and
/// its owner may read it, or it belongs to the user's group and the group may
/// read it.
pub open spec fn readable(stat: FileStat, user: UserId, group: GroupId) -> bool {
    (user == stat.uid && stat.mode & 0o400 != 0) || (group == stat.gid && stat.mode & 0o040 != 0)
}

/// Checks whether a file is readable and either is owned by the user or
/// belongs to the user's group.
pub fn check_file(stat: &FileStat, user: UserId, group: GroupId) -> (allowed: bool)
    ensures
        allowed == readable(*stat, user, group),
{
    let can_user_read = stat.mode & 0o400 != 0;
    let can_group_read = stat.mode & 0o040 != 0;
    (user == stat.uid && can_user_read) || (group == stat.gid && can_group_read)
}

/// The path of the script that every login shell runs first.
pub open spec fn system_login() -> Seq<char> {
    "/etc/.login"@
}

/// The names of the scripts that a shell runs when it starts, in their
/// order: a login shell the system-wide login script, then the user's
/// `.cshrc` and `.login`; any other shell the user's `.cshrc` alone.
///
/// Every one of them, the system-wide script too, is run only where
/// [`readable`] allows it on what `stat` says of the file: each name goes
/// through [`Shell::interpret_rc`]. The name of the system-wide script starts
/// at the root and so is its own path; the others are looked for in the home
/// directory.
pub open spec fn startup(is_login: bool) -> Seq<Seq<char>> {
    if is_login {
        seq![system_login(), ".cshrc"@, ".login"@]
    } else {
        seq![".cshrc"@]
    }
}

/// What is done for an argument of the shell.
#[derive(Debug, Clone, PartialEq, Eq)]
pub enum Job {
    /// Commands are read from the standard input.
    Interact,
    /// The script at this path is interpreted.
    Interpret(String),
}

/// What a [`Job`] stands for in contracts.
pub enum JobModel {
    Interact,
    Interpret(Seq<char>),
}

impl DeepView for Job {
    type V = JobModel;

    open spec fn deep_view(&self) -> JobModel {
        match self {
            Job::Interact => JobModel::Interact,
            Job::Interpret(path) => JobModel::Interpret(path@),
        }
    }
}

/// The jobs that arguments ask for, in their order: `-` asks for commands
/// from the standard input, any other argument that begins with `-` is an
/// option and asks for nothing, and every other argument is the path of a
/// script.
pub open spec fn jobs(args: Seq<Seq<char>>) -> Seq<JobModel>
    decreases args.len(),
{
    if args.len() == 0 {
        seq![]
    } else {
        let first = args[0];
        let rest = jobs(args.drop_first());
        if first == seq!['-'] {
            seq![JobModel::Interact] + rest
        } else if first.len() > 0 && first[0] == '-' {
            rest
        } else {
            seq![JobModel::Interpret(first)] + rest
        }
    }
}

/// How a script is run.
#[derive(Debug, Clone, PartialEq, Eq)]
pub enum Script {
    /// The script names its own interpreter and is run as a program.
    Execute(Invocation),
    /// The lines after the first are commands of this shell.
    Read,
}

/// What a [`Script`] stands for in contracts.
pub enum ScriptModel {
    Execute(InvocationModel),
    Read,
}

impl DeepView for Script {
    type V = ScriptModel;

    open spec fn deep_view(&self) -> ScriptModel {
        match self {
            Script::Execute(invocation) => ScriptModel::Execute(invocation.deep_view()),
            Script::Read => ScriptModel::Read,
        }
    }
}

/// How the script at `path` is run, given its first line: as a program of
/// its own, with its path as its only argument, where the line begins with
/// `#!`; by this shell otherwise.
pub open spec fn script_of(path: Seq<char>, header: Seq<char>) -> ScriptModel {
    if starts_with(header, seq!['#', '!']) {
        ScriptModel::Execute(
            InvocationModel {
                environment: seq![],
                command: path,
                arguments: seq![path],
                redirections: seq![],
            },
        )
    } else {
        ScriptModel::Read
    }
}

/// What the shell wants done after a line of input.
#[derive(Debug, Clone, PartialEq, Eq)]
pub enum Step {
    /// No more lines are read.
    Stop,
    /// The text is written to the standard output.
    Print(String),
    /// The program is run, and the shell is told how it ended.
    Run(Invocation),
    /// The line could not be run; the text says why and is shown to the user.
    Report(String),
}

/// What a [`Step`] stands for in contracts.
pub enum StepModel {
    Stop,
    Print(Seq<char>),
    Run(InvocationModel),
    Report(Seq<char>),
}

impl DeepView for Step {
    type V = StepModel;

    open spec fn deep_view(&self) -> StepModel {
        match self {
            Step::Stop => StepModel::Stop,
            Step::Print(text) => StepModel::Print(text@),
            Step::Run(invocation) => StepModel::Run(invocation.deep_view()),
            Step::Report(text) => StepModel::Report(text@),
        }
    }
}

/// The text shown to the user for a line that could not be run.
pub open spec fn report_of(error: crate::native::error::ErrorModel) -> Seq<char> {
    crate::native::error::message_of(error) + seq!['\n']
}

/// What the shell wants done for a command.
pub open spec fn step_of(command: Result<CommandModel, crate::native::error::ErrorModel>) -> StepModel {
    match command {
        Ok(CommandModel::Exit) => StepModel::Stop,
        Ok(CommandModel::Print(text)) => StepModel::Print(text),
        Ok(CommandModel::Run(invocation)) => StepModel::Run(invocation),
        Err(error) => StepModel::Report(report_of(error)),
    }
}

impl Shell {
    /// Makes the state of a shell out of what the system says about the
    /// process: its arguments, its user, the value of `PATH` if it is set,
    /// the home directory of the user, the working directory, and the name of
    /// the host if it is known.
    pub fn new(
        argv: Vec<String>,
        user: UserId,
        search_path: Option<&str>,
        home: String,
        cwd: String,
        hostname: Option<&str>,
    ) -> (shell: Shell)
        requires
            argv.len() > 0,
        ensures
            shell.variables@ == Map::<Seq<char>, Seq<char>>::empty(),
            shell.is_login == login(argv.deep_view()),
            shell.argv == argv,
            shell.user == user,
            shell.status == 0,
            shell.home == home,
            shell.path.deep_view() == split(
                match search_path {
                    Some(directories) => directories@,
                    None => default_path(),
                },
                ':',
            ),
            shell.prompt@ == prompt_of(
                user,
                match hostname {
                    Some(name) => Some(name@),
                    None => None,
                },
            ),
            shell.cwd == cwd,
    {
        let path = split_text(
            match search_path {
                Some(directories) => directories,
                None => "/usr/bin",
            },
            ':',
        );
        Shell {
            variables: Variables::new(),
            is_login: Self::is_login(&argv),
            argv,
            user,
            status: 0,
            home,
            path,
            prompt: get_prompt(user, hostname),
            cwd,
        }
    }

    /// Checks whether the arguments make this a login shell.
    pub fn is_login(args: &Vec<String>) -> (is_login: bool)
        requires
            args.len() > 0,
        ensures
            is_login == login(args.deep_view()),
    {
        if args.len() == 1 {
            let first = args[0].as_str();
            !first.is_empty() && first.get_char(0) == '-'
        } else if args.len() == 2 {
            proof {
                reveal_strlit("-l");
                assert("-l"@ == seq!['-', 'l']);
            }
            same_text(args[1].as_str(), "-l")
        } else {
            false
        }
    }

    /// The names of the scripts to run when the shell starts, in their
    /// order. Each of them is to be handed to [`Shell::interpret_rc`], which
    /// says whether it may be run.
    pub fn on_start(&self) -> (scripts: Vec<String>)
        ensures
            scripts.deep_view() == startup(self.is_login),
    {
        let mut scripts: Vec<String> = Vec::new();
        if self.is_login {
            scripts.push("/etc/.login".to_string());
            scripts.push(".cshrc".to_string());
            scripts.push(".login".to_string());
        } else {
            scripts.push(".cshrc".to_string());
        }
        scripts
    }

    /// The path of the script `rc_name`: in the home directory, unless the
    /// name starts at the root and is a path already.
    pub fn rc_file(&self, rc_name: &str) -> (path: String)
        ensures
            path@ == join_path(self.home@, rc_name@),
    {
        joined(self.home.as_str(), rc_name)
    }

    /// Checks whether the script `rc_name` should be interpreted, given what
    /// `stat` says of the file at its path and who asks. Returns its path if
    /// so.
    pub fn interpret_rc(&self, rc_name: &str, stat: &FileStat, user: UserId, group: GroupId) -> (path:
        Option<String>)
        ensures
            match path {
                Some(p) => readable(*stat, user, group) && p@ == join_path(self.home@, rc_name@),
                None => !readable(*stat, user, group),
            },
    {
        if check_file(stat, user, group) {
            Some(self.rc_file(rc_name))
        } else {
            None
        }
    }

    /// Says how the script at `path` is run, given its first line.
    pub fn interpret(&self, path: &str, header: &str) -> (script: Script)
        ensures
            script.deep_view() == script_of(path@, header@),
    {
        let executable = header.unicode_len() >= 2 && header.get_char(0) == '#' && header.get_char(
            1,
        ) == '!';
        proof {
            if header@.len() >= 2 {
                assert(header@.take(2) == seq![header@[0], header@[1]]);
            }
        }
        if executable {
            let mut arguments: Vec<String> = Vec::new();
            arguments.push(path.to_string());
            let invocation = Invocation {
                environment: Vec::new(),
                command: path.to_string(),
                arguments,
                redirections: Vec::new(),
            };
            assert(invocation.deep_view().environment == Seq::<(Seq<char>, Seq<char>)>::empty());
            assert(invocation.deep_view().arguments == seq![path@]);
            assert(invocation.deep_view().redirections == Seq::<
                resolver::RedirectionModel,
            >::empty());
            Script::Execute(invocation)
        } else {
            Script::Read
        }
    }

    /// The jobs that the arguments of the shell ask for, in their order. The
    /// first argument is the name of the shell and asks for nothing.
    pub fn handle_arguments(&self) -> (found: Vec<Job>)
        ensures
            found.deep_view() == jobs(
                if self.argv.len() > 0 {
                    self.argv.deep_view().skip(1)
                } else {
                    seq![]
                },
            ),
    {
        let ghost all = self.argv.deep_view();
        let mut found: Vec<Job> = Vec::new();
        if self.argv.len() == 0 {
            return found;
        }
        let mut i: usize = 1;
        while i < self.argv.len()
            invariant
                1 <= i <= self.argv.len(),
                all == self.argv.deep_view(),
                jobs(all.skip(1)) == found.deep_view() + jobs(all.skip(i as int)),
            decreases self.argv.len() - i,
        {
            let argument = self.argv[i].as_str();
            let ghost rest = all.skip(i as int);
            proof {
                assert(rest.drop_first() == all.skip(i + 1));
                reveal_strlit("-");
                assert("-"@ == seq!['-']);
            }
            if same_text(argument, "-") {
                found.push(Job::Interact);
            } else if !argument.is_empty() && argument.get_char(0) == '-' {
            } else {
                found.push(Job::Interpret(argument.to_string()));
            }
            i += 1;
        }
        found
    }

    /// Takes a line of input and says what is to be done for it. A line that
    /// cannot be run leaves the status of a failure behind.
    pub fn interact(&mut self, line: &str, environment: &Vec<(String, String)>) -> (step: Step)
        ensures
            step.deep_view() == step_of(
                command_of(old(self).variables@, environment.deep_view(), old(self).cwd@, line@),
            ),
            final(self).status == (if step is Report {
                FAILURE
            } else {
                old(self).status
            }),
            final(self).variables == old(self).variables,
            final(self).is_login == old(self).is_login,
            final(self).argv == old(self).argv,
            final(self).user == old(self).user,
            final(self).home == old(self).home,
            final(self).path == old(self).path,
            final(self).prompt == old(self).prompt,
            final(self).cwd == old(self).cwd,
    {
        match self.parse(line, environment) {
            Ok(Command::Exit) => Step::Stop,
            Ok(Command::Print(text)) => Step::Print(text),
            Ok(Command::Run(invocation)) => Step::Run(invocation),
            Err(error) => {
                self.status = FAILURE;
                proof {
                    reveal_strlit("\n");
                    assert("\n"@ == seq!['\n']);
                }
                Step::Report(error.message().concat("\n"))
            },
        }
    }

    /// Takes note of how the program of the last line ended: with a status,
    /// or without having run at all. Returns the text to show to the user in
    /// the second case.
    pub fn finish(&mut self, outcome: Result<ExitCode, Error>) -> (report: Option<String>)
        ensures
            match outcome {
                Ok(status) => final(self).status == status && report.is_none(),
                Err(error) => final(self).status == FAILURE && report.is_some()
                    && report.unwrap()@ == report_of(error.deep_view()),
            },
            final(self).variables == old(self).variables,
            final(self).is_login == old(self).is_login,
            final(self).argv == old(self).argv,
            final(self).user == old(self).user,
            final(self).home == old(self).home,
            final(self).path == old(self).path,
            final(self).prompt == old(self).prompt,
            final(self).cwd == old(self).cwd,
    {
        match outcome {
            Ok(status) => {
                self.status = status;
                None
            },
            Err(error) => {
                self.status = FAILURE;
                proof {
                    reveal_strlit("\n");
                }
                Some(error.message().concat("\n"))
            },
        }
    }
}

} // verus!
