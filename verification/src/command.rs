//! The commands of the language: their names, and what the help says of
//! them.
use crate::text::{
    chars_of, lemma_views_push, push_str, same_chars, string_views, strings_of, views,
};
use vstd::prelude::*;

verus! {

/// A command of the language.
#[derive(Debug, Clone, Copy, PartialEq, Eq)]
pub enum Command {
    /// `:argto`: puts the values that follow a flag on the command line into a variable.
    ArgumentTo,
    /// `:and`: the next comparison is joined to the last result by and.
    And,
    /// `:contains`: whether the subject holds the input.
    Contains,
    /// `:cpdc`: copies the files of a directory that have changed.
    CopyDirectoryCached,
    /// `:cpc`: copies a file if it has changed since it was last copied.
    CopyFileCached,
    /// `:cpd`: copies a directory.
    CopyDirectory,
    /// `:cp`: copies a file.
    CopyFile,
    /// `:cd`: changes the working directory.
    ChangeDirectory,
    /// `:empty`: whether the subject is empty.
    IsEmpty,
    /// `:enw`: starts a process and does not wait for it.
    ExecuteDetached,
    /// `:ep`: runs a process that writes where the interpreter writes.
    ExecuteInherited,
    /// `:eq`: whether the subject is the input.
    Equals,
    /// `:e`: runs a process and keeps what it wrote.
    Execute,
    /// `:gotof`: jumps to a phase if the last result is false.
    GotoIfFalse,
    /// `:gotot`: jumps to a phase if the last result is true.
    GotoIfTrue,
    /// `:goto`: jumps to a phase.
    Goto,
    /// `:hasarg`: whether one of the arguments named was given on the command line.
    HasArgument,
    /// `:hasvar`: whether the variable has a value.
    HasVariable,
    /// `:hv`: shows the long help and quits.
    HelpVerbose,
    /// `:h`: shows the short help and quits.
    Help,
    /// `:ise`: whether the last process failed.
    ProcessFailed,
    /// `:iss`: whether the last process succeeded.
    ProcessSucceeded,
    /// `:if`: sets the subject of the comparisons that follow.
    If,
    /// `:leo`: logs what the last process wrote.
    LogOutput,
    /// `:loe`: logs the input if the last process failed.
    LogOnError,
    /// `:los`: logs the input if the last process succeeded.
    LogOnSuccess,
    /// `:lf`: logs the input if the last result is false.
    LogIfFalse,
    /// `:lt`: logs the input if the last result is true.
    LogIfTrue,
    /// `:l`: logs the input.
    Log,
    /// `:mvd`: moves a directory; not part of the language yet.
    MoveDirectory,
    /// `:mv`: moves a file.
    MoveFile,
    /// `:neq`: whether the subject is not the input.
    NotEquals,
    /// `:not`: turns the last result round.
    Not,
    /// `:or`: the next comparison is joined to the last result by or.
    Or,
    /// `:qoee`: leaves with exit code 1 if the last process failed.
    QuitWithErrorOnError,
    /// `:qoe`: quits if the last process failed.
    QuitOnError,
    /// `:qef`: leaves with exit code 1 if the last result is false.
    QuitWithErrorIfFalse,
    /// `:qet`: leaves with exit code 1 if the last result is true.
    QuitWithErrorIfTrue,
    /// `:qf`: quits if the last result is false.
    QuitIfFalse,
    /// `:qt`: quits if the last result is true.
    QuitIfTrue,
    /// `:qe`: leaves with exit code 1.
    QuitWithError,
    /// `:q`: quits.
    Quit,
    /// `:setf`: sets a variable if the last result is false.
    AssignIfFalse,
    /// `:sett`: sets a variable if the last result is true.
    AssignIfTrue,
    /// `:set`: sets a variable.
    Assign,
    /// `:silent`: stops the announcing of phases.
    Silent,
    /// `:tb`: begins a new table.
    TableBegin,
    /// `:te`: prints the table.
    TableEnd,
    /// `:th`: sets the headers of the table.
    TableHeaders,
    /// `:tr`: adds a row to the table.
    TableRow,
    /// `:wc`: writes the copy cache now.
    WriteCache,
    /// `:ws`: waits for a number of seconds.
    Wait,
}

/// The name by which a script calls the command, with its colon.
pub open spec fn command_name(command: Command) -> Seq<char> {
    match command {
        Command::ArgumentTo => ":argto"@,
        Command::And => ":and"@,
        Command::Contains => ":contains"@,
        Command::CopyDirectoryCached => ":cpdc"@,
        Command::CopyFileCached => ":cpc"@,
        Command::CopyDirectory => ":cpd"@,
        Command::CopyFile => ":cp"@,
        Command::ChangeDirectory => ":cd"@,
        Command::IsEmpty => ":empty"@,
        Command::ExecuteDetached => ":enw"@,
        Command::ExecuteInherited => ":ep"@,
        Command::Equals => ":eq"@,
        Command::Execute => ":e"@,
        Command::GotoIfFalse => ":gotof"@,
        Command::GotoIfTrue => ":gotot"@,
        Command::Goto => ":goto"@,
        Command::HasArgument => ":hasarg"@,
        Command::HasVariable => ":hasvar"@,
        Command::HelpVerbose => ":hv"@,
        Command::Help => ":h"@,
        Command::ProcessFailed => ":ise"@,
        Command::ProcessSucceeded => ":iss"@,
        Command::If => ":if"@,
        Command::LogOutput => ":leo"@,
        Command::LogOnError => ":loe"@,
        Command::LogOnSuccess => ":los"@,
        Command::LogIfFalse => ":lf"@,
        Command::LogIfTrue => ":lt"@,
        Command::Log => ":l"@,
        Command::MoveDirectory => ":mvd"@,
        Command::MoveFile => ":mv"@,
        Command::NotEquals => ":neq"@,
        Command::Not => ":not"@,
        Command::Or => ":or"@,
        Command::QuitWithErrorOnError => ":qoee"@,
        Command::QuitOnError => ":qoe"@,
        Command::QuitWithErrorIfFalse => ":qef"@,
        Command::QuitWithErrorIfTrue => ":qet"@,
        Command::QuitIfFalse => ":qf"@,
        Command::QuitIfTrue => ":qt"@,
        Command::QuitWithError => ":qe"@,
        Command::Quit => ":q"@,
        Command::AssignIfFalse => ":setf"@,
        Command::AssignIfTrue => ":sett"@,
        Command::Assign => ":set"@,
        Command::Silent => ":silent"@,
        Command::TableBegin => ":tb"@,
        Command::TableEnd => ":te"@,
        Command::TableHeaders => ":th"@,
        Command::TableRow => ":tr"@,
        Command::WriteCache => ":wc"@,
        Command::Wait => ":ws"@,
    }
}

/// The command that a name calls, if it calls one. `:help` is a second name
/// of `:hv`.
pub open spec fn command_named(name: Seq<char>) -> Option<Command> {
    if name == ":argto"@ {
        Some(Command::ArgumentTo)
    } else if name == ":and"@ {
        Some(Command::And)
    } else if name == ":contains"@ {
        Some(Command::Contains)
    } else if name == ":cpdc"@ {
        Some(Command::CopyDirectoryCached)
    } else if name == ":cpc"@ {
        Some(Command::CopyFileCached)
    } else if name == ":cpd"@ {
        Some(Command::CopyDirectory)
    } else if name == ":cp"@ {
        Some(Command::CopyFile)
    } else if name == ":cd"@ {
        Some(Command::ChangeDirectory)
    } else if name == ":empty"@ {
        Some(Command::IsEmpty)
    } else if name == ":enw"@ {
        Some(Command::ExecuteDetached)
    } else if name == ":ep"@ {
        Some(Command::ExecuteInherited)
    } else if name == ":eq"@ {
        Some(Command::Equals)
    } else if name == ":e"@ {
        Some(Command::Execute)
    } else if name == ":gotof"@ {
        Some(Command::GotoIfFalse)
    } else if name == ":gotot"@ {
        Some(Command::GotoIfTrue)
    } else if name == ":goto"@ {
        Some(Command::Goto)
    } else if name == ":hasarg"@ {
        Some(Command::HasArgument)
    } else if name == ":hasvar"@ {
        Some(Command::HasVariable)
    } else if name == ":hv"@ {
        Some(Command::HelpVerbose)
    } else if name == ":h"@ {
        Some(Command::Help)
    } else if name == ":ise"@ {
        Some(Command::ProcessFailed)
    } else if name == ":iss"@ {
        Some(Command::ProcessSucceeded)
    } else if name == ":if"@ {
        Some(Command::If)
    } else if name == ":leo"@ {
        Some(Command::LogOutput)
    } else if name == ":loe"@ {
        Some(Command::LogOnError)
    } else if name == ":los"@ {
        Some(Command::LogOnSuccess)
    } else if name == ":lf"@ {
        Some(Command::LogIfFalse)
    } else if name == ":lt"@ {
        Some(Command::LogIfTrue)
    } else if name == ":l"@ {
        Some(Command::Log)
    } else if name == ":mvd"@ {
        Some(Command::MoveDirectory)
    } else if name == ":mv"@ {
        Some(Command::MoveFile)
    } else if name == ":neq"@ {
        Some(Command::NotEquals)
    } else if name == ":not"@ {
        Some(Command::Not)
    } else if name == ":or"@ {
        Some(Command::Or)
    } else if name == ":qoee"@ {
        Some(Command::QuitWithErrorOnError)
    } else if name == ":qoe"@ {
        Some(Command::QuitOnError)
    } else if name == ":qef"@ {
        Some(Command::QuitWithErrorIfFalse)
    } else if name == ":qet"@ {
        Some(Command::QuitWithErrorIfTrue)
    } else if name == ":qf"@ {
        Some(Command::QuitIfFalse)
    } else if name == ":qt"@ {
        Some(Command::QuitIfTrue)
    } else if name == ":qe"@ {
        Some(Command::QuitWithError)
    } else if name == ":q"@ {
        Some(Command::Quit)
    } else if name == ":setf"@ {
        Some(Command::AssignIfFalse)
    } else if name == ":sett"@ {
        Some(Command::AssignIfTrue)
    } else if name == ":set"@ {
        Some(Command::Assign)
    } else if name == ":silent"@ {
        Some(Command::Silent)
    } else if name == ":tb"@ {
        Some(Command::TableBegin)
    } else if name == ":te"@ {
        Some(Command::TableEnd)
    } else if name == ":th"@ {
        Some(Command::TableHeaders)
    } else if name == ":tr"@ {
        Some(Command::TableRow)
    } else if name == ":wc"@ {
        Some(Command::WriteCache)
    } else if name == ":ws"@ {
        Some(Command::Wait)
    } else if name == ":help"@ {
        Some(Command::HelpVerbose)
    } else {
        None
    }
}

/// Whether `name` is the text `literal`.
fn is_text(name: &Vec<char>, literal: &str) -> (same: bool)
    ensures
        same == (name@ == literal@),
{
    let chars = chars_of(literal);
    same_chars(name, &chars)
}

impl Command {
    /// The name by which a script calls the command, with its colon.
    pub fn name(&self) -> (name: &'static str)
        ensures
            name@ == command_name(*self),
    {
        match self {
            Command::ArgumentTo => ":argto",
            Command::And => ":and",
            Command::Contains => ":contains",
            Command::CopyDirectoryCached => ":cpdc",
            Command::CopyFileCached => ":cpc",
            Command::CopyDirectory => ":cpd",
            Command::CopyFile => ":cp",
            Command::ChangeDirectory => ":cd",
            Command::IsEmpty => ":empty",
            Command::ExecuteDetached => ":enw",
            Command::ExecuteInherited => ":ep",
            Command::Equals => ":eq",
            Command::Execute => ":e",
            Command::GotoIfFalse => ":gotof",
            Command::GotoIfTrue => ":gotot",
            Command::Goto => ":goto",
            Command::HasArgument => ":hasarg",
            Command::HasVariable => ":hasvar",
            Command::HelpVerbose => ":hv",
            Command::Help => ":h",
            Command::ProcessFailed => ":ise",
            Command::ProcessSucceeded => ":iss",
            Command::If => ":if",
            Command::LogOutput => ":leo",
            Command::LogOnError => ":loe",
            Command::LogOnSuccess => ":los",
            Command::LogIfFalse => ":lf",
            Command::LogIfTrue => ":lt",
            Command::Log => ":l",
            Command::MoveDirectory => ":mvd",
            Command::MoveFile => ":mv",
            Command::NotEquals => ":neq",
            Command::Not => ":not",
            Command::Or => ":or",
            Command::QuitWithErrorOnError => ":qoee",
            Command::QuitOnError => ":qoe",
            Command::QuitWithErrorIfFalse => ":qef",
            Command::QuitWithErrorIfTrue => ":qet",
            Command::QuitIfFalse => ":qf",
            Command::QuitIfTrue => ":qt",
            Command::QuitWithError => ":qe",
            Command::Quit => ":q",
            Command::AssignIfFalse => ":setf",
            Command::AssignIfTrue => ":sett",
            Command::Assign => ":set",
            Command::Silent => ":silent",
            Command::TableBegin => ":tb",
            Command::TableEnd => ":te",
            Command::TableHeaders => ":th",
            Command::TableRow => ":tr",
            Command::WriteCache => ":wc",
            Command::Wait => ":ws",
        }
    }

    /// The command that a name calls, if it calls one.
    pub fn named(name: &str) -> (command: Option<Command>)
        ensures
            command == command_named(name@),
    {
        let chars = chars_of(name);
        if is_text(&chars, ":argto") {
            Some(Command::ArgumentTo)
        } else if is_text(&chars, ":and") {
            Some(Command::And)
        } else if is_text(&chars, ":contains") {
            Some(Command::Contains)
        } else if is_text(&chars, ":cpdc") {
            Some(Command::CopyDirectoryCached)
        } else if is_text(&chars, ":cpc") {
            Some(Command::CopyFileCached)
        } else if is_text(&chars, ":cpd") {
            Some(Command::CopyDirectory)
        } else if is_text(&chars, ":cp") {
            Some(Command::CopyFile)
        } else if is_text(&chars, ":cd") {
            Some(Command::ChangeDirectory)
        } else if is_text(&chars, ":empty") {
            Some(Command::IsEmpty)
        } else if is_text(&chars, ":enw") {
            Some(Command::ExecuteDetached)
        } else if is_text(&chars, ":ep") {
            Some(Command::ExecuteInherited)
        } else if is_text(&chars, ":eq") {
            Some(Command::Equals)
        } else if is_text(&chars, ":e") {
            Some(Command::Execute)
        } else if is_text(&chars, ":gotof") {
            Some(Command::GotoIfFalse)
        } else if is_text(&chars, ":gotot") {
            Some(Command::GotoIfTrue)
        } else if is_text(&chars, ":goto") {
            Some(Command::Goto)
        } else if is_text(&chars, ":hasarg") {
            Some(Command::HasArgument)
        } else if is_text(&chars, ":hasvar") {
            Some(Command::HasVariable)
        } else if is_text(&chars, ":hv") {
            Some(Command::HelpVerbose)
        } else if is_text(&chars, ":h") {
            Some(Command::Help)
        } else if is_text(&chars, ":ise") {
            Some(Command::ProcessFailed)
        } else if is_text(&chars, ":iss") {
            Some(Command::ProcessSucceeded)
        } else if is_text(&chars, ":if") {
            Some(Command::If)
        } else if is_text(&chars, ":leo") {
            Some(Command::LogOutput)
        } else if is_text(&chars, ":loe") {
            Some(Command::LogOnError)
        } else if is_text(&chars, ":los") {
            Some(Command::LogOnSuccess)
        } else if is_text(&chars, ":lf") {
            Some(Command::LogIfFalse)
        } else if is_text(&chars, ":lt") {
            Some(Command::LogIfTrue)
        } else if is_text(&chars, ":l") {
            Some(Command::Log)
        } else if is_text(&chars, ":mvd") {
            Some(Command::MoveDirectory)
        } else if is_text(&chars, ":mv") {
            Some(Command::MoveFile)
        } else if is_text(&chars, ":neq") {
            Some(Command::NotEquals)
        } else if is_text(&chars, ":not") {
            Some(Command::Not)
        } else if is_text(&chars, ":or") {
            Some(Command::Or)
        } else if is_text(&chars, ":qoee") {
            Some(Command::QuitWithErrorOnError)
        } else if is_text(&chars, ":qoe") {
            Some(Command::QuitOnError)
        } else if is_text(&chars, ":qef") {
            Some(Command::QuitWithErrorIfFalse)
        } else if is_text(&chars, ":qet") {
            Some(Command::QuitWithErrorIfTrue)
        } else if is_text(&chars, ":qf") {
            Some(Command::QuitIfFalse)
        } else if is_text(&chars, ":qt") {
            Some(Command::QuitIfTrue)
        } else if is_text(&chars, ":qe") {
            Some(Command::QuitWithError)
        } else if is_text(&chars, ":q") {
            Some(Command::Quit)
        } else if is_text(&chars, ":setf") {
            Some(Command::AssignIfFalse)
        } else if is_text(&chars, ":sett") {
            Some(Command::AssignIfTrue)
        } else if is_text(&chars, ":set") {
            Some(Command::Assign)
        } else if is_text(&chars, ":silent") {
            Some(Command::Silent)
        } else if is_text(&chars, ":tb") {
            Some(Command::TableBegin)
        } else if is_text(&chars, ":te") {
            Some(Command::TableEnd)
        } else if is_text(&chars, ":th") {
            Some(Command::TableHeaders)
        } else if is_text(&chars, ":tr") {
            Some(Command::TableRow)
        } else if is_text(&chars, ":wc") {
            Some(Command::WriteCache)
        } else if is_text(&chars, ":ws") {
            Some(Command::Wait)
        } else if is_text(&chars, ":help") {
            Some(Command::HelpVerbose)
        } else {
            None
        }
    }

    /// What the help says of the command.
    pub fn help(&self) -> (text: &'static str)
        ensures
            text@ == command_help(*self),
    {
        match self {
            Command::ArgumentTo => "gets the value of an argument and assigns a variable (sets to empty string if no value)",
            Command::And => "returns true if the last result and the following result are true",
            Command::Contains => "returns true if the value in :if contains the specified string",
            Command::CopyDirectoryCached => "copies directory's files that have changed",
            Command::CopyFileCached => "copy the specified file if it has changed since last copy",
            Command::CopyDirectory => "copies directory",
            Command::CopyFile => "copies the specified file",
            Command::ChangeDirectory => "sets the current working directory",
            Command::IsEmpty => "sets last result to true if the last :if was empty",
            Command::ExecuteDetached => "executes process without waiting for the process to exit",
            Command::ExecuteInherited => "executes process while inheriting stdout and stderr from lb.exe",
            Command::Equals => "compares the value in :if to the value specified in :eq (is equal)",
            Command::Execute => "executes process",
            Command::GotoIfFalse => "goes to specified phase if last evaluation command returned false",
            Command::GotoIfTrue => "goes to specified phase if last evaluation command returned true",
            Command::Goto => "goes to specified phase",
            Command::HasArgument => "sets last result to true if the specified argument(s) were passed to lb",
            Command::HasVariable => "sets last result to true if the specified variable has been set (do not use $ unless you need to)",
            Command::HelpVerbose => "shows verbose help",
            Command::Help => "shows minimal help",
            Command::ProcessFailed => "sets last result to true if the last process exited with an error exit code",
            Command::ProcessSucceeded => "sets last result to true if the last process exited with a success exit code",
            Command::If => "sets the value to be evaluated by the following command",
            Command::LogOutput => "log stdout and stderr",
            Command::LogOnError => "logs specified message if last :e returned error code",
            Command::LogOnSuccess => "logs specified message if last :e returned success code",
            Command::LogIfFalse => "logs specified message if :if returned false",
            Command::LogIfTrue => "logs specified message if :if returned true",
            Command::Log => "logs specified message",
            Command::MoveDirectory => "moves the specified directory (not available yet)",
            Command::MoveFile => "moves the specified file",
            Command::NotEquals => "compares the value in :if to the value specified in :neq (is not equal)",
            Command::Not => "negates the result of the last comparison",
            Command::Or => "returns true if the last result or the following result are true",
            Command::QuitWithErrorOnError => "quits script with exit code 1 (error) if last :e returned error code",
            Command::QuitOnError => "quits script if last :e returned error code",
            Command::QuitWithErrorIfFalse => "quits script with exit code 1 (error) if last :if returned false",
            Command::QuitWithErrorIfTrue => "quits script with exit code 1 (error) if last :if returned true",
            Command::QuitIfFalse => "quits script if last :if returned false",
            Command::QuitIfTrue => "quits script if last :if returned true",
            Command::QuitWithError => "quits script with exit code 1 (error)",
            Command::Quit => "quits script",
            Command::AssignIfFalse => "sets a variable if last :if returned false (do not prefix with $ unless you're setting the variable in the variable)",
            Command::AssignIfTrue => "sets a variable if last :if returned true (do not prefix with $ unless you're setting the variable in the variable)",
            Command::Assign => "sets a variable unconditionally (do not prefix with $ unless you're setting the variable in the variable)",
            Command::Silent => "stops printing \"Starting phase[...]\"",
            Command::TableBegin => "start a new table",
            Command::TableEnd => "ends and prints the table",
            Command::TableHeaders => "sets the headers of the table",
            Command::TableRow => "adds a row to the table",
            Command::WriteCache => "writes the cache before continuing, otherwise cache is written at normal script exit",
            Command::Wait => "waits seconds",
        }
    }

    /// The input that the help shows the command with.
    pub fn example(&self) -> (text: &'static str)
        ensures
            text@ == command_example(*self),
    {
        match self {
            Command::ArgumentTo => "\"-n\" variablename",
            Command::And => "",
            Command::Contains => "build-only",
            Command::CopyDirectoryCached => "\"C:/1\" \"C:/2\"",
            Command::CopyFileCached => "\"C:/1.txt\" \"C:/2.txt\"",
            Command::CopyDirectory => "\"C:/1\" \"C:/2\"",
            Command::CopyFile => "\"C:/1.txt\" \"C:/2.txt\"",
            Command::ChangeDirectory => "test_dir",
            Command::IsEmpty => "",
            Command::ExecuteDetached => "cargo build",
            Command::ExecuteInherited => "cargo build",
            Command::Equals => "hello",
            Command::Execute => "cargo build",
            Command::GotoIfFalse => "@build-only",
            Command::GotoIfTrue => "@build-only",
            Command::Goto => "@end",
            Command::HasArgument => "test-only -t",
            Command::HasVariable => "test",
            Command::HelpVerbose => "",
            Command::Help => "",
            Command::ProcessFailed => "",
            Command::ProcessSucceeded => "",
            Command::If => "$args",
            Command::LogOutput => "",
            Command::LogOnError => "process returned error: $stderr",
            Command::LogOnSuccess => "process was successful: $stdout",
            Command::LogIfFalse => "was false!",
            Command::LogIfTrue => "was true!",
            Command::Log => "hello world",
            Command::MoveDirectory => "",
            Command::MoveFile => "\"C:/1.txt\" \"C:/2.txt\"",
            Command::NotEquals => "hello",
            Command::Not => "",
            Command::Or => "",
            Command::QuitWithErrorOnError => "",
            Command::QuitOnError => "",
            Command::QuitWithErrorIfFalse => "",
            Command::QuitWithErrorIfTrue => "",
            Command::QuitIfFalse => "",
            Command::QuitIfTrue => "",
            Command::QuitWithError => "",
            Command::Quit => "",
            Command::AssignIfFalse => "profile \"\"",
            Command::AssignIfTrue => "profile \"--release\"",
            Command::Assign => "savewd $pwd",
            Command::Silent => "",
            Command::TableBegin => "",
            Command::TableEnd => "",
            Command::TableHeaders => "Header-1 Header-2",
            Command::TableRow => "Value-1 Value-2",
            Command::WriteCache => "",
            Command::Wait => "1",
        }
    }

    /// The command at the given place of the help, counted from 0.
    pub fn at(place: usize) -> (command: Option<Command>)
        ensures
            command == help_place(place),
    {
        match place {
            0 => Some(Command::ArgumentTo),
            1 => Some(Command::And),
            2 => Some(Command::Contains),
            3 => Some(Command::CopyDirectoryCached),
            4 => Some(Command::CopyFileCached),
            5 => Some(Command::CopyDirectory),
            6 => Some(Command::CopyFile),
            7 => Some(Command::ChangeDirectory),
            8 => Some(Command::IsEmpty),
            9 => Some(Command::ExecuteDetached),
            10 => Some(Command::ExecuteInherited),
            11 => Some(Command::Equals),
            12 => Some(Command::Execute),
            13 => Some(Command::GotoIfFalse),
            14 => Some(Command::GotoIfTrue),
            15 => Some(Command::Goto),
            16 => Some(Command::HasArgument),
            17 => Some(Command::HasVariable),
            18 => Some(Command::HelpVerbose),
            19 => Some(Command::Help),
            20 => Some(Command::ProcessFailed),
            21 => Some(Command::ProcessSucceeded),
            22 => Some(Command::If),
            23 => Some(Command::LogOutput),
            24 => Some(Command::LogOnError),
            25 => Some(Command::LogOnSuccess),
            26 => Some(Command::LogIfFalse),
            27 => Some(Command::LogIfTrue),
            28 => Some(Command::Log),
            29 => Some(Command::MoveDirectory),
            30 => Some(Command::MoveFile),
            31 => Some(Command::NotEquals),
            32 => Some(Command::Not),
            33 => Some(Command::Or),
            34 => Some(Command::QuitWithErrorOnError),
            35 => Some(Command::QuitOnError),
            36 => Some(Command::QuitWithErrorIfFalse),
            37 => Some(Command::QuitWithErrorIfTrue),
            38 => Some(Command::QuitIfFalse),
            39 => Some(Command::QuitIfTrue),
            40 => Some(Command::QuitWithError),
            41 => Some(Command::Quit),
            42 => Some(Command::AssignIfFalse),
            43 => Some(Command::AssignIfTrue),
            44 => Some(Command::Assign),
            45 => Some(Command::Silent),
            46 => Some(Command::TableBegin),
            47 => Some(Command::TableEnd),
            48 => Some(Command::TableHeaders),
            49 => Some(Command::TableRow),
            50 => Some(Command::WriteCache),
            51 => Some(Command::Wait),
            _ => None,
        }
    }

    /// The commands in the order in which the help lists them.
    pub fn all() -> (commands: Vec<Command>)
        ensures
            commands@ == help_order(),
    {
        let mut commands: Vec<Command> = Vec::new();
        let mut place: usize = 0;
        while place < COMMAND_COUNT
            invariant
                place <= COMMAND_COUNT,
                commands.len() == place,
                forall|i: int|
                    0 <= i < place ==> help_place(i as usize) == Some(#[trigger] commands@[i]),
            decreases COMMAND_COUNT - place,
        {
            match Command::at(place) {
                Some(command) => {
                    commands.push(command);
                },
                None => {
                    assert(false);
                },
            }
            place += 1;
        }
        assert(commands@ =~= help_order());
        commands
    }
}

/// How many commands the language has.
pub const COMMAND_COUNT: usize = 52;

/// The command at the given place of the help, counted from 0.
pub open spec fn help_place(place: usize) -> Option<Command> {
    match place {
        0 => Some(Command::ArgumentTo),
        1 => Some(Command::And),
        2 => Some(Command::Contains),
        3 => Some(Command::CopyDirectoryCached),
        4 => Some(Command::CopyFileCached),
        5 => Some(Command::CopyDirectory),
        6 => Some(Command::CopyFile),
        7 => Some(Command::ChangeDirectory),
        8 => Some(Command::IsEmpty),
        9 => Some(Command::ExecuteDetached),
        10 => Some(Command::ExecuteInherited),
        11 => Some(Command::Equals),
        12 => Some(Command::Execute),
        13 => Some(Command::GotoIfFalse),
        14 => Some(Command::GotoIfTrue),
        15 => Some(Command::Goto),
        16 => Some(Command::HasArgument),
        17 => Some(Command::HasVariable),
        18 => Some(Command::HelpVerbose),
        19 => Some(Command::Help),
        20 => Some(Command::ProcessFailed),
        21 => Some(Command::ProcessSucceeded),
        22 => Some(Command::If),
        23 => Some(Command::LogOutput),
        24 => Some(Command::LogOnError),
        25 => Some(Command::LogOnSuccess),
        26 => Some(Command::LogIfFalse),
        27 => Some(Command::LogIfTrue),
        28 => Some(Command::Log),
        29 => Some(Command::MoveDirectory),
        30 => Some(Command::MoveFile),
        31 => Some(Command::NotEquals),
        32 => Some(Command::Not),
        33 => Some(Command::Or),
        34 => Some(Command::QuitWithErrorOnError),
        35 => Some(Command::QuitOnError),
        36 => Some(Command::QuitWithErrorIfFalse),
        37 => Some(Command::QuitWithErrorIfTrue),
        38 => Some(Command::QuitIfFalse),
        39 => Some(Command::QuitIfTrue),
        40 => Some(Command::QuitWithError),
        41 => Some(Command::Quit),
        42 => Some(Command::AssignIfFalse),
        43 => Some(Command::AssignIfTrue),
        44 => Some(Command::Assign),
        45 => Some(Command::Silent),
        46 => Some(Command::TableBegin),
        47 => Some(Command::TableEnd),
        48 => Some(Command::TableHeaders),
        49 => Some(Command::TableRow),
        50 => Some(Command::WriteCache),
        51 => Some(Command::Wait),
        _ => None,
    }
}

/// What the help says of the command.
pub open spec fn command_help(command: Command) -> Seq<char> {
    match command {
        Command::ArgumentTo => "gets the value of an argument and assigns a variable (sets to empty string if no value)"@,
        Command::And => "returns true if the last result and the following result are true"@,
        Command::Contains => "returns true if the value in :if contains the specified string"@,
        Command::CopyDirectoryCached => "copies directory's files that have changed"@,
        Command::CopyFileCached => "copy the specified file if it has changed since last copy"@,
        Command::CopyDirectory => "copies directory"@,
        Command::CopyFile => "copies the specified file"@,
        Command::ChangeDirectory => "sets the current working directory"@,
        Command::IsEmpty => "sets last result to true if the last :if was empty"@,
        Command::ExecuteDetached => "executes process without waiting for the process to exit"@,
        Command::ExecuteInherited => "executes process while inheriting stdout and stderr from lb.exe"@,
        Command::Equals => "compares the value in :if to the value specified in :eq (is equal)"@,
        Command::Execute => "executes process"@,
        Command::GotoIfFalse => "goes to specified phase if last evaluation command returned false"@,
        Command::GotoIfTrue => "goes to specified phase if last evaluation command returned true"@,
        Command::Goto => "goes to specified phase"@,
        Command::HasArgument => "sets last result to true if the specified argument(s) were passed to lb"@,
        Command::HasVariable => "sets last result to true if the specified variable has been set (do not use $ unless you need to)"@,
        Command::HelpVerbose => "shows verbose help"@,
        Command::Help => "shows minimal help"@,
        Command::ProcessFailed => "sets last result to true if the last process exited with an error exit code"@,
        Command::ProcessSucceeded => "sets last result to true if the last process exited with a success exit code"@,
        Command::If => "sets the value to be evaluated by the following command"@,
        Command::LogOutput => "log stdout and stderr"@,
        Command::LogOnError => "logs specified message if last :e returned error code"@,
        Command::LogOnSuccess => "logs specified message if last :e returned success code"@,
        Command::LogIfFalse => "logs specified message if :if returned false"@,
        Command::LogIfTrue => "logs specified message if :if returned true"@,
        Command::Log => "logs specified message"@,
        Command::MoveDirectory => "moves the specified directory (not available yet)"@,
        Command::MoveFile => "moves the specified file"@,
        Command::NotEquals => "compares the value in :if to the value specified in :neq (is not equal)"@,
        Command::Not => "negates the result of the last comparison"@,
        Command::Or => "returns true if the last result or the following result are true"@,
        Command::QuitWithErrorOnError => "quits script with exit code 1 (error) if last :e returned error code"@,
        Command::QuitOnError => "quits script if last :e returned error code"@,
        Command::QuitWithErrorIfFalse => "quits script with exit code 1 (error) if last :if returned false"@,
        Command::QuitWithErrorIfTrue => "quits script with exit code 1 (error) if last :if returned true"@,
        Command::QuitIfFalse => "quits script if last :if returned false"@,
        Command::QuitIfTrue => "quits script if last :if returned true"@,
        Command::QuitWithError => "quits script with exit code 1 (error)"@,
        Command::Quit => "quits script"@,
        Command::AssignIfFalse => "sets a variable if last :if returned false (do not prefix with $ unless you're setting the variable in the variable)"@,
        Command::AssignIfTrue => "sets a variable if last :if returned true (do not prefix with $ unless you're setting the variable in the variable)"@,
        Command::Assign => "sets a variable unconditionally (do not prefix with $ unless you're setting the variable in the variable)"@,
        Command::Silent => "stops printing \"Starting phase[...]\""@,
        Command::TableBegin => "start a new table"@,
        Command::TableEnd => "ends and prints the table"@,
        Command::TableHeaders => "sets the headers of the table"@,
        Command::TableRow => "adds a row to the table"@,
        Command::WriteCache => "writes the cache before continuing, otherwise cache is written at normal script exit"@,
        Command::Wait => "waits seconds"@,
    }
}

/// The input that the help shows the command with.
pub open spec fn command_example(command: Command) -> Seq<char> {
    match command {
        Command::ArgumentTo => "\"-n\" variablename"@,
        Command::And => ""@,
        Command::Contains => "build-only"@,
        Command::CopyDirectoryCached => "\"C:/1\" \"C:/2\""@,
        Command::CopyFileCached => "\"C:/1.txt\" \"C:/2.txt\""@,
        Command::CopyDirectory => "\"C:/1\" \"C:/2\""@,
        Command::CopyFile => "\"C:/1.txt\" \"C:/2.txt\""@,
        Command::ChangeDirectory => "test_dir"@,
        Command::IsEmpty => ""@,
        Command::ExecuteDetached => "cargo build"@,
        Command::ExecuteInherited => "cargo build"@,
        Command::Equals => "hello"@,
        Command::Execute => "cargo build"@,
        Command::GotoIfFalse => "@build-only"@,
        Command::GotoIfTrue => "@build-only"@,
        Command::Goto => "@end"@,
        Command::HasArgument => "test-only -t"@,
        Command::HasVariable => "test"@,
        Command::HelpVerbose => ""@,
        Command::Help => ""@,
        Command::ProcessFailed => ""@,
        Command::ProcessSucceeded => ""@,
        Command::If => "$args"@,
        Command::LogOutput => ""@,
        Command::LogOnError => "process returned error: $stderr"@,
        Command::LogOnSuccess => "process was successful: $stdout"@,
        Command::LogIfFalse => "was false!"@,
        Command::LogIfTrue => "was true!"@,
        Command::Log => "hello world"@,
        Command::MoveDirectory => ""@,
        Command::MoveFile => "\"C:/1.txt\" \"C:/2.txt\""@,
        Command::NotEquals => "hello"@,
        Command::Not => ""@,
        Command::Or => ""@,
        Command::QuitWithErrorOnError => ""@,
        Command::QuitOnError => ""@,
        Command::QuitWithErrorIfFalse => ""@,
        Command::QuitWithErrorIfTrue => ""@,
        Command::QuitIfFalse => ""@,
        Command::QuitIfTrue => ""@,
        Command::QuitWithError => ""@,
        Command::Quit => ""@,
        Command::AssignIfFalse => "profile \"\""@,
        Command::AssignIfTrue => "profile \"--release\""@,
        Command::Assign => "savewd $pwd"@,
        Command::Silent => ""@,
        Command::TableBegin => ""@,
        Command::TableEnd => ""@,
        Command::TableHeaders => "Header-1 Header-2"@,
        Command::TableRow => "Value-1 Value-2"@,
        Command::WriteCache => ""@,
        Command::Wait => "1"@,
    }
}

/// The commands in the order in which the help lists them.
pub open spec fn help_order() -> Seq<Command> {
    Seq::new(COMMAND_COUNT as nat, |place: int| help_place(place as usize)->0)
}

/// The width of the first column of the help.
pub const HELP_COLUMN: usize = 20;

/// The text, with spaces behind it up to the width where it is shorter.
pub open spec fn padded_to(text: Seq<char>, width: nat) -> Seq<char> {
    if text.len() >= width {
        text
    } else {
        text + Seq::new((width - text.len()) as nat, |i: int| ' ')
    }
}

/// The line that shows how a command is used: its name in the first column,
/// then the name with the example input.
pub open spec fn usage_line(command: Command) -> Seq<char> {
    padded_to(command_name(command), HELP_COLUMN as nat) + command_name(command) + seq![' ']
        + command_example(command)
}

/// The lines of the help for one command: how it is used, and in the long
/// help a rule before that and what the command does after it.
pub open spec fn help_of(command: Command, verbose: bool) -> Seq<Seq<char>> {
    if verbose {
        seq![
            "---------------------------"@,
            usage_line(command),
            "| "@ + command_help(command),
        ]
    } else {
        seq![usage_line(command)]
    }
}

/// The lines of the help for the commands, one command after the other.
pub open spec fn help_body(commands: Seq<Command>, verbose: bool) -> Seq<Seq<char>>
    decreases commands.len(),
{
    if commands.len() == 0 {
        Seq::empty()
    } else {
        help_body(commands.drop_last(), verbose) + help_of(commands.last(), verbose)
    }
}

/// The lines of the help: the program with its version, an empty line, in
/// the long help the heads of the two columns, and the commands.
pub open spec fn help_text(verbose: bool, version: Seq<char>) -> Seq<Seq<char>> {
    let head = seq!["localhost-build "@ + version, Seq::<char>::empty()];
    let columns = if verbose {
        seq![padded_to("Command"@, HELP_COLUMN as nat) + "Example"@]
    } else {
        Seq::<Seq<char>>::empty()
    };
    head + columns + help_body(help_order(), verbose)
}

/// Appends spaces to `text` until it is `width` characters long.
fn pad(text: &mut Vec<char>, width: usize)
    ensures
        final(text)@ == padded_to(old(text)@, width as nat),
{
    let ghost start = text@;
    if text.len() >= width {
        return;
    }
    while text.len() < width
        invariant
            start.len() <= text.len() <= width,
            text@ == start + Seq::new((text.len() - start.len()) as nat, |i: int| ' '),
        decreases width - text.len(),
    {
        text.push(' ');
        assert(text@ =~= start + Seq::new((text.len() - start.len()) as nat, |i: int| ' '));
    }
}

/// The line that shows how a command is used.
fn usage(command: Command) -> (line: Vec<char>)
    ensures
        line@ == usage_line(command),
{
    let mut line = chars_of(command.name());
    pad(&mut line, HELP_COLUMN);
    push_str(&mut line, command.name());
    line.push(' ');
    push_str(&mut line, command.example());
    assert(line@ =~= usage_line(command));
    line
}

/// The lines of the help, short or long, for the program of the given
/// version.
pub fn help_lines(verbose: bool, version: &str) -> (lines: Vec<String>)
    ensures
        string_views(lines@) == help_text(verbose, version@),
{
    let mut lines: Vec<Vec<char>> = Vec::new();
    let mut head = chars_of("localhost-build ");
    push_str(&mut head, version);
    lines.push(head);
    lines.push(Vec::new());
    if verbose {
        let mut columns = chars_of("Command");
        pad(&mut columns, HELP_COLUMN);
        push_str(&mut columns, "Example");
        lines.push(columns);
    }
    let ghost top = views(lines@);
    assert(top =~= help_text(verbose, version@).take(top.len() as int)) by {
        assert(help_body(Seq::<Command>::empty(), verbose) =~= Seq::<Seq<char>>::empty());
    }
    let commands = Command::all();
    let mut i: usize = 0;
    assert(commands@.take(0) =~= Seq::<Command>::empty());
    assert(top + Seq::<Seq<char>>::empty() =~= top);
    while i < commands.len()
        invariant
            i <= commands.len(),
            views(lines@) == top + help_body(commands@.take(i as int), verbose),
        decreases commands.len() - i,
    {
        let command = commands[i];
        let ghost before = views(lines@);
        proof {
            assert(commands@.take(i + 1).drop_last() == commands@.take(i as int));
            assert(commands@.take(i + 1).last() == command);
        }
        if verbose {
            let rule = chars_of("---------------------------");
            proof {
                lemma_views_push(lines@, rule);
            }
            lines.push(rule);
        }
        let line = usage(command);
        proof {
            lemma_views_push(lines@, line);
        }
        lines.push(line);
        if verbose {
            let mut text = chars_of("| ");
            push_str(&mut text, command.help());
            proof {
                lemma_views_push(lines@, text);
            }
            lines.push(text);
        }
        i += 1;
        assert(views(lines@) =~= before + help_of(command, verbose));
        assert(views(lines@) =~= top + help_body(commands@.take(i as int), verbose));
    }
    assert(commands@.take(commands.len() as int) == commands@);
    proof {
        let head = seq!["localhost-build "@ + version@, Seq::<char>::empty()];
        let columns = if verbose {
            seq![padded_to("Command"@, HELP_COLUMN as nat) + "Example"@]
        } else {
            Seq::<Seq<char>>::empty()
        };
        assert(top =~= head + columns);
    }
    strings_of(&lines)
}


} // verus!
