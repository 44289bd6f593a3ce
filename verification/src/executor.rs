//! The interpreter: the registers, the variables and the control flow of a
//! running script, and what every command does to them.
//!
//! The interpreter never acts on the machine. Each step tells the host what
//! to do, as an `Effect`; the host does it and reports what came of it before
//! it asks for the next step.
use crate::command::{command_named, Command};
use crate::crc32::Crc32Table;
use crate::fs::{try_get_source_and_target, source_and_target, FsError, FsOp};
use crate::lexer::{next_token_at, script_bytes, LexError, Lexer};
use crate::preprocessor::{harvest, PreprocessError};
use crate::str::{
    ascii_whitespace, cache_line, cache_lines, cache_text, first_value, get_cache_line, keep,
    keep_pieces, line_strings, rest_value, scan_strings, separate_first_value_from_rest,
    LineError,
};
use crate::string_map::{entries_map, StringMap};
use crate::table::{measured, rendered, Table, TableError, TableModel};
use crate::text::{
    chars_of, decimal, decimal_chars, join, join_chars, lemma_views_push, parse_number,
    parse_unsigned, push_chars, same_chars, split, split_chars, string_of, string_of_range,
    string_views, strings_of, views,
};
use crate::token::{
    clone_group, GroupDefinition, GroupModel, Token, TokenKind, TokenModel,
};
use vstd::prelude::*;

verus! {

/// How the next comparison is joined to the last result.
#[derive(Debug, Clone, Copy, PartialEq, Eq)]
pub enum Evaluation {
    And,
    Or,
}

/// Where a run stands.
#[derive(Debug, Clone, Copy, PartialEq, Eq)]
pub enum Stage {
    /// Tokens are being read and commands run.
    Running,
    /// The script has ended or quit; a jump that never arrived is yet to be
    /// told.
    Closing,
    /// The cache is yet to be written.
    Flushing,
    /// Nothing is left to do.
    Done,
}

/// How a process is to be run.
#[derive(Debug, Clone, Copy, PartialEq, Eq)]
pub enum ProcessMode {
    /// Wait for the process and keep what it wrote.
    Capture,
    /// Wait for the process; it writes where the interpreter writes.
    Inherit,
    /// Do not wait for the process.
    Detached,
}

/// Why a script cannot go on.
#[derive(Debug, Clone, Copy, PartialEq, Eq)]
pub enum ExecError {
    /// The script has a token that is none.
    Lex(LexError),
    /// A command's input cannot be split into strings.
    Line(LineError),
    /// A file command names no source or no target.
    Fs(FsError),
    /// A group is called that no definition names.
    UndefinedGroup,
    /// A group is called with fewer arguments than it has parameters.
    TooFewArguments,
    /// A token stands where the interpreter has no use for it.
    UnexpectedToken,
    /// A command needs the result of a comparison, and there is none yet.
    MissingResult,
    /// `:and` or `:or` has no earlier result to join the comparison to.
    MissingPrevious,
    /// `:argto` names no argument.
    MissingArgument,
    /// `:argto` names no variable.
    MissingVariable,
    /// A process command names no process.
    MissingProcess,
    /// The margin of a table is no number.
    BadMargin,
    /// The seconds to wait are no number.
    BadSeconds,
    /// The table cannot be printed.
    Table(TableError),
    /// The command is not part of the language yet.
    NotImplemented,
    /// No command has this name.
    UnknownCommand,
}

/// What the host is to do after a step.
#[derive(Debug, PartialEq, Eq)]
pub enum Effect {
    /// Nothing.
    Nothing,
    /// Print the text and end the line.
    Print(String),
    /// Make this the working directory.
    ChangeDirectory(String),
    /// Copy a file.
    Copy(FsOp),
    /// Copy a file unless the cache shows the target up to date.
    CachedCopy(FsOp),
    /// Copy a directory.
    CopyDirectory(FsOp),
    /// Copy the changed files of a directory.
    CachedCopyDirectory(FsOp),
    /// Move a file.
    Move(FsOp),
    /// Run the process with the arguments.
    Run(ProcessMode, String, Vec<String>),
    /// Print the help, long or short.
    Help(bool),
    /// Write this text to the cache file.
    WriteCache(String),
    /// Wait for so many seconds.
    Sleep(u64),
    /// Leave the process at once with this exit code.
    Exit(i32),
    /// The run is over.
    Finished,
}

/// An effect as contracts speak of it.
pub ghost enum EffectModel {
    Nothing,
    Print(Seq<char>),
    ChangeDirectory(Seq<char>),
    Copy(Seq<char>, Seq<char>),
    CachedCopy(Seq<char>, Seq<char>),
    CopyDirectory(Seq<char>, Seq<char>),
    CachedCopyDirectory(Seq<char>, Seq<char>),
    Move(Seq<char>, Seq<char>),
    Run(ProcessMode, Seq<char>, Seq<Seq<char>>),
    Help(bool),
    WriteCache(Seq<char>),
    Sleep(u64),
    Exit(i32),
    Finished,
}

impl View for Effect {
    type V = EffectModel;

    open spec fn view(&self) -> EffectModel {
        match self {
            Effect::Nothing => EffectModel::Nothing,
            Effect::Print(text) => EffectModel::Print(text@),
            Effect::ChangeDirectory(path) => EffectModel::ChangeDirectory(path@),
            Effect::Copy(op) => EffectModel::Copy(op.source@, op.target@),
            Effect::CachedCopy(op) => EffectModel::CachedCopy(op.source@, op.target@),
            Effect::CopyDirectory(op) => EffectModel::CopyDirectory(op.source@, op.target@),
            Effect::CachedCopyDirectory(op) => EffectModel::CachedCopyDirectory(
                op.source@,
                op.target@,
            ),
            Effect::Move(op) => EffectModel::Move(op.source@, op.target@),
            Effect::Run(mode, process, args) => EffectModel::Run(
                *mode,
                process@,
                string_views(args@),
            ),
            Effect::Help(verbose) => EffectModel::Help(*verbose),
            Effect::WriteCache(text) => EffectModel::WriteCache(text@),
            Effect::Sleep(seconds) => EffectModel::Sleep(*seconds),
            Effect::Exit(code) => EffectModel::Exit(*code),
            Effect::Finished => EffectModel::Finished,
        }
    }
}

/// How a step ended, by the effect's model.
pub type Outcome = Result<EffectModel, ExecError>;

/// How a step ended, by the effect's model.
pub open spec fn outcome(result: Result<Effect, ExecError>) -> Outcome {
    match result {
        Ok(effect) => Ok(effect@),
        Err(e) => Err(e),
    }
}

/// What the interpreter has to be told of the world around it.
#[derive(Debug, PartialEq, Eq)]
pub struct Environment {
    /// The arguments of the command line, without the program's name.
    pub args: Vec<String>,
    /// The working directory.
    pub pwd: String,
}

/// The world around the interpreter as contracts speak of it.
pub ghost struct EnvironmentModel {
    pub args: Seq<Seq<char>>,
    pub pwd: Seq<char>,
}

impl View for Environment {
    type V = EnvironmentModel;

    open spec fn view(&self) -> EnvironmentModel {
        EnvironmentModel { args: string_views(self.args@), pwd: self.pwd@ }
    }
}

/// The state of a run as contracts speak of it.
pub ghost struct ExecutorModel {
    /// The bytes of the script.
    pub script: Seq<u8>,
    /// How many of them have been read.
    pub position: int,
    /// Whether the script is read as the preprocessor reads it; an
    /// interpreter reads it otherwise.
    pub preprocessing: bool,
    /// What the last captured process wrote to its output.
    pub stdout: Seq<char>,
    /// What the last captured process wrote to its error output.
    pub stderr: Seq<char>,
    /// The exit code of the last process that was waited for.
    pub exit_code: i32,
    /// The result of the last comparison, if there was one.
    pub if_result: Option<bool>,
    /// How the next comparison is joined to that result, if it is.
    pub awaiting: Option<Evaluation>,
    /// The subject of the comparisons.
    pub subject: Seq<char>,
    /// The phase to jump to, while the jump is under way.
    pub goto: Option<Seq<char>>,
    /// The variables.
    pub variables: Map<Seq<char>, Seq<char>>,
    /// The groups, by name.
    pub groups: Map<Seq<char>, GroupModel>,
    /// The arguments of the group that is running.
    pub group_args: Map<Seq<char>, Seq<char>>,
    /// Whether phases are announced.
    pub announcing: bool,
    /// The copy cache: target paths and checksums, in the order they came.
    pub cache: Seq<(Seq<char>, u32)>,
    /// The table.
    pub table: TableModel,
    /// The commands of the running group that are yet to run.
    pub pending: Seq<Seq<char>>,
    /// Where the run stands.
    pub stage: Stage,
}

/// A state with the outcome of the step that led to it.
pub type Stepped = (ExecutorModel, Outcome);

/// The state stays and nothing is to be done.
pub open spec fn nothing(m: ExecutorModel) -> Stepped {
    (m, Ok(EffectModel::Nothing))
}

/// The state stays and the script cannot go on.
pub open spec fn fails(m: ExecutorModel, e: ExecError) -> Stepped {
    (m, Err(e))
}

/// The decimal numeral of a signed number.
pub open spec fn signed_decimal(n: int) -> Seq<char> {
    if n < 0 {
        seq!['-'] + decimal((-n) as nat)
    } else {
        decimal(n as nat)
    }
}

/// Whether `c` may stand in a name: a letter or digit of ASCII, `-` or `_`.
pub open spec fn is_name_char(c: char) -> bool {
    ('A' <= c && c <= 'Z') || ('a' <= c && c <= 'z') || ('0' <= c && c <= '9') || c == '-' || c
        == '_'
}

/// Where the name that begins at `i` ends.
pub open spec fn name_end(s: Seq<char>, i: int) -> int
    decreases s.len() - i,
{
    if 0 <= i < s.len() && is_name_char(s[i]) {
        name_end(s, i + 1)
    } else {
        i
    }
}

/// The arguments of the command line as one text.
pub open spec fn args_text(env: EnvironmentModel) -> Seq<char> {
    join(env.args, seq![' '])
}

/// What a variable reference stands for. The registers come first: `stderr`,
/// `stdout`, `exit-code`, `pwd` and `args`; then the arguments of the running
/// group; then the variables. A name that nothing answers to stands for the
/// empty text.
pub open spec fn resolve(m: ExecutorModel, env: EnvironmentModel, name: Seq<char>) -> Seq<char> {
    if name == "stderr"@ {
        m.stderr
    } else if name == "stdout"@ {
        m.stdout
    } else if name == "exit-code"@ {
        signed_decimal(m.exit_code as int)
    } else if name == "pwd"@ {
        env.pwd
    } else if name == "args"@ {
        args_text(env)
    } else if m.group_args.contains_key(name) {
        m.group_args[name]
    } else if m.variables.contains_key(name) {
        m.variables[name]
    } else {
        Seq::empty()
    }
}

/// The text from `i` on with its variables replaced. `\$` is a dollar sign
/// and no reference; a backslash before anything else stays, with what it
/// stands before. `$` and the longest name behind it are replaced by what the
/// name stands for.
pub open spec fn interpret_from(m: ExecutorModel, env: EnvironmentModel, s: Seq<char>, i: int)
    -> Seq<char>
    decreases s.len() - i,
{
    if i < 0 || i >= s.len() {
        Seq::empty()
    } else if s[i] == '\\' {
        if i + 1 >= s.len() {
            seq!['\\']
        } else if s[i + 1] == '$' {
            seq!['$'] + interpret_from(m, env, s, i + 2)
        } else {
            seq!['\\', s[i + 1]] + interpret_from(m, env, s, i + 2)
        }
    } else if s[i] == '$' {
        let end = name_end(s, i + 1);
        if i < end <= s.len() {
            resolve(m, env, s.subrange(i + 1, end)) + interpret_from(m, env, s, end)
        } else {
            Seq::empty()
        }
    } else {
        seq![s[i]] + interpret_from(m, env, s, i + 1)
    }
}

/// The text with its variables replaced.
pub open spec fn interpret(m: ExecutorModel, env: EnvironmentModel, s: Seq<char>) -> Seq<char> {
    interpret_from(m, env, s, 0)
}

/// The texts with their variables replaced.
pub open spec fn interpret_all(m: ExecutorModel, env: EnvironmentModel, texts: Seq<Seq<char>>)
    -> Seq<Seq<char>> {
    Seq::new(texts.len(), |i: int| interpret(m, env, texts[i]))
}

/// Where the first space from `i` on stands, or where the text ends.
pub open spec fn space_from(s: Seq<char>, i: int) -> int
    decreases s.len() - i,
{
    if i < 0 || i >= s.len() || s[i] == ' ' {
        i
    } else {
        space_from(s, i + 1)
    }
}

/// Where the first space of the text stands, or where the text ends.
pub open spec fn first_space(s: Seq<char>) -> int {
    space_from(s, 0)
}

/// The command of a line: what stands before its first space.
pub open spec fn command_word(line: Seq<char>) -> Seq<char> {
    line.take(first_space(line))
}

/// The input of a line: what stands behind its first space.
pub open spec fn command_input(line: Seq<char>) -> Seq<char> {
    if first_space(line) < line.len() {
        line.skip(first_space(line) + 1)
    } else {
        Seq::empty()
    }
}

/// Whether `needle` stands somewhere in `text`.
pub open spec fn contains_text(text: Seq<char>, needle: Seq<char>) -> bool {
    exists|i: int|
        0 <= i && i + needle.len() <= text.len() && #[trigger] text.subrange(
            i,
            i + needle.len(),
        ) == needle
}

/// Whether one of the words of the command line is one of the words of
/// `names`. Words are what stands between single spaces.
pub open spec fn has_argument(env: EnvironmentModel, names: Seq<char>) -> bool {
    exists|i: int, j: int|
        0 <= i < split(args_text(env), ' ', ' ').len() && 0 <= j < split(names, ' ', ' ').len()
            && #[trigger] split(args_text(env), ' ', ' ')[i] == #[trigger] split(
            names,
            ' ',
            ' ',
        )[j]
}

/// The index of the first of `strings` from `i` on that is among `names`, or
/// the number of strings.
pub open spec fn first_among(strings: Seq<Seq<char>>, names: Seq<Seq<char>>, i: int) -> int
    decreases strings.len() - i,
{
    if i < 0 || i >= strings.len() || names.contains(strings[i]) {
        i
    } else {
        first_among(strings, names, i + 1)
    }
}

/// The index of the first of `strings` from `i` on that begins with `-`, or
/// the number of strings.
pub open spec fn next_flag(strings: Seq<Seq<char>>, i: int) -> int
    decreases strings.len() - i,
{
    if i < 0 || i >= strings.len() || (strings[i].len() > 0 && strings[i][0] == '-') {
        i
    } else {
        next_flag(strings, i + 1)
    }
}

/// The value of an argument of the command line: where one of the words of
/// `names` is among the words of the command line, the strings of the command
/// line that follow the first such string, up to the next string that begins
/// with `-`, joined by single spaces. Empty where the argument was not given.
pub open spec fn argument_value(env: EnvironmentModel, names: Seq<char>) -> Result<
    Seq<char>,
    LineError,
> {
    if !has_argument(env, names) {
        Ok(Seq::empty())
    } else {
        match line_strings(args_text(env)) {
            Err(e) => Err(e),
            Ok(strings) => {
                let found = first_among(strings, split(names, ' ', ' '), 0);
                if found < strings.len() {
                    Ok(join(strings.subrange(found + 1, next_flag(strings, found + 1)), seq![' ']))
                } else {
                    Ok(Seq::empty())
                }
            },
        }
    }
}

/// The registers after a comparison gave `value`: joined to the last result
/// where `:and` or `:or` waits for it, which is then used up; else the new
/// result.
pub open spec fn combined(m: ExecutorModel, value: bool) -> Result<ExecutorModel, ExecError> {
    match m.awaiting {
        None => Ok(ExecutorModel { if_result: Some(value), ..m }),
        Some(how) => match m.if_result {
            None => Err(ExecError::MissingPrevious),
            Some(last) => Ok(
                ExecutorModel {
                    if_result: Some(
                        match how {
                            Evaluation::And => last && value,
                            Evaluation::Or => last || value,
                        },
                    ),
                    awaiting: None,
                    ..m
                },
            ),
        },
    }
}

/// A comparison that gave `value`.
pub open spec fn compared(m: ExecutorModel, value: bool) -> Stepped {
    match combined(m, value) {
        Ok(after) => nothing(after),
        Err(e) => fails(m, e),
    }
}

/// Whether the last result is `wanted`; fails where there is no result.
pub open spec fn result_is(m: ExecutorModel, wanted: bool) -> Result<bool, ExecError> {
    match m.if_result {
        None => Err(ExecError::MissingResult),
        Some(result) => Ok(result == wanted),
    }
}

/// `then` where the condition holds, nothing where it does not, and the
/// condition's failure where it has none.
pub open spec fn when(condition: Result<bool, ExecError>, m: ExecutorModel, then: Stepped)
    -> Stepped {
    match condition {
        Err(e) => fails(m, e),
        Ok(true) => then,
        Ok(false) => nothing(m),
    }
}

/// The jump to a phase begins.
pub open spec fn jump(m: ExecutorModel, phase: Seq<char>) -> Stepped {
    nothing(ExecutorModel { goto: Some(phase), ..m })
}

/// The text is printed.
pub open spec fn print(m: ExecutorModel, text: Seq<char>) -> Stepped {
    (m, Ok(EffectModel::Print(text)))
}

/// The run ends in good order: what is left is the closing.
pub open spec fn quit(m: ExecutorModel) -> Stepped {
    nothing(ExecutorModel { stage: Stage::Closing, ..m })
}

/// The process is left at once with exit code 1.
pub open spec fn leave(m: ExecutorModel) -> Stepped {
    (ExecutorModel { stage: Stage::Done, ..m }, Ok(EffectModel::Exit(1)))
}

/// The variable that the input names first is set to the rest of the input.
pub open spec fn assign(m: ExecutorModel, input: Seq<char>) -> Stepped {
    nothing(
        ExecutorModel {
            variables: m.variables.insert(first_value(input), rest_value(input)),
            ..m
        },
    )
}

/// A file command: the effect for the source and the target that the input
/// names.
pub open spec fn file_command(m: ExecutorModel, input: Seq<char>, command: Command) -> Stepped {
    match source_and_target(input) {
        Err(e) => fails(m, ExecError::Fs(e)),
        Ok((source, target)) => (
            m,
            Ok(
                match command {
                    Command::CopyDirectoryCached => EffectModel::CachedCopyDirectory(
                        source,
                        target,
                    ),
                    Command::CopyFileCached => EffectModel::CachedCopy(source, target),
                    Command::CopyDirectory => EffectModel::CopyDirectory(source, target),
                    Command::CopyFile => EffectModel::Copy(source, target),
                    _ => EffectModel::Move(source, target),
                },
            ),
        ),
    }
}

/// The process that the input of a process command names, and its
/// arguments: the first of the input's strings, and the others.
pub open spec fn execution_args(input: Seq<char>) -> Result<
    (Seq<char>, Seq<Seq<char>>),
    ExecError,
> {
    match line_strings(input) {
        Err(e) => Err(ExecError::Line(e)),
        Ok(strings) => if strings.len() == 0 {
            Err(ExecError::MissingProcess)
        } else {
            Ok((strings[0], strings.skip(1)))
        },
    }
}

/// A process command.
pub open spec fn process_command(m: ExecutorModel, input: Seq<char>, mode: ProcessMode)
    -> Stepped {
    match execution_args(input) {
        Err(e) => fails(m, e),
        Ok((process, args)) => (m, Ok(EffectModel::Run(mode, process, args))),
    }
}

/// `:argto`: the first string of the input names the argument, the second
/// the variable that takes its value.
pub open spec fn argument_to(m: ExecutorModel, env: EnvironmentModel, input: Seq<char>)
    -> Stepped {
    match line_strings(input) {
        Err(e) => fails(m, ExecError::Line(e)),
        Ok(strings) => if strings.len() == 0 {
            fails(m, ExecError::MissingArgument)
        } else if strings.len() == 1 {
            fails(m, ExecError::MissingVariable)
        } else {
            match argument_value(env, strings[0]) {
                Err(e) => fails(m, ExecError::Line(e)),
                Ok(value) => nothing(
                    ExecutorModel { variables: m.variables.insert(strings[1], value), ..m },
                ),
            }
        },
    }
}

/// `:leo`: what the last process wrote to its error output and to its
/// output, each on a line of its own, as far as it wrote anything.
pub open spec fn log_output(m: ExecutorModel) -> Stepped {
    if m.stderr.len() > 0 && m.stdout.len() > 0 {
        print(m, m.stderr + seq!['\n'] + m.stdout)
    } else if m.stderr.len() > 0 {
        print(m, m.stderr)
    } else if m.stdout.len() > 0 {
        print(m, m.stdout)
    } else {
        nothing(m)
    }
}

/// The margin of a table that `:tb` begins without naming one.
pub const DEFAULT_CELL_MARGIN: usize = 5;

/// `:tb`: a new, empty table; its margin is the first string of the input
/// that holds more than whitespace, or 5.
pub open spec fn table_begin(m: ExecutorModel, input: Seq<char>) -> Stepped {
    match line_strings(input) {
        Err(e) => fails(m, ExecError::Line(e)),
        Ok(strings) => {
            let given = keep(strings, ascii_whitespace());
            if given.len() == 0 {
                nothing(
                    ExecutorModel {
                        table: TableModel {
                            headers: Seq::empty(),
                            rows: Seq::empty(),
                            cell_margin: DEFAULT_CELL_MARGIN,
                        },
                        ..m
                    },
                )
            } else {
                match parse_unsigned(given[0], usize::MAX as nat) {
                    None => fails(m, ExecError::BadMargin),
                    Some(margin) => nothing(
                        ExecutorModel {
                            table: TableModel {
                                headers: Seq::empty(),
                                rows: Seq::empty(),
                                cell_margin: margin as usize,
                            },
                            ..m
                        },
                    ),
                }
            }
        },
    }
}

/// `:th`: the strings of the input are the headers of the table.
pub open spec fn table_headers(m: ExecutorModel, input: Seq<char>) -> Stepped {
    match line_strings(input) {
        Err(e) => fails(m, ExecError::Line(e)),
        Ok(strings) => nothing(
            ExecutorModel { table: TableModel { headers: measured(strings), ..m.table }, ..m },
        ),
    }
}

/// `:tr`: the strings of the input are one more row of the table.
pub open spec fn table_row(m: ExecutorModel, input: Seq<char>) -> Stepped {
    match line_strings(input) {
        Err(e) => fails(m, ExecError::Line(e)),
        Ok(strings) => nothing(
            ExecutorModel {
                table: TableModel { rows: m.table.rows.push(measured(strings)), ..m.table },
                ..m
            },
        ),
    }
}

/// `:te`: the table is printed, line by line.
pub open spec fn table_end(m: ExecutorModel) -> Stepped {
    match rendered(m.table) {
        Err(e) => fails(m, ExecError::Table(e)),
        Ok(lines) => print(m, join(lines, seq!['\n'])),
    }
}

/// The cache is written, unless it is empty.
pub open spec fn flushed(m: ExecutorModel) -> Outcome {
    if m.cache.len() == 0 {
        Ok(EffectModel::Nothing)
    } else {
        Ok(EffectModel::WriteCache(cache_text(m.cache)))
    }
}

/// `:ws`: the input is the number of seconds to wait.
pub open spec fn wait(m: ExecutorModel, input: Seq<char>) -> Stepped {
    match parse_unsigned(input, u64::MAX as nat) {
        None => fails(m, ExecError::BadSeconds),
        Some(seconds) => (m, Ok(EffectModel::Sleep(seconds as u64))),
    }
}

/// What a command does: the state after it, and what the host is to do or
/// why the script cannot go on. Where it fails, the state stays as it was.
pub open spec fn command_model(
    m: ExecutorModel,
    env: EnvironmentModel,
    command: Command,
    input: Seq<char>,
) -> Stepped {
    match command {
        Command::ArgumentTo => argument_to(m, env, input),
        Command::And => nothing(ExecutorModel { awaiting: Some(Evaluation::And), ..m }),
        Command::Or => nothing(ExecutorModel { awaiting: Some(Evaluation::Or), ..m }),
        Command::Contains => compared(m, contains_text(m.subject, input)),
        Command::IsEmpty => compared(m, m.subject.len() == 0),
        Command::Equals => compared(m, m.subject == input),
        Command::NotEquals => compared(m, m.subject != input),
        Command::HasArgument => compared(m, has_argument(env, input)),
        Command::HasVariable => compared(m, m.variables.contains_key(input)),
        Command::ProcessFailed => compared(m, m.exit_code != 0),
        Command::ProcessSucceeded => compared(m, m.exit_code == 0),
        Command::Not => match m.if_result {
            None => fails(m, ExecError::MissingResult),
            Some(result) => nothing(ExecutorModel { if_result: Some(!result), ..m }),
        },
        Command::If => nothing(ExecutorModel { subject: input, ..m }),
        Command::ChangeDirectory => (m, Ok(EffectModel::ChangeDirectory(input))),
        Command::CopyDirectoryCached
        | Command::CopyFileCached
        | Command::CopyDirectory
        | Command::CopyFile
        | Command::MoveFile => file_command(m, input, command),
        Command::MoveDirectory => fails(m, ExecError::NotImplemented),
        Command::ExecuteDetached => process_command(m, input, ProcessMode::Detached),
        Command::ExecuteInherited => process_command(m, input, ProcessMode::Inherit),
        Command::Execute => process_command(m, input, ProcessMode::Capture),
        Command::GotoIfFalse => when(result_is(m, false), m, jump(m, input)),
        Command::GotoIfTrue => when(result_is(m, true), m, jump(m, input)),
        Command::Goto => jump(m, input),
        Command::HelpVerbose => (quit(m).0, Ok(EffectModel::Help(true))),
        Command::Help => (quit(m).0, Ok(EffectModel::Help(false))),
        Command::LogOutput => log_output(m),
        Command::LogOnError => when(Ok(m.exit_code != 0), m, print(m, input)),
        Command::LogOnSuccess => when(Ok(m.exit_code == 0), m, print(m, input)),
        Command::LogIfFalse => when(result_is(m, false), m, print(m, input)),
        Command::LogIfTrue => when(result_is(m, true), m, print(m, input)),
        Command::Log => print(m, input),
        Command::QuitWithErrorOnError => when(Ok(m.exit_code != 0), m, leave(m)),
        Command::QuitOnError => when(Ok(m.exit_code != 0), m, quit(m)),
        Command::QuitWithErrorIfFalse => when(result_is(m, false), m, leave(m)),
        Command::QuitWithErrorIfTrue => when(result_is(m, true), m, leave(m)),
        Command::QuitIfFalse => when(result_is(m, false), m, quit(m)),
        Command::QuitIfTrue => when(result_is(m, true), m, quit(m)),
        Command::QuitWithError => leave(m),
        Command::Quit => quit(m),
        Command::AssignIfFalse => when(result_is(m, false), m, assign(m, input)),
        Command::AssignIfTrue => when(result_is(m, true), m, assign(m, input)),
        Command::Assign => assign(m, input),
        Command::Silent => nothing(ExecutorModel { announcing: false, ..m }),
        Command::TableBegin => table_begin(m, input),
        Command::TableEnd => table_end(m),
        Command::TableHeaders => table_headers(m, input),
        Command::TableRow => table_row(m, input),
        Command::WriteCache => (m, flushed(m)),
        Command::Wait => wait(m, input),
    }
}

/// What the command of the given name does; no command has a name that
/// is not a command's.
pub open spec fn named_command(
    m: ExecutorModel,
    env: EnvironmentModel,
    name: Seq<char>,
    input: Seq<char>,
) -> Stepped {
    match command_named(name) {
        None => fails(m, ExecError::UnknownCommand),
        Some(command) => command_model(m, env, command, input),
    }
}

/// What a command line does: its variables are replaced, what stands before
/// the first space names the command, and what stands behind it is the
/// command's input.
pub open spec fn line_model(m: ExecutorModel, env: EnvironmentModel, text: Seq<char>) -> Stepped {
    let line = interpret(m, env, text);
    match command_named(command_word(line)) {
        None => fails(m, ExecError::UnknownCommand),
        Some(command) => command_model(m, env, command, command_input(line)),
    }
}

/// The formal parameters bound to the values at the same places; a name
/// that occurs again takes the later value.
pub open spec fn bound(formals: Seq<Seq<char>>, values: Seq<Seq<char>>) -> Map<
    Seq<char>,
    Seq<char>,
>
    decreases formals.len(),
{
    if formals.len() == 0 {
        Map::empty()
    } else {
        bound(formals.drop_last(), values).insert(formals.last(), values[formals.len() - 1])
    }
}

/// The texts of the commands among the tokens, in order. What else stands in
/// a group's body is passed over.
pub open spec fn command_texts(tokens: Seq<TokenModel>) -> Seq<Seq<char>>
    decreases tokens.len(),
{
    if tokens.len() == 0 {
        Seq::empty()
    } else {
        match tokens.last() {
            TokenModel::Command(text) => command_texts(tokens.drop_last()).push(text),
            _ => command_texts(tokens.drop_last()),
        }
    }
}

/// A group is called. The variables in the arguments are replaced first;
/// fewer arguments than parameters are a failure, more are ignored. The
/// parameters are bound to the arguments and the group's commands wait to be
/// run; a group without commands is over at once.
pub open spec fn group_called(
    m: ExecutorModel,
    env: EnvironmentModel,
    group: GroupModel,
    args: Seq<Seq<char>>,
) -> Stepped {
    let values = interpret_all(m, env, args);
    if values.len() < group.args.len() {
        fails(m, ExecError::TooFewArguments)
    } else if command_texts(group.commands).len() == 0 {
        nothing(ExecutorModel { group_args: Map::empty(), ..m })
    } else {
        nothing(
            ExecutorModel {
                group_args: bound(group.args, values),
                pending: command_texts(group.commands),
                ..m
            },
        )
    }
}

/// The name of a phase: its label without the `@`.
pub open spec fn phase_name(label: Seq<char>) -> Seq<char> {
    if label.len() > 0 && label[0] == '@' {
        label.skip(1)
    } else {
        label
    }
}

/// A phase begins: it is announced, unless the script has asked for silence.
pub open spec fn announced(m: ExecutorModel, label: Seq<char>) -> Stepped {
    if m.announcing {
        print(m, "Starting phase "@ + phase_name(label))
    } else {
        nothing(m)
    }
}

/// What a token does. While a jump is under way, phases other than its
/// target, commands and group calls are passed over; assignments are not.
pub open spec fn token_step(m: ExecutorModel, env: EnvironmentModel, token: TokenModel)
    -> Stepped {
    match token {
        TokenModel::EndOfText => quit(m),
        TokenModel::Phase(label) => match m.goto {
            None => announced(m, label),
            Some(target) => if target == label {
                announced(ExecutorModel { goto: None, ..m }, label)
            } else {
                nothing(m)
            },
        },
        TokenModel::ExecuteGroup(name, args) => if m.goto is Some {
            nothing(m)
        } else if !m.groups.contains_key(name) {
            fails(m, ExecError::UndefinedGroup)
        } else {
            group_called(m, env, m.groups[name], args)
        },
        TokenModel::Command(text) => if m.goto is Some {
            nothing(m)
        } else {
            line_model(m, env, text)
        },
        TokenModel::Variable(name, value) => nothing(
            ExecutorModel { variables: m.variables.insert(name, value), ..m },
        ),
        TokenModel::VariableIfNotSet(name, value) => if m.variables.contains_key(name) {
            nothing(m)
        } else {
            nothing(ExecutorModel { variables: m.variables.insert(name, value), ..m })
        },
        _ => fails(m, ExecError::UnexpectedToken),
    }
}

/// What is told of a jump that never arrived.
pub open spec fn closing(m: ExecutorModel) -> Outcome {
    match m.goto {
        None => Ok(EffectModel::Nothing),
        Some(target) => Ok(
            EffectModel::Print("goto could not find phase '"@ + target + seq!['\'']),
        ),
    }
}

/// One step of a run.
///
/// While the run goes on, the next command of the running group is run if
/// there is one, and else the next token of the script is read and acted on.
/// After the last command of a group, the group's arguments are forgotten.
/// Once the script has ended or quit, a step tells of a jump that never
/// arrived, the next has the cache written if it holds anything, and every
/// step after that says that the run is over.
pub open spec fn step_model(m: ExecutorModel, env: EnvironmentModel) -> Stepped {
    match m.stage {
        Stage::Done => (m, Ok(EffectModel::Finished)),
        Stage::Flushing => (ExecutorModel { stage: Stage::Done, ..m }, flushed(m)),
        Stage::Closing => (ExecutorModel { stage: Stage::Flushing, ..m }, closing(m)),
        Stage::Running => if m.pending.len() > 0 {
            let (after, how) = line_model(
                ExecutorModel { pending: m.pending.skip(1), ..m },
                env,
                m.pending[0],
            );
            if after.pending.len() == 0 && after.stage is Running && how is Ok {
                (ExecutorModel { group_args: Map::empty(), ..after }, how)
            } else {
                (after, how)
            }
        } else {
            match next_token_at(m.script, m.position, m.preprocessing) {
                Err(e) => fails(m, ExecError::Lex(e)),
                Ok((token, end)) => token_step(ExecutorModel { position: end, ..m }, env, token),
            }
        },
    }
}

/// The commands that wait to be run: those of `queue` from `next` on.
pub open spec fn pending_of(queue: Seq<String>, next: usize) -> Seq<Seq<char>> {
    if next <= queue.len() {
        string_views(queue).skip(next as int)
    } else {
        Seq::empty()
    }
}

/// The text of a string that may not be there.
pub open spec fn text_of(s: Option<String>) -> Option<Seq<char>> {
    match s {
        Some(s) => Some(s@),
        None => None,
    }
}

/// The state in which a run begins: nothing read, no register set, phases
/// announced, and the groups and the cache as given.
pub open spec fn initial_model(
    script: Seq<u8>,
    groups: Map<Seq<char>, GroupModel>,
    cache: Seq<(Seq<char>, u32)>,
) -> ExecutorModel {
    ExecutorModel {
        script,
        position: 0,
        preprocessing: false,
        stdout: Seq::empty(),
        stderr: Seq::empty(),
        exit_code: 0,
        if_result: None,
        awaiting: None,
        subject: Seq::empty(),
        goto: None,
        variables: Map::empty(),
        groups,
        group_args: Map::empty(),
        announcing: true,
        cache,
        table: TableModel { headers: Seq::empty(), rows: Seq::empty(), cell_margin: 0 },
        pending: Seq::empty(),
        stage: Stage::Running,
    }
}

/// The interpreter of one script.
pub struct Executor {
    lexer: Lexer,
    last_proc_out: String,
    last_proc_err: String,
    last_proc_code: i32,
    last_if_result: Option<bool>,
    awaiting_evaluation: Option<Evaluation>,
    last_if_test_value: String,
    goto_phase: Option<String>,
    variables: StringMap<String>,
    groups: StringMap<GroupDefinition>,
    executing_group_args: StringMap<String>,
    announcing_phases: bool,
    cache: StringMap<u32>,
    crc_table: Crc32Table,
    table: Table,
    queue: Vec<String>,
    next: usize,
    stage: Stage,
}

impl View for Executor {
    type V = ExecutorModel;

    closed spec fn view(&self) -> ExecutorModel {
        ExecutorModel {
            script: self.lexer.script(),
            position: self.lexer.position(),
            preprocessing: self.lexer.for_preprocessor(),
            stdout: self.last_proc_out@,
            stderr: self.last_proc_err@,
            exit_code: self.last_proc_code,
            if_result: self.last_if_result,
            awaiting: self.awaiting_evaluation,
            subject: self.last_if_test_value@,
            goto: text_of(self.goto_phase),
            variables: self.variables@,
            groups: self.groups@,
            group_args: self.executing_group_args@,
            announcing: self.announcing_phases,
            cache: self.cache.entries(),
            table: self.table@,
            pending: pending_of(self.queue@, self.next),
            stage: self.stage,
        }
    }
}

/// The characters of a signed number's decimal numeral.
fn signed_decimal_chars(n: i32) -> (out: Vec<char>)
    ensures
        out@ == signed_decimal(n as int),
{
    if n < 0 {
        let mut out: Vec<char> = Vec::new();
        out.push('-');
        let digits = decimal_chars((-(n as i64)) as u64);
        push_chars(&mut out, &digits);
        out
    } else {
        decimal_chars(n as u64)
    }
}

/// The arguments of the command line as one text.
fn args_chars(env: &Environment) -> (out: Vec<char>)
    ensures
        out@ == args_text(env@),
{
    let mut words: Vec<Vec<char>> = Vec::new();
    let mut i: usize = 0;
    while i < env.args.len()
        invariant
            i <= env.args.len(),
            words.len() == i,
            forall|k: int| 0 <= k < i ==> (#[trigger] words@[k])@ == env.args@[k]@,
        decreases env.args.len() - i,
    {
        words.push(chars_of(env.args[i].as_str()));
        i += 1;
    }
    assert(views(words@) =~= string_views(env.args@));
    let mut space: Vec<char> = Vec::new();
    space.push(' ');
    assert(space@ =~= seq![' ']);
    join_chars(&words, &space)
}

/// Whether `c` may stand in a name.
fn is_name(c: char) -> (yes: bool)
    ensures
        yes == is_name_char(c),
{
    ('A' <= c && c <= 'Z') || ('a' <= c && c <= 'z') || ('0' <= c && c <= '9') || c == '-' || c
        == '_'
}

/// Whether `name` is the text `literal`.
fn is_text(name: &Vec<char>, literal: &str) -> (same: bool)
    ensures
        same == (name@ == literal@),
{
    let chars = chars_of(literal);
    same_chars(name, &chars)
}

/// Whether `needle` stands somewhere in `text`.
pub fn holds_text(text: &Vec<char>, needle: &Vec<char>) -> (found: bool)
    ensures
        found == contains_text(text@, needle@),
{
    if needle.len() > text.len() {
        return false;
    }
    let last = text.len() - needle.len();
    let mut i: usize = 0;
    loop
        invariant
            i <= last,
            last == text.len() - needle.len(),
            forall|k: int| 0 <= k < i ==> #[trigger] text@.subrange(k, k + needle.len()) != needle@,
        decreases last - i,
    {
        let mut j: usize = 0;
        let mut same = true;
        while j < needle.len() && same
            invariant
                j <= needle.len(),
                i + needle.len() <= text.len(),
                same ==> forall|k: int| 0 <= k < j ==> text@[i + k] == needle@[k],
                !same ==> text@.subrange(i as int, i + needle.len()) != needle@,
            decreases needle.len() - j + (if same { 1int } else { 0int }),
        {
            if text[i + j] != needle[j] {
                same = false;
                assert(text@.subrange(i as int, i + needle.len())[j as int] != needle@[j as int]);
            } else {
                j += 1;
            }
        }
        if same {
            assert(text@.subrange(i as int, i + needle.len()) =~= needle@);
            return true;
        }
        if i == last {
            return false;
        }
        i += 1;
    }
}

/// Whether `word` is among `words`.
fn is_among(words: &Vec<Vec<char>>, word: &Vec<char>) -> (found: bool)
    ensures
        found == views(words@).contains(word@),
{
    let mut i: usize = 0;
    while i < words.len()
        invariant
            i <= words.len(),
            forall|k: int| 0 <= k < i ==> views(words@)[k] != word@,
        decreases words.len() - i,
    {
        if same_chars(&words[i], word) {
            assert(views(words@)[i as int] == word@);
            return true;
        }
        i += 1;
    }
    false
}

/// Whether one of the words of the command line is one of the words of
/// `names`.
fn holds_argument(env: &Environment, names: &Vec<char>) -> (found: bool)
    ensures
        found == has_argument(env@, names@),
{
    let given = split_chars(&args_chars(env), ' ', ' ');
    let wanted = split_chars(names, ' ', ' ');
    let mut i: usize = 0;
    while i < given.len()
        invariant
            i <= given.len(),
            views(given@) == split(args_text(env@), ' ', ' '),
            views(wanted@) == split(names@, ' ', ' '),
            forall|a: int, b: int|
                0 <= a < i && 0 <= b < wanted.len() ==> #[trigger] views(given@)[a]
                    != #[trigger] views(wanted@)[b],
        decreases given.len() - i,
    {
        if is_among(&wanted, &given[i]) {
            let ghost b = choose|b: int|
                0 <= b < wanted.len() && views(wanted@)[b] == given@[i as int]@;
            assert(views(given@)[i as int] == views(wanted@)[b]);
            return true;
        }
        assert forall|b: int| 0 <= b < wanted.len() implies #[trigger] views(given@)[i as int]
            != #[trigger] views(wanted@)[b] by {
            assert(views(given@)[i as int] == given@[i as int]@);
        }
        i += 1;
    }
    false
}

impl Executor {
    /// The interpreter at the start of a script in which no import is left,
    /// with the groups that the script defines and an empty cache. Fails
    /// where the script has a token that is none.
    pub fn try_new(script: String) -> (result: Result<Executor, LexError>)
        ensures
            match result {
                Ok(executor) => harvest(script_bytes(script@), 0, Seq::empty()) matches Ok(groups)
                    && executor@ == initial_model(
                    script_bytes(script@),
                    entries_map(groups),
                    Seq::empty(),
                ),
                Err(e) => harvest(script_bytes(script@), 0, Seq::empty()) == Err::<
                    Seq<(Seq<char>, GroupModel)>,
                    LexError,
                >(e),
            },
    {
        Executor::try_with_cache(script, StringMap::new())
    }

    /// The interpreter at the start of a script in which no import is left,
    /// with the groups that the script defines and the given cache.
    pub fn try_with_cache(script: String, cache: StringMap<u32>) -> (result: Result<
        Executor,
        LexError,
    >)
        ensures
            match result {
                Ok(executor) => harvest(script_bytes(script@), 0, Seq::empty()) matches Ok(groups)
                    && executor@ == initial_model(
                    script_bytes(script@),
                    entries_map(groups),
                    cache.entries(),
                ),
                Err(e) => harvest(script_bytes(script@), 0, Seq::empty()) == Err::<
                    Seq<(Seq<char>, GroupModel)>,
                    LexError,
                >(e),
            },
    {
        let lexer = Lexer::new(script.clone(), false);
        let groups = match crate::preprocessor::try_run(Lexer::new(script, true)) {
            Ok(groups) => groups,
            Err(PreprocessError::Lex(e)) => {
                return Err(e);
            },
            Err(PreprocessError::NotPreprocessing) => {
                return Err(vstd::pervasive::unreached());
            },
        };
        let table = Table::new(0);
        let queue: Vec<String> = Vec::new();
        assert(pending_of(queue@, 0) =~= Seq::<Seq<char>>::empty());
        let variables: StringMap<String> = StringMap::new();
        let executing_group_args: StringMap<String> = StringMap::new();
        Ok(
            Executor {
                lexer,
                last_proc_out: String::new(),
                last_proc_err: String::new(),
                last_proc_code: 0,
                last_if_result: None,
                awaiting_evaluation: None,
                last_if_test_value: String::new(),
                goto_phase: None,
                variables,
                groups,
                executing_group_args,
                announcing_phases: true,
                cache,
                crc_table: Crc32Table::default(),
                table,
                queue,
                next: 0,
                stage: Stage::Running,
            },
        )
    }

    /// The groups that the script defines.
    pub fn groups(&self) -> (groups: &StringMap<GroupDefinition>)
        ensures
            groups@ == self@.groups,
    {
        &self.groups
    }

    /// The variables.
    pub fn variables(&self) -> (variables: &StringMap<String>)
        ensures
            variables@ == self@.variables,
    {
        &self.variables
    }

    /// The copy cache.
    pub fn cache(&self) -> (cache: &StringMap<u32>)
        ensures
            cache.entries() == self@.cache,
    {
        &self.cache
    }

    /// The table.
    pub fn table(&self) -> (table: &Table)
        ensures
            table@ == self@.table,
    {
        &self.table
    }

    /// Where the run stands.
    pub fn stage(&self) -> (stage: Stage)
        ensures
            stage == self@.stage,
    {
        self.stage
    }

    /// The result of the last comparison, if there was one.
    pub fn last_result(&self) -> (result: Option<bool>)
        ensures
            result == self@.if_result,
    {
        self.last_if_result
    }

    /// The next token of the script, straight from the interpreter's lexer.
    pub fn try_next_token(&mut self) -> (result: Result<Token, LexError>)
        ensures
            match result {
                Ok(token) => next_token_at(
                    old(self)@.script,
                    old(self)@.position,
                    old(self)@.preprocessing,
                ) == Ok::<(TokenModel, int), LexError>((token@, final(self)@.position))
                    && final(self)@ == (ExecutorModel {
                    position: final(self)@.position,
                    ..old(self)@
                }),
                Err(e) => final(self)@ == old(self)@ && next_token_at(
                    old(self)@.script,
                    old(self)@.position,
                    old(self)@.preprocessing,
                ) == Err::<(TokenModel, int), LexError>(e),
            },
            old(self)@.position <= final(self)@.position <= old(self)@.script.len(),
    {
        self.lexer.try_next_token()
    }

    /// What a variable reference stands for.
    fn replace_variable(&self, name: &Vec<char>, env: &Environment) -> (value: Vec<char>)
        ensures
            value@ == resolve(self@, env@, name@),
    {
        if is_text(name, "stderr") {
            chars_of(self.last_proc_err.as_str())
        } else if is_text(name, "stdout") {
            chars_of(self.last_proc_out.as_str())
        } else if is_text(name, "exit-code") {
            signed_decimal_chars(self.last_proc_code)
        } else if is_text(name, "pwd") {
            chars_of(env.pwd.as_str())
        } else if is_text(name, "args") {
            args_chars(env)
        } else {
            let key = string_of(name);
            match self.executing_group_args.get(key.as_str()) {
                Some(value) => chars_of(value.as_str()),
                None => match self.variables.get(key.as_str()) {
                    Some(value) => chars_of(value.as_str()),
                    None => Vec::new(),
                },
            }
        }
    }

    /// The text with its variables replaced.
    fn interpret_chars(&self, s: &Vec<char>, env: &Environment) -> (out: Vec<char>)
        ensures
            out@ == interpret(self@, env@, s@),
    {
        let mut out: Vec<char> = Vec::new();
        let mut i: usize = 0;
        let ghost m = self@;
        while i < s.len()
            invariant
                i <= s.len(),
                m == self@,
                out@ + interpret_from(m, env@, s@, i as int) == interpret(m, env@, s@),
            decreases s.len() - i,
        {
            let c = s[i];
            let ghost before = out@;
            if c == '\\' {
                if i + 1 >= s.len() {
                    out.push('\\');
                    i += 1;
                    assert(out@ =~= before + seq!['\\']);
                } else if s[i + 1] == '$' {
                    out.push('$');
                    i += 2;
                    assert(out@ + interpret_from(m, env@, s@, i as int) =~= before + (seq!['$']
                        + interpret_from(m, env@, s@, i as int)));
                } else {
                    out.push('\\');
                    out.push(s[i + 1]);
                    i += 2;
                    assert(out@ + interpret_from(m, env@, s@, i as int) =~= before + (seq![
                        '\\',
                        s@[i - 1],
                    ] + interpret_from(m, env@, s@, i as int)));
                }
            } else if c == '$' {
                let start = i + 1;
                let mut end = start;
                while end < s.len() && is_name(s[end])
                    invariant
                        start <= end <= s.len(),
                        name_end(s@, end as int) == name_end(s@, start as int),
                    decreases s.len() - end,
                {
                    end += 1;
                }
                let mut name: Vec<char> = Vec::new();
                let mut k = start;
                while k < end
                    invariant
                        start <= k <= end <= s.len(),
                        name@ == s@.subrange(start as int, k as int),
                    decreases end - k,
                {
                    name.push(s[k]);
                    k += 1;
                    assert(name@ =~= s@.subrange(start as int, k as int));
                }
                let value = self.replace_variable(&name, env);
                push_chars(&mut out, &value);
                i = end;
                assert(out@ + interpret_from(m, env@, s@, i as int) =~= before + (value@
                    + interpret_from(m, env@, s@, i as int)));
            } else {
                out.push(c);
                i += 1;
                assert(out@ + interpret_from(m, env@, s@, i as int) =~= before + (seq![c]
                    + interpret_from(m, env@, s@, i as int)));
            }
        }
        assert(out@ + Seq::<char>::empty() =~= out@);
        out
    }

    /// The text with its variables replaced: `$name` by what the name stands
    /// for, `\$` by a dollar sign.
    pub fn interpret_string(&self, s: String, env: &Environment) -> (out: String)
        ensures
            out@ == interpret(self@, env@, s@),
    {
        let chars = chars_of(s.as_str());
        string_of(&self.interpret_chars(&chars, env))
    }

    /// The value of an argument of the command line; empty where the
    /// argument was not given or nothing follows it.
    pub fn try_get_arg(arg_name: String, env: &Environment) -> (result: Result<String, LineError>)
        ensures
            match result {
                Ok(value) => argument_value(env@, arg_name@) == Ok::<Seq<char>, LineError>(
                    value@,
                ),
                Err(e) => argument_value(env@, arg_name@) == Err::<Seq<char>, LineError>(e),
            },
    {
        let names = chars_of(arg_name.as_str());
        if !holds_argument(env, &names) {
            return Ok(String::new());
        }
        let strings = match scan_strings(&args_chars(env)) {
            Ok(strings) => strings,
            Err(e) => {
                return Err(e);
            },
        };
        let wanted = split_chars(&names, ' ', ' ');
        let mut found: usize = 0;
        while found < strings.len() && !is_among(&wanted, &strings[found])
            invariant
                found <= strings.len(),
                first_among(views(strings@), views(wanted@), found as int) == first_among(
                    views(strings@),
                    views(wanted@),
                    0,
                ),
            decreases strings.len() - found,
        {
            assert(views(strings@)[found as int] == strings@[found as int]@);
            found += 1;
        }
        if found < strings.len() {
            assert(views(strings@)[found as int] == strings@[found as int]@);
        }
        if found >= strings.len() {
            return Ok(String::new());
        }
        let first = found + 1;
        let mut flag = first;
        while flag < strings.len() && !(strings[flag].len() > 0 && strings[flag][0] == '-')
            invariant
                first <= flag <= strings.len(),
                next_flag(views(strings@), flag as int) == next_flag(
                    views(strings@),
                    first as int,
                ),
            decreases strings.len() - flag,
        {
            assert(views(strings@)[flag as int] == strings@[flag as int]@);
            flag += 1;
        }
        if flag < strings.len() {
            assert(views(strings@)[flag as int] == strings@[flag as int]@);
        }
        let mut values: Vec<Vec<char>> = Vec::new();
        let mut k = first;
        while k < flag
            invariant
                first <= k <= flag <= strings.len(),
                views(values@) == views(strings@).subrange(first as int, k as int),
            decreases flag - k,
        {
            let value = strings[k].clone();
            proof {
                lemma_views_push(values@, value);
            }
            values.push(value);
            k += 1;
            assert(views(values@) =~= views(strings@).subrange(first as int, k as int));
        }
        let mut space: Vec<char> = Vec::new();
        space.push(' ');
        assert(space@ =~= seq![' ']);
        Ok(string_of(&join_chars(&values, &space)))
    }

    /// Takes the result of a comparison into the registers.
    pub fn try_add_if_result(&mut self, value: bool) -> (result: Result<(), ExecError>)
        ensures
            match combined(old(self)@, value) {
                Ok(after) => result is Ok && final(self)@ == after,
                Err(e) => result == Err::<(), ExecError>(e) && final(self)@ == old(self)@,
            },
    {
        match self.awaiting_evaluation {
            None => {
                self.last_if_result = Some(value);
                Ok(())
            },
            Some(how) => match self.last_if_result {
                None => Err(ExecError::MissingPrevious),
                Some(last) => {
                    self.last_if_result = Some(
                        match how {
                            Evaluation::And => last && value,
                            Evaluation::Or => last || value,
                        },
                    );
                    self.awaiting_evaluation = None;
                    Ok(())
                },
            },
        }
    }

    /// The result of the last comparison; fails where there is none yet.
    pub fn try_get_if_result(&self) -> (result: Result<bool, ExecError>)
        ensures
            result == match self@.if_result {
                Some(value) => Ok::<bool, ExecError>(value),
                None => Err::<bool, ExecError>(ExecError::MissingResult),
            },
    {
        match self.last_if_result {
            Some(value) => Ok(value),
            None => Err(ExecError::MissingResult),
        }
    }

    /// Takes note of a process that was waited for and whose output was
    /// kept.
    pub fn process_finished(&mut self, stdout: String, stderr: String, code: i32)
        ensures
            final(self)@ == (ExecutorModel {
                stdout: stdout@,
                stderr: stderr@,
                exit_code: code,
                ..old(self)@
            }),
    {
        self.last_proc_out = stdout;
        self.last_proc_err = stderr;
        self.last_proc_code = code;
    }

    /// Takes note of a process that was waited for and wrote where the
    /// interpreter writes.
    pub fn process_exited(&mut self, code: i32)
        ensures
            final(self)@ == (ExecutorModel { exit_code: code, ..old(self)@ }),
    {
        self.last_proc_code = code;
    }

    /// Whether the source has to be read to tell whether a cached copy to
    /// `target` may be skipped.
    pub fn needs_source(&self, target: &str, target_exists: bool) -> (needed: bool)
        ensures
            needed == (entries_map(self@.cache).contains_key(target@) && target_exists),
    {
        crate::fs::needs_source(&self.cache, target, target_exists)
    }

    /// Whether a cached copy to `target` may be skipped. `target_exists`
    /// says whether the target is there, `source` is what the source holds if
    /// it could be read.
    pub fn is_up_to_date(
        &self,
        target: &str,
        target_exists: bool,
        source: &Option<Vec<u8>>,
    ) -> (skip: bool)
        ensures
            skip == crate::fs::up_to_date(
                entries_map(self@.cache),
                target@,
                target_exists,
                crate::fs::bytes_read(*source),
            ),
    {
        crate::fs::is_up_to_date(&self.cache, target, target_exists, source, &self.crc_table)
    }

    /// Takes note of a copy to `target`: `written` is what the target holds
    /// now, if it could be read.
    pub fn record_copy(&mut self, target: String, written: &Option<Vec<u8>>)
        ensures
            final(self)@ == (ExecutorModel {
                cache: match crate::fs::bytes_read(*written) {
                    Some(bytes) => crate::string_map::insert_entry(
                        old(self)@.cache,
                        target@,
                        crate::crc32::checksum(bytes),
                    ),
                    None => old(self)@.cache,
                },
                ..old(self)@
            }),
    {
        crate::fs::record_copy(&mut self.cache, target, written, &self.crc_table);
    }

    /// The text of the cache file, if the cache holds anything.
    fn write_cache(&self) -> (effect: Effect)
        ensures
            Ok::<EffectModel, ExecError>(effect@) == flushed(self@),
    {
        let n = self.cache.len();
        if n == 0 {
            return Effect::Nothing;
        }
        let mut lines: Vec<Vec<char>> = Vec::new();
        let mut i: usize = 0;
        while i < n
            invariant
                i <= n,
                n == self.cache.entries().len(),
                lines.len() == i,
                forall|k: int|
                    0 <= k < i ==> (#[trigger] lines@[k])@ == cache_line(
                        self.cache.entries()[k].0,
                        self.cache.entries()[k].1,
                    ),
            decreases n - i,
        {
            let line = get_cache_line((self.cache.key_at(i), self.cache.value_at(i)));
            lines.push(chars_of(line.as_str()));
            i += 1;
        }
        assert(views(lines@) =~= cache_lines(self.cache.entries()));
        let mut feed: Vec<char> = Vec::new();
        feed.push('\n');
        assert(feed@ =~= seq!['\n']);
        Effect::WriteCache(string_of(&join_chars(&lines, &feed)))
    }
}

impl Executor {
    /// A comparison that gave `value`.
    fn compare(&mut self, value: bool) -> (result: Result<Effect, ExecError>)
        ensures
            (final(self)@, outcome(result)) == compared(old(self)@, value),
    {
        match self.try_add_if_result(value) {
            Ok(()) => Ok(Effect::Nothing),
            Err(e) => Err(e),
        }
    }

    /// Whether the last result is `wanted`.
    fn result_is(&self, wanted: bool) -> (result: Result<bool, ExecError>)
        ensures
            result == result_is(self@, wanted),
    {
        match self.last_if_result {
            Some(value) => Ok(value == wanted),
            None => Err(ExecError::MissingResult),
        }
    }

    /// The process that a command's input names, and its arguments.
    pub fn try_get_execution_args(input: String) -> (result: Result<
        (String, Vec<String>),
        ExecError,
    >)
        ensures
            match result {
                Ok((process, args)) => execution_args(input@) == Ok::<
                    (Seq<char>, Seq<Seq<char>>),
                    ExecError,
                >((process@, string_views(args@))),
                Err(e) => execution_args(input@) == Err::<(Seq<char>, Seq<Seq<char>>), ExecError>(
                    e,
                ),
            },
    {
        let chars = chars_of(input.as_str());
        let mut strings = match scan_strings(&chars) {
            Ok(strings) => strings,
            Err(e) => {
                return Err(ExecError::Line(e));
            },
        };
        if strings.len() == 0 {
            return Err(ExecError::MissingProcess);
        }
        let ghost all = views(strings@);
        assert(all[0] == strings@[0]@);
        let process = string_of(&strings[0]);
        strings.remove(0);
        assert(views(strings@) =~= all.skip(1));
        Ok((process, strings_of(&strings)))
    }

    /// A process command.
    fn process(input: String, mode: ProcessMode) -> (result: Result<Effect, ExecError>)
        ensures
            forall|m: ExecutorModel| (m, outcome(result)) == #[trigger] process_command(
                m,
                input@,
                mode,
            ),
    {
        match Executor::try_get_execution_args(input) {
            Ok((process, args)) => Ok(Effect::Run(mode, process, args)),
            Err(e) => Err(e),
        }
    }

    /// A file command.
    fn file(input: String, command: Command) -> (result: Result<Effect, ExecError>)
        ensures
            forall|m: ExecutorModel| (m, outcome(result)) == #[trigger] file_command(
                m,
                input@,
                command,
            ),
    {
        match try_get_source_and_target(input, command.name()) {
            Err(e) => Err(ExecError::Fs(e)),
            Ok(op) => Ok(
                match command {
                    Command::CopyDirectoryCached => Effect::CachedCopyDirectory(op),
                    Command::CopyFileCached => Effect::CachedCopy(op),
                    Command::CopyDirectory => Effect::CopyDirectory(op),
                    Command::CopyFile => Effect::Copy(op),
                    _ => Effect::Move(op),
                },
            ),
        }
    }

    /// The variable that the input names first is set to the rest of the
    /// input.
    fn set_variable(&mut self, input: String) -> (result: Result<Effect, ExecError>)
        ensures
            (final(self)@, outcome(result)) == assign(old(self)@, input@),
    {
        let parts = separate_first_value_from_rest(input, ":set");
        self.variables.insert(parts.first, parts.rest);
        Ok(Effect::Nothing)
    }

    /// `:argto`.
    fn argument_to(&mut self, input: String, env: &Environment) -> (result: Result<
        Effect,
        ExecError,
    >)
        ensures
            (final(self)@, outcome(result)) == argument_to(old(self)@, env@, input@),
    {
        let chars = chars_of(input.as_str());
        let strings = match scan_strings(&chars) {
            Ok(strings) => strings,
            Err(e) => {
                return Err(ExecError::Line(e));
            },
        };
        if strings.len() == 0 {
            return Err(ExecError::MissingArgument);
        }
        if strings.len() == 1 {
            return Err(ExecError::MissingVariable);
        }
        assert(views(strings@)[0] == strings@[0]@);
        assert(views(strings@)[1] == strings@[1]@);
        let value = match Executor::try_get_arg(string_of(&strings[0]), env) {
            Ok(value) => value,
            Err(e) => {
                return Err(ExecError::Line(e));
            },
        };
        self.variables.insert(string_of(&strings[1]), value);
        Ok(Effect::Nothing)
    }

    /// `:leo`.
    fn log_output(&self) -> (result: Result<Effect, ExecError>)
        ensures
            (self@, outcome(result)) == log_output(self@),
    {
        let err = chars_of(self.last_proc_err.as_str());
        let out = chars_of(self.last_proc_out.as_str());
        if err.len() > 0 && out.len() > 0 {
            let mut text = err;
            text.push('\n');
            push_chars(&mut text, &out);
            assert(text@ =~= self.last_proc_err@ + seq!['\n'] + self.last_proc_out@);
            Ok(Effect::Print(string_of(&text)))
        } else if err.len() > 0 {
            Ok(Effect::Print(string_of(&err)))
        } else if out.len() > 0 {
            Ok(Effect::Print(string_of(&out)))
        } else {
            Ok(Effect::Nothing)
        }
    }

    /// `:tb`.
    fn table_begin(&mut self, input: String) -> (result: Result<Effect, ExecError>)
        ensures
            (final(self)@, outcome(result)) == table_begin(old(self)@, input@),
    {
        let chars = chars_of(input.as_str());
        let strings = match scan_strings(&chars) {
            Ok(strings) => strings,
            Err(e) => {
                return Err(ExecError::Line(e));
            },
        };
        let mut blanks: Vec<char> = Vec::new();
        blanks.push(' ');
        blanks.push('\t');
        blanks.push('\n');
        blanks.push('\x0C');
        blanks.push('\r');
        assert(blanks@ =~= ascii_whitespace());
        let given = keep_pieces(strings, &blanks);
        if given.len() == 0 {
            self.table = Table::new(DEFAULT_CELL_MARGIN);
            return Ok(Effect::Nothing);
        }
        assert(views(given@)[0] == given@[0]@);
        match parse_number(&given[0], usize::MAX as u64) {
            None => Err(ExecError::BadMargin),
            Some(margin) => {
                self.table = Table::new(margin as usize);
                Ok(Effect::Nothing)
            },
        }
    }

    /// `:th`.
    fn table_headers(&mut self, input: String) -> (result: Result<Effect, ExecError>)
        ensures
            (final(self)@, outcome(result)) == table_headers(old(self)@, input@),
    {
        let chars = chars_of(input.as_str());
        match scan_strings(&chars) {
            Err(e) => Err(ExecError::Line(e)),
            Ok(strings) => {
                self.table.set_headers(strings_of(&strings));
                Ok(Effect::Nothing)
            },
        }
    }

    /// `:tr`.
    fn table_row(&mut self, input: String) -> (result: Result<Effect, ExecError>)
        ensures
            (final(self)@, outcome(result)) == table_row(old(self)@, input@),
    {
        let chars = chars_of(input.as_str());
        match scan_strings(&chars) {
            Err(e) => Err(ExecError::Line(e)),
            Ok(strings) => {
                self.table.add_row(strings_of(&strings));
                Ok(Effect::Nothing)
            },
        }
    }

    /// `:te`.
    fn table_end(&self) -> (result: Result<Effect, ExecError>)
        ensures
            (self@, outcome(result)) == table_end(self@),
    {
        match self.table.try_render() {
            Err(e) => Err(ExecError::Table(e)),
            Ok(lines) => {
                let mut all: Vec<Vec<char>> = Vec::new();
                let mut i: usize = 0;
                while i < lines.len()
                    invariant
                        i <= lines.len(),
                        all.len() == i,
                        forall|k: int| 0 <= k < i ==> (#[trigger] all@[k])@ == lines@[k]@,
                    decreases lines.len() - i,
                {
                    all.push(chars_of(lines[i].as_str()));
                    i += 1;
                }
                assert(views(all@) =~= string_views(lines@));
                let mut feed: Vec<char> = Vec::new();
                feed.push('\n');
                assert(feed@ =~= seq!['\n']);
                Ok(Effect::Print(string_of(&join_chars(&all, &feed))))
            },
        }
    }

    /// `:ws`.
    fn wait(input: String) -> (result: Result<Effect, ExecError>)
        ensures
            forall|m: ExecutorModel| (m, outcome(result)) == #[trigger] wait(m, input@),
    {
        let chars = chars_of(input.as_str());
        match parse_number(&chars, u64::MAX) {
            None => Err(ExecError::BadSeconds),
            Some(seconds) => Ok(Effect::Sleep(seconds)),
        }
    }

    /// Runs a command on its input: the state changes as the command says,
    /// and what the host is to do comes back. Where the command fails or no
    /// command has that name, the state stays as it was.
    pub fn try_execute_command(
        &mut self,
        command: &str,
        input: String,
        env: &Environment,
    ) -> (result: Result<Effect, ExecError>)
        ensures
            (final(self)@, outcome(result)) == named_command(old(self)@, env@, command@, input@),
    {
        let named = match Command::named(command) {
            None => {
                return Err(ExecError::UnknownCommand);
            },
            Some(named) => named,
        };
        match named {
            Command::ArgumentTo => self.argument_to(input, env),
            Command::And => {
                self.awaiting_evaluation = Some(Evaluation::And);
                Ok(Effect::Nothing)
            },
            Command::Or => {
                self.awaiting_evaluation = Some(Evaluation::Or);
                Ok(Effect::Nothing)
            },
            Command::Contains => {
                let found = holds_text(
                    &chars_of(self.last_if_test_value.as_str()),
                    &chars_of(input.as_str()),
                );
                self.compare(found)
            },
            Command::IsEmpty => {
                let empty = chars_of(self.last_if_test_value.as_str()).len() == 0;
                self.compare(empty)
            },
            Command::Equals => {
                let same = crate::text::same_text(
                    self.last_if_test_value.as_str(),
                    input.as_str(),
                );
                self.compare(same)
            },
            Command::NotEquals => {
                let same = crate::text::same_text(
                    self.last_if_test_value.as_str(),
                    input.as_str(),
                );
                self.compare(!same)
            },
            Command::HasArgument => {
                let found = holds_argument(env, &chars_of(input.as_str()));
                self.compare(found)
            },
            Command::HasVariable => {
                let found = self.variables.contains_key(input.as_str());
                self.compare(found)
            },
            Command::ProcessFailed => {
                let failed = self.last_proc_code != 0;
                self.compare(failed)
            },
            Command::ProcessSucceeded => {
                let succeeded = self.last_proc_code == 0;
                self.compare(succeeded)
            },
            Command::Not => match self.last_if_result {
                None => Err(ExecError::MissingResult),
                Some(result) => {
                    self.last_if_result = Some(!result);
                    Ok(Effect::Nothing)
                },
            },
            Command::If => {
                self.last_if_test_value = input;
                Ok(Effect::Nothing)
            },
            Command::ChangeDirectory => Ok(Effect::ChangeDirectory(input)),
            Command::CopyDirectoryCached
            | Command::CopyFileCached
            | Command::CopyDirectory
            | Command::CopyFile
            | Command::MoveFile => Executor::file(input, named),
            Command::MoveDirectory => Err(ExecError::NotImplemented),
            Command::ExecuteDetached => Executor::process(input, ProcessMode::Detached),
            Command::ExecuteInherited => Executor::process(input, ProcessMode::Inherit),
            Command::Execute => Executor::process(input, ProcessMode::Capture),
            Command::GotoIfFalse | Command::GotoIfTrue | Command::Goto => {
                let go = match named {
                    Command::GotoIfFalse => self.result_is(false),
                    Command::GotoIfTrue => self.result_is(true),
                    _ => Ok(true),
                };
                match go {
                    Err(e) => Err(e),
                    Ok(go) => {
                        if go {
                            self.goto_phase = Some(input);
                        }
                        Ok(Effect::Nothing)
                    },
                }
            },
            Command::HelpVerbose => {
                self.stage = Stage::Closing;
                Ok(Effect::Help(true))
            },
            Command::Help => {
                self.stage = Stage::Closing;
                Ok(Effect::Help(false))
            },
            Command::LogOutput => self.log_output(),
            Command::LogOnError
            | Command::LogOnSuccess
            | Command::LogIfFalse
            | Command::LogIfTrue
            | Command::Log => {
                let go = match named {
                    Command::LogOnError => Ok(self.last_proc_code != 0),
                    Command::LogOnSuccess => Ok(self.last_proc_code == 0),
                    Command::LogIfFalse => self.result_is(false),
                    Command::LogIfTrue => self.result_is(true),
                    _ => Ok(true),
                };
                match go {
                    Err(e) => Err(e),
                    Ok(true) => Ok(Effect::Print(input)),
                    Ok(false) => Ok(Effect::Nothing),
                }
            },
            Command::QuitWithErrorOnError
            | Command::QuitWithErrorIfFalse
            | Command::QuitWithErrorIfTrue
            | Command::QuitWithError => {
                let go = match named {
                    Command::QuitWithErrorOnError => Ok(self.last_proc_code != 0),
                    Command::QuitWithErrorIfFalse => self.result_is(false),
                    Command::QuitWithErrorIfTrue => self.result_is(true),
                    _ => Ok(true),
                };
                match go {
                    Err(e) => Err(e),
                    Ok(true) => {
                        self.stage = Stage::Done;
                        Ok(Effect::Exit(1))
                    },
                    Ok(false) => Ok(Effect::Nothing),
                }
            },
            Command::QuitOnError | Command::QuitIfFalse | Command::QuitIfTrue | Command::Quit => {
                let go = match named {
                    Command::QuitOnError => Ok(self.last_proc_code != 0),
                    Command::QuitIfFalse => self.result_is(false),
                    Command::QuitIfTrue => self.result_is(true),
                    _ => Ok(true),
                };
                match go {
                    Err(e) => Err(e),
                    Ok(go) => {
                        if go {
                            self.stage = Stage::Closing;
                        }
                        Ok(Effect::Nothing)
                    },
                }
            },
            Command::AssignIfFalse | Command::AssignIfTrue | Command::Assign => {
                let go = match named {
                    Command::AssignIfFalse => self.result_is(false),
                    Command::AssignIfTrue => self.result_is(true),
                    _ => Ok(true),
                };
                match go {
                    Err(e) => Err(e),
                    Ok(true) => self.set_variable(input),
                    Ok(false) => Ok(Effect::Nothing),
                }
            },
            Command::Silent => {
                self.announcing_phases = false;
                Ok(Effect::Nothing)
            },
            Command::TableBegin => self.table_begin(input),
            Command::TableEnd => self.table_end(),
            Command::TableHeaders => self.table_headers(input),
            Command::TableRow => self.table_row(input),
            Command::WriteCache => Ok(self.write_cache()),
            Command::Wait => Executor::wait(input),
        }
    }

    /// Runs a command line: replaces its variables, takes what stands before
    /// the first space for the command and the rest for its input.
    fn execute_line(&mut self, text: &str, env: &Environment) -> (result: Result<
        Effect,
        ExecError,
    >)
        ensures
            (final(self)@, outcome(result)) == line_model(old(self)@, env@, text@),
    {
        let line = self.interpret_chars(&chars_of(text), env);
        let mut space: usize = 0;
        while space < line.len() && line[space] != ' '
            invariant
                space <= line.len(),
                space_from(line@, space as int) == first_space(line@),
            decreases line.len() - space,
        {
            space += 1;
        }
        let word = string_of_range(&line, 0, space);
        let input = if space < line.len() {
            string_of_range(&line, space + 1, line.len())
        } else {
            String::new()
        };
        self.try_execute_command(word.as_str(), input, env)
    }

    /// Begins the run of a group with the given arguments: fails where the
    /// arguments are fewer than the group's parameters, ignores those that
    /// are too many, and leaves the group's commands to the steps that
    /// follow.
    pub fn try_execute_group(
        &mut self,
        group: &GroupDefinition,
        args: &Vec<String>,
        env: &Environment,
    ) -> (result: Result<Effect, ExecError>)
        ensures
            (final(self)@, outcome(result)) == group_called(
                old(self)@,
                env@,
                group@,
                string_views(args@),
            ),
    {
        let ghost m = self@;
        let mut values: Vec<String> = Vec::new();
        let mut i: usize = 0;
        while i < args.len()
            invariant
                i <= args.len(),
                self@ == m,
                values.len() == i,
                forall|k: int|
                    0 <= k < i ==> (#[trigger] values@[k])@ == interpret(m, env@, args@[k]@),
            decreases args.len() - i,
        {
            values.push(self.interpret_string(args[i].clone(), env));
            i += 1;
        }
        assert(string_views(values@) =~= interpret_all(m, env@, string_views(args@)));
        if values.len() < group.args.len() {
            return Err(ExecError::TooFewArguments);
        }
        let mut texts: Vec<String> = Vec::new();
        let ghost tokens = group@.commands;
        let mut j: usize = 0;
        assert(tokens.take(0) =~= Seq::<TokenModel>::empty());
        assert(string_views(texts@) =~= Seq::<Seq<char>>::empty());
        while j < group.commands.len()
            invariant
                j <= group.commands.len(),
                tokens == group@.commands,
                string_views(texts@) == command_texts(tokens.take(j as int)),
            decreases group.commands.len() - j,
        {
            proof {
                assert(tokens.take(j + 1).drop_last() == tokens.take(j as int));
                assert(tokens.take(j + 1).last() == group.commands@[j as int]@);
            }
            match &group.commands[j].kind {
                TokenKind::Command(text) => {
                    let ghost before = texts@;
                    texts.push(text.clone());
                    assert(string_views(texts@) =~= string_views(before).push(text@));
                },
                _ => {},
            }
            j += 1;
        }
        assert(tokens.take(group.commands.len() as int) == tokens);
        self.executing_group_args.clear();
        if texts.len() == 0 {
            return Ok(Effect::Nothing);
        }
        let ghost formals = string_views(group.args@);
        let mut k: usize = 0;
        assert(formals.take(0) =~= Seq::<Seq<char>>::empty());
        while k < group.args.len()
            invariant
                k <= group.args.len() <= values.len(),
                formals == string_views(group.args@),
                self@ == (ExecutorModel {
                    group_args: bound(formals.take(k as int), string_views(values@)),
                    ..m
                }),
            decreases group.args.len() - k,
        {
            proof {
                assert(formals.take(k + 1).drop_last() == formals.take(k as int));
                assert(formals.take(k + 1).last() == group.args@[k as int]@);
                assert(string_views(values@)[k as int] == values@[k as int]@);
            }
            self.executing_group_args.insert(group.args[k].clone(), values[k].clone());
            k += 1;
        }
        assert(formals.take(group.args.len() as int) == formals);
        self.queue = texts;
        self.next = 0;
        assert(pending_of(self.queue@, 0) =~= string_views(self.queue@));
        Ok(Effect::Nothing)
    }

    /// Announces a phase, unless the script has asked for silence.
    fn announce(&self, label: &str) -> (result: Result<Effect, ExecError>)
        ensures
            (self@, outcome(result)) == announced(self@, label@),
    {
        if !self.announcing_phases {
            return Ok(Effect::Nothing);
        }
        let mut text = chars_of("Starting phase ");
        let name = chars_of(label);
        let start: usize = if name.len() > 0 && name[0] == '@' {
            1
        } else {
            0
        };
        let mut i = start;
        let ghost head = text@;
        assert(name@.skip(0) == name@);
        while i < name.len()
            invariant
                start <= i <= name.len(),
                text@ == head + name@.subrange(start as int, i as int),
            decreases name.len() - i,
        {
            text.push(name[i]);
            i += 1;
            assert(text@ =~= head + name@.subrange(start as int, i as int));
        }
        assert(name@.subrange(start as int, name.len() as int) =~= name@.skip(start as int));
        Ok(Effect::Print(string_of(&text)))
    }

    /// Acts on a token of the script: a phase, a group call, a command or
    /// an assignment. Any other token is out of place.
    pub fn try_execute_token(&mut self, token: Token, env: &Environment) -> (result: Result<
        Effect,
        ExecError,
    >)
        ensures
            (final(self)@, outcome(result)) == token_step(old(self)@, env@, token@),
    {
        match token.kind {
            TokenKind::EndOfText => {
                self.stage = Stage::Closing;
                Ok(Effect::Nothing)
            },
            TokenKind::Phase(label) => {
                let arrived = match &self.goto_phase {
                    None => true,
                    Some(target) => crate::text::same_text(target.as_str(), label.as_str()),
                };
                if arrived {
                    self.goto_phase = None;
                    self.announce(label.as_str())
                } else {
                    Ok(Effect::Nothing)
                }
            },
            TokenKind::ExecuteGroup(name, args) => {
                if self.goto_phase.is_some() {
                    return Ok(Effect::Nothing);
                }
                let group = match self.groups.get(name.as_str()) {
                    None => {
                        return Err(ExecError::UndefinedGroup);
                    },
                    Some(group) => clone_group(group),
                };
                self.try_execute_group(&group, &args, env)
            },
            TokenKind::Command(text) => {
                if self.goto_phase.is_some() {
                    return Ok(Effect::Nothing);
                }
                self.execute_line(text.as_str(), env)
            },
            TokenKind::Variable(name, value) => {
                self.variables.insert(name, value);
                Ok(Effect::Nothing)
            },
            TokenKind::VariableIfNotSet(name, value) => {
                self.variables.insert_if_absent(name, value);
                Ok(Effect::Nothing)
            },
            _ => Err(ExecError::UnexpectedToken),
        }
    }

    /// What is told of a jump that never arrived.
    fn close(&self) -> (effect: Effect)
        ensures
            Ok::<EffectModel, ExecError>(effect@) == closing(self@),
    {
        match &self.goto_phase {
            None => Effect::Nothing,
            Some(target) => {
                let mut text = chars_of("goto could not find phase '");
                push_chars(&mut text, &chars_of(target.as_str()));
                text.push('\'');
                assert(text@ =~= "goto could not find phase '"@ + target@ + seq!['\'']);
                Effect::Print(string_of(&text))
            },
        }
    }

    /// One step of the run: the state moves on, and what the host is to do
    /// now comes back. A host takes steps, doing what each asks for and
    /// reporting what processes and copies came to, until a step says
    /// `Finished`, asks to leave, or fails.
    pub fn try_step(&mut self, env: &Environment) -> (result: Result<Effect, ExecError>)
        ensures
            (final(self)@, outcome(result)) == step_model(old(self)@, env@),
    {
        match self.stage {
            Stage::Done => Ok(Effect::Finished),
            Stage::Flushing => {
                let effect = self.write_cache();
                self.stage = Stage::Done;
                Ok(effect)
            },
            Stage::Closing => {
                let effect = self.close();
                self.stage = Stage::Flushing;
                Ok(effect)
            },
            Stage::Running => {
                if self.next < self.queue.len() {
                    let text = self.queue[self.next].clone();
                    proof {
                        assert(pending_of(self.queue@, self.next)[0] == text@);
                        assert(pending_of(self.queue@, (self.next + 1) as usize) =~= pending_of(
                            self.queue@,
                            self.next,
                        ).skip(1));
                    }
                    self.next = self.next + 1;
                    let result = self.execute_line(text.as_str(), env);
                    if self.next >= self.queue.len() && result.is_ok() {
                        if let Stage::Running = self.stage {
                            self.executing_group_args.clear();
                        }
                    }
                    result
                } else {
                    match self.try_next_token() {
                        Err(e) => Err(ExecError::Lex(e)),
                        Ok(token) => self.try_execute_token(token, env),
                    }
                }
            },
        }
    }
}

/// Only as many values as there are parameters count in a binding.
pub proof fn lemma_bound_prefix(
    formals: Seq<Seq<char>>,
    values: Seq<Seq<char>>,
    fewer: Seq<Seq<char>>,
)
    requires
        formals.len() <= fewer.len() <= values.len(),
        forall|i: int| 0 <= i < fewer.len() ==> fewer[i] == values[i],
    ensures
        bound(formals, values) == bound(formals, fewer),
    decreases formals.len(),
{
    if formals.len() > 0 {
        lemma_bound_prefix(formals.drop_last(), values, fewer);
    }
}

/// A group called with fewer arguments than it has parameters fails; with
/// as many or more it begins, and the arguments beyond the parameters make
/// no difference.
pub proof fn lemma_group_arguments(
    m: ExecutorModel,
    env: EnvironmentModel,
    group: GroupModel,
    args: Seq<Seq<char>>,
)
    ensures
        args.len() < group.args.len() ==> group_called(m, env, group, args) == fails(
            m,
            ExecError::TooFewArguments,
        ),
        args.len() >= group.args.len() ==> group_called(m, env, group, args).1 == Ok::<
            EffectModel,
            ExecError,
        >(EffectModel::Nothing),
        args.len() >= group.args.len() ==> group_called(m, env, group, args) == group_called(
            m,
            env,
            group,
            args.take(group.args.len() as int),
        ),
{
    if args.len() >= group.args.len() {
        let fewer = args.take(group.args.len() as int);
        lemma_bound_prefix(group.args, interpret_all(m, env, args), interpret_all(m, env, fewer));
    }
}

/// A comparison, then `:and` or `:or`, then a second comparison leave the
/// two results joined by and, or by or, and nothing waiting.
pub proof fn lemma_and_or(
    m: ExecutorModel,
    env: EnvironmentModel,
    first: bool,
    second: bool,
    how: Evaluation,
    input: Seq<char>,
)
    requires
        m.awaiting is None,
    ensures
        ({
            let joiner = match how {
                Evaluation::And => Command::And,
                Evaluation::Or => Command::Or,
            };
            let one = compared(m, first).0;
            let two = command_model(one, env, joiner, input).0;
            let (three, end) = compared(two, second);
            &&& end == Ok::<EffectModel, ExecError>(EffectModel::Nothing)
            &&& three.awaiting is None
            &&& three.if_result == Some(
                match how {
                    Evaluation::And => first && second,
                    Evaluation::Or => first || second,
                },
            )
        }),
{
}

/// While a jump is under way, commands, group calls and the phases that are
/// not its target do nothing at all.
pub proof fn lemma_jump_passes_over(m: ExecutorModel, env: EnvironmentModel, token: TokenModel)
    requires
        m.goto is Some,
        token is Command || token is ExecuteGroup || (token matches TokenModel::Phase(label)
            && m.goto != Some(label)),
    ensures
        token_step(m, env, token) == nothing(m),
{
}

/// A jump ends at the phase that is its target: the phase is announced like
/// any other, and what follows it runs.
pub proof fn lemma_jump_arrives(m: ExecutorModel, env: EnvironmentModel, target: Seq<char>)
    requires
        m.goto == Some(target),
    ensures
        token_step(m, env, TokenModel::Phase(target)).0 == (ExecutorModel { goto: None, ..m }),
        token_step(m, env, TokenModel::Phase(target)).1 == Ok::<EffectModel, ExecError>(
            if m.announcing {
                EffectModel::Print("Starting phase "@ + phase_name(target))
            } else {
                EffectModel::Nothing
            },
        ),
{
}

/// A run that is over stays over, and a run that closes is over after two
/// more steps, in which the cache is written if it holds anything.
pub proof fn lemma_run_ends(m: ExecutorModel, env: EnvironmentModel)
    ensures
        m.stage is Done ==> step_model(m, env) == (m, Ok::<EffectModel, ExecError>(
            EffectModel::Finished,
        )),
        m.stage is Closing ==> ({
            let (one, _) = step_model(m, env);
            let (two, written) = step_model(one, env);
            &&& two == (ExecutorModel { stage: Stage::Done, ..m })
            &&& written == flushed(m)
        }),
{
}

/// A command leaves the script, the place in it and the waiting commands
/// alone.
pub proof fn lemma_command_keeps_place(
    m: ExecutorModel,
    env: EnvironmentModel,
    command: Command,
    input: Seq<char>,
)
    ensures
        command_model(m, env, command, input).0.script == m.script,
        command_model(m, env, command, input).0.position == m.position,
        command_model(m, env, command, input).0.preprocessing == m.preprocessing,
        command_model(m, env, command, input).0.pending == m.pending,
{
    match command {
        Command::ArgumentTo => {},
        Command::And => {},
        Command::Contains => {},
        Command::CopyDirectoryCached => {},
        Command::CopyFileCached => {},
        Command::CopyDirectory => {},
        Command::CopyFile => {},
        Command::ChangeDirectory => {},
        Command::IsEmpty => {},
        Command::ExecuteDetached => {},
        Command::ExecuteInherited => {},
        Command::Equals => {},
        Command::Execute => {},
        Command::GotoIfFalse => {},
        Command::GotoIfTrue => {},
        Command::Goto => {},
        Command::HasArgument => {},
        Command::HasVariable => {},
        Command::HelpVerbose => {},
        Command::Help => {},
        Command::ProcessFailed => {},
        Command::ProcessSucceeded => {},
        Command::If => {},
        Command::LogOutput => {},
        Command::LogOnError => {},
        Command::LogOnSuccess => {},
        Command::LogIfFalse => {},
        Command::LogIfTrue => {},
        Command::Log => {},
        Command::MoveDirectory => {},
        Command::MoveFile => {},
        Command::NotEquals => {},
        Command::Not => {},
        Command::Or => {},
        Command::QuitWithErrorOnError => {},
        Command::QuitOnError => {},
        Command::QuitWithErrorIfFalse => {},
        Command::QuitWithErrorIfTrue => {},
        Command::QuitIfFalse => {},
        Command::QuitIfTrue => {},
        Command::QuitWithError => {},
        Command::Quit => {},
        Command::AssignIfFalse => {},
        Command::AssignIfTrue => {},
        Command::Assign => {},
        Command::Silent => {},
        Command::TableBegin => {},
        Command::TableEnd => {},
        Command::TableHeaders => {},
        Command::TableRow => {},
        Command::WriteCache => {},
        Command::Wait => {},
    }
}

/// Every step of a run that goes on moves it forward: the step reads on in
/// the script, or it runs one of the commands that wait and leaves fewer of
/// them, or it ends the run. So no run goes on for ever.
pub proof fn lemma_step_moves_forward(m: ExecutorModel, env: EnvironmentModel)
    requires
        m.stage is Running,
        0 <= m.position <= m.script.len(),
    ensures
        ({
            let (after, how) = step_model(m, env);
            &&& after.script == m.script
            &&& m.position <= after.position <= m.script.len()
            &&& how is Ok ==> {
                ||| !(after.stage is Running)
                ||| m.position < after.position
                ||| after.pending.len() < m.pending.len()
            }
        }),
{
    if m.pending.len() > 0 {
        let waiting = ExecutorModel { pending: m.pending.skip(1), ..m };
        let line = interpret(waiting, env, m.pending[0]);
        match command_named(command_word(line)) {
            None => {},
            Some(command) => {
                lemma_command_keeps_place(waiting, env, command, command_input(line));
            },
        }
    } else {
        crate::lexer::lemma_next_token_at(m.script, m.position, m.preprocessing);
        match next_token_at(m.script, m.position, m.preprocessing) {
            Err(_) => {},
            Ok((token, end)) => {
                let read = ExecutorModel { position: end, ..m };
                match token {
                    TokenModel::Command(text) => {
                        if m.goto is None {
                            let line = interpret(read, env, text);
                            match command_named(command_word(line)) {
                                None => {},
                                Some(command) => {
                                    lemma_command_keeps_place(
                                        read,
                                        env,
                                        command,
                                        command_input(line),
                                    );
                                },
                            }
                        }
                    },
                    _ => {},
                }
            },
        }
    }
}

/// No command fails for a token that is none: that is the lexer's to find.
pub proof fn lemma_command_reads_nothing(
    m: ExecutorModel,
    env: EnvironmentModel,
    command: Command,
    input: Seq<char>,
)
    ensures
        !(command_model(m, env, command, input).1 matches Err(ExecError::Lex(_))),
{
    match command {
        Command::ArgumentTo => {},
        Command::And => {},
        Command::Contains => {},
        Command::CopyDirectoryCached => {},
        Command::CopyFileCached => {},
        Command::CopyDirectory => {},
        Command::CopyFile => {},
        Command::ChangeDirectory => {},
        Command::IsEmpty => {},
        Command::ExecuteDetached => {},
        Command::ExecuteInherited => {},
        Command::Equals => {},
        Command::Execute => {},
        Command::GotoIfFalse => {},
        Command::GotoIfTrue => {},
        Command::Goto => {},
        Command::HasArgument => {},
        Command::HasVariable => {},
        Command::HelpVerbose => {},
        Command::Help => {},
        Command::ProcessFailed => {},
        Command::ProcessSucceeded => {},
        Command::If => {},
        Command::LogOutput => {},
        Command::LogOnError => {},
        Command::LogOnSuccess => {},
        Command::LogIfFalse => {},
        Command::LogIfTrue => {},
        Command::Log => {},
        Command::MoveDirectory => {},
        Command::MoveFile => {},
        Command::NotEquals => {},
        Command::Not => {},
        Command::Or => {},
        Command::QuitWithErrorOnError => {},
        Command::QuitOnError => {},
        Command::QuitWithErrorIfFalse => {},
        Command::QuitWithErrorIfTrue => {},
        Command::QuitIfFalse => {},
        Command::QuitIfTrue => {},
        Command::QuitWithError => {},
        Command::Quit => {},
        Command::AssignIfFalse => {},
        Command::AssignIfTrue => {},
        Command::Assign => {},
        Command::Silent => {},
        Command::TableBegin => {},
        Command::TableEnd => {},
        Command::TableHeaders => {},
        Command::TableRow => {},
        Command::WriteCache => {},
        Command::Wait => {},
    }
}

/// A run over a script whose groups could be gathered never stops at a
/// token that is none: as long as the run goes on, every step finds the rest
/// of the script as readable as it was. The interpreter that `new` or
/// `with_cache` makes begins in such a state.
pub proof fn lemma_gathered_script_is_read(m: ExecutorModel, env: EnvironmentModel)
    requires
        m.stage is Running,
        !m.preprocessing,
        0 <= m.position <= m.script.len(),
        harvest(m.script, m.position, Seq::empty()) is Ok,
    ensures
        ({
            let (after, how) = step_model(m, env);
            &&& !(how matches Err(ExecError::Lex(_)))
            &&& !after.preprocessing
            &&& after.script == m.script
            &&& 0 <= after.position <= after.script.len()
            &&& harvest(after.script, after.position, Seq::empty()) is Ok
        }),
{
    if m.pending.len() > 0 {
        let waiting = ExecutorModel { pending: m.pending.skip(1), ..m };
        let line = interpret(waiting, env, m.pending[0]);
        match command_named(command_word(line)) {
            None => {},
            Some(command) => {
                lemma_command_keeps_place(waiting, env, command, command_input(line));
                lemma_command_reads_nothing(waiting, env, command, command_input(line));
            },
        }
    } else {
        crate::preprocessor::lemma_interpreter_reads_on(m.script, m.position);
        match next_token_at(m.script, m.position, m.preprocessing) {
            Err(_) => {},
            Ok((token, end)) => {
                let read = ExecutorModel { position: end, ..m };
                match token {
                    TokenModel::Command(text) => {
                        if m.goto is None {
                            let line = interpret(read, env, text);
                            match command_named(command_word(line)) {
                                None => {},
                                Some(command) => {
                                    lemma_command_keeps_place(
                                        read,
                                        env,
                                        command,
                                        command_input(line),
                                    );
                                    lemma_command_reads_nothing(
                                        read,
                                        env,
                                        command,
                                        command_input(line),
                                    );
                                },
                            }
                        }
                    },
                    _ => {},
                }
            },
        }
    }
}

impl Executor {
    /// The interpreter at the start of a script in which no import is left,
    /// with the groups that the script defines and an empty cache. The script
    /// must hold nothing but tokens: `try_new` tells.
    pub fn new(script: String) -> (executor: Executor)
        requires
            harvest(script_bytes(script@), 0, Seq::empty()) is Ok,
        ensures
            executor@ == initial_model(
                script_bytes(script@),
                entries_map(harvest(script_bytes(script@), 0, Seq::empty())->Ok_0),
                Seq::empty(),
            ),
    {
        match Executor::try_new(script) {
            Ok(executor) => executor,
            Err(_) => vstd::pervasive::unreached(),
        }
    }

    /// The interpreter at the start of a script in which no import is left,
    /// with the groups that the script defines and the given cache. The
    /// script must hold nothing but tokens: `try_with_cache` tells.
    pub fn with_cache(script: String, cache: StringMap<u32>) -> (executor: Executor)
        requires
            harvest(script_bytes(script@), 0, Seq::empty()) is Ok,
        ensures
            executor@ == initial_model(
                script_bytes(script@),
                entries_map(harvest(script_bytes(script@), 0, Seq::empty())->Ok_0),
                cache.entries(),
            ),
    {
        match Executor::try_with_cache(script, cache) {
            Ok(executor) => executor,
            Err(_) => vstd::pervasive::unreached(),
        }
    }

    /// The next token of the script, straight from the interpreter's lexer.
    /// The script must have a next token: `try_next_token` tells.
    pub fn next_token(&mut self) -> (token: Token)
        requires
            next_token_at(old(self)@.script, old(self)@.position, old(self)@.preprocessing)
                is Ok,
        ensures
            next_token_at(old(self)@.script, old(self)@.position, old(self)@.preprocessing)
                == Ok::<(TokenModel, int), LexError>((token@, final(self)@.position)),
            final(self)@ == (ExecutorModel { position: final(self)@.position, ..old(self)@ }),
    {
        match self.try_next_token() {
            Ok(token) => token,
            Err(_) => vstd::pervasive::unreached(),
        }
    }

    /// The value of an argument of the command line; empty where the
    /// argument was not given or nothing follows it. Where the argument was
    /// given, the command line must be one that can be split into strings:
    /// `try_get_arg` tells.
    pub fn get_arg(arg_name: String, env: &Environment) -> (value: String)
        requires
            argument_value(env@, arg_name@) is Ok,
        ensures
            argument_value(env@, arg_name@) == Ok::<Seq<char>, LineError>(value@),
    {
        match Executor::try_get_arg(arg_name, env) {
            Ok(value) => value,
            Err(_) => vstd::pervasive::unreached(),
        }
    }

    /// Takes the result of a comparison into the registers. Where `:and` or
    /// `:or` waits, there must be a result to join it to: `try_add_if_result`
    /// tells.
    pub fn add_if_result(&mut self, value: bool)
        requires
            combined(old(self)@, value) is Ok,
        ensures
            combined(old(self)@, value) == Ok::<ExecutorModel, ExecError>(final(self)@),
    {
        match self.try_add_if_result(value) {
            Ok(()) => {},
            Err(_) => vstd::pervasive::unreached(),
        }
    }

    /// The result of the last comparison. There must be one:
    /// `try_get_if_result` and `last_result` tell.
    pub fn get_if_result(&self) -> (result: bool)
        requires
            self@.if_result is Some,
        ensures
            self@.if_result == Some(result),
    {
        match self.try_get_if_result() {
            Ok(result) => result,
            Err(_) => vstd::pervasive::unreached(),
        }
    }

    /// The process that a command's input names, and its arguments. The
    /// input must name a process: `try_get_execution_args` tells.
    pub fn get_execution_args(input: String) -> (named: (String, Vec<String>))
        requires
            execution_args(input@) is Ok,
        ensures
            execution_args(input@) == Ok::<(Seq<char>, Seq<Seq<char>>), ExecError>(
                (named.0@, string_views(named.1@)),
            ),
    {
        match Executor::try_get_execution_args(input) {
            Ok(named) => named,
            Err(_) => vstd::pervasive::unreached(),
        }
    }

    /// Runs a command on its input: the state changes as the command says,
    /// and what the host is to do comes back. The command must be one that
    /// can run on this input in this state: `try_execute_command` tells.
    pub fn execute_command(
        &mut self,
        command: &str,
        input: String,
        env: &Environment,
    ) -> (effect: Effect)
        requires
            named_command(old(self)@, env@, command@, input@).1 is Ok,
        ensures
            (final(self)@, Ok::<EffectModel, ExecError>(effect@)) == named_command(
                old(self)@,
                env@,
                command@,
                input@,
            ),
    {
        match self.try_execute_command(command, input, env) {
            Ok(effect) => effect,
            Err(_) => vstd::pervasive::unreached(),
        }
    }

    /// Begins the run of a group with the given arguments; those beyond the
    /// group's parameters are ignored. The arguments must be no fewer than
    /// the parameters: `try_execute_group` tells.
    pub fn execute_group(
        &mut self,
        group: &GroupDefinition,
        args: &Vec<String>,
        env: &Environment,
    ) -> (effect: Effect)
        requires
            args.len() >= group.args.len(),
        ensures
            (final(self)@, Ok::<EffectModel, ExecError>(effect@)) == group_called(
                old(self)@,
                env@,
                group@,
                string_views(args@),
            ),
    {
        match self.try_execute_group(group, args, env) {
            Ok(effect) => effect,
            Err(_) => vstd::pervasive::unreached(),
        }
    }

    /// Acts on a token of the script. The token must be one that the
    /// interpreter can act on in this state: `try_execute_token` tells.
    pub fn execute_token(&mut self, token: Token, env: &Environment) -> (effect: Effect)
        requires
            token_step(old(self)@, env@, token@).1 is Ok,
        ensures
            (final(self)@, Ok::<EffectModel, ExecError>(effect@)) == token_step(
                old(self)@,
                env@,
                token@,
            ),
    {
        match self.try_execute_token(token, env) {
            Ok(effect) => effect,
            Err(_) => vstd::pervasive::unreached(),
        }
    }

    /// One step of the run: the state moves on, and what the host is to do
    /// now comes back. The step must be one that the run can take:
    /// `try_step` tells.
    pub fn step(&mut self, env: &Environment) -> (effect: Effect)
        requires
            step_model(old(self)@, env@).1 is Ok,
        ensures
            (final(self)@, Ok::<EffectModel, ExecError>(effect@)) == step_model(old(self)@, env@),
    {
        match self.try_step(env) {
            Ok(effect) => effect,
            Err(_) => vstd::pervasive::unreached(),
        }
    }
}

} // verus!
