//! The lexer: from the bytes of a script to its tokens, one at a time and
//! only forwards.
//!
//! Every byte of the script counts as one character. At the end of the
//! script the lexer reads line feeds.
use crate::text::{string_of, string_views};
use crate::token::{
    lemma_group_token, token_models, GroupDefinition, GroupModel, Token, TokenKind, TokenModel,
};
use vstd::prelude::*;
use vstd::string::StrSliceExecFns;

verus! {

/// Why a script has no next token.
#[derive(Debug, Clone, Copy, PartialEq, Eq)]
pub enum LexError {
    /// A token begins with a character that begins none.
    UnknownToken(char),
    /// A `?` begins a token: conditionals are not part of the language.
    Conditional,
    /// A variable's name is not followed by `=` or `?=`.
    UnassignedVariable,
    /// The script ends inside a group's body.
    UnterminatedGroup,
}

/// The classes of characters that the lexer reads in runs.
#[derive(Debug, Clone, Copy, PartialEq, Eq)]
pub enum CharClass {
    /// Letters and digits of ASCII, `-` and `_`.
    Ident,
    /// Tab, carriage return and space.
    Blank,
    /// Tab, line feed, carriage return and space.
    Space,
    /// Everything but tab, line feed, carriage return and space.
    Word,
    /// Everything but the line feed.
    Comment,
    /// Everything but `=` and `?`.
    Unassigned,
}

/// Whether `c` belongs to the class.
pub open spec fn in_class(c: char, class: CharClass) -> bool {
    match class {
        CharClass::Ident => ('A' <= c && c <= 'Z') || ('a' <= c && c <= 'z') || ('0' <= c && c
            <= '9') || c == '-' || c == '_',
        CharClass::Blank => c == '\t' || c == '\r' || c == ' ',
        CharClass::Space => c == '\t' || c == '\n' || c == '\r' || c == ' ',
        CharClass::Word => !(c == '\t' || c == '\n' || c == '\r' || c == ' '),
        CharClass::Comment => c != '\n',
        CharClass::Unassigned => c != '=' && c != '?',
    }
}

/// The character at `i`: the byte there, or a line feed past the end.
pub open spec fn at(s: Seq<u8>, i: int) -> char {
    if 0 <= i < s.len() {
        s[i] as char
    } else {
        '\n'
    }
}

/// The position after the character at `i`; the end stays the end.
pub open spec fn after(s: Seq<u8>, i: int) -> int {
    if i < s.len() {
        i + 1
    } else {
        i
    }
}

/// The bytes from `from` up to `to`, as characters.
pub open spec fn text(s: Seq<u8>, from: int, to: int) -> Seq<char> {
    Seq::new((to - from) as nat, |k: int| s[from + k] as char)
}

/// Where the run of characters of the class that begins at `i` ends.
pub open spec fn run_end(s: Seq<u8>, i: int, class: CharClass) -> int
    decreases s.len() - i,
{
    if 0 <= i < s.len() && in_class(at(s, i), class) {
        run_end(s, i + 1, class)
    } else {
        i
    }
}

/// The rest of the line from `i` on, behind what was read of it already, and
/// the position after the line.
///
/// A line feed ends the line and is passed over. `\n` stands for a line feed,
/// `\$` stays as it is for the interpreter to read, and a backslash before any
/// other character stays with that character. Carriage returns are dropped.
pub open spec fn line_from(s: Seq<u8>, i: int, read: Seq<char>) -> (Seq<char>, int)
    decreases s.len() - i,
{
    if i < 0 || i >= s.len() {
        (read, i)
    } else if at(s, i) == '\n' {
        (read, i + 1)
    } else if at(s, i) == '\\' {
        if i + 1 >= s.len() {
            (read.push('\\'), i + 1)
        } else if at(s, i + 1) == 'n' {
            line_from(s, i + 2, read.push('\n'))
        } else {
            line_from(s, i + 2, read.push('\\').push(at(s, i + 1)))
        }
    } else if at(s, i) == '\r' {
        line_from(s, i + 1, read)
    } else {
        line_from(s, i + 1, read.push(at(s, i)))
    }
}

/// The rest of a quoted string from `i` on, behind what was read of it
/// already, and the position after the closing quote. `\"` stands for a quote;
/// a string that is not closed ends with the script.
pub open spec fn string_from(s: Seq<u8>, i: int, read: Seq<char>) -> (Seq<char>, int)
    decreases s.len() - i,
{
    if i < 0 || i >= s.len() {
        (read, i)
    } else if at(s, i) == '"' {
        (read, i + 1)
    } else if at(s, i) == '\\' && at(s, i + 1) == '"' {
        string_from(s, i + 2, read.push('"'))
    } else {
        string_from(s, i + 1, read.push(at(s, i)))
    }
}

/// The value of an assignment, which begins at `i`: a quoted string, or the
/// rest of the line.
pub open spec fn value_at(s: Seq<u8>, i: int) -> (Seq<char>, int) {
    if at(s, i) == '"' {
        string_from(s, after(s, i), Seq::empty())
    } else {
        line_from(s, i, Seq::empty())
    }
}

/// The assignment whose `$` stands at `i`: the name, blanks or anything else
/// up to `=` or `?=`, whitespace, and the value.
pub open spec fn variable_at(s: Seq<u8>, i: int) -> Result<(TokenModel, int), LexError> {
    let name_end = run_end(s, i + 1, CharClass::Ident);
    let name = text(s, i + 1, name_end);
    let mark = run_end(s, name_end, CharClass::Unassigned);
    let if_not_set = at(s, mark) == '?';
    let equals = if if_not_set {
        mark + 1
    } else {
        mark
    };
    if mark >= s.len() || at(s, equals) != '=' {
        Err(LexError::UnassignedVariable)
    } else {
        let (value, end) = value_at(s, run_end(s, after(s, equals), CharClass::Space));
        if if_not_set {
            Ok((TokenModel::VariableIfNotSet(name, value), end))
        } else {
            Ok((TokenModel::Variable(name, value), end))
        }
    }
}

/// The arguments of a group invocation from `i` on, behind those read
/// already, up to the end of the line. An argument is a quoted string, a `$`
/// with a name, which stays as written, or a run of anything but whitespace.
/// Blanks stand between the arguments and may follow the last one.
pub open spec fn arguments_from(s: Seq<u8>, i: int, read: Seq<Seq<char>>) -> (
    Seq<Seq<char>>,
    int,
)
    decreases s.len() - i,
{
    if i < 0 || i >= s.len() || at(s, i) == '\n' {
        (read, i)
    } else {
        let start = run_end(s, i, CharClass::Blank);
        if start < 0 || start >= s.len() || at(s, start) == '\n' {
            (read, start)
        } else {
            let (argument, end) = if at(s, start) == '"' {
                string_from(s, after(s, start), Seq::empty())
            } else if at(s, start) == '$' {
                let name_end = run_end(s, start + 1, CharClass::Ident);
                (seq!['$'] + text(s, start + 1, name_end), name_end)
            } else {
                let word_end = run_end(s, start, CharClass::Word);
                (text(s, start, word_end), word_end)
            };
            if i < end <= s.len() {
                arguments_from(s, end, read.push(argument))
            } else {
                (read.push(argument), end)
            }
        }
    }
}

/// The group invocation whose `!` stands at `i`.
pub open spec fn invocation_at(s: Seq<u8>, i: int) -> (TokenModel, int) {
    let name_end = run_end(s, i + 1, CharClass::Ident);
    let (arguments, end) = arguments_from(
        s,
        run_end(s, name_end, CharClass::Blank),
        Seq::empty(),
    );
    (TokenModel::ExecuteGroup(text(s, i + 1, name_end), arguments), end)
}

/// The formal parameters of a group definition from `i` on, behind those read
/// already: `$` and a name each, with blanks between.
pub open spec fn parameters_from(s: Seq<u8>, i: int, read: Seq<Seq<char>>) -> (
    Seq<Seq<char>>,
    int,
)
    decreases s.len() - i,
{
    if 0 <= i < s.len() && at(s, i) == '$' {
        let name_end = run_end(s, i + 1, CharClass::Ident);
        let next = run_end(s, name_end, CharClass::Blank);
        if i < next <= s.len() {
            parameters_from(s, next, read.push(text(s, i + 1, name_end)))
        } else {
            (read, i)
        }
    } else {
        (read, i)
    }
}

/// The next token inside a group's body, from `i` on, and the position after
/// it. Whitespace and comments are passed over. `]` is the end of the body and
/// is not passed over.
pub open spec fn body_token(s: Seq<u8>, i: int) -> Result<(TokenModel, int), LexError>
    decreases s.len() - i,
{
    if i < 0 || i >= s.len() {
        Ok((TokenModel::EndOfText, i))
    } else if at(s, i) == '@' {
        let (line, end) = line_from(s, i, Seq::empty());
        Ok((TokenModel::Phase(line), end))
    } else if at(s, i) == '?' {
        Err(LexError::Conditional)
    } else if at(s, i) == '$' {
        variable_at(s, i)
    } else if at(s, i) == ':' {
        let (line, end) = line_from(s, i, Seq::empty());
        Ok((TokenModel::Command(line), end))
    } else if at(s, i) == '#' {
        let end = after(s, run_end(s, i, CharClass::Comment));
        if i < end <= s.len() {
            body_token(s, end)
        } else {
            Ok((TokenModel::EndOfText, i))
        }
    } else if at(s, i) == ']' {
        Ok((TokenModel::EndGroup, i))
    } else if in_class(at(s, i), CharClass::Space) {
        body_token(s, i + 1)
    } else {
        Err(LexError::UnknownToken(at(s, i)))
    }
}

/// The tokens of a group's body from `i` on, behind those read already, and
/// the position after the closing `]`. A body that the script's end cuts
/// short is an error, even where the last token was read whole.
pub open spec fn body_from(s: Seq<u8>, i: int, read: Seq<TokenModel>) -> Result<
    (Seq<TokenModel>, int),
    LexError,
>
    decreases s.len() - i,
{
    match body_token(s, i) {
        Err(e) => Err(e),
        Ok((token, end)) => {
            if end >= s.len() {
                Err(LexError::UnterminatedGroup)
            } else if token is EndGroup {
                Ok((read, end + 1))
            } else if end > i {
                body_from(s, end, read.push(token))
            } else {
                Err(LexError::UnterminatedGroup)
            }
        },
    }
}

/// The group definition whose `[` stands at `i`: the name, the parameters on
/// the same line, and the body up to `]`.
pub open spec fn group_at(s: Seq<u8>, i: int) -> Result<(GroupModel, int), LexError> {
    let name_end = run_end(s, i + 1, CharClass::Ident);
    let (args, body) = parameters_from(s, run_end(s, name_end, CharClass::Blank), Seq::empty());
    match body_from(s, body, Seq::empty()) {
        Err(e) => Err(e),
        Ok((commands, end)) => Ok(
            (GroupModel { name: text(s, i + 1, name_end), args, commands }, end),
        ),
    }
}

/// The next token of the script from `i` on, and the position after it.
///
/// Whitespace and comments are passed over. A group definition is a token only
/// for the preprocessor; otherwise it is passed over.
pub open spec fn next_token_at(s: Seq<u8>, i: int, preprocessor: bool) -> Result<
    (TokenModel, int),
    LexError,
>
    decreases s.len() - i,
{
    if i < 0 || i >= s.len() {
        Ok((TokenModel::EndOfText, i))
    } else if at(s, i) == '@' {
        let (line, end) = line_from(s, i, Seq::empty());
        Ok((TokenModel::Phase(line), end))
    } else if at(s, i) == '?' {
        Err(LexError::Conditional)
    } else if at(s, i) == '!' {
        Ok(invocation_at(s, i))
    } else if at(s, i) == '$' {
        variable_at(s, i)
    } else if at(s, i) == ':' {
        let (line, end) = line_from(s, i, Seq::empty());
        Ok((TokenModel::Command(line), end))
    } else if at(s, i) == '#' {
        let end = after(s, run_end(s, i, CharClass::Comment));
        if i < end <= s.len() {
            next_token_at(s, end, preprocessor)
        } else {
            Ok((TokenModel::EndOfText, i))
        }
    } else if at(s, i) == '[' {
        match group_at(s, i) {
            Err(e) => Err(e),
            Ok((group, end)) => {
                if preprocessor {
                    Ok((TokenModel::GroupDefinition(group), end))
                } else if i < end <= s.len() {
                    next_token_at(s, end, preprocessor)
                } else {
                    Ok((TokenModel::EndOfText, i))
                }
            },
        }
    } else if in_class(at(s, i), CharClass::Space) {
        next_token_at(s, i + 1, preprocessor)
    } else {
        Err(LexError::UnknownToken(at(s, i)))
    }
}

/// A run ends at or after its start and within the script, at a character
/// that is not of the class.
pub proof fn lemma_run_end(s: Seq<u8>, i: int, class: CharClass)
    requires
        0 <= i <= s.len(),
    ensures
        i <= run_end(s, i, class) <= s.len(),
        run_end(s, i, class) < s.len() ==> !in_class(at(s, run_end(s, i, class)), class),
    decreases s.len() - i,
{
    if i < s.len() && in_class(at(s, i), class) {
        lemma_run_end(s, i + 1, class);
    }
}

/// The character at `i`.
fn char_at(script: &Vec<u8>, i: usize) -> (c: char)
    ensures
        c == at(script@, i as int),
{
    if i < script.len() {
        script[i] as char
    } else {
        '\n'
    }
}

/// Whether `c` belongs to the class.
fn is_in_class(c: char, class: CharClass) -> (yes: bool)
    ensures
        yes == in_class(c, class),
{
    match class {
        CharClass::Ident => ('A' <= c && c <= 'Z') || ('a' <= c && c <= 'z') || ('0' <= c && c
            <= '9') || c == '-' || c == '_',
        CharClass::Blank => c == '\t' || c == '\r' || c == ' ',
        CharClass::Space => c == '\t' || c == '\n' || c == '\r' || c == ' ',
        CharClass::Word => !(c == '\t' || c == '\n' || c == '\r' || c == ' '),
        CharClass::Comment => c != '\n',
        CharClass::Unassigned => c != '=' && c != '?',
    }
}

/// Passes over the run of characters of the class that begins at `i`.
fn eat_run(script: &Vec<u8>, i: usize, class: CharClass) -> (end: usize)
    requires
        i <= script.len(),
    ensures
        end == run_end(script@, i as int, class),
        i <= end <= script.len(),
{
    let mut end = i;
    while end < script.len() && is_in_class(script[end] as char, class)
        invariant
            i <= end <= script.len(),
            run_end(script@, end as int, class) == run_end(script@, i as int, class),
        decreases script.len() - end,
    {
        end += 1;
    }
    end
}

/// The bytes from `from` up to `to`, as a string.
fn text_between(script: &Vec<u8>, from: usize, to: usize) -> (out: String)
    requires
        from <= to <= script.len(),
    ensures
        out@ == text(script@, from as int, to as int),
{
    let mut out: Vec<char> = Vec::new();
    let mut i = from;
    while i < to
        invariant
            from <= i <= to <= script.len(),
            out@ == text(script@, from as int, i as int),
        decreases to - i,
    {
        out.push(script[i] as char);
        i += 1;
        assert(out@ =~= text(script@, from as int, i as int));
    }
    string_of(&out)
}

/// The bytes of a script: its UTF-8 encoding.
pub open spec fn script_bytes(script: Seq<char>) -> Seq<u8> {
    vstd::utf8::encode_utf8(script)
}

/// A token and the position after it, by the token's model.
pub open spec fn token_result(r: Result<(Token, usize), LexError>) -> Result<
    (TokenModel, int),
    LexError,
> {
    match r {
        Ok((token, end)) => Ok((token@, end as int)),
        Err(e) => Err(e),
    }
}

/// The lexer over one script.
pub struct Lexer {
    script: Vec<u8>,
    pos: usize,
    preprocessor: bool,
}

impl Lexer {
    #[verifier::type_invariant]
    spec fn well_formed(&self) -> bool {
        self.pos <= self.script.len()
    }

    /// The bytes of the script.
    pub closed spec fn script(&self) -> Seq<u8> {
        self.script@
    }

    /// How many bytes of the script the lexer has passed.
    pub closed spec fn position(&self) -> int {
        self.pos as int
    }

    /// Whether the lexer reads for the preprocessor.
    pub closed spec fn for_preprocessor(&self) -> bool {
        self.preprocessor
    }

    /// A lexer at the start of `script`; for the preprocessor, which wants
    /// the group definitions, or for the interpreter, which wants the rest.
    pub fn new(script: String, preprocessor: bool) -> (lexer: Lexer)
        ensures
            lexer.script() == script_bytes(script@),
            lexer.position() == 0,
            lexer.for_preprocessor() == preprocessor,
    {
        Lexer { script: script.as_str().as_bytes_vec(), pos: 0, preprocessor }
    }

    /// Whether the lexer reads for the preprocessor.
    pub fn preprocessor(&self) -> (yes: bool)
        ensures
            yes == self.for_preprocessor(),
            0 <= self.position() <= self.script().len(),
    {
        proof {
            use_type_invariant(self);
        }
        self.preprocessor
    }

    /// The next token of the script; `EndOfText` at its end and ever after.
    /// The lexer moves behind the token. Where the script has no next token,
    /// the lexer stays where it is.
    pub fn try_next_token(&mut self) -> (result: Result<Token, LexError>)
        ensures
            final(self).script() == old(self).script(),
            final(self).for_preprocessor() == old(self).for_preprocessor(),
            old(self).position() <= final(self).position() <= final(self).script().len(),
            result matches Ok(token) ==> token@ is EndOfText || old(self).position()
                < final(self).position(),
            match result {
                Ok(token) => next_token_at(
                    old(self).script(),
                    old(self).position(),
                    old(self).for_preprocessor(),
                ) == Ok::<(TokenModel, int), LexError>((token@, final(self).position())),
                Err(e) => final(self).position() == old(self).position() && next_token_at(
                    old(self).script(),
                    old(self).position(),
                    old(self).for_preprocessor(),
                ) == Err::<(TokenModel, int), LexError>(e),
            },
    {
        proof {
            use_type_invariant(&*self);
        }
        match Self::token_from(&self.script, self.pos, self.preprocessor) {
            Ok((token, end)) => {
                self.pos = end;
                Ok(token)
            },
            Err(e) => Err(e),
        }
    }

    /// The rest of the line from `i` on, and the position after the line.
    fn get_line_as_string(script: &Vec<u8>, i: usize) -> (line: (String, usize))
        requires
            i <= script.len(),
        ensures
            (line.0@, line.1 as int) == line_from(script@, i as int, Seq::empty()),
            i <= line.1 <= script.len(),
            i < script.len() ==> i < line.1,
    {
        let mut read: Vec<char> = Vec::new();
        let mut at_end = false;
        let mut j = i;
        while !at_end
            invariant
                i <= j <= script.len(),
                i < script.len() ==> (i < j || !at_end),
                !at_end ==> line_from(script@, j as int, read@) == line_from(
                    script@,
                    i as int,
                    Seq::empty(),
                ),
                at_end ==> (read@, j as int) == line_from(script@, i as int, Seq::empty()),
            decreases script.len() - j + (if at_end { 0int } else { 1int }),
        {
            if j >= script.len() {
                at_end = true;
            } else {
                let c = script[j] as char;
                if c == '\n' {
                    j += 1;
                    at_end = true;
                } else if c == '\\' {
                    if j + 1 >= script.len() {
                        read.push('\\');
                        j += 1;
                        at_end = true;
                    } else {
                        let next = script[j + 1] as char;
                        if next == 'n' {
                            read.push('\n');
                        } else {
                            read.push('\\');
                            read.push(next);
                        }
                        j += 2;
                    }
                } else if c == '\r' {
                    j += 1;
                } else {
                    read.push(c);
                    j += 1;
                }
            }
        }
        (string_of(&read), j)
    }

    /// The quoted string whose opening quote stands at `i`, and the position
    /// after its closing quote.
    fn get_string(script: &Vec<u8>, i: usize) -> (string: (String, usize))
        requires
            i < script.len(),
        ensures
            (string.0@, string.1 as int) == string_from(
                script@,
                after(script@, i as int),
                Seq::empty(),
            ),
            i < string.1 <= script.len(),
    {
        let mut read: Vec<char> = Vec::new();
        let mut closed = false;
        let mut j = i + 1;
        while !closed
            invariant
                i < j <= script.len(),
                !closed ==> string_from(script@, j as int, read@) == string_from(
                    script@,
                    i + 1,
                    Seq::empty(),
                ),
                closed ==> (read@, j as int) == string_from(script@, i + 1, Seq::empty()),
            decreases script.len() - j + (if closed { 0int } else { 1int }),
        {
            if j >= script.len() {
                closed = true;
            } else {
                let c = script[j] as char;
                if c == '"' {
                    j += 1;
                    closed = true;
                } else if c == '\\' && j + 1 < script.len() && script[j + 1] as char == '"' {
                    read.push('"');
                    j += 2;
                } else {
                    read.push(c);
                    j += 1;
                }
            }
        }
        (string_of(&read), j)
    }

    /// The assignment whose `$` stands at `i`, and the position after it.
    fn get_variable(script: &Vec<u8>, i: usize) -> (result: Result<(Token, usize), LexError>)
        requires
            i < script.len(),
        ensures
            token_result(result) == variable_at(script@, i as int),
            result matches Ok((_, end)) ==> i < end <= script.len(),
    {
        let name_end = eat_run(script, i + 1, CharClass::Ident);
        let name = text_between(script, i + 1, name_end);
        let mark = eat_run(script, name_end, CharClass::Unassigned);
        if mark >= script.len() {
            return Err(LexError::UnassignedVariable);
        }
        let if_not_set = script[mark] as char == '?';
        let equals = if if_not_set {
            mark + 1
        } else {
            mark
        };
        if char_at(script, equals) != '=' {
            return Err(LexError::UnassignedVariable);
        }
        let start = eat_run(script, equals + 1, CharClass::Space);
        let (value, end) = if char_at(script, start) == '"' {
            Self::get_string(script, start)
        } else {
            Self::get_line_as_string(script, start)
        };
        if if_not_set {
            Ok((Token { kind: TokenKind::VariableIfNotSet(name, value) }, end))
        } else {
            Ok((Token { kind: TokenKind::Variable(name, value) }, end))
        }
    }

    /// The group invocation whose `!` stands at `i`, and the position after
    /// its arguments.
    fn get_execute_group(script: &Vec<u8>, i: usize) -> (invocation: (Token, usize))
        requires
            i < script.len(),
        ensures
            (invocation.0@, invocation.1 as int) == invocation_at(script@, i as int),
            i < invocation.1 <= script.len(),
    {
        let name_end = eat_run(script, i + 1, CharClass::Ident);
        let name = text_between(script, i + 1, name_end);
        let first = eat_run(script, name_end, CharClass::Blank);
        let mut args: Vec<String> = Vec::new();
        let mut j = first;
        let mut done = false;
        assert(string_views(args@) =~= Seq::<Seq<char>>::empty());
        while !done
            invariant
                first <= j <= script.len(),
                !done ==> arguments_from(script@, j as int, string_views(args@))
                    == arguments_from(script@, first as int, Seq::empty()),
                done ==> (string_views(args@), j as int) == arguments_from(
                    script@,
                    first as int,
                    Seq::empty(),
                ),
            decreases script.len() - j + (if done { 0int } else { 1int }),
        {
            if j >= script.len() || script[j] as char == '\n' {
                done = true;
            } else {
                let start = eat_run(script, j, CharClass::Blank);
                let c = char_at(script, start);
                if start >= script.len() || c == '\n' {
                    j = start;
                    done = true;
                    continue;
                }
                let (argument, end) = if c == '"' {
                    Self::get_string(script, start)
                } else if c == '$' {
                    let name_end = eat_run(script, start + 1, CharClass::Ident);
                    let mut argument: Vec<char> = Vec::new();
                    argument.push('$');
                    let mut k = start + 1;
                    while k < name_end
                        invariant
                            start + 1 <= k <= name_end <= script.len(),
                            argument@ == seq!['$'] + text(script@, start + 1, k as int),
                        decreases name_end - k,
                    {
                        argument.push(script[k] as char);
                        k += 1;
                        assert(argument@ =~= seq!['$'] + text(script@, start + 1, k as int));
                    }
                    (string_of(&argument), name_end)
                } else {
                    let word_end = eat_run(script, start, CharClass::Word);
                    (text_between(script, start, word_end), word_end)
                };
                proof {
                    assert(string_views(args@.push(argument)) =~= string_views(args@).push(
                        argument@,
                    ));
                }
                args.push(argument);
                if end > j {
                    j = end;
                } else {
                    done = true;
                }
            }
        }
        (Token { kind: TokenKind::ExecuteGroup(name, args) }, j)
    }

    /// The next token inside a group's body from `i` on, and the position
    /// after it.
    fn next_body_token(script: &Vec<u8>, i: usize) -> (result: Result<(Token, usize), LexError>)
        requires
            i <= script.len(),
        ensures
            token_result(result) == body_token(script@, i as int),
            result matches Ok((token, end)) ==> i <= end <= script.len() && (token@ is EndGroup
                || end >= script.len() || i < end),
    {
        let mut j = i;
        loop
            invariant
                i <= j <= script.len(),
                body_token(script@, j as int) == body_token(script@, i as int),
            decreases script.len() - j,
        {
            if j >= script.len() {
                return Ok((Token { kind: TokenKind::EndOfText }, j));
            }
            let c = script[j] as char;
            if c == '@' {
                let (line, end) = Self::get_line_as_string(script, j);
                return Ok((Token { kind: TokenKind::Phase(line) }, end));
            } else if c == '?' {
                return Err(LexError::Conditional);
            } else if c == '$' {
                return Self::get_variable(script, j);
            } else if c == ':' {
                let (line, end) = Self::get_line_as_string(script, j);
                return Ok((Token { kind: TokenKind::Command(line) }, end));
            } else if c == '#' {
                let end = eat_run(script, j, CharClass::Comment);
                j = if end < script.len() {
                    end + 1
                } else {
                    end
                };
            } else if c == ']' {
                return Ok((Token { kind: TokenKind::EndGroup }, j));
            } else if is_in_class(c, CharClass::Space) {
                j += 1;
            } else {
                return Err(LexError::UnknownToken(c));
            }
        }
    }

    /// The group definition whose `[` stands at `i`, and the position after
    /// its `]`.
    #[verifier::loop_isolation(false)]
    fn get_group_definition(script: &Vec<u8>, i: usize) -> (result: Result<
        (GroupDefinition, usize),
        LexError,
    >)
        requires
            i < script.len(),
        ensures
            match result {
                Ok((group, end)) => group_at(script@, i as int) == Ok::<
                    (GroupModel, int),
                    LexError,
                >((group@, end as int)) && i < end <= script.len(),
                Err(e) => group_at(script@, i as int) == Err::<(GroupModel, int), LexError>(e),
            },
    {
        let name_end = eat_run(script, i + 1, CharClass::Ident);
        let name = text_between(script, i + 1, name_end);
        let first = eat_run(script, name_end, CharClass::Blank);
        let mut args: Vec<String> = Vec::new();
        let mut j = first;
        assert(string_views(args@) =~= Seq::<Seq<char>>::empty());
        while j < script.len() && script[j] as char == '$'
            invariant
                first <= j <= script.len(),
                parameters_from(script@, j as int, string_views(args@)) == parameters_from(
                    script@,
                    first as int,
                    Seq::empty(),
                ),
            decreases script.len() - j,
        {
            let arg_end = eat_run(script, j + 1, CharClass::Ident);
            let arg = text_between(script, j + 1, arg_end);
            proof {
                assert(string_views(args@.push(arg)) =~= string_views(args@).push(arg@));
            }
            args.push(arg);
            j = eat_run(script, arg_end, CharClass::Blank);
        }
        let body = j;
        let mut commands: Vec<Token> = Vec::new();
        assert(token_models(commands@) =~= Seq::<TokenModel>::empty());
        loop
            invariant
                body <= j <= script.len(),
                body_from(script@, j as int, token_models(commands@)) == body_from(
                    script@,
                    body as int,
                    Seq::empty(),
                ),
            decreases script.len() - j,
        {
            let (token, end) = match Self::next_body_token(script, j) {
                Ok(found) => found,
                Err(e) => {
                    return Err(e);
                },
            };
            if end >= script.len() {
                return Err(LexError::UnterminatedGroup);
            }
            if let TokenKind::EndGroup = token.kind {
                let group = GroupDefinition { name, args, commands };
                return Ok((group, end + 1));
            }
            proof {
                assert(token_models(commands@.push(token)) =~= token_models(commands@).push(
                    token@,
                ));
            }
            commands.push(token);
            j = end;
        }
    }

    /// The next token of the script from `i` on, and the position after it.
    fn token_from(script: &Vec<u8>, i: usize, preprocessor: bool) -> (result: Result<
        (Token, usize),
        LexError,
    >)
        requires
            i <= script.len(),
        ensures
            token_result(result) == next_token_at(script@, i as int, preprocessor),
            result matches Ok((token, end)) ==> i <= end <= script.len() && (token@ is EndOfText
                || i < end),
    {
        let mut j = i;
        loop
            invariant
                i <= j <= script.len(),
                next_token_at(script@, j as int, preprocessor) == next_token_at(
                    script@,
                    i as int,
                    preprocessor,
                ),
            decreases script.len() - j,
        {
            if j >= script.len() {
                return Ok((Token { kind: TokenKind::EndOfText }, j));
            }
            let c = script[j] as char;
            if c == '@' {
                let (line, end) = Self::get_line_as_string(script, j);
                return Ok((Token { kind: TokenKind::Phase(line) }, end));
            } else if c == '?' {
                return Err(LexError::Conditional);
            } else if c == '!' {
                let (token, end) = Self::get_execute_group(script, j);
                return Ok((token, end));
            } else if c == '$' {
                return Self::get_variable(script, j);
            } else if c == ':' {
                let (line, end) = Self::get_line_as_string(script, j);
                return Ok((Token { kind: TokenKind::Command(line) }, end));
            } else if c == '#' {
                let end = eat_run(script, j, CharClass::Comment);
                j = if end < script.len() {
                    end + 1
                } else {
                    end
                };
            } else if c == '[' {
                let (group, end) = match Self::get_group_definition(script, j) {
                    Ok(found) => found,
                    Err(e) => {
                        return Err(e);
                    },
                };
                if preprocessor {
                    proof {
                        lemma_group_token(group);
                    }
                    return Ok((Token { kind: TokenKind::GroupDefinition(group) }, end));
                }
                j = end;
            } else if is_in_class(c, CharClass::Space) {
                j += 1;
            } else {
                return Err(LexError::UnknownToken(c));
            }
        }
    }
}

/// The rest of a line ends within the script, and behind its start unless
/// the script has ended.
pub proof fn lemma_line_from(s: Seq<u8>, i: int, read: Seq<char>)
    requires
        0 <= i <= s.len(),
    ensures
        i <= line_from(s, i, read).1 <= s.len(),
        i < s.len() ==> i < line_from(s, i, read).1,
    decreases s.len() - i,
{
    if i < s.len() && at(s, i) != '\n' {
        if at(s, i) == '\\' {
            if i + 1 < s.len() {
                if at(s, i + 1) == 'n' {
                    lemma_line_from(s, i + 2, read.push('\n'));
                } else {
                    lemma_line_from(s, i + 2, read.push('\\').push(at(s, i + 1)));
                }
            }
        } else if at(s, i) == '\r' {
            lemma_line_from(s, i + 1, read);
        } else {
            lemma_line_from(s, i + 1, read.push(at(s, i)));
        }
    }
}

/// The rest of a quoted string ends within the script.
pub proof fn lemma_string_from(s: Seq<u8>, i: int, read: Seq<char>)
    requires
        0 <= i <= s.len(),
    ensures
        i <= string_from(s, i, read).1 <= s.len(),
    decreases s.len() - i,
{
    if i < s.len() && at(s, i) != '"' {
        if at(s, i) == '\\' && at(s, i + 1) == '"' {
            lemma_string_from(s, i + 2, read.push('"'));
        } else {
            lemma_string_from(s, i + 1, read.push(at(s, i)));
        }
    }
}

/// An assignment ends within the script and behind its `$`.
pub proof fn lemma_variable_at(s: Seq<u8>, i: int)
    requires
        0 <= i < s.len(),
    ensures
        variable_at(s, i) matches Ok((token, end)) ==> i < end <= s.len() && !(token
            is EndOfText),
{
    lemma_run_end(s, i + 1, CharClass::Ident);
    let name_end = run_end(s, i + 1, CharClass::Ident);
    lemma_run_end(s, name_end, CharClass::Unassigned);
    let mark = run_end(s, name_end, CharClass::Unassigned);
    if mark < s.len() {
        let equals = if at(s, mark) == '?' {
            mark + 1
        } else {
            mark
        };
        if at(s, equals) == '=' {
            lemma_run_end(s, after(s, equals), CharClass::Space);
            let start = run_end(s, after(s, equals), CharClass::Space);
            if at(s, start) == '"' {
                lemma_string_from(s, after(s, start), Seq::empty());
            } else {
                lemma_line_from(s, start, Seq::empty());
            }
        }
    }
}

/// The arguments of a group invocation end within the script.
pub proof fn lemma_arguments_from(s: Seq<u8>, i: int, read: Seq<Seq<char>>)
    requires
        0 <= i <= s.len(),
    ensures
        i <= arguments_from(s, i, read).1 <= s.len(),
    decreases s.len() - i,
{
    if i < s.len() && at(s, i) != '\n' {
        lemma_run_end(s, i, CharClass::Blank);
        let start = run_end(s, i, CharClass::Blank);
        if start >= s.len() || at(s, start) == '\n' {
        } else if at(s, start) == '"' {
            lemma_string_from(s, after(s, start), Seq::empty());
            let (argument, end) = string_from(s, after(s, start), Seq::empty());
            if i < end <= s.len() {
                lemma_arguments_from(s, end, read.push(argument));
            }
        } else if at(s, start) == '$' {
            lemma_run_end(s, start + 1, CharClass::Ident);
            let end = run_end(s, start + 1, CharClass::Ident);
            let argument = seq!['$'] + text(s, start + 1, end);
            if i < end <= s.len() {
                lemma_arguments_from(s, end, read.push(argument));
            }
        } else {
            lemma_run_end(s, start, CharClass::Word);
            let end = run_end(s, start, CharClass::Word);
            let argument = text(s, start, end);
            if i < end <= s.len() {
                lemma_arguments_from(s, end, read.push(argument));
            }
        }
    }
}

/// The formal parameters of a group end within the script.
pub proof fn lemma_parameters_from(s: Seq<u8>, i: int, read: Seq<Seq<char>>)
    requires
        0 <= i <= s.len(),
    ensures
        i <= parameters_from(s, i, read).1 <= s.len(),
    decreases s.len() - i,
{
    if i < s.len() && at(s, i) == '$' {
        lemma_run_end(s, i + 1, CharClass::Ident);
        let name_end = run_end(s, i + 1, CharClass::Ident);
        lemma_run_end(s, name_end, CharClass::Blank);
        let next = run_end(s, name_end, CharClass::Blank);
        if i < next <= s.len() {
            lemma_parameters_from(s, next, read.push(text(s, i + 1, name_end)));
        }
    }
}

/// A token of a group's body ends within the script.
pub proof fn lemma_body_token(s: Seq<u8>, i: int)
    requires
        0 <= i <= s.len(),
    ensures
        body_token(s, i) matches Ok((_, end)) ==> i <= end <= s.len(),
    decreases s.len() - i,
{
    if i < s.len() {
        if at(s, i) == '@' || at(s, i) == ':' {
            lemma_line_from(s, i, Seq::empty());
        } else if at(s, i) == '?' {
        } else if at(s, i) == '$' {
            lemma_variable_at(s, i);
        } else if at(s, i) == '#' {
            lemma_run_end(s, i, CharClass::Comment);
            let end = after(s, run_end(s, i, CharClass::Comment));
            if i < end <= s.len() {
                lemma_body_token(s, end);
            }
        } else if at(s, i) == ']' {
        } else if in_class(at(s, i), CharClass::Space) {
            lemma_body_token(s, i + 1);
        }
    }
}

/// A group's body ends within the script and behind its start.
pub proof fn lemma_body_from(s: Seq<u8>, i: int, read: Seq<TokenModel>)
    requires
        0 <= i <= s.len(),
    ensures
        body_from(s, i, read) matches Ok((_, end)) ==> i < end <= s.len(),
    decreases s.len() - i,
{
    lemma_body_token(s, i);
    match body_token(s, i) {
        Err(_) => {},
        Ok((token, end)) => {
            if end < s.len() && !(token is EndGroup) && end > i {
                lemma_body_from(s, end, read.push(token));
            }
        },
    }
}

/// The next token ends within the script, and behind its start unless it
/// is the end of the script.
pub proof fn lemma_next_token_at(s: Seq<u8>, i: int, preprocessor: bool)
    requires
        0 <= i <= s.len(),
    ensures
        next_token_at(s, i, preprocessor) matches Ok((token, end)) ==> i <= end <= s.len() && (
        token is EndOfText || i < end),
    decreases s.len() - i,
{
    if i < s.len() {
        if at(s, i) == '@' || at(s, i) == ':' {
            lemma_line_from(s, i, Seq::empty());
        } else if at(s, i) == '?' {
        } else if at(s, i) == '!' {
            lemma_run_end(s, i + 1, CharClass::Ident);
            let name_end = run_end(s, i + 1, CharClass::Ident);
            lemma_run_end(s, name_end, CharClass::Blank);
            lemma_arguments_from(s, run_end(s, name_end, CharClass::Blank), Seq::empty());
        } else if at(s, i) == '$' {
            lemma_variable_at(s, i);
        } else if at(s, i) == '#' {
            lemma_run_end(s, i, CharClass::Comment);
            let end = after(s, run_end(s, i, CharClass::Comment));
            if i < end <= s.len() {
                lemma_next_token_at(s, end, preprocessor);
            }
        } else if at(s, i) == '[' {
            lemma_run_end(s, i + 1, CharClass::Ident);
            let name_end = run_end(s, i + 1, CharClass::Ident);
            lemma_run_end(s, name_end, CharClass::Blank);
            lemma_parameters_from(s, run_end(s, name_end, CharClass::Blank), Seq::empty());
            let body = parameters_from(
                s,
                run_end(s, name_end, CharClass::Blank),
                Seq::empty(),
            ).1;
            lemma_body_from(s, body, Seq::empty());
            match group_at(s, i) {
                Err(_) => {},
                Ok((_, end)) => {
                    if !preprocessor && i < end <= s.len() {
                        lemma_next_token_at(s, end, preprocessor);
                    }
                },
            }
        } else if in_class(at(s, i), CharClass::Space) {
            lemma_next_token_at(s, i + 1, preprocessor);
        }
    }
}

/// What may stand in a group's body: commands, and phases and assignments,
/// which the interpreter passes over there.
pub open spec fn may_stand_in_body(token: TokenModel) -> bool {
    token is Command || token is Phase || token is Variable || token is VariableIfNotSet
}

/// Inside a group's body the lexer finds nothing but what may stand there,
/// the end of the body, and the end of the script where the script ends.
pub proof fn lemma_body_token_kinds(s: Seq<u8>, i: int)
    requires
        0 <= i <= s.len(),
    ensures
        body_token(s, i) matches Ok((token, end)) ==> may_stand_in_body(token) || token is EndGroup
            || (token is EndOfText && end >= s.len()),
    decreases s.len() - i,
{
    if i < s.len() {
        if at(s, i) == '@' || at(s, i) == '?' || at(s, i) == '$' || at(s, i) == ':' {
        } else if at(s, i) == '#' {
            lemma_run_end(s, i, CharClass::Comment);
            lemma_body_token_kinds(s, after(s, run_end(s, i, CharClass::Comment)));
        } else if at(s, i) == ']' {
        } else if in_class(at(s, i), CharClass::Space) {
            lemma_body_token_kinds(s, i + 1);
        }
    }
}

/// The tokens of a group's body are all of the kinds that may stand there.
pub proof fn lemma_body_kinds(s: Seq<u8>, i: int, read: Seq<TokenModel>)
    requires
        0 <= i <= s.len(),
        forall|k: int| 0 <= k < read.len() ==> may_stand_in_body(read[k]),
    ensures
        body_from(s, i, read) matches Ok((tokens, _)) ==> forall|k: int|
            0 <= k < tokens.len() ==> may_stand_in_body(tokens[k]),
    decreases s.len() - i,
{
    lemma_body_token_kinds(s, i);
    lemma_body_token(s, i);
    match body_token(s, i) {
        Err(_) => {},
        Ok((token, end)) => {
            if end < s.len() && !(token is EndGroup) && end > i {
                lemma_body_kinds(s, end, read.push(token));
            }
        },
    }
}

/// The commands of a group definition are all of the kinds that may stand
/// in a body: a group holds no group, and calls none.
pub proof fn lemma_group_body(s: Seq<u8>, i: int)
    requires
        0 <= i < s.len(),
    ensures
        group_at(s, i) matches Ok((group, _)) ==> forall|k: int|
            0 <= k < group.commands.len() ==> may_stand_in_body(group.commands[k]),
{
    lemma_run_end(s, i + 1, CharClass::Ident);
    let name_end = run_end(s, i + 1, CharClass::Ident);
    lemma_run_end(s, name_end, CharClass::Blank);
    lemma_parameters_from(s, run_end(s, name_end, CharClass::Blank), Seq::empty());
    let body = parameters_from(s, run_end(s, name_end, CharClass::Blank), Seq::empty()).1;
    lemma_body_kinds(s, body, Seq::empty());
}

impl Lexer {
    /// The next token of the script; `EndOfText` at its end and ever after.
    /// The lexer moves behind the token. The script must have a next token:
    /// `try_next_token` tells.
    pub fn next_token(&mut self) -> (token: Token)
        requires
            next_token_at(old(self).script(), old(self).position(), old(self).for_preprocessor())
                is Ok,
        ensures
            final(self).script() == old(self).script(),
            final(self).for_preprocessor() == old(self).for_preprocessor(),
            old(self).position() <= final(self).position() <= final(self).script().len(),
            token@ is EndOfText || old(self).position() < final(self).position(),
            next_token_at(old(self).script(), old(self).position(), old(self).for_preprocessor())
                == Ok::<(TokenModel, int), LexError>((token@, final(self).position())),
    {
        match self.try_next_token() {
            Ok(token) => token,
            Err(_) => vstd::pervasive::unreached(),
        }
    }
}

} // verus!
