//! What happens to a script before it runs: imports are replaced by the files
//! they name, and the group definitions are gathered.
use crate::lexer::{next_token_at, LexError, Lexer};
use crate::str::{lines, lines_of};
use crate::string_map::{insert_entry, StringMap};
use crate::text::{chars_of, join, join_chars, lemma_views_push, string_of, string_of_range, views};
use crate::token::{lemma_group_token, GroupDefinition, GroupModel, TokenKind, TokenModel};
use vstd::prelude::*;

verus! {

/// A script in which no import is left.
#[derive(Debug, PartialEq, Eq)]
pub struct PreprocessedScript {
    pub script: String,
}

/// Why the groups of a script could not be gathered.
#[derive(Debug, Clone, Copy, PartialEq, Eq)]
pub enum PreprocessError {
    /// The lexer was not made for the preprocessor.
    NotPreprocessing,
    /// The script has a token that is none.
    Lex(LexError),
}

/// The groups that the preprocessor's lexer finds from `i` on, behind those
/// found already, keyed by name: a name defined again takes the later
/// definition. Every other token is passed over.
pub open spec fn harvest(s: Seq<u8>, i: int, found: Seq<(Seq<char>, GroupModel)>) -> Result<
    Seq<(Seq<char>, GroupModel)>,
    LexError,
>
    decreases s.len() - i,
{
    match next_token_at(s, i, true) {
        Err(e) => Err(e),
        Ok((token, end)) => {
            if token is EndOfText || !(i < end <= s.len()) {
                Ok(found)
            } else {
                match token {
                    TokenModel::GroupDefinition(group) => harvest(
                        s,
                        end,
                        insert_entry(found, group.name, group),
                    ),
                    _ => harvest(s, end, found),
                }
            }
        },
    }
}

/// Gathers the group definitions of the rest of the lexer's script, keyed by
/// name. The lexer must have been made for the preprocessor.
#[verifier::loop_isolation(false)]
pub fn try_run(lexer: Lexer) -> (result: Result<StringMap<GroupDefinition>, PreprocessError>)
    ensures
        match result {
            Ok(groups) => lexer.for_preprocessor() && harvest(
                lexer.script(),
                lexer.position(),
                Seq::empty(),
            ) == Ok::<Seq<(Seq<char>, GroupModel)>, LexError>(groups.entries()),
            Err(PreprocessError::NotPreprocessing) => !lexer.for_preprocessor(),
            Err(PreprocessError::Lex(e)) => lexer.for_preprocessor() && harvest(
                lexer.script(),
                lexer.position(),
                Seq::empty(),
            ) == Err::<Seq<(Seq<char>, GroupModel)>, LexError>(e),
        },
{
    if !lexer.preprocessor() {
        return Err(PreprocessError::NotPreprocessing);
    }
    let ghost script = lexer.script();
    let ghost start = lexer.position();
    let mut scanner = lexer;
    let mut groups: StringMap<GroupDefinition> = StringMap::new();
    loop
        invariant
            scanner.script() == script,
            scanner.for_preprocessor(),
            scanner.position() <= script.len(),
            harvest(script, scanner.position(), groups.entries()) == harvest(
                script,
                start,
                Seq::empty(),
            ),
        decreases script.len() - scanner.position(),
    {
        let token = match scanner.try_next_token() {
            Ok(token) => token,
            Err(e) => {
                return Err(PreprocessError::Lex(e));
            },
        };
        match token.kind {
            TokenKind::EndOfText => {
                return Ok(groups);
            },
            TokenKind::GroupDefinition(group) => {
                proof {
                    lemma_group_token(group);
                }
                groups.insert(group.name.clone(), group);
            },
            _ => {},
        }
    }
}

/// How many rounds of imports a script may need. A script that still holds
/// an import after so many has most likely imported itself.
pub const MAX_IMPORT_DEPTH: usize = 64;

/// What every import line begins with.
pub open spec fn import_prefix() -> Seq<char> {
    seq!['&', 'i', 'm', 'p', 'o', 'r', 't', '(']
}

/// What the path of a library import begins with.
pub open spec fn library_prefix() -> Seq<char> {
    seq!['l', 'b', 'l', 'i', 'b', '/']
}

/// Whether the line is an import: `&import(` at its start, `)` at its end.
pub open spec fn is_import(line: Seq<char>) -> bool {
    import_prefix().is_prefix_of(line) && line.last() == ')'
}

/// The path that an import line names: what stands between `&import(` and
/// the line's last `)`.
pub open spec fn import_path(line: Seq<char>) -> Seq<char> {
    line.subrange(8, line.len() - 1)
}

/// Whether an import's path names a file of the library that comes with the
/// interpreter, to be looked for beside the interpreter itself.
pub open spec fn is_library_path(path: Seq<char>) -> bool {
    library_prefix().is_prefix_of(path)
}

/// The lines with every import replaced by the text of its file, or the path
/// of the first import whose file is not among `files`.
pub open spec fn expand_lines(
    lines: Seq<Seq<char>>,
    files: Map<Seq<char>, Seq<char>>,
) -> Result<Seq<Seq<char>>, Seq<char>>
    decreases lines.len(),
{
    if lines.len() == 0 {
        Ok(lines)
    } else {
        match expand_lines(lines.drop_last(), files) {
            Err(path) => Err(path),
            Ok(done) => {
                let line = lines.last();
                if !is_import(line) {
                    Ok(done.push(line))
                } else if files.contains_key(import_path(line)) {
                    Ok(done.push(files[import_path(line)]))
                } else {
                    Err(import_path(line))
                }
            },
        }
    }
}

/// One round of imports: the script's lines, each import replaced by its
/// file, joined by line feeds.
pub open spec fn expand(script: Seq<char>, files: Map<Seq<char>, Seq<char>>) -> Result<
    Seq<char>,
    Seq<char>,
> {
    match expand_lines(lines(script), files) {
        Err(path) => Err(path),
        Ok(done) => Ok(join(done, seq!['\n'])),
    }
}

/// Whether one of the script's lines is an import.
pub open spec fn has_import(script: Seq<char>) -> bool {
    exists|i: int| 0 <= i < lines(script).len() && is_import(#[trigger] lines(script)[i])
}

/// How the imports of a script end.
pub ghost enum ImportsModel {
    /// The script with no import left.
    Done(Seq<char>),
    /// The path of an import whose file is not known yet.
    Missing(Seq<char>),
    /// Imports were still left after the last round allowed.
    TooDeep,
}

/// Rounds of imports until none is left: at least one, and at most `rounds`
/// after the first.
pub open spec fn imports(
    script: Seq<char>,
    files: Map<Seq<char>, Seq<char>>,
    rounds: nat,
) -> ImportsModel
    decreases rounds,
{
    match expand(script, files) {
        Err(path) => ImportsModel::Missing(path),
        Ok(next) => {
            if !has_import(next) {
                ImportsModel::Done(next)
            } else if rounds == 0 {
                ImportsModel::TooDeep
            } else {
                imports(next, files, (rounds - 1) as nat)
            }
        },
    }
}

/// How the imports of a script ended.
#[derive(Debug, PartialEq, Eq)]
pub enum Imports {
    /// The script with no import left.
    Done(PreprocessedScript),
    /// The path, as the import names it, of a file that must be read first.
    Missing(String),
    /// Imports were still left after `MAX_IMPORT_DEPTH` more rounds.
    TooDeep,
}

impl View for Imports {
    type V = ImportsModel;

    open spec fn view(&self) -> ImportsModel {
        match self {
            Imports::Done(script) => ImportsModel::Done(script.script@),
            Imports::Missing(path) => ImportsModel::Missing(path@),
            Imports::TooDeep => ImportsModel::TooDeep,
        }
    }
}

/// Whether `prefix` stands at the start of `s`.
pub fn starts_with(s: &Vec<char>, prefix: &Vec<char>) -> (yes: bool)
    ensures
        yes == prefix@.is_prefix_of(s@),
{
    if prefix.len() > s.len() {
        return false;
    }
    let mut i: usize = 0;
    while i < prefix.len()
        invariant
            i <= prefix.len() <= s.len(),
            forall|k: int| 0 <= k < i ==> s@[k] == prefix@[k],
        decreases prefix.len() - i,
    {
        if s[i] != prefix[i] {
            return false;
        }
        i += 1;
    }
    assert(prefix@ =~= s@.subrange(0, prefix.len() as int));
    true
}

/// The characters of `&import(`.
fn import_prefix_chars() -> (prefix: Vec<char>)
    ensures
        prefix@ == import_prefix(),
{
    let mut prefix: Vec<char> = Vec::new();
    prefix.push('&');
    prefix.push('i');
    prefix.push('m');
    prefix.push('p');
    prefix.push('o');
    prefix.push('r');
    prefix.push('t');
    prefix.push('(');
    assert(prefix@ =~= import_prefix());
    prefix
}

/// Whether the line is an import.
fn line_is_import(line: &Vec<char>, prefix: &Vec<char>) -> (yes: bool)
    requires
        prefix@ == import_prefix(),
    ensures
        yes == is_import(line@),
        yes ==> line.len() >= 9,
{
    starts_with(line, prefix) && line[line.len() - 1] == ')'
}

/// Whether an import's path names a file of the library that comes with the
/// interpreter: one under `lblib/`.
pub fn is_library_import(path: &str) -> (yes: bool)
    ensures
        yes == is_library_path(path@),
{
    let mut prefix: Vec<char> = Vec::new();
    prefix.push('l');
    prefix.push('b');
    prefix.push('l');
    prefix.push('i');
    prefix.push('b');
    prefix.push('/');
    assert(prefix@ =~= library_prefix());
    starts_with(&chars_of(path), &prefix)
}

/// One round of imports.
fn expand_script(script: &Vec<char>, files: &StringMap<String>) -> (result: Result<
    Vec<char>,
    String,
>)
    ensures
        match result {
            Ok(next) => expand(script@, files@) == Ok::<Seq<char>, Seq<char>>(next@),
            Err(path) => expand(script@, files@) == Err::<Seq<char>, Seq<char>>(path@),
        },
{
    let all = lines_of(script);
    let prefix = import_prefix_chars();
    let mut done: Vec<Vec<char>> = Vec::new();
    let mut i: usize = 0;
    assert(views(all@.take(0)) =~= Seq::<Seq<char>>::empty());
    assert(views(done@) =~= Seq::<Seq<char>>::empty());
    while i < all.len()
        invariant
            i <= all.len(),
            prefix@ == import_prefix(),
            views(all@) == lines(script@),
            expand_lines(views(all@.take(i as int)), files@) == Ok::<Seq<Seq<char>>, Seq<char>>(
                views(done@),
            ),
        decreases all.len() - i,
    {
        let line = &all[i];
        proof {
            let now = views(all@.take(i + 1));
            assert(now.drop_last() =~= views(all@.take(i as int)));
            assert(now.last() == line@);
            assert(views(all@).take(i + 1) =~= now);
            lemma_expand_fails(views(all@), files@, i + 1);
        }
        if line_is_import(line, &prefix) {
            let path = string_of_range(line, 8, line.len() - 1);
            match files.get(path.as_str()) {
                Some(contents) => {
                    let text = chars_of(contents.as_str());
                    proof {
                        lemma_views_push(done@, text);
                    }
                    done.push(text);
                },
                None => {
                    return Err(path);
                },
            }
        } else {
            let copy = line.clone();
            proof {
                lemma_views_push(done@, copy);
            }
            done.push(copy);
        }
        i += 1;
    }
    assert(all@.take(all.len() as int) == all@);
    let mut feed: Vec<char> = Vec::new();
    feed.push('\n');
    assert(feed@ =~= seq!['\n']);
    Ok(join_chars(&done, &feed))
}

/// Where the first lines lack a file, all the lines lack the same file.
pub proof fn lemma_expand_fails(lines: Seq<Seq<char>>, files: Map<Seq<char>, Seq<char>>, k: int)
    requires
        0 <= k <= lines.len(),
    ensures
        expand_lines(lines.take(k), files) is Err ==> expand_lines(lines, files) == expand_lines(
            lines.take(k),
            files,
        ),
    decreases lines.len() - k,
{
    if k < lines.len() {
        assert(lines.take(k + 1).drop_last() == lines.take(k));
        lemma_expand_fails(lines, files, k + 1);
    } else {
        assert(lines.take(k) == lines);
    }
}

/// Whether one of the script's lines is an import.
fn script_has_import(script: &Vec<char>) -> (yes: bool)
    ensures
        yes == has_import(script@),
{
    let all = lines_of(script);
    let prefix = import_prefix_chars();
    let mut i: usize = 0;
    while i < all.len()
        invariant
            i <= all.len(),
            prefix@ == import_prefix(),
            views(all@) == lines(script@),
            forall|k: int| 0 <= k < i ==> !is_import(#[trigger] lines(script@)[k]),
        decreases all.len() - i,
    {
        assert(views(all@)[i as int] == all@[i as int]@);
        if line_is_import(&all[i], &prefix) {
            return true;
        }
        i += 1;
    }
    false
}

/// Replaces every import in the script by the text of the file it names, and
/// the imports in those texts too, round after round. `files` holds the texts
/// of the files read so far, keyed by path as the imports name them; where an
/// import names a file that is not among them, its path comes back, for the
/// caller to read the file and try again.
pub fn perform_imports(script: String, files: &StringMap<String>) -> (result: Imports)
    ensures
        result@ == imports(script@, files@, MAX_IMPORT_DEPTH as nat),
{
    let mut current = chars_of(script.as_str());
    let mut rounds: usize = MAX_IMPORT_DEPTH;
    loop
        invariant
            imports(current@, files@, rounds as nat) == imports(
                script@,
                files@,
                MAX_IMPORT_DEPTH as nat,
            ),
        decreases rounds,
    {
        let next = match expand_script(&current, files) {
            Ok(next) => next,
            Err(path) => {
                return Imports::Missing(path);
            },
        };
        if !script_has_import(&next) {
            return Imports::Done(PreprocessedScript { script: string_of(&next) });
        }
        if rounds == 0 {
            return Imports::TooDeep;
        }
        current = next;
        rounds -= 1;
    }
}

/// Whether the groups can be gathered, and why not, does not depend on the
/// groups that were found already.
pub proof fn lemma_harvest_any(
    s: Seq<u8>,
    i: int,
    one: Seq<(Seq<char>, GroupModel)>,
    other: Seq<(Seq<char>, GroupModel)>,
)
    ensures
        harvest(s, i, one) is Ok <==> harvest(s, i, other) is Ok,
        harvest(s, i, one) matches Err(e) ==> harvest(s, i, other) == Err::<
            Seq<(Seq<char>, GroupModel)>,
            LexError,
        >(e),
    decreases s.len() - i,
{
    match next_token_at(s, i, true) {
        Err(_) => {},
        Ok((token, end)) => {
            if !(token is EndOfText) && i < end <= s.len() {
                match token {
                    TokenModel::GroupDefinition(group) => {
                        lemma_harvest_any(
                            s,
                            end,
                            insert_entry(one, group.name, group),
                            insert_entry(other, group.name, group),
                        );
                    },
                    _ => {
                        lemma_harvest_any(s, end, one, other);
                    },
                }
            }
        },
    }
}

/// Where the groups of the rest of a script can be gathered, the interpreter
/// finds a token there, and the groups of what follows that token can be
/// gathered too: a script that the preprocessor has read to its end holds no
/// token that is none for the interpreter.
pub proof fn lemma_interpreter_reads_on(s: Seq<u8>, i: int)
    requires
        0 <= i <= s.len(),
        harvest(s, i, Seq::empty()) is Ok,
    ensures
        next_token_at(s, i, false) matches Ok((_, end)) && i <= end <= s.len() && harvest(
            s,
            end,
            Seq::empty(),
        ) is Ok,
    decreases s.len() - i,
{
    let none = Seq::<(Seq<char>, GroupModel)>::empty();
    crate::lexer::lemma_next_token_at(s, i, true);
    crate::lexer::lemma_next_token_at(s, i, false);
    if i < s.len() {
        let c = crate::lexer::at(s, i);
        if c == '@' || c == ':' || c == '!' || c == '$' || c == '?' {
            match next_token_at(s, i, true) {
                Err(_) => {},
                Ok((token, end)) => {
                    assert(next_token_at(s, i, false) == next_token_at(s, i, true));
                    assert(!(token is GroupDefinition));
                },
            }
        } else if c == '#' {
            crate::lexer::lemma_run_end(s, i, crate::lexer::CharClass::Comment);
            let next = crate::lexer::after(
                s,
                crate::lexer::run_end(s, i, crate::lexer::CharClass::Comment),
            );
            lemma_harvest_skips(s, i, next);
            lemma_interpreter_reads_on(s, next);
        } else if c == '[' {
            match crate::lexer::group_at(s, i) {
                Err(_) => {},
                Ok((group, end)) => {
                    lemma_harvest_any(s, end, insert_entry(none, group.name, group), none);
                    lemma_interpreter_reads_on(s, end);
                },
            }
        } else if crate::lexer::in_class(c, crate::lexer::CharClass::Space) {
            lemma_harvest_skips(s, i, i + 1);
            lemma_interpreter_reads_on(s, i + 1);
        }
    }
}

/// Where the preprocessor's next token from `i` on is its next token from
/// `next` on, the groups from `i` on are those from `next` on.
proof fn lemma_harvest_skips(s: Seq<u8>, i: int, next: int)
    requires
        0 <= i < next <= s.len(),
        next_token_at(s, i, true) == next_token_at(s, next, true),
    ensures
        harvest(s, i, Seq::empty()) == harvest(s, next, Seq::empty()),
{
    crate::lexer::lemma_next_token_at(s, next, true);
}

/// Gathers the group definitions of the rest of the lexer's script, keyed by
/// name. The lexer must have been made for the preprocessor, and the rest of
/// its script must hold nothing but tokens: `try_run` tells.
pub fn run(lexer: Lexer) -> (groups: StringMap<GroupDefinition>)
    requires
        lexer.for_preprocessor(),
        harvest(lexer.script(), lexer.position(), Seq::empty()) is Ok,
    ensures
        harvest(lexer.script(), lexer.position(), Seq::empty()) == Ok::<
            Seq<(Seq<char>, GroupModel)>,
            LexError,
        >(groups.entries()),
{
    match try_run(lexer) {
        Ok(groups) => groups,
        Err(_) => vstd::pervasive::unreached(),
    }
}

} // verus!
