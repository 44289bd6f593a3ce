//! The shell-like tokenizers that split command input into strings, and the
//! text form of the copy cache.
use crate::string_map::{entries_map, insert_entry, StringMap};
use crate::text::{
    chars_of, decimal, decimal_chars, join, join_chars, lemma_decimal_round_trip,
    lemma_views_push, parse_number, parse_unsigned, push_chars, split, split_chars, string_of,
    string_views, strings_of, views,
};
use vstd::prelude::*;

verus! {

/// The first word of a command's input, and what follows it.
#[derive(Debug, PartialEq, Eq)]
pub struct FirstRest {
    pub first: String,
    pub rest: String,
}

/// Why a line could not be split into strings.
#[derive(Debug, Clone, Copy, PartialEq, Eq)]
pub enum LineError {
    /// A backslash stands before something other than `"`, `'` or `\`.
    UnknownEscape,
    /// Inside a quoted string, two quotes stand side by side.
    UnescapedQuote,
}

/// Why a cache text could not be read.
#[derive(Debug, Clone, Copy, PartialEq, Eq)]
pub enum CacheError {
    /// A line could not be split into strings.
    Line(LineError),
    /// A line does not hold exactly a path and a checksum.
    FieldCount,
    /// The checksum is no decimal number that fits 32 bits.
    Checksum,
}

/// Whether `piece` holds a character that is none of `blanks`.
pub open spec fn has_other(piece: Seq<char>, blanks: Seq<char>) -> bool {
    exists|i: int| 0 <= i < piece.len() && !blanks.contains(#[trigger] piece[i])
}

/// The pieces that hold a character that is none of `blanks`, in order.
pub open spec fn keep(pieces: Seq<Seq<char>>, blanks: Seq<char>) -> Seq<Seq<char>>
    decreases pieces.len(),
{
    if pieces.len() == 0 {
        pieces
    } else if has_other(pieces.last(), blanks) {
        keep(pieces.drop_last(), blanks).push(pieces.last())
    } else {
        keep(pieces.drop_last(), blanks)
    }
}

/// Space and carriage return: what `get_strings` takes for nothing.
pub open spec fn padding() -> Seq<char> {
    seq![' ', '\r']
}

/// The whitespace of ASCII.
pub open spec fn ascii_whitespace() -> Seq<char> {
    seq![' ', '\t', '\n', '\x0C', '\r']
}

/// No characters: with this, `keep` drops the empty pieces only.
pub open spec fn nothing() -> Seq<char> {
    Seq::<char>::empty()
}

/// The first of the pieces between spaces and tabs.
pub open spec fn first_value(input: Seq<char>) -> Seq<char> {
    split(input, ' ', '\t')[0]
}

/// The other pieces between spaces and tabs that hold more than whitespace,
/// joined by single spaces.
pub open spec fn rest_value(input: Seq<char>) -> Seq<char> {
    join(keep(split(input, ' ', '\t').skip(1), ascii_whitespace()), seq![' '])
}

/// The strings of `get_strings`: the pieces between double quotes that hold
/// more than spaces and carriage returns.
pub open spec fn quoted_pieces(input: Seq<char>) -> Seq<Seq<char>> {
    keep(split(input, '"', '"'), padding())
}

/// The strings found so far, with the one being read if it has characters.
pub open spec fn flush(strings: Seq<Seq<char>>, current: Seq<char>) -> Seq<Seq<char>> {
    if current.len() > 0 {
        strings.push(current)
    } else {
        strings
    }
}

/// Whether a backslash before `c` is an escape that the tokenizer knows.
pub open spec fn escapable(c: char) -> bool {
    c == '"' || c == '\'' || c == '\\'
}

/// The tokenizer's run over `s` from index `i` on, with the strings found so
/// far, the string being read, and whether a quote is open.
///
/// Outside quotes a space ends the string being read. A backslash takes the
/// `"`, `'` or `\` behind it literally and fails before anything else. A quote
/// opens or closes a quoted string; two quotes side by side are an empty
/// string outside quotes and a failure inside. Every other character belongs
/// to the string being read.
pub open spec fn scan_line(
    s: Seq<char>,
    i: int,
    strings: Seq<Seq<char>>,
    current: Seq<char>,
    in_string: bool,
) -> Result<Seq<Seq<char>>, LineError>
    decreases s.len() - i,
{
    if i < 0 || i >= s.len() {
        Ok(flush(strings, current))
    } else if s[i] == ' ' && !in_string {
        scan_line(s, i + 1, flush(strings, current), Seq::empty(), in_string)
    } else if s[i] == '\\' {
        if i + 1 < s.len() && escapable(s[i + 1]) {
            scan_line(s, i + 2, strings, current.push(s[i + 1]), in_string)
        } else {
            Err(LineError::UnknownEscape)
        }
    } else if s[i] == '"' {
        if i + 1 < s.len() && s[i + 1] == '"' {
            if in_string {
                Err(LineError::UnescapedQuote)
            } else {
                scan_line(s, i + 2, strings.push(Seq::empty()), current, in_string)
            }
        } else if in_string {
            scan_line(s, i + 1, flush(strings, current), Seq::empty(), false)
        } else {
            scan_line(s, i + 1, strings, current, true)
        }
    } else {
        scan_line(s, i + 1, strings, current.push(s[i]), in_string)
    }
}

/// The strings of a line, or why it has none.
pub open spec fn line_strings(s: Seq<char>) -> Result<Seq<Seq<char>>, LineError> {
    scan_line(s, 0, Seq::empty(), Seq::empty(), false)
}

/// What a result of strings says, by the strings' views.
pub open spec fn strings_result(r: Result<Vec<String>, LineError>) -> Result<
    Seq<Seq<char>>,
    LineError,
> {
    match r {
        Ok(strings) => Ok(string_views(strings@)),
        Err(e) => Err(e),
    }
}

/// Whether `piece` holds a character that is none of `blanks`.
pub fn holds_other(piece: &Vec<char>, blanks: &Vec<char>) -> (found: bool)
    ensures
        found == has_other(piece@, blanks@),
{
    let mut i: usize = 0;
    while i < piece.len()
        invariant
            i <= piece.len(),
            forall|k: int| 0 <= k < i ==> blanks@.contains(#[trigger] piece@[k]),
        decreases piece.len() - i,
    {
        let c = piece[i];
        let mut j: usize = 0;
        let mut blank = false;
        while j < blanks.len()
            invariant
                j <= blanks.len(),
                blank == exists|k: int| 0 <= k < j && blanks@[k] == c,
            decreases blanks.len() - j,
        {
            if blanks[j] == c {
                blank = true;
            }
            j += 1;
        }
        if !blank {
            assert(!blanks@.contains(piece@[i as int]));
            return true;
        }
        assert(blanks@.contains(piece@[i as int]));
        i += 1;
    }
    false
}

/// The pieces that hold a character that is none of `blanks`, in order.
pub fn keep_pieces(pieces: Vec<Vec<char>>, blanks: &Vec<char>) -> (kept: Vec<Vec<char>>)
    ensures
        views(kept@) == keep(views(pieces@), blanks@),
{
    let mut kept: Vec<Vec<char>> = Vec::new();
    let mut i: usize = 0;
    assert(views(pieces@.take(0)) =~= Seq::<Seq<char>>::empty());
    assert(views(kept@) =~= Seq::<Seq<char>>::empty());
    while i < pieces.len()
        invariant
            i <= pieces.len(),
            views(kept@) == keep(views(pieces@.take(i as int)), blanks@),
        decreases pieces.len() - i,
    {
        proof {
            let now = views(pieces@.take(i + 1));
            assert(now.drop_last() =~= views(pieces@.take(i as int)));
            assert(now.last() == pieces@[i as int]@);
        }
        if holds_other(&pieces[i], blanks) {
            proof {
                lemma_views_push(kept@, pieces@[i as int]);
            }
            kept.push(pieces[i].clone());
            assert(kept@.last()@ == pieces@[i as int]@);
            assert(views(kept@) =~= views(kept@.drop_last()).push(pieces@[i as int]@));
        }
        i += 1;
    }
    assert(pieces@.take(pieces.len() as int) == pieces@);
    kept
}

/// Separates, at spaces and tabs, the first value from the rest of the input.
/// What follows the first value is joined again by single spaces, without the
/// pieces that were empty or whitespace.
pub fn separate_first_value_from_rest(input: String, command: &str) -> (parts: FirstRest)
    ensures
        parts.first@ == first_value(input@),
        parts.rest@ == rest_value(input@),
{
    let chars = chars_of(input.as_str());
    let mut pieces = split_chars(&chars, ' ', '\t');
    proof {
        crate::text::lemma_split_nonempty(chars@, ' ', '\t');
    }
    let first = string_of(&pieces[0]);
    let ghost all = pieces@;
    pieces.remove(0);
    assert(views(pieces@) =~= views(all).skip(1));
    let mut blanks: Vec<char> = Vec::new();
    blanks.push(' ');
    blanks.push('\t');
    blanks.push('\n');
    blanks.push('\x0C');
    blanks.push('\r');
    assert(blanks@ =~= ascii_whitespace());
    let kept = keep_pieces(pieces, &blanks);
    let mut space: Vec<char> = Vec::new();
    space.push(' ');
    assert(space@ =~= seq![' ']);
    let rest = string_of(&join_chars(&kept, &space));
    FirstRest { first, rest }
}

/// The pieces of the input between double quotes, without those that hold
/// nothing but spaces and carriage returns.
pub fn get_strings(input: String) -> (strings: Vec<String>)
    ensures
        string_views(strings@) == quoted_pieces(input@),
{
    let chars = chars_of(input.as_str());
    let pieces = split_chars(&chars, '"', '"');
    let mut blanks: Vec<char> = Vec::new();
    blanks.push(' ');
    blanks.push('\r');
    assert(blanks@ =~= padding());
    let kept = keep_pieces(pieces, &blanks);
    strings_of(&kept)
}

/// Ends the string being read, if it has characters.
fn flush_current(strings: &mut Vec<Vec<char>>, current: &mut Vec<char>)
    ensures
        views(final(strings)@) == flush(views(old(strings)@), old(current)@),
        final(current)@ == Seq::<char>::empty(),
{
    if current.len() > 0 {
        let mut done: Vec<char> = Vec::new();
        core::mem::swap(current, &mut done);
        proof {
            lemma_views_push(strings@, done);
        }
        strings.push(done);
    }
}

/// Splits a line into strings as a shell would: at spaces, with double
/// quotes around what holds spaces, and `\"`, `\'`, `\\` for the characters
/// themselves.
pub fn scan_strings(s: &Vec<char>) -> (result: Result<Vec<Vec<char>>, LineError>)
    ensures
        match result {
            Ok(strings) => line_strings(s@) == Ok::<Seq<Seq<char>>, LineError>(views(strings@)),
            Err(e) => line_strings(s@) == Err::<Seq<Seq<char>>, LineError>(e),
        },
{
    let mut strings: Vec<Vec<char>> = Vec::new();
    let mut current: Vec<char> = Vec::new();
    let mut in_string = false;
    let mut i: usize = 0;
    assert(views(strings@) =~= Seq::<Seq<char>>::empty());
    while i < s.len()
        invariant
            i <= s.len(),
            scan_line(s@, i as int, views(strings@), current@, in_string) == line_strings(s@),
        decreases s.len() - i,
    {
        let c = s[i];
        let more = i + 1 < s.len();
        if c == ' ' && !in_string {
            flush_current(&mut strings, &mut current);
            i += 1;
        } else if c == '\\' {
            if more && (s[i + 1] == '"' || s[i + 1] == '\'' || s[i + 1] == '\\') {
                current.push(s[i + 1]);
                i += 2;
            } else {
                return Err(LineError::UnknownEscape);
            }
        } else if c == '"' {
            if more && s[i + 1] == '"' {
                if in_string {
                    return Err(LineError::UnescapedQuote);
                }
                let empty: Vec<char> = Vec::new();
                proof {
                    lemma_views_push(strings@, empty);
                }
                strings.push(empty);
                i += 2;
            } else if in_string {
                flush_current(&mut strings, &mut current);
                in_string = false;
                i += 1;
            } else {
                in_string = true;
                i += 1;
            }
        } else {
            current.push(c);
            i += 1;
        }
    }
    flush_current(&mut strings, &mut current);
    Ok(strings)
}

/// Splits a line into strings as a shell would: at spaces, with double
/// quotes around what holds spaces, and `\"`, `\'`, `\\` for the characters
/// themselves. Fails on any other escape, and on two quotes side by side
/// inside a quoted string.
pub fn try_get_line_strings(input: String) -> (result: Result<Vec<String>, LineError>)
    ensures
        strings_result(result) == line_strings(input@),
{
    let s = chars_of(input.as_str());
    match scan_strings(&s) {
        Ok(strings) => Ok(strings_of(&strings)),
        Err(e) => Err(e),
    }
}

/// `s` without the double quotes at its start.
pub open spec fn trim_start_quotes(s: Seq<char>) -> Seq<char>
    decreases s.len(),
{
    if s.len() > 0 && s[0] == '"' {
        trim_start_quotes(s.skip(1))
    } else {
        s
    }
}

/// `s` without the double quotes at its end.
pub open spec fn trim_end_quotes(s: Seq<char>) -> Seq<char>
    decreases s.len(),
{
    if s.len() > 0 && s.last() == '"' {
        trim_end_quotes(s.drop_last())
    } else {
        s
    }
}

/// `s` without the double quotes at its start and at its end.
pub open spec fn trim_quotes(s: Seq<char>) -> Seq<char> {
    trim_end_quotes(trim_start_quotes(s))
}

/// A character as the cache text holds it: `"`, `'` and `\` behind a
/// backslash, every other character as it is.
pub open spec fn escape_char(c: char) -> Seq<char> {
    if escapable(c) {
        seq!['\\', c]
    } else {
        seq![c]
    }
}

/// A text as the cache text holds it, character by character.
pub open spec fn escape(s: Seq<char>) -> Seq<char>
    decreases s.len(),
{
    if s.len() == 0 {
        s
    } else {
        escape(s.drop_last()) + escape_char(s.last())
    }
}

/// One record of the cache text: the path without the quotes around it,
/// escaped and quoted, a space, and the checksum in decimal, quoted.
pub open spec fn cache_line(path: Seq<char>, crc: u32) -> Seq<char> {
    seq!['"'] + escape(trim_quotes(path)) + seq!['"', ' ', '"'] + decimal(crc as nat) + seq!['"']
}

/// One record of the cache text for a target path and its checksum.
pub fn get_cache_line(kvp: (&String, &u32)) -> (line: String)
    ensures
        line@ == cache_line(kvp.0@, *kvp.1),
{
    let path = chars_of(kvp.0.as_str());
    let mut from: usize = 0;
    assert(path@.skip(0) == path@);
    while from < path.len() && path[from] == '"'
        invariant
            from <= path.len(),
            trim_start_quotes(path@) == trim_start_quotes(path@.skip(from as int)),
        decreases path.len() - from,
    {
        assert(path@.skip(from as int).skip(1) == path@.skip(from + 1));
        from += 1;
    }
    let mut to: usize = path.len();
    assert(path@.subrange(from as int, to as int) == path@.skip(from as int));
    while to > from && path[to - 1] == '"'
        invariant
            from <= to <= path.len(),
            trim_quotes(path@) == trim_end_quotes(path@.subrange(from as int, to as int)),
        decreases to,
    {
        assert(path@.subrange(from as int, to as int).drop_last() == path@.subrange(
            from as int,
            to - 1,
        ));
        to -= 1;
    }
    let ghost trimmed = path@.subrange(from as int, to as int);
    assert(trim_quotes(path@) == trimmed);
    let mut out: Vec<char> = Vec::new();
    out.push('"');
    let mut i: usize = from;
    assert(trimmed.take(0) =~= Seq::<char>::empty());
    while i < to
        invariant
            from <= i <= to <= path.len(),
            trimmed == path@.subrange(from as int, to as int),
            out@ == seq!['"'] + escape(trimmed.take(i - from)),
        decreases to - i,
    {
        let c = path[i];
        proof {
            assert(trimmed.take(i + 1 - from).drop_last() == trimmed.take(i - from));
            assert(trimmed.take(i + 1 - from).last() == c);
        }
        if c == '"' || c == '\'' || c == '\\' {
            out.push('\\');
        }
        out.push(c);
        i += 1;
        assert(out@ =~= seq!['"'] + escape(trimmed.take(i - from)));
    }
    assert(trimmed.take(to - from) == trimmed);
    out.push('"');
    out.push(' ');
    out.push('"');
    let digits = decimal_chars(*kvp.1 as u64);
    push_chars(&mut out, &digits);
    out.push('"');
    assert(out@ =~= cache_line(path@, *kvp.1));
    string_of(&out)
}

/// `piece` without the one carriage return at its end, if it has one.
pub open spec fn strip_cr(piece: Seq<char>) -> Seq<char> {
    if piece.len() > 0 && piece.last() == '\r' {
        piece.drop_last()
    } else {
        piece
    }
}

/// The lines of a text. A line ends at a line feed, or at a carriage return
/// and a line feed; neither belongs to the line. What follows the last line
/// feed is a line if it is not empty.
pub open spec fn lines(s: Seq<char>) -> Seq<Seq<char>> {
    let parts = split(s, '\n', '\n');
    let ended = Seq::new((parts.len() - 1) as nat, |i: int| strip_cr(parts[i]));
    if parts.last().len() > 0 {
        ended.push(parts.last())
    } else {
        ended
    }
}

/// The lines of a text.
pub fn lines_of(s: &Vec<char>) -> (out: Vec<Vec<char>>)
    ensures
        views(out@) == lines(s@),
{
    let parts = split_chars(s, '\n', '\n');
    proof {
        crate::text::lemma_split_nonempty(s@, '\n', '\n');
    }
    let ghost pieces = split(s@, '\n', '\n');
    let mut out: Vec<Vec<char>> = Vec::new();
    let mut i: usize = 0;
    while i + 1 < parts.len()
        invariant
            i + 1 <= parts.len(),
            views(parts@) == pieces,
            out.len() == i,
            forall|k: int| 0 <= k < i ==> (#[trigger] out@[k])@ == strip_cr(pieces[k]),
        decreases parts.len() - i,
    {
        let part = &parts[i];
        assert(part@ == pieces[i as int]);
        let n = part.len();
        let mut line: Vec<char> = part.clone();
        assert(line@ == part@);
        if n > 0 && line[n - 1] == '\r' {
            line.pop();
        }
        out.push(line);
        i += 1;
    }
    let last = &parts[parts.len() - 1];
    assert(last@ == pieces.last());
    if last.len() > 0 {
        out.push(last.clone());
    }
    assert(views(out@) =~= lines(s@));
    out
}

/// What the strings of one line of the cache text record: the path and the
/// checksum. Empty strings do not count.
pub open spec fn record_of(strings: Result<Seq<Seq<char>>, LineError>) -> Result<
    (Seq<char>, u32),
    CacheError,
> {
    match strings {
        Err(e) => Err(CacheError::Line(e)),
        Ok(strings) => {
            let fields = keep(strings, nothing());
            if fields.len() != 2 {
                Err(CacheError::FieldCount)
            } else {
                match parse_unsigned(fields[1], u32::MAX as nat) {
                    Some(crc) => Ok((fields[0], crc as u32)),
                    None => Err(CacheError::Checksum),
                }
            }
        },
    }
}

/// The strings of a line as one of the two tokenizers finds them: the one of
/// this module, or the one that reads line feeds past the end of the line.
pub open spec fn strings_of_line(line: Seq<char>, padded: bool) -> Result<
    Seq<Seq<char>>,
    LineError,
> {
    if padded {
        crate::str_utils::padded_strings(line)
    } else {
        line_strings(line)
    }
}

/// What one line of the cache text records.
pub open spec fn cache_record(line: Seq<char>, padded: bool) -> Result<
    (Seq<char>, u32),
    CacheError,
> {
    record_of(strings_of_line(line, padded))
}

/// What the lines of a cache text record, line by line: a path that occurs
/// again takes the later checksum. Fails as the first line that fails.
pub open spec fn cache_records(lines: Seq<Seq<char>>, padded: bool) -> Result<
    Seq<(Seq<char>, u32)>,
    CacheError,
>
    decreases lines.len(),
{
    if lines.len() == 0 {
        Ok(Seq::empty())
    } else {
        match cache_records(lines.drop_last(), padded) {
            Err(e) => Err(e),
            Ok(entries) => match cache_record(lines.last(), padded) {
                Err(e) => Err(e),
                Ok((path, crc)) => Ok(insert_entry(entries, path, crc)),
            },
        }
    }
}

/// What a cache text records.
pub open spec fn parsed_cache(text: Seq<char>) -> Result<Seq<(Seq<char>, u32)>, CacheError> {
    cache_records(lines(text), false)
}

/// Reads a cache text with one of the two tokenizers.
pub fn parse_cache_lines(cache: &str, padded: bool) -> (result: Result<StringMap<u32>, CacheError>)
    ensures
        match result {
            Ok(map) => cache_records(lines(cache@), padded) == Ok::<
                Seq<(Seq<char>, u32)>,
                CacheError,
            >(map.entries()),
            Err(e) => cache_records(lines(cache@), padded) == Err::<
                Seq<(Seq<char>, u32)>,
                CacheError,
            >(e),
        },
{
    let text = chars_of(cache);
    let all = lines_of(&text);
    let mut map: StringMap<u32> = StringMap::new();
    let empty: Vec<char> = Vec::new();
    let mut i: usize = 0;
    assert(views(all@.take(0)) =~= Seq::<Seq<char>>::empty());
    while i < all.len()
        invariant
            i <= all.len(),
            empty@ == nothing(),
            views(all@) == lines(cache@),
            cache_records(views(all@.take(i as int)), padded) == Ok::<
                Seq<(Seq<char>, u32)>,
                CacheError,
            >(map.entries()),
        decreases all.len() - i,
    {
        proof {
            let now = views(all@.take(i + 1));
            assert(now.drop_last() =~= views(all@.take(i as int)));
            assert(now.last() == all@[i as int]@);
            assert(views(all@).take(i + 1) =~= now);
            lemma_records_fail(views(all@), padded, i + 1);
        }
        let scanned = if padded {
            crate::str_utils::scan_padded_strings(&all[i])
        } else {
            scan_strings(&all[i])
        };
        let strings = match scanned {
            Ok(strings) => strings,
            Err(e) => {
                return Err(CacheError::Line(e));
            },
        };
        let mut fields = keep_pieces(strings, &empty);
        if fields.len() != 2 {
            return Err(CacheError::FieldCount);
        }
        assert(views(fields@)[1] == fields@[1]@);
        assert(views(fields@)[0] == fields@[0]@);
        let crc = match parse_number(&fields[1], u32::MAX as u64) {
            Some(n) => n as u32,
            None => {
                return Err(CacheError::Checksum);
            },
        };
        let path = string_of(&fields[0]);
        map.insert(path, crc);
        i += 1;
    }
    assert(all@.take(all.len() as int) == all@);
    Ok(map)
}

/// Reads a cache text: one record per line, each a quoted path and a quoted
/// decimal checksum. Fails on a line that cannot be split, that does not hold
/// exactly two strings, or whose second string is no 32-bit number.
pub fn try_parse_cache(cache: String) -> (result: Result<StringMap<u32>, CacheError>)
    ensures
        match result {
            Ok(map) => parsed_cache(cache@) == Ok::<Seq<(Seq<char>, u32)>, CacheError>(
                map.entries(),
            ),
            Err(e) => parsed_cache(cache@) == Err::<Seq<(Seq<char>, u32)>, CacheError>(e),
        },
{
    parse_cache_lines(cache.as_str(), false)
}

/// Where the first lines fail, all the lines fail the same way.
pub proof fn lemma_records_fail(lines: Seq<Seq<char>>, padded: bool, k: int)
    requires
        0 <= k <= lines.len(),
    ensures
        cache_records(lines.take(k), padded) is Err ==> cache_records(lines, padded)
            == cache_records(lines.take(k), padded),
    decreases lines.len() - k,
{
    if k < lines.len() {
        assert(lines.take(k + 1).drop_last() == lines.take(k));
        lemma_records_fail(lines, padded, k + 1);
    } else {
        assert(lines.take(k) == lines);
    }
}

/// A text without separators is one piece.
pub proof fn lemma_split_whole(s: Seq<char>, a: char, b: char)
    requires
        forall|i: int| 0 <= i < s.len() ==> s[i] != a && s[i] != b,
    ensures
        split(s, a, b) == seq![s],
    decreases s.len(),
{
    if s.len() == 0 {
        assert(s =~= Seq::<char>::empty());
    } else {
        lemma_split_whole(s.drop_last(), a, b);
        assert(s.drop_last().push(s.last()) =~= s);
        assert(seq![s.drop_last()].last() == s.drop_last());
        assert(seq![s.drop_last()].drop_last().push(s) =~= seq![s]);
    }
}

/// An escaped text begins with something other than a double quote, and holds
/// a line feed only where the text did.
pub proof fn lemma_escape_shape(p: Seq<char>)
    ensures
        escape(p).len() >= p.len(),
        p.len() > 0 ==> escape(p)[0] != '"',
        (forall|i: int| 0 <= i < p.len() ==> p[i] != '\n') ==> (forall|k: int|
            0 <= k < escape(p).len() ==> escape(p)[k] != '\n'),
    decreases p.len(),
{
    if p.len() > 0 {
        lemma_escape_shape(p.drop_last());
        if p.len() == 1 {
            assert(escape(p.drop_last()).len() == 0);
        }
        if forall|i: int| 0 <= i < p.len() ==> p[i] != '\n' {
            assert forall|i: int| 0 <= i < p.drop_last().len() implies p.drop_last()[i]
                != '\n' by {
                assert(p.drop_last()[i] == p[i]);
            }
            assert(p.last() == p[p.len() - 1]);
        }
    }
}

/// A decimal numeral needs no escaping, and holds no quote and no line feed.
pub proof fn lemma_decimal_plain(n: nat)
    ensures
        escape(decimal(n)) == decimal(n),
        forall|k: int|
            0 <= k < decimal(n).len() ==> decimal(n)[k] != '"' && decimal(n)[k] != '\n',
    decreases n,
{
    if n < 10 {
        assert(decimal(n).drop_last() =~= Seq::<char>::empty());
        assert(escape(Seq::<char>::empty()) == Seq::<char>::empty());
        assert(!escapable(decimal(n).last()));
        assert(escape(decimal(n)) =~= decimal(n));
    } else {
        lemma_decimal_plain(n / 10);
        assert(decimal(n).drop_last() =~= decimal(n / 10));
        assert(decimal(n).last() == crate::text::digit_char(n % 10));
        assert(!escapable(decimal(n).last()));
        assert(escape(decimal(n)) == escape(decimal(n / 10)) + seq![decimal(n).last()]);
        assert(escape(decimal(n)) =~= decimal(n));
    }
}

/// Inside quotes, the tokenizer reads an escaped text as the text itself.
pub proof fn lemma_scan_escaped(
    s: Seq<char>,
    i: int,
    p: Seq<char>,
    strings: Seq<Seq<char>>,
    current: Seq<char>,
)
    requires
        0 <= i,
        i + escape(p).len() <= s.len(),
        s.subrange(i, i + escape(p).len()) == escape(p),
    ensures
        scan_line(s, i, strings, current, true) == scan_line(
            s,
            i + escape(p).len(),
            strings,
            current + p,
            true,
        ),
    decreases p.len(),
{
    if p.len() == 0 {
        assert(current + p =~= current);
    } else {
        let front = p.drop_last();
        let c = p.last();
        let whole = escape(p);
        let head = escape(front);
        let j = i + head.len();
        let h = head.len() as int;
        assert(s.subrange(i, j) =~= head) by {
            assert forall|k: int| 0 <= k < head.len() implies s.subrange(i, j)[k] == head[k] by {
                assert(s.subrange(i, i + whole.len())[k] == whole[k]);
            }
        }
        lemma_scan_escaped(s, i, front, strings, current);
        assert(s.subrange(i, i + whole.len())[h] == whole[h]);
        assert(whole[h] == escape_char(c)[0]);
        if escapable(c) {
            assert(s.subrange(i, i + whole.len())[h + 1] == whole[h + 1]);
            assert(whole[h + 1] == escape_char(c)[1]);
            assert(s[j] == '\\' && s[j + 1] == c);
        } else {
            assert(s[j] == c);
        }
        assert((current + front).push(c) =~= current + p);
    }
}

/// A text that is one line of any text it is written into: not empty,
/// without a line feed, and with something other than a carriage return at
/// its end.
pub open spec fn whole_line(line: Seq<char>) -> bool {
    &&& line.len() > 0
    &&& line.last() != '\r'
    &&& forall|i: int| 0 <= i < line.len() ==> line[i] != '\n'
}

/// Writing a cache record and reading it again gives the path and the
/// checksum back: for every path that is not empty, has no double quote at
/// its start or end and holds no line feed, and for every checksum.
pub proof fn lemma_cache_line_round_trip(path: Seq<char>, crc: u32)
    requires
        path.len() > 0,
        path[0] != '"',
        path.last() != '"',
        forall|i: int| 0 <= i < path.len() ==> path[i] != '\n',
    ensures
        parsed_cache(cache_line(path, crc)) == Ok::<Seq<(Seq<char>, u32)>, CacheError>(
            seq![(path, crc)],
        ),
        entries_map(seq![(path, crc)]).contains_key(path),
        entries_map(seq![(path, crc)])[path] == crc,
        cache_record(cache_line(path, crc), false) == Ok::<(Seq<char>, u32), CacheError>(
            (path, crc),
        ),
        whole_line(cache_line(path, crc)),
{
    let escaped = escape(path);
    let digits = decimal(crc as nat);
    let line = cache_line(path, crc);
    let a: int = escaped.len() as int + 1;
    let b: int = a + 3;
    let c: int = b + digits.len();
    lemma_escape_shape(path);
    lemma_decimal_plain(crc as nat);
    lemma_decimal_round_trip(crc as nat);
    assert(trim_quotes(path) == path);
    assert(line.len() == c + 1);
    assert(line[0] == '"');
    assert(line.subrange(1, a) =~= escaped);
    assert(line[a] == '"' && line[a + 1] == ' ' && line[a + 2] == '"');
    assert(line.subrange(b, c) =~= digits);
    assert(line[c] == '"');
    assert(line[1] == escaped[0]);
    assert(line[b] == digits[0]);
    let none = Seq::<Seq<char>>::empty();
    let blank = Seq::<char>::empty();
    // the opening quote, the escaped path, and the quote that closes it
    assert(scan_line(line, 0, none, blank, false) == scan_line(line, 1, none, blank, true));
    lemma_scan_escaped(line, 1, path, none, blank);
    assert(blank + path =~= path);
    assert(scan_line(line, a, none, path, true) == scan_line(
        line,
        a + 1,
        seq![path],
        blank,
        false,
    )) by {
        assert(flush(none, path) =~= seq![path]);
    }
    // the space between, and the quoted checksum
    assert(scan_line(line, a + 1, seq![path], blank, false) == scan_line(
        line,
        a + 2,
        seq![path],
        blank,
        false,
    ));
    assert(scan_line(line, a + 2, seq![path], blank, false) == scan_line(
        line,
        b,
        seq![path],
        blank,
        true,
    ));
    lemma_scan_escaped(line, b, digits, seq![path], blank);
    assert(blank + digits =~= digits);
    assert(scan_line(line, c, seq![path], digits, true) == scan_line(
        line,
        c + 1,
        seq![path, digits],
        blank,
        false,
    )) by {
        assert(flush(seq![path], digits) =~= seq![path, digits]);
    }
    assert(line_strings(line) == Ok::<Seq<Seq<char>>, LineError>(seq![path, digits]));
    // both strings stay, and the second one is the checksum
    let fields = seq![path, digits];
    assert(keep(fields, nothing()) == fields) by {
        assert(fields.drop_last() =~= seq![path]);
        assert(seq![path].drop_last() =~= none);
        assert(has_other(path, nothing())) by {
            assert(!nothing().contains(path[0]));
        }
        assert(has_other(digits, nothing())) by {
            assert(!nothing().contains(digits[0]));
        }
        assert(seq![path].last() == path);
        assert(keep(none, nothing()) == none);
        assert(keep(seq![path], nothing()) =~= seq![path]);
        assert(fields.last() == digits);
        assert(keep(fields, nothing()) =~= fields);
    }
    assert(cache_record(line, false) == Ok::<(Seq<char>, u32), CacheError>((path, crc)));
    // the line is the whole text
    assert forall|i: int| 0 <= i < line.len() implies line[i] != '\n' by {
        if 1 <= i < a {
            assert(line[i] == escaped[i - 1]);
        } else if b <= i < c {
            assert(line[i] == digits[i - b]);
        }
    }
    lemma_split_whole(line, '\n', '\n');
    assert(lines(line) =~= seq![line]);
    assert(seq![line].drop_last() =~= Seq::<Seq<char>>::empty());
    assert(seq![line].last() == line);
    assert(cache_records(Seq::<Seq<char>>::empty(), false) == Ok::<
        Seq<(Seq<char>, u32)>,
        CacheError,
    >(Seq::empty()));
    assert(insert_entry(Seq::<(Seq<char>, u32)>::empty(), path, crc) =~= seq![(path, crc)]);
    assert(entries_map(seq![(path, crc)]) =~= Map::<Seq<char>, u32>::empty().insert(path, crc))
        by {
        let one = seq![(path, crc)];
        assert(one.drop_last() =~= Seq::<(Seq<char>, u32)>::empty());
        assert(one.last() == (path, crc));
        assert(entries_map(one.drop_last()) == Map::<Seq<char>, u32>::empty());
    }
}

/// A path that can be recorded and read again: not empty, without a double
/// quote at its start or end, and without a line feed.
pub open spec fn recordable(path: Seq<char>) -> bool {
    &&& path.len() > 0
    &&& path[0] != '"'
    &&& path.last() != '"'
    &&& forall|i: int| 0 <= i < path.len() ==> path[i] != '\n'
}

/// The records of the cache, one for each entry.
pub open spec fn cache_lines(cache: Seq<(Seq<char>, u32)>) -> Seq<Seq<char>> {
    Seq::new(cache.len(), |i: int| cache_line(cache[i].0, cache[i].1))
}

/// The text of the cache file: one record per line.
pub open spec fn cache_text(cache: Seq<(Seq<char>, u32)>) -> Seq<char> {
    join(cache_lines(cache), seq!['\n'])
}

/// A text without separators behind another text lengthens its last piece.
pub proof fn lemma_split_append(s: Seq<char>, more: Seq<char>, a: char, b: char)
    requires
        forall|i: int| 0 <= i < more.len() ==> more[i] != a && more[i] != b,
    ensures
        split(s + more, a, b) == split(s, a, b).drop_last().push(split(s, a, b).last() + more),
    decreases more.len(),
{
    crate::text::lemma_split_nonempty(s, a, b);
    let pieces = split(s, a, b);
    if more.len() == 0 {
        assert(s + more =~= s);
        assert(pieces.last() + more =~= pieces.last());
        assert(pieces.drop_last().push(pieces.last()) =~= pieces);
    } else {
        let front = more.drop_last();
        assert forall|i: int| 0 <= i < front.len() implies front[i] != a && front[i] != b by {
            assert(front[i] == more[i]);
        }
        lemma_split_append(s, front, a, b);
        assert((s + more).drop_last() =~= s + front);
        assert((s + more).last() == more[more.len() - 1]);
        let before = split(s + front, a, b);
        assert(before.last().push(more.last()) =~= pieces.last() + more);
        assert(before.drop_last() =~= pieces.drop_last());
    }
}

/// Pieces without separators, joined by one separator and split at it again,
/// are the pieces.
pub proof fn lemma_split_join(pieces: Seq<Seq<char>>, sep: char)
    requires
        pieces.len() > 0,
        forall|k: int, i: int|
            0 <= k < pieces.len() && 0 <= i < pieces[k].len() ==> pieces[k][i] != sep,
    ensures
        split(join(pieces, seq![sep]), sep, sep) == pieces,
    decreases pieces.len(),
{
    if pieces.len() == 1 {
        lemma_split_whole(pieces[0], sep, sep);
        assert(seq![pieces[0]] =~= pieces);
    } else {
        let front = pieces.drop_last();
        assert forall|k: int, i: int|
            0 <= k < front.len() && 0 <= i < front[k].len() implies front[k][i] != sep by {
            assert(front[k] == pieces[k]);
        }
        lemma_split_join(front, sep);
        let head = join(front, seq![sep]) + seq![sep];
        assert(head.drop_last() =~= join(front, seq![sep]));
        assert(head.last() == sep);
        assert(split(head, sep, sep) == front.push(Seq::<char>::empty()));
        assert forall|i: int| 0 <= i < pieces.last().len() implies pieces.last()[i] != sep by {
            assert(pieces.last() == pieces[pieces.len() - 1]);
        }
        lemma_split_append(head, pieces.last(), sep, sep);
        assert(join(pieces, seq![sep]) == head + pieces.last());
        assert(Seq::<char>::empty() + pieces.last() =~= pieces.last());
        assert(front.push(Seq::<char>::empty()).drop_last() =~= front);
        assert(front.push(pieces.last()) =~= pieces);
    }
}

/// Whole lines, joined by line feeds, are the lines of the text they make.
pub proof fn lemma_lines_join(all: Seq<Seq<char>>)
    requires
        forall|k: int| 0 <= k < all.len() ==> whole_line(#[trigger] all[k]),
    ensures
        lines(join(all, seq!['\n'])) == all,
{
    if all.len() == 0 {
        assert(split(Seq::<char>::empty(), '\n', '\n') == seq![Seq::<char>::empty()]);
        assert(lines(Seq::<char>::empty()) =~= all);
    } else {
        assert forall|k: int, i: int|
            0 <= k < all.len() && 0 <= i < all[k].len() implies all[k][i] != '\n' by {
            assert(whole_line(all[k]));
        }
        lemma_split_join(all, '\n');
        assert(whole_line(all.last()));
        assert forall|k: int| 0 <= k < all.len() - 1 implies strip_cr(all[k]) == all[k] by {
            assert(whole_line(all[k]));
        }
        assert(lines(join(all, seq!['\n'])) =~= all);
    }
}

/// The records of entries with distinct paths, all of which can be recorded,
/// are read as the entries, whichever of the two tokenizers reads them.
pub proof fn lemma_cache_records(entries: Seq<(Seq<char>, u32)>, padded: bool)
    requires
        crate::string_map::distinct_keys(entries),
        forall|k: int| 0 <= k < entries.len() ==> recordable(#[trigger] entries[k].0),
    ensures
        cache_records(cache_lines(entries), padded) == Ok::<Seq<(Seq<char>, u32)>, CacheError>(
            entries,
        ),
        forall|k: int| 0 <= k < entries.len() ==> whole_line(#[trigger] cache_lines(entries)[k]),
    decreases entries.len(),
{
    if entries.len() == 0 {
        assert(entries =~= Seq::empty());
    } else {
        let front = entries.drop_last();
        let (path, crc) = entries.last();
        assert(crate::string_map::distinct_keys(front)) by {
            assert forall|i: int, j: int| 0 <= i < j < front.len() implies front[i].0
                != front[j].0 by {
                assert(front[i] == entries[i] && front[j] == entries[j]);
            }
        }
        assert forall|k: int| 0 <= k < front.len() implies recordable(#[trigger] front[k].0) by {
            assert(front[k] == entries[k]);
        }
        lemma_cache_records(front, padded);
        assert(cache_lines(entries).drop_last() =~= cache_lines(front));
        assert(cache_lines(entries).last() == cache_line(path, crc));
        assert(recordable(entries[entries.len() - 1].0));
        lemma_cache_line_round_trip(path, crc);
        crate::str_utils::lemma_padded_cache_line_round_trip(path, crc);
        crate::string_map::lemma_position(front, path);
        let found = crate::string_map::position(front, path);
        if found < front.len() {
            assert(front[found] == entries[found]);
        }
        assert(insert_entry(front, path, crc) =~= entries);
        assert forall|k: int| 0 <= k < entries.len() implies whole_line(
            #[trigger] cache_lines(entries)[k],
        ) by {
            if k < front.len() {
                assert(cache_lines(entries)[k] == cache_lines(front)[k]);
            }
        }
    }
}

/// Writing a whole cache and reading it again gives the cache back, entry
/// for entry and in the same order: for every cache whose paths can all be
/// recorded, and whichever of the two tokenizers reads the text.
pub proof fn lemma_cache_round_trip(entries: Seq<(Seq<char>, u32)>, padded: bool)
    requires
        crate::string_map::distinct_keys(entries),
        forall|k: int| 0 <= k < entries.len() ==> recordable(#[trigger] entries[k].0),
    ensures
        cache_records(lines(cache_text(entries)), padded) == Ok::<
            Seq<(Seq<char>, u32)>,
            CacheError,
        >(entries),
        parsed_cache(cache_text(entries)) == Ok::<Seq<(Seq<char>, u32)>, CacheError>(entries),
{
    lemma_cache_records(entries, padded);
    lemma_cache_records(entries, false);
    lemma_lines_join(cache_lines(entries));
}

/// Splits a line into strings as a shell would: at spaces, with double
/// quotes around what holds spaces, and `\"`, `\'`, `\\` for the characters
/// themselves. The line must be one that can be split: `try_get_line_strings`
/// tells.
pub fn get_line_strings(input: String) -> (strings: Vec<String>)
    requires
        line_strings(input@) is Ok,
    ensures
        line_strings(input@) == Ok::<Seq<Seq<char>>, LineError>(string_views(strings@)),
{
    match try_get_line_strings(input) {
        Ok(strings) => strings,
        Err(_) => vstd::pervasive::unreached(),
    }
}

/// Reads a cache text: one record per line, each a quoted path and a quoted
/// decimal checksum. The text must be one that can be read: `try_parse_cache`
/// tells.
pub fn parse_cache(cache: String) -> (map: StringMap<u32>)
    requires
        parsed_cache(cache@) is Ok,
    ensures
        parsed_cache(cache@) == Ok::<Seq<(Seq<char>, u32)>, CacheError>(map.entries()),
{
    match try_parse_cache(cache) {
        Ok(map) => map,
        Err(_) => vstd::pervasive::unreached(),
    }
}

} // verus!
