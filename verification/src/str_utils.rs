//! The tokenizers and the cache text with a line tokenizer that reads line
//! feeds past the end of its input: it always reads at least one character,
//! and a line feed at the very end of the input ends it.
use crate::str::{
    cache_line, cache_record, cache_records, escapable, escape, escape_char, flush, has_other,
    keep, lemma_decimal_plain, lemma_escape_shape, lemma_split_whole, lines, quoted_pieces,
    trim_quotes, CacheError, LineError,
};
use crate::string_map::{insert_entry, StringMap};
use crate::text::{
    chars_of, decimal, lemma_decimal_round_trip, lemma_views_push, string_views, strings_of,
    views,
};
use vstd::prelude::*;

verus! {

/// The character at `i`, or a line feed past the end.
pub open spec fn padded(s: Seq<char>, i: int) -> char {
    if 0 <= i < s.len() {
        s[i]
    } else {
        '\n'
    }
}

/// What the tokenizer holds between two rounds: the strings found so far,
/// the string being read, and whether a quote is open.
pub ghost struct Scan {
    pub strings: Seq<Seq<char>>,
    pub current: Seq<char>,
    pub in_string: bool,
}

/// One round of the tokenizer at index `i`: where it goes on, and what it
/// holds then.
///
/// Outside quotes a space ends the string being read. A backslash takes the
/// `"`, `'` or `\` behind it literally and fails before anything else. A quote
/// opens or closes a quoted string; two quotes side by side are an empty
/// string outside quotes and a failure inside. Every other character belongs
/// to the string being read.
pub open spec fn round(s: Seq<char>, i: int, scan: Scan) -> Result<(int, Scan), LineError> {
    let c = padded(s, i);
    let next = padded(s, i + 1);
    if c == ' ' && !scan.in_string {
        Ok(
            (
                i + 1,
                Scan {
                    strings: flush(scan.strings, scan.current),
                    current: Seq::empty(),
                    ..scan
                },
            ),
        )
    } else if c == '\\' {
        if escapable(next) {
            Ok((i + 2, Scan { current: scan.current.push(next), ..scan }))
        } else {
            Err(LineError::UnknownEscape)
        }
    } else if c == '"' {
        if next == '"' {
            if scan.in_string {
                Err(LineError::UnescapedQuote)
            } else {
                Ok((i + 2, Scan { strings: scan.strings.push(Seq::empty()), ..scan }))
            }
        } else if scan.in_string {
            Ok(
                (
                    i + 1,
                    Scan {
                        strings: flush(scan.strings, scan.current),
                        current: Seq::empty(),
                        in_string: false,
                    },
                ),
            )
        } else {
            Ok((i + 1, Scan { in_string: true, ..scan }))
        }
    } else {
        Ok((i + 1, Scan { current: scan.current.push(c), ..scan }))
    }
}

/// Whether the tokenizer stops before index `i`: the input has no character
/// behind `i`, and what stands at `i` is a line feed or nothing.
pub open spec fn stops_at(s: Seq<char>, i: int) -> bool {
    i + 1 >= s.len() && padded(s, i) == '\n'
}

/// The tokenizer's rounds from index `i` on.
pub open spec fn scan_padded(s: Seq<char>, i: int, scan: Scan) -> Result<
    Seq<Seq<char>>,
    LineError,
>
    decreases s.len() - i,
{
    match round(s, i, scan) {
        Err(e) => Err(e),
        Ok((next, after)) => if i < next < s.len() && !stops_at(s, next) {
            scan_padded(s, next, after)
        } else {
            Ok(flush(after.strings, after.current))
        },
    }
}

/// The strings of a line as this module's tokenizer finds them.
pub open spec fn padded_strings(s: Seq<char>) -> Result<Seq<Seq<char>>, LineError> {
    scan_padded(
        s,
        0,
        Scan { strings: Seq::empty(), current: Seq::empty(), in_string: false },
    )
}

/// The character at `i`, or a line feed past the end.
fn char_or_feed(s: &Vec<char>, i: usize) -> (c: char)
    ensures
        c == padded(s@, i as int),
{
    if i < s.len() {
        s[i]
    } else {
        '\n'
    }
}

/// Ends the string being read, if it has characters.
fn flush_current(strings: &mut Vec<Vec<char>>, current: &mut Vec<char>)
    ensures
        views(final(strings)@) == flush(views(old(strings)@), old(current)@),
        final(current)@ == Seq::<char>::empty(),
{
    if current.len() > 0 {
        let mut done: Vec<char> = Vec::new();
        core::mem::swap(current, &mut done);
        proof {
            lemma_views_push(strings@, done);
        }
        strings.push(done);
    }
}

/// Splits a line into strings as a shell would, reading line feeds past the
/// end of the line.
pub fn scan_padded_strings(s: &Vec<char>) -> (result: Result<Vec<Vec<char>>, LineError>)
    ensures
        match result {
            Ok(strings) => padded_strings(s@) == Ok::<Seq<Seq<char>>, LineError>(views(strings@)),
            Err(e) => padded_strings(s@) == Err::<Seq<Seq<char>>, LineError>(e),
        },
{
    let mut strings: Vec<Vec<char>> = Vec::new();
    let mut current: Vec<char> = Vec::new();
    let mut in_string = false;
    let mut i: usize = 0;
    assert(views(strings@) =~= Seq::<Seq<char>>::empty());
    loop
        invariant_except_break
            scan_padded(
                s@,
                i as int,
                Scan { strings: views(strings@), current: current@, in_string },
            ) == padded_strings(s@),
        invariant
            i == 0 || i < s.len(),
        ensures
            padded_strings(s@) == Ok::<Seq<Seq<char>>, LineError>(
                flush(views(strings@), current@),
            ),
        decreases s.len() - i,
    {
        let c = char_or_feed(s, i);
        let next = if i < s.len() {
            char_or_feed(s, i + 1)
        } else {
            '\n'
        };
        let mut width: usize = 1;
        if c == ' ' && !in_string {
            flush_current(&mut strings, &mut current);
        } else if c == '\\' {
            if next == '"' || next == '\'' || next == '\\' {
                current.push(next);
                width = 2;
            } else {
                return Err(LineError::UnknownEscape);
            }
        } else if c == '"' {
            if next == '"' {
                if in_string {
                    return Err(LineError::UnescapedQuote);
                }
                let empty: Vec<char> = Vec::new();
                proof {
                    lemma_views_push(strings@, empty);
                }
                strings.push(empty);
                width = 2;
            } else if in_string {
                flush_current(&mut strings, &mut current);
                in_string = false;
            } else {
                in_string = true;
            }
        } else {
            current.push(c);
        }
        if i >= s.len() || s.len() - i <= width {
            break;
        }
        let after = i + width;
        if after + 1 >= s.len() && s[after] == '\n' {
            break;
        }
        i = after;
    }
    flush_current(&mut strings, &mut current);
    Ok(strings)
}

/// The pieces of the input between double quotes, without those that hold
/// nothing but spaces and carriage returns.
pub fn get_strings(input: String) -> (strings: Vec<String>)
    ensures
        string_views(strings@) == quoted_pieces(input@),
{
    crate::str::get_strings(input)
}

/// What a result of strings says, by the strings' views.
pub open spec fn strings_result(r: Result<Vec<String>, LineError>) -> Result<
    Seq<Seq<char>>,
    LineError,
> {
    match r {
        Ok(strings) => Ok(string_views(strings@)),
        Err(e) => Err(e),
    }
}

/// Splits a line into strings as a shell would: at spaces, with double
/// quotes around what holds spaces, and `\"`, `\'`, `\\` for the characters
/// themselves. A line feed at the very end of the input is not part of it.
pub fn try_get_line_strings(input: String) -> (result: Result<Vec<String>, LineError>)
    ensures
        strings_result(result) == padded_strings(input@),
{
    let s = chars_of(input.as_str());
    match scan_padded_strings(&s) {
        Ok(strings) => Ok(strings_of(&strings)),
        Err(e) => Err(e),
    }
}

/// One record of the cache text for a target path and its checksum.
pub fn get_cache_line(kvp: (&String, &u32)) -> (line: String)
    ensures
        line@ == cache_line(kvp.0@, *kvp.1),
{
    crate::str::get_cache_line(kvp)
}

/// Reads a cache text: one record per line, each a quoted path and a quoted
/// decimal checksum, split by this module's tokenizer.
pub fn try_parse_cache(cache: String) -> (result: Result<StringMap<u32>, CacheError>)
    ensures
        match result {
            Ok(map) => cache_records(lines(cache@), true) == Ok::<
                Seq<(Seq<char>, u32)>,
                CacheError,
            >(map.entries()),
            Err(e) => cache_records(lines(cache@), true) == Err::<
                Seq<(Seq<char>, u32)>,
                CacheError,
            >(e),
        },
{
    crate::str::parse_cache_lines(cache.as_str(), true)
}

/// Inside quotes, the tokenizer reads an escaped text as the text itself,
/// as long as something other than a last line feed stands behind it.
pub proof fn lemma_scan_padded_escaped(
    s: Seq<char>,
    i: int,
    p: Seq<char>,
    strings: Seq<Seq<char>>,
    current: Seq<char>,
)
    requires
        0 <= i,
        i + escape(p).len() < s.len(),
        i + escape(p).len() + 1 < s.len() || s[i + escape(p).len()] != '\n',
        s.subrange(i, i + escape(p).len()) == escape(p),
    ensures
        scan_padded(s, i, Scan { strings, current, in_string: true }) == scan_padded(
            s,
            i + escape(p).len(),
            Scan { strings, current: current + p, in_string: true },
        ),
    decreases p.len(),
{
    if p.len() == 0 {
        assert(current + p =~= current);
    } else {
        let front = p.drop_last();
        let c = p.last();
        let whole = escape(p);
        let head = escape(front);
        let j = i + head.len();
        let h = head.len() as int;
        assert(s.subrange(i, j) =~= head) by {
            assert forall|k: int| 0 <= k < head.len() implies s.subrange(i, j)[k] == head[k] by {
                assert(s.subrange(i, i + whole.len())[k] == whole[k]);
            }
        }
        lemma_scan_padded_escaped(s, i, front, strings, current);
        assert(s.subrange(i, i + whole.len())[h] == whole[h]);
        assert(whole[h] == escape_char(c)[0]);
        if escapable(c) {
            assert(s.subrange(i, i + whole.len())[h + 1] == whole[h + 1]);
            assert(whole[h + 1] == escape_char(c)[1]);
            assert(s[j] == '\\' && s[j + 1] == c);
        } else {
            assert(s[j] == c);
        }
        assert((current + front).push(c) =~= current + p);
    }
}

/// Writing a cache record and reading it again with this module's tokenizer
/// gives the path and the checksum back: for every path that is not empty,
/// has no double quote at its start or end and holds no line feed, and for
/// every checksum.
pub proof fn lemma_padded_cache_line_round_trip(path: Seq<char>, crc: u32)
    requires
        path.len() > 0,
        path[0] != '"',
        path.last() != '"',
        forall|i: int| 0 <= i < path.len() ==> path[i] != '\n',
    ensures
        cache_records(lines(cache_line(path, crc)), true) == Ok::<
            Seq<(Seq<char>, u32)>,
            CacheError,
        >(seq![(path, crc)]),
        cache_record(cache_line(path, crc), true) == Ok::<(Seq<char>, u32), CacheError>(
            (path, crc),
        ),
{
    let escaped = escape(path);
    let digits = decimal(crc as nat);
    let line = cache_line(path, crc);
    let a: int = escaped.len() as int + 1;
    let b: int = a + 3;
    let c: int = b + digits.len();
    lemma_escape_shape(path);
    lemma_decimal_plain(crc as nat);
    lemma_decimal_round_trip(crc as nat);
    assert(trim_quotes(path) == path);
    assert(line.len() == c + 1);
    assert(line[0] == '"');
    assert(line.subrange(1, a) =~= escaped);
    assert(line[a] == '"' && line[a + 1] == ' ' && line[a + 2] == '"');
    assert(line.subrange(b, c) =~= digits);
    assert(line[c] == '"');
    assert(line[1] == escaped[0]);
    assert(line[b] == digits[0]);
    let none = Seq::<Seq<char>>::empty();
    let blank = Seq::<char>::empty();
    let start = Scan { strings: none, current: blank, in_string: false };
    // the opening quote, the escaped path, and the quote that closes it
    assert(scan_padded(line, 0, start) == scan_padded(
        line,
        1,
        Scan { strings: none, current: blank, in_string: true },
    ));
    lemma_scan_padded_escaped(line, 1, path, none, blank);
    assert(blank + path =~= path);
    assert(flush(none, path) =~= seq![path]);
    let outside = Scan { strings: seq![path], current: blank, in_string: false };
    assert(scan_padded(line, a, Scan { strings: none, current: path, in_string: true })
        == scan_padded(line, a + 1, outside));
    // the space between, and the quoted checksum
    assert(flush(seq![path], blank) == seq![path]);
    assert(scan_padded(line, a + 1, outside) == scan_padded(line, a + 2, outside));
    assert(scan_padded(line, a + 2, outside) == scan_padded(
        line,
        b,
        Scan { strings: seq![path], current: blank, in_string: true },
    ));
    lemma_scan_padded_escaped(line, b, digits, seq![path], blank);
    assert(blank + digits =~= digits);
    assert(flush(seq![path], digits) =~= seq![path, digits]);
    assert(scan_padded(line, c, Scan { strings: seq![path], current: digits, in_string: true })
        == Ok::<Seq<Seq<char>>, LineError>(seq![path, digits]));
    assert(padded_strings(line) == Ok::<Seq<Seq<char>>, LineError>(seq![path, digits]));
    // both strings stay, and the second one is the checksum
    let fields = seq![path, digits];
    assert(keep(fields, crate::str::nothing()) == fields) by {
        assert(fields.drop_last() =~= seq![path]);
        assert(seq![path].drop_last() =~= none);
        assert(has_other(path, crate::str::nothing())) by {
            assert(!crate::str::nothing().contains(path[0]));
        }
        assert(has_other(digits, crate::str::nothing())) by {
            assert(!crate::str::nothing().contains(digits[0]));
        }
        assert(seq![path].last() == path);
        assert(keep(none, crate::str::nothing()) == none);
        assert(keep(seq![path], crate::str::nothing()) =~= seq![path]);
        assert(fields.last() == digits);
        assert(keep(fields, crate::str::nothing()) =~= fields);
    }
    assert(cache_record(line, true) == Ok::<(Seq<char>, u32), CacheError>((path, crc)));
    // the line is the whole text
    assert forall|i: int| 0 <= i < line.len() implies line[i] != '\n' by {
        if 1 <= i < a {
            assert(line[i] == escaped[i - 1]);
        } else if b <= i < c {
            assert(line[i] == digits[i - b]);
        }
    }
    lemma_split_whole(line, '\n', '\n');
    assert(lines(line) =~= seq![line]);
    assert(seq![line].drop_last() =~= Seq::<Seq<char>>::empty());
    assert(seq![line].last() == line);
    assert(cache_records(Seq::<Seq<char>>::empty(), true) == Ok::<
        Seq<(Seq<char>, u32)>,
        CacheError,
    >(Seq::empty()));
    assert(insert_entry(Seq::<(Seq<char>, u32)>::empty(), path, crc) =~= seq![(path, crc)]);
}

/// Splits a line into strings as a shell would, reading line feeds past the
/// end of the line. The line must be one that can be split:
/// `try_get_line_strings` tells.
pub fn get_line_strings(input: String) -> (strings: Vec<String>)
    requires
        padded_strings(input@) is Ok,
    ensures
        padded_strings(input@) == Ok::<Seq<Seq<char>>, LineError>(string_views(strings@)),
{
    match try_get_line_strings(input) {
        Ok(strings) => strings,
        Err(_) => vstd::pervasive::unreached(),
    }
}

/// Reads a cache text, split by this module's tokenizer. The text must be
/// one that can be read: `try_parse_cache` tells.
pub fn parse_cache(cache: String) -> (map: StringMap<u32>)
    requires
        cache_records(lines(cache@), true) is Ok,
    ensures
        cache_records(lines(cache@), true) == Ok::<Seq<(Seq<char>, u32)>, CacheError>(
            map.entries(),
        ),
{
    match try_parse_cache(cache) {
        Ok(map) => map,
        Err(_) => vstd::pervasive::unreached(),
    }
}

} // verus!
