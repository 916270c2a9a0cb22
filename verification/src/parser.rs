use vstd::prelude::*;
use vstd::slice::slice_subrange;

use crate::board::Board;
use crate::error::InvalidInput;
use crate::fen::{describes, fen_error, parse_fen_chars};
use crate::position::Outcome;
use crate::text::{chars_of, equals, find, matches_at, occurs_at, rfind_char};

verus! {

/// The two formats in which labelled positions are written, one position to a line.
#[derive(Debug, Clone, Copy, PartialEq, Eq, Structural)]
pub enum Format {
    /// A position, the mark `c9` and the result of the game in quotes.
    Epd,
    /// A position followed by its label in square brackets.
    Book,
}

/// Whether `s` ends with `suffix`.
pub open spec fn ends_with(s: Seq<char>, suffix: Seq<char>) -> bool {
    s.len() >= suffix.len() && occurs_at(s, suffix, s.len() - suffix.len())
}

/// The format that the name of a file tells by its extension: `.epd` for an
/// EPD file and `.book` for a book file, in lower case. No other name tells a
/// format.
pub open spec fn format_of(path: Seq<char>) -> Option<Format> {
    if ends_with(path, seq!['.', 'e', 'p', 'd']) {
        Some(Format::Epd)
    } else if ends_with(path, seq!['.', 'b', 'o', 'o', 'k']) {
        Some(Format::Book)
    } else {
        None
    }
}

/// The text that parts the position from the result in a line of an EPD file.
pub open spec fn epd_mark() -> Seq<char> {
    seq![' ', 'c', '9', ' ']
}

/// The first place where `pattern` stands in `s`, if it stands anywhere.
pub open spec fn first_occurrence(s: Seq<char>, pattern: Seq<char>) -> Option<int> {
    if exists|i: int| occurs_at(s, pattern, i) {
        Some(
            choose|i: int|
                occurs_at(s, pattern, i) && forall|j: int| 0 <= j < i ==> !occurs_at(s, pattern, j),
        )
    } else {
        None
    }
}

/// The last place where the character `c` stands in `s`, if it stands anywhere.
pub open spec fn last_index_of(s: Seq<char>, c: char) -> Option<int> {
    if exists|i: int| 0 <= i < s.len() && s[i] == c {
        Some(
            choose|i: int|
                0 <= i < s.len() && s[i] == c && forall|j: int| i < j < s.len() ==> s[j] != c,
        )
    } else {
        None
    }
}

/// The position and the result of a line of an EPD file: what stands before
/// the first separator, and what stands after it.
pub open spec fn epd_parts(line: Seq<char>) -> Option<(Seq<char>, Seq<char>)> {
    match first_occurrence(line, epd_mark()) {
        Some(i) => Some((line.take(i), line.skip(i + 4))),
        None => None,
    }
}

/// The outcome that the result of a line of an EPD file names: `"1-0";` for a
/// win of White, `"0-1";` for a loss and `"1/2-1/2";` for a draw.
pub open spec fn epd_outcome(label: Seq<char>) -> Option<Outcome> {
    if label == seq!['"', '1', '-', '0', '"', ';'] {
        Some(Outcome::Win)
    } else if label == seq!['"', '0', '-', '1', '"', ';'] {
        Some(Outcome::Loss)
    } else if label == seq!['"', '1', '/', '2', '-', '1', '/', '2', '"', ';'] {
        Some(Outcome::Draw)
    } else {
        None
    }
}

/// Why a line of an EPD file cannot be read, or `None` where it can.
pub open spec fn epd_error(line: Seq<char>) -> Option<InvalidInput> {
    match epd_parts(line) {
        None => Some(InvalidInput::Separator),
        Some((fen, label)) => if epd_outcome(label) is None {
            Some(InvalidInput::Label)
        } else {
            fen_error(fen)
        },
    }
}

/// The position and the label of a line of a book file: what stands before
/// the last blank, and what stands after it.
pub open spec fn book_parts(line: Seq<char>) -> Option<(Seq<char>, Seq<char>)> {
    match last_index_of(line, ' ') {
        Some(i) => Some((line.take(i), line.skip(i + 1))),
        None => None,
    }
}

/// The outcome that the label of a line of a book file names: `[1.0]` for a
/// win of White, `[0.0]` for a loss and `[0.5]` for a draw.
pub open spec fn book_outcome(label: Seq<char>) -> Option<Outcome> {
    if label == seq!['[', '1', '.', '0', ']'] {
        Some(Outcome::Win)
    } else if label == seq!['[', '0', '.', '0', ']'] {
        Some(Outcome::Loss)
    } else if label == seq!['[', '0', '.', '5', ']'] {
        Some(Outcome::Draw)
    } else {
        None
    }
}

/// Why a line of a book file cannot be read, or `None` where it can.
pub open spec fn book_error(line: Seq<char>) -> Option<InvalidInput> {
    match book_parts(line) {
        None => Some(InvalidInput::Separator),
        Some((fen, label)) => if book_outcome(label) is None {
            Some(InvalidInput::Label)
        } else {
            fen_error(fen)
        },
    }
}

/// Whether `chars` ends with `suffix`.
fn has_suffix(chars: &[char], suffix: &[char]) -> (r: bool)
    ensures
        r == ends_with(chars@, suffix@),
{
    if chars.len() < suffix.len() {
        return false;
    }
    matches_at(chars, suffix, chars.len() - suffix.len())
}

/// Tells the format of a file from its name, by the extension and by nothing
/// else: a name that ends in `.epd` is an EPD file, one that ends in `.book`
/// is a book file, and any other name is refused.
pub fn file_format(path: &str) -> (r: Result<Format, InvalidInput>)
    ensures
        match r {
            Ok(format) => format_of(path@) == Some(format),
            Err(e) => e == InvalidInput::Extension && format_of(path@) is None,
        },
{
    let chars = chars_of(path);
    let epd: [char; 4] = ['.', 'e', 'p', 'd'];
    let book: [char; 5] = ['.', 'b', 'o', 'o', 'k'];
    assert(epd@ =~= seq!['.', 'e', 'p', 'd']);
    assert(book@ =~= seq!['.', 'b', 'o', 'o', 'k']);
    if has_suffix(chars.as_slice(), epd.as_slice()) {
        Ok(Format::Epd)
    } else if has_suffix(chars.as_slice(), book.as_slice()) {
        Ok(Format::Book)
    } else {
        Err(InvalidInput::Extension)
    }
}

/// Reads the result of a line of an EPD file.
fn read_epd_outcome(label: &[char]) -> (r: Option<Outcome>)
    ensures
        r == epd_outcome(label@),
{
    let win: [char; 6] = ['"', '1', '-', '0', '"', ';'];
    let loss: [char; 6] = ['"', '0', '-', '1', '"', ';'];
    let draw: [char; 10] = ['"', '1', '/', '2', '-', '1', '/', '2', '"', ';'];
    assert(win@ =~= seq!['"', '1', '-', '0', '"', ';']);
    assert(loss@ =~= seq!['"', '0', '-', '1', '"', ';']);
    assert(draw@ =~= seq!['"', '1', '/', '2', '-', '1', '/', '2', '"', ';']);
    if equals(label, win.as_slice()) {
        Some(Outcome::Win)
    } else if equals(label, loss.as_slice()) {
        Some(Outcome::Loss)
    } else if equals(label, draw.as_slice()) {
        Some(Outcome::Draw)
    } else {
        None
    }
}

/// Reads the label of a line of a book file.
fn read_book_outcome(label: &[char]) -> (r: Option<Outcome>)
    ensures
        r == book_outcome(label@),
{
    let win: [char; 5] = ['[', '1', '.', '0', ']'];
    let loss: [char; 5] = ['[', '0', '.', '0', ']'];
    let draw: [char; 5] = ['[', '0', '.', '5', ']'];
    assert(win@ =~= seq!['[', '1', '.', '0', ']']);
    assert(loss@ =~= seq!['[', '0', '.', '0', ']']);
    assert(draw@ =~= seq!['[', '0', '.', '5', ']']);
    if equals(label, win.as_slice()) {
        Some(Outcome::Win)
    } else if equals(label, loss.as_slice()) {
        Some(Outcome::Loss)
    } else if equals(label, draw.as_slice()) {
        Some(Outcome::Draw)
    } else {
        None
    }
}

/// Reads a line of an EPD file, such as
/// `r1b2rk1/1pq2pbp/3p1np1/2p1n3/NPP1p3/P3P3/1BQPBPPP/R1N2RK1 b - - c9 "1-0";`
/// and returns the board of its position and the outcome of its game.
pub fn epd_parser(line: &str) -> (r: Result<(Board, Outcome), InvalidInput>)
    ensures
        match r {
            Ok((board, outcome)) => {
                &&& epd_error(line@) is None
                &&& describes(epd_parts(line@).unwrap().0, board)
                &&& epd_outcome(epd_parts(line@).unwrap().1) == Some(outcome)
            },
            Err(e) => epd_error(line@) == Some(e),
        },
{
    let chars = chars_of(line);
    let chars = chars.as_slice();
    let mark: [char; 4] = [' ', 'c', '9', ' '];
    assert(mark@ =~= epd_mark());
    let at = match find(chars, mark.as_slice()) {
        None => {
            return Err(InvalidInput::Separator);
        },
        Some(at) => at,
    };
    assert(mark@.len() == 4);
    assert(occurs_at(chars@, mark@, at as int));
    assert(at + 4 <= chars@.len());
    assert(first_occurrence(chars@, epd_mark()) == Some(at as int));
    let fen = slice_subrange(chars, 0, at);
    let label = slice_subrange(chars, at + 4, chars.len());
    assert(fen@ == chars@.take(at as int));
    assert(label@ == chars@.skip(at + 4));
    let outcome = match read_epd_outcome(label) {
        None => {
            return Err(InvalidInput::Label);
        },
        Some(outcome) => outcome,
    };
    match parse_fen_chars(fen) {
        Ok(board) => Ok((board, outcome)),
        Err(e) => Err(e),
    }
}

/// Reads a line of a book file, such as
/// `1r4k1/6p1/7p/4p3/R7/3rPNP1/1b3P1P/5RK1 b - - 0 1 [1.0]`
/// and returns the board of its position and the outcome of its game.
pub fn book_parser(line: &str) -> (r: Result<(Board, Outcome), InvalidInput>)
    ensures
        match r {
            Ok((board, outcome)) => {
                &&& book_error(line@) is None
                &&& describes(book_parts(line@).unwrap().0, board)
                &&& book_outcome(book_parts(line@).unwrap().1) == Some(outcome)
            },
            Err(e) => book_error(line@) == Some(e),
        },
{
    let chars = chars_of(line);
    let chars = chars.as_slice();
    let at = match rfind_char(chars, ' ') {
        None => {
            return Err(InvalidInput::Separator);
        },
        Some(at) => at,
    };
    assert(last_index_of(chars@, ' ') == Some(at as int));
    let fen = slice_subrange(chars, 0, at);
    let label = slice_subrange(chars, at + 1, chars.len());
    assert(fen@ == chars@.take(at as int));
    assert(label@ == chars@.skip(at + 1));
    let outcome = match read_book_outcome(label) {
        None => {
            return Err(InvalidInput::Label);
        },
        Some(outcome) => outcome,
    };
    match parse_fen_chars(fen) {
        Ok(board) => Ok((board, outcome)),
        Err(e) => Err(e),
    }
}

} // verus!
