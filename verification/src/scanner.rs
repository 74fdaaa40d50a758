//! The lexical layer of shader preprocessing: comments, and the directives
//! `#include` and `#pragma once`.
//!
//! Only these two directives are acted on. Every other directive is left
//! in the text for the driver's compiler. Comments are blanked out, so that
//! the text keeps its lines.

use crate::text::{char_is_letter, char_is_space, is_letter, is_space};
use vstd::prelude::*;

verus! {

/// Where the block comment ends whose text starts at `pos`: just after the
/// first `*/`, or at the end of the text if there is none.
pub open spec fn block_comment_end(text: Seq<char>, pos: int) -> int
    decreases text.len() - pos,
{
    if pos < 0 || pos >= text.len() {
        pos
    } else if text[pos] == '*' && pos + 1 < text.len() && text[pos + 1] == '/' {
        pos + 2
    } else {
        block_comment_end(text, pos + 1)
    }
}

/// The text from `from` to `to` with everything but line feeds replaced by
/// spaces.
pub open spec fn blanked(text: Seq<char>, from: int, to: int) -> Seq<char> {
    Seq::new(
        (to - from) as nat,
        |i: int|
            if text[from + i] == '\n' {
                '\n'
            } else {
                ' '
            },
    )
}

/// What a scan yields: the text it puts out and where it ends.
pub struct Scan {
    pub out: Seq<char>,
    pub end: int,
}

/// The rest of a line comment whose text starts at `pos`. The comment runs
/// to the end of the line; a backslash takes the character after it along,
/// so that a backslash at the end of a line carries the comment over to the
/// next line. Of the comment only its line feeds are put out.
pub open spec fn line_comment(text: Seq<char>, pos: int) -> Scan
    decreases text.len() - pos,
{
    if pos < 0 || pos >= text.len() {
        Scan { out: Seq::empty(), end: pos }
    } else if text[pos] == '\n' {
        Scan { out: seq!['\n'], end: pos + 1 }
    } else if text[pos] == '\\' {
        if pos + 1 >= text.len() {
            Scan { out: Seq::empty(), end: pos + 1 }
        } else {
            let rest = line_comment(text, pos + 2);
            if text[pos + 1] == '\n' {
                Scan { out: seq!['\n'] + rest.out, end: rest.end }
            } else {
                rest
            }
        }
    } else {
        line_comment(text, pos + 1)
    }
}

/// Where the blanks end that start at `pos`, without leaving the line:
/// white space, block comments, and backslashes that are followed by a
/// line feed.
pub open spec fn blanks_to_eol_end(text: Seq<char>, pos: int) -> int
    decreases text.len() - pos,
{
    if pos < 0 || pos >= text.len() {
        pos
    } else if text[pos] == '\n' {
        pos
    } else if is_space(text[pos]) {
        blanks_to_eol_end(text, pos + 1)
    } else if text[pos] == '\\' {
        if pos + 1 < text.len() && text[pos + 1] == '\n' {
            blanks_to_eol_end(text, pos + 2)
        } else {
            pos
        }
    } else if text[pos] == '/' {
        if pos + 1 < text.len() && text[pos + 1] == '*' {
            let end = block_comment_end(text, pos + 2);
            if pos < end <= text.len() {
                blanks_to_eol_end(text, end)
            } else {
                pos
            }
        } else {
            pos
        }
    } else {
        pos
    }
}

/// A word that was read, and where it ends.
pub struct Word {
    pub word: Seq<char>,
    pub end: int,
}

/// The name of a directive, read from `pos` on, with `word` read so far.
/// The name is a run of alphabetic characters. White space and block
/// comments before it are skipped, and a backslash followed by a line
/// break joins two lines anywhere in it. A backslash followed by anything
/// else leaves no name.
pub open spec fn directive_name(text: Seq<char>, pos: int, word: Seq<char>) -> Option<Word>
    decreases text.len() - pos,
{
    if pos < 0 || pos >= text.len() {
        Some(Word { word, end: pos })
    } else {
        let c = text[pos];
        if c == '\n' || c == '\r' {
            Some(Word { word, end: pos })
        } else if is_letter(c) {
            directive_name(text, pos + 1, word.push(c))
        } else if is_space(c) {
            if word.len() > 0 {
                Some(Word { word, end: pos })
            } else {
                directive_name(text, pos + 1, word)
            }
        } else if c == '\\' {
            if pos + 1 < text.len() && text[pos + 1] == '\n' {
                directive_name(text, pos + 2, word)
            } else if pos + 2 < text.len() && text[pos + 1] == '\r' && text[pos + 2] == '\n' {
                directive_name(text, pos + 3, word)
            } else {
                None
            }
        } else if c == '/' {
            if word.len() == 0 && pos + 1 < text.len() && text[pos + 1] == '*' {
                let end = block_comment_end(text, pos + 2);
                if pos < end <= text.len() {
                    directive_name(text, end, word)
                } else {
                    None
                }
            } else {
                Some(Word { word, end: pos })
            }
        } else {
            Some(Word { word, end: pos })
        }
    }
}

/// The path between delimiters, read from `pos` on, with `path` read so
/// far. It ends at `right`; a backslash and the character after it are
/// left out. There is none if the line or the text ends first.
pub open spec fn quoted_path(text: Seq<char>, pos: int, right: char, path: Seq<char>) -> Option<
    Word,
>
    decreases text.len() - pos,
{
    if pos < 0 || pos >= text.len() {
        None
    } else {
        let c = text[pos];
        if c == '\n' {
            None
        } else if c == '\\' {
            if pos + 1 >= text.len() {
                None
            } else {
                quoted_path(text, pos + 2, right, path)
            }
        } else if c == right {
            Some(Word { word: path, end: pos + 1 })
        } else {
            quoted_path(text, pos + 1, right, path.push(c))
        }
    }
}

/// What stands at a position of a shader's text.
pub enum Piece {
    /// Text to put out.
    Text { out: Seq<char>, end: int },
    /// A directive to include the file named by `path`.
    Include { path: Seq<char>, end: int },
    /// The directive that a file is to be included only once.
    PragmaOnce { end: int },
    /// An include directive without a well-formed path.
    ParseError,
}

pub open spec fn include_word() -> Seq<char> {
    seq!['i', 'n', 'c', 'l', 'u', 'd', 'e']
}

pub open spec fn pragma_word() -> Seq<char> {
    seq!['p', 'r', 'a', 'g', 'm', 'a']
}

pub open spec fn once_word() -> Seq<char> {
    seq!['o', 'n', 'c', 'e']
}

/// The rest of an include directive, from just after its name: blanks,
/// then the path between double quotes or between angle brackets.
pub open spec fn include_directive(text: Seq<char>, pos: int) -> Piece {
    let open = blanks_to_eol_end(text, pos);
    if 0 <= open < text.len() && (text[open] == '"' || text[open] == '<') {
        let right = if text[open] == '"' {
            '"'
        } else {
            '>'
        };
        match quoted_path(text, open + 1, right, Seq::empty()) {
            Some(w) => Piece::Include { path: w.word, end: w.end },
            None => Piece::ParseError,
        }
    } else {
        Piece::ParseError
    }
}

/// The directive, if any, whose `#` stands just before `pos`. Anything but
/// an include directive and `#pragma once` leaves the `#` as text.
pub open spec fn directive(text: Seq<char>, pos: int) -> Piece {
    let plain = Piece::Text { out: seq!['#'], end: pos };
    match directive_name(text, pos, Seq::empty()) {
        Some(name) => if name.word == include_word() {
            include_directive(text, name.end)
        } else if name.word == pragma_word() {
            match directive_name(text, name.end, Seq::empty()) {
                Some(what) => if what.word == once_word() {
                    Piece::PragmaOnce { end: blanks_to_eol_end(text, what.end) }
                } else {
                    plain
                },
                None => plain,
            }
        } else {
            plain
        },
        None => plain,
    }
}

/// What stands at `pos`: a comment, which is put out blanked; a directive;
/// or one character of text.
pub open spec fn piece_at(text: Seq<char>, pos: int) -> Piece {
    let c = text[pos];
    let next = if pos + 1 < text.len() {
        Some(text[pos + 1])
    } else {
        None
    };
    if c == '/' && next == Some('*') {
        let end = block_comment_end(text, pos + 2);
        Piece::Text { out: blanked(text, pos, end), end }
    } else if c == '/' && next == Some('/') {
        let rest = line_comment(text, pos + 2);
        Piece::Text { out: rest.out, end: rest.end }
    } else if c == '#' {
        directive(text, pos + 1)
    } else {
        Piece::Text { out: seq![c], end: pos + 1 }
    }
}

/// The number of line feeds before `pos`.
pub open spec fn newlines(text: Seq<char>, pos: int) -> nat
    decreases pos,
{
    if pos <= 0 || pos > text.len() {
        0
    } else {
        newlines(text, pos - 1) + if text[pos - 1] == '\n' {
            1nat
        } else {
            0nat
        }
    }
}

pub proof fn lemma_block_comment_end_bounds(text: Seq<char>, pos: int)
    requires
        0 <= pos <= text.len(),
    ensures
        pos <= block_comment_end(text, pos) <= text.len(),
    decreases text.len() - pos,
{
    if pos < text.len() && !(text[pos] == '*' && pos + 1 < text.len() && text[pos + 1] == '/') {
        lemma_block_comment_end_bounds(text, pos + 1);
    }
}

pub proof fn lemma_line_comment_bounds(text: Seq<char>, pos: int)
    requires
        0 <= pos <= text.len(),
    ensures
        pos <= line_comment(text, pos).end <= text.len(),
    decreases text.len() - pos,
{
    if pos < text.len() && text[pos] != '\n' {
        if text[pos] == '\\' {
            if pos + 1 < text.len() {
                lemma_line_comment_bounds(text, pos + 2);
            }
        } else {
            lemma_line_comment_bounds(text, pos + 1);
        }
    }
}

pub proof fn lemma_blanks_to_eol_bounds(text: Seq<char>, pos: int)
    requires
        0 <= pos <= text.len(),
    ensures
        pos <= blanks_to_eol_end(text, pos) <= text.len(),
    decreases text.len() - pos,
{
    if pos < text.len() && text[pos] != '\n' {
        if is_space(text[pos]) {
            lemma_blanks_to_eol_bounds(text, pos + 1);
        } else if text[pos] == '\\' {
            if pos + 1 < text.len() && text[pos + 1] == '\n' {
                lemma_blanks_to_eol_bounds(text, pos + 2);
            }
        } else if text[pos] == '/' {
            if pos + 1 < text.len() && text[pos + 1] == '*' {
                lemma_block_comment_end_bounds(text, pos + 2);
                lemma_blanks_to_eol_bounds(text, block_comment_end(text, pos + 2));
            }
        }
    }
}

pub proof fn lemma_directive_name_bounds(text: Seq<char>, pos: int, word: Seq<char>)
    requires
        0 <= pos <= text.len(),
    ensures
        directive_name(text, pos, word) matches Some(w) ==> pos <= w.end <= text.len(),
    decreases text.len() - pos,
{
    if pos < text.len() {
        let c = text[pos];
        if c == '\n' || c == '\r' {
        } else if is_letter(c) {
            lemma_directive_name_bounds(text, pos + 1, word.push(c));
        } else if is_space(c) {
            if word.len() == 0 {
                lemma_directive_name_bounds(text, pos + 1, word);
            }
        } else if c == '\\' {
            if pos + 1 < text.len() && text[pos + 1] == '\n' {
                lemma_directive_name_bounds(text, pos + 2, word);
            } else if pos + 2 < text.len() && text[pos + 1] == '\r' && text[pos + 2] == '\n' {
                lemma_directive_name_bounds(text, pos + 3, word);
            }
        } else if c == '/' {
            if word.len() == 0 && pos + 1 < text.len() && text[pos + 1] == '*' {
                lemma_block_comment_end_bounds(text, pos + 2);
                lemma_directive_name_bounds(text, block_comment_end(text, pos + 2), word);
            }
        }
    }
}

pub proof fn lemma_quoted_path_bounds(text: Seq<char>, pos: int, right: char, path: Seq<char>)
    requires
        0 <= pos <= text.len(),
    ensures
        quoted_path(text, pos, right, path) matches Some(w) ==> pos < w.end <= text.len(),
    decreases text.len() - pos,
{
    if pos < text.len() {
        let c = text[pos];
        if c == '\n' {
        } else if c == '\\' {
            if pos + 1 < text.len() {
                lemma_quoted_path_bounds(text, pos + 2, right, path);
            }
        } else if c != right {
            lemma_quoted_path_bounds(text, pos + 1, right, path.push(c));
        }
    }
}

/// Every piece but a parse error ends after the position it stands at,
/// and within the text.
pub proof fn lemma_piece_advances(text: Seq<char>, pos: int)
    requires
        0 <= pos < text.len(),
    ensures
        match piece_at(text, pos) {
            Piece::Text { out, end } => pos < end <= text.len(),
            Piece::Include { path, end } => pos < end <= text.len(),
            Piece::PragmaOnce { end } => pos < end <= text.len(),
            Piece::ParseError => true,
        },
{
    let c = text[pos];
    if pos + 1 < text.len() {
        lemma_block_comment_end_bounds(text, pos + 2);
        lemma_line_comment_bounds(text, pos + 2);
    }
    if c == '#' {
        lemma_directive_name_bounds(text, pos + 1, Seq::empty());
        match directive_name(text, pos + 1, Seq::empty()) {
            Some(name) => {
                lemma_blanks_to_eol_bounds(text, name.end);
                let open = blanks_to_eol_end(text, name.end);
                if open < text.len() {
                    lemma_quoted_path_bounds(text, open + 1, '"', Seq::empty());
                    lemma_quoted_path_bounds(text, open + 1, '>', Seq::empty());
                }
                lemma_directive_name_bounds(text, name.end, Seq::empty());
                match directive_name(text, name.end, Seq::empty()) {
                    Some(what) => {
                        lemma_blanks_to_eol_bounds(text, what.end);
                    },
                    None => {},
                }
            },
            None => {},
        }
    }
}

/// Finds where the block comment ends whose text starts at `pos`.
pub fn scan_block_comment(text: &Vec<char>, pos: usize) -> (end: usize)
    requires
        pos <= text.len(),
    ensures
        end == block_comment_end(text@, pos as int),
        pos <= end <= text.len(),
{
    let mut i = pos;
    while i < text.len()
        invariant
            pos <= i <= text.len(),
            block_comment_end(text@, pos as int) == block_comment_end(text@, i as int),
        decreases text.len() - i,
    {
        if text[i] == '*' && i + 1 < text.len() && text[i + 1] == '/' {
            return i + 2;
        }
        i += 1;
    }
    i
}

/// Appends the text from `from` to `to` to `out`, blanked.
pub fn push_blanked(out: &mut Vec<char>, text: &Vec<char>, from: usize, to: usize)
    requires
        from <= to <= text.len(),
    ensures
        final(out)@ == old(out)@ + blanked(text@, from as int, to as int),
{
    let mut i = from;
    while i < to
        invariant
            from <= i <= to <= text.len(),
            out@ == old(out)@ + blanked(text@, from as int, i as int),
        decreases to - i,
    {
        let c = if text[i] == '\n' {
            '\n'
        } else {
            ' '
        };
        out.push(c);
        assert(out@ =~= old(out)@ + blanked(text@, from as int, i + 1));
        i += 1;
    }
}

/// Reads the rest of a line comment whose text starts at `pos`, and
/// appends its line feeds to `out`.
pub fn scan_line_comment(text: &Vec<char>, pos: usize, out: &mut Vec<char>) -> (end: usize)
    requires
        pos <= text.len(),
    ensures
        end == line_comment(text@, pos as int).end,
        pos <= end <= text.len(),
        final(out)@ == old(out)@ + line_comment(text@, pos as int).out,
{
    let mut i = pos;
    let ghost whole = line_comment(text@, pos as int);
    proof {
        lemma_line_comment_bounds(text@, pos as int);
        assert(out@ + whole.out =~= old(out)@ + whole.out);
    }
    while i < text.len()
        invariant
            pos <= i <= text.len(),
            whole == line_comment(text@, pos as int),
            whole.end == line_comment(text@, i as int).end,
            old(out)@ + whole.out == out@ + line_comment(text@, i as int).out,
            pos <= whole.end <= text.len(),
        decreases text.len() - i,
    {
        let ghost before = out@;
        let ghost rest = line_comment(text@, i as int);
        let c = text[i];
        if c == '\n' {
            out.push('\n');
            assert(out@ =~= before + rest.out);
            return i + 1;
        } else if c == '\\' {
            if i + 1 >= text.len() {
                assert(out@ =~= before + rest.out);
                return i + 1;
            }
            if text[i + 1] == '\n' {
                out.push('\n');
                proof {
                    let tail = line_comment(text@, i + 2);
                    assert(before + (seq!['\n'] + tail.out) =~= out@ + tail.out);
                }
            }
            i += 2;
        } else {
            i += 1;
        }
    }
    proof {
        assert(out@ =~= out@ + line_comment(text@, i as int).out);
    }
    i
}

/// Skips the blanks that start at `pos`, without leaving the line.
pub fn skip_blanks_to_eol(text: &Vec<char>, pos: usize) -> (end: usize)
    requires
        pos <= text.len(),
    ensures
        end == blanks_to_eol_end(text@, pos as int),
        pos <= end <= text.len(),
{
    let mut i = pos;
    while i < text.len()
        invariant
            pos <= i <= text.len(),
            blanks_to_eol_end(text@, pos as int) == blanks_to_eol_end(text@, i as int),
        decreases text.len() - i,
    {
        let c = text[i];
        if c == '\n' {
            return i;
        } else if char_is_space(c) {
            i += 1;
        } else if c == '\\' {
            if i + 1 < text.len() && text[i + 1] == '\n' {
                i += 2;
            } else {
                return i;
            }
        } else if c == '/' {
            if i + 1 < text.len() && text[i + 1] == '*' {
                i = scan_block_comment(text, i + 2);
            } else {
                return i;
            }
        } else {
            return i;
        }
    }
    i
}

/// Reads the name of a directive from `pos` on.
pub fn read_directive_name(text: &Vec<char>, pos: usize) -> (name: Option<(Vec<char>, usize)>)
    requires
        pos <= text.len(),
    ensures
        match name {
            Some((word, end)) => directive_name(text@, pos as int, Seq::empty()) == Some(
                Word { word: word@, end: end as int },
            ) && pos <= end <= text.len(),
            None => directive_name(text@, pos as int, Seq::empty()) is None,
        },
{
    let mut word: Vec<char> = Vec::new();
    let mut i = pos;
    while i < text.len()
        invariant
            pos <= i <= text.len(),
            directive_name(text@, pos as int, Seq::empty()) == directive_name(
                text@,
                i as int,
                word@,
            ),
        decreases text.len() - i,
    {
        let c = text[i];
        if c == '\n' || c == '\r' {
            return Some((word, i));
        } else if char_is_letter(c) {
            word.push(c);
            i += 1;
        } else if char_is_space(c) {
            if word.len() > 0 {
                return Some((word, i));
            }
            i += 1;
        } else if c == '\\' {
            if i + 1 < text.len() && text[i + 1] == '\n' {
                i += 2;
            } else if i + 1 < text.len() && i + 2 < text.len() && text[i + 1] == '\r' && text[i
                + 2] == '\n' {
                i += 3;
            } else {
                return None;
            }
        } else if c == '/' {
            if word.len() == 0 && i + 1 < text.len() && text[i + 1] == '*' {
                i = scan_block_comment(text, i + 2);
            } else {
                return Some((word, i));
            }
        } else {
            return Some((word, i));
        }
    }
    Some((word, i))
}

/// Reads the path that ends at the delimiter `right`, from `pos` on.
pub fn read_quoted_path(text: &Vec<char>, pos: usize, right: char) -> (path: Option<
    (Vec<char>, usize),
>)
    requires
        pos <= text.len(),
    ensures
        match path {
            Some((word, end)) => quoted_path(text@, pos as int, right, Seq::empty()) == Some(
                Word { word: word@, end: end as int },
            ) && pos < end <= text.len(),
            None => quoted_path(text@, pos as int, right, Seq::empty()) is None,
        },
{
    let mut path: Vec<char> = Vec::new();
    let mut i = pos;
    while i < text.len()
        invariant
            pos <= i <= text.len(),
            quoted_path(text@, pos as int, right, Seq::empty()) == quoted_path(
                text@,
                i as int,
                right,
                path@,
            ),
        decreases text.len() - i,
    {
        let c = text[i];
        if c == '\n' {
            return None;
        } else if c == '\\' {
            if i + 1 >= text.len() {
                return None;
            }
            i += 2;
        } else if c == right {
            return Some((path, i + 1));
        } else {
            path.push(c);
            i += 1;
        }
    }
    None
}

/// What was read at a position of a shader's text.
pub enum PieceRead {
    /// Text; it was put out.
    Text { end: usize },
    /// A directive to include the file named by `path`.
    Include { path: Vec<char>, end: usize },
    /// The directive that a file is to be included only once.
    PragmaOnce { end: usize },
    /// An include directive without a well-formed path.
    ParseError,
}

fn is_word7(word: &Vec<char>, a: char, b: char, c: char, d: char, e: char, f: char, g: char) -> (same:
    bool)
    ensures
        same == (word@ == seq![a, b, c, d, e, f, g]),
{
    let same = word.len() == 7 && word[0] == a && word[1] == b && word[2] == c && word[3] == d
        && word[4] == e && word[5] == f && word[6] == g;
    proof {
        let want = seq![a, b, c, d, e, f, g];
        if same {
            assert(word@ =~= want);
        } else if word@ == want {
            assert(want.len() == 7);
            assert(want[0] == a && want[1] == b && want[2] == c && want[3] == d && want[4] == e
                && want[5] == f && want[6] == g);
        }
    }
    same
}

fn is_word6(word: &Vec<char>, a: char, b: char, c: char, d: char, e: char, f: char) -> (same: bool)
    ensures
        same == (word@ == seq![a, b, c, d, e, f]),
{
    let same = word.len() == 6 && word[0] == a && word[1] == b && word[2] == c && word[3] == d
        && word[4] == e && word[5] == f;
    proof {
        let want = seq![a, b, c, d, e, f];
        if same {
            assert(word@ =~= want);
        } else if word@ == want {
            assert(want.len() == 6);
            assert(want[0] == a && want[1] == b && want[2] == c && want[3] == d && want[4] == e
                && want[5] == f);
        }
    }
    same
}

fn is_word4(word: &Vec<char>, a: char, b: char, c: char, d: char) -> (same: bool)
    ensures
        same == (word@ == seq![a, b, c, d]),
{
    let same = word.len() == 4 && word[0] == a && word[1] == b && word[2] == c && word[3] == d;
    proof {
        let want = seq![a, b, c, d];
        if same {
            assert(word@ =~= want);
        } else if word@ == want {
            assert(want.len() == 4);
            assert(want[0] == a && want[1] == b && want[2] == c && want[3] == d);
        }
    }
    same
}

/// Reads the rest of an include directive, from just after its name.
fn read_include_directive(text: &Vec<char>, pos: usize) -> (piece: PieceRead)
    requires
        pos <= text.len(),
    ensures
        match piece {
            PieceRead::Include { path, end } => include_directive(text@, pos as int) == (
            Piece::Include { path: path@, end: end as int }) && pos < end <= text.len(),
            PieceRead::ParseError => include_directive(text@, pos as int) == Piece::ParseError,
            _ => false,
        },
{
    let open = skip_blanks_to_eol(text, pos);
    if open >= text.len() {
        return PieceRead::ParseError;
    }
    let right = if text[open] == '"' {
        '"'
    } else if text[open] == '<' {
        '>'
    } else {
        return PieceRead::ParseError;
    };
    match read_quoted_path(text, open + 1, right) {
        Some((path, end)) => PieceRead::Include { path, end },
        None => PieceRead::ParseError,
    }
}

/// Reads the directive whose `#` stands just before `pos`. Returns none
/// where the `#` is plain text.
fn read_directive(text: &Vec<char>, pos: usize) -> (piece: Option<PieceRead>)
    requires
        0 < pos <= text.len(),
    ensures
        match piece {
            Some(PieceRead::Include { path, end }) => directive(text@, pos as int) == (
            Piece::Include { path: path@, end: end as int }) && pos < end <= text.len(),
            Some(PieceRead::PragmaOnce { end }) => directive(text@, pos as int) == (
            Piece::PragmaOnce { end: end as int }) && pos <= end <= text.len(),
            Some(PieceRead::ParseError) => directive(text@, pos as int) == Piece::ParseError,
            Some(PieceRead::Text { .. }) => false,
            None => directive(text@, pos as int) == (Piece::Text {
                out: seq!['#'],
                end: pos as int,
            }),
        },
{
    let (name, after) = match read_directive_name(text, pos) {
        Some(found) => found,
        None => {
            return None;
        },
    };
    if is_word7(&name, 'i', 'n', 'c', 'l', 'u', 'd', 'e') {
        Some(read_include_directive(text, after))
    } else if is_word6(&name, 'p', 'r', 'a', 'g', 'm', 'a') {
        proof {
            assert(include_word() != pragma_word()) by {
                assert(include_word().len() != pragma_word().len());
            }
        }
        match read_directive_name(text, after) {
            Some((what, end)) => {
                if is_word4(&what, 'o', 'n', 'c', 'e') {
                    Some(PieceRead::PragmaOnce { end: skip_blanks_to_eol(text, end) })
                } else {
                    None
                }
            },
            None => None,
        }
    } else {
        None
    }
}

/// Reads what stands at `pos`. Text is appended to `out`.
pub fn read_piece(text: &Vec<char>, pos: usize, out: &mut Vec<char>) -> (piece: PieceRead)
    requires
        pos < text.len(),
    ensures
        match piece {
            PieceRead::Text { end } => piece_at(text@, pos as int) matches Piece::Text {
                out: put,
                end: e,
            } && e == end && final(out)@ == old(out)@ + put,
            PieceRead::Include { path, end } => piece_at(text@, pos as int) == (Piece::Include {
                path: path@,
                end: end as int,
            }) && final(out)@ == old(out)@,
            PieceRead::PragmaOnce { end } => piece_at(text@, pos as int) == (Piece::PragmaOnce {
                end: end as int,
            }) && final(out)@ == old(out)@,
            PieceRead::ParseError => piece_at(text@, pos as int) == Piece::ParseError
                && final(out)@ == old(out)@,
        },
        match piece {
            PieceRead::Text { end } => pos < end <= text.len(),
            PieceRead::Include { path, end } => pos < end <= text.len(),
            PieceRead::PragmaOnce { end } => pos < end <= text.len(),
            PieceRead::ParseError => true,
        },
{
    let c = text[pos];
    let next_is_star = pos + 1 < text.len() && text[pos + 1] == '*';
    let next_is_slash = pos + 1 < text.len() && text[pos + 1] == '/';
    proof {
        lemma_piece_advances(text@, pos as int);
    }
    if c == '/' && next_is_star {
        let end = scan_block_comment(text, pos + 2);
        push_blanked(out, text, pos, end);
        PieceRead::Text { end }
    } else if c == '/' && next_is_slash {
        let end = scan_line_comment(text, pos + 2, out);
        PieceRead::Text { end }
    } else if c == '#' {
        match read_directive(text, pos + 1) {
            Some(piece) => piece,
            None => {
                out.push('#');
                assert(out@ =~= old(out)@ + seq!['#']);
                PieceRead::Text { end: pos + 1 }
            },
        }
    } else {
        out.push(c);
        assert(out@ =~= old(out)@ + seq![c]);
        PieceRead::Text { end: pos + 1 }
    }
}

/// Counts the line feeds from `from` up to `to`.
pub fn count_newlines(text: &Vec<char>, from: usize, to: usize) -> (count: usize)
    requires
        from <= to <= text.len(),
    ensures
        newlines(text@, to as int) == newlines(text@, from as int) + count,
        count <= to - from,
{
    let mut count: usize = 0;
    let mut i = from;
    while i < to
        invariant
            from <= i <= to <= text.len(),
            count <= i - from,
            newlines(text@, i as int) == newlines(text@, from as int) + count,
        decreases to - i,
    {
        if text[i] == '\n' {
            count += 1;
        }
        i += 1;
    }
    count
}

} // verus!
