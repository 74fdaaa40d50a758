//! Rewriting of compiler logs, so that references to numbered source
//! strings name the file and line that the text came from.
//!
//! A driver is handed the chunks of a shader as a list of source strings
//! and reports positions as a string number and a line. Two notations are
//! recognized, each only at the start of a line of the log:
//! `ERROR: <chunk>:<line>` and `<chunk>(<line>)`. Chunk numbers count from
//! 1; the number 0 also stands for the first chunk. Everything else is
//! passed through as it is.

use crate::shader::{ChunkView, SourceChunk};
use crate::text::{
    blanks_end, chars_of, decimal, digits_end, number, push_chars, push_decimal, scan_number,
    skip_blanks, string_of,
};
use vstd::prelude::*;

verus! {

/// The two notations in which logs refer to a chunk and a line.
#[derive(Clone, Copy, Debug, PartialEq, Eq, Structural)]
pub enum LogStyle {
    /// `ERROR: <chunk>:<line>`
    Colon,
    /// `<chunk>(<line>)`
    Paren,
}

/// A reference found in a log.
pub struct Reference {
    /// The chunk number as written.
    pub chunk: nat,
    /// The line number as written.
    pub line: nat,
    /// Where the text of the reference ends.
    pub end: int,
}

/// Whether a line of `log` starts at `pos`.
pub open spec fn at_line_start(log: Seq<char>, pos: int) -> bool {
    pos == 0 || (0 < pos <= log.len() && log[pos - 1] == '\n')
}

/// Whether `word` stands in `log` at `pos`.
pub open spec fn stands_at(log: Seq<char>, pos: int, word: Seq<char>) -> bool {
    0 <= pos && pos + word.len() <= log.len() && log.subrange(pos, pos + word.len()) == word
}

/// The word that opens a reference in the colon notation.
pub open spec fn error_word() -> Seq<char> {
    seq!['E', 'R', 'R', 'O', 'R', ':']
}

/// The reference in colon notation that starts at `pos`: the word
/// `ERROR:`, any blanks, the digits of the chunk, a colon, and the digits
/// of the line.
pub open spec fn colon_reference_at(log: Seq<char>, pos: int) -> Option<Reference> {
    let chunk_from = blanks_end(log, pos + 6);
    let chunk_to = digits_end(log, chunk_from);
    let line_from = chunk_to + 1;
    let line_to = digits_end(log, line_from);
    if stands_at(log, pos, error_word()) && chunk_from < chunk_to && chunk_to < log.len()
        && log[chunk_to] == ':' && line_from < line_to {
        Some(
            Reference {
                chunk: number(log.subrange(chunk_from, chunk_to)),
                line: number(log.subrange(line_from, line_to)),
                end: line_to,
            },
        )
    } else {
        None
    }
}

/// The reference in parenthesis notation that starts at `pos`: the digits
/// of the chunk, the digits of the line in parentheses, and any blanks
/// that follow.
pub open spec fn paren_reference_at(log: Seq<char>, pos: int) -> Option<Reference> {
    let chunk_to = digits_end(log, pos);
    let line_from = chunk_to + 1;
    let line_to = digits_end(log, line_from);
    if 0 <= pos < chunk_to && chunk_to < log.len() && log[chunk_to] == '(' && line_from < line_to
        && line_to < log.len() && log[line_to] == ')' {
        Some(
            Reference {
                chunk: number(log.subrange(pos, chunk_to)),
                line: number(log.subrange(line_from, line_to)),
                end: blanks_end(log, line_to + 1),
            },
        )
    } else {
        None
    }
}

/// The reference in the notation `style` that starts at `pos`.
pub open spec fn reference_at(log: Seq<char>, pos: int, style: LogStyle) -> Option<Reference> {
    match style {
        LogStyle::Colon => colon_reference_at(log, pos),
        LogStyle::Paren => paren_reference_at(log, pos),
    }
}

/// The position in the chunk list that a chunk number stands for.
pub open spec fn chunk_index(chunk: nat) -> int {
    if chunk == 0 {
        0
    } else {
        chunk - 1
    }
}

/// Whether `r` can be rewritten: it names one of `chunks`, and its numbers
/// are no larger than `u64::MAX`.
pub open spec fn resolvable(chunks: Seq<ChunkView>, r: Reference) -> bool {
    r.chunk <= u64::MAX && r.line <= u64::MAX && chunk_index(r.chunk) < chunks.len()
}

/// What a reference is rewritten to: the file of the chunk and, in
/// parentheses, the line within that file.
pub open spec fn location_text(chunks: Seq<ChunkView>, r: Reference) -> Seq<char> {
    let chunk = chunks[chunk_index(r.chunk)];
    chunk.file + seq!['('] + decimal(r.line + chunk.line_offset) + seq![')']
}

/// The reference that is rewritten at `pos`, if one is.
pub open spec fn rewritten_at(
    chunks: Seq<ChunkView>,
    log: Seq<char>,
    pos: int,
    style: LogStyle,
) -> Option<Reference> {
    match reference_at(log, pos, style) {
        Some(r) => if at_line_start(log, pos) && resolvable(chunks, r) {
            Some(r)
        } else {
            None
        },
        None => None,
    }
}

/// The log from `pos` on, with each resolvable reference in the notation
/// `style` that starts a line replaced by its location text.
pub open spec fn rewritten_from(
    chunks: Seq<ChunkView>,
    log: Seq<char>,
    pos: int,
    style: LogStyle,
) -> Seq<char>
    decreases log.len() - pos,
{
    if pos < 0 || pos >= log.len() {
        Seq::empty()
    } else {
        match rewritten_at(chunks, log, pos, style) {
            Some(r) => if pos < r.end <= log.len() {
                location_text(chunks, r) + rewritten_from(chunks, log, r.end, style)
            } else {
                seq![log[pos]] + rewritten_from(chunks, log, pos + 1, style)
            },
            None => seq![log[pos]] + rewritten_from(chunks, log, pos + 1, style),
        }
    }
}

/// The log with the references of both notations rewritten: first those in
/// colon notation, then, in the result, those in parenthesis notation.
pub open spec fn remapped_log(chunks: Seq<ChunkView>, log: Seq<char>) -> Seq<char> {
    rewritten_from(
        chunks,
        rewritten_from(chunks, log, 0, LogStyle::Colon),
        0,
        LogStyle::Paren,
    )
}

/// What was read of a reference: its numbers, where they fit, and its end.
struct Found {
    chunk: Option<u64>,
    line: Option<u64>,
    end: usize,
}

impl Found {
    spec fn reads(self, r: Reference) -> bool {
        &&& self.end == r.end
        &&& match self.chunk {
            Some(c) => c == r.chunk,
            None => r.chunk > u64::MAX,
        }
        &&& match self.line {
            Some(l) => l == r.line,
            None => r.line > u64::MAX,
        }
    }
}

fn find_colon_reference(log: &Vec<char>, pos: usize) -> (found: Option<Found>)
    requires
        pos < log.len(),
    ensures
        match found {
            Some(f) => colon_reference_at(log@, pos as int) matches Some(r) && f.reads(r) && pos
                < f.end <= log.len(),
            None => colon_reference_at(log@, pos as int) is None,
        },
{
    if log.len() - pos < 6 {
        return None;
    }
    if !(log[pos] == 'E' && log[pos + 1] == 'R' && log[pos + 2] == 'R' && log[pos + 3] == 'O'
        && log[pos + 4] == 'R' && log[pos + 5] == ':') {
        proof {
            let got = log@.subrange(pos as int, pos + 6);
            if got == error_word() {
                assert(got[0] == 'E' && got[1] == 'R' && got[2] == 'R' && got[3] == 'O' && got[4]
                    == 'R' && got[5] == ':');
            }
        }
        return None;
    }
    assert(log@.subrange(pos as int, pos + 6) =~= error_word());
    let chunk_from = skip_blanks(log, pos + 6);
    let (chunk_to, chunk) = scan_number(log, chunk_from);
    if chunk_to == chunk_from || chunk_to >= log.len() || log[chunk_to] != ':' {
        return None;
    }
    let (line_to, line) = scan_number(log, chunk_to + 1);
    if line_to == chunk_to + 1 {
        return None;
    }
    Some(Found { chunk, line, end: line_to })
}

fn find_paren_reference(log: &Vec<char>, pos: usize) -> (found: Option<Found>)
    requires
        pos < log.len(),
    ensures
        match found {
            Some(f) => paren_reference_at(log@, pos as int) matches Some(r) && f.reads(r) && pos
                < f.end <= log.len(),
            None => paren_reference_at(log@, pos as int) is None,
        },
{
    let (chunk_to, chunk) = scan_number(log, pos);
    if chunk_to == pos || chunk_to >= log.len() || log[chunk_to] != '(' {
        return None;
    }
    let (line_to, line) = scan_number(log, chunk_to + 1);
    if line_to == chunk_to + 1 || line_to >= log.len() || log[line_to] != ')' {
        return None;
    }
    let end = skip_blanks(log, line_to + 1);
    Some(Found { chunk, line, end })
}

/// The text that replaces the reference at `pos`, and where the reference
/// ends, if a reference is rewritten there.
fn replacement_at(chunks: &Vec<SourceChunk>, log: &Vec<char>, pos: usize, style: LogStyle) -> (found:
    Option<(Vec<char>, usize)>)
    requires
        pos < log.len(),
    ensures
        match found {
            Some((text, end)) => rewritten_at(chunks.deep_view(), log@, pos as int, style)
                matches Some(r) && text@ == location_text(chunks.deep_view(), r) && end == r.end
                && pos < end <= log.len(),
            None => rewritten_at(chunks.deep_view(), log@, pos as int, style) is None,
        },
{
    if !(pos == 0 || log[pos - 1] == '\n') {
        return None;
    }
    let found = match style {
        LogStyle::Colon => find_colon_reference(log, pos),
        LogStyle::Paren => find_paren_reference(log, pos),
    };
    let f = match found {
        Some(f) => f,
        None => {
            return None;
        },
    };
    let chunk = match f.chunk {
        Some(c) => c,
        None => {
            return None;
        },
    };
    let line = match f.line {
        Some(l) => l,
        None => {
            return None;
        },
    };
    let index: u64 = if chunk == 0 {
        0
    } else {
        chunk - 1
    };
    if index >= chunks.len() as u64 {
        return None;
    }
    let source = &chunks[index as usize];
    assert(chunks.deep_view()[index as int] == source@);
    let mut text = chars_of(source.file.as_str());
    text.push('(');
    push_decimal(&mut text, line as u128 + source.line_offset as u128);
    text.push(')');
    Some((text, f.end))
}

/// Rewrites the references in the notation `style`.
fn rewrite(chunks: &Vec<SourceChunk>, log: &Vec<char>, style: LogStyle) -> (out: Vec<char>)
    ensures
        out@ == rewritten_from(chunks.deep_view(), log@, 0, style),
{
    let mut out: Vec<char> = Vec::new();
    let mut pos: usize = 0;
    while pos < log.len()
        invariant
            pos <= log.len(),
            rewritten_from(chunks.deep_view(), log@, 0, style) == out@ + rewritten_from(
                chunks.deep_view(),
                log@,
                pos as int,
                style,
            ),
        decreases log.len() - pos,
    {
        let ghost views = chunks.deep_view();
        let ghost done = out@;
        match replacement_at(chunks, log, pos, style) {
            Some((text, end)) => {
                push_chars(&mut out, &text);
                proof {
                    assert(done + (text@ + rewritten_from(views, log@, end as int, style))
                        =~= out@ + rewritten_from(views, log@, end as int, style));
                }
                pos = end;
            },
            None => {
                out.push(log[pos]);
                proof {
                    assert(done + (seq![log@[pos as int]] + rewritten_from(
                        views,
                        log@,
                        pos + 1,
                        style,
                    )) =~= out@ + rewritten_from(views, log@, pos + 1, style));
                }
                pos += 1;
            },
        }
    }
    out
}

/// Rewrites the references to numbered chunks in a compiler log into
/// references to files and lines. A reference is rewritten where it starts
/// a line, names one of `chunks` and holds no number above `u64::MAX`; the
/// line it gives is raised by the line offset of its chunk. The rest of
/// the log is passed through unchanged.
pub fn remap_log(chunks: &Vec<SourceChunk>, log: &str) -> (remapped: String)
    ensures
        remapped@ == remapped_log(chunks.deep_view(), log@),
{
    let text = chars_of(log);
    let first = rewrite(chunks, &text, LogStyle::Colon);
    let second = rewrite(chunks, &first, LogStyle::Paren);
    string_of(&second)
}

/// A log passes through unchanged from `pos` on if no reference in the
/// notation `style` is rewritten there.
pub proof fn lemma_log_without_references(
    chunks: Seq<ChunkView>,
    log: Seq<char>,
    style: LogStyle,
    pos: int,
)
    requires
        0 <= pos <= log.len(),
        forall|p: int| pos <= p < log.len() ==> rewritten_at(chunks, log, p, style) is None,
    ensures
        rewritten_from(chunks, log, pos, style) == log.skip(pos),
    decreases log.len() - pos,
{
    if pos < log.len() {
        lemma_log_without_references(chunks, log, style, pos + 1);
        assert(rewritten_at(chunks, log, pos, style) is None);
        assert(seq![log[pos]] + log.skip(pos + 1) =~= log.skip(pos));
    } else {
        assert(log.skip(pos) =~= Seq::empty());
    }
}

/// What is not recognized passes through unmodified: a log in which no
/// line starts with a resolvable reference, in either notation, is its own
/// remapping.
pub proof fn law_unrecognized_log_passes_through(chunks: Seq<ChunkView>, log: Seq<char>)
    requires
        forall|p: int, style: LogStyle|
            0 <= p < log.len() ==> rewritten_at(chunks, log, p, style) is None,
    ensures
        remapped_log(chunks, log) == log,
{
    lemma_log_without_references(chunks, log, LogStyle::Colon, 0);
    assert(log.skip(0) =~= log);
    lemma_log_without_references(chunks, log, LogStyle::Paren, 0);
}

} // verus!
