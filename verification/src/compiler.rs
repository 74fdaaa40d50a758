//! The decisions round a driver's compiler: which strings it is handed, and
//! what its answer means.
//!
//! Talking to the driver is left to the caller. It submits the strings that
//! `driver_sources` makes, destroys the native object if the driver rejects
//! it, and reports what came back.

use crate::diagnostics::{remap_log, remapped_log};
use crate::shader::{ChunkView, ShaderError, ShaderErrorView, SourceChunk};
use crate::text::{chars_of, decimal, push_chars, push_decimal, string_of, string_views};
use vstd::prelude::*;

verus! {

/// The words that open a line marker.
pub open spec fn marker_word() -> Seq<char> {
    seq!['#', 'l', 'i', 'n', 'e', ' ', '0', ' ']
}

/// The string that the driver is handed for the chunk at `index`. The first
/// chunk goes as it is. Every later one is preceded by a marker line that
/// restarts line counting and numbers the string from 1, so that the
/// driver's log names the chunk.
pub open spec fn driver_source(index: int, chunk: ChunkView) -> Seq<char> {
    if index == 0 {
        chunk.source
    } else {
        marker_word() + decimal((index + 1) as nat) + seq!['\n'] + chunk.source
    }
}

/// The strings that the driver is handed for `chunks`.
pub open spec fn driver_sources_of(chunks: Seq<ChunkView>) -> Seq<Seq<char>> {
    Seq::new(chunks.len(), |i: int| driver_source(i, chunks[i]))
}

/// Makes the strings to submit to the driver, one per chunk.
pub fn driver_sources(chunks: &Vec<SourceChunk>) -> (sources: Vec<String>)
    ensures
        string_views(sources@) == driver_sources_of(chunks.deep_view()),
{
    let mut sources: Vec<String> = Vec::new();
    let mut i: usize = 0;
    while i < chunks.len()
        invariant
            i <= chunks.len(),
            sources.len() == i,
            forall|k: int|
                0 <= k < i ==> (#[trigger] sources[k])@ == driver_source(
                    k,
                    chunks.deep_view()[k],
                ),
        decreases chunks.len() - i,
    {
        let chunk = &chunks[i];
        assert(chunks.deep_view()[i as int] == chunk@);
        let text = if i == 0 {
            chunk.source.clone()
        } else {
            let mut line: Vec<char> = Vec::new();
            line.push('#');
            line.push('l');
            line.push('i');
            line.push('n');
            line.push('e');
            line.push(' ');
            line.push('0');
            line.push(' ');
            assert(line@ =~= marker_word());
            push_decimal(&mut line, i as u128 + 1);
            line.push('\n');
            let body = chars_of(chunk.source.as_str());
            push_chars(&mut line, &body);
            string_of(&line)
        };
        sources.push(text);
        i += 1;
    }
    assert(string_views(sources@) =~= driver_sources_of(chunks.deep_view()));
    sources
}

/// The start of every message about a stage that the driver rejected.
pub open spec fn compile_failure_word() -> Seq<char> {
    "Shader failed to compile: "@
}

/// The start of every message about a program that the driver rejected.
pub open spec fn link_failure_word() -> Seq<char> {
    "Shader failed to link: "@
}

/// What compiling a stage comes to. A shader object means success,
/// whatever the log says. None means failure, and the message holds the log
/// with its references rewritten to files and lines, or `Unknown error`
/// where the driver gave no log.
pub open spec fn compile_outcome(
    chunks: Seq<ChunkView>,
    shader: Option<u32>,
    log: Option<Seq<char>>,
) -> Result<u32, ShaderErrorView> {
    match shader {
        Some(handle) => Ok(handle),
        None => Err(
            ShaderErrorView::Compile(
                compile_failure_word() + match log {
                    Some(text) => remapped_log(chunks, text),
                    None => "Unknown error"@,
                },
            ),
        ),
    }
}

/// What linking a program comes to. None means failure, and the message
/// holds the driver's log as it is.
pub open spec fn link_outcome(program: Option<u32>, log: Seq<char>) -> Result<
    u32,
    ShaderErrorView,
> {
    match program {
        Some(handle) => Ok(handle),
        None => Err(ShaderErrorView::Link(link_failure_word() + log)),
    }
}

/// The views of a result.
pub open spec fn outcome_view(r: Result<u32, ShaderError>) -> Result<u32, ShaderErrorView> {
    match r {
        Ok(handle) => Ok(handle),
        Err(e) => Err(e@),
    }
}

/// Decides what the driver's answer to the compilation of `sources` means.
/// `shader` is the shader object if the driver accepted the stage, `log` is
/// its info log if it gave one.
pub fn make_shader(sources: &Vec<SourceChunk>, shader: Option<u32>, log: Option<&str>) -> (made:
    Result<u32, ShaderError>)
    ensures
        outcome_view(made) == compile_outcome(
            sources.deep_view(),
            shader,
            match log {
                Some(text) => Some(text@),
                None => None,
            },
        ),
{
    match shader {
        Some(handle) => Ok(handle),
        None => {
            let mut message = "Shader failed to compile: ".to_owned();
            match log {
                Some(text) => {
                    let remapped = remap_log(sources, text);
                    message.append(remapped.as_str());
                },
                None => {
                    message.append("Unknown error");
                },
            }
            Err(ShaderError::Compile(message))
        },
    }
}

/// Decides what the driver's answer to linking a program means. `program`
/// is the program object if the driver linked it, `log` is its info log.
pub fn make_program(program: Option<u32>, log: &str) -> (made: Result<u32, ShaderError>)
    ensures
        outcome_view(made) == link_outcome(program, log@),
{
    match program {
        Some(handle) => Ok(handle),
        None => {
            let mut message = "Shader failed to link: ".to_owned();
            message.append(log);
            Err(ShaderError::Link(message))
        },
    }
}

} // verus!
