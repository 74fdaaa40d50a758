//! Running the work item that expands a shader, one step at a time.
//!
//! The files that a shader includes are artifacts of the cache themselves.
//! Each step expands the shader as far as the sources gathered so far
//! allow. Where a file is wanting, the step asks the cache for it; if the
//! cache holds it, the file is recorded as read by the shader, so that a
//! change of the file reaches the shader, and its text joins the sources.
//! If the file has to be read first, the step says so and leaves the
//! reading to the caller.

use crate::cache::{ArtifactCache, Evaluation, Handle, Step, WorkId, WorkKind};
use crate::preprocess::{
    expansion, halt_message, include_error, preprocess, Halt, HaltView, SourceFile, SourceView,
};
use crate::shader::{
    shader_name, Artifact, ArtifactView, LoadFile, PreprocessedShader, ShaderError,
    ShaderErrorView,
};
use vstd::prelude::*;
use vstd::utf8::{decode_utf8, valid_utf8};

verus! {

/// `String::from_utf8` yields the text that the bytes encode in UTF-8, and
/// nothing if they are not valid UTF-8.
#[verifier::external_body]
fn text_of(bytes: Vec<u8>) -> (text: Option<String>)
    ensures
        match text {
            Some(t) => valid_utf8(bytes@) && t@ == decode_utf8(bytes@),
            None => !valid_utf8(bytes@),
        },
{
    String::from_utf8(bytes).ok()
}

/// What a step of the work came to.
#[derive(Clone, Debug)]
pub enum Advance {
    /// The file at `path` has to be read; its run has started. Complete
    /// `file` with the bytes or the failure, then take another step.
    Load { file: Handle, path: String },
    /// Somebody else is reading the file; take another step once `file` is
    /// completed.
    Wait { file: Handle },
    /// A file joined the sources; take another step.
    Again,
    /// The run of the work is completed, with the expanded shader or with
    /// the failure.
    Finished,
}

/// The message of the failure to read a file as text.
pub open spec fn not_text_message(path: Seq<char>) -> Seq<char> {
    "not valid UTF-8: "@ + path
}

/// The message of the failure to load the include written as `written`.
pub open spec fn load_failure_message(written: Seq<char>, cause: Seq<char>) -> Seq<char> {
    "Failed loading shader include "@ + written + ": "@ + cause
}

/// What the work comes to when the file `path`, included as `written` and
/// held by the cache as `held`, is to join the sources: nothing yet if it
/// is text, and otherwise the failure that ends the run.
pub open spec fn file_failure(
    path: Seq<char>,
    written: Seq<char>,
    held: ArtifactView,
) -> Option<ShaderErrorView> {
    match held {
        ArtifactView::Bytes(bytes) => if valid_utf8(bytes) {
            None
        } else {
            Some(ShaderErrorView::Io(not_text_message(path)))
        },
        ArtifactView::Failed(error) => Some(
            ShaderErrorView::IncludeResolution(load_failure_message(written, error.message())),
        ),
        ArtifactView::Shader { .. } => Some(ShaderErrorView::Io(not_text_message(path))),
    }
}

/// Takes one step of the run `work` of the shader at `entry`.
pub fn advance(
    cache: &mut ArtifactCache<Artifact>,
    work: Handle,
    entry: &str,
    sources: &mut Vec<SourceFile>,
) -> (step: Advance)
    requires
        old(cache)@.wf(),
    ensures
        final(cache)@.wf(),
        match expansion(old(sources).deep_view(), entry@) {
            Ok(chunks) => {
                &&& step is Finished
                &&& final(sources).deep_view() == old(sources).deep_view()
                &&& exists|made: Artifact|
                    #![auto]
                    made@ == (ArtifactView::Shader { name: shader_name(entry@), source: chunks })
                        && final(cache)@ == old(cache)@.complete(work.slot(), made)
            },
            Err(HaltView::Needs { path, written }) => {
                let id = WorkId { kind: WorkKind::LoadFile, path };
                let asked = old(cache)@.evaluate(id);
                match old(cache)@.answer(id) {
                    Step::Run(at) => {
                        &&& step matches Advance::Load { file, path: p }
                        &&& file.slot() == at
                        &&& p@ == path
                        &&& final(cache)@ == asked
                        &&& final(sources).deep_view() == old(sources).deep_view()
                    },
                    Step::InFlight(at) => {
                        &&& step matches Advance::Wait { file }
                        &&& file.slot() == at
                        &&& final(cache)@ == asked
                        &&& final(sources).deep_view() == old(sources).deep_view()
                    },
                    Step::Current(at) => {
                        let read = asked.depend(work.slot(), at);
                        let held = asked.entries[at].output->0@;
                        match file_failure(path, written, held) {
                            None => {
                                &&& step is Again
                                &&& final(cache)@ == read
                                &&& held matches ArtifactView::Bytes(bytes)
                                &&& final(sources).deep_view() == old(sources).deep_view().push(
                                    SourceView { path, text: decode_utf8(bytes) },
                                )
                            },
                            Some(error) => {
                                &&& step is Finished
                                &&& final(sources).deep_view() == old(sources).deep_view()
                                &&& exists|made: Artifact|
                                    #![auto]
                                    made@ == ArtifactView::Failed(error) && final(cache)@
                                        == read.complete(work.slot(), made)
                            },
                        }
                    },
                }
            },
            Err(halt) => {
                &&& step is Finished
                &&& final(sources).deep_view() == old(sources).deep_view()
                &&& exists|made: Artifact|
                    #![auto]
                    made@ == ArtifactView::Failed(
                        ShaderErrorView::IncludeResolution(halt_message(halt)),
                    ) && final(cache)@ == old(cache)@.complete(work.slot(), made)
            },
        },
{
    let (path, written) = match preprocess(sources, entry) {
        Ok(chunks) => {
            let made = Artifact::Shader(PreprocessedShader::new(entry, chunks));
            cache.complete(work, made);
            return Advance::Finished;
        },
        Err(Halt::Needs { path, written }) => (path, written),
        Err(halt) => {
            let made = Artifact::Failed(include_error(&halt));
            cache.complete(work, made);
            return Advance::Finished;
        },
    };
    let descriptor = LoadFile::new(path.clone()).descriptor();
    let file = match cache.evaluate(&descriptor) {
        Evaluation::Run(file) => {
            return Advance::Load { file, path };
        },
        Evaluation::InFlight(file) => {
            return Advance::Wait { file };
        },
        Evaluation::Current(file) => file,
    };
    cache.depend(work, file);
    let failure = match cache.output(file) {
        Some(Artifact::Bytes(bytes)) => match text_of(bytes.clone()) {
            Some(text) => {
                let ghost before = sources.deep_view();
                sources.push(SourceFile { path, text });
                proof {
                    assert(sources.deep_view() =~= before.push(sources@[before.len() as int]@));
                }
                return Advance::Again;
            },
            None => {
                let mut message = "not valid UTF-8: ".to_owned();
                message.append(path.as_str());
                ShaderError::Io(message)
            },
        },
        Some(Artifact::Failed(error)) => {
            let mut message = "Failed loading shader include ".to_owned();
            message.append(written.as_str());
            message.append(": ");
            message.append(error.message().as_str());
            ShaderError::IncludeResolution(message)
        },
        _ => {
            let mut message = "not valid UTF-8: ".to_owned();
            message.append(path.as_str());
            ShaderError::Io(message)
        },
    };
    let made = Artifact::Failed(failure);
    cache.complete(work, made);
    Advance::Finished
}

} // verus!
