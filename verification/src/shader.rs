//! Shader sources and the work items that produce them.

use crate::cache::{WorkDescriptor, WorkId, WorkKind};
use crate::path::{file_stem, file_stem_of};
use vstd::prelude::*;

verus! {

/// A fragment of shader source text together with where it came from.
#[derive(Clone, Debug)]
pub struct SourceChunk {
    /// The logical path of the file the text came from.
    pub file: String,
    /// The number of lines of that file that precede the text.
    pub line_offset: usize,
    /// The text.
    pub source: String,
}

/// A source chunk as plain values.
pub struct ChunkView {
    pub file: Seq<char>,
    pub line_offset: nat,
    pub source: Seq<char>,
}

impl View for SourceChunk {
    type V = ChunkView;

    open spec fn view(&self) -> ChunkView {
        ChunkView {
            file: self.file@,
            line_offset: self.line_offset as nat,
            source: self.source@,
        }
    }
}

impl DeepView for SourceChunk {
    type V = ChunkView;

    open spec fn deep_view(&self) -> ChunkView {
        self@
    }
}

impl SourceChunk {
    /// A chunk that holds the whole text of `file`.
    pub fn from_file_source(file: &str, source: &str) -> (chunk: SourceChunk)
        ensures
            chunk@ == (ChunkView { file: file@, line_offset: 0, source: source@ }),
    {
        SourceChunk { file: file.to_owned(), line_offset: 0, source: source.to_owned() }
    }

    /// A copy with the same content.
    pub fn duplicate(&self) -> (chunk: SourceChunk)
        ensures
            chunk@ == self@,
    {
        SourceChunk {
            file: self.file.clone(),
            line_offset: self.line_offset,
            source: self.source.clone(),
        }
    }
}

/// What can go wrong between a shader file and a linked program.
#[derive(Clone, Debug)]
pub enum ShaderError {
    /// A file is missing or unreadable, or it could not be watched.
    Io(String),
    /// An include path resolved to nothing.
    IncludeResolution(String),
    /// The driver rejected a stage; the message is the remapped log.
    Compile(String),
    /// The driver rejected the linked program; the message is its log.
    Link(String),
}

/// An error as plain values.
pub enum ShaderErrorView {
    Io(Seq<char>),
    IncludeResolution(Seq<char>),
    Compile(Seq<char>),
    Link(Seq<char>),
}

impl ShaderErrorView {
    /// The message that the error carries.
    pub open spec fn message(self) -> Seq<char> {
        match self {
            ShaderErrorView::Io(m) => m,
            ShaderErrorView::IncludeResolution(m) => m,
            ShaderErrorView::Compile(m) => m,
            ShaderErrorView::Link(m) => m,
        }
    }
}

impl View for ShaderError {
    type V = ShaderErrorView;

    open spec fn view(&self) -> ShaderErrorView {
        match self {
            ShaderError::Io(m) => ShaderErrorView::Io(m@),
            ShaderError::IncludeResolution(m) => ShaderErrorView::IncludeResolution(m@),
            ShaderError::Compile(m) => ShaderErrorView::Compile(m@),
            ShaderError::Link(m) => ShaderErrorView::Link(m@),
        }
    }
}

impl ShaderError {
    /// A copy of the error.
    pub fn duplicate(&self) -> (copy: ShaderError)
        ensures
            copy@ == self@,
    {
        match self {
            ShaderError::Io(m) => ShaderError::Io(m.clone()),
            ShaderError::IncludeResolution(m) => ShaderError::IncludeResolution(m.clone()),
            ShaderError::Compile(m) => ShaderError::Compile(m.clone()),
            ShaderError::Link(m) => ShaderError::Link(m.clone()),
        }
    }

    /// The message that the error carries.
    pub fn message(&self) -> (m: &String)
        ensures
            m@ == self@.message(),
    {
        match self {
            ShaderError::Io(m) => m,
            ShaderError::IncludeResolution(m) => m,
            ShaderError::Compile(m) => m,
            ShaderError::Link(m) => m,
        }
    }
}

/// The name a shader goes by: the stem of its file, or `unknown`.
pub open spec fn shader_name(path: Seq<char>) -> Seq<char> {
    match file_stem(path) {
        Some(stem) => stem,
        None => "unknown"@,
    }
}

/// Computes `shader_name` of `path`.
pub fn name_of(path: &str) -> (name: String)
    ensures
        name@ == shader_name(path@),
{
    match file_stem_of(path) {
        Some(stem) => stem,
        None => "unknown".to_owned(),
    }
}

/// The work item that reads the bytes of a file. Its path is the canonical
/// form of the logical path, so that two ways of writing one path share
/// one cache entry.
#[derive(Clone, Debug, Hash)]
pub struct LoadFile {
    path: String,
}

impl LoadFile {
    /// The work item for the file at the canonical path `path`.
    pub fn new(path: String) -> (work: LoadFile)
        ensures
            work.descriptor_id() == (WorkId { kind: WorkKind::LoadFile, path: path@ }),
    {
        LoadFile { path }
    }

    /// What the cache keys this work item by.
    pub closed spec fn descriptor_id(&self) -> WorkId {
        WorkId { kind: WorkKind::LoadFile, path: self.path@ }
    }

    /// The path of the file.
    pub fn path(&self) -> (p: &String)
        ensures
            p@ == self.descriptor_id().path,
    {
        &self.path
    }

    /// The descriptor to hand to the cache.
    pub fn descriptor(&self) -> (d: WorkDescriptor)
        ensures
            d@ == self.descriptor_id(),
    {
        WorkDescriptor::new(WorkKind::LoadFile, self.path.clone())
    }
}

/// The work item that expands the includes of the shader at `path`.
#[derive(Clone, Debug, Hash)]
pub struct PreprocessShader {
    pub path: String,
}

impl PreprocessShader {
    /// What the cache keys this work item by.
    pub open spec fn descriptor_id(&self) -> WorkId {
        WorkId { kind: WorkKind::PreprocessShader, path: self.path@ }
    }

    /// The descriptor to hand to the cache.
    pub fn descriptor(&self) -> (d: WorkDescriptor)
        ensures
            d@ == self.descriptor_id(),
    {
        WorkDescriptor::new(WorkKind::PreprocessShader, self.path.clone())
    }
}

/// A shader with its includes expanded: its chunks in the order in which
/// the driver is to see them.
#[derive(Clone, Debug)]
pub struct PreprocessedShader {
    pub name: String,
    pub source: Vec<SourceChunk>,
}

impl PreprocessedShader {
    /// The expanded shader of the file at `path`, named after the file.
    pub fn new(path: &str, source: Vec<SourceChunk>) -> (shader: PreprocessedShader)
        ensures
            shader.name@ == shader_name(path@),
            shader.source == source,
    {
        PreprocessedShader { name: name_of(path), source }
    }
}

/// What a cache entry of this library holds: the bytes of a file, an
/// expanded shader, or the failure to produce either.
#[derive(Clone, Debug)]
pub enum Artifact {
    Bytes(Vec<u8>),
    Shader(PreprocessedShader),
    Failed(ShaderError),
}

/// An artifact as plain values.
pub enum ArtifactView {
    Bytes(Seq<u8>),
    Shader { name: Seq<char>, source: Seq<ChunkView> },
    Failed(ShaderErrorView),
}

impl View for Artifact {
    type V = ArtifactView;

    open spec fn view(&self) -> ArtifactView {
        match self {
            Artifact::Bytes(bytes) => ArtifactView::Bytes(bytes@),
            Artifact::Shader(shader) => ArtifactView::Shader {
                name: shader.name@,
                source: shader.source.deep_view(),
            },
            Artifact::Failed(error) => ArtifactView::Failed(error@),
        }
    }
}

/// Identifies a shader of the registry by the path of its file.
#[derive(Clone, Debug, Hash, PartialEq, Eq, PartialOrd, Ord)]
pub struct ShaderKey {
    path: String,
}

impl View for ShaderKey {
    type V = Seq<char>;

    closed spec fn view(&self) -> Seq<char> {
        self.path@
    }
}

impl ShaderKey {
    pub fn new(path: String) -> (key: ShaderKey)
        ensures
            key@ == path@,
    {
        ShaderKey { path }
    }

    /// The path of the shader's file.
    pub fn path(&self) -> (p: &String)
        ensures
            p@ == self@,
    {
        &self.path
    }

    /// The name the shader goes by: the stem of its file, or `unknown`.
    pub fn name(&self) -> (name: String)
        ensures
            name@ == shader_name(self@),
    {
        name_of(self.path.as_str())
    }

    /// Whether both keys name the same shader.
    pub fn same(&self, other: &ShaderKey) -> (b: bool)
        ensures
            b == (self@ == other@),
    {
        self.path == other.path
    }

    /// A copy of the key.
    pub fn duplicate(&self) -> (key: ShaderKey)
        ensures
            key@ == self@,
    {
        ShaderKey { path: self.path.clone() }
    }
}

} // verus!
