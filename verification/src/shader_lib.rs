//! The shader registry: for every registered shader, the program that was
//! last linked for it.
//!
//! The registry decides; it does not build. Once per frame the caller asks
//! which shaders are stale, builds those, and reports how each build went.
//! A failed build leaves the program of its shader in place.

use crate::cache::{ArtifactCache, CacheState, WorkId, WorkKind};
use crate::shader::{
    ChunkView, PreprocessShader, ShaderError, ShaderErrorView, ShaderKey, SourceChunk,
};
use vstd::prelude::*;

verus! {

/// Whether a pass over the registry replaced any program.
#[derive(Clone, Copy, Debug, PartialEq, Eq, Structural)]
pub enum AnyShadersChanged {
    Yes,
    No,
}

/// How the build of one shader went.
#[derive(Debug)]
pub struct BuildReport {
    /// The shader that was built.
    pub key: ShaderKey,
    /// The linked program, or why there is none.
    pub result: Result<u32, ShaderError>,
}

/// A build report as plain values: the shader's path, and the linked
/// program or the error.
pub struct ReportView {
    pub path: Seq<char>,
    pub program: Option<u32>,
    pub error: Option<ShaderErrorView>,
}

impl View for BuildReport {
    type V = ReportView;

    open spec fn view(&self) -> ReportView {
        ReportView {
            path: self.key@,
            program: match self.result {
                Ok(program) => Some(program),
                Err(_) => None,
            },
            error: match self.result {
                Ok(_) => None,
                Err(error) => Some(error@),
            },
        }
    }
}

impl DeepView for BuildReport {
    type V = ReportView;

    open spec fn deep_view(&self) -> ReportView {
        self@
    }
}

/// The abstract state of one registered shader.
pub struct ShaderState {
    pub path: Seq<char>,
    /// The program of the last successful build, if there was one.
    pub gl_handle: Option<u32>,
}

/// The abstract state of the registry: the registered shaders, in the
/// order in which they were first added, and the vertex stage that every
/// program is linked with.
pub struct RegistryState {
    pub shaders: Seq<ShaderState>,
    pub vs_handle: u32,
}

impl RegistryState {
    pub open spec fn holds(self, i: int) -> bool {
        0 <= i < self.shaders.len()
    }

    /// No path is registered twice.
    pub open spec fn wf(self) -> bool {
        forall|i: int, j: int|
            self.holds(i) && self.holds(j) && #[trigger] self.shaders[i].path
                == #[trigger] self.shaders[j].path ==> i == j
    }

    pub open spec fn registered(self, path: Seq<char>) -> bool {
        exists|i: int| self.holds(i) && #[trigger] self.shaders[i].path == path
    }

    pub open spec fn position(self, path: Seq<char>) -> int {
        choose|i: int| self.holds(i) && #[trigger] self.shaders[i].path == path
    }

    /// The program in effect for the shader at `path`.
    pub open spec fn handle_of(self, path: Seq<char>) -> Option<u32> {
        if self.registered(path) {
            self.shaders[self.position(path)].gl_handle
        } else {
            None
        }
    }

    /// The registry with the shader at `path` registered anew, without a
    /// program.
    pub open spec fn add(self, path: Seq<char>) -> Self {
        let fresh = ShaderState { path, gl_handle: None };
        if self.registered(path) {
            RegistryState { shaders: self.shaders.update(self.position(path), fresh), ..self }
        } else {
            RegistryState { shaders: self.shaders.push(fresh), ..self }
        }
    }

    /// Whether `report` replaces a program: it reports a linked program for
    /// a registered shader.
    pub open spec fn replaces(self, report: ReportView) -> bool {
        report.program is Some && self.registered(report.path)
    }

    /// The registry after one build report. A linked program takes the
    /// place of the shader's old one; a failed build changes nothing, and
    /// neither does a report about a shader that is not registered.
    pub open spec fn record(self, report: ReportView) -> Self {
        if self.replaces(report) {
            RegistryState {
                shaders: self.shaders.update(
                    self.position(report.path),
                    ShaderState { path: report.path, gl_handle: report.program },
                ),
                ..self
            }
        } else {
            self
        }
    }

    /// The registry after the build reports, taken in order.
    pub open spec fn record_all(self, reports: Seq<ReportView>) -> Self
        decreases reports.len(),
    {
        if reports.len() == 0 {
            self
        } else {
            self.record_all(reports.drop_last()).record(reports.last())
        }
    }

    /// Whether any of the reports replaces a program.
    pub open spec fn any_replaces(self, reports: Seq<ReportView>) -> bool {
        exists|i: int| 0 <= i < reports.len() && self.replaces(#[trigger] reports[i])
    }

    /// Whether the shader at `path` has to be rebuilt: its expanded source
    /// is not in the cache, was never evaluated, or is dirty.
    pub open spec fn stale<T>(cache: CacheState<T>, path: Seq<char>) -> bool {
        let id = WorkId { kind: WorkKind::PreprocessShader, path };
        !(cache.knows(id) && cache.is_up_to_date(cache.position(id)))
    }
}

/// A registered shader. Its expanded source is the cache entry of the
/// work item `PreprocessShader` for the path of its key.
struct CompiledShader {
    key: ShaderKey,
    gl_handle: Option<u32>,
}

impl CompiledShader {
    fn new(key: ShaderKey) -> (shader: CompiledShader)
        ensures
            shader.key == key,
            shader.gl_handle is None,
    {
        CompiledShader { key, gl_handle: None }
    }

    /// The work item that expands this shader's source.
    fn preprocessed_ps(&self) -> (work: PreprocessShader)
        ensures
            work.path@ == self.key@,
    {
        PreprocessShader { path: self.key.path().clone() }
    }

    spec fn state(self) -> ShaderState {
        ShaderState { path: self.key@, gl_handle: self.gl_handle }
    }
}

/// Maps the identity of a shader to the program that was last linked for
/// it.
pub struct ShaderLib {
    shaders: Vec<CompiledShader>,
    vs_handle: u32,
}

impl View for ShaderLib {
    type V = RegistryState;

    closed spec fn view(&self) -> RegistryState {
        RegistryState {
            shaders: Seq::new(self.shaders@.len(), |i: int| self.shaders@[i].state()),
            vs_handle: self.vs_handle,
        }
    }
}

/// The text of the vertex stage that every program shares. It draws one
/// triangle that covers the screen.
pub const VERTEX_SHADER_TEXT: &'static str = "
                #version 430
                out vec2 input_uv;
                void main()
                {
                    input_uv = vec2(gl_VertexID & 1, gl_VertexID >> 1) * 2.0;
                    // Note: V flipped because our textures are flipped in memory
                    gl_Position = vec4(input_uv * vec2(2.0, -2.0) + vec2(-1.0, 1.0), 0, 1);
                }";

/// The text that closes every pixel shader: the entry point, which calls
/// what the shader names as its main function.
pub const POSTAMBLE_TEXT: &'static str = "
            void main() {
                SHADER_MAIN_FN
            }
            ";

/// The chunk of the vertex stage.
pub open spec fn vertex_shader_chunk() -> ChunkView {
    ChunkView { file: "no_file"@, line_offset: 0, source: VERTEX_SHADER_TEXT@ }
}

/// The chunk that closes every pixel shader.
pub open spec fn postamble_chunk() -> ChunkView {
    ChunkView { file: "postamble"@, line_offset: 0, source: POSTAMBLE_TEXT@ }
}

/// The source of the vertex stage that every program shares.
pub fn vertex_shader_source() -> (chunk: SourceChunk)
    ensures
        chunk@ == vertex_shader_chunk(),
{
    SourceChunk::from_file_source("no_file", VERTEX_SHADER_TEXT)
}

/// The chunk that closes every pixel shader.
pub fn pixel_shader_postamble() -> (chunk: SourceChunk)
    ensures
        chunk@ == postamble_chunk(),
{
    SourceChunk::from_file_source("postamble", POSTAMBLE_TEXT)
}

/// The chunks of the pixel stage of a shader: its expanded source, then the
/// postamble.
pub fn pixel_shader_sources(source: &Vec<SourceChunk>) -> (chunks: Vec<SourceChunk>)
    ensures
        chunks.deep_view() == source.deep_view().push(postamble_chunk()),
{
    let mut chunks: Vec<SourceChunk> = Vec::new();
    let mut i: usize = 0;
    while i < source.len()
        invariant
            i <= source.len(),
            chunks.len() == i,
            forall|k: int| 0 <= k < i ==> (#[trigger] chunks[k])@ == source[k]@,
        decreases source.len() - i,
    {
        chunks.push(source[i].duplicate());
        i += 1;
    }
    chunks.push(pixel_shader_postamble());
    assert(chunks.deep_view() =~= source.deep_view().push(postamble_chunk()));
    chunks
}

impl ShaderLib {
    /// An empty registry whose programs share the vertex stage `vs_handle`.
    pub fn new(vs_handle: u32) -> (lib: ShaderLib)
        ensures
            lib@ == (RegistryState { shaders: Seq::empty(), vs_handle }),
            lib@.wf(),
    {
        let lib = ShaderLib { shaders: Vec::new(), vs_handle };
        assert(lib@.shaders =~= Seq::empty());
        lib
    }

    /// The vertex stage that every program is linked with.
    pub fn vs_handle(&self) -> (handle: u32)
        ensures
            handle == self@.vs_handle,
    {
        self.vs_handle
    }

    fn find(&self, path: &String) -> (found: Option<usize>)
        requires
            self@.wf(),
        ensures
            found is Some <==> self@.registered(path@),
            found matches Some(i) ==> i == self@.position(path@) && self@.holds(i as int),
    {
        let mut i: usize = 0;
        while i < self.shaders.len()
            invariant
                self@.wf(),
                i <= self.shaders.len(),
                forall|k: int| 0 <= k < i ==> (#[trigger] self@.shaders[k]).path != path@,
            decreases self.shaders.len() - i,
        {
            if *self.shaders[i].key.path() == *path {
                proof {
                    let p = self@.position(path@);
                    assert(self@.shaders[i as int].path == path@);
                    assert(self@.holds(p) && self@.shaders[p].path == path@);
                }
                return Some(i);
            }
            i += 1;
        }
        None
    }

    /// Registers the shader at `path`. If it was registered before, it
    /// starts over without a program.
    pub fn add_shader(&mut self, path: &str) -> (key: ShaderKey)
        requires
            old(self)@.wf(),
        ensures
            final(self)@.wf(),
            final(self)@ == old(self)@.add(path@),
            key@ == path@,
    {
        let key = ShaderKey::new(path.to_owned());
        let shader = CompiledShader::new(key.duplicate());
        match self.find(key.path()) {
            Some(i) => {
                self.shaders.set(i, shader);
            },
            None => {
                self.shaders.push(shader);
            },
        }
        proof {
            assert(self@.shaders =~= old(self)@.add(path@).shaders);
        }
        key
    }

    /// The program in effect for `shader`: that of its last successful
    /// build.
    pub fn get_shader_gl_handle(&self, shader: &ShaderKey) -> (handle: Option<u32>)
        requires
            self@.wf(),
        ensures
            handle == self@.handle_of(shader@),
    {
        match self.find(shader.path()) {
            Some(i) => self.shaders[i].gl_handle,
            None => None,
        }
    }

    /// The shaders that have to be rebuilt, in the order of the registry:
    /// those whose expanded source is not up to date in `cache`.
    pub fn stale_shaders<T>(&self, cache: &ArtifactCache<T>) -> (stale: Vec<ShaderKey>)
        requires
            self@.wf(),
            cache@.wf(),
        ensures
            forall|k: int|
                0 <= k < stale.len() ==> self@.registered((#[trigger] stale[k])@)
                    && RegistryState::stale(cache@, stale[k]@),
            forall|i: int|
                self@.holds(i) && RegistryState::stale(cache@, (#[trigger] self@.shaders[i]).path)
                    ==> exists|k: int| 0 <= k < stale.len() && (#[trigger] stale[k])@
                    == self@.shaders[i].path,
            forall|k: int, m: int|
                0 <= k < m < stale.len() ==> self@.position((#[trigger] stale[k])@)
                    < self@.position((#[trigger] stale[m])@),
    {
        let mut stale: Vec<ShaderKey> = Vec::new();
        let ghost mut origin: Seq<int> = Seq::empty();
        let mut i: usize = 0;
        while i < self.shaders.len()
            invariant
                self@.wf(),
                cache@.wf(),
                i <= self.shaders.len(),
                origin.len() == stale.len(),
                forall|k: int|
                    0 <= k < stale.len() ==> 0 <= #[trigger] origin[k] < i && stale[k]@
                        == self@.shaders[origin[k]].path && RegistryState::stale(
                        cache@,
                        stale[k]@,
                    ),
                forall|k: int, m: int| 0 <= k < m < stale.len() ==> origin[k] < origin[m],
                forall|j: int|
                    0 <= j < i && RegistryState::stale(cache@, (#[trigger] self@.shaders[j]).path)
                        ==> exists|k: int| 0 <= k < stale.len() && #[trigger] origin[k] == j,
            decreases self.shaders.len() - i,
        {
            let shader = &self.shaders[i];
            let descriptor = shader.preprocessed_ps().descriptor();
            let current = match cache.lookup(&descriptor) {
                Some(handle) => cache.is_up_to_date(handle),
                None => false,
            };
            if !current {
                let ghost before = origin;
                stale.push(shader.key.duplicate());
                proof {
                    origin = origin.push(i as int);
                    assert forall|j: int|
                        0 <= j < i + 1 && RegistryState::stale(
                            cache@,
                            (#[trigger] self@.shaders[j]).path,
                        ) implies exists|k: int| 0 <= k < stale.len() && #[trigger] origin[k]
                        == j by {
                        if j < i {
                            let k = choose|k: int| 0 <= k < before.len() && #[trigger] before[k] == j;
                            assert(origin[k] == j);
                        } else {
                            assert(origin[before.len() as int] == j);
                        }
                    }
                }
            }
            i += 1;
        }
        proof {
            assert forall|k: int| 0 <= k < stale.len() implies self@.registered(
                (#[trigger] stale[k])@,
            ) && RegistryState::stale(cache@, stale[k]@) by {
                assert(self@.holds(origin[k]) && self@.shaders[origin[k]].path == stale[k]@);
            }
            assert forall|i: int|
                self@.holds(i) && RegistryState::stale(
                    cache@,
                    (#[trigger] self@.shaders[i]).path,
                ) implies exists|k: int| 0 <= k < stale.len() && (#[trigger] stale[k])@
                == self@.shaders[i].path by {
                let k = choose|k: int| 0 <= k < stale.len() && #[trigger] origin[k] == i;
                assert(stale[k]@ == self@.shaders[i].path);
            }
            assert forall|k: int, m: int| 0 <= k < m < stale.len() implies self@.position(
                (#[trigger] stale[k])@,
            ) < self@.position((#[trigger] stale[m])@) by {
                assert(origin[k] < origin[m]);
                let pk = self@.position(stale[k]@);
                let pm = self@.position(stale[m]@);
                assert(self@.holds(origin[k]) && self@.shaders[origin[k]].path == stale[k]@);
                assert(self@.holds(origin[m]) && self@.shaders[origin[m]].path == stale[m]@);
                assert(self@.holds(pk) && self@.shaders[pk].path == stale[k]@);
                assert(self@.holds(pm) && self@.shaders[pm].path == stale[m]@);
            }
        }
        stale
    }

    /// Takes in the reports of one pass of builds, in order. The program of
    /// a successful build replaces the one its shader had. A failed build
    /// leaves its shader's program untouched, so that the last good program
    /// stays in effect. Says whether any program was replaced.
    pub fn compile_all(&mut self, reports: &Vec<BuildReport>) -> (changed: AnyShadersChanged)
        requires
            old(self)@.wf(),
        ensures
            final(self)@.wf(),
            final(self)@ == old(self)@.record_all(reports.deep_view()),
            final(self)@.vs_handle == old(self)@.vs_handle,
            changed == AnyShadersChanged::Yes <==> old(self)@.any_replaces(reports.deep_view()),
    {
        let mut any_shaders_changed = AnyShadersChanged::No;
        let ghost views = reports.deep_view();
        let mut i: usize = 0;
        assert(views.take(0) =~= Seq::empty());
        while i < reports.len()
            invariant
                i <= reports.len(),
                views == reports.deep_view(),
                self@.wf(),
                self@ == old(self)@.record_all(views.take(i as int)),
                self@.vs_handle == old(self)@.vs_handle,
                self@.shaders.len() == old(self)@.shaders.len(),
                forall|k: int|
                    self@.holds(k) ==> (#[trigger] self@.shaders[k]).path == old(
                        self,
                    )@.shaders[k].path,
                any_shaders_changed == AnyShadersChanged::Yes <==> old(self)@.any_replaces(
                    views.take(i as int),
                ),
            decreases reports.len() - i,
        {
            let report = &reports[i];
            let ghost before = self@;
            proof {
                assert(views[i as int] == report@);
                assert(views.take(i + 1).drop_last() =~= views.take(i as int));
                assert(views.take(i + 1).last() == report@);
                lemma_same_paths_same_registered(old(self)@, before, report@.path);
            }
            match report.result {
                Ok(program) => {
                    match self.find(report.key.path()) {
                        Some(at) => {
                            self.shaders[at].gl_handle = Some(program);
                            any_shaders_changed = AnyShadersChanged::Yes;
                            proof {
                                assert(self@.shaders =~= before.record(report@).shaders);
                            }
                        },
                        None => {},
                    }
                },
                Err(_) => {},
            }
            proof {
                let done = views.take(i as int);
                let next = views.take(i + 1);
                if old(self)@.any_replaces(done) {
                    let w = choose|w: int| 0 <= w < done.len() && old(self)@.replaces(#[trigger] done[w]);
                    assert(next[w] == done[w]);
                }
                if old(self)@.replaces(report@) {
                    assert(old(self)@.replaces(next[i as int]));
                }
                if old(self)@.any_replaces(next) {
                    let w = choose|w: int| 0 <= w < next.len() && old(self)@.replaces(#[trigger] next[w]);
                    if w < i {
                        assert(done[w] == next[w]);
                    }
                }
            }
            i += 1;
        }
        assert(views.take(reports.len() as int) =~= views);
        any_shaders_changed
    }
}

/// Registries that hold the same paths at the same places register the
/// same paths.
proof fn lemma_same_paths_same_registered(a: RegistryState, b: RegistryState, path: Seq<char>)
    requires
        a.shaders.len() == b.shaders.len(),
        forall|k: int| b.holds(k) ==> (#[trigger] b.shaders[k]).path == a.shaders[k].path,
    ensures
        a.registered(path) == b.registered(path),
{
    if a.registered(path) {
        let i = a.position(path);
        assert(b.holds(i) && b.shaders[i].path == path);
    }
    if b.registered(path) {
        let i = b.position(path);
        assert(a.holds(i) && a.shaders[i].path == path);
    }
}

/// A build that fails leaves the program of its shader untouched, and a
/// build that succeeds puts its program in effect for its shader and for no
/// other.
pub proof fn law_failed_build_keeps_program(
    registry: RegistryState,
    report: ReportView,
    path: Seq<char>,
)
    requires
        registry.wf(),
    ensures
        registry.record(report).wf(),
        report.program is None ==> registry.record(report) == registry,
        path != report.path ==> registry.record(report).handle_of(path) == registry.handle_of(
            path,
        ),
        registry.registered(report.path) && report.program is Some ==> registry.record(
            report,
        ).handle_of(report.path) == report.program,
{
    let after = registry.record(report);
    if registry.replaces(report) {
        let at = registry.position(report.path);
        assert(registry.holds(at) && registry.shaders[at].path == report.path);
        assert forall|i: int, j: int|
            after.holds(i) && after.holds(j) && #[trigger] after.shaders[i].path
                == #[trigger] after.shaders[j].path implies i == j by {
            assert(registry.shaders[i].path == registry.shaders[j].path);
        }
        assert(after.registered(report.path)) by {
            assert(after.holds(at) && after.shaders[at].path == report.path);
        }
        assert(after.position(report.path) == at) by {
            let p = after.position(report.path);
            assert(after.holds(p) && after.shaders[p].path == report.path);
            assert(registry.shaders[p].path == report.path);
        }
        if path != report.path {
            if registry.registered(path) {
                let q = registry.position(path);
                assert(registry.holds(q) && registry.shaders[q].path == path);
                assert(after.holds(q) && after.shaders[q].path == path);
                let q2 = after.position(path);
                assert(after.holds(q2) && after.shaders[q2].path == path);
                assert(registry.shaders[q2].path == path);
            } else if after.registered(path) {
                let q2 = after.position(path);
                assert(after.holds(q2) && after.shaders[q2].path == path);
                assert(registry.holds(q2) && registry.shaders[q2].path == path);
            }
        }
    }
}

} // verus!
