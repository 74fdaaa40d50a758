//! The registry of lookup tables: textures that a compute shader fills.
//!
//! Like the shader registry it decides and does not build: the caller asks
//! which tables are stale, builds their programs, reports how each build
//! went, and fills the table of every build that succeeded.

use crate::cache::ArtifactCache;
use crate::shader::{PreprocessShader, ShaderError, ShaderErrorView};
use crate::shader_lib::RegistryState;
use crate::texture::Texture;
use vstd::prelude::*;

verus! {

/// What a lookup table is made from.
#[derive(Clone, Debug, Hash, PartialEq, Eq, PartialOrd, Ord)]
pub struct LutDesc {
    pub width: u32,
    pub internal_format: u32,
    pub name: String,
    pub shader_path: String,
}

/// Names one table of a `LutLib`.
#[derive(Clone, Copy, Debug, PartialEq, Eq, Structural)]
pub struct LutHandle(pub usize);

/// Whether a pass over the tables replaced any program.
#[derive(Clone, Copy, Debug, PartialEq, Eq, Structural)]
pub enum AnyLutsChanged {
    Yes,
    No,
}

/// How the build of the program of one table went.
#[derive(Debug)]
pub struct LutBuildReport {
    pub lut: LutHandle,
    pub result: Result<u32, ShaderError>,
}

/// A report as plain values: the table, and the program or the error.
pub struct LutReportView {
    pub lut: int,
    pub program: Option<u32>,
    pub error: Option<ShaderErrorView>,
}

impl View for LutBuildReport {
    type V = LutReportView;

    open spec fn view(&self) -> LutReportView {
        LutReportView {
            lut: self.lut.0 as int,
            program: match self.result {
                Ok(program) => Some(program),
                Err(_) => None,
            },
            error: match self.result {
                Ok(_) => None,
                Err(error) => Some(error@),
            },
        }
    }
}

impl DeepView for LutBuildReport {
    type V = LutReportView;

    open spec fn deep_view(&self) -> LutReportView {
        self@
    }
}

struct CompiledShader {
    gl_handle: Option<u32>,
}

impl CompiledShader {
    fn new() -> (shader: CompiledShader)
        ensures
            shader.gl_handle is None,
    {
        CompiledShader { gl_handle: None }
    }
}

struct LutState {
    desc: LutDesc,
    shader: CompiledShader,
    texture: Texture,
}

/// The abstract state of one table.
pub struct LutView {
    pub width: u32,
    pub internal_format: u32,
    pub name: Seq<char>,
    pub shader_path: Seq<char>,
    pub texture: Texture,
    /// The program of the last successful build, if there was one.
    pub gl_handle: Option<u32>,
}

impl LutState {
    spec fn state(self) -> LutView {
        LutView {
            width: self.desc.width,
            internal_format: self.desc.internal_format,
            name: self.desc.name@,
            shader_path: self.desc.shader_path@,
            texture: self.texture,
            gl_handle: self.shader.gl_handle,
        }
    }
}

/// The tables after one build report: a linked program takes the place of
/// the table's old one, anything else changes nothing.
pub open spec fn recorded(luts: Seq<LutView>, report: LutReportView) -> Seq<LutView> {
    if report.program is Some && 0 <= report.lut < luts.len() {
        luts.update(report.lut, LutView { gl_handle: report.program, ..luts[report.lut] })
    } else {
        luts
    }
}

/// The tables after the build reports, taken in order.
pub open spec fn recorded_all(luts: Seq<LutView>, reports: Seq<LutReportView>) -> Seq<LutView>
    decreases reports.len(),
{
    if reports.len() == 0 {
        luts
    } else {
        recorded(recorded_all(luts, reports.drop_last()), reports.last())
    }
}

/// Whether any of the reports replaces a program.
pub open spec fn any_recorded(count: nat, reports: Seq<LutReportView>) -> bool {
    exists|i: int|
        0 <= i < reports.len() && (#[trigger] reports[i]).program is Some && 0 <= reports[i].lut
            < count
}

/// The number of work groups it takes to cover `width` items with groups
/// of `group_size`.
pub open spec fn group_count(width: int, group_size: int) -> int {
    (width + group_size - 1) / group_size
}

/// Computes how many work groups to dispatch so that every texel of a
/// table `width` wide is written once.
pub fn div_up(width: u32, group_size: u32) -> (groups: u32)
    requires
        group_size > 0,
        width + group_size <= u32::MAX,
    ensures
        groups == group_count(width as int, group_size as int),
        groups as int * group_size >= width,
        width > 0 ==> (groups as int - 1) * group_size < width,
{
    let groups = (width + group_size - 1) / group_size;
    proof {
        let n = (width + group_size - 1) as int;
        let d = group_size as int;
        vstd::arithmetic::div_mod::lemma_fundamental_div_mod(n, d);
        vstd::arithmetic::div_mod::lemma_mod_bound(n, d);
        assert(n == d * (n / d) + n % d);
        assert(d * (n / d) == (n / d) * d) by (nonlinear_arith);
        assert((groups as int - 1) * d == groups as int * d - d) by (nonlinear_arith);
    }
    groups
}

/// The lookup tables, in the order in which they were added.
pub struct LutLib {
    luts: Vec<LutState>,
}

impl View for LutLib {
    type V = Seq<LutView>;

    closed spec fn view(&self) -> Seq<LutView> {
        Seq::new(self.luts@.len(), |i: int| self.luts@[i].state())
    }
}

impl LutLib {
    /// A registry without tables.
    pub fn new() -> (lib: LutLib)
        ensures
            lib@.len() == 0,
    {
        LutLib { luts: Vec::new() }
    }

    /// Adds a table made from `lut_desc`, with `texture` as its storage.
    /// The texture has to have the format that the description asks for.
    pub fn add_lut(&mut self, lut_desc: LutDesc, texture: Texture) -> (handle: LutHandle)
        requires
            texture.internal_format == lut_desc.internal_format,
        ensures
            handle.0 == old(self)@.len(),
            final(self)@ == old(self)@.push(
                LutView {
                    width: lut_desc.width,
                    internal_format: lut_desc.internal_format,
                    name: lut_desc.name@,
                    shader_path: lut_desc.shader_path@,
                    texture,
                    gl_handle: None,
                },
            ),
    {
        let handle = LutHandle(self.luts.len());
        self.luts.push(LutState { shader: CompiledShader::new(), texture, desc: lut_desc });
        assert(self@ =~= old(self)@.push(self@[handle.0 as int]));
        handle
    }

    /// The number of tables.
    pub fn len(&self) -> (n: usize)
        ensures
            n == self@.len(),
    {
        self.luts.len()
    }

    /// The description and the texture of every table, in order.
    pub fn iter(&self) -> (all: Vec<(&LutDesc, &Texture)>)
        ensures
            all.len() == self@.len(),
            forall|i: int|
                0 <= i < all.len() ==> {
                    &&& (#[trigger] all[i]).0.width == self@[i].width
                    &&& all[i].0.internal_format == self@[i].internal_format
                    &&& all[i].0.name@ == self@[i].name
                    &&& all[i].0.shader_path@ == self@[i].shader_path
                    &&& *all[i].1 == self@[i].texture
                },
    {
        let mut all: Vec<(&LutDesc, &Texture)> = Vec::new();
        let mut i: usize = 0;
        while i < self.luts.len()
            invariant
                i <= self.luts.len(),
                all.len() == i,
                forall|k: int|
                    0 <= k < i ==> {
                        &&& (#[trigger] all[k]).0.width == self@[k].width
                        &&& all[k].0.internal_format == self@[k].internal_format
                        &&& all[k].0.name@ == self@[k].name
                        &&& all[k].0.shader_path@ == self@[k].shader_path
                        &&& *all[k].1 == self@[k].texture
                    },
            decreases self.luts.len() - i,
        {
            let lut = &self.luts[i];
            all.push((&lut.desc, &lut.texture));
            i += 1;
        }
        all
    }

    /// The program in effect for `lut`: that of its last successful build.
    pub fn get_lut_gl_handle(&self, lut: LutHandle) -> (handle: Option<u32>)
        ensures
            handle == if lut.0 < self@.len() {
                self@[lut.0 as int].gl_handle
            } else {
                None
            },
    {
        if lut.0 < self.luts.len() {
            self.luts[lut.0].shader.gl_handle
        } else {
            None
        }
    }

    /// The tables whose program has to be rebuilt, in order: those whose
    /// expanded shader source is not up to date in `cache`.
    pub fn stale_luts<T>(&self, cache: &ArtifactCache<T>) -> (stale: Vec<LutHandle>)
        requires
            cache@.wf(),
        ensures
            forall|k: int|
                0 <= k < stale.len() ==> (#[trigger] stale[k]).0 < self@.len()
                    && RegistryState::stale(cache@, self@[stale[k].0 as int].shader_path),
            forall|i: int|
                0 <= i < self@.len() && RegistryState::stale(
                    cache@,
                    (#[trigger] self@[i]).shader_path,
                ) ==> exists|k: int| 0 <= k < stale.len() && (#[trigger] stale[k]).0 == i,
            forall|k: int, m: int|
                0 <= k < m < stale.len() ==> (#[trigger] stale[k]).0 < (#[trigger] stale[m]).0,
    {
        let mut stale: Vec<LutHandle> = Vec::new();
        let mut i: usize = 0;
        while i < self.luts.len()
            invariant
                cache@.wf(),
                i <= self.luts.len(),
                forall|k: int|
                    0 <= k < stale.len() ==> (#[trigger] stale[k]).0 < i && RegistryState::stale(
                        cache@,
                        self@[stale[k].0 as int].shader_path,
                    ),
                forall|j: int|
                    0 <= j < i && RegistryState::stale(cache@, (#[trigger] self@[j]).shader_path)
                        ==> exists|k: int| 0 <= k < stale.len() && (#[trigger] stale[k]).0 == j,
                forall|k: int, m: int|
                    0 <= k < m < stale.len() ==> (#[trigger] stale[k]).0 < (#[trigger] stale[m]).0,
            decreases self.luts.len() - i,
        {
            let work = PreprocessShader { path: self.luts[i].desc.shader_path.clone() };
            let descriptor = work.descriptor();
            let current = match cache.lookup(&descriptor) {
                Some(handle) => cache.is_up_to_date(handle),
                None => false,
            };
            proof {
                assert(self@[i as int].shader_path == work.path@);
            }
            if !current {
                let ghost before = stale@;
                stale.push(LutHandle(i));
                proof {
                    assert forall|j: int|
                        0 <= j < i + 1 && RegistryState::stale(
                            cache@,
                            (#[trigger] self@[j]).shader_path,
                        ) implies exists|k: int| 0 <= k < stale.len() && (#[trigger] stale[k]).0
                        == j by {
                        if j < i {
                            let k = choose|k: int|
                                0 <= k < before.len() && (#[trigger] before[k]).0 == j;
                            assert(stale[k].0 == j);
                        } else {
                            assert(stale[before.len() as int].0 == j);
                        }
                    }
                }
            }
            i += 1;
        }
        stale
    }

    /// Takes in the reports of one pass of builds, in order. The program of
    /// a successful build replaces the one its table had; a failed build
    /// leaves it untouched. Says whether any program was replaced.
    pub fn compile_all(&mut self, reports: &Vec<LutBuildReport>) -> (changed: AnyLutsChanged)
        ensures
            final(self)@ == recorded_all(old(self)@, reports.deep_view()),
            changed == AnyLutsChanged::Yes <==> any_recorded(
                old(self)@.len(),
                reports.deep_view(),
            ),
    {
        let mut any_shaders_changed = AnyLutsChanged::No;
        let ghost views = reports.deep_view();
        let mut i: usize = 0;
        assert(views.take(0) =~= Seq::empty());
        while i < reports.len()
            invariant
                i <= reports.len(),
                views == reports.deep_view(),
                self@ == recorded_all(old(self)@, views.take(i as int)),
                self@.len() == old(self)@.len(),
                any_shaders_changed == AnyLutsChanged::Yes <==> any_recorded(
                    old(self)@.len(),
                    views.take(i as int),
                ),
            decreases reports.len() - i,
        {
            let report = &reports[i];
            let ghost before = self@;
            proof {
                assert(views[i as int] == report@);
                assert(views.take(i + 1).drop_last() =~= views.take(i as int));
                assert(views.take(i + 1).last() == report@);
            }
            match report.result {
                Ok(program) => {
                    if report.lut.0 < self.luts.len() {
                        self.luts[report.lut.0].shader.gl_handle = Some(program);
                        any_shaders_changed = AnyLutsChanged::Yes;
                        proof {
                            assert(self@ =~= recorded(before, report@));
                        }
                    }
                },
                Err(_) => {},
            }
            proof {
                let done = views.take(i as int);
                let next = views.take(i + 1);
                let count = old(self)@.len();
                if any_recorded(count, done) {
                    let w = choose|w: int|
                        0 <= w < done.len() && (#[trigger] done[w]).program is Some && 0
                            <= done[w].lut < count;
                    assert(next[w] == done[w]);
                }
                if report@.program is Some && 0 <= report@.lut < count {
                    assert(next[i as int] == report@);
                }
                if any_recorded(count, next) {
                    let w = choose|w: int|
                        0 <= w < next.len() && (#[trigger] next[w]).program is Some && 0
                            <= next[w].lut < count;
                    if w < i {
                        assert(done[w] == next[w]);
                    }
                }
            }
            i += 1;
        }
        assert(views.take(reports.len() as int) =~= views);
        any_shaders_changed
    }
}

} // verus!
