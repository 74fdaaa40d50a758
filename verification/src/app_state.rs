//! The state of the viewer that is not on the GPU: which image and shader
//! are shown, what is waiting to be captured, and how input changes that.

use crate::image_pool::{after_load, after_upload, ImagePool, ImageState};
use crate::text::string_views;
use crate::texture::Texture;
use crate::path::{extension, extension_of, file_name, file_name_of};
use crate::shader::{shader_name, ShaderKey};
use crate::shader_lib::{AnyShadersChanged, BuildReport, RegistryState, ShaderLib};
use vstd::prelude::*;

verus! {

/// Whether an event changed something that is visible on screen.
#[derive(Clone, Copy, Debug, PartialEq, Eq, Structural)]
pub enum NeedsRedraw {
    Yes,
    No,
}

/// The index after `value` in a ring of `modulo` slots.
pub open spec fn wrapping_inc(value: int, modulo: int) -> int {
    (value + 1) % modulo
}

/// The index before `value` in a ring of `modulo` slots.
pub open spec fn wrapping_dec(value: int, modulo: int) -> int {
    (value + (modulo - 1)) % modulo
}

/// Steps `value` forward by one slot, wrapping to 0 at `modulo`.
pub fn modulo_wrapping_inc(value: usize, modulo: usize) -> (next: usize)
    requires
        modulo > 0,
    ensures
        next == wrapping_inc(value as int, modulo as int),
        next < modulo,
{
    let v = value % modulo;
    proof {
        let m = modulo as int;
        let q = value as int / m;
        vstd::arithmetic::div_mod::lemma_fundamental_div_mod(value as int, m);
        assert(m * q == q * m) by (nonlinear_arith);
        assert((q + 1) * m == q * m + m) by (nonlinear_arith);
        if v + 1 == modulo {
            vstd::arithmetic::div_mod::lemma_fundamental_div_mod_converse(value + 1, m, q + 1, 0);
        } else {
            vstd::arithmetic::div_mod::lemma_fundamental_div_mod_converse(value + 1, m, q, v + 1);
        }
    }
    if v + 1 == modulo {
        0
    } else {
        v + 1
    }
}

/// Steps `value` back by one slot, wrapping to `modulo - 1` below 0.
pub fn modulo_wrapping_dec(value: usize, modulo: usize) -> (next: usize)
    requires
        modulo > 0,
    ensures
        next == wrapping_dec(value as int, modulo as int),
        next < modulo,
{
    let v = value % modulo;
    proof {
        let m = modulo as int;
        let q = value as int / m;
        vstd::arithmetic::div_mod::lemma_fundamental_div_mod(value as int, m);
        assert(m * q == q * m) by (nonlinear_arith);
        assert((q + 1) * m == q * m + m) by (nonlinear_arith);
        if v == 0 {
            vstd::arithmetic::div_mod::lemma_fundamental_div_mod_converse(
                value + (m - 1),
                m,
                q,
                m - 1,
            );
        } else {
            vstd::arithmetic::div_mod::lemma_fundamental_div_mod_converse(
                value + (m - 1),
                m,
                q + 1,
                v - 1,
            );
        }
    }
    if v == 0 {
        modulo - 1
    } else {
        v - 1
    }
}

/// The keys that the viewer reacts to.
#[derive(Clone, Copy, Debug, PartialEq, Eq, Structural)]
pub enum Key {
    Left,
    Right,
    Up,
    Down,
    F12,
    Other,
}

/// What the window reports, as far as the viewer cares.
#[derive(Clone, Copy, Debug, PartialEq, Eq, Structural)]
pub enum WindowInput {
    /// A key went down or up; `key` is none if the window system could not
    /// name it.
    Keyboard { pressed: bool, key: Option<Key> },
    /// The cursor moved.
    CursorMoved,
    /// A mouse button went down or up.
    MouseInput { left_button: bool, pressed: bool },
    /// Anything else.
    Other,
}

/// What an event asks of the caller.
#[derive(Clone, Copy, Debug, PartialEq, Eq, Structural)]
pub struct EventOutcome {
    /// Whether the window has to be drawn again.
    pub needs_redraw: NeedsRedraw,
    /// Whether the exposure follows the cursor: the caller changes it by
    /// the vertical distance that the cursor moved.
    pub adjust_ev: bool,
}

/// What a capture is for.
#[derive(Clone, Copy, Debug, PartialEq, Eq, Structural)]
pub enum CaptureKind {
    /// A screenshot of what is shown, at the exposure in effect.
    Screenshot,
    /// Step `step_index` of the batch that was requested as `batch`, at the
    /// exposure of that step of that batch.
    BatchStep { batch: usize, step_index: usize },
}

/// An image that is waiting to be rendered and saved.
#[derive(Clone, Copy, Debug, PartialEq, Eq, Structural)]
pub struct PendingImageCapture {
    pub kind: CaptureKind,
    pub image_index: usize,
    pub shader_index: usize,
}

/// A batch was asked for with a shader that the viewer does not have.
#[derive(Clone, Debug)]
pub struct UnknownShader {
    pub name: String,
}

/// What is to be put on screen.
#[derive(Clone, Copy, Debug, PartialEq, Eq, Structural)]
pub enum FramePlan {
    /// Draw the image with the program.
    Draw { program: u32 },
    /// Clear to the color that says: no shader compiled yet.
    NoShader,
    /// Clear to the color that says: the texture is unavailable.
    NoTexture,
}

/// Decides what to put on screen, given whether the texture of the image
/// is there and the program in effect for the shader.
pub fn frame_plan(texture_ready: bool, program: Option<u32>) -> (plan: FramePlan)
    ensures
        plan == match program {
            Some(p) => if texture_ready {
                FramePlan::Draw { program: p }
            } else {
                FramePlan::NoTexture
            },
            None => FramePlan::NoShader,
        },
{
    match program {
        Some(p) => if texture_ready {
            FramePlan::Draw { program: p }
        } else {
            FramePlan::NoTexture
        },
        None => FramePlan::NoShader,
    }
}

/// The directory that the shaders are taken from.
pub open spec fn shaders_folder() -> Seq<char> {
    "shaders"@
}

/// Whether the file named `file_name` is a shader.
pub open spec fn is_shader_file(file_name: Seq<char>) -> bool {
    extension(file_name) == Some("glsl"@)
}

/// The path by which the shader file `file_name` is registered.
pub open spec fn shader_path(file_name: Seq<char>) -> Seq<char> {
    shaders_folder() + seq!['/'] + file_name
}

/// The paths of the shaders among the files named `names`, in order.
pub open spec fn shader_paths(names: Seq<Seq<char>>) -> Seq<Seq<char>>
    decreases names.len(),
{
    if names.len() == 0 {
        Seq::empty()
    } else {
        let rest = shader_paths(names.drop_last());
        if is_shader_file(names.last()) {
            rest.push(shader_path(names.last()))
        } else {
            rest
        }
    }
}

/// The registry after the shaders at `paths` were added in order.
pub open spec fn added_all(registry: RegistryState, paths: Seq<Seq<char>>) -> RegistryState
    decreases paths.len(),
{
    if paths.len() == 0 {
        registry
    } else {
        added_all(registry, paths.drop_last()).add(paths.last())
    }
}

/// The captures of a batch: for every image in turn, one for every step.
pub open spec fn batch_captures(
    image_count: int,
    step_count: int,
    batch: usize,
    shader_index: usize,
) -> Seq<PendingImageCapture> {
    Seq::new(
        (image_count * step_count) as nat,
        |k: int|
            PendingImageCapture {
                kind: CaptureKind::BatchStep { batch, step_index: (k % step_count) as usize },
                image_index: (k / step_count) as usize,
                shader_index,
            },
    )
}

/// The position of the first of `shaders` that goes by `name`, or the
/// number of shaders if none does.
pub open spec fn first_named(shaders: Seq<Seq<char>>, name: Seq<char>) -> int
    decreases shaders.len(),
{
    if shaders.len() == 0 {
        0
    } else if shader_name(shaders.first()) == name {
        0
    } else {
        1 + first_named(shaders.drop_first(), name)
    }
}

struct InteractionState {
    dragging_ev: bool,
}

/// The abstract state of the viewer.
pub struct AppView {
    pub images: Seq<ImageState>,
    pub current_image: int,
    pub registry: RegistryState,
    pub current_shader: int,
    pub shaders: Seq<Seq<char>>,
    pub dragging_ev: bool,
    pub pending: Seq<PendingImageCapture>,
}

impl AppView {
    /// The indices of the image and the shader that are shown point at an
    /// image and a shader, or are 0 where there is none.
    pub open spec fn wf(self) -> bool {
        &&& self.registry.wf()
        &&& 0 <= self.current_image
        &&& 0 <= self.current_shader
        &&& self.current_image < self.images.len() || self.current_image == 0
        &&& self.current_shader < self.shaders.len() || self.current_shader == 0
    }

    /// The state after a key went down.
    pub open spec fn key_pressed(self, key: Key) -> Self {
        match key {
            Key::Left => AppView {
                current_image: wrapping_dec(self.current_image, self.images.len() as int),
                ..self
            },
            Key::Right => AppView {
                current_image: wrapping_inc(self.current_image, self.images.len() as int),
                ..self
            },
            Key::Up => AppView {
                current_shader: wrapping_inc(self.current_shader, self.shaders.len() as int),
                ..self
            },
            Key::Down => AppView {
                current_shader: wrapping_dec(self.current_shader, self.shaders.len() as int),
                ..self
            },
            Key::F12 => AppView {
                pending: seq![
                    PendingImageCapture {
                        kind: CaptureKind::Screenshot,
                        image_index: self.current_image as usize,
                        shader_index: self.current_shader as usize,
                    },
                ],
                ..self
            },
            Key::Other => self,
        }
    }

    /// Whether `key` can be taken: stepping through images needs an image,
    /// stepping through shaders needs a shader.
    pub open spec fn takes(self, key: Key) -> bool {
        match key {
            Key::Left | Key::Right => self.images.len() > 0,
            Key::Up | Key::Down => self.shaders.len() > 0,
            _ => true,
        }
    }

    /// Whether `event` can be taken.
    pub open spec fn takes_event(self, event: WindowInput) -> bool {
        match event {
            WindowInput::Keyboard { pressed: true, key: Some(key) } => self.takes(key),
            _ => true,
        }
    }

    /// The state after `event`.
    pub open spec fn after(self, event: WindowInput) -> Self {
        match event {
            WindowInput::Keyboard { pressed: true, key: Some(key) } => self.key_pressed(key),
            WindowInput::MouseInput { left_button: true, pressed } => AppView {
                dragging_ev: pressed,
                ..self
            },
            _ => self,
        }
    }

    /// What `event` asks of the caller.
    pub open spec fn outcome(self, event: WindowInput) -> EventOutcome {
        match event {
            WindowInput::Keyboard { pressed: true, key: Some(key) } => EventOutcome {
                needs_redraw: if key == Key::Other {
                    NeedsRedraw::No
                } else {
                    NeedsRedraw::Yes
                },
                adjust_ev: false,
            },
            WindowInput::CursorMoved => EventOutcome {
                needs_redraw: if self.dragging_ev {
                    NeedsRedraw::Yes
                } else {
                    NeedsRedraw::No
                },
                adjust_ev: self.dragging_ev,
            },
            _ => EventOutcome { needs_redraw: NeedsRedraw::No, adjust_ev: false },
        }
    }
}

/// The viewer's state.
pub struct AppState {
    image_pool: ImagePool,
    current_image: usize,
    shader_lib: ShaderLib,
    current_shader: usize,
    shaders: Vec<ShaderKey>,
    interaction: InteractionState,
    pub pending_image_capture: Vec<PendingImageCapture>,
}

impl View for AppState {
    type V = AppView;

    closed spec fn view(&self) -> AppView {
        AppView {
            images: self.image_pool@,
            current_image: self.current_image as int,
            registry: self.shader_lib@,
            current_shader: self.current_shader as int,
            shaders: Seq::new(self.shaders@.len(), |i: int| self.shaders@[i]@),
            dragging_ev: self.interaction.dragging_ev,
            pending: self.pending_image_capture@,
        }
    }
}

impl AppState {
    /// The viewer's state at its start: the first image and the first
    /// shader are shown, and the shaders are those among the files named
    /// `shader_files` that have the extension `glsl`.
    pub fn new(image_pool: ImagePool, vs_handle: u32, shader_files: &Vec<String>) -> (state:
        AppState)
        ensures
            state@.wf(),
            state@.images == image_pool@,
            state@.current_image == 0,
            state@.current_shader == 0,
            state@.shaders == shader_paths(string_views(shader_files@)),
            state@.registry == added_all(
                RegistryState { shaders: Seq::empty(), vs_handle },
                state@.shaders,
            ),
            !state@.dragging_ev,
            state@.pending.len() == 0,
    {
        let mut shader_lib = ShaderLib::new(vs_handle);
        let mut shaders: Vec<ShaderKey> = Vec::new();
        let ghost names = string_views(shader_files@);
        let ghost empty = RegistryState { shaders: Seq::empty(), vs_handle };
        let ghost mut paths: Seq<Seq<char>> = Seq::empty();
        let mut i: usize = 0;
        proof {
            assert(names.take(0) =~= Seq::empty());
        }
        while i < shader_files.len()
            invariant
                i <= shader_files.len(),
                names == string_views(shader_files@),
                empty == (RegistryState { shaders: Seq::empty(), vs_handle }),
                paths == shader_paths(names.take(i as int)),
                shaders@.len() == paths.len(),
                forall|k: int| 0 <= k < shaders@.len() ==> (#[trigger] shaders@[k])@ == paths[k],
                shader_lib@.wf(),
                shader_lib@ == added_all(empty, paths),
            decreases shader_files.len() - i,
        {
            let name = &shader_files[i];
            proof {
                assert(names.take(i + 1).drop_last() =~= names.take(i as int));
                assert(names.take(i + 1).last() == name@);
            }
            let is_shader = match extension_of(name.as_str()) {
                Some(ext) => ext == "glsl".to_owned(),
                None => false,
            };
            if is_shader {
                let mut path = "shaders".to_owned();
                path.push('/');
                path.append(name.as_str());
                proof {
                    assert(path@ =~= shader_path(name@));
                }
                let key = shader_lib.add_shader(path.as_str());
                shaders.push(key);
                proof {
                    let before = paths;
                    paths = paths.push(path@);
                    assert(paths.drop_last() =~= before);
                }
            }
            i += 1;
        }
        proof {
            assert(names.take(shader_files.len() as int) =~= names);
        }
        let state = AppState {
            image_pool,
            current_image: 0,
            shader_lib,
            current_shader: 0,
            shaders,
            interaction: InteractionState { dragging_ev: false },
            pending_image_capture: Vec::new(),
        };
        assert(state@.shaders =~= paths);
        state
    }

    /// The images on offer.
    pub fn image_pool(&self) -> (pool: &ImagePool)
        ensures
            pool@ == self@.images,
    {
        &self.image_pool
    }

    /// Records how decoding the image at `idx` went.
    pub fn image_loaded(&mut self, idx: usize, ok: bool)
        requires
            old(self)@.wf(),
        ensures
            final(self)@.wf(),
            final(self)@ == (AppView {
                images: after_load(old(self)@.images, idx as int, ok),
                ..old(self)@
            }),
    {
        self.image_pool.image_loaded(idx, ok);
    }

    /// Records the texture that was made for the loaded image at `idx`.
    pub fn texture_created(&mut self, idx: usize, texture: Texture)
        requires
            old(self)@.wf(),
        ensures
            final(self)@.wf(),
            final(self)@ == (AppView {
                images: after_upload(old(self)@.images, idx as int, texture),
                ..old(self)@
            }),
    {
        self.image_pool.texture_created(idx, texture);
    }

    /// The shader registry.
    pub fn shader_lib(&self) -> (lib: &ShaderLib)
        ensures
            lib@ == self@.registry,
    {
        &self.shader_lib
    }

    /// The index of the image that is shown.
    pub fn current_image_index(&self) -> (index: usize)
        ensures
            index == self@.current_image,
    {
        self.current_image
    }

    /// The index of the shader that is shown.
    pub fn current_shader_index(&self) -> (index: usize)
        ensures
            index == self@.current_shader,
    {
        self.current_shader
    }

    /// The key of the shader at `index`.
    pub fn shader_key(&self, index: usize) -> (key: Option<&ShaderKey>)
        ensures
            match key {
                Some(k) => index < self@.shaders.len() && k@ == self@.shaders[index as int],
                None => index >= self@.shaders.len(),
            },
    {
        if index < self.shaders.len() {
            Some(&self.shaders[index])
        } else {
            None
        }
    }

    /// Takes in the reports of one pass of shader builds.
    pub fn compile_shaders(&mut self, reports: &Vec<BuildReport>) -> (changed: AnyShadersChanged)
        requires
            old(self)@.wf(),
        ensures
            final(self)@.wf(),
            final(self)@ == (AppView {
                registry: old(self)@.registry.record_all(reports.deep_view()),
                ..old(self)@
            }),
            final(self)@.registry.vs_handle == old(self)@.registry.vs_handle,
            changed == AnyShadersChanged::Yes <==> old(self)@.registry.any_replaces(
                reports.deep_view(),
            ),
    {
        self.shader_lib.compile_all(reports)
    }

    fn handle_keyboard_input(&mut self, pressed: bool, key: Option<Key>) -> (needs_redraw:
        NeedsRedraw)
        requires
            old(self)@.wf(),
            old(self)@.takes_event(WindowInput::Keyboard { pressed, key }),
        ensures
            final(self)@.wf(),
            final(self)@ == old(self)@.after(WindowInput::Keyboard { pressed, key }),
            needs_redraw == old(self)@.outcome(
                WindowInput::Keyboard { pressed, key },
            ).needs_redraw,
    {
        if !pressed {
            return NeedsRedraw::No;
        }
        match key {
            Some(Key::Left) => {
                self.current_image = modulo_wrapping_dec(
                    self.current_image,
                    self.image_pool.image_count(),
                );
                NeedsRedraw::Yes
            },
            Some(Key::Right) => {
                self.current_image = modulo_wrapping_inc(
                    self.current_image,
                    self.image_pool.image_count(),
                );
                NeedsRedraw::Yes
            },
            Some(Key::Up) => {
                self.current_shader = modulo_wrapping_inc(self.current_shader, self.shaders.len());
                NeedsRedraw::Yes
            },
            Some(Key::Down) => {
                self.current_shader = modulo_wrapping_dec(self.current_shader, self.shaders.len());
                NeedsRedraw::Yes
            },
            Some(Key::F12) => {
                let mut pending: Vec<PendingImageCapture> = Vec::new();
                pending.push(
                    PendingImageCapture {
                        kind: CaptureKind::Screenshot,
                        image_index: self.current_image,
                        shader_index: self.current_shader,
                    },
                );
                self.pending_image_capture = pending;
                assert(self@.pending =~= old(self)@.key_pressed(Key::F12).pending);
                NeedsRedraw::Yes
            },
            _ => NeedsRedraw::No,
        }
    }

    /// Takes in an event of the window. Arrow keys step through the images
    /// and the shaders, F12 asks for a screenshot in place of whatever was
    /// waiting to be captured, and the left mouse button makes the exposure
    /// follow the cursor for as long as it is held.
    pub fn handle_window_event(&mut self, event: WindowInput) -> (outcome: EventOutcome)
        requires
            old(self)@.wf(),
            old(self)@.takes_event(event),
        ensures
            final(self)@.wf(),
            final(self)@ == old(self)@.after(event),
            outcome == old(self)@.outcome(event),
    {
        match event {
            WindowInput::Keyboard { pressed, key } => {
                let needs_redraw = self.handle_keyboard_input(pressed, key);
                EventOutcome { needs_redraw, adjust_ev: false }
            },
            WindowInput::CursorMoved => {
                if self.interaction.dragging_ev {
                    EventOutcome { needs_redraw: NeedsRedraw::Yes, adjust_ev: true }
                } else {
                    EventOutcome { needs_redraw: NeedsRedraw::No, adjust_ev: false }
                }
            },
            WindowInput::MouseInput { left_button, pressed } => {
                if left_button {
                    self.interaction.dragging_ev = pressed;
                }
                EventOutcome { needs_redraw: NeedsRedraw::No, adjust_ev: false }
            },
            WindowInput::Other => EventOutcome { needs_redraw: NeedsRedraw::No, adjust_ev: false },
        }
    }

    /// The name of the shader that is shown.
    pub fn current_shader(&self) -> (name: String)
        requires
            self@.wf(),
            self@.shaders.len() > 0,
        ensures
            name@ == shader_name(self@.shaders[self@.current_shader]),
    {
        self.shaders[self.current_shader].name()
    }

    /// The file name of the image that is shown.
    pub fn current_image_name(&self) -> (name: Option<String>)
        requires
            self@.wf(),
        ensures
            match name {
                Some(n) => self@.current_image < self@.images.len() && file_name(
                    self@.images[self@.current_image].path,
                ) == Some(n@),
                None => self@.current_image >= self@.images.len() || file_name(
                    self@.images[self@.current_image].path,
                ) is None,
            },
    {
        match self.image_pool.get_image_path(self.current_image) {
            Some(path) => file_name_of(path.as_str()),
            None => None,
        }
    }

    /// The index of the first shader that goes by `shader_name`.
    pub fn find_shader(&self, name: &str) -> (found: Option<usize>)
        ensures
            match found {
                Some(i) => i == first_named(self@.shaders, name@) && i < self@.shaders.len(),
                None => first_named(self@.shaders, name@) == self@.shaders.len(),
            },
    {
        let ghost all = self@.shaders;
        let wanted = name.to_owned();
        let mut i: usize = 0;
        assert(all.skip(0) =~= all);
        while i < self.shaders.len()
            invariant
                i <= self.shaders.len(),
                all == self@.shaders,
                wanted@ == name@,
                first_named(all, name@) == i + first_named(all.skip(i as int), name@),
            decreases self.shaders.len() - i,
        {
            proof {
                assert(all.skip(i as int).first() == self.shaders@[i as int]@);
                assert(all.skip(i as int).drop_first() =~= all.skip(i + 1));
            }
            if self.shaders[i].name() == wanted {
                return Some(i);
            }
            i += 1;
        }
        assert(all.skip(self.shaders.len() as int) =~= Seq::empty());
        None
    }

    /// Queues a batch: every image rendered with the shader called
    /// `shader_name`, once for each of `step_count` exposure steps. The
    /// captures are put behind those that are waiting already, and each
    /// carries `batch`, by which the caller tells the exposures of one batch
    /// from those of another. Nothing is queued if no shader goes by that
    /// name.
    pub fn request_batch(&mut self, batch: usize, step_count: usize, shader_name: &str) -> (queued:
        Result<(), UnknownShader>)
        requires
            old(self)@.wf(),
            old(self)@.images.len() * step_count <= usize::MAX,
        ensures
            final(self)@.wf(),
            match queued {
                Ok(_) => {
                    let shader_index = first_named(old(self)@.shaders, shader_name@);
                    &&& shader_index < old(self)@.shaders.len()
                    &&& final(self)@ == (AppView {
                        pending: old(self)@.pending + batch_captures(
                            old(self)@.images.len() as int,
                            step_count as int,
                            batch,
                            shader_index as usize,
                        ),
                        ..old(self)@
                    })
                },
                Err(e) => {
                    &&& first_named(old(self)@.shaders, shader_name@) == old(self)@.shaders.len()
                    &&& e.name@ == shader_name@
                    &&& final(self)@ == old(self)@
                },
            },
    {
        let shader_index = match self.find_shader(shader_name) {
            Some(i) => i,
            None => {
                return Err(UnknownShader { name: shader_name.to_owned() });
            },
        };
        let image_count = self.image_pool.image_count();
        let ghost want = batch_captures(image_count as int, step_count as int, batch, shader_index);
        let ghost before = self.pending_image_capture@;
        let mut image_index: usize = 0;
        while image_index < image_count
            invariant
                image_index <= image_count,
                image_count * step_count <= usize::MAX,
                image_count == self@.images.len(),
                want == batch_captures(image_count as int, step_count as int, batch, shader_index),
                self@ == (AppView { pending: self@.pending, ..old(self)@ }),
                self.pending_image_capture@ == before + want.take(image_index * step_count),
            decreases image_count - image_index,
        {
            let mut step_index: usize = 0;
            proof {
                assert(image_index * step_count + step_count <= image_count * step_count)
                    by (nonlinear_arith)
                    requires
                        image_index < image_count,
                ;
            }
            while step_index < step_count
                invariant
                    step_index <= step_count,
                    image_index < image_count,
                    image_index * step_count + step_count <= image_count * step_count,
                    image_count * step_count <= usize::MAX,
                    image_count == self@.images.len(),
                    want == batch_captures(image_count as int, step_count as int, batch, shader_index),
                    self@ == (AppView { pending: self@.pending, ..old(self)@ }),
                    self.pending_image_capture@ == before + want.take(
                        image_index * step_count + step_index,
                    ),
                decreases step_count - step_index,
            {
                let ghost k: int = image_index * step_count + step_index;
                let ghost was = self.pending_image_capture@;
                self.pending_image_capture.push(
                    PendingImageCapture {
                        kind: CaptureKind::BatchStep { batch, step_index },
                        image_index,
                        shader_index,
                    },
                );
                proof {
                    vstd::arithmetic::div_mod::lemma_fundamental_div_mod_converse(
                        k,
                        step_count as int,
                        image_index as int,
                        step_index as int,
                    );
                    assert(want.len() == image_count * step_count);
                    assert(want[k] == self.pending_image_capture@[was.len() as int]);
                    assert(want.take(k + 1) =~= want.take(k).push(want[k]));
                    assert(self.pending_image_capture@ =~= before + want.take(k + 1));
                }
                step_index += 1;
            }
            proof {
                assert((image_index + 1) * step_count == image_index * step_count + step_count)
                    by (nonlinear_arith);
            }
            image_index += 1;
        }
        proof {
            assert(want.take(image_count * step_count) =~= want);
        }
        Ok(())
    }

    /// Takes the captures that are waiting, leaving none.
    pub fn take_pending(&mut self) -> (pending: Vec<PendingImageCapture>)
        ensures
            pending@ == old(self)@.pending,
            final(self)@ == (AppView { pending: Seq::empty(), ..old(self)@ }),
    {
        let mut taken: Vec<PendingImageCapture> = Vec::new();
        std::mem::swap(&mut taken, &mut self.pending_image_capture);
        assert(self@.pending =~= Seq::empty());
        taken
    }
}

} // verus!
