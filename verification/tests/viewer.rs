use notorious6::app_state::{
    frame_plan, modulo_wrapping_dec, modulo_wrapping_inc, AppState, CaptureKind, EventOutcome,
    FramePlan, Key, NeedsRedraw, PendingImageCapture, WindowInput,
};
use notorious6::capture::flip_rows;
use notorious6::image_loading::{image_format, pixel_offset, ImageFormat};
use notorious6::image_pool::{is_supported_image_file_extension, ImagePool, TextureStep};
use notorious6::path::{extension_of, file_name_of, file_stem_of};
use notorious6::setup::{
    gl_debug_message, DebugMessageClass, DEBUG_TYPE_DEPRECATED_BEHAVIOR, DEBUG_TYPE_ERROR,
    DEBUG_TYPE_PORTABILITY, DEBUG_TYPE_UNDEFINED_BEHAVIOR,
};
use notorious6::shader::{name_of, LoadFile, PreprocessedShader, ShaderKey};
use notorious6::shader_lib::{AnyShadersChanged, BuildReport};
use notorious6::texture::Texture;

fn strings(items: &[&str]) -> Vec<String> {
    items.iter().map(|s| s.to_string()).collect()
}

fn state(images: &[&str], shader_files: &[&str]) -> AppState {
    AppState::new(ImagePool::new(strings(images)), 1, &strings(shader_files))
}

fn press(key: Key) -> WindowInput {
    WindowInput::Keyboard { pressed: true, key: Some(key) }
}

const QUIET: EventOutcome = EventOutcome { needs_redraw: NeedsRedraw::No, adjust_ev: false };
const REDRAW: EventOutcome = EventOutcome { needs_redraw: NeedsRedraw::Yes, adjust_ev: false };

#[test]
fn indices_wrap_around() {
    assert_eq!(modulo_wrapping_inc(0, 3), 1);
    assert_eq!(modulo_wrapping_inc(2, 3), 0);
    assert_eq!(modulo_wrapping_dec(0, 3), 2);
    assert_eq!(modulo_wrapping_dec(2, 3), 1);
    assert_eq!(modulo_wrapping_inc(0, 1), 0);
    assert_eq!(modulo_wrapping_dec(0, 1), 0);
    assert_eq!(modulo_wrapping_inc(7, 3), 2);
    assert_eq!(modulo_wrapping_dec(7, 3), 0);
    assert_eq!(modulo_wrapping_inc(usize::MAX, usize::MAX), 1);
    assert_eq!(modulo_wrapping_dec(usize::MAX, usize::MAX), usize::MAX - 1);
    assert_eq!(modulo_wrapping_inc(usize::MAX, 16), 0);
}

#[test]
fn arrow_keys_step_through_images_and_shaders() {
    let mut s = state(&["a.exr", "b.hdr", "c.exr"], &["x.glsl", "y.glsl"]);
    assert_eq!(s.current_image_index(), 0);
    assert_eq!(s.handle_window_event(press(Key::Left)), REDRAW);
    assert_eq!(s.current_image_index(), 2);
    assert_eq!(s.handle_window_event(press(Key::Right)), REDRAW);
    assert_eq!(s.handle_window_event(press(Key::Right)), REDRAW);
    assert_eq!(s.current_image_index(), 1);
    assert_eq!(s.current_image_name().as_deref(), Some("b.hdr"));
    assert_eq!(s.current_shader(), "x");
    assert_eq!(s.handle_window_event(press(Key::Up)), REDRAW);
    assert_eq!(s.current_shader(), "y");
    assert_eq!(s.handle_window_event(press(Key::Up)), REDRAW);
    assert_eq!(s.current_shader_index(), 0);
    assert_eq!(s.handle_window_event(press(Key::Down)), REDRAW);
    assert_eq!(s.current_shader_index(), 1);
}

#[test]
fn released_and_unknown_keys_do_nothing() {
    let mut s = state(&["a.exr", "b.exr"], &["x.glsl"]);
    let released = WindowInput::Keyboard { pressed: false, key: Some(Key::Right) };
    assert_eq!(s.handle_window_event(released), QUIET);
    assert_eq!(s.handle_window_event(press(Key::Other)), QUIET);
    let unnamed = WindowInput::Keyboard { pressed: true, key: None };
    assert_eq!(s.handle_window_event(unnamed), QUIET);
    assert_eq!(s.handle_window_event(WindowInput::Other), QUIET);
    assert_eq!(s.current_image_index(), 0);
    assert!(s.pending_image_capture.is_empty());
}

#[test]
fn f12_asks_for_one_screenshot() {
    let mut s = state(&["a.exr", "b.exr"], &["x.glsl", "y.glsl"]);
    s.request_batch(0, 2, "x").unwrap();
    s.handle_window_event(press(Key::Right));
    s.handle_window_event(press(Key::Up));
    assert_eq!(s.handle_window_event(press(Key::F12)), REDRAW);
    let shot =
        PendingImageCapture { kind: CaptureKind::Screenshot, image_index: 1, shader_index: 1 };
    assert_eq!(s.pending_image_capture, vec![shot]);
    assert_eq!(s.take_pending(), vec![shot]);
    assert!(s.pending_image_capture.is_empty());
}

#[test]
fn exposure_follows_the_cursor_while_the_left_button_is_held() {
    let mut s = state(&["a.exr"], &["x.glsl"]);
    assert_eq!(s.handle_window_event(WindowInput::CursorMoved), QUIET);
    let down = WindowInput::MouseInput { left_button: true, pressed: true };
    assert_eq!(s.handle_window_event(down), QUIET);
    let dragging = EventOutcome { needs_redraw: NeedsRedraw::Yes, adjust_ev: true };
    assert_eq!(s.handle_window_event(WindowInput::CursorMoved), dragging);
    let other = WindowInput::MouseInput { left_button: false, pressed: false };
    assert_eq!(s.handle_window_event(other), QUIET);
    assert_eq!(s.handle_window_event(WindowInput::CursorMoved), dragging);
    let up = WindowInput::MouseInput { left_button: true, pressed: false };
    assert_eq!(s.handle_window_event(up), QUIET);
    assert_eq!(s.handle_window_event(WindowInput::CursorMoved), QUIET);
}

#[test]
fn shaders_are_the_glsl_files() {
    let s = state(&[], &["aces.glsl", "notes.txt", "linear.glsl", ".glsl", "x.GLSL", "glsl"]);
    assert_eq!(s.shader_key(0).unwrap().path(), "shaders/aces.glsl");
    assert_eq!(s.shader_key(1).unwrap().path(), "shaders/linear.glsl");
    assert!(s.shader_key(2).is_none());
    assert_eq!(s.shader_lib().get_shader_gl_handle(s.shader_key(1).unwrap()), None);
    assert_eq!(s.find_shader("linear"), Some(1));
    assert_eq!(s.find_shader("aces"), Some(0));
    assert_eq!(s.find_shader("shaders/aces.glsl"), None);
    assert_eq!(s.current_image_name(), None);
}

#[test]
fn batch_queues_every_image_at_every_step() {
    let mut s = state(&["a.exr", "b.exr"], &["x.glsl", "y.glsl"]);
    s.handle_window_event(press(Key::F12));
    assert!(s.request_batch(4, 3, "y").is_ok());
    let step = |image_index, step_index| PendingImageCapture {
        kind: CaptureKind::BatchStep { batch: 4, step_index },
        image_index,
        shader_index: 1,
    };
    assert_eq!(s.pending_image_capture.len(), 7);
    assert_eq!(s.pending_image_capture[0].kind, CaptureKind::Screenshot);
    assert_eq!(
        s.pending_image_capture[1..],
        [step(0, 0), step(0, 1), step(0, 2), step(1, 0), step(1, 1), step(1, 2)]
    );
    assert!(s.request_batch(5, 0, "y").is_ok());
    assert_eq!(s.pending_image_capture.len(), 7);
    // a second batch keeps apart from the first
    assert!(s.request_batch(6, 1, "x").is_ok());
    assert_eq!(s.pending_image_capture.len(), 9);
    assert_eq!(s.pending_image_capture[6], step(1, 2));
    assert_eq!(
        s.pending_image_capture[8],
        PendingImageCapture {
            kind: CaptureKind::BatchStep { batch: 6, step_index: 0 },
            image_index: 1,
            shader_index: 0,
        }
    );
}

#[test]
fn batch_with_unknown_shader_queues_nothing() {
    let mut s = state(&["a.exr"], &["x.glsl"]);
    let err = s.request_batch(0, 3, "nope").unwrap_err();
    assert_eq!(err.name, "nope");
    assert!(s.pending_image_capture.is_empty());
}

#[test]
fn compiled_shaders_reach_the_registry() {
    let mut s = state(&["a.exr"], &["x.glsl"]);
    let key = s.shader_key(0).unwrap().duplicate();
    let changed = s.compile_shaders(&vec![BuildReport { key: key.duplicate(), result: Ok(4) }]);
    assert_eq!(changed, AnyShadersChanged::Yes);
    assert_eq!(s.shader_lib().get_shader_gl_handle(&key), Some(4));
}

#[test]
fn frame_plans() {
    assert_eq!(frame_plan(true, Some(3)), FramePlan::Draw { program: 3 });
    assert_eq!(frame_plan(false, Some(3)), FramePlan::NoTexture);
    assert_eq!(frame_plan(true, None), FramePlan::NoShader);
    assert_eq!(frame_plan(false, None), FramePlan::NoShader);
}

#[test]
fn image_goes_from_file_to_texture() {
    let mut s = state(&["a.exr", "b.hdr"], &[]);
    assert!(matches!(s.image_pool().get_texture(0), TextureStep::Load));
    s.texture_created(0, Texture::new_2d(1, [2, 2]));
    assert!(matches!(s.image_pool().get_texture(0), TextureStep::Load));
    s.image_loaded(0, true);
    assert!(matches!(s.image_pool().get_texture(0), TextureStep::Upload));
    s.texture_created(0, Texture::new_2d(5, [2, 2]));
    s.texture_created(0, Texture::new_2d(6, [2, 2]));
    s.image_loaded(0, false);
    match s.image_pool().get_texture(0) {
        TextureStep::Ready(t) => assert_eq!(t.id, 5),
        other => panic!("{:?}", other),
    }
    s.image_loaded(1, false);
    assert!(matches!(s.image_pool().get_texture(1), TextureStep::Unavailable));
    s.image_loaded(1, true);
    assert!(matches!(s.image_pool().get_texture(1), TextureStep::Unavailable));
    assert!(matches!(s.image_pool().get_texture(2), TextureStep::Unavailable));
    s.image_loaded(9, true);
}

#[test]
fn pool_of_a_directory_keeps_the_images() {
    let pool = ImagePool::new(strings(&["img/a.exr", "img/readme.md", "img/b.hdr", "img/c.png", "img/exr"]));
    assert_eq!(pool.image_count(), 2);
    assert_eq!(pool.get_image_path(0).unwrap(), "img/a.exr");
    assert_eq!(pool.get_image_path(1).unwrap(), "img/b.hdr");
    assert!(pool.get_image_path(2).is_none());
    let single = ImagePool::from_file("whatever.png".to_owned());
    assert_eq!(single.image_count(), 1);
    assert_eq!(single.get_image_path(0).unwrap(), "whatever.png");
}

#[test]
fn image_formats_go_by_extension() {
    assert_eq!(image_format("a/b.exr"), Some(ImageFormat::Exr));
    assert_eq!(image_format("b.hdr"), Some(ImageFormat::Hdr));
    assert_eq!(image_format("b.HDR"), None);
    assert_eq!(image_format("b.exr.bak"), None);
    assert_eq!(image_format(".exr"), None);
    assert_eq!(image_format("dir.exr/"), Some(ImageFormat::Exr));
    assert_eq!(image_format("a.hdr/."), Some(ImageFormat::Hdr));
    assert_eq!(image_format("exr"), None);
    assert!(is_supported_image_file_extension("x.exr"));
    assert!(!is_supported_image_file_extension("x.jpg"));
    assert_eq!(pixel_offset(10, 3, 2), 69);
    assert_eq!(pixel_offset(0, 0, 5), 0);
}

#[test]
fn parts_of_paths_are_those_of_std() {
    for path in [
        "", "/", ".", "..", "./", "a", "a/", "a//", "a/.", "a/./", "a/..", "a/../", "./a", "../a",
        "a/b.c", "a/b.c/", "a/.b", "a/b.", "a/b..c", "a/...", "/a.b", "a.b/c", "x/y.tar.gz/./",
        ".hidden", "a/.hidden.txt", "//.", "a/b/./.",
    ] {
        let std_path = std::path::Path::new(path);
        let name = std_path.file_name().map(|p| p.to_string_lossy().into_owned());
        let stem = std_path.file_stem().map(|p| p.to_string_lossy().into_owned());
        let extension = std_path.extension().map(|p| p.to_string_lossy().into_owned());
        assert_eq!(file_name_of(path), name, "name of {:?}", path);
        assert_eq!(file_stem_of(path), stem, "stem of {:?}", path);
        assert_eq!(extension_of(path), extension, "extension of {:?}", path);
    }
}

#[test]
fn parts_of_paths() {
    assert_eq!(file_name_of("shaders/a.glsl").as_deref(), Some("a.glsl"));
    assert_eq!(file_name_of("a.glsl").as_deref(), Some("a.glsl"));
    assert_eq!(file_name_of("a/.."), None);
    assert_eq!(file_name_of(".."), None);
    assert_eq!(file_name_of("a/").as_deref(), Some("a"));
    assert_eq!(file_name_of("tmp/foo.txt/.//").as_deref(), Some("foo.txt"));
    assert_eq!(file_name_of("a/b/./.").as_deref(), Some("b"));
    assert_eq!(file_name_of("./a").as_deref(), Some("a"));
    assert_eq!(file_name_of("a/../"), None);
    assert_eq!(file_name_of("."), None);
    assert_eq!(file_name_of("./"), None);
    assert_eq!(file_name_of("/"), None);
    assert_eq!(file_name_of("//."), None);
    assert_eq!(file_name_of("a/b."), Some("b.".to_owned()));
    assert_eq!(file_name_of(""), None);
    assert_eq!(file_name_of("a/..."), Some("...".to_owned()));
    assert_eq!(file_stem_of("shaders/a.glsl").as_deref(), Some("a"));
    assert_eq!(file_stem_of("a.tar.gz").as_deref(), Some("a.tar"));
    assert_eq!(file_stem_of(".hidden").as_deref(), Some(".hidden"));
    assert_eq!(file_stem_of("plain").as_deref(), Some("plain"));
    assert_eq!(file_stem_of("dot.").as_deref(), Some("dot"));
    assert_eq!(file_stem_of("dir/").as_deref(), Some("dir"));
    assert_eq!(file_stem_of("dir/a.glsl/.").as_deref(), Some("a"));
    assert_eq!(extension_of("a.tar.gz").as_deref(), Some("gz"));
    assert_eq!(extension_of(".hidden"), None);
    assert_eq!(extension_of("plain"), None);
    assert_eq!(extension_of("dot.").as_deref(), Some(""));
    assert_eq!(extension_of("a.b/c"), None);
}

#[test]
fn shader_names() {
    assert_eq!(name_of("shaders/aces.glsl"), "aces");
    assert_eq!(name_of(""), "unknown");
    assert_eq!(name_of("shaders/"), "shaders");
    assert_eq!(name_of("/"), "unknown");
    assert_eq!(name_of("shaders/.."), "unknown");
    assert_eq!(ShaderKey::new("shaders/tone.map.glsl".to_owned()).name(), "tone.map");
    let shader = PreprocessedShader::new("shaders/aces.glsl", Vec::new());
    assert_eq!(shader.name, "aces");
    assert!(shader.source.is_empty());
    let load = LoadFile::new("/abs/a.glsl".to_owned());
    assert_eq!(load.path(), "/abs/a.glsl");
    assert_eq!(load.descriptor().path, "/abs/a.glsl");
}

#[test]
fn rows_are_flipped() {
    // 1 pixel wide, 3 high
    let mut p: Vec<u8> = (0..12).collect();
    flip_rows(&mut p, 1, 3);
    assert_eq!(p, [8, 9, 10, 11, 4, 5, 6, 7, 0, 1, 2, 3]);
    // 2 wide, 2 high
    let mut p: Vec<u8> = (0..16).collect();
    flip_rows(&mut p, 2, 2);
    assert_eq!(p, [8, 9, 10, 11, 12, 13, 14, 15, 0, 1, 2, 3, 4, 5, 6, 7]);
    let mut p: Vec<u8> = (0..8).collect();
    flip_rows(&mut p, 2, 1);
    assert_eq!(p, [0, 1, 2, 3, 4, 5, 6, 7]);
    let mut empty: Vec<u8> = Vec::new();
    flip_rows(&mut empty, 0, 5);
    flip_rows(&mut empty, 5, 0);
    assert!(empty.is_empty());
    // flipping twice gives the image back
    let original: Vec<u8> = (0..60).collect();
    let mut p = original.clone();
    flip_rows(&mut p, 3, 5);
    assert_ne!(p, original);
    flip_rows(&mut p, 3, 5);
    assert_eq!(p, original);
}

#[test]
fn debug_messages_are_classified() {
    for id in [131216, 131185, 131169, 131154] {
        assert_eq!(gl_debug_message(id, DEBUG_TYPE_ERROR), DebugMessageClass::Ignored);
    }
    for ty in [
        DEBUG_TYPE_ERROR,
        DEBUG_TYPE_UNDEFINED_BEHAVIOR,
        DEBUG_TYPE_DEPRECATED_BEHAVIOR,
        DEBUG_TYPE_PORTABILITY,
    ] {
        assert_eq!(gl_debug_message(1, ty), DebugMessageClass::Important);
    }
    // performance and other messages
    assert_eq!(gl_debug_message(1, 0x8250), DebugMessageClass::Minor);
    assert_eq!(gl_debug_message(131217, 0x8251), DebugMessageClass::Minor);
}
