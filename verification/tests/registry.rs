use notorious6::cache::{ArtifactCache, Evaluation};
use notorious6::lut_lib::{div_up, AnyLutsChanged, LutBuildReport, LutDesc, LutHandle, LutLib};
use notorious6::shader::{PreprocessShader, ShaderError, ShaderKey, SourceChunk};
use notorious6::shader_lib::{
    pixel_shader_postamble, pixel_shader_sources, vertex_shader_source, AnyShadersChanged,
    BuildReport, ShaderLib,
};
use notorious6::texture::{Texture, RGB32F, TEXTURE_1D, TEXTURE_2D};

fn ok(key: &ShaderKey, program: u32) -> BuildReport {
    BuildReport { key: key.duplicate(), result: Ok(program) }
}

fn failed(key: &ShaderKey) -> BuildReport {
    BuildReport {
        key: key.duplicate(),
        result: Err(ShaderError::Compile("Shader failed to compile: x".to_owned())),
    }
}

#[test]
fn failed_build_keeps_the_last_good_program() {
    let mut lib = ShaderLib::new(1);
    let key = lib.add_shader("shaders/linear.glsl");
    assert_eq!(lib.get_shader_gl_handle(&key), None);
    assert_eq!(lib.compile_all(&vec![ok(&key, 10)]), AnyShadersChanged::Yes);
    assert_eq!(lib.get_shader_gl_handle(&key), Some(10));
    // the shader is edited to contain a syntax error
    assert_eq!(lib.compile_all(&vec![failed(&key)]), AnyShadersChanged::No);
    assert_eq!(lib.get_shader_gl_handle(&key), Some(10));
    // and edited back
    assert_eq!(lib.compile_all(&vec![ok(&key, 11)]), AnyShadersChanged::Yes);
    assert_eq!(lib.get_shader_gl_handle(&key), Some(11));
}

#[test]
fn shader_that_never_compiled_has_no_program() {
    let mut lib = ShaderLib::new(1);
    let key = lib.add_shader("shaders/broken.glsl");
    assert_eq!(lib.compile_all(&vec![failed(&key), failed(&key)]), AnyShadersChanged::No);
    assert_eq!(lib.get_shader_gl_handle(&key), None);
    assert_eq!(lib.compile_all(&Vec::new()), AnyShadersChanged::No);
}

#[test]
fn reports_are_taken_in_order_and_by_shader() {
    let mut lib = ShaderLib::new(1);
    let a = lib.add_shader("a.glsl");
    let b = lib.add_shader("b.glsl");
    let stranger = ShaderKey::new("c.glsl".to_owned());
    let changed = lib.compile_all(&vec![ok(&a, 1), failed(&b), ok(&a, 2), ok(&stranger, 9)]);
    assert_eq!(changed, AnyShadersChanged::Yes);
    assert_eq!(lib.get_shader_gl_handle(&a), Some(2));
    assert_eq!(lib.get_shader_gl_handle(&b), None);
    assert_eq!(lib.get_shader_gl_handle(&stranger), None);
    assert_eq!(lib.compile_all(&vec![ok(&stranger, 9)]), AnyShadersChanged::No);
    assert_eq!(lib.vs_handle(), 1);
}

#[test]
fn adding_a_shader_again_starts_it_over() {
    let mut lib = ShaderLib::new(1);
    let key = lib.add_shader("a.glsl");
    lib.compile_all(&vec![ok(&key, 5)]);
    let again = lib.add_shader("a.glsl");
    assert!(key.same(&again));
    assert_eq!(lib.get_shader_gl_handle(&key), None);
}

#[test]
fn only_shaders_with_dirty_sources_are_stale() {
    let mut cache: ArtifactCache<u32> = ArtifactCache::new();
    let mut lib = ShaderLib::new(1);
    let a = lib.add_shader("a.glsl");
    let b = lib.add_shader("b.glsl");
    let paths = |keys: Vec<ShaderKey>| -> Vec<String> {
        keys.iter().map(|k| k.path().clone()).collect()
    };
    assert_eq!(paths(lib.stale_shaders(&cache)), ["a.glsl", "b.glsl"]);
    let evaluate = |cache: &mut ArtifactCache<u32>, key: &ShaderKey| {
        let work = PreprocessShader { path: key.path().clone() };
        if let Evaluation::Run(h) = cache.evaluate(&work.descriptor()) {
            cache.complete(h, 0);
        }
    };
    evaluate(&mut cache, &a);
    assert_eq!(paths(lib.stale_shaders(&cache)), ["b.glsl"]);
    evaluate(&mut cache, &b);
    assert!(lib.stale_shaders(&cache).is_empty());
    let h = cache.lookup(&PreprocessShader { path: "a.glsl".to_owned() }.descriptor()).unwrap();
    cache.invalidate(&h.invalidation_trigger());
    assert_eq!(paths(lib.stale_shaders(&cache)), ["a.glsl"]);
}

#[test]
fn fixed_chunks() {
    let vs = vertex_shader_source();
    assert_eq!(vs.file, "no_file");
    assert_eq!(vs.line_offset, 0);
    assert!(vs.source.contains("#version 430"));
    assert!(vs.source.contains("gl_Position"));
    let post = pixel_shader_postamble();
    assert_eq!(post.file, "postamble");
    assert!(post.source.contains("SHADER_MAIN_FN"));
    let user = vec![SourceChunk { file: "u.glsl".to_owned(), line_offset: 3, source: "x".to_owned() }];
    let all = pixel_shader_sources(&user);
    assert_eq!(all.len(), 2);
    assert_eq!(all[0].file, "u.glsl");
    assert_eq!(all[0].line_offset, 3);
    assert_eq!(all[0].source, "x");
    assert_eq!(all[1].file, "postamble");
    assert_eq!(all[1].source, post.source);
}

#[test]
fn work_groups_cover_the_table() {
    assert_eq!(div_up(0, 64), 0);
    assert_eq!(div_up(1, 64), 1);
    assert_eq!(div_up(64, 64), 1);
    assert_eq!(div_up(65, 64), 2);
    assert_eq!(div_up(1024, 1), 1024);
    assert_eq!(div_up(u32::MAX - 1, 1), u32::MAX - 1);
}

fn desc(name: &str, format: u32) -> LutDesc {
    LutDesc {
        width: 256,
        internal_format: format,
        name: name.to_owned(),
        shader_path: format!("shaders/lut/{}.glsl", name),
    }
}

#[test]
fn lookup_tables_keep_their_program_on_failure() {
    let mut lib = LutLib::new();
    let a = lib.add_lut(desc("a", RGB32F), Texture::new_1d(3, 256, RGB32F));
    let b = lib.add_lut(desc("b", 0x8814), Texture::new_1d(4, 256, 0x8814));
    assert_eq!((a, b), (LutHandle(0), LutHandle(1)));
    assert_eq!(lib.len(), 2);
    let changed = lib.compile_all(&vec![
        LutBuildReport { lut: a, result: Ok(20) },
        LutBuildReport { lut: b, result: Err(ShaderError::Link("l".to_owned())) },
        LutBuildReport { lut: LutHandle(7), result: Ok(1) },
    ]);
    assert_eq!(changed, AnyLutsChanged::Yes);
    assert_eq!(lib.get_lut_gl_handle(a), Some(20));
    assert_eq!(lib.get_lut_gl_handle(b), None);
    assert_eq!(lib.get_lut_gl_handle(LutHandle(7)), None);
    let changed = lib.compile_all(&vec![LutBuildReport {
        lut: a,
        result: Err(ShaderError::Compile("c".to_owned())),
    }]);
    assert_eq!(changed, AnyLutsChanged::No);
    assert_eq!(lib.get_lut_gl_handle(a), Some(20));
    let all = lib.iter();
    assert_eq!(all.len(), 2);
    assert_eq!(all[1].0.name, "b");
    assert_eq!(all[1].1.id, 4);
    assert_eq!(all[0].1.size, [256, 1]);
    assert_eq!(all[0].1.ty, TEXTURE_1D);
}

#[test]
fn stale_lookup_tables() {
    let mut cache: ArtifactCache<u32> = ArtifactCache::new();
    let mut lib = LutLib::new();
    lib.add_lut(desc("a", RGB32F), Texture::new_1d(3, 256, RGB32F));
    lib.add_lut(desc("b", RGB32F), Texture::new_1d(4, 256, RGB32F));
    assert_eq!(lib.stale_luts(&cache), [LutHandle(0), LutHandle(1)]);
    let work = PreprocessShader { path: "shaders/lut/a.glsl".to_owned() };
    if let Evaluation::Run(h) = cache.evaluate(&work.descriptor()) {
        cache.complete(h, 0);
    }
    assert_eq!(lib.stale_luts(&cache), [LutHandle(1)]);
}

#[test]
fn texture_descriptions() {
    let t = Texture::new_2d(9, [640, 480]);
    assert_eq!((t.ty, t.id, t.size, t.internal_format), (TEXTURE_2D, 9, [640, 480], RGB32F));
}
