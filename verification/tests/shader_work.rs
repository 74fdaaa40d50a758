use notorious6::cache::{ArtifactCache, Evaluation, Handle};
use notorious6::preprocess::{include_error, Halt, SourceFile};
use notorious6::shader::{Artifact, LoadFile, PreprocessShader, ShaderError};
use notorious6::shader_work::{advance, Advance};
use std::collections::HashMap;

/// Runs the work of the shader at `entry` to its end, reading files from
/// `disk` and counting the reads.
fn evaluate(
    cache: &mut ArtifactCache<Artifact>,
    disk: &HashMap<&str, &str>,
    entry: &str,
    reads: &mut Vec<String>,
) -> Handle {
    let descriptor = PreprocessShader { path: entry.to_owned() }.descriptor();
    let work = match cache.evaluate(&descriptor) {
        Evaluation::Run(work) => work,
        Evaluation::Current(work) => return work,
        Evaluation::InFlight(_) => panic!("nothing is in flight"),
    };
    let mut sources: Vec<SourceFile> = Vec::new();
    loop {
        match advance(cache, work, entry, &mut sources) {
            Advance::Load { file, path } => {
                reads.push(path.clone());
                let made = match disk.get(path.as_str()) {
                    Some(text) => Artifact::Bytes(text.as_bytes().to_vec()),
                    None => Artifact::Failed(ShaderError::Io(format!("cannot read {}", path))),
                };
                assert!(cache.complete(file, made));
            }
            Advance::Wait { .. } => panic!("nothing is in flight"),
            Advance::Again => {}
            Advance::Finished => return work,
        }
    }
}

fn disk() -> HashMap<&'static str, &'static str> {
    HashMap::from([
        ("shaders/a.glsl", "A\n#include \"inc/common.glsl\"\nvoid main() {}\n"),
        ("shaders/b.glsl", "B\n#include \"inc/common.glsl\"\n"),
        ("shaders/inc/common.glsl", "#include \"math.glsl\"\nC\n"),
        ("shaders/inc/math.glsl", "M\n"),
        ("shaders/bad.glsl", "#include \"inc/gone.glsl\"\n"),
        ("shaders/loop.glsl", "#include \"loop.glsl\"\n"),
        ("shaders/twice.glsl", "#include \"inc/math.glsl\"\n#include \"inc/../inc/./math.glsl\"\n"),
    ])
}

fn file_handle(cache: &ArtifactCache<Artifact>, path: &str) -> Handle {
    cache.lookup(&LoadFile::new(path.to_owned()).descriptor()).unwrap()
}

#[test]
fn shader_is_expanded_through_the_cache() {
    let mut cache = ArtifactCache::new();
    let mut reads = Vec::new();
    let work = evaluate(&mut cache, &disk(), "shaders/a.glsl", &mut reads);
    assert_eq!(reads, ["shaders/a.glsl", "shaders/inc/common.glsl", "shaders/inc/math.glsl"]);
    assert!(cache.is_up_to_date(work));
    match cache.output(work) {
        Some(Artifact::Shader(shader)) => {
            assert_eq!(shader.name, "a");
            let files: Vec<&str> = shader.source.iter().map(|c| c.file.as_str()).collect();
            assert_eq!(
                files,
                [
                    "shaders/a.glsl",
                    "shaders/inc/math.glsl",
                    "shaders/inc/common.glsl",
                    "shaders/a.glsl"
                ]
            );
            assert_eq!(shader.source[2].source, "\nC\n");
            assert_eq!(shader.source[3].line_offset, 1);
        }
        other => panic!("{:?}", other),
    }
    // a second request finds everything in place
    let again = evaluate(&mut cache, &disk(), "shaders/a.glsl", &mut reads);
    assert_eq!(again, work);
    assert_eq!(reads.len(), 3);
}

#[test]
fn shared_includes_are_read_once() {
    let mut cache = ArtifactCache::new();
    let mut reads = Vec::new();
    evaluate(&mut cache, &disk(), "shaders/a.glsl", &mut reads);
    evaluate(&mut cache, &disk(), "shaders/b.glsl", &mut reads);
    assert_eq!(
        reads,
        [
            "shaders/a.glsl",
            "shaders/inc/common.glsl",
            "shaders/inc/math.glsl",
            "shaders/b.glsl"
        ]
    );
}

#[test]
fn editing_an_include_invalidates_the_shaders_that_use_it() {
    let mut cache = ArtifactCache::new();
    let mut reads = Vec::new();
    let a = evaluate(&mut cache, &disk(), "shaders/a.glsl", &mut reads);
    let b = evaluate(&mut cache, &disk(), "shaders/b.glsl", &mut reads);
    let only_a = file_handle(&cache, "shaders/a.glsl");
    cache.invalidate(&only_a.invalidation_trigger());
    assert!(!cache.is_up_to_date(a));
    assert!(cache.is_up_to_date(b));
    reads.clear();
    evaluate(&mut cache, &disk(), "shaders/a.glsl", &mut reads);
    assert_eq!(reads, ["shaders/a.glsl"]);
    let math = file_handle(&cache, "shaders/inc/math.glsl");
    cache.invalidate(&math.invalidation_trigger());
    assert!(!cache.is_up_to_date(a));
    assert!(!cache.is_up_to_date(b));
    assert!(cache.is_up_to_date(file_handle(&cache, "shaders/inc/common.glsl")));
    let mut edited = disk();
    edited.insert("shaders/inc/math.glsl", "M2\n");
    reads.clear();
    let a = evaluate(&mut cache, &edited, "shaders/a.glsl", &mut reads);
    assert_eq!(reads, ["shaders/inc/math.glsl"]);
    match cache.output(a) {
        Some(Artifact::Shader(shader)) => assert_eq!(shader.source[1].source, "M2\n"),
        other => panic!("{:?}", other),
    }
}

#[test]
fn unreadable_include_fails_the_whole_shader() {
    let mut cache = ArtifactCache::new();
    let mut reads = Vec::new();
    let work = evaluate(&mut cache, &disk(), "shaders/bad.glsl", &mut reads);
    match cache.output(work) {
        Some(Artifact::Failed(ShaderError::IncludeResolution(m))) => assert_eq!(
            m,
            "Failed loading shader include inc/gone.glsl: cannot read shaders/inc/gone.glsl"
        ),
        other => panic!("{:?}", other),
    }
    // the failure is kept until something changes
    assert!(cache.is_up_to_date(work));
    evaluate(&mut cache, &disk(), "shaders/bad.glsl", &mut reads);
    assert_eq!(reads, ["shaders/bad.glsl", "shaders/inc/gone.glsl"]);
    // the file appears: the watch on it fires
    let gone = file_handle(&cache, "shaders/inc/gone.glsl");
    cache.invalidate(&gone.invalidation_trigger());
    let mut fixed = disk();
    fixed.insert("shaders/inc/gone.glsl", "here\n");
    let work = evaluate(&mut cache, &fixed, "shaders/bad.glsl", &mut reads);
    assert!(matches!(cache.output(work), Some(Artifact::Shader(_))));
}

#[test]
fn cycles_and_bad_bytes_fail_the_shader() {
    let mut cache = ArtifactCache::new();
    let mut reads = Vec::new();
    let work = evaluate(&mut cache, &disk(), "shaders/loop.glsl", &mut reads);
    match cache.output(work) {
        Some(Artifact::Failed(ShaderError::IncludeResolution(m))) => {
            assert_eq!(m, "recursive include of shaders/loop.glsl in shaders/loop.glsl(1)")
        }
        other => panic!("{:?}", other),
    }
    let mut cache = ArtifactCache::new();
    let work = match cache.evaluate(&PreprocessShader { path: "x".to_owned() }.descriptor()) {
        Evaluation::Run(work) => work,
        _ => panic!(),
    };
    let mut sources = Vec::new();
    let file = match advance(&mut cache, work, "x", &mut sources) {
        Advance::Load { file, path } => {
            assert_eq!(path, "x");
            file
        }
        other => panic!("{:?}", other),
    };
    assert!(matches!(advance(&mut cache, work, "x", &mut sources), Advance::Wait { .. }));
    cache.complete(file, Artifact::Bytes(vec![0x66, 0xff, 0x6f]));
    assert!(matches!(advance(&mut cache, work, "x", &mut sources), Advance::Finished));
    match cache.output(work) {
        Some(Artifact::Failed(ShaderError::Io(m))) => assert_eq!(m, "not valid UTF-8: x"),
        other => panic!("{:?}", other),
    }
}

#[test]
fn two_spellings_of_one_file_share_one_entry() {
    let mut cache = ArtifactCache::new();
    let mut reads = Vec::new();
    let work = evaluate(&mut cache, &disk(), "shaders/./twice.glsl", &mut reads);
    assert_eq!(reads, ["shaders/twice.glsl", "shaders/inc/math.glsl"]);
    assert_eq!(cache.len(), 3);
    match cache.output(work) {
        Some(Artifact::Shader(shader)) => {
            let files: Vec<&str> = shader.source.iter().map(|c| c.file.as_str()).collect();
            assert_eq!(
                files,
                [
                    "shaders/./inc/math.glsl",
                    "shaders/./twice.glsl",
                    "shaders/./inc/../inc/./math.glsl",
                    "shaders/./twice.glsl"
                ]
            );
        }
        other => panic!("{:?}", other),
    }
}

#[test]
fn text_is_decoded_as_utf8() {
    let mut cache = ArtifactCache::new();
    let mut reads = Vec::new();
    let disk = HashMap::from([("u.glsl", "// \u{e9}\u{4e2d}\u{1f600}\nx")]);
    let work = evaluate(&mut cache, &disk, "u.glsl", &mut reads);
    match cache.output(work) {
        Some(Artifact::Shader(shader)) => assert_eq!(shader.source[0].source, "\nx"),
        other => panic!("{:?}", other),
    }
}

#[test]
fn halts_have_messages() {
    let parse = Halt::Parse { file: "a.glsl".to_owned(), line: 12 };
    assert_eq!(include_error(&parse).message(), "parse error: a.glsl(12)");
    let needs = Halt::Needs { path: "inc/x.glsl".to_owned(), written: "../inc/x.glsl".to_owned() };
    let error = include_error(&needs);
    assert!(matches!(error, ShaderError::IncludeResolution(_)));
    assert_eq!(error.message(), "include not found: ../inc/x.glsl");
    let cycle = Halt::Recursive { file: "a".to_owned(), from: "b".to_owned(), from_line: 3 };
    assert_eq!(include_error(&cycle).message(), "recursive include of a in b(3)");
    assert_eq!(error.duplicate().message(), error.message());
}
