use notorious6::compiler::{driver_sources, make_program, make_shader};
use notorious6::diagnostics::remap_log;
use notorious6::shader::{ShaderError, SourceChunk};

fn chunk(file: &str, line_offset: usize, source: &str) -> SourceChunk {
    SourceChunk { file: file.to_owned(), line_offset, source: source.to_owned() }
}

fn two_chunks() -> Vec<SourceChunk> {
    vec![chunk("main.glsl", 0, "void a();\n"), chunk("foo.glsl", 5, "void b();\n")]
}

#[test]
fn colon_reference_is_remapped_to_file_and_line() {
    let log = remap_log(&two_chunks(), "ERROR: 2:10: 'x' : undeclared identifier");
    assert_eq!(log, "foo.glsl(15): 'x' : undeclared identifier");
}

#[test]
fn paren_reference_is_remapped_to_file_and_line() {
    let log = remap_log(&two_chunks(), "2(10) : error C1008: undefined variable");
    assert_eq!(log, "foo.glsl(15): error C1008: undefined variable");
}

#[test]
fn chunk_zero_and_one_both_name_the_first_chunk() {
    assert_eq!(remap_log(&two_chunks(), "ERROR: 0:3: bad"), "main.glsl(3): bad");
    assert_eq!(remap_log(&two_chunks(), "ERROR: 1:3: bad"), "main.glsl(3): bad");
    assert_eq!(remap_log(&two_chunks(), "0(7) bad"), "main.glsl(7)bad");
}

#[test]
fn references_are_only_rewritten_at_line_starts() {
    let log = "note ERROR: 2:10\nERROR: 2:1: a\n  2(4)\n2(4) b\n";
    assert_eq!(
        remap_log(&two_chunks(), log),
        "note ERROR: 2:10\nfoo.glsl(6): a\n  2(4)\nfoo.glsl(9)b\n"
    );
}

#[test]
fn unrecognized_text_passes_through() {
    let chunks = two_chunks();
    for log in [
        "",
        "warning: something",
        "ERROR: two:10",
        "ERROR: 2:",
        "ERROR: :3",
        "ERROR 2:10",
        "2(10",
        "2()",
        "(10)",
        "ERROR: 3:10: no such chunk",
        "9(1) no such chunk",
        "ERROR: 99999999999999999999999:1",
        "ERROR: 1:99999999999999999999999",
    ] {
        assert_eq!(remap_log(&chunks, log), log);
    }
    assert_eq!(remap_log(&Vec::new(), "ERROR: 1:1"), "ERROR: 1:1");
}

#[test]
fn blanks_after_error_word_are_skipped() {
    assert_eq!(remap_log(&two_chunks(), "ERROR:2:1"), "foo.glsl(6)");
    assert_eq!(remap_log(&two_chunks(), "ERROR: \t 2:1"), "foo.glsl(6)");
}

#[test]
fn large_line_offsets_do_not_overflow() {
    let chunks = vec![chunk("big.glsl", usize::MAX, "")];
    let expected = format!("big.glsl({})", usize::MAX as u128 + u64::MAX as u128);
    assert_eq!(remap_log(&chunks, &format!("ERROR: 1:{}", u64::MAX)), expected);
}

#[test]
fn driver_sources_number_the_later_chunks() {
    let chunks = vec![
        chunk("a", 0, "A"),
        chunk("b", 0, "B"),
        chunk("c", 3, "C\n"),
    ];
    let sources = driver_sources(&chunks);
    assert_eq!(sources, vec!["A".to_owned(), "#line 0 2\nB".to_owned(), "#line 0 3\nC\n".to_owned()]);
    assert!(driver_sources(&Vec::new()).is_empty());
}

#[test]
fn driver_sources_count_past_nine() {
    let chunks: Vec<SourceChunk> = (0..12).map(|_| chunk("f", 0, "x")).collect();
    let sources = driver_sources(&chunks);
    assert_eq!(sources[9], "#line 0 10\nx");
    assert_eq!(sources[11], "#line 0 12\nx");
}

#[test]
fn accepted_stage_yields_its_handle() {
    let made = make_shader(&two_chunks(), Some(7), Some("warning: unused"));
    assert!(matches!(made, Ok(7)));
}

#[test]
fn rejected_stage_yields_remapped_log() {
    let made = make_shader(&two_chunks(), None, Some("ERROR: 2:10: oops"));
    match made {
        Err(ShaderError::Compile(m)) => {
            assert_eq!(m, "Shader failed to compile: foo.glsl(15): oops")
        }
        _ => panic!("expected a compile error"),
    }
}

#[test]
fn rejected_stage_without_log() {
    match make_shader(&two_chunks(), None, None) {
        Err(ShaderError::Compile(m)) => assert_eq!(m, "Shader failed to compile: Unknown error"),
        _ => panic!("expected a compile error"),
    }
}

#[test]
fn link_outcomes() {
    assert!(matches!(make_program(Some(3), ""), Ok(3)));
    match make_program(None, "ERROR: 2:10 unresolved") {
        Err(e) => {
            assert!(matches!(e, ShaderError::Link(_)));
            assert_eq!(e.message(), "Shader failed to link: ERROR: 2:10 unresolved");
        }
        Ok(_) => panic!("expected a link error"),
    }
}

/// What the compiler helper of shader-prepper makes of the chunks and of
/// a log.
fn reference(chunks: &[SourceChunk], log: &str) -> (Vec<String>, String) {
    let theirs: Vec<shader_prepper::SourceChunk<()>> = chunks
        .iter()
        .map(|c| shader_prepper::SourceChunk {
            source: c.source.clone(),
            context: (),
            file: c.file.clone(),
            line_offset: c.line_offset,
        })
        .collect();
    let out = shader_prepper::gl_compiler::compile_shader(theirs.iter(), |sources| {
        shader_prepper::gl_compiler::ShaderCompilerOutput {
            artifact: sources.to_vec(),
            log: Some(log.to_owned()),
        }
    });
    (out.artifact, out.log.unwrap())
}

#[test]
fn agrees_with_the_compiler_helper() {
    let chunks = vec![
        chunk("shaders/main.glsl", 0, "#version 430\n"),
        chunk("shaders/inc/math.glsl", 0, "float sq(float x);\n"),
        chunk("shaders/main.glsl", 7, "\nvoid main() {}\n"),
        chunk("postamble", 0, "void main() { SHADER_MAIN_FN }"),
    ];
    for log in [
        "",
        "ERROR: 2:10: 'x' : undeclared identifier",
        "ERROR: 0:1: a\nERROR: 1:2: b\nERROR: 3:4: c\nERROR: 4:1: d\n",
        "ERROR:3:4",
        "ERROR: \t 3:4",
        "ERROR:\n3:4",
        "ERROR:\u{a0}3:4",
        "ERROR: \u{2003}\u{3000}3:4 wide blanks",
        "3(4)\u{2003}\u{a0}x",
        "ERROR:\u{200b}3:4 no blank",
        "WARNING: 2:10: unused\nERROR: 2:10: bad",
        " ERROR: 2:10",
        "ERROR: 2 :10",
        "ERROR: 2:x",
        "2(10) : error C1008: undefined variable \"x\"",
        "3(4) : warning\n0(1) : error\r\n1(2): x\n\n4(9)\n",
        "3(4)   \n   2(1) x",
        " 2(10)",
        "2 (10)",
        "2(10",
        "2()",
        "error: 2(10)",
        "ERROR: 2:10(3)",
        "ERROR: 3:0012: leading zeros",
        "003(004) leading zeros",
        "link: ERROR: 1:1\n",
    ] {
        let (sources, remapped) = reference(&chunks, log);
        assert_eq!(remap_log(&chunks, log), remapped, "log {:?}", log);
        assert_eq!(driver_sources(&chunks), sources);
    }
}
