use notorious6::include_path::{canonical, resolve_include};
use notorious6::preprocess::{preprocess, Halt, SourceFile};
use notorious6::shader::SourceChunk;
use std::collections::HashMap;

fn sources(files: &[(&str, &str)]) -> Vec<SourceFile> {
    files
        .iter()
        .map(|(path, text)| SourceFile { path: path.to_string(), text: text.to_string() })
        .collect()
}

fn plain(chunks: &[SourceChunk]) -> Vec<(String, usize, String)> {
    chunks.iter().map(|c| (c.file.clone(), c.line_offset, c.source.clone())).collect()
}

fn expect(files: &[(&str, &str)], entry: &str, want: &[(&str, usize, &str)]) {
    let got = preprocess(&sources(files), entry).unwrap();
    let want: Vec<(String, usize, String)> =
        want.iter().map(|(f, l, s)| (f.to_string(), *l, s.to_string())).collect();
    assert_eq!(plain(&got), want);
}

/// Serves the same files to the include crawler of shader-prepper, with
/// paths resolved the way the library resolves them and files found by
/// their canonical paths.
struct Files(HashMap<String, String>);

impl shader_prepper::IncludeProvider for Files {
    type IncludeContext = String;

    fn resolve_path(
        &self,
        path: &str,
        parent: &String,
    ) -> Result<shader_prepper::ResolvedInclude<String>, shader_prepper::BoxedIncludeProviderError>
    {
        let resolved = resolve_include(path, parent);
        Ok(shader_prepper::ResolvedInclude {
            resolved_path: shader_prepper::ResolvedIncludePath(resolved.clone()),
            context: resolved,
        })
    }

    fn get_include(
        &mut self,
        path: &shader_prepper::ResolvedIncludePath,
    ) -> Result<String, shader_prepper::BoxedIncludeProviderError> {
        match self.0.get(&canonical(&path.0)) {
            Some(text) => Ok(text.clone()),
            None => Err(format!("no file {}", path.0).into()),
        }
    }
}

fn crawl(files: &[(&str, &str)], entry: &str) -> Option<Vec<(String, usize, String)>> {
    let mut provider =
        Files(files.iter().map(|(p, t)| (p.to_string(), t.to_string())).collect());
    shader_prepper::process_file(entry, &mut provider, String::new())
        .ok()
        .map(|chunks| chunks.into_iter().map(|c| (c.file, c.line_offset, c.source)).collect())
}

fn agrees(files: &[(&str, &str)], entry: &str) {
    let ours = preprocess(&sources(files), entry).ok().map(|chunks| plain(&chunks));
    assert_eq!(ours, crawl(files, entry), "entry {:?} of {:?}", entry, files);
}

fn text_agrees(text: &str) {
    agrees(&[("main", text), ("foo", "[foo]"), ("foo/bar/baz", "[deep]"), ("foobarbaz", "[joined]")], "main");
}

#[test]
fn text_without_directives_is_one_chunk() {
    expect(&[("a.glsl", "void main() {}\n")], "a.glsl", &[("a.glsl", 0, "void main() {}\n")]);
    expect(&[("a.glsl", "")], "a.glsl", &[]);
}

#[test]
fn comments_are_blanked() {
    expect(&[("m", "foo /* bar */ baz")], "m", &[("m", 0, "foo           baz")]);
    expect(&[("m", "foo /* /* bar */ baz")], "m", &[("m", 0, "foo              baz")]);
    expect(&[("m", "foo // baz")], "m", &[("m", 0, "foo ")]);
    expect(&[("m", "foo // baz\nbar")], "m", &[("m", 0, "foo \nbar")]);
    expect(&[("m", "foo // baz\\\nbar")], "m", &[("m", 0, "foo \n")]);
    expect(&[("m", "/*\nfoo\n/*/\nbar\n//*/")], "m", &[("m", 0, "  \n   \n   \nbar\n")]);
    expect(&[("m", "//*\nfoo\n/*/\nbar\n//*/")], "m", &[("m", 0, "\nfoo\n   \n   \n    ")]);
    expect(&[("m", "a /* open")], "m", &[("m", 0, "a        ")]);
    expect(&[("m", "*/ */ \t/ /")], "m", &[("m", 0, "*/ */ \t/ /")]);
}

#[test]
fn other_directives_stay_in_the_text() {
    let text = "#version 430\n#pragma stuff\n#define X 1\n#";
    expect(&[("m", text)], "m", &[("m", 0, text)]);
    expect(&[("m", "#in/**/clude")], "m", &[("m", 0, "#in    clude")]);
    expect(&[("m", "#in\nclude")], "m", &[("m", 0, "#in\nclude")]);
    expect(&[("m", "#pragma\nonce")], "m", &[("m", 0, "#pragma\nonce")]);
}

#[test]
fn include_splits_the_text_into_chunks() {
    let files = [
        ("shaders/main.glsl", "#version 430\n#include \"inc/math.glsl\"\nvoid main() {}\n"),
        ("shaders/inc/math.glsl", "float sq(float x) { return x * x; }\n"),
    ];
    expect(
        &files,
        "shaders/main.glsl",
        &[
            ("shaders/main.glsl", 0, "#version 430\n"),
            ("shaders/inc/math.glsl", 0, "float sq(float x) { return x * x; }\n"),
            ("shaders/main.glsl", 1, "\nvoid main() {}\n"),
        ],
    );
}

#[test]
fn nested_includes_come_depth_first() {
    let files = [
        ("a.glsl", "A1\n#include \"b/c.glsl\"\nA3\n#include \"d.glsl\"\nA5"),
        ("b/c.glsl", "C1\n#include \"../d.glsl\"\nC3\n"),
        ("d.glsl", "d\n"),
    ];
    expect(
        &files,
        "a.glsl",
        &[
            ("a.glsl", 0, "A1\n"),
            ("b/c.glsl", 0, "C1\n"),
            ("b/../d.glsl", 0, "d\n"),
            ("b/c.glsl", 1, "\nC3\n"),
            ("a.glsl", 1, "\nA3\n"),
            ("d.glsl", 0, "d\n"),
            ("a.glsl", 3, "\nA5"),
        ],
    );
}

#[test]
fn a_file_included_twice_gives_two_chunks() {
    let files = [("m", "#include \"x\"\n#include <x>\n"), ("x", "X")];
    expect(&files, "m", &[("x", 0, "X"), ("m", 0, "\n"), ("x", 0, "X"), ("m", 1, "\n")]);
}

#[test]
fn pragma_once_is_honored() {
    let files = [("m", "#include \"x\"\n#include \"x\"\nend"), ("x", "#pragma once\nX\n")];
    expect(&files, "m", &[("x", 0, "\nX\n"), ("m", 0, "\n"), ("m", 1, "\nend")]);
    // one file under two spellings is included once
    let files =
        [("m", "#include \"inc/x\"\n#include \"inc/../inc/x\"\nend"), ("inc/x", "#pragma once\nX\n")];
    expect(&files, "m", &[("inc/x", 0, "\nX\n"), ("m", 0, "\n"), ("m", 1, "\nend")]);
}

#[test]
fn a_guarded_file_cannot_include_itself_either() {
    let files = [("m", "#pragma once\n#include \"m\"\nend")];
    match preprocess(&sources(&files), "m") {
        Err(Halt::Recursive { file, from, from_line }) => {
            assert_eq!((file.as_str(), from.as_str(), from_line), ("m", "m", 2));
        }
        other => panic!("{:?}", other),
    }
    agrees(&files, "m");
}

#[test]
fn forms_of_the_include_directive() {
    let files = [("foo", "[foo]"), ("foo/bar/baz", "[deep]"), ("foobarbaz", "[joined]")];
    let with = |text: &'static str| {
        let mut all = vec![("main", text)];
        all.extend_from_slice(&files);
        all
    };
    for text in [
        "#include\"foo\"",
        "#include \"foo\"",
        "#include <foo>",
        "# include <foo>",
        "#  include <foo>",
        "#/**/include <foo>",
        "#include /**/ <foo>",
        "#inc\\\nlude <foo>",
        "#\\\ninc\\\n\\\nlude <foo>",
        "#\\\n   inc\\\n\\\nlude <foo>",
    ] {
        expect(&with(text), "main", &[("foo", 0, "[foo]")]);
    }
    expect(&with("#include <foo/bar/baz>"), "main", &[("foo/bar/baz", 0, "[deep]")]);
    expect(&with("#include <foo\\\nbar\\\nbaz>"), "main", &[("foobarbaz", 0, "[joined]")]);
    expect(&with("#include <foo>//\n"), "main", &[("foo", 0, "[foo]"), ("main", 0, "\n")]);
}

#[test]
fn missing_file_is_asked_for() {
    let files = [("dir/m", "#include \"x\"\n")];
    match preprocess(&sources(&files), "dir/m") {
        Err(Halt::Needs { path, written }) => {
            assert_eq!((path.as_str(), written.as_str()), ("dir/x", "x"))
        }
        other => panic!("{:?}", other),
    }
    match preprocess(&Vec::new(), "dir/./m") {
        Err(Halt::Needs { path, written }) => {
            assert_eq!((path.as_str(), written.as_str()), ("dir/m", "dir/./m"))
        }
        other => panic!("{:?}", other),
    }
    let files = [("dir/m", "#include \"../lib/./x\"\n")];
    match preprocess(&sources(&files), "dir/m") {
        Err(Halt::Needs { path, written }) => {
            assert_eq!((path.as_str(), written.as_str()), ("lib/x", "../lib/./x"))
        }
        other => panic!("{:?}", other),
    }
    // with the file added the expansion goes through
    let files = [("dir/m", "#include \"x\"\n"), ("dir/x", "X")];
    expect(&files, "dir/m", &[("dir/x", 0, "X"), ("dir/m", 0, "\n")]);
}

#[test]
fn malformed_include_is_a_parse_error() {
    for (text, line) in [
        ("#include", 1),
        ("#inc\\\nlude", 1),
        ("ok\n\n#include foo\n", 3),
        ("\n#include \"foo\n\"", 2),
        ("#include <foo", 1),
        ("/* a\nb */ #include 'x'", 2),
        ("#include /foo", 1),
    ] {
        match preprocess(&sources(&[("m", text)]), "m") {
            Err(Halt::Parse { file, line: at }) => {
                assert_eq!(file, "m");
                assert_eq!(at, line, "{:?}", text);
            }
            other => panic!("{:?}: {:?}", text, other),
        }
    }
}

#[test]
fn a_file_cannot_include_itself() {
    let files = [("a", "x\n#include \"b\"\n"), ("b", "\n\n#include \"a\"\n")];
    match preprocess(&sources(&files), "a") {
        Err(Halt::Recursive { file, from, from_line }) => {
            assert_eq!((file.as_str(), from.as_str(), from_line), ("a", "b", 3));
        }
        other => panic!("{:?}", other),
    }
    // another way of writing the path of a file names the same file
    for text in ["#include \"./a\"\n", "#include \"x/../a\"\n", "#include \"/a\"\n//"] {
        let rooted = text.contains("/a\"\n//");
        let files = [("a", text), ("/a", text)];
        let entry = if rooted { "/a" } else { "a" };
        match preprocess(&sources(&files), entry) {
            Err(Halt::Recursive { from, from_line, .. }) => {
                assert_eq!((from.as_str(), from_line), (entry, 1))
            }
            other => panic!("{:?}: {:?}", text, other),
        }
    }
    // through a second file and back
    let files = [("d/a", "#include \"../e/b\"\n"), ("e/b", "\n#include \"../d/./a\"\n")];
    match preprocess(&sources(&files), "d/a") {
        Err(Halt::Recursive { file, from, from_line }) => {
            assert_eq!((file.as_str(), from.as_str(), from_line), ("d/../e/../d/./a", "d/../e/b", 2));
        }
        other => panic!("{:?}", other),
    }
}

#[test]
fn the_first_of_two_sources_with_one_path_counts() {
    let files = [("m", "#include \"x\""), ("x", "first"), ("x", "second")];
    expect(&files, "m", &[("x", 0, "first")]);
}

#[test]
fn agrees_with_the_include_crawler_on_text() {
    for text in [
        "",
        "int foo;",
        "*/ */ \t/ /",
        "#version 430\n#pragma stuff",
        "foo /* bar */ baz",
        "foo /* /* bar */ baz",
        "foo // baz",
        "// foo /* bar */ baz",
        "foo // baz\nbar",
        "foo // baz\\\nbar",
        "foo // baz\\",
        "foo // b\\az\nbar",
        "/*\nfoo\n/*/\nbar\n//*/",
        "//*\nfoo\n/*/\nbar\n//*/",
        "#",
        "#in/**/clude",
        "#in\nclude",
        "#include\"foo\"",
        "#include \"foo\"",
        "#include <foo>",
        "#include <foo/bar/baz>",
        "#include <foo\\\nbar\\\nbaz>",
        "#include <foo>//\n",
        "# include <foo>",
        "#  include <foo>",
        "#/**/include <foo>",
        "#include /**/ <foo>",
        "#include /* a\nb */ <foo>\nx",
        "#inc\\\nlude",
        "#inc\\\nlude <foo>",
        "#\\\ninc\\\n\\\nlude <foo>",
        "#\\\r\nin\\\r\nclude <foo>",
        "#in\\clude <foo>",
        "#include \\\n <foo>",
        "#include <fo\\>o>",
        "#include <foo",
        "#include \"foo\n\"",
        "#include foo",
        "#include",
        "a\n#include <foo>\nb\n#include \"foo\"\nc\n\n/* \n */#include <foo>",
        "#pragma once\nx",
        "#pragma once",
        "#pragma\tonce  \t\nx",
        "#pragma /**/ once\nx",
        "#pragma onced\nx",
        "#pragma\nonce",
        "#pragmaonce",
        "#pragma one",
        "#includé <foo>",
        "#include\u{a0}<foo>",
        "x/",
        "x/*",
        "x*/",
        "a\r\n#include <foo>\r\nb",
        "\u{e9}\n#include <foo>\n\u{4e2d}",
    ] {
        text_agrees(text);
    }
}

#[test]
fn agrees_with_the_include_crawler_on_trees() {
    let files = [
        ("shaders/main.glsl", "#version 430\n#include \"inc/a.glsl\"\n// note\n#include \"inc/b.glsl\"\nvoid main() {}\n"),
        ("shaders/inc/a.glsl", "#pragma once\n#include \"b.glsl\"\nA\n"),
        ("shaders/inc/b.glsl", "#pragma once\n/* b */\nB\n#include \"../leaf/c.glsl\"\n"),
        ("shaders/leaf/c.glsl", "C\n#include \"/abs.glsl\"\n"),
        ("/abs.glsl", "abs"),
    ];
    agrees(&files, "shaders/main.glsl");
    agrees(&files, "shaders/inc/a.glsl");
    agrees(&files, "/abs.glsl");
    agrees(&files[..3], "shaders/main.glsl");
    agrees(&files, "nowhere.glsl");
    let got = preprocess(&sources(&files), "shaders/main.glsl").unwrap();
    let order: Vec<&str> = got.iter().map(|c| c.file.as_str()).collect();
    assert_eq!(
        order,
        [
            "shaders/main.glsl",
            "shaders/inc/a.glsl",
            "shaders/inc/b.glsl",
            "shaders/inc/../leaf/c.glsl",
            "/abs.glsl",
            "shaders/inc/../leaf/c.glsl",
            "shaders/inc/b.glsl",
            "shaders/inc/a.glsl",
            "shaders/main.glsl",
            "shaders/main.glsl",
        ]
    );
}
