//! Expansion of the include directives of a shader into an ordered list of
//! source chunks.
//!
//! The expansion reads no files. It works on the sources that it is
//! handed, and where it meets an include of a file that is not among them,
//! it stops and names that file; the caller loads the file and asks again.
//! The chunks come in the order of the text: depth first, one chunk for
//! each stretch of text between directives, as often as a file is
//! included. A file that is being expanded cannot be included again from
//! within itself.

use crate::include_path::{canonical, canonical_path, resolve_include, resolved_include};
use crate::scanner::{count_newlines, newlines, piece_at, read_piece, Piece, PieceRead};
use crate::shader::{ChunkView, ShaderError, ShaderErrorView, SourceChunk};
use crate::text::{
    chars_of, decimal, lists_string, push_chars, push_decimal, string_of, string_views,
};
use vstd::prelude::*;

verus! {

/// The text of a file, under the path that includes resolve to.
#[derive(Clone, Debug)]
pub struct SourceFile {
    pub path: String,
    pub text: String,
}

/// A source file as plain values.
pub struct SourceView {
    pub path: Seq<char>,
    pub text: Seq<char>,
}

impl View for SourceFile {
    type V = SourceView;

    open spec fn view(&self) -> SourceView {
        SourceView { path: self.path@, text: self.text@ }
    }
}

impl DeepView for SourceFile {
    type V = SourceView;

    open spec fn deep_view(&self) -> SourceView {
        self@
    }
}

/// Why an expansion stopped short.
#[derive(Clone, Debug)]
pub enum Halt {
    /// The file with the canonical path `path` is included, under the path
    /// `written` in the directive, and is not among the sources.
    Needs { path: String, written: String },
    /// The include directive on line `line` of `file` has no well-formed
    /// path.
    Parse { file: String, line: usize },
    /// Line `from_line` of `from` includes `file`, which is being expanded
    /// already.
    Recursive { file: String, from: String, from_line: usize },
}

/// A halt as plain values. Besides the halts that an expansion can come
/// to, there is one that only bounds its definition: nesting deeper than
/// there are sources, which `law_expansion_is_bounded` rules out.
pub enum HaltView {
    Needs { path: Seq<char>, written: Seq<char> },
    Parse { file: Seq<char>, line: nat },
    Recursive { file: Seq<char>, from: Seq<char>, from_line: nat },
    TooDeep { file: Seq<char> },
}

impl View for Halt {
    type V = HaltView;

    open spec fn view(&self) -> HaltView {
        match self {
            Halt::Needs { path, written } => HaltView::Needs { path: path@, written: written@ },
            Halt::Parse { file, line } => HaltView::Parse { file: file@, line: *line as nat },
            Halt::Recursive { file, from, from_line } => HaltView::Recursive {
                file: file@,
                from: from@,
                from_line: *from_line as nat,
            },
        }
    }
}

/// What an expansion has gathered: the chunks so far, and the files that
/// asked to be included only once.
pub struct Expanded {
    pub chunks: Seq<ChunkView>,
    pub once: Seq<Seq<char>>,
}

/// The position of the first of `sources` with the path `path`, or their
/// number if there is none.
pub open spec fn first_source(sources: Seq<SourceView>, path: Seq<char>) -> int
    decreases sources.len(),
{
    if sources.len() == 0 {
        0
    } else if sources.first().path == path {
        0
    } else {
        1 + first_source(sources.drop_first(), path)
    }
}

/// What was gathered, with the text `current` added as a chunk of `file`
/// unless it is empty.
pub open spec fn flushed(
    state: Expanded,
    file: Seq<char>,
    line_offset: nat,
    current: Seq<char>,
) -> Expanded {
    if current.len() > 0 {
        Expanded {
            chunks: state.chunks.push(ChunkView { file, line_offset, source: current }),
            ..state
        }
    } else {
        state
    }
}

/// The expansion of an include directive that stands on line `line` of
/// the file `parent` and names `token`. The path is resolved against the
/// including file, and the file is known by the canonical form of that
/// path. A file that is being expanded already is refused, whether or not
/// it asked to be included only once. A file that asked to be included
/// only once and was expanded before is passed over. Nesting deeper than
/// `depth` is refused.
pub open spec fn included(
    sources: Seq<SourceView>,
    token: Seq<char>,
    parent: Seq<char>,
    line: nat,
    stack: Seq<Seq<char>>,
    state: Expanded,
    depth: nat,
) -> Result<Expanded, HaltView>
    decreases depth, 0int,
{
    let resolved = resolved_include(token, parent);
    let id = canonical_path(resolved);
    let at = first_source(sources, id);
    if stack.contains(id) {
        Err(HaltView::Recursive { file: resolved, from: parent, from_line: line })
    } else if state.once.contains(id) {
        Ok(state)
    } else if at >= sources.len() {
        Err(HaltView::Needs { path: id, written: token })
    } else if depth == 0 {
        Err(HaltView::TooDeep { file: resolved })
    } else {
        scanned(
            sources,
            resolved,
            id,
            sources[at].text,
            0,
            Seq::empty(),
            0,
            stack.push(id),
            state,
            (depth - 1) as nat,
        )
    }
}

/// The expansion of the text of `file` from `pos` on. `current` is the
/// text of the chunk that is being gathered, and `line_offset` the number
/// of lines of the file before it.
pub open spec fn scanned(
    sources: Seq<SourceView>,
    file: Seq<char>,
    id: Seq<char>,
    text: Seq<char>,
    pos: int,
    current: Seq<char>,
    line_offset: nat,
    stack: Seq<Seq<char>>,
    state: Expanded,
    depth: nat,
) -> Result<Expanded, HaltView>
    decreases depth, text.len() - pos + 1,
{
    if pos < 0 || pos >= text.len() {
        Ok(flushed(state, file, line_offset, current))
    } else {
        match piece_at(text, pos) {
            Piece::Text { out, end } => if pos < end <= text.len() {
                scanned(
                    sources,
                    file,
                    id,
                    text,
                    end,
                    current + out,
                    line_offset,
                    stack,
                    state,
                    depth,
                )
            } else {
                Ok(state)
            },
            Piece::PragmaOnce { end } => if pos < end <= text.len() {
                scanned(
                    sources,
                    file,
                    id,
                    text,
                    end,
                    current,
                    line_offset,
                    stack,
                    Expanded { once: state.once.push(id), ..state },
                    depth,
                )
            } else {
                Ok(state)
            },
            Piece::Include { path, end } => if pos < end <= text.len() {
                match included(
                    sources,
                    path,
                    file,
                    newlines(text, pos) + 1,
                    stack,
                    flushed(state, file, line_offset, current),
                    depth,
                ) {
                    Ok(after) => scanned(
                        sources,
                        file,
                        id,
                        text,
                        end,
                        Seq::empty(),
                        newlines(text, end),
                        stack,
                        after,
                        depth,
                    ),
                    Err(halt) => Err(halt),
                }
            } else {
                Ok(state)
            },
            Piece::ParseError => Err(
                HaltView::Parse { file, line: newlines(text, pos) + 1 },
            ),
        }
    }
}

/// The expansion of the shader at `entry`: its chunks, or why there are
/// none.
pub open spec fn expansion(sources: Seq<SourceView>, entry: Seq<char>) -> Result<
    Seq<ChunkView>,
    HaltView,
> {
    match included(
        sources,
        entry,
        Seq::empty(),
        1,
        Seq::empty(),
        Expanded { chunks: Seq::empty(), once: Seq::empty() },
        sources.len(),
    ) {
        Ok(all) => Ok(all.chunks),
        Err(halt) => Err(halt),
    }
}

/// The paths of `sources`.
pub open spec fn source_paths(sources: Seq<SourceView>) -> Seq<Seq<char>> {
    Seq::new(sources.len(), |i: int| sources[i].path)
}

/// The files that are being expanded form a chain of distinct sources, and
/// `depth` leaves room for every source that is not on the chain.
pub open spec fn bounded(sources: Seq<SourceView>, stack: Seq<Seq<char>>, depth: nat) -> bool {
    &&& stack.no_duplicates()
    &&& forall|k: int| 0 <= k < stack.len() ==> source_paths(sources).contains(#[trigger] stack[k])
    &&& depth + stack.len() >= source_paths(sources).to_set().len()
}

proof fn lemma_first_source(sources: Seq<SourceView>, path: Seq<char>)
    ensures
        0 <= first_source(sources, path) <= sources.len(),
        first_source(sources, path) < sources.len() ==> sources[first_source(sources, path)].path
            == path && source_paths(sources).contains(path),
    decreases sources.len(),
{
    if sources.len() > 0 {
        if sources.first().path == path {
            assert(source_paths(sources)[0] == path);
        } else {
            let rest = sources.drop_first();
            lemma_first_source(rest, path);
            let at = first_source(rest, path);
            if at < rest.len() {
                assert(rest[at] == sources[at + 1]);
                assert(source_paths(sources)[at + 1] == path);
            }
        }
    }
}

/// A chain of distinct sources that lacks one of the sources can take it.
proof fn lemma_room_for_one_more(
    sources: Seq<SourceView>,
    stack: Seq<Seq<char>>,
    depth: nat,
    resolved: Seq<char>,
)
    requires
        bounded(sources, stack, depth),
        !stack.contains(resolved),
        source_paths(sources).contains(resolved),
    ensures
        depth > 0,
        bounded(sources, stack.push(resolved), (depth - 1) as nat),
{
    let all = source_paths(sources).to_set();
    let rest = all.remove(resolved);
    vstd::seq_lib::seq_to_set_is_finite(source_paths(sources));
    stack.unique_seq_to_set();
    assert(stack.to_set().subset_of(rest)) by {
        assert forall|p: Seq<char>| stack.to_set().contains(p) implies rest.contains(p) by {
            let k = choose|k: int| 0 <= k < stack.len() && stack[k] == p;
            assert(source_paths(sources).contains(stack[k]));
        }
    }
    vstd::set_lib::lemma_len_subset(stack.to_set(), rest);
    assert(all.contains(resolved));
    assert(rest.len() + 1 == all.len());
    let longer = stack.push(resolved);
    assert(longer.no_duplicates()) by {
        assert forall|i: int, j: int|
            0 <= i < longer.len() && 0 <= j < longer.len() && i != j implies longer[i]
            != longer[j] by {
            if i < stack.len() && j < stack.len() {
                assert(stack[i] != stack[j]);
            } else if i < stack.len() {
                assert(stack.contains(stack[i]));
            } else {
                assert(stack.contains(stack[j]));
            }
        }
    }
    assert forall|k: int| 0 <= k < longer.len() implies source_paths(sources).contains(
        #[trigger] longer[k],
    ) by {
        if k < stack.len() {
            assert(longer[k] == stack[k]);
        }
    }
}

/// Expanding an include never comes to the bound on nesting.
pub proof fn lemma_included_is_bounded(
    sources: Seq<SourceView>,
    token: Seq<char>,
    parent: Seq<char>,
    line: nat,
    stack: Seq<Seq<char>>,
    state: Expanded,
    depth: nat,
)
    requires
        bounded(sources, stack, depth),
    ensures
        !(included(sources, token, parent, line, stack, state, depth) matches Err(
            HaltView::TooDeep { .. },
        )),
    decreases depth, 0int,
{
    let resolved = resolved_include(token, parent);
    let id = canonical_path(resolved);
    let at = first_source(sources, id);
    lemma_first_source(sources, id);
    if !state.once.contains(id) && !stack.contains(id) && at < sources.len() {
        lemma_room_for_one_more(sources, stack, depth, id);
        lemma_scanned_is_bounded(
            sources,
            resolved,
            id,
            sources[at].text,
            0,
            Seq::empty(),
            0,
            stack.push(id),
            state,
            (depth - 1) as nat,
        );
    }
}

/// Expanding a text never comes to the bound on nesting.
pub proof fn lemma_scanned_is_bounded(
    sources: Seq<SourceView>,
    file: Seq<char>,
    id: Seq<char>,
    text: Seq<char>,
    pos: int,
    current: Seq<char>,
    line_offset: nat,
    stack: Seq<Seq<char>>,
    state: Expanded,
    depth: nat,
)
    requires
        bounded(sources, stack, depth),
    ensures
        !(scanned(sources, file, id, text, pos, current, line_offset, stack, state, depth) matches Err(
            HaltView::TooDeep { .. },
        )),
    decreases depth, text.len() - pos + 1,
{
    if 0 <= pos < text.len() {
        match piece_at(text, pos) {
            Piece::Text { out, end } => {
                if pos < end <= text.len() {
                    lemma_scanned_is_bounded(
                        sources,
                        file,
                        id,
                        text,
                        end,
                        current + out,
                        line_offset,
                        stack,
                        state,
                        depth,
                    );
                }
            },
            Piece::PragmaOnce { end } => {
                if pos < end <= text.len() {
                    lemma_scanned_is_bounded(
                        sources,
                        file,
                        id,
                        text,
                        end,
                        current,
                        line_offset,
                        stack,
                        Expanded { once: state.once.push(id), ..state },
                        depth,
                    );
                }
            },
            Piece::Include { path, end } => {
                if pos < end <= text.len() {
                    let before = flushed(state, file, line_offset, current);
                    lemma_included_is_bounded(
                        sources,
                        path,
                        file,
                        newlines(text, pos) + 1,
                        stack,
                        before,
                        depth,
                    );
                    match included(
                        sources,
                        path,
                        file,
                        newlines(text, pos) + 1,
                        stack,
                        before,
                        depth,
                    ) {
                        Ok(after) => {
                            lemma_scanned_is_bounded(
                                sources,
                                file,
                                id,
                                text,
                                end,
                                Seq::empty(),
                                newlines(text, end),
                                stack,
                                after,
                                depth,
                            );
                        },
                        Err(_) => {},
                    }
                }
            },
            Piece::ParseError => {},
        }
    }
}

/// A cycle is refused: an include of a file that is being expanded ends the
/// expansion with the recursion halt, whatever the file asked for and
/// whatever way its path is written, as long as the canonical path is that
/// of a file on the chain of files being expanded.
pub proof fn law_cycle_is_refused(
    sources: Seq<SourceView>,
    token: Seq<char>,
    parent: Seq<char>,
    line: nat,
    stack: Seq<Seq<char>>,
    state: Expanded,
    depth: nat,
)
    requires
        stack.contains(canonical_path(resolved_include(token, parent))),
    ensures
        included(sources, token, parent, line, stack, state, depth) == Err::<Expanded, HaltView>(
            HaltView::Recursive {
                file: resolved_include(token, parent),
                from: parent,
                from_line: line,
            },
        ),
{
}

/// The bound on nesting that the definition of the expansion carries is
/// never reached: a file that is being expanded is not expanded again
/// within itself, so includes nest no deeper than there are sources. An
/// expansion therefore ends with the chunks, with the file it needs, with
/// a parse error or with a refused cycle.
pub proof fn law_expansion_is_bounded(sources: Seq<SourceView>, entry: Seq<char>)
    ensures
        !(expansion(sources, entry) matches Err(HaltView::TooDeep { .. })),
{
    lemma_starts_bounded(sources);
    lemma_included_is_bounded(
        sources,
        entry,
        Seq::empty(),
        1,
        Seq::empty(),
        Expanded { chunks: Seq::empty(), once: Seq::empty() },
        sources.len(),
    );
}

proof fn lemma_starts_bounded(sources: Seq<SourceView>)
    ensures
        bounded(sources, Seq::empty(), sources.len()),
{
    source_paths(sources).lemma_cardinality_of_set();
}

/// The position of the first of `sources` with the path `path`.
fn find_source(sources: &Vec<SourceFile>, path: &String) -> (at: usize)
    ensures
        at == first_source(sources.deep_view(), path@),
        at <= sources.len(),
{
    let ghost all = sources.deep_view();
    let mut i: usize = 0;
    assert(all.skip(0) =~= all);
    while i < sources.len()
        invariant
            i <= sources.len(),
            all == sources.deep_view(),
            first_source(all, path@) == i + first_source(all.skip(i as int), path@),
        decreases sources.len() - i,
    {
        proof {
            assert(all.skip(i as int).first() == sources@[i as int]@);
            assert(all.skip(i as int).drop_first() =~= all.skip(i + 1));
        }
        if sources[i].path == *path {
            return i;
        }
        i += 1;
    }
    assert(all.skip(sources.len() as int) =~= Seq::empty());
    i
}

/// What the exec state amounts to.
spec fn gathered(chunks: &Vec<SourceChunk>, once: &Vec<String>) -> Expanded {
    Expanded { chunks: chunks.deep_view(), once: string_views(once@) }
}

/// The result of a step meets what the specification says of it: on
/// success the state is the specified one, on a halt the halt is.
spec fn meets(
    want: Result<Expanded, HaltView>,
    halt: Option<Halt>,
    chunks: &Vec<SourceChunk>,
    once: &Vec<String>,
) -> bool {
    match want {
        Ok(state) => halt is None && gathered(chunks, once) == state,
        Err(h) => halt matches Some(x) && x@ == h,
    }
}

fn flush(chunks: &mut Vec<SourceChunk>, file: &String, line_offset: usize, current: &Vec<char>)
    ensures
        final(chunks).deep_view() == flushed(
            Expanded { chunks: old(chunks).deep_view(), once: Seq::empty() },
            file@,
            line_offset as nat,
            current@,
        ).chunks,
{
    if current.len() > 0 {
        chunks.push(
            SourceChunk { file: file.clone(), line_offset, source: string_of(current) },
        );
        proof {
            let added = ChunkView { file: file@, line_offset: line_offset as nat, source: current@ };
            assert(chunks.deep_view() =~= old(chunks).deep_view().push(added));
        }
    }
}

fn include_child(
    sources: &Vec<SourceFile>,
    token: &str,
    parent: &String,
    line: usize,
    stack: &mut Vec<String>,
    chunks: &mut Vec<SourceChunk>,
    once: &mut Vec<String>,
    depth: usize,
) -> (halt: Option<Halt>)
    requires
        bounded(sources.deep_view(), string_views(old(stack)@), depth as nat),
    ensures
        meets(
            included(
                sources.deep_view(),
                token@,
                parent@,
                line as nat,
                string_views(old(stack)@),
                gathered(old(chunks), old(once)),
                depth as nat,
            ),
            halt,
            final(chunks),
            final(once),
        ),
        string_views(final(stack)@) == string_views(old(stack)@),
    decreases depth, 0int,
{
    let resolved = resolve_include(token, parent.as_str());
    let id = canonical(resolved.as_str());
    if lists_string(stack, &id) {
        return Some(Halt::Recursive { file: resolved, from: parent.clone(), from_line: line });
    }
    if lists_string(once, &id) {
        return None;
    }
    let at = find_source(sources, &id);
    if at >= sources.len() {
        return Some(Halt::Needs { path: id, written: token.to_owned() });
    }
    proof {
        lemma_first_source(sources.deep_view(), id@);
        lemma_room_for_one_more(sources.deep_view(), string_views(stack@), depth as nat, id@);
    }
    let text = chars_of(sources[at].text.as_str());
    proof {
        assert(sources.deep_view()[at as int] == sources@[at as int]@);
    }
    let ghost before = string_views(stack@);
    stack.push(id.clone());
    proof {
        assert(string_views(stack@) =~= before.push(id@));
    }
    let halt = scan_file(sources, &resolved, &id, &text, stack, chunks, once, depth - 1);
    let ghost deeper = stack@;
    stack.pop();
    proof {
        assert(string_views(deeper) == before.push(id@));
        assert(stack@ =~= deeper.drop_last());
        assert forall|k: int| 0 <= k < before.len() implies string_views(stack@)[k]
            == before[k] by {
            assert(string_views(deeper)[k] == before.push(id@)[k]);
        }
        assert(string_views(stack@) =~= before);
    }
    halt
}

fn scan_file(
    sources: &Vec<SourceFile>,
    file: &String,
    id: &String,
    text: &Vec<char>,
    stack: &mut Vec<String>,
    chunks: &mut Vec<SourceChunk>,
    once: &mut Vec<String>,
    depth: usize,
) -> (halt: Option<Halt>)
    requires
        bounded(sources.deep_view(), string_views(old(stack)@), depth as nat),
    ensures
        meets(
            scanned(
                sources.deep_view(),
                file@,
                id@,
                text@,
                0,
                Seq::empty(),
                0,
                string_views(old(stack)@),
                gathered(old(chunks), old(once)),
                depth as nat,
            ),
            halt,
            final(chunks),
            final(once),
        ),
        string_views(final(stack)@) == string_views(old(stack)@),
    decreases depth, 1int,
{
    let ghost all = sources.deep_view();
    let ghost chain = string_views(stack@);
    let ghost want = scanned(
        all,
        file@,
        id@,
        text@,
        0,
        Seq::empty(),
        0,
        chain,
        gathered(chunks, once),
        depth as nat,
    );
    let mut current: Vec<char> = Vec::new();
    let mut line_offset: usize = 0;
    let mut lines: usize = 0;
    let mut pos: usize = 0;
    while pos < text.len()
        invariant
            pos <= text.len(),
            all == sources.deep_view(),
            chain == string_views(stack@),
            chain == string_views(old(stack)@),
            bounded(all, chain, depth as nat),
            want == scanned(
                all,
                file@,
                id@,
                text@,
                0,
                Seq::empty(),
                0,
                string_views(old(stack)@),
                gathered(old(chunks), old(once)),
                depth as nat,
            ),
            lines == newlines(text@, pos as int),
            lines <= pos,
            want == scanned(
                all,
                file@,
                id@,
                text@,
                pos as int,
                current@,
                line_offset as nat,
                chain,
                gathered(chunks, once),
                depth as nat,
            ),
        decreases text.len() - pos,
    {
        let ghost state = gathered(chunks, once);
        match read_piece(text, pos, &mut current) {
            PieceRead::Text { end } => {
                lines = lines + count_newlines(text, pos, end);
                pos = end;
            },
            PieceRead::PragmaOnce { end } => {
                once.push(id.clone());
                proof {
                    assert(string_views(once@) =~= state.once.push(id@));
                }
                lines = lines + count_newlines(text, pos, end);
                pos = end;
            },
            PieceRead::Include { path, end } => {
                flush(chunks, file, line_offset, &current);
                proof {
                    assert(gathered(chunks, once) == flushed(
                        state,
                        file@,
                        line_offset as nat,
                        current@,
                    ));
                }
                let token = string_of(&path);
                let halt = include_child(
                    sources,
                    token.as_str(),
                    file,
                    lines + 1,
                    stack,
                    chunks,
                    once,
                    depth,
                );
                if halt.is_some() {
                    return halt;
                }
                current = Vec::new();
                lines = lines + count_newlines(text, pos, end);
                line_offset = lines;
                pos = end;
            },
            PieceRead::ParseError => {
                return Some(Halt::Parse { file: file.clone(), line: lines + 1 });
            },
        }
    }
    flush(chunks, file, line_offset, &current);
    None
}

/// Expands the includes of the shader at `entry`, reading the files from
/// `sources`. Yields the chunks in the order of the text, or the reason
/// why the expansion stopped: most often a file that has to be added to
/// the sources before asking again.
pub fn preprocess(sources: &Vec<SourceFile>, entry: &str) -> (expanded: Result<
    Vec<SourceChunk>,
    Halt,
>)
    ensures
        match expanded {
            Ok(chunks) => expansion(sources.deep_view(), entry@) == Ok::<
                Seq<ChunkView>,
                HaltView,
            >(chunks.deep_view()),
            Err(halt) => expansion(sources.deep_view(), entry@) == Err::<
                Seq<ChunkView>,
                HaltView,
            >(halt@),
        },
{
    let mut stack: Vec<String> = Vec::new();
    let mut chunks: Vec<SourceChunk> = Vec::new();
    let mut once: Vec<String> = Vec::new();
    let root = String::new();
    proof {
        lemma_starts_bounded(sources.deep_view());
        assert(string_views(stack@) =~= Seq::empty());
        assert(string_views(once@) =~= Seq::empty());
        assert(chunks.deep_view() =~= Seq::empty());
    }
    match include_child(sources, entry, &root, 1, &mut stack, &mut chunks, &mut once, sources.len()) {
        Some(halt) => Err(halt),
        None => Ok(chunks),
    }
}

/// The message that tells of a halt.
pub open spec fn halt_message(halt: HaltView) -> Seq<char> {
    match halt {
        HaltView::Needs { path, written } => "include not found: "@ + written,
        HaltView::Parse { file, line } => "parse error: "@ + file + seq!['('] + decimal(line)
            + seq![')'],
        HaltView::Recursive { file, from, from_line } => "recursive include of "@ + file
            + " in "@ + from + seq!['('] + decimal(from_line) + seq![')'],
        HaltView::TooDeep { file } => "includes nested too deep: "@ + file,
    }
}

/// The error that a halt amounts to once it is final: the include that
/// could not be found, parsed or allowed.
pub fn include_error(halt: &Halt) -> (error: ShaderError)
    ensures
        error@ == ShaderErrorView::IncludeResolution(halt_message(halt@)),
{
    let mut message: Vec<char> = Vec::new();
    match halt {
        Halt::Needs { path, written } => {
            push_chars(&mut message, &chars_of("include not found: "));
            push_chars(&mut message, &chars_of(written.as_str()));
        },
        Halt::Parse { file, line } => {
            push_chars(&mut message, &chars_of("parse error: "));
            push_chars(&mut message, &chars_of(file.as_str()));
            message.push('(');
            push_decimal(&mut message, *line as u128);
            message.push(')');
        },
        Halt::Recursive { file, from, from_line } => {
            push_chars(&mut message, &chars_of("recursive include of "));
            push_chars(&mut message, &chars_of(file.as_str()));
            push_chars(&mut message, &chars_of(" in "));
            push_chars(&mut message, &chars_of(from.as_str()));
            message.push('(');
            push_decimal(&mut message, *from_line as u128);
            message.push(')');
        },
    }
    assert(message@ =~= halt_message(halt@));
    ShaderError::IncludeResolution(string_of(&message))
}

} // verus!
