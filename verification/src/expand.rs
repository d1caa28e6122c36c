//! The build graph that a `song.yml` node expands into: the generated files
//! of the song, the LilyPond chains, the audio renders and the delivered copies.

use vstd::prelude::*;

use crate::model::song_stem;
use crate::paths::{file_stem, join, parent, path_file_stem, path_join, path_parent, path_with_extension, with_extension};
use crate::plan::string_views;
use crate::clicks::BarMap;
use crate::model::{SectionItem, StructureItem};
use crate::numbering::{bar_map_of_structure, entry_views, numbering};
use crate::songyml::{
    apply_section_colors, color_failed, dangling_ref_message, default_color_of, is_dangling_ref,
    lemma_coloring_keeps_links, lyrics_inputs, lyrics_inputs_of, resolve_ref_colors, section_colored,
    section_types_of, sections_of, settings_link_color, type_ids, SongYml,
};
use crate::sources::{
    classify_included, existing_renders, included_of, is_render_of, lemma_missing_declared_source_changes_nothing,
    ly_files_of, render_targets,
};
use crate::sources::RenderTarget;
use crate::text::concat;
use vstd::string::StringExecFns;

verus! {

broadcast use vstd::string::group_string_axioms;

/// The kinds of nodes in the build graph of a song.
#[derive(Debug, Clone, Copy, PartialEq, Eq, Structural)]
pub enum NodeKind {
    /// A TeX source or generated TeX file.
    TexFile,
    /// The generated chord chart.
    SongTikz,
    /// A LilyPond source.
    LilypondFile,
    /// A PDF built by LaTeX.
    PdfFile,
    /// The LaTeX wrapper of a LilyPond file.
    LyTexFile,
    /// The TeX that `lilypond-book` writes for a LilyPond file.
    TexOfLilypond,
    /// The cropped PDF of a single LilyPond file.
    PdfOfLilypond,
    /// The MIDI file LilyPond writes.
    MidiOfLilypond,
    /// An mp3 synthesised from MIDI.
    Mp3Render,
    /// The Strudel page of the song's drums.
    StrudelFile,
    /// The interpolated click track.
    ClickYml,
    /// The song recording.
    Mp3,
    /// The `song.yml` node itself.
    SongYml,
    /// A copy of a built file to the delivery directories.
    CopyFile,
}

/// A node of the graph: its kind, its path, and, for a copy, its tag.
#[derive(Debug, Clone, PartialEq)]
pub struct GraphNode {
    /// What the node builds.
    pub kind: NodeKind,
    /// Its path, relative to the songs sandbox.
    pub path: String,
    /// The tag of a copy node; empty for the other kinds.
    pub tag: String,
}

/// A node as plain values.
pub type NodeView = (NodeKind, Seq<char>, Seq<char>);

/// The plain values of a node.
pub open spec fn node_view(n: GraphNode) -> NodeView {
    (n.kind, n.path@, n.tag@)
}

/// A node that is not a copy.
pub open spec fn nd(kind: NodeKind, path: Seq<char>) -> NodeView {
    (kind, path, Seq::empty())
}

/// A copy node.
pub open spec fn copy(path: Seq<char>, tag: Seq<char>) -> NodeView {
    (NodeKind::CopyFile, path, tag)
}

/// The nodes of a list.
pub open spec fn node_views(v: Seq<GraphNode>) -> Seq<NodeView> {
    v.map_values(|n: GraphNode| node_view(n))
}

/// The edges of a list.
pub open spec fn edge_views(v: Seq<(GraphNode, GraphNode)>) -> Seq<(NodeView, NodeView)> {
    v.map_values(|e: (GraphNode, GraphNode)| (node_view(e.0), node_view(e.1)))
}

/// The build graph of a song: nodes to add, and edges between nodes.
#[derive(Debug, Clone, PartialEq)]
pub struct ExpandPlan {
    /// The nodes, in the order they are added.
    pub nodes: Vec<GraphNode>,
    /// The edges, each from a node to a node that depends on it.
    pub edges: Vec<(GraphNode, GraphNode)>,
}

fn node(kind: NodeKind, path: String) -> (r: GraphNode)
    ensures
        node_view(r) == nd(kind, path@),
{
    let r = GraphNode { kind, path, tag: String::new() };
    assert(node_view(r) =~= nd(kind, path@));
    r
}

fn copy_node(path: String, tag: &str) -> (r: GraphNode)
    ensures
        node_view(r) == copy(path@, tag@),
{
    GraphNode { kind: NodeKind::CopyFile, path, tag: String::from_str(tag) }
}


/// The pieces that `f` gives for each element, one after the other.
pub open spec fn concat_map<A, B>(s: Seq<A>, f: spec_fn(A) -> Seq<B>) -> Seq<B>
    decreases s.len(),
{
    if s.len() == 0 {
        Seq::empty()
    } else {
        concat_map(s.drop_last(), f) + f(s.last())
    }
}

/// The stem of a path, or `unknown` when it has no file name.
pub open spec fn stem_or_unknown(p: Seq<char>) -> Seq<char> {
    match file_stem(p) {
        Some(s) => s,
        None => "unknown"@,
    }
}

/// The stem of a path, or `unknown` when it has no file name.
fn stem_or_unknown_of(p: &str) -> (r: String)
    ensures
        r@ == stem_or_unknown(p@),
{
    match path_file_stem(p) {
        Some(s) => s,
        None => String::from_str("unknown"),
    }
}

/// The lyrics file of the song's lyrics documents.
pub open spec fn lyrics_file(dir: Seq<char>, name: Seq<char>) -> Seq<char> {
    join(join(dir, "lyrics"@), name)
}

/// The generated files of the song, which every song has.
pub open spec fn fixed_nodes(dir: Seq<char>) -> Seq<NodeView> {
    seq![
        nd(NodeKind::TexFile, join(dir, "main.tex"@)),
        nd(NodeKind::SongTikz, join(dir, "song.tikz"@)),
        nd(NodeKind::TexFile, join(dir, "preamble.tex"@)),
        nd(NodeKind::TexFile, join(dir, "tikzlibraryspline.code.tex"@)),
        nd(NodeKind::TexFile, join(dir, "sections.tex"@)),
        nd(NodeKind::TexFile, join(dir, "chords.tex"@)),
        nd(NodeKind::TexFile, join(dir, "data.tex"@)),
        nd(NodeKind::LilypondFile, join(dir, "macros.ly"@)),
        nd(NodeKind::TexFile, lyrics_file(dir, "main-1col.tex"@)),
        nd(NodeKind::TexFile, lyrics_file(dir, "main-2col.tex"@)),
        nd(NodeKind::PdfFile, lyrics_file(dir, "main-1col.pdf"@)),
        nd(NodeKind::PdfFile, lyrics_file(dir, "main-2col.pdf"@)),
    ]
}

/// The edges from the main and lyrics TeX files to their PDFs.
pub open spec fn fixed_edges(dir: Seq<char>) -> Seq<(NodeView, NodeView)> {
    seq![
        (nd(NodeKind::TexFile, join(dir, "main.tex"@)), nd(NodeKind::PdfFile, join(dir, "main.pdf"@))),
        (nd(NodeKind::TexFile, lyrics_file(dir, "main-1col.tex"@)), nd(NodeKind::PdfFile, lyrics_file(dir, "main-1col.pdf"@))),
        (nd(NodeKind::TexFile, lyrics_file(dir, "main-2col.tex"@)), nd(NodeKind::PdfFile, lyrics_file(dir, "main-2col.pdf"@))),
    ]
}

/// The TeX that `lilypond-book` writes for `p`: `{stem}.output/{stem}.tex`
/// beside it.
pub open spec fn tex_of_ly(p: Seq<char>) -> Seq<char> {
    join(join(parent(p), stem_or_unknown(p) + ".output"@), stem_or_unknown(p) + ".tex"@)
}

/// The chain of a top-level LilyPond file: the source, its LaTeX wrapper and
/// the TeX of `lilypond-book`.
pub open spec fn ly_chain_nodes(p: Seq<char>) -> Seq<NodeView> {
    seq![
        nd(NodeKind::LilypondFile, p),
        nd(NodeKind::LyTexFile, with_extension(p, "lytex"@)),
        nd(NodeKind::TexOfLilypond, tex_of_ly(p)),
    ]
}

/// The edges of the chain of a top-level LilyPond file: every file it pulls
/// in, and the file itself, before its wrapper; the wrapper before the PDF
/// and the TeX of `lilypond-book`; that TeX before the PDF.
pub open spec fn ly_chain_edges(dir: Seq<char>, dep: Seq<Seq<char>>, p: Seq<char>) -> Seq<(NodeView, NodeView)> {
    let lytex = nd(NodeKind::LyTexFile, with_extension(p, "lytex"@));
    let texofly = nd(NodeKind::TexOfLilypond, tex_of_ly(p));
    let pdf = nd(NodeKind::PdfFile, join(dir, "main.pdf"@));
    dep.map_values(|inc: Seq<char>| (nd(NodeKind::LilypondFile, inc), lytex)) + seq![
        (nd(NodeKind::LilypondFile, p), lytex),
        (lytex, pdf),
        (nd(NodeKind::LilypondFile, p), texofly),
        (lytex, texofly),
        (texofly, pdf),
    ]
}

/// The delivered copy of the cropped PDF of `p`.
pub open spec fn snippet_copy(stem: Seq<char>, p: Seq<char>) -> NodeView {
    copy(join("../pdf-snippets"@, stem + "-"@ + stem_or_unknown(p) + ".pdf"@), "pdfsnippet"@)
}

/// The cropped PDF of a top-level LilyPond file and its delivered copy.
pub open spec fn snippet_nodes(stem: Seq<char>, p: Seq<char>) -> Seq<NodeView> {
    seq![nd(NodeKind::PdfOfLilypond, with_extension(p, "pdf"@)), snippet_copy(stem, p)]
}

/// The edges of the cropped PDF of a top-level LilyPond file.
pub open spec fn snippet_edges(stem: Seq<char>, p: Seq<char>) -> Seq<(NodeView, NodeView)> {
    let snip = nd(NodeKind::PdfOfLilypond, with_extension(p, "pdf"@));
    seq![(nd(NodeKind::LilypondFile, p), snip), (snip, snippet_copy(stem, p))]
}

/// The delivered copy of an audio render.
pub open spec fn render_copy(stem: Seq<char>, t: RenderTarget) -> NodeView {
    copy(join("../mp3-renders"@, stem + "-"@ + stem_or_unknown(t.mp3@) + ".mp3"@), "mp3render"@)
}

/// The nodes of an audio render: its source when it has no node yet, the
/// MIDI, the mp3 and its delivered copy.
pub open spec fn render_nodes(stem: Seq<char>, t: RenderTarget) -> Seq<NodeView> {
    (if t.already_mounted { Seq::empty() } else { seq![nd(NodeKind::LilypondFile, t.ly@)] }) + seq![
        nd(NodeKind::MidiOfLilypond, t.midi@),
        nd(NodeKind::Mp3Render, t.mp3@),
        render_copy(stem, t),
    ]
}

/// The edges of an audio render: the source and every file pulled in before
/// the MIDI, the MIDI before the mp3, the mp3 before its copy.
pub open spec fn render_edges(stem: Seq<char>, dep: Seq<Seq<char>>, t: RenderTarget) -> Seq<(NodeView, NodeView)> {
    let midi = nd(NodeKind::MidiOfLilypond, t.midi@);
    let mp3 = nd(NodeKind::Mp3Render, t.mp3@);
    seq![(nd(NodeKind::LilypondFile, t.ly@), midi)] + dep.map_values(
        |inc: Seq<char>| (nd(NodeKind::LilypondFile, inc), midi),
    ) + seq![(midi, mp3), (mp3, render_copy(stem, t))]
}

/// The Strudel page of the song and its delivered copy.
pub open spec fn strudel_nodes(dir: Seq<char>, stem: Seq<char>) -> Seq<NodeView> {
    seq![
        nd(NodeKind::StrudelFile, join(dir, "strudel.html"@)),
        copy(join("../tempo"@, stem + ".html"@), "strudel"@),
    ]
}

/// The edges of the Strudel page: `song.yml` before it, it before its copy.
pub open spec fn strudel_edges(song_path: Seq<char>, dir: Seq<char>, stem: Seq<char>) -> Seq<(NodeView, NodeView)> {
    let page = nd(NodeKind::StrudelFile, join(dir, "strudel.html"@));
    seq![
        (nd(NodeKind::SongYml, song_path), page),
        (page, copy(join("../tempo"@, stem + ".html"@), "strudel"@)),
    ]
}

/// The click track of the song and its delivered copy.
pub open spec fn clicks_nodes(dir: Seq<char>, stem: Seq<char>) -> Seq<NodeView> {
    seq![
        nd(NodeKind::ClickYml, join(dir, "clicks.yml"@)),
        copy(join("../clicks"@, stem + "-clicks.yml"@), "clicks.yml"@),
    ]
}

/// The recording of the song and its delivered copy.
pub open spec fn mp3_nodes(dir: Seq<char>, stem: Seq<char>) -> Seq<NodeView> {
    seq![nd(NodeKind::Mp3, join(dir, "song.mp3"@)), copy(join("../mp3"@, stem + ".mp3"@), "mp3"@)]
}

/// The edge from a pair of nodes: the first before the second.
pub open spec fn pair_edge(pair: Seq<NodeView>) -> Seq<(NodeView, NodeView)> {
    seq![(pair[0], pair[1])]
}

/// The message of a song with clicks but no recording.
pub open spec fn clicks_without_mp3_message(song_path: Seq<char>) -> Seq<char> {
    song_path + ": has_clicks is true but has_mp3 is false \u{2014} song.mp3 is required for click overlay"@
}


/// All the nodes a song expands into, in the order they are added.
pub open spec fn expand_nodes(
    dir: Seq<char>,
    stem: Seq<char>,
    ly: Seq<Seq<char>>,
    mount: Seq<Seq<char>>,
    renders: Seq<RenderTarget>,
    has_clicks: bool,
    has_mp3: bool,
) -> Seq<NodeView> {
    fixed_nodes(dir) + mount.map_values(|p: Seq<char>| nd(NodeKind::LilypondFile, p)) + concat_map(
        ly,
        |p: Seq<char>| ly_chain_nodes(p),
    ) + concat_map(ly, |p: Seq<char>| snippet_nodes(stem, p)) + concat_map(
        renders,
        |t: RenderTarget| render_nodes(stem, t),
    ) + strudel_nodes(dir, stem) + (if has_clicks { clicks_nodes(dir, stem) } else { Seq::empty() })
        + (if has_mp3 { mp3_nodes(dir, stem) } else { Seq::empty() })
}

/// All the edges of the graph a song expands into, in order.
pub open spec fn expand_edges(
    song_path: Seq<char>,
    dir: Seq<char>,
    stem: Seq<char>,
    ly: Seq<Seq<char>>,
    dep: Seq<Seq<char>>,
    renders: Seq<RenderTarget>,
    has_clicks: bool,
    has_mp3: bool,
) -> Seq<(NodeView, NodeView)> {
    fixed_edges(dir) + concat_map(ly, |p: Seq<char>| ly_chain_edges(dir, dep, p)) + concat_map(
        ly,
        |p: Seq<char>| snippet_edges(stem, p),
    ) + concat_map(renders, |t: RenderTarget| render_edges(stem, dep, t)) + strudel_edges(
        song_path,
        dir,
        stem,
    ) + (if has_clicks { pair_edge(clicks_nodes(dir, stem)) } else { Seq::empty() }) + (if has_mp3 {
        pair_edge(mp3_nodes(dir, stem))
    } else {
        Seq::empty()
    })
}

fn nd_of(kind: NodeKind, path: &str) -> (r: GraphNode)
    ensures
        node_view(r) == nd(kind, path@),
{
    node(kind, String::from_str(path))
}

fn push_node(nodes: &mut Vec<GraphNode>, n: GraphNode)
    ensures
        node_views(final(nodes)@) == node_views(old(nodes)@).push(node_view(n)),
{
    nodes.push(n);
    assert(node_views(final(nodes)@) =~= node_views(old(nodes)@).push(node_view(n)));
}

fn push_edge(edges: &mut Vec<(GraphNode, GraphNode)>, a: GraphNode, b: GraphNode)
    ensures
        edge_views(final(edges)@) == edge_views(old(edges)@).push((node_view(a), node_view(b))),
{
    edges.push((a, b));
    assert(edge_views(final(edges)@) =~= edge_views(old(edges)@).push((node_view(a), node_view(b))));
}

/// The TeX that `lilypond-book` writes for a LilyPond file.
fn tex_of_ly_path(p: &str) -> (r: String)
    ensures
        r@ == tex_of_ly(p@),
{
    let stem = stem_or_unknown_of(p);
    let dir = path_parent(p);
    let out_dir = concat(stem.as_str(), ".output");
    let tex = concat(stem.as_str(), ".tex");
    let d = path_join(dir.as_str(), out_dir.as_str());
    path_join(d.as_str(), tex.as_str())
}

fn snippet_copy_path(stem: &str, p: &str) -> (r: String)
    ensures
        copy(r@, "pdfsnippet"@) == snippet_copy(stem@, p@),
{
    let section = stem_or_unknown_of(p);
    let mut name = concat(stem, "-");
    name.append(section.as_str());
    name.append(".pdf");
    path_join("../pdf-snippets", name.as_str())
}

fn render_copy_path(stem: &str, t: &RenderTarget) -> (r: String)
    ensures
        copy(r@, "mp3render"@) == render_copy(stem@, *t),
{
    let section = stem_or_unknown_of(t.mp3.as_str());
    let mut name = concat(stem, "-");
    name.append(section.as_str());
    name.append(".mp3");
    path_join("../mp3-renders", name.as_str())
}

impl SongYml {
    /// The build graph the song expands into, given its top-level LilyPond
    /// files, the pulled-in files to mount and to depend on, and its audio
    /// renders. A song with clicks but without a recording fails: the click
    /// overlay needs `song.mp3`.
    #[verifier::rlimit(40)]
    pub fn expand_plan(
        &self,
        ly_files: &Vec<String>,
        mount: &Vec<String>,
        dep: &Vec<String>,
        renders: &Vec<RenderTarget>,
    ) -> (r: Result<ExpandPlan, String>)
        ensures
            r is Err <==> self.song.files.has_clicks && !self.song.files.has_mp3,
            r matches Err(e) ==> e@ == clicks_without_mp3_message(self.path@),
            r matches Ok(plan) ==> node_views(plan.nodes@) == expand_nodes(
                parent(self.path@),
                song_stem(self.song.info.author@, self.song.info.title@),
                string_views(ly_files@),
                string_views(mount@),
                renders@,
                self.song.files.has_clicks,
                self.song.files.has_mp3,
            ) && edge_views(plan.edges@) == expand_edges(
                self.path@,
                parent(self.path@),
                song_stem(self.song.info.author@, self.song.info.title@),
                string_views(ly_files@),
                string_views(dep@),
                renders@,
                self.song.files.has_clicks,
                self.song.files.has_mp3,
            ),
    {
        if self.song.files.has_clicks && !self.song.files.has_mp3 {
            let e = concat(
                self.path.as_str(),
                ": has_clicks is true but has_mp3 is false \u{2014} song.mp3 is required for click overlay",
            );
            return Err(e);
        }
        let dir = path_parent(self.path.as_str());
        let stem = self.song.info.file_stem_of_song();
        let ghost d = dir@;
        let ghost st = stem@;
        let ghost lv = string_views(ly_files@);
        let ghost dv = string_views(dep@);
        let lyrics_dir = path_join(dir.as_str(), "lyrics");
        let main_tex = path_join(dir.as_str(), "main.tex");
        let main_pdf = path_join(dir.as_str(), "main.pdf");
        let l1t = path_join(lyrics_dir.as_str(), "main-1col.tex");
        let l2t = path_join(lyrics_dir.as_str(), "main-2col.tex");
        let l1p = path_join(lyrics_dir.as_str(), "main-1col.pdf");
        let l2p = path_join(lyrics_dir.as_str(), "main-2col.pdf");

        let mut nodes: Vec<GraphNode> = Vec::new();
        push_node(&mut nodes, nd_of(NodeKind::TexFile, main_tex.as_str()));
        push_node(&mut nodes, node(NodeKind::SongTikz, path_join(dir.as_str(), "song.tikz")));
        push_node(&mut nodes, node(NodeKind::TexFile, path_join(dir.as_str(), "preamble.tex")));
        push_node(&mut nodes, node(NodeKind::TexFile, path_join(dir.as_str(), "tikzlibraryspline.code.tex")));
        push_node(&mut nodes, node(NodeKind::TexFile, path_join(dir.as_str(), "sections.tex")));
        push_node(&mut nodes, node(NodeKind::TexFile, path_join(dir.as_str(), "chords.tex")));
        push_node(&mut nodes, node(NodeKind::TexFile, path_join(dir.as_str(), "data.tex")));
        push_node(&mut nodes, node(NodeKind::LilypondFile, path_join(dir.as_str(), "macros.ly")));
        push_node(&mut nodes, nd_of(NodeKind::TexFile, l1t.as_str()));
        push_node(&mut nodes, nd_of(NodeKind::TexFile, l2t.as_str()));
        push_node(&mut nodes, nd_of(NodeKind::PdfFile, l1p.as_str()));
        push_node(&mut nodes, nd_of(NodeKind::PdfFile, l2p.as_str()));
        assert(node_views(nodes@) =~= fixed_nodes(d));

        let mut edges: Vec<(GraphNode, GraphNode)> = Vec::new();
        push_edge(&mut edges, nd_of(NodeKind::TexFile, main_tex.as_str()), nd_of(NodeKind::PdfFile, main_pdf.as_str()));
        push_edge(&mut edges, nd_of(NodeKind::TexFile, l1t.as_str()), nd_of(NodeKind::PdfFile, l1p.as_str()));
        push_edge(&mut edges, nd_of(NodeKind::TexFile, l2t.as_str()), nd_of(NodeKind::PdfFile, l2p.as_str()));
        assert(edge_views(edges@) =~= fixed_edges(d));

        // Pulled-in files to mount: source nodes, without a chain.
        let ghost n0 = node_views(nodes@);
        for i in 0..mount.len()
            invariant
                node_views(nodes@) == n0 + string_views(mount@).take(i as int).map_values(
                    |p: Seq<char>| nd(NodeKind::LilypondFile, p),
                ),
        {
            push_node(&mut nodes, nd_of(NodeKind::LilypondFile, mount[i].as_str()));
            assert(string_views(mount@).take(i + 1).map_values(|p: Seq<char>| nd(NodeKind::LilypondFile, p))
                =~= string_views(mount@).take(i as int).map_values(|p: Seq<char>| nd(NodeKind::LilypondFile, p)).push(
                nd(NodeKind::LilypondFile, mount@[i as int]@)));
        }
        assert(string_views(mount@).take(mount@.len() as int) =~= string_views(mount@));

        // Top-level LilyPond files: source, wrapper, TeX of lilypond-book.
        let ghost n1 = node_views(nodes@);
        let ghost e1 = edge_views(edges@);
        for i in 0..ly_files.len()
            invariant
                lv == string_views(ly_files@),
                dv == string_views(dep@),
                main_pdf@ == join(d, "main.pdf"@),
                node_views(nodes@) == n1 + concat_map(lv.take(i as int), |p: Seq<char>| ly_chain_nodes(p)),
                edge_views(edges@) == e1 + concat_map(lv.take(i as int), |p: Seq<char>| ly_chain_edges(d, dv, p)),
        {
            let p = ly_files[i].as_str();
            assert(lv.take(i + 1).drop_last() =~= lv.take(i as int));
            assert(lv.take(i + 1).last() == p@);
            let lytex = path_with_extension(p, "lytex");
            let texofly = tex_of_ly_path(p);
            let ghost nb = node_views(nodes@);
            push_node(&mut nodes, nd_of(NodeKind::LilypondFile, p));
            push_node(&mut nodes, nd_of(NodeKind::LyTexFile, lytex.as_str()));
            push_node(&mut nodes, nd_of(NodeKind::TexOfLilypond, texofly.as_str()));
            assert(node_views(nodes@) =~= nb + ly_chain_nodes(p@));
            let ghost eb = edge_views(edges@);
            for j in 0..dep.len()
                invariant
                    dv == string_views(dep@),
                    edge_views(edges@) == eb + dv.take(j as int).map_values(
                        |inc: Seq<char>| (nd(NodeKind::LilypondFile, inc), nd(NodeKind::LyTexFile, lytex@)),
                    ),
            {
                push_edge(&mut edges, nd_of(NodeKind::LilypondFile, dep[j].as_str()), nd_of(NodeKind::LyTexFile, lytex.as_str()));
                assert(dv.take(j + 1).map_values(|inc: Seq<char>| (nd(NodeKind::LilypondFile, inc), nd(NodeKind::LyTexFile, lytex@)))
                    =~= dv.take(j as int).map_values(|inc: Seq<char>| (nd(NodeKind::LilypondFile, inc), nd(NodeKind::LyTexFile, lytex@))).push(
                    (nd(NodeKind::LilypondFile, dv[j as int]), nd(NodeKind::LyTexFile, lytex@))));
            }
            assert(dv.take(dep@.len() as int) =~= dv);
            push_edge(&mut edges, nd_of(NodeKind::LilypondFile, p), nd_of(NodeKind::LyTexFile, lytex.as_str()));
            push_edge(&mut edges, nd_of(NodeKind::LyTexFile, lytex.as_str()), nd_of(NodeKind::PdfFile, main_pdf.as_str()));
            push_edge(&mut edges, nd_of(NodeKind::LilypondFile, p), nd_of(NodeKind::TexOfLilypond, texofly.as_str()));
            push_edge(&mut edges, nd_of(NodeKind::LyTexFile, lytex.as_str()), nd_of(NodeKind::TexOfLilypond, texofly.as_str()));
            push_edge(&mut edges, nd_of(NodeKind::TexOfLilypond, texofly.as_str()), nd_of(NodeKind::PdfFile, main_pdf.as_str()));
            assert(edge_views(edges@) =~= eb + ly_chain_edges(d, dv, p@));
        }
        assert(lv.take(ly_files@.len() as int) =~= lv);

        // Cropped PDF of each top-level file, delivered as a snippet.
        let ghost n2 = node_views(nodes@);
        let ghost e2 = edge_views(edges@);
        for i in 0..ly_files.len()
            invariant
                lv == string_views(ly_files@),
                stem@ == st,
                node_views(nodes@) == n2 + concat_map(lv.take(i as int), |p: Seq<char>| snippet_nodes(st, p)),
                edge_views(edges@) == e2 + concat_map(lv.take(i as int), |p: Seq<char>| snippet_edges(st, p)),
        {
            let p = ly_files[i].as_str();
            assert(lv.take(i + 1).drop_last() =~= lv.take(i as int));
            assert(lv.take(i + 1).last() == p@);
            let snip = path_with_extension(p, "pdf");
            let copy_path = snippet_copy_path(stem.as_str(), p);
            let ghost nb = node_views(nodes@);
            let ghost eb = edge_views(edges@);
            push_node(&mut nodes, nd_of(NodeKind::PdfOfLilypond, snip.as_str()));
            push_node(&mut nodes, copy_node(String::from_str(copy_path.as_str()), "pdfsnippet"));
            assert(node_views(nodes@) =~= nb + snippet_nodes(st, p@));
            push_edge(&mut edges, nd_of(NodeKind::LilypondFile, p), nd_of(NodeKind::PdfOfLilypond, snip.as_str()));
            push_edge(&mut edges, nd_of(NodeKind::PdfOfLilypond, snip.as_str()), copy_node(copy_path, "pdfsnippet"));
            assert(edge_views(edges@) =~= eb + snippet_edges(st, p@));
        }

        // Audio renders: source when needed, MIDI, mp3 and its copy.
        let ghost n3 = node_views(nodes@);
        let ghost e3 = edge_views(edges@);
        for i in 0..renders.len()
            invariant
                dv == string_views(dep@),
                stem@ == st,
                node_views(nodes@) == n3 + concat_map(renders@.take(i as int), |t: RenderTarget| render_nodes(st, t)),
                edge_views(edges@) == e3 + concat_map(renders@.take(i as int), |t: RenderTarget| render_edges(st, dv, t)),
        {
            let t = &renders[i];
            assert(renders@.take(i + 1).drop_last() =~= renders@.take(i as int));
            assert(renders@.take(i + 1).last() == *t);
            let copy_path = render_copy_path(stem.as_str(), t);
            let ghost nb = node_views(nodes@);
            if !t.already_mounted {
                push_node(&mut nodes, nd_of(NodeKind::LilypondFile, t.ly.as_str()));
            }
            push_node(&mut nodes, nd_of(NodeKind::MidiOfLilypond, t.midi.as_str()));
            push_node(&mut nodes, nd_of(NodeKind::Mp3Render, t.mp3.as_str()));
            push_node(&mut nodes, copy_node(String::from_str(copy_path.as_str()), "mp3render"));
            assert(node_views(nodes@) =~= nb + render_nodes(st, *t));
            let ghost eb = edge_views(edges@);
            push_edge(&mut edges, nd_of(NodeKind::LilypondFile, t.ly.as_str()), nd_of(NodeKind::MidiOfLilypond, t.midi.as_str()));
            let ghost eb2 = edge_views(edges@);
            for j in 0..dep.len()
                invariant
                    dv == string_views(dep@),
                    edge_views(edges@) == eb2 + dv.take(j as int).map_values(
                        |inc: Seq<char>| (nd(NodeKind::LilypondFile, inc), nd(NodeKind::MidiOfLilypond, t.midi@)),
                    ),
            {
                push_edge(&mut edges, nd_of(NodeKind::LilypondFile, dep[j].as_str()), nd_of(NodeKind::MidiOfLilypond, t.midi.as_str()));
                assert(dv.take(j + 1).map_values(|inc: Seq<char>| (nd(NodeKind::LilypondFile, inc), nd(NodeKind::MidiOfLilypond, t.midi@)))
                    =~= dv.take(j as int).map_values(|inc: Seq<char>| (nd(NodeKind::LilypondFile, inc), nd(NodeKind::MidiOfLilypond, t.midi@))).push(
                    (nd(NodeKind::LilypondFile, dv[j as int]), nd(NodeKind::MidiOfLilypond, t.midi@))));
            }
            assert(dv.take(dep@.len() as int) =~= dv);
            push_edge(&mut edges, nd_of(NodeKind::MidiOfLilypond, t.midi.as_str()), nd_of(NodeKind::Mp3Render, t.mp3.as_str()));
            push_edge(&mut edges, nd_of(NodeKind::Mp3Render, t.mp3.as_str()), copy_node(copy_path, "mp3render"));
            assert(edge_views(edges@) =~= eb + render_edges(st, dv, *t));
        }
        assert(renders@.take(renders@.len() as int) =~= renders@);

        // The Strudel page and its copy.
        let strudel = path_join(dir.as_str(), "strudel.html");
        let html = concat(stem.as_str(), ".html");
        let tempo_copy = path_join("../tempo", html.as_str());
        let ghost n4 = node_views(nodes@);
        let ghost e4 = edge_views(edges@);
        push_node(&mut nodes, nd_of(NodeKind::StrudelFile, strudel.as_str()));
        push_node(&mut nodes, copy_node(String::from_str(tempo_copy.as_str()), "strudel"));
        assert(node_views(nodes@) =~= n4 + strudel_nodes(d, st));
        push_edge(&mut edges, nd_of(NodeKind::SongYml, self.path.as_str()), nd_of(NodeKind::StrudelFile, strudel.as_str()));
        push_edge(&mut edges, nd_of(NodeKind::StrudelFile, strudel.as_str()), copy_node(tempo_copy, "strudel"));
        assert(edge_views(edges@) =~= e4 + strudel_edges(self.path@, d, st));

        // The click track and its copy.
        let ghost n5 = node_views(nodes@);
        let ghost e5 = edge_views(edges@);
        if self.song.files.has_clicks {
            let clicks = path_join(dir.as_str(), "clicks.yml");
            let name = concat(stem.as_str(), "-clicks.yml");
            let clicks_copy = path_join("../clicks", name.as_str());
            push_node(&mut nodes, nd_of(NodeKind::ClickYml, clicks.as_str()));
            push_node(&mut nodes, copy_node(String::from_str(clicks_copy.as_str()), "clicks.yml"));
            push_edge(&mut edges, nd_of(NodeKind::ClickYml, clicks.as_str()), copy_node(clicks_copy, "clicks.yml"));
            assert(node_views(nodes@) =~= n5 + clicks_nodes(d, st));
            assert(edge_views(edges@) =~= e5 + pair_edge(clicks_nodes(d, st)));
        } else {
            assert(node_views(nodes@) =~= n5 + Seq::<NodeView>::empty());
            assert(edge_views(edges@) =~= e5 + Seq::<(NodeView, NodeView)>::empty());
        }

        // The recording and its copy.
        let ghost n6 = node_views(nodes@);
        let ghost e6 = edge_views(edges@);
        if self.song.files.has_mp3 {
            let mp3 = path_join(dir.as_str(), "song.mp3");
            let name = concat(stem.as_str(), ".mp3");
            let mp3_copy = path_join("../mp3", name.as_str());
            push_node(&mut nodes, nd_of(NodeKind::Mp3, mp3.as_str()));
            push_node(&mut nodes, copy_node(String::from_str(mp3_copy.as_str()), "mp3"));
            push_edge(&mut edges, nd_of(NodeKind::Mp3, mp3.as_str()), copy_node(mp3_copy, "mp3"));
            assert(node_views(nodes@) =~= n6 + mp3_nodes(d, st));
            assert(edge_views(edges@) =~= e6 + pair_edge(mp3_nodes(d, st)));
        } else {
            assert(node_views(nodes@) =~= n6 + Seq::<NodeView>::empty());
            assert(edge_views(edges@) =~= e6 + Seq::<(NodeView, NodeView)>::empty());
        }
        Ok(ExpandPlan { nodes, edges })
    }
}

/// Everything a song expands into: its structure with every color resolved,
/// its section types with their default colors, its bar numbers, the lyrics
/// inputs, the pulled-in files, the audio renders and the build graph.
#[derive(Debug, Clone, PartialEq)]
pub struct SongExpansion {
    /// The structure, each chords section colored by the settings and each
    /// ref given the color of its own or of the section it links to.
    pub structure: Vec<StructureItem>,
    /// Each section type once, with its default color.
    pub sections: Vec<(String, &'static str)>,
    /// The bar numbers of the sections.
    pub bar_map: BarMap,
    /// The lyrics blocks shared by the lyrics documents.
    pub lyrics_inputs: String,
    /// The pulled-in files to mount.
    pub mount: Vec<String>,
    /// The pulled-in files to depend on.
    pub dep: Vec<String>,
    /// The audio renders.
    pub renders: Vec<RenderTarget>,
    /// The build graph.
    pub plan: ExpandPlan,
}

/// `new` is the item `old` of `orig` once expanded: a chords section takes
/// the color the settings gave it, a ref without a color of its own takes
/// the color of the section it links to, any other item stays.
pub open spec fn expanded_item(
    orig: Seq<StructureItem>,
    colors: Seq<Result<String, String>>,
    old: StructureItem,
    c: Result<String, String>,
    new: StructureItem,
) -> bool {
    match old.item {
        SectionItem::Ref(r) => new.id == old.id && new.item is Ref && {
            let n = new.item->Ref_0;
            &&& n.title == r.title
            &&& n.section_type == r.section_type
            &&& n.section_body == r.section_body
            &&& n.link == r.link
            &&& n.color is Some
            &&& n.color->0@ == match r.color {
                Some(x) => x@,
                None => settings_link_color(orig, colors, r.link@)->0,
            }
        },
        _ => section_colored(old, c, new),
    }
}

impl SongYml {
    /// Expands the song, given what the outside world told: `section_colors[i]`
    /// is the color the settings resolved for item `i`, `ly_files` the
    /// top-level LilyPond files, `inputs` the files its sources pull in, with
    /// whether each is in the sources and in the sandbox, and `render_exists[i]`
    /// whether the source of the `i`-th declared render exists. It fails on the
    /// first color the settings could not resolve, then on the first ref whose
    /// link names no chords section, then on clicks without a recording.
    pub fn expand_song(
        self,
        section_colors: Vec<Result<String, String>>,
        ly_files: &Vec<String>,
        inputs: &Vec<String>,
        in_source: &Vec<bool>,
        in_sandbox: &Vec<bool>,
        render_exists: &Vec<bool>,
    ) -> (r: Result<SongExpansion, String>)
        requires
            section_colors@.len() == self.song.structure@.len(),
            in_source@.len() == inputs@.len(),
            in_sandbox@.len() == inputs@.len(),
            render_exists@.len() == self.song.files.mp3@.len(),
            numbering(self.song.structure@, self.song.structure@).1 <= i32::MAX,
        ensures
            r is Ok <==> (forall|i: int|
                0 <= i < self.song.structure@.len() ==> !color_failed(
                    #[trigger] self.song.structure@[i],
                    section_colors@[i],
                )) && (forall|i: int|
                0 <= i < self.song.structure@.len() ==> !is_dangling_ref(
                    self.song.structure@,
                    #[trigger] self.song.structure@[i],
                )) && !(self.song.files.has_clicks && !self.song.files.has_mp3),
            r matches Err(e) ==> {
                let st = self.song.structure@;
                let cs = section_colors@;
                ||| exists|i: int|
                    0 <= i < st.len() && color_failed(#[trigger] st[i], cs[i]) && cs[i]->Err_0@ == e@
                        && forall|j: int| 0 <= j < i ==> !color_failed(#[trigger] st[j], cs[j])
                ||| (forall|j: int| 0 <= j < st.len() ==> !color_failed(#[trigger] st[j], cs[j])) && exists|i: int|
                    0 <= i < st.len() && is_dangling_ref(st, #[trigger] st[i]) && e@ == dangling_ref_message(
                        st[i].id@,
                        st[i].item->Ref_0.link@,
                    ) && forall|j: int| 0 <= j < i ==> !is_dangling_ref(st, #[trigger] st[j])
                ||| (forall|j: int| 0 <= j < st.len() ==> !color_failed(#[trigger] st[j], cs[j])) && (forall|j: int|
                    0 <= j < st.len() ==> !is_dangling_ref(st, #[trigger] st[j])) && e@
                    == clicks_without_mp3_message(self.path@)
            },
            r matches Ok(x) ==> {
                &&& x.structure@.len() == self.song.structure@.len()
                &&& forall|i: int|
                    0 <= i < x.structure@.len() ==> expanded_item(
                        self.song.structure@,
                        section_colors@,
                        #[trigger] self.song.structure@[i],
                        section_colors@[i],
                        x.structure@[i],
                    )
                &&& type_ids(x.sections@).to_set() == section_types_of(x.structure@)
                &&& type_ids(x.sections@).no_duplicates()
                &&& forall|i: int| 0 <= i < x.sections@.len() ==> (#[trigger] x.sections@[i]).1@ == default_color_of(x.sections@[i].0@)
                &&& entry_views(x.bar_map@) == numbering(self.song.structure@, self.song.structure@).0
                &&& x.lyrics_inputs@ == lyrics_inputs_of(x.structure@, x.bar_map@)
                &&& (string_views(x.mount@), string_views(x.dep@)) == included_of(
                    string_views(inputs@),
                    string_views(ly_files@),
                    in_source@,
                    in_sandbox@,
                )
                &&& x.renders@.len() == existing_renders(string_views(self.song.files.mp3@), render_exists@).len()
                &&& forall|i: int| 0 <= i < x.renders@.len() ==> is_render_of(
                    #[trigger] x.renders@[i],
                    parent(self.path@),
                    existing_renders(string_views(self.song.files.mp3@), render_exists@)[i],
                    string_views(ly_files@),
                )
                &&& node_views(x.plan.nodes@) == expand_nodes(
                    parent(self.path@),
                    song_stem(self.song.info.author@, self.song.info.title@),
                    string_views(ly_files@),
                    string_views(x.mount@),
                    x.renders@,
                    self.song.files.has_clicks,
                    self.song.files.has_mp3,
                )
                &&& edge_views(x.plan.edges@) == expand_edges(
                    self.path@,
                    parent(self.path@),
                    song_stem(self.song.info.author@, self.song.info.title@),
                    string_views(ly_files@),
                    string_views(x.dep@),
                    x.renders@,
                    self.song.files.has_clicks,
                    self.song.files.has_mp3,
                )
            },
    {
        let ghost st = self.song.structure@;
        let ghost cs = section_colors@;
        let bar_map = match bar_map_of_structure(&self.song.structure) {
            Some(m) => m,
            None => {
                assert(false);
                return Err(String::new());
            },
        };
        let (mount, dep) = classify_included(inputs, ly_files, in_source, in_sandbox);
        let dir = path_parent(self.path.as_str());
        let renders = render_targets(dir.as_str(), &self.song.files.mp3, render_exists, ly_files);
        let planned = self.expand_plan(ly_files, &mount, &dep, &renders);
        let structure = self.song.structure;
        let colored = match apply_section_colors(structure, section_colors) {
            Ok(c) => c,
            Err(e) => {
                return Err(e);
            },
        };
        let ghost cv = colored@;
        proof {
            assert forall|i: int| 0 <= i < st.len() implies (is_dangling_ref(cv, #[trigger] cv[i]) <==> is_dangling_ref(st, st[i])) by {
                assert(section_colored(st[i], cs[i], cv[i]));
                if st[i].item is Ref {
                    lemma_coloring_keeps_links(st, cs, cv, st[i].item->Ref_0.link@);
                }
            }
        }
        let resolved = match resolve_ref_colors(colored) {
            Ok(s) => s,
            Err(e) => {
                proof {
                    let i = choose|i: int|
                        0 <= i < cv.len() && is_dangling_ref(cv, #[trigger] cv[i]) && e@ == dangling_ref_message(
                            cv[i].id@,
                            cv[i].item->Ref_0.link@,
                        ) && forall|j: int| 0 <= j < i ==> !is_dangling_ref(cv, #[trigger] cv[j]);
                    assert(section_colored(st[i], cs[i], cv[i]));
                    assert(forall|j: int| 0 <= j < i ==> !is_dangling_ref(st, #[trigger] st[j]));
                }
                return Err(e);
            },
        };
        let plan = match planned {
            Ok(p) => p,
            Err(e) => {
                return Err(e);
            },
        };
        proof {
            assert forall|i: int| 0 <= i < resolved@.len() implies expanded_item(st, cs, #[trigger] st[i], cs[i], resolved@[i]) by {
                assert(section_colored(st[i], cs[i], cv[i]));
                if st[i].item is Ref {
                    lemma_coloring_keeps_links(st, cs, cv, st[i].item->Ref_0.link@);
                }
            }
        }
        let sections = sections_of(&resolved);
        let lyrics = lyrics_inputs(&resolved, &bar_map);
        Ok(SongExpansion { structure: resolved, sections, bar_map, lyrics_inputs: lyrics, mount, dep, renders, plan })
    }
}

/// A declared LilyPond source that does not exist changes nothing in what a
/// song expands into: for two songs that differ only in that `b` lacks the
/// `k`-th declared source of `a`, which does not exist, the top-level
/// LilyPond files are the same, and with them every node and edge of the
/// graph (the rest of the expansion does not read the declared sources).
pub proof fn lemma_missing_declared_source_keeps_expansion(
    a: SongYml,
    b: SongYml,
    toplevel: Seq<Seq<char>>,
    exists: Seq<bool>,
    k: int,
    mount: Seq<Seq<char>>,
    dep: Seq<Seq<char>>,
    renders: Seq<RenderTarget>,
)
    requires
        b.path == a.path,
        b.song.info == a.song.info,
        b.song.structure == a.song.structure,
        b.song.files.mp3 == a.song.files.mp3,
        b.song.files.has_clicks == a.song.files.has_clicks,
        b.song.files.has_mp3 == a.song.files.has_mp3,
        string_views(b.song.files.lilypond@) == string_views(a.song.files.lilypond@).remove(k),
        exists.len() == a.song.files.lilypond@.len(),
        0 <= k < exists.len(),
        !exists[k],
    ensures
        ({
            let dir = parent(a.path@);
            let stem = song_stem(a.song.info.author@, a.song.info.title@);
            let la = ly_files_of(dir, toplevel, string_views(a.song.files.lilypond@), exists);
            let lb = ly_files_of(parent(b.path@), toplevel, string_views(b.song.files.lilypond@), exists.remove(k));
            &&& la == lb
            &&& expand_nodes(dir, stem, la, mount, renders, a.song.files.has_clicks, a.song.files.has_mp3)
                == expand_nodes(
                parent(b.path@),
                song_stem(b.song.info.author@, b.song.info.title@),
                lb,
                mount,
                renders,
                b.song.files.has_clicks,
                b.song.files.has_mp3,
            )
            &&& expand_edges(a.path@, dir, stem, la, dep, renders, a.song.files.has_clicks, a.song.files.has_mp3)
                == expand_edges(
                b.path@,
                parent(b.path@),
                song_stem(b.song.info.author@, b.song.info.title@),
                lb,
                dep,
                renders,
                b.song.files.has_clicks,
                b.song.files.has_mp3,
            )
        }),
{
    lemma_missing_declared_source_changes_nothing(
        parent(a.path@),
        toplevel,
        string_views(a.song.files.lilypond@),
        exists,
        k,
    );
}

/// No edge of the list starts at a PDF built by LaTeX.
pub open spec fn no_pdf_source(es: Seq<(NodeView, NodeView)>) -> bool {
    forall|i: int| 0 <= i < es.len() ==> (#[trigger] es[i]).0.0 != NodeKind::PdfFile
}

proof fn lemma_no_pdf_source_concat(a: Seq<(NodeView, NodeView)>, b: Seq<(NodeView, NodeView)>)
    requires
        no_pdf_source(a),
        no_pdf_source(b),
    ensures
        no_pdf_source(a + b),
{
    assert forall|i: int| 0 <= i < (a + b).len() implies (#[trigger] (a + b)[i]).0.0 != NodeKind::PdfFile by {
        if i < a.len() {
            assert((a + b)[i] == a[i]);
        } else {
            assert((a + b)[i] == b[i - a.len()]);
        }
    }
}

proof fn lemma_no_pdf_source_concat_map<A>(s: Seq<A>, f: spec_fn(A) -> Seq<(NodeView, NodeView)>)
    requires
        forall|k: int| 0 <= k < s.len() ==> no_pdf_source(#[trigger] f(s[k])),
    ensures
        no_pdf_source(concat_map(s, f)),
    decreases s.len(),
{
    if s.len() > 0 {
        assert forall|k: int| 0 <= k < s.drop_last().len() implies no_pdf_source(#[trigger] f(s.drop_last()[k])) by {
            assert(s.drop_last()[k] == s[k]);
        }
        lemma_no_pdf_source_concat_map(s.drop_last(), f);
        assert(no_pdf_source(f(s[s.len() - 1])));
        lemma_no_pdf_source_concat(concat_map(s.drop_last(), f), f(s.last()));
    }
}

proof fn lemma_concat_map_contains<A, B>(s: Seq<A>, f: spec_fn(A) -> Seq<B>, k: int, j: int)
    requires
        0 <= k < s.len(),
        0 <= j < f(s[k]).len(),
    ensures
        concat_map(s, f).contains(f(s[k])[j]),
    decreases s.len(),
{
    let x = f(s[k])[j];
    if k < s.len() - 1 {
        assert(s.drop_last()[k] == s[k]);
        lemma_concat_map_contains(s.drop_last(), f, k, j);
        let a = concat_map(s.drop_last(), f);
        let m = choose|m: int| 0 <= m < a.len() && a[m] == x;
        assert((a + f(s.last()))[m] == x);
    } else {
        let a = concat_map(s.drop_last(), f);
        assert((a + f(s.last()))[a.len() + j] == x);
    }
}

/// The song PDF is built last among the files of a song: every top-level
/// LilyPond file's LaTeX wrapper comes before it, and no edge of the graph
/// leaves a PDF built by LaTeX, so the song PDF depends on the files built
/// for it and nothing depends on it.
pub proof fn lemma_song_pdf_follows_its_scores(
    song_path: Seq<char>,
    dir: Seq<char>,
    stem: Seq<char>,
    ly: Seq<Seq<char>>,
    dep: Seq<Seq<char>>,
    renders: Seq<RenderTarget>,
    has_clicks: bool,
    has_mp3: bool,
)
    ensures
        forall|k: int|
            0 <= k < ly.len() ==> expand_edges(song_path, dir, stem, ly, dep, renders, has_clicks, has_mp3).contains(
                (nd(NodeKind::LyTexFile, with_extension(#[trigger] ly[k], "lytex"@)), nd(NodeKind::PdfFile, join(dir, "main.pdf"@))),
            ),
        no_pdf_source(expand_edges(song_path, dir, stem, ly, dep, renders, has_clicks, has_mp3)),
{
    let fc = |p: Seq<char>| ly_chain_edges(dir, dep, p);
    let fs = |p: Seq<char>| snippet_edges(stem, p);
    let fr = |t: RenderTarget| render_edges(stem, dep, t);
    let all = expand_edges(song_path, dir, stem, ly, dep, renders, has_clicks, has_mp3);
    let a1 = fixed_edges(dir);
    let a2 = concat_map(ly, fc);
    let a3 = concat_map(ly, fs);
    let a4 = concat_map(renders, fr);
    let a5 = strudel_edges(song_path, dir, stem);
    let a6: Seq<(NodeView, NodeView)> = if has_clicks { pair_edge(clicks_nodes(dir, stem)) } else { Seq::empty() };
    let a7: Seq<(NodeView, NodeView)> = if has_mp3 { pair_edge(mp3_nodes(dir, stem)) } else { Seq::empty() };
    assert(all == a1 + a2 + a3 + a4 + a5 + a6 + a7);
    assert forall|k: int| 0 <= k < ly.len() implies all.contains(
        (nd(NodeKind::LyTexFile, with_extension(#[trigger] ly[k], "lytex"@)), nd(NodeKind::PdfFile, join(dir, "main.pdf"@))),
    ) by {
        let e = (nd(NodeKind::LyTexFile, with_extension(ly[k], "lytex"@)), nd(NodeKind::PdfFile, join(dir, "main.pdf"@)));
        let c = fc(ly[k]);
        assert(c[dep.len() as int + 1] == e);
        lemma_concat_map_contains(ly, fc, k, dep.len() as int + 1);
        let m = choose|m: int| 0 <= m < a2.len() && a2[m] == e;
        assert(all[a1.len() + m] == e);
    }
    assert(no_pdf_source(a1));
    assert forall|k: int| 0 <= k < ly.len() implies no_pdf_source(#[trigger] fc(ly[k])) by {
        let c = fc(ly[k]);
        assert forall|i: int| 0 <= i < c.len() implies (#[trigger] c[i]).0.0 != NodeKind::PdfFile by {
            if i < dep.len() {
                assert(c[i] == (nd(NodeKind::LilypondFile, dep[i]), nd(NodeKind::LyTexFile, with_extension(ly[k], "lytex"@))));
            }
        }
    }
    lemma_no_pdf_source_concat_map(ly, fc);
    assert forall|k: int| 0 <= k < ly.len() implies no_pdf_source(#[trigger] fs(ly[k])) by {}
    lemma_no_pdf_source_concat_map(ly, fs);
    assert forall|k: int| 0 <= k < renders.len() implies no_pdf_source(#[trigger] fr(renders[k])) by {
        let c = fr(renders[k]);
        assert forall|i: int| 0 <= i < c.len() implies (#[trigger] c[i]).0.0 != NodeKind::PdfFile by {
            if 1 <= i < dep.len() + 1 {
                assert(c[i] == (nd(NodeKind::LilypondFile, dep[i - 1]), nd(NodeKind::MidiOfLilypond, renders[k].midi@)));
            }
        }
    }
    lemma_no_pdf_source_concat_map(renders, fr);
    assert(no_pdf_source(a5));
    assert(no_pdf_source(a6));
    assert(no_pdf_source(a7));
    lemma_no_pdf_source_concat(a1, a2);
    lemma_no_pdf_source_concat(a1 + a2, a3);
    lemma_no_pdf_source_concat(a1 + a2 + a3, a4);
    lemma_no_pdf_source_concat(a1 + a2 + a3 + a4, a5);
    lemma_no_pdf_source_concat(a1 + a2 + a3 + a4 + a5, a6);
    lemma_no_pdf_source_concat(a1 + a2 + a3 + a4 + a5 + a6, a7);
}

/// Each top-level LilyPond file `p` of a song gets its whole chain: the
/// source before its LaTeX wrapper `p.lytex` and before the TeX that
/// `lilypond-book` writes, the wrapper before that TeX and before the song
/// PDF, that TeX before the song PDF, every pulled-in file before the
/// wrapper; and the source before its cropped PDF `p.pdf`, that PDF before
/// its delivered copy.
pub proof fn lemma_scores_get_their_chains(
    song_path: Seq<char>,
    dir: Seq<char>,
    stem: Seq<char>,
    ly: Seq<Seq<char>>,
    dep: Seq<Seq<char>>,
    renders: Seq<RenderTarget>,
    has_clicks: bool,
    has_mp3: bool,
    k: int,
)
    requires
        0 <= k < ly.len(),
    ensures
        ({
            let all = expand_edges(song_path, dir, stem, ly, dep, renders, has_clicks, has_mp3);
            let p = ly[k];
            let src = nd(NodeKind::LilypondFile, p);
            let lytex = nd(NodeKind::LyTexFile, with_extension(p, "lytex"@));
            let tex = nd(NodeKind::TexOfLilypond, tex_of_ly(p));
            let pdf = nd(NodeKind::PdfFile, join(dir, "main.pdf"@));
            let snip = nd(NodeKind::PdfOfLilypond, with_extension(p, "pdf"@));
            &&& all.contains((src, lytex))
            &&& all.contains((src, tex))
            &&& all.contains((lytex, tex))
            &&& all.contains((lytex, pdf))
            &&& all.contains((tex, pdf))
            &&& forall|j: int| 0 <= j < dep.len() ==> all.contains((nd(NodeKind::LilypondFile, #[trigger] dep[j]), lytex))
            &&& all.contains((src, snip))
            &&& all.contains((snip, snippet_copy(stem, p)))
        }),
{
    let fc = |q: Seq<char>| ly_chain_edges(dir, dep, q);
    let fs = |q: Seq<char>| snippet_edges(stem, q);
    let all = expand_edges(song_path, dir, stem, ly, dep, renders, has_clicks, has_mp3);
    let a1 = fixed_edges(dir);
    let a2 = concat_map(ly, fc);
    let a3 = concat_map(ly, fs);
    let rest = concat_map(renders, |t: RenderTarget| render_edges(stem, dep, t)) + strudel_edges(song_path, dir, stem)
        + (if has_clicks { pair_edge(clicks_nodes(dir, stem)) } else { Seq::empty() }) + (if has_mp3 {
        pair_edge(mp3_nodes(dir, stem))
    } else {
        Seq::empty()
    });
    assert(all =~= a1 + a2 + a3 + rest);
    let c = fc(ly[k]);
    let n = dep.len() as int;
    assert forall|j: int| 0 <= j < c.len() implies all.contains(#[trigger] c[j]) by {
        lemma_concat_map_contains(ly, fc, k, j);
        let m = choose|m: int| 0 <= m < a2.len() && a2[m] == c[j];
        assert(all[a1.len() + m] == c[j]);
    }
    assert(c[n] == c[n]);
    assert(c[n + 1] == c[n + 1]);
    assert(c[n + 2] == c[n + 2]);
    assert(c[n + 3] == c[n + 3]);
    assert(c[n + 4] == c[n + 4]);
    assert forall|j: int| 0 <= j < dep.len() implies all.contains(
        (nd(NodeKind::LilypondFile, #[trigger] dep[j]), nd(NodeKind::LyTexFile, with_extension(ly[k], "lytex"@))),
    ) by {
        assert(c[j] == (nd(NodeKind::LilypondFile, dep[j]), nd(NodeKind::LyTexFile, with_extension(ly[k], "lytex"@))));
    }
    let d = fs(ly[k]);
    assert forall|j: int| 0 <= j < d.len() implies all.contains(#[trigger] d[j]) by {
        lemma_concat_map_contains(ly, fs, k, j);
        let m = choose|m: int| 0 <= m < a3.len() && a3[m] == d[j];
        assert(all[a1.len() + a2.len() + m] == d[j]);
    }
    assert(d[0] == d[0]);
    assert(d[1] == d[1]);
}

/// Each audio render of a song gets its chain: the LilyPond source and
/// every pulled-in file before the MIDI, the MIDI before the mp3, the mp3
/// before its delivered copy.
pub proof fn lemma_renders_get_their_chains(
    song_path: Seq<char>,
    dir: Seq<char>,
    stem: Seq<char>,
    ly: Seq<Seq<char>>,
    dep: Seq<Seq<char>>,
    renders: Seq<RenderTarget>,
    has_clicks: bool,
    has_mp3: bool,
    k: int,
)
    requires
        0 <= k < renders.len(),
    ensures
        ({
            let all = expand_edges(song_path, dir, stem, ly, dep, renders, has_clicks, has_mp3);
            let t = renders[k];
            let midi = nd(NodeKind::MidiOfLilypond, t.midi@);
            let mp3 = nd(NodeKind::Mp3Render, t.mp3@);
            &&& all.contains((nd(NodeKind::LilypondFile, t.ly@), midi))
            &&& all.contains((midi, mp3))
            &&& all.contains((mp3, render_copy(stem, t)))
            &&& forall|j: int| 0 <= j < dep.len() ==> all.contains((nd(NodeKind::LilypondFile, #[trigger] dep[j]), midi))
        }),
{
    let fr = |t: RenderTarget| render_edges(stem, dep, t);
    let all = expand_edges(song_path, dir, stem, ly, dep, renders, has_clicks, has_mp3);
    let a1 = fixed_edges(dir) + concat_map(ly, |q: Seq<char>| ly_chain_edges(dir, dep, q)) + concat_map(
        ly,
        |q: Seq<char>| snippet_edges(stem, q),
    );
    let a4 = concat_map(renders, fr);
    let rest = strudel_edges(song_path, dir, stem) + (if has_clicks {
        pair_edge(clicks_nodes(dir, stem))
    } else {
        Seq::empty()
    }) + (if has_mp3 { pair_edge(mp3_nodes(dir, stem)) } else { Seq::empty() });
    assert(all =~= a1 + a4 + rest);
    let c = fr(renders[k]);
    let n = dep.len() as int;
    assert forall|j: int| 0 <= j < c.len() implies all.contains(#[trigger] c[j]) by {
        lemma_concat_map_contains(renders, fr, k, j);
        let m = choose|m: int| 0 <= m < a4.len() && a4[m] == c[j];
        assert(all[a1.len() + m] == c[j]);
    }
    assert(c[0] == c[0]);
    assert(c[n + 1] == c[n + 1]);
    assert(c[n + 2] == c[n + 2]);
    assert forall|j: int| 0 <= j < dep.len() implies all.contains(
        (nd(NodeKind::LilypondFile, #[trigger] dep[j]), nd(NodeKind::MidiOfLilypond, renders[k].midi@)),
    ) by {
        assert(c[j + 1] == (nd(NodeKind::LilypondFile, dep[j]), nd(NodeKind::MidiOfLilypond, renders[k].midi@)));
    }
}

} // verus!
