use vstd::prelude::*;

use crate::strutil::{append_str, push_char};

verus! {

/// Typst content kind found in metadata nodes: a sequence of pieces, a
/// space, or plain text.
#[derive(Debug)]
pub enum JsonContent {
    Sequence { children: Vec<JsonContent> },
    Space,
    Text { text: String },
}

/// The plain text a content node denotes.
pub open spec fn flat_of(c: JsonContent) -> Seq<char>
    decreases c,
{
    match c {
        JsonContent::Sequence { children } => flat_of_list(children@),
        JsonContent::Space => seq![' '],
        JsonContent::Text { text } => text@,
    }
}

pub open spec fn flat_of_list(cs: Seq<JsonContent>) -> Seq<char>
    decreases cs,
{
    if cs.len() == 0 {
        Seq::empty()
    } else {
        flat_of(cs[0]) + flat_of_list(cs.drop_first())
    }
}

proof fn lemma_flat_of_list_snoc(cs: Seq<JsonContent>, c: JsonContent)
    ensures
        flat_of_list(cs.push(c)) == flat_of_list(cs) + flat_of(c),
    decreases cs.len(),
{
    if cs.len() == 0 {
        assert(cs.push(c)[0] == c);
        assert(cs.push(c).drop_first() =~= Seq::<JsonContent>::empty());
        assert(flat_of_list(Seq::<JsonContent>::empty()) == Seq::<char>::empty());
        assert(flat_of_list(cs.push(c)) =~= flat_of(c));
        assert(flat_of_list(cs) + flat_of(c) =~= flat_of(c));
    } else {
        assert(cs.push(c).drop_first() =~= cs.drop_first().push(c));
        lemma_flat_of_list_snoc(cs.drop_first(), c);
        assert(cs.push(c)[0] == cs[0]);
        assert(flat_of(cs[0]) + (flat_of_list(cs.drop_first()) + flat_of(c)) =~= (flat_of(cs[0])
            + flat_of_list(cs.drop_first())) + flat_of(c));
    }
}

fn flatten_into(c: &JsonContent, out: &mut String)
    ensures
        final(out)@ == old(out)@ + flat_of(*c),
    decreases *c,
{
    match c {
        JsonContent::Sequence { children } => {
            let n = children.len();
            let mut i: usize = 0;
            proof {
                assert(children@.subrange(0, 0) =~= Seq::<JsonContent>::empty());
                assert(out@ =~= old(out)@ + flat_of_list(children@.subrange(0, 0)));
            }
            while i < n
                invariant
                    0 <= i <= n,
                    n == children@.len(),
                    *c == (JsonContent::Sequence { children: *children }),
                    out@ == old(out)@ + flat_of_list(children@.subrange(0, i as int)),
                decreases n - i,
            {
                proof {
                    assert(decreases_to!(*c => c->Sequence_children));
                    assert(decreases_to!(c->Sequence_children => c->Sequence_children@[i as int]));
                    assert(decreases_to!(*c => children@[i as int]));
                }
                flatten_into(&children[i], out);
                proof {
                    assert(children@.subrange(0, i as int + 1) =~= children@.subrange(
                        0,
                        i as int,
                    ).push(children@[i as int]));
                    lemma_flat_of_list_snoc(children@.subrange(0, i as int), children@[i as int]);
                    assert(out@ =~= old(out)@ + flat_of_list(children@.subrange(0, i as int + 1)));
                }
                i = i + 1;
            }
            proof {
                assert(children@.subrange(0, n as int) =~= children@);
            }
        },
        JsonContent::Space => {
            push_char(out, ' ');
            proof {
                assert(out@ =~= old(out)@ + seq![' ']);
            }
        },
        JsonContent::Text { text } => {
            append_str(out, text.as_str());
        },
    }
}

impl JsonContent {
    /// The plain text of this content node.
    pub fn flatten(&self) -> (r: String)
        ensures
            r@ == flat_of(*self),
    {
        let mut out = String::new();
        flatten_into(self, &mut out);
        proof {
            assert(out@ =~= flat_of(*self));
        }
        out
    }
}

/// A title in book metadata: plain text, or structured content to flatten.
#[derive(Debug)]
pub enum BookMetaContent {
    PlainText { content: String },
    Raw { content: JsonContent },
}

/// The plain text a metadata title denotes.
pub open spec fn spec_evaluate(t: BookMetaContent) -> Seq<char> {
    match t {
        BookMetaContent::PlainText { content } => content@,
        BookMetaContent::Raw { content } => flat_of(content),
    }
}

/// Evaluates a metadata title to its plain text.
pub fn evaluate_content(t: &BookMetaContent) -> (r: String)
    ensures
        r@ == spec_evaluate(*t),
{
    match t {
        BookMetaContent::PlainText { content } => content.clone(),
        BookMetaContent::Raw { content } => content.flatten(),
    }
}

/// One summary entry: a part heading, a chapter with optional link and
/// nested chapters, or a separator line.
#[derive(Debug)]
pub enum BookMetaElem {
    Part { title: BookMetaContent, level: i32 },
    Chapter {
        title: BookMetaContent,
        link: Option<String>,
        sub: Vec<BookMetaElem>,
        section: Option<String>,
    },
    Separator,
}

/// A navigable unit of output: its title and, unless it is a bare heading,
/// the source document path it is built from.
#[derive(Debug, Clone)]
pub struct ChapterItem {
    pub title: String,
    pub path: Option<String>,
}

pub open spec fn chapter_model(c: ChapterItem) -> (Seq<char>, Option<Seq<char>>) {
    (
        c.title@,
        match c.path {
            Some(p) => Some(p@),
            None => None,
        },
    )
}

pub open spec fn opt_str_model(o: Option<String>) -> Option<Seq<char>> {
    match o {
        Some(p) => Some(p@),
        None => None,
    }
}

/// The chapters one summary entry contributes, depth first: the chapter
/// itself (when it is one), then its sub-chapters.
pub open spec fn spec_chapters_of(e: BookMetaElem) -> Seq<(Seq<char>, Option<Seq<char>>)>
    decreases e,
{
    match e {
        BookMetaElem::Chapter { title, link, sub, .. } => seq![
            (spec_evaluate(title), opt_str_model(link)),
        ] + spec_chapters_of_list(sub@),
        _ => Seq::empty(),
    }
}

pub open spec fn spec_chapters_of_list(es: Seq<BookMetaElem>) -> Seq<
    (Seq<char>, Option<Seq<char>>),
>
    decreases es,
{
    if es.len() == 0 {
        Seq::empty()
    } else {
        spec_chapters_of(es[0]) + spec_chapters_of_list(es.drop_first())
    }
}

proof fn lemma_chapters_of_list_snoc(es: Seq<BookMetaElem>, e: BookMetaElem)
    ensures
        spec_chapters_of_list(es.push(e)) == spec_chapters_of_list(es) + spec_chapters_of(e),
    decreases es.len(),
{
    if es.len() == 0 {
        assert(es.push(e)[0] == e);
        assert(es.push(e).drop_first() =~= Seq::<BookMetaElem>::empty());
        assert(spec_chapters_of_list(Seq::<BookMetaElem>::empty()) == Seq::<
            (Seq<char>, Option<Seq<char>>),
        >::empty());
        assert(spec_chapters_of_list(es.push(e)) =~= spec_chapters_of(e));
        assert(spec_chapters_of_list(es) + spec_chapters_of(e) =~= spec_chapters_of(e));
    } else {
        assert(es.push(e).drop_first() =~= es.drop_first().push(e));
        lemma_chapters_of_list_snoc(es.drop_first(), e);
        assert(es.push(e)[0] == es[0]);
        assert(spec_chapters_of(es[0]) + (spec_chapters_of_list(es.drop_first())
            + spec_chapters_of(e)) =~= (spec_chapters_of(es[0]) + spec_chapters_of_list(
            es.drop_first(),
        )) + spec_chapters_of(e));
    }
}

fn clone_opt_string(o: &Option<String>) -> (r: Option<String>)
    ensures
        opt_str_model(r) == opt_str_model(*o),
{
    match o {
        Some(s) => Some(s.clone()),
        None => None,
    }
}

fn collect_chapters(e: &BookMetaElem, out: &mut Vec<ChapterItem>)
    ensures
        final(out)@.map_values(|c: ChapterItem| chapter_model(c)) == old(out)@.map_values(
            |c: ChapterItem| chapter_model(c),
        ) + spec_chapters_of(*e),
    decreases *e,
{
    let ghost f = |c: ChapterItem| chapter_model(c);
    match e {
        BookMetaElem::Separator | BookMetaElem::Part { .. } => {
            proof {
                assert(out@.map_values(f) =~= old(out)@.map_values(f) + spec_chapters_of(*e));
            }
        },
        BookMetaElem::Chapter { title, link, sub, .. } => {
            let item = ChapterItem { title: evaluate_content(title), path: clone_opt_string(link) };
            out.push(item);
            proof {
                assert(out@ =~= old(out)@.push(item));
                assert(out@.map_values(f) =~= old(out)@.map_values(f) + seq![chapter_model(item)]);
            }
            let ghost base = out@.map_values(f);
            let n = sub.len();
            let mut i: usize = 0;
            proof {
                assert(sub@.subrange(0, 0) =~= Seq::<BookMetaElem>::empty());
                assert(out@.map_values(f) =~= base + spec_chapters_of_list(sub@.subrange(0, 0)));
            }
            while i < n
                invariant
                    0 <= i <= n,
                    n == sub@.len(),
                    *e == (BookMetaElem::Chapter {
                        title: *title,
                        link: *link,
                        sub: *sub,
                        section: e->Chapter_section,
                    }),
                    out@.map_values(f) == base + spec_chapters_of_list(sub@.subrange(0, i as int)),
                    f == (|c: ChapterItem| chapter_model(c)),
                decreases n - i,
            {
                proof {
                    assert(decreases_to!(*e => e->Chapter_sub));
                    assert(decreases_to!(e->Chapter_sub => e->Chapter_sub@[i as int]));
                    assert(decreases_to!(*e => sub@[i as int]));
                }
                collect_chapters(&sub[i], out);
                proof {
                    assert(sub@.subrange(0, i as int + 1) =~= sub@.subrange(0, i as int).push(
                        sub@[i as int],
                    ));
                    lemma_chapters_of_list_snoc(sub@.subrange(0, i as int), sub@[i as int]);
                    assert(out@.map_values(f) =~= base + spec_chapters_of_list(
                        sub@.subrange(0, i as int + 1),
                    ));
                }
                i = i + 1;
            }
            proof {
                assert(sub@.subrange(0, n as int) =~= sub@);
                assert(out@.map_values(f) =~= old(out)@.map_values(f) + spec_chapters_of(*e));
            }
        },
    }
}

/// Flattens a summary into the ordered chapter list: every chapter entry in
/// depth-first order with its evaluated title and optional path; parts and
/// separators contribute nothing.
pub fn generate_chapters(meta: &Vec<BookMetaElem>) -> (r: Vec<ChapterItem>)
    ensures
        r@.map_values(|c: ChapterItem| chapter_model(c)) == spec_chapters_of_list(meta@),
{
    let ghost f = |c: ChapterItem| chapter_model(c);
    let mut out: Vec<ChapterItem> = Vec::new();
    let n = meta.len();
    let mut i: usize = 0;
    proof {
        assert(meta@.subrange(0, 0) =~= Seq::<BookMetaElem>::empty());
        assert(out@.map_values(f) =~= spec_chapters_of_list(meta@.subrange(0, 0)));
    }
    while i < n
        invariant
            0 <= i <= n,
            n == meta@.len(),
            out@.map_values(f) == spec_chapters_of_list(meta@.subrange(0, i as int)),
            f == (|c: ChapterItem| chapter_model(c)),
        decreases n - i,
    {
        collect_chapters(&meta[i], &mut out);
        proof {
            assert(meta@.subrange(0, i as int + 1) =~= meta@.subrange(0, i as int).push(
                meta@[i as int],
            ));
            lemma_chapters_of_list_snoc(meta@.subrange(0, i as int), meta@[i as int]);
        }
        i = i + 1;
    }
    proof {
        assert(meta@.subrange(0, n as int) =~= meta@);
    }
    out
}

/// General information about the book, taken from its summary document.
#[derive(Debug)]
pub struct BookMeta {
    /// The title of the book.
    pub title: String,
    /// The author(s) of the book.
    pub authors: Vec<String>,
    /// A description added as meta information in each page's head.
    pub description: String,
    /// The repository for the book.
    pub repository: String,
    /// The repository editing template, with a placeholder for the path.
    pub repository_edit: String,
    /// The main language of the book.
    pub language: String,
    /// Content summary of the book.
    pub summary: Vec<BookMetaElem>,
}

impl Default for BookMeta {
    fn default() -> (r: BookMeta)
        ensures
            r.title@ == Seq::<char>::empty(),
            r.authors@ == Seq::<String>::empty(),
            r.description@ == Seq::<char>::empty(),
            r.repository@ == Seq::<char>::empty(),
            r.repository_edit@ == Seq::<char>::empty(),
            r.language@ == Seq::<char>::empty(),
            r.summary@ == Seq::<BookMetaElem>::empty(),
    {
        BookMeta {
            title: String::new(),
            authors: Vec::new(),
            description: String::new(),
            repository: String::new(),
            repository_edit: String::new(),
            language: String::new(),
            summary: Vec::new(),
        }
    }
}

/// Build settings from the summary document.
#[derive(Debug, Clone)]
pub struct BuildMeta {
    /// The directory the rendered book goes into, overridable on the command
    /// line.
    pub dest_dir: String,
}

/// How folding of the sidebar chapters behaves.
#[derive(Debug, Clone)]
pub struct Fold {
    /// When off, all folds are open.
    pub enable: bool,
    /// The higher, the more folded regions are open; zero closes all folds.
    pub level: u8,
}

impl Default for Fold {
    fn default() -> (r: Fold)
        ensures
            !r.enable,
            r.level == 0,
    {
        Fold { enable: false, level: 0 }
    }
}

/// Configuration of the search functionality.
#[derive(Debug, Clone)]
pub struct Search {
    /// Enable the search feature.
    pub enable: bool,
    /// Maximum number of visible results.
    pub limit_results: u32,
    /// The number of words used for a search result teaser.
    pub teaser_word_count: u32,
    /// If true, all search words must appear in each result.
    pub use_boolean_and: bool,
    /// Boost factor for a search word in the header.
    pub boost_title: u8,
    /// Boost factor for a search word in the hierarchy.
    pub boost_hierarchy: u8,
    /// Boost factor for a search word in the text.
    pub boost_paragraph: u8,
    /// True when a search word should match longer words it starts.
    pub expand: bool,
    /// Documents are split at headings up to this level.
    pub heading_split_level: u8,
    /// Copy the search scripts to the output directory.
    pub copy_js: bool,
}

impl Default for Search {
    fn default() -> (r: Search)
        ensures
            r.enable,
            r.limit_results == 30,
            r.teaser_word_count == 30,
            !r.use_boolean_and,
            r.boost_title == 2,
            r.boost_hierarchy == 1,
            r.boost_paragraph == 1,
            r.expand,
            r.heading_split_level == 3,
            r.copy_js,
    {
        Search {
            enable: true,
            limit_results: 30,
            teaser_word_count: 30,
            use_boolean_and: false,
            boost_title: 2,
            boost_hierarchy: 1,
            boost_paragraph: 1,
            expand: true,
            heading_split_level: 3,
            copy_js: true,
        }
    }
}

/// Renderer configuration for the HTML output.
#[derive(Debug, Clone)]
pub struct HtmlMeta {
    /// The theme directory, if one is given.
    pub theme: Option<String>,
    /// The default theme name.
    pub default_theme: Option<String>,
    /// The theme used when the browser asks for a dark site.
    pub preferred_dark_theme: Option<String>,
    /// Whether to copy font files to the output directory.
    pub copy_fonts: bool,
    /// Further stylesheets for each rendered page.
    pub additional_css: Vec<String>,
    /// Further scripts for each rendered page.
    pub additional_js: Vec<String>,
    /// Fold settings.
    pub fold: Fold,
    /// Do not render section labels.
    pub no_section_label: bool,
    /// Search settings, or the default when absent.
    pub search: Option<Search>,
    /// Repository url; without it the repository button is not shown.
    pub git_repository_url: Option<String>,
    /// Icon class for the repository link.
    pub git_repository_icon: Option<String>,
    /// Edit url template with a placeholder for the chapter source path.
    pub edit_url_template: Option<String>,
    /// Input path for the not-found page.
    pub input_404: Option<String>,
    /// Absolute url of the site, for the not-found page's paths.
    pub site_url: Option<String>,
    /// Domain written to a CNAME file in the site root.
    pub cname: Option<String>,
    /// Redirects from old pages to new ones.
    pub redirect: Vec<(String, String)>,
}

impl Default for HtmlMeta {
    fn default() -> (r: HtmlMeta)
        ensures
            r.theme is None,
            r.default_theme is None,
            r.preferred_dark_theme is None,
            r.copy_fonts,
            r.additional_css@ == Seq::<String>::empty(),
            r.additional_js@ == Seq::<String>::empty(),
            !r.fold.enable,
            r.fold.level == 0,
            !r.no_section_label,
            r.search is None,
            r.git_repository_url is None,
            r.git_repository_icon is None,
            r.edit_url_template is None,
            r.input_404 is None,
            r.site_url is None,
            r.cname is None,
            r.redirect@ == Seq::<(String, String)>::empty(),
    {
        HtmlMeta {
            theme: None,
            default_theme: None,
            preferred_dark_theme: None,
            copy_fonts: true,
            additional_css: Vec::new(),
            additional_js: Vec::new(),
            fold: Fold { enable: false, level: 0 },
            no_section_label: false,
            search: None,
            git_repository_url: None,
            git_repository_icon: None,
            edit_url_template: None,
            input_404: None,
            site_url: None,
            cname: None,
            redirect: Vec::new(),
        }
    }
}

/// Where the rendered book goes: the command line wins, then the summary's
/// build settings, then `dist`.
pub fn resolve_dest_dir(cli_dest: &String, build_meta: &Option<BuildMeta>) -> (r: String)
    ensures
        r@ == (if cli_dest@.len() > 0 {
            cli_dest@
        } else {
            match *build_meta {
                Some(bm) => if bm.dest_dir@.len() > 0 {
                    bm.dest_dir@
                } else {
                    "dist"@
                },
                None => "dist"@,
            }
        }),
{
    if cli_dest.as_str().unicode_len() > 0 {
        return cli_dest.clone();
    }
    match build_meta {
        Some(bm) => {
            if bm.dest_dir.as_str().unicode_len() > 0 {
                bm.dest_dir.clone()
            } else {
                crate::strutil::string_of("dist")
            }
        },
        None => crate::strutil::string_of("dist"),
    }
}

} // verus!
