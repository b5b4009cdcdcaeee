use vstd::prelude::*;

use crate::meta::{opt_str_model, spec_evaluate, BookMetaElem};
use crate::strutil::{
    append_str, count_char, spec_contains, spec_count_char, spec_replace_all, spec_starts_with,
    str_contains, str_starts_with, string_of, replace_all,
};

verus! {

/// Settings of one page compilation.
#[derive(Debug, Clone, Copy)]
pub struct CompilePageSetting {
    pub with_outline: bool,
}

/// Escaping of angle brackets in text that lands inside HTML markup.
pub open spec fn spec_bracket_escape(s: Seq<char>) -> Seq<char>
    decreases s.len(),
{
    if s.len() == 0 {
        Seq::empty()
    } else {
        (if s[0] == '<' {
            "&lt;"@
        } else if s[0] == '>' {
            "&gt;"@
        } else {
            seq![s[0]]
        }) + spec_bracket_escape(s.drop_first())
    }
}

proof fn lemma_bracket_escape_snoc(s: Seq<char>, c: char)
    ensures
        spec_bracket_escape(s.push(c)) == spec_bracket_escape(s) + (if c == '<' {
            "&lt;"@
        } else if c == '>' {
            "&gt;"@
        } else {
            seq![c]
        }),
    decreases s.len(),
{
    let piece = if c == '<' {
        "&lt;"@
    } else if c == '>' {
        "&gt;"@
    } else {
        seq![c]
    };
    if s.len() == 0 {
        assert(s.push(c)[0] == c);
        assert(s.push(c).drop_first() =~= Seq::<char>::empty());
        assert(spec_bracket_escape(Seq::<char>::empty()) == Seq::<char>::empty());
        assert(spec_bracket_escape(s.push(c)) =~= spec_bracket_escape(s) + piece);
    } else {
        assert(s.push(c).drop_first() =~= s.drop_first().push(c));
        lemma_bracket_escape_snoc(s.drop_first(), c);
        assert(s.push(c)[0] == s[0]);
        assert(spec_bracket_escape(s.push(c)) =~= spec_bracket_escape(s) + piece);
    }
}

/// Replaces `<` and `>` with their HTML entities.
pub fn bracket_escape(s: &str) -> (r: String)
    ensures
        r@ == spec_bracket_escape(s@),
{
    proof {
        reveal_strlit("&lt;");
        reveal_strlit("&gt;");
    }
    let n = s.unicode_len();
    let mut out = String::new();
    let mut i: usize = 0;
    proof {
        assert(s@.subrange(0, 0) =~= Seq::<char>::empty());
        assert(out@ =~= spec_bracket_escape(s@.subrange(0, 0)));
    }
    while i < n
        invariant
            0 <= i <= n,
            n == s@.len(),
            out@ == spec_bracket_escape(s@.subrange(0, i as int)),
        decreases n - i,
    {
        let c = s.get_char(i);
        if c == '<' {
            append_str(&mut out, "&lt;");
        } else if c == '>' {
            append_str(&mut out, "&gt;");
        } else {
            crate::strutil::push_char(&mut out, c);
        }
        proof {
            assert(s@.subrange(0, i as int + 1) =~= s@.subrange(0, i as int).push(s@[i as int]));
            lemma_bracket_escape_snoc(s@.subrange(0, i as int), s@[i as int]);
            assert(out@ =~= spec_bracket_escape(s@.subrange(0, i as int + 1)));
        }
        i = i + 1;
    }
    proof {
        assert(s@.subrange(0, n as int) =~= s@);
    }
    out
}

/// The compiler target name for a theme: the static or dynamic family,
/// suffixed with the theme name when one is chosen.
pub open spec fn spec_theme_target(static_html: bool, theme: Seq<char>) -> Seq<char> {
    if theme.len() == 0 {
        if static_html {
            "html"@
        } else {
            "html-wrapper"@
        }
    } else {
        (if static_html {
            "html-"@
        } else {
            "web-"@
        }) + theme
    }
}

pub fn theme_target(static_html: bool, theme: &str) -> (r: String)
    ensures
        r@ == spec_theme_target(static_html, theme@),
{
    proof {
        reveal_strlit("html");
        reveal_strlit("html-wrapper");
        reveal_strlit("html-");
        reveal_strlit("web-");
    }
    if theme.unicode_len() == 0 {
        if static_html {
            string_of("html")
        } else {
            string_of("html-wrapper")
        }
    } else {
        let mut out = if static_html {
            string_of("html-")
        } else {
            string_of("web-")
        };
        append_str(&mut out, theme);
        out
    }
}

/// The artifact file extension for a theme in the current mode.
pub open spec fn spec_theme_extension(static_html: bool, theme: Seq<char>) -> Seq<char> {
    if theme.len() == 0 || static_html {
        if theme.len() == 0 {
            "html"@
        } else {
            theme + ".html"@
        }
    } else {
        if theme.len() == 0 {
            "multi.sir.in"@
        } else {
            theme + ".multi.sir.in"@
        }
    }
}

pub fn theme_extension(static_html: bool, theme: &str) -> (r: String)
    ensures
        r@ == spec_theme_extension(static_html, theme@),
{
    proof {
        reveal_strlit("html");
        reveal_strlit(".html");
        reveal_strlit("multi.sir.in");
        reveal_strlit(".multi.sir.in");
    }
    if theme.unicode_len() == 0 || static_html {
        if theme.unicode_len() == 0 {
            string_of("html")
        } else {
            let mut out = string_of(theme);
            append_str(&mut out, ".html");
            out
        }
    } else {
        if theme.unicode_len() == 0 {
            string_of("multi.sir.in")
        } else {
            let mut out = string_of(theme);
            append_str(&mut out, ".multi.sir.in");
            out
        }
    }
}

/// The page title shown in the browser: the chapter title alone, or joined
/// with the book title.
pub open spec fn spec_page_title(title: Seq<char>, book_title: Option<Seq<char>>) -> Seq<char> {
    match book_title {
        Some(bt) => title + " - "@ + bt,
        None => title,
    }
}

pub fn page_title(title: &str, book_title: &Option<String>) -> (r: String)
    ensures
        r@ == spec_page_title(title@, opt_str_model(*book_title)),
{
    proof {
        reveal_strlit(" - ");
    }
    match book_title {
        Some(bt) => {
            let mut out = string_of(title);
            append_str(&mut out, " - ");
            append_str(&mut out, bt.as_str());
            out
        },
        None => string_of(title),
    }
}

/// Fills a repository edit-url template: every path placeholder is replaced
/// by the chapter source path.
pub fn edit_url_for(template: &str, path: &str) -> (r: String)
    ensures
        r@ == spec_replace_all(template@, "{path}"@, path@),
{
    proof {
        reveal_strlit("{path}");
    }
    replace_all(template, "{path}", path)
}

/// Keeps a diagnostic unless it is the warning about foreign objects in
/// images, which rendering emits spuriously; errors always stay.
pub fn no_foreign_obj_diag(is_error: bool, message: &String) -> (r: bool)
    ensures
        r == (is_error || !spec_contains(message@, "image contains foreign object"@)),
{
    if is_error {
        return true;
    }
    !str_contains(message.as_str(), "image contains foreign object")
}

/// One sidebar table-of-contents line, as the template data carries it.
#[derive(Debug, Clone)]
pub struct TocEntry {
    /// A separator line.
    pub spacer: bool,
    /// A part heading's title.
    pub part: Option<String>,
    /// The section number string, dots marking depth.
    pub section: Option<String>,
    /// The chapter's source path.
    pub path: Option<String>,
    /// The chapter's display name.
    pub name: Option<String>,
    /// Whether the chapter has sub-chapters.
    pub has_sub_items: bool,
}

/// The fields of one toc line, as mathematics.
pub struct TocEntryModel {
    pub spacer: bool,
    pub part: Option<Seq<char>>,
    pub section: Option<Seq<char>>,
    pub path: Option<Seq<char>>,
    pub name: Option<Seq<char>>,
    pub has_sub_items: bool,
}

pub open spec fn toc_entry_model(e: TocEntry) -> TocEntryModel {
    TocEntryModel {
        spacer: e.spacer,
        part: opt_str_model(e.part),
        section: opt_str_model(e.section),
        path: opt_str_model(e.path),
        name: opt_str_model(e.name),
        has_sub_items: e.has_sub_items,
    }
}

/// The toc lines one summary entry contributes: its own line, then its
/// sub-chapters' lines.
pub open spec fn spec_toc_entries_of(e: BookMetaElem) -> Seq<TocEntryModel>
    decreases e,
{
    match e {
        BookMetaElem::Part { title, .. } => seq![
            TocEntryModel {
                spacer: false,
                part: Some(spec_evaluate(title)),
                section: None,
                path: None,
                name: None,
                has_sub_items: false,
            },
        ],
        BookMetaElem::Separator => seq![
            TocEntryModel {
                spacer: true,
                part: None,
                section: None,
                path: None,
                name: None,
                has_sub_items: false,
            },
        ],
        BookMetaElem::Chapter { title, link, sub, section } => seq![
            TocEntryModel {
                spacer: false,
                part: None,
                section: opt_str_model(section),
                path: opt_str_model(link),
                name: Some(spec_evaluate(title)),
                has_sub_items: sub@.len() > 0,
            },
        ] + spec_toc_entries_of_list(sub@),
    }
}

pub open spec fn spec_toc_entries_of_list(es: Seq<BookMetaElem>) -> Seq<TocEntryModel>
    decreases es,
{
    if es.len() == 0 {
        Seq::empty()
    } else {
        spec_toc_entries_of(es[0]) + spec_toc_entries_of_list(es.drop_first())
    }
}

proof fn lemma_toc_entries_snoc(es: Seq<BookMetaElem>, e: BookMetaElem)
    ensures
        spec_toc_entries_of_list(es.push(e)) == spec_toc_entries_of_list(es)
            + spec_toc_entries_of(e),
    decreases es.len(),
{
    if es.len() == 0 {
        assert(es.push(e)[0] == e);
        assert(es.push(e).drop_first() =~= Seq::<BookMetaElem>::empty());
        assert(spec_toc_entries_of_list(Seq::<BookMetaElem>::empty()) == Seq::<
            TocEntryModel,
        >::empty());
        assert(spec_toc_entries_of_list(es.push(e)) =~= spec_toc_entries_of_list(es)
            + spec_toc_entries_of(e));
    } else {
        assert(es.push(e).drop_first() =~= es.drop_first().push(e));
        lemma_toc_entries_snoc(es.drop_first(), e);
        assert(es.push(e)[0] == es[0]);
        assert(spec_toc_entries_of_list(es.push(e)) =~= spec_toc_entries_of_list(es)
            + spec_toc_entries_of(e));
    }
}

fn toc_collect(e: &BookMetaElem, out: &mut Vec<TocEntry>)
    ensures
        final(out)@.map_values(|t: TocEntry| toc_entry_model(t)) == old(out)@.map_values(
            |t: TocEntry| toc_entry_model(t),
        ) + spec_toc_entries_of(*e),
    decreases *e,
{
    let ghost f = |t: TocEntry| toc_entry_model(t);
    match e {
        BookMetaElem::Part { title, .. } => {
            let entry = TocEntry {
                spacer: false,
                part: Some(crate::meta::evaluate_content(title)),
                section: None,
                path: None,
                name: None,
                has_sub_items: false,
            };
            out.push(entry);
            proof {
                assert(out@.map_values(f) =~= old(out)@.map_values(f) + spec_toc_entries_of(*e));
            }
        },
        BookMetaElem::Separator => {
            let entry = TocEntry {
                spacer: true,
                part: None,
                section: None,
                path: None,
                name: None,
                has_sub_items: false,
            };
            out.push(entry);
            proof {
                assert(out@.map_values(f) =~= old(out)@.map_values(f) + spec_toc_entries_of(*e));
            }
        },
        BookMetaElem::Chapter { title, link, sub, section } => {
            let entry = TocEntry {
                spacer: false,
                part: None,
                section: clone_opt(section),
                path: clone_opt(link),
                name: Some(crate::meta::evaluate_content(title)),
                has_sub_items: sub.len() > 0,
            };
            out.push(entry);
            proof {
                assert(out@.map_values(f) =~= old(out)@.map_values(f) + seq![
                    toc_entry_model(out@.last()),
                ]);
            }
            let ghost base = out@.map_values(f);
            let n = sub.len();
            let mut i: usize = 0;
            proof {
                assert(sub@.subrange(0, 0) =~= Seq::<BookMetaElem>::empty());
                assert(out@.map_values(f) =~= base + spec_toc_entries_of_list(
                    sub@.subrange(0, 0),
                ));
            }
            while i < n
                invariant
                    0 <= i <= n,
                    n == sub@.len(),
                    *e == (BookMetaElem::Chapter {
                        title: *title,
                        link: *link,
                        sub: *sub,
                        section: *section,
                    }),
                    out@.map_values(f) == base + spec_toc_entries_of_list(
                        sub@.subrange(0, i as int),
                    ),
                    f == (|t: TocEntry| toc_entry_model(t)),
                decreases n - i,
            {
                proof {
                    assert(decreases_to!(*e => e->Chapter_sub));
                    assert(decreases_to!(e->Chapter_sub => e->Chapter_sub@[i as int]));
                    assert(decreases_to!(*e => sub@[i as int]));
                }
                toc_collect(&sub[i], out);
                proof {
                    assert(sub@.subrange(0, i as int + 1) =~= sub@.subrange(0, i as int).push(
                        sub@[i as int],
                    ));
                    lemma_toc_entries_snoc(sub@.subrange(0, i as int), sub@[i as int]);
                    assert(out@.map_values(f) =~= base + spec_toc_entries_of_list(
                        sub@.subrange(0, i as int + 1),
                    ));
                }
                i = i + 1;
            }
            proof {
                assert(sub@.subrange(0, n as int) =~= sub@);
                assert(out@.map_values(f) =~= old(out)@.map_values(f) + spec_toc_entries_of(*e));
            }
        },
    }
}

/// `s`, `k` times over.
pub open spec fn spec_repeat(s: Seq<char>, k: nat) -> Seq<char>
    decreases k,
{
    if k == 0 {
        Seq::empty()
    } else {
        s + spec_repeat(s, (k - 1) as nat)
    }
}

proof fn lemma_repeat_snoc(s: Seq<char>, k: nat)
    ensures
        spec_repeat(s, k + 1) == spec_repeat(s, k) + s,
    decreases k,
{
    if k == 0 {
        assert(spec_repeat(s, 1) =~= spec_repeat(s, 0) + s);
    } else {
        lemma_repeat_snoc(s, (k - 1) as nat);
        assert(spec_repeat(s, k + 1) =~= spec_repeat(s, k) + s);
    }
}

/// The opening tag of one toc line, with its fold and affix classes.
pub open spec fn spec_li_open(expanded: bool, affix: bool) -> Seq<char> {
    "<li class=\"chapter-item "@ + (if expanded {
        "expanded "@
    } else {
        Seq::<char>::empty()
    }) + (if affix {
        "affix "@
    } else {
        Seq::<char>::empty()
    }) + "\">"@
}

/// Builds the opening tag of one toc line.
pub fn write_li_open_tag(is_expanded: bool, is_affix: bool) -> (r: String)
    ensures
        r@ == spec_li_open(is_expanded, is_affix),
{
    let mut li = string_of("<li class=\"chapter-item ");
    if is_expanded {
        append_str(&mut li, "expanded ");
    }
    if is_affix {
        append_str(&mut li, "affix ");
    }
    append_str(&mut li, "\">");
    proof {
        assert(li@ =~= spec_li_open(is_expanded, is_affix));
    }
    li
}

/// The section string of a toc line, empty when it has none.
pub open spec fn spec_entry_section(e: TocEntry) -> Seq<char> {
    match e.section {
        Some(s) => s@,
        None => Seq::empty(),
    }
}

/// The nesting depth of a toc line: the number of dots in its section
/// string, or one for a line without a section.
pub open spec fn spec_entry_level(e: TocEntry) -> int {
    match e.section {
        Some(s) => spec_count_char(s@, '.') as int,
        None => 1,
    }
}

/// Whether a toc line starts out unfolded: always when folding is off or the
/// line is an ancestor (or the line itself) of the current section;
/// otherwise when its depth is within the configured fold level.
pub open spec fn spec_entry_expanded(
    e: TocEntry,
    fold_enable: bool,
    fold_level: u64,
    current_section: Seq<char>,
) -> bool {
    let sec = spec_entry_section(e);
    if !fold_enable || (sec.len() > 0 && spec_starts_with(current_section, sec)) {
        true
    } else {
        spec_entry_level(e) - 1 < fold_level as int
    }
}

/// The link target of a chapter: its path under the site root, with the
/// rendered-output extension.
pub open spec fn spec_entry_href(path_to_root: Seq<char>, p: Seq<char>) -> Seq<char> {
    crate::paths::spec_replace_extension(crate::paths::spec_join(path_to_root, p), "html"@)
}

/// The text one toc line emits, with the nesting level and first-chapter
/// flag it leaves behind.
pub open spec fn spec_toc_step(
    e: TocEntry,
    path_to_root: Seq<char>,
    current_path: Seq<char>,
    current_section: Seq<char>,
    fold_enable: bool,
    fold_level: u64,
    no_section_label: bool,
    cur: int,
    first: bool,
) -> (Seq<char>, int, bool) {
    if e.spacer {
        ("<li class=\"spacer\"></li>"@, cur, first)
    } else {
        let level = spec_entry_level(e);
        let expanded = spec_entry_expanded(e, fold_enable, fold_level, current_section);
        let trans = if level > cur {
            spec_repeat("<li><ol class=\"section\">"@, (level - cur) as nat) + spec_li_open(
                expanded,
                false,
            )
        } else if level < cur {
            spec_repeat("</ol></li>"@, (cur - level) as nat) + spec_li_open(expanded, false)
        } else {
            spec_li_open(expanded, e.section is None)
        };
        match e.part {
            Some(t) => (
                trans + "<li class=\"part-title\">"@ + spec_bracket_escape(t@) + "</li>"@,
                level,
                first,
            ),
            None => {
                let line = spec_chapter_line(
                    e,
                    path_to_root,
                    current_path,
                    fold_enable,
                    no_section_label,
                    first,
                );
                (trans + line.0, level, line.1)
            },
        }
    }
}

/// The rest of the toc after some lines were emitted at nesting level `cur`:
/// the remaining lines, then the closing tags down to the top level.
pub open spec fn spec_toc_list(
    entries: Seq<TocEntry>,
    path_to_root: Seq<char>,
    current_path: Seq<char>,
    current_section: Seq<char>,
    fold_enable: bool,
    fold_level: u64,
    no_section_label: bool,
    cur: int,
    first: bool,
) -> Seq<char>
    decreases entries.len(),
{
    if entries.len() == 0 {
        (if cur > 1 {
            spec_repeat("</ol></li>"@, (cur - 1) as nat)
        } else {
            Seq::<char>::empty()
        }) + "</ol>"@
    } else {
        let step = spec_toc_step(
            entries[0],
            path_to_root,
            current_path,
            current_section,
            fold_enable,
            fold_level,
            no_section_label,
            cur,
            first,
        );
        step.0 + spec_toc_list(
            entries.drop_first(),
            path_to_root,
            current_path,
            current_section,
            fold_enable,
            fold_level,
            no_section_label,
            step.1,
            step.2,
        )
    }
}

/// The whole sidebar toc for the given lines and view state.
pub open spec fn spec_render_toc(
    entries: Seq<TocEntry>,
    path_to_root: Seq<char>,
    current_path: Seq<char>,
    current_section: Seq<char>,
    fold_enable: bool,
    fold_level: u64,
    no_section_label: bool,
    is_index: bool,
) -> Seq<char> {
    "<ol class=\"chapter\">"@ + spec_toc_list(
        entries,
        path_to_root,
        current_path,
        current_section,
        fold_enable,
        fold_level,
        no_section_label,
        1,
        is_index,
    )
}

/// The sidebar table-of-contents renderer.
#[derive(Debug, Clone, Copy)]
pub struct RenderToc {
    pub no_section_label: bool,
}

impl RenderToc {
    /// Renders the sidebar toc: one ordered list whose nesting follows the
    /// section depth of each line, links marked active on the current page
    /// (or the first chapter on the index page), fold state per the fold
    /// settings, and titles escaped.
    #[verifier::rlimit(100)]
    pub fn render(
        &self,
        entries: &Vec<TocEntry>,
        path_to_root: &String,
        current_path: &String,
        current_section: &String,
        fold_enable: bool,
        fold_level: u64,
        is_index: bool,
    ) -> (r: String)
        ensures
            r@ == spec_render_toc(
                entries@,
                path_to_root@,
                current_path@,
                current_section@,
                fold_enable,
                fold_level,
                self.no_section_label,
                is_index,
            ),
    {
        let nsl = self.no_section_label;
        let mut out = string_of("<ol class=\"chapter\">");
        let mut cur: usize = 1;
        let mut first = is_index;
        let n = entries.len();
        let mut i: usize = 0;
        proof {
            assert(entries@.skip(0) =~= entries@);
        }
        while i < n
            invariant
                0 <= i <= n,
                n == entries@.len(),
                nsl == self.no_section_label,
                spec_render_toc(
                    entries@,
                    path_to_root@,
                    current_path@,
                    current_section@,
                    fold_enable,
                    fold_level,
                    nsl,
                    is_index,
                ) == out@ + spec_toc_list(
                    entries@.skip(i as int),
                    path_to_root@,
                    current_path@,
                    current_section@,
                    fold_enable,
                    fold_level,
                    nsl,
                    cur as int,
                    first,
                ),
            decreases n - i,
        {
            let ghost suffix = entries@.skip(i as int);
            proof {
                assert(suffix[0] == entries@[i as int]);
                assert(suffix.drop_first() =~= entries@.skip(i as int + 1));
            }
            let ghost out_pre = out@;
            let ghost cur_pre = cur as int;
            let ghost first_pre = first;
            emit_toc_entry(
                &entries[i],
                path_to_root,
                current_path,
                current_section,
                fold_enable,
                fold_level,
                nsl,
                &mut out,
                &mut cur,
                &mut first,
            );
            proof {
                let step = spec_toc_step(
                    entries@[i as int],
                    path_to_root@,
                    current_path@,
                    current_section@,
                    fold_enable,
                    fold_level,
                    nsl,
                    cur_pre,
                    first_pre,
                );
                assert(out@ + spec_toc_list(
                    entries@.skip(i as int + 1),
                    path_to_root@,
                    current_path@,
                    current_section@,
                    fold_enable,
                    fold_level,
                    nsl,
                    cur as int,
                    first,
                ) =~= out_pre + spec_toc_list(
                    suffix,
                    path_to_root@,
                    current_path@,
                    current_section@,
                    fold_enable,
                    fold_level,
                    nsl,
                    cur_pre,
                    first_pre,
                ));
            }
            i = i + 1;
        }
        // Close any nesting still open and the outer list.
        let ghost out1 = out@;
        proof {
            assert(entries@.skip(n as int) =~= Seq::<TocEntry>::empty());
            assert(out@ =~= out1 + spec_repeat("</ol></li>"@, 0));
        }
        let mut t: usize = cur;
        while t > 1
            invariant
                t <= cur,
                1 <= t || t == cur,
                out@ == out1 + spec_repeat("</ol></li>"@, (cur - t) as nat),
            decreases t,
        {
            append_str(&mut out, "</ol></li>");
            proof {
                lemma_repeat_snoc("</ol></li>"@, (cur - t) as nat);
                assert(out@ =~= out1 + spec_repeat("</ol></li>"@, (cur - t + 1) as nat));
            }
            t = t - 1;
        }
        append_str(&mut out, "</ol>");
        proof {
            if cur > 1 {
                assert(out@ =~= out1 + spec_repeat("</ol></li>"@, (cur - 1) as nat) + "</ol>"@);
            } else {
                assert(out@ =~= out1 + "</ol>"@);
            }
        }
        out
    }
}

/// Emits one toc line onto `out`, updating the nesting level and the
/// first-chapter flag as `spec_toc_step` describes.
#[verifier::rlimit(100)]
#[verifier::spinoff_prover]
fn emit_toc_entry(
    e: &TocEntry,
    path_to_root: &String,
    current_path: &String,
    current_section: &String,
    fold_enable: bool,
    fold_level: u64,
    nsl: bool,
    out: &mut String,
    cur: &mut usize,
    first: &mut bool,
)
    ensures
        ({
            let step = spec_toc_step(
                *e,
                path_to_root@,
                current_path@,
                current_section@,
                fold_enable,
                fold_level,
                nsl,
                *old(cur) as int,
                *old(first),
            );
            &&& final(out)@ == old(out)@ + step.0
            &&& *final(cur) as int == step.1
            &&& *final(first) == step.2
        }),
{
    let ghost out0 = out@;
    if e.spacer {
        append_str(out, "<li class=\"spacer\"></li>");
        return ;
    }
    // The nesting depth of this line.
    let level: usize = match &e.section {
        Some(s) => count_char(s.as_str(), '.'),
        None => 1,
    };
    proof {
        assert(level as int == spec_entry_level(*e));
    }
    // Whether this line starts out unfolded.
    let expanded: bool = if !fold_enable {
        true
    } else {
        let by_section = match &e.section {
            Some(s) => s.as_str().unicode_len() > 0 && str_starts_with(
                current_section.as_str(),
                s.as_str(),
            ),
            None => false,
        };
        if by_section {
            true
        } else {
            level >= 1 && ((level - 1) as u64) < fold_level || level == 0
        }
    };
    proof {
        assert(expanded == spec_entry_expanded(*e, fold_enable, fold_level, current_section@));
    }
    emit_transition(out, expanded, e.section.is_none(), *cur, level);
    *cur = level;
    let ghost out_tr = out@;
    match &e.part {
        Some(t) => {
            append_str(out, "<li class=\"part-title\">");
            let esc = bracket_escape(t.as_str());
            append_str(out, esc.as_str());
            append_str(out, "</li>");
            proof {
                assert(out@ =~= out_tr + ("<li class=\"part-title\">"@ + spec_bracket_escape(
                    t@,
                ) + "</li>"@));
                assert(out@ =~= out0 + (out_tr.skip(out0.len() as int)
                    + ("<li class=\"part-title\">"@ + spec_bracket_escape(t@) + "</li>"@)));
            }
        },
        None => {
            emit_chapter_line(
                e,
                path_to_root,
                current_path,
                fold_enable,
                nsl,
                out,
                first,
            );
        },
    }
}

/// The text of one chapter line after its opening tag: link or division,
/// section label, escaped name, closing tag, fold toggle, line end.
pub open spec fn spec_chapter_line(
    e: TocEntry,
    path_to_root: Seq<char>,
    current_path: Seq<char>,
    fold_enable: bool,
    no_section_label: bool,
    first: bool,
) -> (Seq<char>, bool) {
    let pv = match e.path {
        Some(p) => p@,
        None => Seq::empty(),
    };
    let has_link = e.path is Some && pv.len() > 0;
    let active = pv == current_path || first;
    let open = if has_link {
        "<a href=\""@ + spec_entry_href(path_to_root, pv) + "\""@ + (if active {
            " class=\"active\""@
        } else {
            Seq::<char>::empty()
        }) + ">"@
    } else {
        "<div>"@
    };
    let first2 = if has_link && active {
        false
    } else {
        first
    };
    let seclabel = if !no_section_label && e.section is Some {
        "<strong aria-hidden=\"true\">"@ + spec_entry_section(e) + "</strong> "@
    } else {
        Seq::<char>::empty()
    };
    let namepart = match e.name {
        Some(nm) => spec_bracket_escape(nm@),
        None => Seq::<char>::empty(),
    };
    let close = if has_link {
        "</a>"@
    } else {
        "</div>"@
    };
    let toggle = if fold_enable && e.has_sub_items {
        "<a class=\"toggle\"><div>\u{276f}</div></a>"@
    } else {
        Seq::<char>::empty()
    };
    (open + seclabel + namepart + close + toggle + "</li>"@, first2)
}

#[verifier::rlimit(100)]
fn emit_chapter_line(
    e: &TocEntry,
    path_to_root: &String,
    current_path: &String,
    fold_enable: bool,
    nsl: bool,
    out: &mut String,
    first: &mut bool,
)
    ensures
        ({
            let line = spec_chapter_line(
                *e,
                path_to_root@,
                current_path@,
                fold_enable,
                nsl,
                *old(first),
            );
            &&& final(out)@ == old(out)@ + line.0
            &&& *final(first) == line.1
        }),
{
    let ghost out0 = out@;
    let ghost line = spec_chapter_line(
        *e,
        path_to_root@,
        current_path@,
        fold_enable,
        nsl,
        *first,
    );
    // The link, or a bare division for an unlinked line.
    let has_link = match &e.path {
        Some(p) => p.as_str().unicode_len() > 0,
        None => false,
    };
    if has_link {
        let p = match &e.path {
            Some(p) => p.clone(),
            None => String::new(),
        };
        append_str(out, "<a href=\"");
        let joined = crate::paths::join_path(path_to_root.as_str(), p.as_str());
        let href = crate::paths::replace_extension(joined.as_str(), "html");
        append_str(out, href.as_str());
        append_str(out, "\"");
        let active = p.eq(current_path) || *first;
        if active {
            *first = false;
            append_str(out, " class=\"active\"");
        }
        append_str(out, ">");
        proof {
            assert(out@ =~= out0 + ("<a href=\""@ + spec_entry_href(path_to_root@, p@) + "\""@
                + (if active {
                " class=\"active\""@
            } else {
                Seq::<char>::empty()
            }) + ">"@));
        }
    } else {
        append_str(out, "<div>");
    }
    let ghost out_open = out@;
    // The section label.
    if !nsl {
        match &e.section {
            Some(s) => {
                append_str(out, "<strong aria-hidden=\"true\">");
                append_str(out, s.as_str());
                append_str(out, "</strong> ");
            },
            None => {},
        }
    }
    proof {
        assert(out@ =~= out_open + (if !nsl && e.section is Some {
            "<strong aria-hidden=\"true\">"@ + spec_entry_section(*e) + "</strong> "@
        } else {
            Seq::<char>::empty()
        }));
    }
    let ghost out_sec = out@;
    // The display name.
    match &e.name {
        Some(nm) => {
            let esc = bracket_escape(nm.as_str());
            append_str(out, esc.as_str());
        },
        None => {},
    }
    let ghost out_name = out@;
    if has_link {
        append_str(out, "</a>");
    } else {
        append_str(out, "</div>");
    }
    // The fold toggle.
    if fold_enable && e.has_sub_items {
        append_str(out, "<a class=\"toggle\"><div>\u{276f}</div></a>");
    }
    append_str(out, "</li>");
    proof {
        assert(out@ =~= out0 + line.0);
    }
}

/// Emits the tags that move the nesting from level `cur` to `level`,
/// followed by this line's opening tag.
fn emit_transition(out: &mut String, expanded: bool, affix: bool, cur: usize, level: usize)
    ensures
        final(out)@ == old(out)@ + (if level > cur {
            spec_repeat("<li><ol class=\"section\">"@, (level - cur) as nat) + spec_li_open(
                expanded,
                false,
            )
        } else if level < cur {
            spec_repeat("</ol></li>"@, (cur - level) as nat) + spec_li_open(expanded, false)
        } else {
            spec_li_open(expanded, affix)
        }),
{
    let ghost out0 = out@;
    if level > cur {
        let mut t: usize = cur;
        proof {
            assert(out@ =~= out0 + spec_repeat("<li><ol class=\"section\">"@, 0));
        }
        while t < level
            invariant
                cur <= t <= level,
                out@ == out0 + spec_repeat("<li><ol class=\"section\">"@, (t - cur) as nat),
            decreases level - t,
        {
            append_str(out, "<li><ol class=\"section\">");
            proof {
                lemma_repeat_snoc("<li><ol class=\"section\">"@, (t - cur) as nat);
                assert(out@ =~= out0 + spec_repeat(
                    "<li><ol class=\"section\">"@,
                    (t - cur + 1) as nat,
                ));
            }
            t = t + 1;
        }
        let li = write_li_open_tag(expanded, false);
        append_str(out, li.as_str());
        proof {
            assert(out@ =~= out0 + (spec_repeat(
                "<li><ol class=\"section\">"@,
                (level - cur) as nat,
            ) + spec_li_open(expanded, false)));
        }
    } else if level < cur {
        let mut t: usize = cur;
        proof {
            assert(out@ =~= out0 + spec_repeat("</ol></li>"@, 0));
        }
        while t > level
            invariant
                level <= t <= cur,
                out@ == out0 + spec_repeat("</ol></li>"@, (cur - t) as nat),
            decreases t,
        {
            append_str(out, "</ol></li>");
            proof {
                lemma_repeat_snoc("</ol></li>"@, (cur - t) as nat);
                assert(out@ =~= out0 + spec_repeat("</ol></li>"@, (cur - t + 1) as nat));
            }
            t = t - 1;
        }
        let li = write_li_open_tag(expanded, false);
        append_str(out, li.as_str());
        proof {
            assert(out@ =~= out0 + (spec_repeat("</ol></li>"@, (cur - level) as nat)
                + spec_li_open(expanded, false)));
        }
    } else {
        let li = write_li_open_tag(expanded, affix);
        append_str(out, li.as_str());
    }
}

fn clone_opt(o: &Option<String>) -> (r: Option<String>)
    ensures
        opt_str_model(r) == opt_str_model(*o),
{
    match o {
        Some(s) => Some(s.clone()),
        None => None,
    }
}

/// Flattens a summary into the sidebar's toc lines, depth first: parts as
/// headings, chapters with their section number, path, name and sub-chapter
/// flag, separators as spacers.
pub fn convert_chapters(meta: &Vec<BookMetaElem>) -> (r: Vec<TocEntry>)
    ensures
        r@.map_values(|t: TocEntry| toc_entry_model(t)) == spec_toc_entries_of_list(meta@),
{
    let ghost f = |t: TocEntry| toc_entry_model(t);
    let mut out: Vec<TocEntry> = Vec::new();
    let n = meta.len();
    let mut i: usize = 0;
    proof {
        assert(meta@.subrange(0, 0) =~= Seq::<BookMetaElem>::empty());
        assert(out@.map_values(f) =~= spec_toc_entries_of_list(meta@.subrange(0, 0)));
    }
    while i < n
        invariant
            0 <= i <= n,
            n == meta@.len(),
            out@.map_values(f) == spec_toc_entries_of_list(meta@.subrange(0, i as int)),
            f == (|t: TocEntry| toc_entry_model(t)),
        decreases n - i,
    {
        toc_collect(&meta[i], &mut out);
        proof {
            assert(meta@.subrange(0, i as int + 1) =~= meta@.subrange(0, i as int).push(
                meta@[i as int],
            ));
            lemma_toc_entries_snoc(meta@.subrange(0, i as int), meta@[i as int]);
        }
        i = i + 1;
    }
    proof {
        assert(meta@.subrange(0, n as int) =~= meta@);
    }
    out
}

} // verus!
