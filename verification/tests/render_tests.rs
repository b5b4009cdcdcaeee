use shiroa::meta::{
    evaluate_content, generate_chapters, resolve_dest_dir, BookMeta, BookMetaContent,
    BookMetaElem, BuildMeta, Fold, HtmlMeta, JsonContent, Search,
};
use shiroa::paths::{join_path, replace_extension, resolve_dest};
use shiroa::render::{
    bracket_escape, convert_chapters, edit_url_for, no_foreign_obj_diag, page_title,
    theme_extension, theme_target, write_li_open_tag, RenderToc,
};
use shiroa::strutil::collapse_whitespace;

fn chapter(title: &str, link: Option<&str>, sub: Vec<BookMetaElem>) -> BookMetaElem {
    BookMetaElem::Chapter {
        title: BookMetaContent::PlainText { content: String::from(title) },
        link: link.map(String::from),
        sub,
        section: None,
    }
}

#[test]
fn flatten_json_content() {
    let c = JsonContent::Sequence {
        children: vec![
            JsonContent::Text { text: String::from("a") },
            JsonContent::Space,
            JsonContent::Text { text: String::from("b") },
        ],
    };
    assert_eq!(c.flatten(), "a b");
    let t = BookMetaContent::Raw { content: c };
    assert_eq!(evaluate_content(&t), "a b");
}

#[test]
fn generate_chapters_flattens_depth_first() {
    let meta = vec![
        BookMetaElem::Part {
            title: BookMetaContent::PlainText { content: String::from("P") },
            level: 1,
        },
        chapter("One", Some("one.typ"), vec![chapter("Sub", Some("sub.typ"), vec![])]),
        BookMetaElem::Separator,
        chapter("Two", None, vec![]),
    ];
    let chs = generate_chapters(&meta);
    assert_eq!(chs.len(), 3);
    assert_eq!(chs[0].title, "One");
    assert_eq!(chs[0].path.as_deref(), Some("one.typ"));
    assert_eq!(chs[1].title, "Sub");
    assert_eq!(chs[2].title, "Two");
    assert!(chs[2].path.is_none());
}

#[test]
fn dest_dir_fallbacks() {
    assert_eq!(resolve_dest_dir(&String::from("out"), &None), "out");
    let bm = Some(BuildMeta { dest_dir: String::from("bdir") });
    assert_eq!(resolve_dest_dir(&String::from(""), &bm), "bdir");
    let empty = Some(BuildMeta { dest_dir: String::from("") });
    assert_eq!(resolve_dest_dir(&String::from(""), &empty), "dist");
    assert_eq!(resolve_dest_dir(&String::from(""), &None), "dist");
}

#[test]
fn defaults_match_documentation() {
    let s = Search::default();
    assert!(s.enable && s.expand && s.copy_js && !s.use_boolean_and);
    assert_eq!(s.limit_results, 30);
    assert_eq!(s.teaser_word_count, 30);
    assert_eq!(s.boost_title, 2);
    assert_eq!(s.boost_hierarchy, 1);
    assert_eq!(s.boost_paragraph, 1);
    assert_eq!(s.heading_split_level, 3);
    let f = Fold::default();
    assert!(!f.enable);
    assert_eq!(f.level, 0);
    let h = HtmlMeta::default();
    assert!(h.copy_fonts && !h.no_section_label);
    assert!(h.theme.is_none() && h.search.is_none());
    let b = BookMeta::default();
    assert_eq!(b.title, "");
    assert!(b.summary.is_empty());
}

#[test]
fn bracket_escape_exact() {
    assert_eq!(bracket_escape("<a>&b"), "&lt;a&gt;&b");
    assert_eq!(bracket_escape("plain"), "plain");
    assert_eq!(bracket_escape(""), "");
}

#[test]
fn collapse_whitespace_exact() {
    assert_eq!(collapse_whitespace("a  b\n\nc d"), "a b c d");
    assert_eq!(collapse_whitespace("a\nb"), "a\nb");
    assert_eq!(collapse_whitespace("  x  "), " x ");
}

#[test]
fn edit_url_template() {
    assert_eq!(
        edit_url_for("https://example.com/edit/{path}", "guide/x.typ"),
        "https://example.com/edit/guide/x.typ"
    );
    assert_eq!(edit_url_for("{path}/{path}", "a"), "a/a");
}

#[test]
fn page_title_joins_book_title() {
    assert_eq!(page_title("Ch", &Some(String::from("Book"))), "Ch - Book");
    assert_eq!(page_title("Ch", &None), "Ch");
}

#[test]
fn theme_targets_and_extensions() {
    assert_eq!(theme_target(false, ""), "html-wrapper");
    assert_eq!(theme_target(true, ""), "html");
    assert_eq!(theme_target(false, "ayu"), "web-ayu");
    assert_eq!(theme_target(true, "ayu"), "html-ayu");
    assert_eq!(theme_extension(false, ""), "html");
    assert_eq!(theme_extension(false, "ayu"), "ayu.multi.sir.in");
    assert_eq!(theme_extension(true, ""), "html");
    assert_eq!(theme_extension(true, "ayu"), "ayu.html");
}

#[test]
fn path_helpers() {
    assert_eq!(join_path("/dist", "x"), "/dist/x");
    assert_eq!(join_path("/dist/", "x"), "/dist/x");
    assert_eq!(join_path("", "x"), "x");
    assert_eq!(replace_extension("guide/x.typ", "html"), "guide/x.html");
    assert_eq!(replace_extension("a.b.c", "html"), "a.b.html");
    assert_eq!(replace_extension(".html", "typ"), ".html.typ");
    assert_eq!(replace_extension("dir.d/x", "html"), "dir.d/x.html");
    assert_eq!(resolve_dest("y", "/dist"), Some(String::from("/dist/y")));
    assert_eq!(resolve_dest("/dist/y", "/dist"), Some(String::from("/dist/y")));
    assert_eq!(resolve_dest("/distx/y", "/dist"), None);
    assert_eq!(resolve_dest("/other", "/dist"), None);
}

#[test]
fn diagnostics_filter() {
    let noisy = String::from("warning: image contains foreign object somewhere");
    assert!(!no_foreign_obj_diag(false, &noisy));
    assert!(no_foreign_obj_diag(true, &noisy));
    assert!(no_foreign_obj_diag(false, &String::from("another warning")));
}

#[test]
fn li_open_tag_classes() {
    assert_eq!(write_li_open_tag(true, false), "<li class=\"chapter-item expanded \">");
    assert_eq!(write_li_open_tag(false, true), "<li class=\"chapter-item affix \">");
}

#[test]
fn toc_single_active_chapter() {
    let meta = vec![chapter("Intro", Some("intro.typ"), vec![])];
    let entries = convert_chapters(&meta);
    assert_eq!(entries.len(), 1);
    let toc = RenderToc { no_section_label: false };
    let html = toc.render(
        &entries,
        &String::from("/"),
        &String::from("intro.typ"),
        &String::from(""),
        false,
        0,
        false,
    );
    assert_eq!(
        html,
        "<ol class=\"chapter\"><li class=\"chapter-item expanded affix \">\
         <a href=\"/intro.html\" class=\"active\">Intro</a></li></ol>"
    );
}

#[test]
fn toc_spacer_and_part() {
    let meta = vec![
        BookMetaElem::Part {
            title: BookMetaContent::PlainText { content: String::from("P<art>") },
            level: 1,
        },
        BookMetaElem::Separator,
    ];
    let entries = convert_chapters(&meta);
    let toc = RenderToc { no_section_label: false };
    let html = toc.render(
        &entries,
        &String::from(""),
        &String::from(""),
        &String::from(""),
        false,
        0,
        false,
    );
    assert!(html.contains("<li class=\"part-title\">P&lt;art&gt;</li>"));
    assert!(html.contains("<li class=\"spacer\"></li>"));
}

#[test]
fn toc_nests_by_section_depth() {
    let entries = convert_chapters(&vec![
        BookMetaElem::Chapter {
            title: BookMetaContent::PlainText { content: String::from("One") },
            link: Some(String::from("one.typ")),
            sub: vec![],
            section: Some(String::from("1.")),
        },
        BookMetaElem::Chapter {
            title: BookMetaContent::PlainText { content: String::from("Deep") },
            link: Some(String::from("deep.typ")),
            sub: vec![],
            section: Some(String::from("1.1.")),
        },
    ]);
    let toc = RenderToc { no_section_label: false };
    let html = toc.render(
        &entries,
        &String::from(""),
        &String::from("zzz"),
        &String::from(""),
        false,
        0,
        false,
    );
    assert!(html.contains("<li><ol class=\"section\">"));
    assert!(html.contains("<strong aria-hidden=\"true\">1.</strong>"));
    assert!(html.ends_with("</ol></li></ol>"));
}
