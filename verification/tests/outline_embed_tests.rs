use shiroa::html_embed::{extract_embedded_command, render_allowed_element};
use shiroa::meta::BookMetaElem;
use shiroa::outline::{get_outline, infer_book_elems, Heading, OutlineChapter};
use shiroa::project::{convert_static_asset, single_query_item, version_supported, RawAssetSource, StaticAsset};
use shiroa::assets::AssetSource;
use shiroa::search::{doc_url, tokenize};

fn heading(title: &str, level: usize, bookmarked: bool) -> Heading {
    Heading {
        title: String::from(title),
        level,
        bookmarked,
        span: 1,
        body_span: 2,
        page_no: 1,
    }
}

#[test]
fn outline_tree_nests_levels() {
    let hs = vec![heading("a", 1, true), heading("b", 2, true), heading("c", 1, true)];
    let tree = get_outline(&hs).expect("bookmarked headings give a tree");
    assert_eq!(tree.len(), 2);
    assert_eq!(tree[0].title, "a");
    assert_eq!(tree[0].children.len(), 1);
    assert_eq!(tree[0].children[0].title, "b");
    assert_eq!(tree[1].title, "c");
}

#[test]
fn outline_tree_empty_without_bookmarks() {
    let hs = vec![heading("a", 1, false)];
    assert!(get_outline(&hs).is_none());
}

#[test]
fn skipped_heading_limits_nesting() {
    // A skipped heading of level one stands between the two bookmarked
    // ones, so the deeper heading may not nest under the first.
    let hs = vec![heading("a", 1, true), heading("skip", 1, false), heading("b", 2, true)];
    let tree = get_outline(&hs).unwrap();
    assert_eq!(tree.len(), 2);
    assert_eq!(tree[0].children.len(), 0);
    assert_eq!(tree[1].title, "b");
}

fn oc(title: &str, has_content: bool, children: Vec<OutlineChapter>) -> OutlineChapter {
    OutlineChapter { title: String::from(title), has_content, children }
}

fn chapter_parts(e: &BookMetaElem) -> (String, Option<String>, Option<String>, usize) {
    match e {
        BookMetaElem::Chapter { title, link, sub, section } => {
            let t = match title {
                shiroa::meta::BookMetaContent::PlainText { content } => content.clone(),
                _ => panic!("inferred titles are plain text"),
            };
            (t, link.clone(), section.clone(), sub.len())
        },
        _ => panic!("expected a chapter"),
    }
}

#[test]
fn infer_numbers_chapters_and_links() {
    let chapters = vec![
        oc("One", true, vec![oc("OneOne", false, vec![]), oc("OneTwo", true, vec![])]),
        oc("Two", true, vec![]),
    ];
    let elems = infer_book_elems(true, &chapters);
    // Preface, separator, then the two top chapters.
    assert_eq!(elems.len(), 4);
    let (t0, l0, s0, n0) = chapter_parts(&elems[0]);
    assert_eq!(t0, "Preface");
    assert_eq!(l0.as_deref(), Some("pre.typ"));
    assert!(s0.is_none());
    assert_eq!(n0, 0);
    assert!(matches!(elems[1], BookMetaElem::Separator));
    let (t1, l1, s1, n1) = chapter_parts(&elems[2]);
    assert_eq!((t1.as_str(), l1.as_deref(), s1.as_deref(), n1), ("One", Some("1.typ"), Some("1"), 2));
    let (t2, l2, s2, _) = chapter_parts(&elems[3]);
    assert_eq!((t2.as_str(), l2.as_deref(), s2.as_deref()), ("Two", Some("3.typ"), Some("2")));
    match &elems[2] {
        BookMetaElem::Chapter { sub, .. } => {
            let (ta, la, sa, _) = chapter_parts(&sub[0]);
            assert_eq!((ta.as_str(), la.as_deref(), sa.as_deref()), ("OneOne", None, Some("1.1")));
            let (tb, lb, sb, _) = chapter_parts(&sub[1]);
            assert_eq!((tb.as_str(), lb.as_deref(), sb.as_deref()), ("OneTwo", Some("2.typ"), Some("1.2")));
        },
        _ => unreachable!(),
    }
}

#[test]
fn infer_without_prefix_starts_at_zero() {
    let chapters = vec![oc("Solo", true, vec![])];
    let elems = infer_book_elems(false, &chapters);
    assert_eq!(elems.len(), 1);
    let (_, link, section, _) = chapter_parts(&elems[0]);
    assert_eq!(link.as_deref(), Some("0.typ"));
    assert_eq!(section.as_deref(), Some("1"));
}

#[test]
fn extract_embedded_command_between_markers() {
    let text = String::from(
        "<svg><!-- embedded-content html,{\"tag\":\"div\"} embedded-content --></svg>",
    );
    let (cmd, payload) = extract_embedded_command(&text).unwrap();
    assert_eq!(cmd, "html");
    assert_eq!(payload, "{\"tag\":\"div\"}");
    assert!(extract_embedded_command(&String::from("no markers")).is_none());
    assert!(extract_embedded_command(&String::from("<!-- embedded-content nocomma embedded-content -->")).is_none());
}

#[test]
fn render_element_allowlist() {
    let attrs = vec![(String::from("id"), String::from("player"))];
    let ok = vec![true];
    let html = render_allowed_element(&String::from("div"), &attrs, &ok).unwrap();
    assert_eq!(html, "<div id=\"player\"></div>");

    let audio = render_allowed_element(&String::from("audio"), &attrs, &ok).unwrap();
    assert_eq!(audio, "<audio id=\"player\">audio.</audio>");

    assert!(render_allowed_element(&String::from("script"), &attrs, &ok).is_none());
}

#[test]
fn render_element_rejects_bad_attributes() {
    // A key with a non-alphanumeric character is rejected, even with the
    // data prefix.
    let bad = vec![(String::from("data-x"), String::from("1"))];
    assert!(render_allowed_element(&String::from("div"), &bad, &vec![true]).is_none());
    // An attribute outside the element's allowlist is rejected.
    let widthy = vec![(String::from("width"), String::from("1"))];
    assert!(render_allowed_element(&String::from("div"), &widthy, &vec![true]).is_none());
    assert!(render_allowed_element(&String::from("iframe"), &widthy, &vec![true]).is_some());
}

#[test]
fn render_element_source_check_and_escaping() {
    let attrs = vec![(String::from("src"), String::from("https://ok/x?a=1&b=\"2\""))];
    assert!(render_allowed_element(&String::from("video"), &attrs, &vec![false]).is_none());
    let html = render_allowed_element(&String::from("video"), &attrs, &vec![true]).unwrap();
    assert_eq!(html, "<video src=\"https://ok/x?a=1&amp;b=&quot;2&quot;\">video.</video>");
}

#[test]
fn tokenize_splits_and_lowercases() {
    let toks = tokenize("Hello  World-Test");
    assert_eq!(toks, vec![String::from("hello"), String::from("world"), String::from("test")]);
    let long = "x".repeat(81);
    assert_eq!(tokenize(&long).len(), 0);
    assert_eq!(tokenize(&"x".repeat(80)).len(), 1);
}

#[test]
fn doc_urls() {
    assert_eq!(doc_url(&String::from("a.html"), &None), "a.html");
    assert_eq!(doc_url(&String::from("a.html"), &Some(String::from("s1"))), "a.html#s1");
}

#[test]
fn version_and_query_checks() {
    assert!(version_supported(&String::from("0.3.1")));
    assert!(!version_supported(&String::from("0.3.0")));
    assert_eq!(single_query_item::<u32>(vec![]), Ok(None));
    assert_eq!(single_query_item(vec![5u32]), Ok(Some(5)));
    assert!(single_query_item(vec![1u32, 2]).is_err());
}

#[test]
fn static_asset_conversion() {
    let root = String::from("/proj");
    let t = StaticAsset {
        src: RawAssetSource::Text(String::from("hi")),
        dest: String::from("d"),
        asset_type: String::from("css"),
    };
    match convert_static_asset(t, &root).unwrap().src {
        AssetSource::Bytes(b) => assert_eq!(b, b"hi".to_vec()),
        _ => panic!("text becomes bytes"),
    }

    let b64 = StaticAsset {
        src: RawAssetSource::Bytes(String::from("aGk=")),
        dest: String::from("d"),
        asset_type: String::from("bin"),
    };
    match convert_static_asset(b64, &root).unwrap().src {
        AssetSource::Bytes(b) => assert_eq!(b, b"hi".to_vec()),
        _ => panic!("base64 decodes"),
    }

    let bad = StaticAsset {
        src: RawAssetSource::Bytes(String::from("!!!")),
        dest: String::from("d"),
        asset_type: String::from("bin"),
    };
    assert!(convert_static_asset(bad, &root).is_none());

    let p = StaticAsset {
        src: RawAssetSource::Path(String::from("img/a.png")),
        dest: String::from("d"),
        asset_type: String::from("image"),
    };
    match convert_static_asset(p, &root).unwrap().src {
        AssetSource::Path(q) => assert_eq!(q, "/proj/img/a.png"),
        _ => panic!("paths stay paths"),
    }
}

#[test]
fn outline_items_intern_children_first() {
    let mut it = shiroa::interner::SpanInternerImpl::new();
    let hs = vec![
        Heading { title: String::from(" A "), level: 1, bookmarked: true, span: 7, body_span: 8, page_no: 1 },
        Heading { title: String::from("B"), level: 2, bookmarked: true, span: 0, body_span: 9, page_no: 2 },
    ];
    let tree = get_outline(&hs).unwrap();
    let outline = shiroa::outline::outline(&mut it, &tree);
    assert_eq!(outline.items.len(), 1);
    let a = &outline.items[0];
    assert_eq!(a.title, "A", "titles are trimmed");
    assert_eq!(a.page_no, Some(1));
    assert_eq!(a.children.len(), 1);
    let b = &a.children[0];
    // The child is interned first, so it holds the first slot; the parent
    // holds the second. Both ids carry generation one.
    assert_eq!(b.span.as_deref(), Some("100000000"));
    assert_eq!(a.span.as_deref(), Some("100000001"));
    // A detached heading handle falls back to the body's handle.
    let id_b = shiroa::interner::InternId::from_hex(b.span.as_deref().unwrap());
    assert!(matches!(it.span(id_b), shiroa::interner::InternQuery::Found(9)));
    let id_a = shiroa::interner::InternId::from_hex(a.span.as_deref().unwrap());
    assert!(matches!(it.span(id_a), shiroa::interner::InternQuery::Found(7)));
}
