use vstd::prelude::*;

use crate::meta::{BookMetaContent, BookMetaElem};
use crate::strutil::{append_str, string_of, u64_to_decimal, spec_dec_seq};

verus! {

/// One heading of a compiled document, as plain values: its text, nesting
/// level (at least one), whether it is bookmarked for the outline, its own
/// and its body's location handles (zero meaning detached), and the page it
/// sits on.
#[derive(Debug, Clone)]
pub struct Heading {
    pub title: String,
    pub level: usize,
    pub bookmarked: bool,
    pub span: u64,
    pub body_span: u64,
    pub page_no: usize,
}

/// A heading with the headings nested under it.
#[derive(Debug)]
pub struct HeadingNode {
    pub title: String,
    pub level: usize,
    pub bookmarked: bool,
    pub span: u64,
    pub body_span: u64,
    pub page_no: usize,
    pub children: Vec<HeadingNode>,
}

/// A heading tree node, as mathematics.
pub struct HNode {
    pub title: Seq<char>,
    pub level: nat,
    pub span: u64,
    pub body_span: u64,
    pub page_no: nat,
    pub children: Seq<HNode>,
}

pub open spec fn node_model(n: HeadingNode) -> HNode
    decreases n,
{
    HNode {
        title: n.title@,
        level: n.level as nat,
        span: n.span,
        body_span: n.body_span,
        page_no: n.page_no as nat,
        children: nodes_model(n.children@),
    }
}

pub open spec fn nodes_model(ns: Seq<HeadingNode>) -> Seq<HNode>
    decreases ns,
{
    if ns.len() == 0 {
        Seq::empty()
    } else {
        seq![node_model(ns[0])] + nodes_model(ns.drop_first())
    }
}

pub open spec fn leaf_model(h: Heading) -> HNode {
    HNode {
        title: h.title@,
        level: h.level as nat,
        span: h.span,
        body_span: h.body_span,
        page_no: h.page_no as nat,
        children: Seq::empty(),
    }
}

proof fn lemma_nodes_model_index(ns: Seq<HeadingNode>, i: int)
    requires
        0 <= i < ns.len(),
    ensures
        nodes_model(ns).len() == ns.len(),
        nodes_model(ns)[i] == node_model(ns[i]),
    decreases ns.len(),
{
    lemma_nodes_model_len(ns);
    if i == 0 {
    } else {
        lemma_nodes_model_index(ns.drop_first(), i - 1);
        assert(ns.drop_first()[i - 1] == ns[i]);
    }
}

proof fn lemma_nodes_model_len(ns: Seq<HeadingNode>)
    ensures
        nodes_model(ns).len() == ns.len(),
    decreases ns.len(),
{
    if ns.len() > 0 {
        lemma_nodes_model_len(ns.drop_first());
    }
}

proof fn lemma_nodes_model_push(ns: Seq<HeadingNode>, x: HeadingNode)
    ensures
        nodes_model(ns.push(x)) == nodes_model(ns).push(node_model(x)),
    decreases ns.len(),
{
    if ns.len() == 0 {
        assert(ns.push(x)[0] == x);
        assert(ns.push(x).drop_first() =~= Seq::<HeadingNode>::empty());
        assert(nodes_model(Seq::<HeadingNode>::empty()) == Seq::<HNode>::empty());
        assert(ns =~= Seq::<HeadingNode>::empty());
        assert(nodes_model(ns.push(x)) =~= nodes_model(ns).push(node_model(x)));
    } else {
        assert(ns.push(x).drop_first() =~= ns.drop_first().push(x));
        lemma_nodes_model_push(ns.drop_first(), x);
        assert(ns.push(x)[0] == ns[0]);
        assert(nodes_model(ns.push(x)) =~= nodes_model(ns).push(node_model(x)));
    }
}

proof fn lemma_nodes_model_drop_last(ns: Seq<HeadingNode>)
    requires
        ns.len() > 0,
    ensures
        nodes_model(ns.drop_last()) == nodes_model(ns).drop_last(),
        nodes_model(ns).last() == node_model(ns.last()),
{
    lemma_nodes_model_len(ns);
    lemma_nodes_model_len(ns.drop_last());
    assert forall|i: int| 0 <= i < ns.len() - 1 implies nodes_model(ns.drop_last())[i]
        == nodes_model(ns).drop_last()[i] by {
        lemma_nodes_model_index(ns.drop_last(), i);
        lemma_nodes_model_index(ns, i);
        assert(ns.drop_last()[i] == ns[i]);
    }
    assert(nodes_model(ns.drop_last()) =~= nodes_model(ns).drop_last());
    lemma_nodes_model_index(ns, ns.len() - 1);
}

/// Whether the rightmost node of `tree` is one more bookmarked heading can
/// descend through: it must be shallower than the topmost skipped heading
/// (when one is pending) and shallower than the leaf.
pub open spec fn spec_descends(tree: Seq<HNode>, leaf_level: nat, skip: Option<nat>) -> bool {
    tree.len() > 0 && (match skip {
        Some(l) => tree.last().level < l,
        None => true,
    }) && tree.last().level < leaf_level
}

/// Inserting a bookmarked heading: descend along the rightmost spine while
/// the nodes there are shallower than both the leaf and the topmost skipped
/// ancestor, then add the leaf there.
pub open spec fn spec_insert(tree: Seq<HNode>, leaf: HNode, skip: Option<nat>) -> Seq<HNode>
    decreases tree,
{
    if spec_descends(tree, leaf.level, skip) {
        tree.update(
            tree.len() - 1,
            HNode {
                title: tree.last().title,
                level: tree.last().level,
                span: tree.last().span,
                body_span: tree.last().body_span,
                page_no: tree.last().page_no,
                children: spec_insert(tree.last().children, leaf, skip),
            },
        )
    } else {
        tree.push(leaf)
    }
}

/// Building the whole outline tree: bookmarked headings are inserted, and of
/// skipped headings only the topmost level since the last bookmarked one is
/// remembered, so a later bookmarked heading never nests under a skipped
/// ancestor's sibling.
pub open spec fn spec_build(hs: Seq<Heading>, tree: Seq<HNode>, skip: Option<nat>) -> Seq<HNode>
    decreases hs.len(),
{
    if hs.len() == 0 {
        tree
    } else {
        let h = hs[0];
        if h.bookmarked {
            spec_build(hs.drop_first(), spec_insert(tree, leaf_model(h), skip), None)
        } else if (match skip {
            Some(l) => (h.level as nat) < l,
            None => true,
        }) {
            spec_build(hs.drop_first(), tree, Some(h.level as nat))
        } else {
            spec_build(hs.drop_first(), tree, skip)
        }
    }
}

pub open spec fn spec_outline(hs: Seq<Heading>) -> Seq<HNode> {
    spec_build(hs, Seq::empty(), None)
}

fn insert_leaf(tree: &mut Vec<HeadingNode>, leaf: HeadingNode, skip: &Option<usize>)
    ensures
        nodes_model(final(tree)@) == spec_insert(
            nodes_model(old(tree)@),
            node_model(leaf),
            (match *skip {
                Some(l) => Some(l as nat),
                None => None,
            }),
        ),
    decreases old(tree)@,
{
    let ghost told = tree@;
    let ghost m = nodes_model(told);
    let ghost skipm: Option<nat> = match *skip {
        Some(l) => Some(l as nat),
        None => None,
    };
    let n = tree.len();
    let mut descend = false;
    if n > 0 {
        proof {
            lemma_nodes_model_drop_last(told);
        }
        let last_level = tree[n - 1].level;
        descend = (match skip {
            Some(l) => last_level < *l,
            None => true,
        }) && last_level < leaf.level;
    }
    proof {
        if n == 0 {
            lemma_nodes_model_len(told);
        }
        assert(descend == spec_descends(m, node_model(leaf).level, skipm));
    }
    if descend {
        let mut node = match tree.pop() {
            Some(x) => x,
            None => {
                proof {
                    assert(false);
                }
                HeadingNode {
                    title: String::new(),
                    level: 0,
                    bookmarked: false,
                    span: 0,
                    body_span: 0,
                    page_no: 0,
                    children: Vec::new(),
                }
            },
        };
        proof {
            assert(node == told.last());
            assert(decreases_to!(told => told[told.len() - 1]));
            assert(decreases_to!(told[told.len() - 1] => told[told.len() - 1].children));
            assert(decreases_to!(told[told.len() - 1].children => told[told.len()
                - 1].children@));
            assert(decreases_to!(told => node.children@));
        }
        insert_leaf(&mut node.children, leaf, skip);
        tree.push(node);
        proof {
            lemma_nodes_model_drop_last(told);
            assert(tree@ =~= told.drop_last().push(tree@.last()));
            lemma_nodes_model_push(told.drop_last(), tree@.last());
            assert(node_model(tree@.last()) == HNode {
                title: m.last().title,
                level: m.last().level,
                span: m.last().span,
                body_span: m.last().body_span,
                page_no: m.last().page_no,
                children: spec_insert(m.last().children, node_model(leaf), skipm),
            });
            lemma_nodes_model_len(told);
            assert(nodes_model(tree@) =~= spec_insert(m, node_model(leaf), skipm));
        }
    } else {
        proof {
            lemma_nodes_model_push(told, leaf);
        }
        tree.push(leaf);
        proof {
            assert(nodes_model(tree@) =~= spec_insert(m, node_model(leaf), skipm));
        }
    }
}

/// Builds the outline tree of a document's headings, or nothing when no
/// heading is bookmarked.
pub fn get_outline(headings: &Vec<Heading>) -> (r: Option<Vec<HeadingNode>>)
    ensures
        (match r {
            Some(t) => nodes_model(t@) == spec_outline(headings@) && spec_outline(
                headings@,
            ).len() > 0,
            None => spec_outline(headings@).len() == 0,
        }),
{
    let mut tree: Vec<HeadingNode> = Vec::new();
    let mut skip: Option<usize> = None;
    let n = headings.len();
    let mut i: usize = 0;
    proof {
        assert(headings@.skip(0) =~= headings@);
        lemma_nodes_model_len(tree@);
        assert(nodes_model(tree@) =~= Seq::<HNode>::empty());
    }
    while i < n
        invariant
            0 <= i <= n,
            n == headings@.len(),
            spec_outline(headings@) == spec_build(
                headings@.skip(i as int),
                nodes_model(tree@),
                (match skip {
                    Some(l) => Some(l as nat),
                    None => None,
                }),
            ),
        decreases n - i,
    {
        let ghost suffix = headings@.skip(i as int);
        proof {
            assert(suffix[0] == headings@[i as int]);
            assert(suffix.drop_first() =~= headings@.skip(i as int + 1));
        }
        let h = &headings[i];
        if h.bookmarked {
            let leaf = HeadingNode {
                title: h.title.clone(),
                level: h.level,
                bookmarked: h.bookmarked,
                span: h.span,
                body_span: h.body_span,
                page_no: h.page_no,
                children: Vec::new(),
            };
            proof {
                lemma_nodes_model_len(leaf.children@);
                assert(node_model(leaf) == leaf_model(headings@[i as int]));
            }
            insert_leaf(&mut tree, leaf, &skip);
            skip = None;
            proof {
                lemma_nodes_model_len(tree@);
            }
        } else {
            let lower = match &skip {
                Some(l) => h.level < *l,
                None => true,
            };
            if lower {
                skip = Some(h.level);
            }
        }
        i = i + 1;
    }
    proof {
        assert(headings@.skip(n as int) =~= Seq::<Heading>::empty());
    }
    if tree.len() == 0 {
        proof {
            lemma_nodes_model_len(tree@);
        }
        None
    } else {
        proof {
            lemma_nodes_model_len(tree@);
        }
        Some(tree)
    }
}

} // verus!

verus! {

/// One chapter of a compiled outline: its title, whether any pages belong
/// to it (so a split artifact exists for it), and its sub-chapters.
#[derive(Debug)]
pub struct OutlineChapter {
    pub title: String,
    pub has_content: bool,
    pub children: Vec<OutlineChapter>,
}

/// An outline chapter, as mathematics.
pub struct OcModel {
    pub title: Seq<char>,
    pub has_content: bool,
    pub children: Seq<OcModel>,
}

pub open spec fn oc_model(c: OutlineChapter) -> OcModel
    decreases c,
{
    OcModel { title: c.title@, has_content: c.has_content, children: ocs_model(c.children@) }
}

pub open spec fn ocs_model(cs: Seq<OutlineChapter>) -> Seq<OcModel>
    decreases cs,
{
    if cs.len() == 0 {
        Seq::empty()
    } else {
        seq![oc_model(cs[0])] + ocs_model(cs.drop_first())
    }
}

proof fn lemma_ocs_index(cs: Seq<OutlineChapter>, i: int)
    requires
        0 <= i < cs.len(),
    ensures
        ocs_model(cs).len() == cs.len(),
        ocs_model(cs)[i] == oc_model(cs[i]),
    decreases cs.len(),
{
    lemma_ocs_len(cs);
    if i > 0 {
        lemma_ocs_index(cs.drop_first(), i - 1);
        assert(cs.drop_first()[i - 1] == cs[i]);
    }
}

proof fn lemma_ocs_len(cs: Seq<OutlineChapter>)
    ensures
        ocs_model(cs).len() == cs.len(),
    decreases cs.len(),
{
    if cs.len() > 0 {
        lemma_ocs_len(cs.drop_first());
    }
}

/// A produced summary entry, as mathematics: an inferred chapter or a
/// separator line.
pub enum InferOut {
    Chap {
        title: Seq<char>,
        link: Option<Seq<char>>,
        section: Option<Seq<char>>,
        sub: Seq<InferOut>,
    },
    Sep,
}

pub open spec fn infer_out_model(e: BookMetaElem) -> InferOut
    decreases e,
{
    match e {
        BookMetaElem::Chapter { title, link, sub, section } => InferOut::Chap {
            title: crate::meta::spec_evaluate(title),
            link: crate::meta::opt_str_model(link),
            section: crate::meta::opt_str_model(section),
            sub: infer_outs_model(sub@),
        },
        _ => InferOut::Sep,
    }
}

pub open spec fn infer_outs_model(es: Seq<BookMetaElem>) -> Seq<InferOut>
    decreases es,
{
    if es.len() == 0 {
        Seq::empty()
    } else {
        seq![infer_out_model(es[0])] + infer_outs_model(es.drop_first())
    }
}

proof fn lemma_infer_outs_snoc(es: Seq<BookMetaElem>, e: BookMetaElem)
    ensures
        infer_outs_model(es.push(e)) == infer_outs_model(es).push(infer_out_model(e)),
    decreases es.len(),
{
    if es.len() == 0 {
        assert(es.push(e)[0] == e);
        assert(es.push(e).drop_first() =~= Seq::<BookMetaElem>::empty());
        assert(infer_outs_model(Seq::<BookMetaElem>::empty()) == Seq::<InferOut>::empty());
        assert(infer_outs_model(es.push(e)) =~= infer_outs_model(es).push(infer_out_model(e)));
    } else {
        assert(es.push(e).drop_first() =~= es.drop_first().push(e));
        lemma_infer_outs_snoc(es.drop_first(), e);
        assert(es.push(e)[0] == es[0]);
        assert(infer_outs_model(es.push(e)) =~= infer_outs_model(es).push(infer_out_model(e)));
    }
}

/// How many content chunks a subtree carries (each takes one number).
pub open spec fn spec_cc_one(item: OcModel) -> nat
    decreases item,
{
    (if item.has_content {
        1nat
    } else {
        0nat
    }) + spec_cc_list(item.children)
}

pub open spec fn spec_cc_list(items: Seq<OcModel>) -> nat
    decreases items,
{
    if items.len() == 0 {
        0
    } else {
        spec_cc_one(items[0]) + spec_cc_list(items.drop_first())
    }
}

/// The section number of the `ord`-th child under `prefix`.
pub open spec fn spec_child_section(prefix: Seq<char>, ord: u64) -> Seq<char> {
    if prefix.len() == 0 {
        spec_dec_seq(ord)
    } else {
        prefix + seq!['.'] + spec_dec_seq(ord)
    }
}

/// Inferring one chapter: a chapter with content takes the next artifact
/// number as its link, then its children are numbered under its section.
pub open spec fn spec_infer_one(item: OcModel, counter: nat, sec: Seq<char>) -> (InferOut, nat)
    decreases item,
{
    let link = if item.has_content {
        Some(spec_dec_seq(counter as u64) + ".typ"@)
    } else {
        None
    };
    let c1 = if item.has_content {
        counter + 1
    } else {
        counter
    };
    let sc = spec_infer_list(item.children, c1, sec, 0);
    (InferOut::Chap { title: item.title, link, section: Some(sec), sub: sc.0 }, sc.1)
}

/// Inferring a sibling list: children are numbered one, two, three under
/// their parent's section, and the artifact counter threads left to right
/// through the whole tree.
pub open spec fn spec_infer_list(items: Seq<OcModel>, counter: nat, prefix: Seq<char>, ord0: u64)
    -> (Seq<InferOut>, nat)
    decreases items,
{
    if items.len() == 0 {
        (Seq::empty(), counter)
    } else {
        let sec = spec_child_section(prefix, (ord0 + 1) as u64);
        let ec = spec_infer_one(items[0], counter, sec);
        let rest = spec_infer_list(items.drop_first(), ec.1, prefix, (ord0 + 1) as u64);
        (seq![ec.0] + rest.0, rest.1)
    }
}

proof fn lemma_infer_one_count(item: OcModel, counter: nat, sec: Seq<char>)
    ensures
        spec_infer_one(item, counter, sec).1 == counter + spec_cc_one(item),
    decreases item,
{
    let c1 = if item.has_content {
        counter + 1
    } else {
        counter
    };
    lemma_infer_list_count(item.children, c1, sec, 0);
}

proof fn lemma_infer_list_count(items: Seq<OcModel>, counter: nat, prefix: Seq<char>, ord0: u64)
    ensures
        spec_infer_list(items, counter, prefix, ord0).1 == counter + spec_cc_list(items),
    decreases items,
{
    if items.len() > 0 {
        let sec = spec_child_section(prefix, (ord0 + 1) as u64);
        lemma_infer_one_count(items[0], counter, sec);
        lemma_infer_list_count(
            items.drop_first(),
            spec_infer_one(items[0], counter, sec).1,
            prefix,
            (ord0 + 1) as u64,
        );
    }
}

proof fn lemma_infer_outs_is_map(es: Seq<BookMetaElem>)
    ensures
        infer_outs_model(es) == es.map_values(|e: BookMetaElem| infer_out_model(e)),
    decreases es.len(),
{
    if es.len() == 0 {
        assert(infer_outs_model(es) =~= es.map_values(|e: BookMetaElem| infer_out_model(e)));
    } else {
        lemma_infer_outs_is_map(es.drop_first());
        assert(infer_outs_model(es) =~= es.map_values(|e: BookMetaElem| infer_out_model(e)));
    }
}

#[verifier::rlimit(100)]
fn infer_list(
    items: &Vec<OutlineChapter>,
    counter: u64,
    prefix: &String,
    out: &mut Vec<BookMetaElem>,
) -> (c2: u64)
    requires
        counter + spec_cc_list(ocs_model(items@)) <= u64::MAX,
    ensures
        final(out)@.map_values(|e: BookMetaElem| infer_out_model(e)) == old(out)@.map_values(
            |e: BookMetaElem| infer_out_model(e),
        ) + spec_infer_list(ocs_model(items@), counter as nat, prefix@, 0).0,
        c2 as nat == spec_infer_list(ocs_model(items@), counter as nat, prefix@, 0).1,
    decreases items@,
{
    let ghost f = |e: BookMetaElem| infer_out_model(e);
    let ghost mall = ocs_model(items@);
    let ghost base = out@.map_values(f);
    let ghost target = spec_infer_list(mall, counter as nat, prefix@, 0);
    let n = items.len();
    let mut i: usize = 0;
    let mut cnt = counter;
    proof {
        lemma_ocs_len(items@);
        assert(mall.skip(0) =~= mall);
        assert(out@.map_values(f) =~= base);
    }
    while i < n
        invariant
            0 <= i <= n,
            n == items@.len(),
            mall == ocs_model(items@),
            mall.len() == n,
            target == spec_infer_list(mall, counter as nat, prefix@, 0),
            counter + spec_cc_list(mall) <= u64::MAX,
            f == (|e: BookMetaElem| infer_out_model(e)),
            base.len() <= out@.map_values(f).len(),
            out@.map_values(f).take(base.len() as int) == base,
            target.0 == out@.map_values(f).skip(base.len() as int) + spec_infer_list(
                mall.skip(i as int),
                cnt as nat,
                prefix@,
                i as u64,
            ).0,
            target.1 == spec_infer_list(mall.skip(i as int), cnt as nat, prefix@, i as u64).1,
        decreases n - i,
    {
        let ghost suffix = mall.skip(i as int);
        proof {
            lemma_ocs_index(items@, i as int);
            assert(suffix[0] == mall[i as int]);
            assert(suffix.drop_first() =~= mall.skip(i as int + 1));
            lemma_infer_list_count(suffix, cnt as nat, prefix@, i as u64);
            lemma_infer_list_count(mall, counter as nat, prefix@, 0);
        }
        let item = &items[i];
        let ord: u64 = (i as u64) + 1;
        // The section number of this chapter.
        let sec: String = if prefix.as_str().unicode_len() == 0 {
            u64_to_decimal(ord)
        } else {
            let mut t = prefix.clone();
            crate::strutil::push_char(&mut t, '.');
            let d = u64_to_decimal(ord);
            append_str(&mut t, d.as_str());
            proof {
                assert(t@ =~= prefix@ + seq!['.'] + spec_dec_seq(ord));
            }
            t
        };
        let ghost ec = spec_infer_one(suffix[0], cnt as nat, sec@);
        proof {
            lemma_infer_one_count(suffix[0], cnt as nat, sec@);
            assert(spec_cc_one(suffix[0]) + spec_cc_list(suffix.drop_first()) == spec_cc_list(
                suffix,
            ));
        }
        // A chapter with content takes the next artifact number as its link.
        let link: Option<String> = if item.has_content {
            let mut l = u64_to_decimal(cnt);
            append_str(&mut l, ".typ");
            proof {
                assert(l@ =~= spec_dec_seq(cnt) + ".typ"@);
            }
            Some(l)
        } else {
            None
        };
        let ghost c1 = if item.has_content {
            cnt as nat + 1
        } else {
            cnt as nat
        };
        if item.has_content {
            cnt = cnt + 1;
        }
        // Number the children under this chapter's section.
        let mut subs: Vec<BookMetaElem> = Vec::new();
        proof {
            assert(decreases_to!(items@ => items@[i as int]));
            assert(decreases_to!(items@[i as int] => items@[i as int].children));
            assert(decreases_to!(items@[i as int].children => items@[i as int].children@));
            assert(decreases_to!(items@ => item.children@));
            assert(oc_model(items@[i as int]).children == ocs_model(item.children@));
            assert(spec_cc_one(suffix[0]) == (if suffix[0].has_content {
                1nat
            } else {
                0nat
            }) + spec_cc_list(ocs_model(item.children@)));
        }
        let c_after = infer_list(&item.children, cnt, &sec, &mut subs);
        cnt = c_after;
        let elem = BookMetaElem::Chapter {
            title: BookMetaContent::PlainText { content: item.title.clone() },
            link,
            sub: subs,
            section: Some(sec),
        };
        proof {
            lemma_infer_outs_is_map(elem->Chapter_sub@);
            assert(infer_out_model(elem) == ec.0);
        }
        out.push(elem);
        proof {
            assert(out@.map_values(f) =~= out@.drop_last().map_values(f) + seq![
                infer_out_model(out@.last()),
            ]);
            assert(out@.map_values(f).take(base.len() as int) =~= base);
            assert(out@.map_values(f).skip(base.len() as int) =~= out@.drop_last().map_values(
                f,
            ).skip(base.len() as int) + seq![ec.0]);
            assert(target.0 =~= out@.map_values(f).skip(base.len() as int) + spec_infer_list(
                mall.skip(i as int + 1),
                cnt as nat,
                prefix@,
                (i + 1) as u64,
            ).0);
            assert((i as u64) + 1 == (i + 1) as u64);
        }
        i = i + 1;
    }
    proof {
        assert(mall.skip(n as int) =~= Seq::<OcModel>::empty());
        assert(out@.map_values(f) =~= base + out@.map_values(f).skip(base.len() as int));
    }
    cnt
}

/// Infers the book's summary from a compiled outline: when prefix pages
/// exist they become a preface chapter and a separator, and every outline
/// chapter gets a dotted section number and, when it has content of its own,
/// a link to the next split artifact.
pub fn infer_book_elems(prefix_exists: bool, chapters: &Vec<OutlineChapter>) -> (r: Vec<
    BookMetaElem,
>)
    requires
        (if prefix_exists {
            1nat
        } else {
            0nat
        }) + spec_cc_list(ocs_model(chapters@)) <= u64::MAX,
    ensures
        r@.map_values(|e: BookMetaElem| infer_out_model(e)) == spec_infer_book(
            prefix_exists,
            ocs_model(chapters@),
        ),
{
    proof {
        reveal_strlit("Preface");
        reveal_strlit("pre.typ");
    }
    let ghost f = |e: BookMetaElem| infer_out_model(e);
    let ghost pre_models: Seq<InferOut> = if prefix_exists {
        seq![
            InferOut::Chap {
                title: "Preface"@,
                link: Some("pre.typ"@),
                section: None,
                sub: Seq::empty(),
            },
            InferOut::Sep,
        ]
    } else {
        Seq::<InferOut>::empty()
    };
    let mut out: Vec<BookMetaElem> = Vec::new();
    let counter: u64 = if prefix_exists {
        let pre = BookMetaElem::Chapter {
            title: BookMetaContent::PlainText { content: string_of("Preface") },
            link: Some(string_of("pre.typ")),
            sub: Vec::new(),
            section: None,
        };
        proof {
            assert(infer_outs_model(Seq::<BookMetaElem>::empty()) == Seq::<InferOut>::empty());
            assert(pre->Chapter_sub@ =~= Seq::<BookMetaElem>::empty());
        }
        out.push(pre);
        out.push(BookMetaElem::Separator);
        proof {
            assert(out@.map_values(f) =~= pre_models);
        }
        1
    } else {
        proof {
            assert(out@.map_values(f) =~= pre_models);
        }
        0
    };
    let empty_prefix = String::new();
    let c2 = infer_list(chapters, counter, &empty_prefix, &mut out);
    proof {
        assert(empty_prefix@ =~= Seq::<char>::empty());
        assert(out@.map_values(f) =~= pre_models + spec_infer_list(
            ocs_model(chapters@),
            counter as nat,
            Seq::empty(),
            0,
        ).0);
        assert(out@.map_values(f) =~= spec_infer_book(prefix_exists, ocs_model(chapters@)));
    }
    out
}

/// The inferred summary as a whole: the optional preface and separator,
/// then the numbered chapters.
pub open spec fn spec_infer_book(prefix_exists: bool, items: Seq<OcModel>) -> Seq<InferOut> {
    (if prefix_exists {
        seq![
            InferOut::Chap {
                title: "Preface"@,
                link: Some("pre.typ"@),
                section: None,
                sub: Seq::empty(),
            },
            InferOut::Sep,
        ]
    } else {
        Seq::<InferOut>::empty()
    }) + spec_infer_list(items, if prefix_exists {
        1nat
    } else {
        0nat
    }, Seq::empty(), 0).0
}

} // verus!

verus! {

/// The machine-readable outline of one compiled document.
#[derive(Debug)]
pub struct Outline {
    pub items: Vec<OutlineItem>,
}

/// One outline entry: plain-text title, the interned location handle in hex
/// form, the page the heading sits on, and the nested entries.
#[derive(Debug)]
pub struct OutlineItem {
    pub title: String,
    pub span: Option<String>,
    pub page_no: Option<usize>,
    pub children: Vec<OutlineItem>,
}

/// An outline entry, as mathematics.
pub struct ItemModel {
    pub title: Seq<char>,
    pub span: Option<Seq<char>>,
    pub page_no: Option<nat>,
    pub children: Seq<ItemModel>,
}

pub open spec fn item_model(it: OutlineItem) -> ItemModel
    decreases it,
{
    ItemModel {
        title: it.title@,
        span: crate::meta::opt_str_model(it.span),
        page_no: match it.page_no {
            Some(p) => Some(p as nat),
            None => None,
        },
        children: items_model(it.children@),
    }
}

pub open spec fn items_model(its: Seq<OutlineItem>) -> Seq<ItemModel>
    decreases its,
{
    if its.len() == 0 {
        Seq::empty()
    } else {
        seq![item_model(its[0])] + items_model(its.drop_first())
    }
}

/// The location a heading is interned under: its own handle, or its body's
/// when the heading's is detached (zero).
pub open spec fn spec_effective_span(n: HNode) -> u64 {
    if n.span != 0 {
        n.span
    } else {
        n.body_span
    }
}

/// How many headings a subtree holds (each takes at most one interner slot).
pub open spec fn spec_hnode_count(n: HNode) -> nat
    decreases n,
{
    1 + spec_hnodes_count(n.children)
}

pub open spec fn spec_hnodes_count(ns: Seq<HNode>) -> nat
    decreases ns,
{
    if ns.len() == 0 {
        0
    } else {
        spec_hnode_count(ns[0]) + spec_hnodes_count(ns.drop_first())
    }
}

/// Converting one heading node: the children first, then this heading's
/// effective location is interned and rendered in hex; the title is trimmed.
pub open spec fn spec_outline_node(m: crate::interner::InternerView, n: HNode) -> (
    crate::interner::InternerView,
    ItemModel,
)
    decreases n,
{
    let mk = spec_outline_nodes(m, n.children);
    let mi = crate::interner::spec_intern(mk.0, spec_effective_span(n));
    (
        mi.0,
        ItemModel {
            title: crate::strutil::spec_trim(n.title),
            span: Some(crate::interner::spec_hex_seq(mi.1.spec_u64())),
            page_no: Some(n.page_no),
            children: mk.1,
        },
    )
}

pub open spec fn spec_outline_nodes(m: crate::interner::InternerView, ns: Seq<HNode>) -> (
    crate::interner::InternerView,
    Seq<ItemModel>,
)
    decreases ns,
{
    if ns.len() == 0 {
        (m, Seq::empty())
    } else {
        let first = spec_outline_node(m, ns[0]);
        let rest = spec_outline_nodes(first.0, ns.drop_first());
        (rest.0, seq![first.1] + rest.1)
    }
}

proof fn lemma_outline_node_growth(m: crate::interner::InternerView, n: HNode)
    ensures
        spec_outline_node(m, n).0.slots.len() <= m.slots.len() + spec_hnode_count(n),
        spec_outline_node(m, n).0.lifetime == m.lifetime,
    decreases n,
{
    lemma_outline_nodes_growth(m, n.children);
}

proof fn lemma_outline_nodes_growth(m: crate::interner::InternerView, ns: Seq<HNode>)
    ensures
        spec_outline_nodes(m, ns).0.slots.len() <= m.slots.len() + spec_hnodes_count(ns),
        spec_outline_nodes(m, ns).0.lifetime == m.lifetime,
    decreases ns,
{
    if ns.len() > 0 {
        lemma_outline_node_growth(m, ns[0]);
        lemma_outline_nodes_growth(spec_outline_node(m, ns[0]).0, ns.drop_first());
    }
}

fn outline_node(
    interner: &mut crate::interner::SpanInternerImpl,
    n: &HeadingNode,
    out: &mut Vec<OutlineItem>,
)
    requires
        crate::interner::view_inv(old(interner)@),
        old(interner)@.slots.len() + spec_hnode_count(node_model(*n)) <= u32::MAX as nat,
    ensures
        crate::interner::view_inv(final(interner)@),
        (final(interner)@, final(out)@.map_values(|t: OutlineItem| item_model(t))) == ({
            let r = spec_outline_node(old(interner)@, node_model(*n));
            (r.0, old(out)@.map_values(|t: OutlineItem| item_model(t)).push(r.1))
        }),
    decreases *n,
{
    let ghost f = |t: OutlineItem| item_model(t);
    let ghost m0 = interner@;
    let ghost nm = node_model(*n);
    let mut kids: Vec<OutlineItem> = Vec::new();
    let nk = n.children.len();
    let mut i: usize = 0;
    proof {
        lemma_nodes_model_len(n.children@);
        assert(nm.children.skip(0) =~= nm.children);
        assert(kids@.map_values(f) =~= Seq::<ItemModel>::empty());
        lemma_outline_nodes_growth(m0, nm.children);
    }
    while i < nk
        invariant
            0 <= i <= nk,
            nk == n.children@.len(),
            nm == node_model(*n),
            nm.children.len() == nk,
            crate::interner::view_inv(interner@),
            m0.slots.len() + spec_hnode_count(nm) <= u32::MAX as nat,
            ({
                let total = spec_outline_nodes(m0, nm.children);
                let sofar = spec_outline_nodes(interner@, nm.children.skip(i as int));
                &&& total.0 == sofar.0
                &&& total.1 == kids@.map_values(|t: OutlineItem| item_model(t)) + sofar.1
                &&& interner@.slots.len() + spec_hnodes_count(nm.children.skip(i as int)) + 1
                    <= m0.slots.len() + spec_hnode_count(nm)
            }),
        decreases nk - i,
    {
        let ghost suffix = nm.children.skip(i as int);
        proof {
            lemma_nodes_model_index(n.children@, i as int);
            assert(suffix[0] == nm.children[i as int]);
            assert(suffix.drop_first() =~= nm.children.skip(i as int + 1));
            assert(decreases_to!(*n => n.children));
            assert(decreases_to!(n.children => n.children@));
            assert(decreases_to!(n.children@ => n.children@[i as int]));
            lemma_outline_node_growth(interner@, suffix[0]);
        }
        outline_node(interner, &n.children[i], &mut kids);
        i = i + 1;
    }
    proof {
        assert(nm.children.skip(nk as int) =~= Seq::<HNode>::empty());
    }
    let sp = if n.span != 0 {
        n.span
    } else {
        n.body_span
    };
    let id = interner.intern(sp);
    let item = OutlineItem {
        title: crate::strutil::trim(n.title.as_str()),
        span: Some(id.to_hex()),
        page_no: Some(n.page_no),
        children: kids,
    };
    proof {
        lemma_items_model_is_map(item.children@);
        assert(item_model(item) == spec_outline_node(m0, nm).1);
    }
    out.push(item);
    proof {
        assert(out@.map_values(f) =~= old(out)@.map_values(f).push(item_model(out@.last())));
    }
}

proof fn lemma_items_model_is_map(its: Seq<OutlineItem>)
    ensures
        items_model(its) == its.map_values(|t: OutlineItem| item_model(t)),
    decreases its.len(),
{
    if its.len() == 0 {
        assert(items_model(its) =~= its.map_values(|t: OutlineItem| item_model(t)));
    } else {
        lemma_items_model_is_map(its.drop_first());
        assert(items_model(its) =~= its.map_values(|t: OutlineItem| item_model(t)));
    }
}

/// Converts an outline tree into its machine-readable entries, interning
/// every heading's effective location, children before their parent.
pub fn outline(interner: &mut crate::interner::SpanInternerImpl, tree: &Vec<HeadingNode>) -> (r:
    Outline)
    requires
        crate::interner::view_inv(old(interner)@),
        old(interner)@.slots.len() + spec_hnodes_count(nodes_model(tree@)) <= u32::MAX as nat,
    ensures
        crate::interner::view_inv(final(interner)@),
        (final(interner)@, items_model(r.items@)) == spec_outline_nodes(
            old(interner)@,
            nodes_model(tree@),
        ),
{
    let ghost f = |t: OutlineItem| item_model(t);
    let ghost m0 = interner@;
    let ghost ms = nodes_model(tree@);
    let mut items: Vec<OutlineItem> = Vec::new();
    let n = tree.len();
    let mut i: usize = 0;
    proof {
        lemma_nodes_model_len(tree@);
        assert(ms.skip(0) =~= ms);
        assert(items@.map_values(f) =~= Seq::<ItemModel>::empty());
        lemma_outline_nodes_growth(m0, ms);
    }
    while i < n
        invariant
            0 <= i <= n,
            n == tree@.len(),
            ms == nodes_model(tree@),
            ms.len() == n,
            crate::interner::view_inv(interner@),
            ({
                let total = spec_outline_nodes(m0, ms);
                let sofar = spec_outline_nodes(interner@, ms.skip(i as int));
                &&& total.0 == sofar.0
                &&& total.1 == items@.map_values(|t: OutlineItem| item_model(t)) + sofar.1
                &&& interner@.slots.len() + spec_hnodes_count(ms.skip(i as int)) <= u32::MAX as nat
            }),
        decreases n - i,
    {
        let ghost suffix = ms.skip(i as int);
        proof {
            lemma_nodes_model_index(tree@, i as int);
            assert(suffix[0] == ms[i as int]);
            assert(suffix.drop_first() =~= ms.skip(i as int + 1));
            lemma_outline_node_growth(interner@, suffix[0]);
        }
        outline_node(interner, &tree[i], &mut items);
        i = i + 1;
    }
    proof {
        assert(ms.skip(n as int) =~= Seq::<HNode>::empty());
        lemma_items_model_is_map(items@);
    }
    Outline { items }
}

} // verus!
