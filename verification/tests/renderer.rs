use rustdoc_to_markdown::dom::{HtmlAttribute, HtmlNode, NodeData};
use rustdoc_to_markdown::markdown_writer::MarkdownWriter;

fn el(tag: &str, attrs: Vec<(&str, &str)>, children: Vec<HtmlNode>) -> HtmlNode {
    HtmlNode {
        data: NodeData::Element {
            tag: String::from(tag),
            attrs: attrs
                .into_iter()
                .map(|(n, v)| HtmlAttribute { name: String::from(n), value: String::from(v) })
                .collect(),
        },
        children,
    }
}

fn text(s: &str) -> HtmlNode {
    HtmlNode { data: NodeData::Text { contents: String::from(s) }, children: Vec::new() }
}

fn doc(children: Vec<HtmlNode>) -> HtmlNode {
    HtmlNode { data: NodeData::Document, children }
}

fn render(root: HtmlNode) -> String {
    MarkdownWriter::new().run(&root)
}

#[test]
fn h1_title() {
    let root = doc(vec![el("h1", vec![], vec![text("Title")])]);
    assert_eq!(render(root), "# Title");
}

#[test]
fn all_heading_levels() {
    let root = doc(vec![
        el("h2", vec![], vec![text("a")]),
        el("h3", vec![], vec![text("b")]),
        el("h4", vec![], vec![text("c")]),
        el("h5", vec![], vec![text("d")]),
        el("h6", vec![], vec![text("e")]),
    ]);
    assert_eq!(render(root), "## a\n\n### b\n\n#### c\n\n##### d\n\n###### e");
}

#[test]
fn rust_code_block() {
    let root = doc(vec![el(
        "pre",
        vec![("class", "rust")],
        vec![el("code", vec![], vec![text("fn a(){}")])],
    )]);
    assert_eq!(render(root), "```rs\nfn a(){}\n```");
}

#[test]
fn plain_code_block_keeps_whitespace() {
    let root = doc(vec![el(
        "pre",
        vec![],
        vec![el("code", vec![], vec![text("line one\n    indented")])],
    )]);
    assert_eq!(render(root), "```\nline one\n    indented\n```");
}

#[test]
fn rust_class_is_token_matched() {
    let fenced = doc(vec![el(
        "pre",
        vec![("class", "example-wrap rust")],
        vec![el("code", vec![], vec![text("x")])],
    )]);
    assert_eq!(render(fenced), "```rs\nx\n```");
    let plain = doc(vec![el(
        "pre",
        vec![("class", "rustacean")],
        vec![el("code", vec![], vec![text("x")])],
    )]);
    assert_eq!(render(plain), "```\nx\n```");
}

#[test]
fn unordered_list() {
    let root = doc(vec![el(
        "ul",
        vec![],
        vec![
            el("li", vec![], vec![text("one")]),
            el("li", vec![], vec![text("two")]),
        ],
    )]);
    assert_eq!(render(root), "- one\n- two");
}

#[test]
fn ordered_list_renders_like_unordered() {
    let root = doc(vec![el(
        "ol",
        vec![],
        vec![
            el("li", vec![], vec![text("first")]),
            el("li", vec![], vec![text("second")]),
        ],
    )]);
    assert_eq!(render(root), "- first\n- second");
}

#[test]
fn item_name_div() {
    let root = doc(vec![
        el("div", vec![("class", "item-name")], vec![text("foo")]),
        text("bar"),
    ]);
    assert_eq!(render(root), "`foo`: bar");
}

#[test]
fn nav_subtree_fully_absent() {
    let root = doc(vec![
        el("nav", vec![], vec![text("skip me")]),
        el("p", vec![], vec![text("keep me")]),
    ]);
    assert_eq!(render(root), "keep me");
}

#[test]
fn head_and_script_pruned() {
    let root = doc(vec![
        el("head", vec![], vec![el("h1", vec![], vec![text("hidden")])]),
        el("script", vec![], vec![text("alert(1)")]),
        text("visible"),
    ]);
    assert_eq!(render(root), "visible");
}

#[test]
fn sidebar_div_pruned_by_class_token() {
    let root = doc(vec![
        el("div", vec![("class", "some sidebar-elems more")], vec![text("chrome")]),
        text("content"),
    ]);
    assert_eq!(render(root), "content");
}

#[test]
fn nav_container_and_out_of_band_pruned() {
    let root = doc(vec![
        el("span", vec![("class", "nav-container")], vec![text("a")]),
        el("div", vec![("class", "out-of-band")], vec![text("b")]),
        text("c"),
    ]);
    assert_eq!(render(root), "c");
}

#[test]
fn hidden_summary_pruned() {
    let root = doc(vec![
        el("summary", vec![("class", "hideme")], vec![text("hidden")]),
        el("summary", vec![], vec![text("shown")]),
    ]);
    assert_eq!(render(root), "shown");
}

#[test]
fn blank_lines_between_paragraphs_collapse() {
    let root = doc(vec![text("para one\n   \n \n\t\n \npara two")]);
    assert_eq!(render(root), "para one\n\npara two");
}

#[test]
fn bare_code_is_backticked_and_trimmed() {
    let root = doc(vec![el("code", vec![], vec![text("\nfn x()\n")])]);
    assert_eq!(render(root), "`fn x()`");
}

#[test]
fn code_under_pre_gets_no_backticks() {
    let out = render(doc(vec![el(
        "pre",
        vec![],
        vec![el("code", vec![], vec![text("a `b` c")])],
    )]));
    assert_eq!(out, "```\na `b` c\n```");
}

#[test]
fn section_sign_stripped_from_text_ends() {
    let root = doc(vec![el("h2", vec![], vec![text("\u{a7}Anchored\u{a7}")])]);
    assert_eq!(render(root), "## Anchored");
}

#[test]
fn empty_tag_name_is_transparent() {
    let root = doc(vec![HtmlNode {
        data: NodeData::Element { tag: String::new(), attrs: Vec::new() },
        children: vec![text("inner")],
    }]);
    assert_eq!(render(root), "inner");
}

#[test]
fn non_element_nodes_are_transparent() {
    let root = doc(vec![
        HtmlNode { data: NodeData::Doctype, children: vec![] },
        HtmlNode { data: NodeData::Comment, children: vec![] },
        HtmlNode { data: NodeData::ProcessingInstruction, children: vec![] },
        text("body"),
    ]);
    assert_eq!(render(root), "body");
}

#[test]
fn only_first_class_attribute_counts() {
    let root = doc(vec![
        el(
            "div",
            vec![("class", "plain"), ("class", "item-name")],
            vec![text("foo")],
        ),
        text("bar"),
    ]);
    assert_eq!(render(root), "foobar");
}

#[test]
fn unknown_tags_are_transparent_containers() {
    let root = doc(vec![el(
        "section",
        vec![],
        vec![el("em", vec![], vec![text("word")])],
    )]);
    assert_eq!(render(root), "word");
}

#[test]
fn item_name_exact_match_only() {
    let root = doc(vec![
        el("div", vec![("class", "item-names")], vec![text("foo")]),
        text("bar"),
    ]);
    assert_eq!(render(root), "foobar");
}
