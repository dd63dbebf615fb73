//! The traversal engine: walks the HTML tree depth-first, drives the tag
//! rendering rules and the text renderer while tracking the stack of open
//! ancestor elements, and finally normalizes the accumulated output.

use vstd::prelude::*;
use vstd::string::StringExecFns;
use crate::dom::{HtmlAttribute, HtmlNode, NodeData};
use crate::rules::{skips, enter_emission, exit_emission, class_is_exec, class_has_token_exec};
use crate::text::{trim_text, trim_text_start, trim_text_end, str_eq};
use crate::normalize::{normalize, normalize_spec};

verus! {

/// A context element: the tag name and attributes of an open ancestor,
/// created when the element is entered and discarded when it is exited.
pub struct HtmlElement {
    pub tag: String,
    pub attrs: Vec<HtmlAttribute>,
}

impl Clone for HtmlElement {
    fn clone(&self) -> (r: Self)
        ensures
            r.tag@ == self.tag@,
            r.attrs@ == self.attrs@,
    {
        let attrs = self.attrs.clone();
        proof {
            assert(attrs@ =~= self.attrs@);
        }
        HtmlElement { tag: self.tag.clone(), attrs }
    }
}

/// The outcome of the enter rule: go on into the children, or prune the
/// element's whole subtree.
pub enum StartTagOutcome {
    Continue,
    Skip,
}

/// Some element on the context stack has tag name `tag`.
pub open spec fn stack_has(stack: Seq<HtmlElement>, tag: Seq<char>) -> bool {
    exists|i: int| 0 <= i < stack.len() && stack[i].tag@ == tag
}

/// Pushing an element onto the stack adds exactly its own tag name to the
/// names present.
pub proof fn lemma_stack_has_push(stack: Seq<HtmlElement>, e: HtmlElement, tag: Seq<char>)
    ensures
        stack_has(stack.push(e), tag) == (stack_has(stack, tag) || e.tag@ == tag),
{
    if stack_has(stack, tag) {
        let i = choose|i: int| 0 <= i < stack.len() && stack[i].tag@ == tag;
        assert(stack.push(e)[i].tag@ == tag);
    }
    if e.tag@ == tag {
        assert(stack.push(e)[stack.len() as int].tag@ == tag);
    }
    if stack_has(stack.push(e), tag) {
        let i = choose|i: int| 0 <= i < stack.push(e).len() && stack.push(e)[i].tag@ == tag;
        if i < stack.len() {
            assert(stack[i].tag@ == tag);
        }
    }
}

/// How a text node is rendered: verbatim inside a `pre` element, otherwise
/// with line breaks and section signs trimmed from both ends.
pub open spec fn render_text(t: Seq<char>, in_pre: bool) -> Seq<char> {
    if in_pre {
        t
    } else {
        trim_text_end(trim_text_start(t))
    }
}

/// The text a node's subtree emits into the output buffer, given whether a
/// `pre` ancestor is open. This is the renderer's whole policy: non-element
/// nodes emit nothing of their own (text nodes emit their rendered text),
/// an element with an empty tag name is transparent, a skipped element
/// emits nothing at all, and any other element brackets its children's
/// emission with its enter and exit rule text.
pub open spec fn render_node(node: HtmlNode, in_pre: bool) -> Seq<char>
    decreases node, 0int,
{
    match node.data {
        NodeData::Document => render_children(node.children@, 0, in_pre),
        NodeData::Doctype => render_children(node.children@, 0, in_pre),
        NodeData::ProcessingInstruction => render_children(node.children@, 0, in_pre),
        NodeData::Comment => render_children(node.children@, 0, in_pre),
        NodeData::Text { contents } => render_text(contents@, in_pre) + render_children(
            node.children@,
            0,
            in_pre,
        ),
        NodeData::Element { tag, attrs } => {
            if tag@.len() == 0 {
                render_children(node.children@, 0, in_pre)
            } else if skips(tag@, attrs@) {
                Seq::empty()
            } else {
                enter_emission(tag@, attrs@, in_pre) + render_children(
                    node.children@,
                    0,
                    in_pre || tag@ == "pre"@,
                ) + exit_emission(tag@, attrs@, in_pre)
            }
        },
    }
}

/// The concatenated emissions of the children from index `i` on, in document
/// order.
pub open spec fn render_children(cs: Seq<HtmlNode>, i: int, in_pre: bool) -> Seq<char>
    decreases cs, cs.len() - i,
{
    if i < 0 || i >= cs.len() {
        Seq::empty()
    } else {
        render_node(cs[i], in_pre) + render_children(cs, i + 1, in_pre)
    }
}

/// Accumulates the Markdown output of one conversion run, together with the
/// stack of open ancestor elements. One writer serves exactly one run.
pub struct MarkdownWriter {
    pub current_element_stack: Vec<HtmlElement>,
    /// The Markdown output.
    pub markdown: String,
}

impl MarkdownWriter {
    /// A fresh writer: empty ancestor stack, empty output.
    pub fn new() -> (r: Self)
        ensures
            r.current_element_stack@ == Seq::<HtmlElement>::empty(),
            r.markdown@ == Seq::<char>::empty(),
    {
        MarkdownWriter { current_element_stack: Vec::new(), markdown: String::new() }
    }

    /// Whether an ancestor element named `tag` is open.
    fn is_inside(&self, tag: &str) -> (r: bool)
        ensures
            r == stack_has(self.current_element_stack@, tag@),
    {
        let mut i: usize = 0;
        while i < self.current_element_stack.len()
            invariant
                i <= self.current_element_stack@.len(),
                forall|k: int| 0 <= k < i ==> self.current_element_stack@[k].tag@ != tag@,
            decreases self.current_element_stack@.len() - i,
        {
            if str_eq(self.current_element_stack[i].tag.as_str(), tag) {
                proof {
                    assert(self.current_element_stack@[i as int].tag@ == tag@);
                }
                return true;
            }
            i = i + 1;
        }
        false
    }

    /// Appends the given string slice onto the end of the Markdown output.
    fn push_str(&mut self, s: &str)
        ensures
            final(self).markdown@ == old(self).markdown@ + s@,
            final(self).current_element_stack == old(self).current_element_stack,
    {
        self.markdown.append(s);
    }

    /// Appends a line break to the end of the Markdown output.
    fn push_newline(&mut self)
        ensures
            final(self).markdown@ == old(self).markdown@ + "\n"@,
            final(self).current_element_stack == old(self).current_element_stack,
    {
        self.push_str("\n");
    }

    /// The enter rule: emits an element's opening text, or decides that the
    /// element's whole subtree is pruned.
    fn start_tag(&mut self, tag: &HtmlElement) -> (r: StartTagOutcome)
        ensures
            final(self).current_element_stack == old(self).current_element_stack,
            skips(tag.tag@, tag.attrs@) ==> r is Skip && final(self).markdown@ == old(
                self,
            ).markdown@,
            !skips(tag.tag@, tag.attrs@) ==> r is Continue && final(self).markdown@ == old(
                self,
            ).markdown@ + enter_emission(
                tag.tag@,
                tag.attrs@,
                stack_has(old(self).current_element_stack@, "pre"@),
            ),
    {
        proof {
            crate::rules::lemma_tag_names_distinct();
        }
        let t = tag.tag.as_str();
        if str_eq(t, "head") || str_eq(t, "script") || str_eq(t, "nav") {
            return StartTagOutcome::Skip;
        }
        if str_eq(t, "h1") {
            self.push_str("\n\n# ");
            return StartTagOutcome::Continue;
        }
        if str_eq(t, "h2") {
            self.push_str("\n\n## ");
            return StartTagOutcome::Continue;
        }
        if str_eq(t, "h3") {
            self.push_str("\n\n### ");
            return StartTagOutcome::Continue;
        }
        if str_eq(t, "h4") {
            self.push_str("\n\n#### ");
            return StartTagOutcome::Continue;
        }
        if str_eq(t, "h5") {
            self.push_str("\n\n##### ");
            return StartTagOutcome::Continue;
        }
        if str_eq(t, "h6") {
            self.push_str("\n\n###### ");
            return StartTagOutcome::Continue;
        }
        if str_eq(t, "code") {
            if !self.is_inside("pre") {
                self.push_str("`");
            }
            return StartTagOutcome::Continue;
        }
        if str_eq(t, "pre") {
            if class_has_token_exec(&tag.attrs, "rust") {
                self.push_str("\n```rs\n");
            } else {
                self.push_str("\n```\n");
            }
            return StartTagOutcome::Continue;
        }
        if str_eq(t, "ul") || str_eq(t, "ol") {
            self.push_newline();
            return StartTagOutcome::Continue;
        }
        if str_eq(t, "li") {
            self.push_str("- ");
            return StartTagOutcome::Continue;
        }
        if str_eq(t, "summary") {
            if class_is_exec(&tag.attrs, "hideme") {
                return StartTagOutcome::Skip;
            }
            return StartTagOutcome::Continue;
        }
        if str_eq(t, "div") || str_eq(t, "span") {
            if class_has_token_exec(&tag.attrs, "nav-container") || class_has_token_exec(
                &tag.attrs,
                "sidebar-elems",
            ) || class_has_token_exec(&tag.attrs, "out-of-band") {
                return StartTagOutcome::Skip;
            }
            if class_is_exec(&tag.attrs, "item-name") {
                self.push_str("`");
            }
            return StartTagOutcome::Continue;
        }
        StartTagOutcome::Continue
    }

    /// The exit rule: emits an element's closing text.
    fn end_tag(&mut self, tag: &HtmlElement)
        ensures
            final(self).current_element_stack == old(self).current_element_stack,
            final(self).markdown@ == old(self).markdown@ + exit_emission(
                tag.tag@,
                tag.attrs@,
                stack_has(old(self).current_element_stack@, "pre"@),
            ),
    {
        let t = tag.tag.as_str();
        if str_eq(t, "h1") || str_eq(t, "h2") || str_eq(t, "h3") || str_eq(t, "h4") || str_eq(
            t,
            "h5",
        ) || str_eq(t, "h6") {
            self.push_str("\n\n");
            return ;
        }
        if str_eq(t, "code") {
            if !self.is_inside("pre") {
                self.push_str("`");
            }
            return ;
        }
        if str_eq(t, "pre") {
            self.push_str("\n```\n");
            return ;
        }
        if str_eq(t, "ul") || str_eq(t, "ol") {
            self.push_newline();
            return ;
        }
        if str_eq(t, "li") {
            self.push_newline();
            return ;
        }
        if str_eq(t, "div") {
            if class_is_exec(&tag.attrs, "item-name") {
                self.push_str("`: ");
            }
            return ;
        }
    }

    /// The text node renderer: appends the text verbatim inside `pre`,
    /// otherwise with line breaks and section signs trimmed from both ends.
    fn visit_text(&mut self, text: &str)
        ensures
            final(self).current_element_stack == old(self).current_element_stack,
            final(self).markdown@ == old(self).markdown@ + render_text(
                text@,
                stack_has(old(self).current_element_stack@, "pre"@),
            ),
    {
        if self.is_inside("pre") {
            self.push_str(text);
            return ;
        }
        let trimmed_text = trim_text(text);
        self.push_str(trimmed_text);
    }

    /// Walks `node`'s subtree depth-first in document order, appending what
    /// the subtree renders to the output. The context stack is left exactly
    /// as it was.
    pub fn visit_node(&mut self, node: &HtmlNode)
        ensures
            final(self).current_element_stack@ == old(self).current_element_stack@,
            final(self).markdown@ == old(self).markdown@ + render_node(
                *node,
                stack_has(old(self).current_element_stack@, "pre"@),
            ),
        decreases *node,
    {
        let ghost in_pre = stack_has(self.current_element_stack@, "pre"@);
        let mut current_element: Option<HtmlElement> = None;
        match &node.data {
            NodeData::Document => {},
            NodeData::Doctype => {},
            NodeData::ProcessingInstruction => {},
            NodeData::Comment => {},
            NodeData::Element { tag, attrs } => {
                if tag.unicode_len() != 0 {
                    let attrs_copy = attrs.clone();
                    proof {
                        assert(attrs_copy@ =~= attrs@);
                    }
                    current_element = Some(HtmlElement { tag: tag.clone(), attrs: attrs_copy });
                }
            },
            NodeData::Text { contents } => {
                self.visit_text(contents.as_str());
            },
        }
        match &current_element {
            Some(elem) => {
                match self.start_tag(elem) {
                    StartTagOutcome::Continue => {},
                    StartTagOutcome::Skip => {
                        return ;
                    },
                }
                let elem_copy = elem.clone();
                self.current_element_stack.push(elem_copy);
            },
            None => {},
        }
        let ghost base_stack = self.current_element_stack@;
        let ghost p2 = stack_has(base_stack, "pre"@);
        let ghost md_base = self.markdown@;
        proof {
            if current_element is Some {
                lemma_stack_has_push(
                    old(self).current_element_stack@,
                    base_stack.last(),
                    "pre"@,
                );
                assert(old(self).current_element_stack@.push(base_stack.last()) =~= base_stack);
            }
        }
        let mut idx: usize = 0;
        while idx < node.children.len()
            invariant
                idx <= node.children@.len(),
                self.current_element_stack@ == base_stack,
                p2 == stack_has(base_stack, "pre"@),
                self.markdown@ + render_children(node.children@, idx as int, p2) == md_base
                    + render_children(node.children@, 0, p2),
            decreases node.children@.len() - idx,
        {
            proof {
                assert(decreases_to!(*node => node.children));
                assert(decreases_to!(node.children => node.children[idx as int]));
                assert(decreases_to!(*node => node.children[idx as int]));
            }
            let ghost md_pre = self.markdown@;
            self.visit_node(&node.children[idx]);
            proof {
                assert(render_children(node.children@, idx as int, p2) == render_node(
                    node.children@[idx as int],
                    p2,
                ) + render_children(node.children@, idx + 1, p2));
                assert(self.markdown@ + render_children(node.children@, idx + 1, p2) =~= md_pre
                    + render_children(node.children@, idx as int, p2));
            }
            idx = idx + 1;
        }
        proof {
            assert(render_children(node.children@, node.children@.len() as int, p2)
                == Seq::<char>::empty());
            assert(self.markdown@ + Seq::<char>::empty() =~= self.markdown@);
            assert(self.markdown@ == md_base + render_children(node.children@, 0, p2));
        }
        match current_element {
            Some(elem) => {
                let _ = self.current_element_stack.pop();
                proof {
                    assert(self.current_element_stack@ =~= old(self).current_element_stack@);
                }
                self.end_tag(&elem);
            },
            None => {},
        }
    }

    /// Renders the tree rooted at `root_node`, appending to whatever the
    /// writer has already accumulated, and returns the normalized Markdown
    /// document.
    pub fn run(self, root_node: &HtmlNode) -> (r: String)
        ensures
            r@ == normalize_spec(
                self.markdown@ + render_node(
                    *root_node,
                    stack_has(self.current_element_stack@, "pre"@),
                ),
            ),
    {
        let mut writer = self;
        writer.visit_node(root_node);
        normalize(writer.markdown.as_str())
    }
}


/// Skip-pruning: an element that matches a skip condition contributes no
/// characters to the output, its whole subtree included, whatever its
/// descendants hold.
pub proof fn lemma_skip_prunes(node: HtmlNode, in_pre: bool)
    requires
        node.data is Element,
        node.data->Element_tag@.len() > 0,
        skips(node.data->Element_tag@, node.data->Element_attrs@),
    ensures
        render_node(node, in_pre) == Seq::<char>::empty(),
{
}

/// Pre/code interaction, first half: the text inside
/// `<pre><code>...</code></pre>` stands verbatim between the fences that the
/// `pre` element emits; the `code` element adds no backticks and the text is
/// not trimmed.
pub proof fn lemma_pre_code_text_verbatim(
    pre_node: HtmlNode,
    code_node: HtmlNode,
    text_node: HtmlNode,
    in_pre: bool,
)
    requires
        pre_node.data is Element,
        pre_node.data->Element_tag@ == "pre"@,
        pre_node.children@ == seq![code_node],
        code_node.data is Element,
        code_node.data->Element_tag@ == "code"@,
        code_node.children@ == seq![text_node],
        text_node.data is Text,
        text_node.children@.len() == 0,
    ensures
        render_node(pre_node, in_pre) == enter_emission(
            "pre"@,
            pre_node.data->Element_attrs@,
            in_pre,
        ) + text_node.data->Text_contents@ + "\n```\n"@,
{
    crate::rules::lemma_tag_names_distinct();
    lemma_fence_tag_lengths();
    let t = text_node.data->Text_contents@;
    assert(render_children(text_node.children@, 0, true) == Seq::<char>::empty());
    assert(render_node(text_node, true) =~= t);
    assert(render_children(code_node.children@, 1, true) == Seq::<char>::empty());
    assert(render_children(code_node.children@, 0, true) =~= t);
    assert(!skips("code"@, code_node.data->Element_attrs@));
    assert(enter_emission("code"@, code_node.data->Element_attrs@, true) == Seq::<char>::empty());
    assert(exit_emission("code"@, code_node.data->Element_attrs@, true) == Seq::<char>::empty());
    assert(render_node(code_node, true) =~= t);
    assert(render_children(pre_node.children@, 1, true) == Seq::<char>::empty());
    assert(render_children(pre_node.children@, 0, true) =~= t);
    assert(!skips("pre"@, pre_node.data->Element_attrs@));
    assert(exit_emission("pre"@, pre_node.data->Element_attrs@, in_pre) == "\n```\n"@);
    assert(render_node(pre_node, in_pre) =~= enter_emission(
        "pre"@,
        pre_node.data->Element_attrs@,
        in_pre,
    ) + t + "\n```\n"@);
}

/// Pre/code interaction, second half: the text inside a bare `<code>` that
/// has no `pre` ancestor is wrapped in single backticks, with line breaks
/// and section signs trimmed from its ends.
pub proof fn lemma_bare_code_wraps(code_node: HtmlNode, text_node: HtmlNode)
    requires
        code_node.data is Element,
        code_node.data->Element_tag@ == "code"@,
        code_node.children@ == seq![text_node],
        text_node.data is Text,
        text_node.children@.len() == 0,
    ensures
        render_node(code_node, false) == "`"@ + trim_text_end(
            trim_text_start(text_node.data->Text_contents@),
        ) + "`"@,
{
    crate::rules::lemma_tag_names_distinct();
    lemma_fence_tag_lengths();
    let t = trim_text_end(trim_text_start(text_node.data->Text_contents@));
    assert(render_children(text_node.children@, 0, false) == Seq::<char>::empty());
    assert(render_node(text_node, false) =~= t);
    assert(render_children(code_node.children@, 1, false) == Seq::<char>::empty());
    assert(render_children(code_node.children@, 0, false) =~= t);
    assert(!skips("code"@, code_node.data->Element_attrs@));
    assert(enter_emission("code"@, code_node.data->Element_attrs@, false) == "`"@);
    assert(exit_emission("code"@, code_node.data->Element_attrs@, false) == "`"@);
    assert(render_node(code_node, false) =~= "`"@ + t + "`"@);
}

/// The tag names `pre` and `code` are nonempty words.
proof fn lemma_fence_tag_lengths()
    ensures
        "pre"@.len() == 3,
        "code"@.len() == 4,
{
    reveal_strlit("pre");
    reveal_strlit("code");
}

} // verus!

