//! The tag rendering rules: what text an element emits when it is entered
//! and when it is exited, and which elements are skipped outright, as a
//! function of the tag name, the element's `class` attribute, and whether a
//! `pre` ancestor is open.

use vstd::prelude::*;
use crate::dom::HtmlAttribute;
use crate::text::{trim_ws_start, trim_ws_end, str_eq, str_to_chars, vec_eq_str, trim_line_start,
    trim_line_end};
use crate::lines::{split_at, split_into_pieces};

verus! {

/// The value of the first attribute named `class`, if any. Only the first
/// one is ever inspected.
pub open spec fn first_class_value(attrs: Seq<HtmlAttribute>) -> Option<Seq<char>>
    decreases attrs.len(),
{
    if attrs.len() == 0 {
        None
    } else if attrs[0].name@ == "class"@ {
        Some(attrs[0].value@)
    } else {
        first_class_value(attrs.drop_first())
    }
}

/// The element's `class` attribute equals `v` exactly.
pub open spec fn class_is(attrs: Seq<HtmlAttribute>, v: Seq<char>) -> bool {
    first_class_value(attrs) == Some(v)
}

/// The class value `v`, split on spaces with each piece trimmed of
/// whitespace, contains the token `tok`.
pub open spec fn has_class_token(v: Seq<char>, tok: Seq<char>) -> bool {
    exists|i: int|
        0 <= i < split_at(v, ' ').len() && trim_ws_end(trim_ws_start(split_at(v, ' ')[i])) == tok
}

/// The element's `class` attribute contains the token `tok`.
pub open spec fn class_has_token(attrs: Seq<HtmlAttribute>, tok: Seq<char>) -> bool {
    match first_class_value(attrs) {
        Some(v) => has_class_token(v, tok),
        None => false,
    }
}

/// A `div` or `span` whose class list names navigational chrome is pruned.
pub open spec fn chrome_classes(attrs: Seq<HtmlAttribute>) -> bool {
    class_has_token(attrs, "nav-container"@) || class_has_token(attrs, "sidebar-elems"@)
        || class_has_token(attrs, "out-of-band"@)
}

/// Whether an element is skipped entirely on entry: its whole subtree then
/// contributes nothing to the output.
pub open spec fn skips(tag: Seq<char>, attrs: Seq<HtmlAttribute>) -> bool {
    ||| tag == "head"@
    ||| tag == "script"@
    ||| tag == "nav"@
    ||| (tag == "summary"@ && class_is(attrs, "hideme"@))
    ||| ((tag == "div"@ || tag == "span"@) && chrome_classes(attrs))
}

/// The text emitted when an element is entered (before its children),
/// given whether a `pre` ancestor is on the context stack.
pub open spec fn enter_emission(tag: Seq<char>, attrs: Seq<HtmlAttribute>, in_pre: bool) -> Seq<
    char,
> {
    if tag == "h1"@ {
        "\n\n# "@
    } else if tag == "h2"@ {
        "\n\n## "@
    } else if tag == "h3"@ {
        "\n\n### "@
    } else if tag == "h4"@ {
        "\n\n#### "@
    } else if tag == "h5"@ {
        "\n\n##### "@
    } else if tag == "h6"@ {
        "\n\n###### "@
    } else if tag == "code"@ {
        if in_pre {
            Seq::empty()
        } else {
            "`"@
        }
    } else if tag == "pre"@ {
        if class_has_token(attrs, "rust"@) {
            "\n```rs\n"@
        } else {
            "\n```\n"@
        }
    } else if tag == "ul"@ || tag == "ol"@ {
        "\n"@
    } else if tag == "li"@ {
        "- "@
    } else if tag == "div"@ || tag == "span"@ {
        if class_is(attrs, "item-name"@) {
            "`"@
        } else {
            Seq::empty()
        }
    } else {
        Seq::empty()
    }
}

/// The text emitted when an element is exited (after its children), given
/// whether a `pre` ancestor is on the context stack.
pub open spec fn exit_emission(tag: Seq<char>, attrs: Seq<HtmlAttribute>, in_pre: bool) -> Seq<
    char,
> {
    if tag == "h1"@ || tag == "h2"@ || tag == "h3"@ || tag == "h4"@ || tag == "h5"@ || tag
        == "h6"@ {
        "\n\n"@
    } else if tag == "code"@ {
        if in_pre {
            Seq::empty()
        } else {
            "`"@
        }
    } else if tag == "pre"@ {
        "\n```\n"@
    } else if tag == "ul"@ || tag == "ol"@ || tag == "li"@ {
        "\n"@
    } else if tag == "div"@ {
        if class_is(attrs, "item-name"@) {
            "`: "@
        } else {
            Seq::empty()
        }
    } else {
        Seq::empty()
    }
}

/// Index of the first attribute named `class`, if any.
pub fn find_class(attrs: &Vec<HtmlAttribute>) -> (r: Option<usize>)
    ensures
        match r {
            Some(i) => i < attrs@.len() && first_class_value(attrs@) == Some(
                attrs@[i as int].value@,
            ),
            None => first_class_value(attrs@) is None,
        },
{
    let mut i: usize = 0;
    proof {
        assert(attrs@.skip(0) =~= attrs@);
    }
    while i < attrs.len()
        invariant
            i <= attrs@.len(),
            first_class_value(attrs@) == first_class_value(attrs@.skip(i as int)),
        decreases attrs@.len() - i,
    {
        let ghost tail = attrs@.skip(i as int);
        proof {
            assert(tail[0] == attrs@[i as int]);
            assert(tail.drop_first() =~= attrs@.skip(i + 1));
        }
        if str_eq(attrs[i].name.as_str(), "class") {
            return Some(i);
        }
        i = i + 1;
    }
    proof {
        assert(attrs@.skip(attrs@.len() as int) =~= Seq::<HtmlAttribute>::empty());
    }
    None
}

/// Whether the first `class` attribute's value equals `v` exactly.
pub fn class_is_exec(attrs: &Vec<HtmlAttribute>, v: &str) -> (r: bool)
    ensures
        r == class_is(attrs@, v@),
{
    match find_class(attrs) {
        Some(i) => str_eq(attrs[i].value.as_str(), v),
        None => false,
    }
}

/// Whether the first `class` attribute's value, split on spaces with each
/// piece trimmed, contains the token `tok`.
pub fn class_has_token_exec(attrs: &Vec<HtmlAttribute>, tok: &str) -> (r: bool)
    ensures
        r == class_has_token(attrs@, tok@),
{
    let i = match find_class(attrs) {
        Some(i) => i,
        None => {
            return false;
        },
    };
    let chars = str_to_chars(attrs[i].value.as_str());
    let pieces = split_into_pieces(&chars, ' ');
    let mut j: usize = 0;
    while j < pieces.len()
        invariant
            first_class_value(attrs@) == Some(chars@),
            pieces.deep_view() == split_at(chars@, ' '),
            j <= split_at(chars@, ' ').len(),
            forall|k: int|
                0 <= k < j ==> trim_ws_end(trim_ws_start(split_at(chars@, ' ')[k])) != tok@,
        decreases split_at(chars@, ' ').len() - j,
    {
        let trimmed = trim_line_end(&trim_line_start(&pieces[j]));
        proof {
            assert(pieces@[j as int]@ == split_at(chars@, ' ')[j as int]);
        }
        if vec_eq_str(&trimmed, tok) {
            proof {
                assert(trim_ws_end(trim_ws_start(split_at(chars@, ' ')[j as int])) == tok@);
                assert(has_class_token(chars@, tok@));
            }
            return true;
        }
        j = j + 1;
    }
    false
}


/// The tag names the rule tables distinguish are pairwise distinct words.
pub proof fn lemma_tag_names_distinct()
    ensures
        "summary"@ != "div"@,
        "summary"@ != "span"@,
        "h1"@ != "summary"@,
        "h1"@ != "div"@,
        "h1"@ != "span"@,
        "h2"@ != "summary"@,
        "h2"@ != "div"@,
        "h2"@ != "span"@,
        "h3"@ != "summary"@,
        "h3"@ != "div"@,
        "h3"@ != "span"@,
        "h4"@ != "summary"@,
        "h4"@ != "div"@,
        "h4"@ != "span"@,
        "h5"@ != "summary"@,
        "h5"@ != "div"@,
        "h5"@ != "span"@,
        "h6"@ != "summary"@,
        "h6"@ != "div"@,
        "h6"@ != "span"@,
        "code"@ != "summary"@,
        "code"@ != "div"@,
        "code"@ != "span"@,
        "pre"@ != "summary"@,
        "pre"@ != "div"@,
        "pre"@ != "span"@,
        "ul"@ != "summary"@,
        "ul"@ != "div"@,
        "ul"@ != "span"@,
        "ol"@ != "summary"@,
        "ol"@ != "div"@,
        "ol"@ != "span"@,
        "li"@ != "summary"@,
        "li"@ != "div"@,
        "li"@ != "span"@,
        "code"@ != "head"@,
        "pre"@ != "head"@,
        "code"@ != "script"@,
        "pre"@ != "script"@,
        "code"@ != "nav"@,
        "pre"@ != "nav"@,
        "code"@ != "h1"@,
        "pre"@ != "h1"@,
        "code"@ != "h2"@,
        "pre"@ != "h2"@,
        "code"@ != "h3"@,
        "pre"@ != "h3"@,
        "code"@ != "h4"@,
        "pre"@ != "h4"@,
        "code"@ != "h5"@,
        "pre"@ != "h5"@,
        "code"@ != "h6"@,
        "pre"@ != "h6"@,
        "pre"@ != "code"@,
{
    reveal_strlit("head");
    reveal_strlit("script");
    reveal_strlit("nav");
    reveal_strlit("h1");
    reveal_strlit("h2");
    reveal_strlit("h3");
    reveal_strlit("h4");
    reveal_strlit("h5");
    reveal_strlit("h6");
    reveal_strlit("code");
    reveal_strlit("pre");
    reveal_strlit("ul");
    reveal_strlit("ol");
    reveal_strlit("li");
    reveal_strlit("summary");
    reveal_strlit("div");
    reveal_strlit("span");
    assert("head"@.len() == 4);
    assert("script"@.len() == 6);
    assert("nav"@.len() == 3);
    assert("h1"@.len() == 2);
    assert("h2"@.len() == 2);
    assert("h3"@.len() == 2);
    assert("h4"@.len() == 2);
    assert("h5"@.len() == 2);
    assert("h6"@.len() == 2);
    assert("code"@.len() == 4);
    assert("pre"@.len() == 3);
    assert("ul"@.len() == 2);
    assert("ol"@.len() == 2);
    assert("li"@.len() == 2);
    assert("summary"@.len() == 7);
    assert("div"@.len() == 3);
    assert("span"@.len() == 4);
    assert("code"@[0] == 'c');
    assert("div"@[0] == 'd');
    assert("head"@[0] == 'h');
    assert("nav"@[0] == 'n');
    assert("pre"@[0] == 'p');
    assert("span"@[0] == 's');
}

} // verus!

