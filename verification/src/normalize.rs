//! The output normalizer: the post-processing pass over the accumulated
//! text. It empties every whitespace-only line, collapses each run of blank
//! lines down to a single blank line (so no three line breaks ever stand in a
//! row), and trims whitespace from both ends of the whole document.

use vstd::prelude::*;
use crate::text::{all_ws, is_ws_char, trim_ws_start, trim_ws_end, ws_char, str_to_chars,
    chars_to_string, trim_line_start, trim_line_end};
use crate::lines::{split_lines, join_lines, lemma_join_lines_cat, split_into_pieces, sep_free,
    lemma_split_at_sep_free, lemma_split_join};

verus! {

/// A line as the first normalization step leaves it: a whitespace-only line
/// is emptied, any other line is kept as it is.
pub open spec fn cleared_line(l: Seq<char>) -> Seq<char> {
    if all_ws(l) {
        Seq::empty()
    } else {
        l
    }
}

/// Every whitespace-only line emptied.
pub open spec fn blank_cleared(ls: Seq<Seq<char>>) -> Seq<Seq<char>> {
    ls.map_values(|l: Seq<char>| cleared_line(l))
}

/// Runs of consecutive empty lines collapsed to a single empty line.
pub open spec fn squeeze_blanks(ls: Seq<Seq<char>>) -> Seq<Seq<char>>
    decreases ls.len(),
{
    if ls.len() == 0 {
        Seq::empty()
    } else if ls.len() >= 2 && ls[0].len() == 0 && ls[1].len() == 0 {
        squeeze_blanks(ls.drop_first())
    } else {
        seq![ls[0]] + squeeze_blanks(ls.drop_first())
    }
}

/// An empty first line removed.
pub open spec fn drop_leading_blank(ls: Seq<Seq<char>>) -> Seq<Seq<char>> {
    if ls.len() > 0 && ls[0].len() == 0 {
        ls.drop_first()
    } else {
        ls
    }
}

/// An empty last line removed.
pub open spec fn drop_trailing_blank(ls: Seq<Seq<char>>) -> Seq<Seq<char>> {
    if ls.len() > 0 && ls.last().len() == 0 {
        ls.drop_last()
    } else {
        ls
    }
}

/// Whitespace trimmed from the start of the first line and from the end of
/// the last line: together with the removal of empty edge lines this trims
/// the whole document.
pub open spec fn trim_edge_lines(ls: Seq<Seq<char>>) -> Seq<Seq<char>> {
    if ls.len() == 0 {
        ls
    } else if ls.len() == 1 {
        seq![trim_ws_end(trim_ws_start(ls[0]))]
    } else {
        seq![trim_ws_start(ls[0])] + ls.subrange(1, ls.len() - 1) + seq![trim_ws_end(ls.last())]
    }
}

/// The lines of the normalized document.
pub open spec fn normal_lines(s: Seq<char>) -> Seq<Seq<char>> {
    trim_edge_lines(
        drop_trailing_blank(drop_leading_blank(squeeze_blanks(blank_cleared(split_lines(s))))),
    )
}

/// What normalization produces from `s`: whitespace-only lines emptied, blank
/// runs collapsed so that at most one blank line separates blocks, and the
/// whole document trimmed of leading and trailing whitespace.
pub open spec fn normalize_spec(s: Seq<char>) -> Seq<char> {
    join_lines(normal_lines(s))
}

/// Whether every character of the line is whitespace.
fn all_ws_vec(l: &Vec<char>) -> (r: bool)
    ensures
        r == all_ws(l@),
{
    let mut i: usize = 0;
    while i < l.len()
        invariant
            i <= l@.len(),
            forall|k: int| 0 <= k < i ==> is_ws_char(l@[k]),
        decreases l@.len() - i,
    {
        if !ws_char(l[i]) {
            return false;
        }
        i = i + 1;
    }
    true
}

/// Appends all characters of `l` to `out`.
fn push_all(out: &mut Vec<char>, l: &Vec<char>)
    ensures
        final(out)@ == old(out)@ + l@,
{
    let mut j: usize = 0;
    while j < l.len()
        invariant
            j <= l@.len(),
            out@ == old(out)@ + l@.take(j as int),
        decreases l@.len() - j,
    {
        out.push(l[j]);
        j = j + 1;
        proof {
            assert(old(out)@ + l@.take(j as int) =~= (old(out)@ + l@.take(j - 1)).push(
                l@[j - 1],
            ));
        }
    }
    proof {
        assert(l@.take(l@.len() as int) =~= l@);
    }
}

/// Every whitespace-only line replaced by an empty one.
fn clear_blank_lines(ls: &Vec<Vec<char>>) -> (r: Vec<Vec<char>>)
    ensures
        r.deep_view() == blank_cleared(ls.deep_view()),
{
    let mut out: Vec<Vec<char>> = Vec::new();
    let mut i: usize = 0;
    proof {
        assert(out.deep_view() =~~= blank_cleared(ls.deep_view().take(0)));
    }
    while i < ls.len()
        invariant
            i <= ls@.len(),
            out.deep_view() == blank_cleared(ls.deep_view().take(i as int)),
        decreases ls@.len() - i,
    {
        let ghost old_out = out.deep_view();
        if all_ws_vec(&ls[i]) {
            let empty_line: Vec<char> = Vec::new();
            out.push(empty_line);
        } else {
            let kept = ls[i].clone();
            proof {
                assert(kept@ =~= ls@[i as int]@);
            }
            out.push(kept);
        }
        proof {
            assert(ls.deep_view()[i as int] == ls@[i as int]@);
            assert(out.deep_view() =~~= old_out.push(cleared_line(ls.deep_view()[i as int])));
            assert(blank_cleared(ls.deep_view().take(i + 1)) =~~= old_out.push(
                cleared_line(ls.deep_view()[i as int]),
            ));
        }
        i = i + 1;
    }
    proof {
        assert(ls.deep_view().take(ls@.len() as int) =~= ls.deep_view());
    }
    out
}

/// Runs of consecutive empty lines collapsed to a single empty line.
fn squeeze_blank_lines(ls: &Vec<Vec<char>>) -> (r: Vec<Vec<char>>)
    ensures
        r.deep_view() == squeeze_blanks(ls.deep_view()),
{
    let mut out: Vec<Vec<char>> = Vec::new();
    let mut i: usize = 0;
    proof {
        assert(ls.deep_view().skip(0) =~= ls.deep_view());
        assert(out.deep_view() + squeeze_blanks(ls.deep_view()) =~= squeeze_blanks(
            ls.deep_view(),
        ));
    }
    while i < ls.len()
        invariant
            i <= ls@.len(),
            squeeze_blanks(ls.deep_view()) == out.deep_view() + squeeze_blanks(
                ls.deep_view().skip(i as int),
            ),
        decreases ls@.len() - i,
    {
        let ghost tail = ls.deep_view().skip(i as int);
        let ghost old_out = out.deep_view();
        proof {
            assert(tail[0] == ls.deep_view()[i as int]);
            assert(tail.drop_first() =~= ls.deep_view().skip(i + 1));
            assert(ls.deep_view()[i as int] == ls@[i as int]@);
            if i + 1 < ls@.len() {
                assert(tail[1] == ls.deep_view()[i + 1]);
                assert(ls.deep_view()[i + 1] == ls@[i + 1]@);
            }
        }
        if ls[i].len() == 0 && i + 1 < ls.len() && ls[i + 1].len() == 0 {
            proof {
                assert(squeeze_blanks(tail) == squeeze_blanks(ls.deep_view().skip(i + 1)));
            }
        } else {
            let kept = ls[i].clone();
            proof {
                assert(kept@ =~= ls@[i as int]@);
            }
            out.push(kept);
            proof {
                assert(squeeze_blanks(tail) == seq![tail[0]] + squeeze_blanks(
                    ls.deep_view().skip(i + 1),
                ));
                assert(out.deep_view() =~~= old_out.push(tail[0]));
                assert(old_out + (seq![tail[0]] + squeeze_blanks(ls.deep_view().skip(i + 1)))
                    =~= out.deep_view() + squeeze_blanks(ls.deep_view().skip(i + 1)));
            }
        }
        i = i + 1;
    }
    proof {
        assert(ls.deep_view().skip(ls@.len() as int) =~= Seq::<Seq<char>>::empty());
        assert(out.deep_view() + squeeze_blanks(Seq::<Seq<char>>::empty()) =~= out.deep_view());
    }
    out
}

/// An empty first line and an empty last line removed.
fn drop_edge_blanks(ls: Vec<Vec<char>>) -> (r: Vec<Vec<char>>)
    ensures
        r.deep_view() == drop_trailing_blank(drop_leading_blank(ls.deep_view())),
{
    let ghost orig = ls.deep_view();
    let mut v = ls;
    if v.len() > 0 && v[0].len() == 0 {
        v.remove(0);
        proof {
            assert(orig[0].len() == 0);
            assert(v.deep_view() =~~= orig.drop_first());
        }
    }
    proof {
        assert(v.deep_view() == drop_leading_blank(orig));
    }
    let ghost mid = v.deep_view();
    if v.len() > 0 && v[v.len() - 1].len() == 0 {
        v.pop();
        proof {
            assert(mid.last().len() == 0);
            assert(v.deep_view() =~~= mid.drop_last());
        }
    }
    proof {
        assert(v.deep_view() == drop_trailing_blank(mid));
    }
    v
}

/// Whitespace trimmed from the start of the first line and the end of the
/// last line.
fn trim_edges(ls: Vec<Vec<char>>) -> (r: Vec<Vec<char>>)
    ensures
        r.deep_view() == trim_edge_lines(ls.deep_view()),
{
    let ghost orig = ls.deep_view();
    if ls.len() == 0 {
        return ls;
    }
    if ls.len() == 1 {
        let t = trim_line_end(&trim_line_start(&ls[0]));
        let mut out: Vec<Vec<char>> = Vec::new();
        out.push(t);
        proof {
            assert(orig[0] == ls@[0]@);
            assert(out.deep_view() =~~= trim_edge_lines(orig));
        }
        return out;
    }
    let n = ls.len();
    let tfirst = trim_line_start(&ls[0]);
    let tlast = trim_line_end(&ls[n - 1]);
    let mut out: Vec<Vec<char>> = Vec::new();
    out.push(tfirst);
    proof {
        assert(orig[0] == ls@[0]@);
        assert(out.deep_view() =~~= seq![trim_ws_start(ls.deep_view()[0])]
            + ls.deep_view().subrange(1, 1));
    }
    let mut i: usize = 1;
    while i < n - 1
        invariant
            n == ls@.len(),
            n >= 2,
            1 <= i <= n - 1,
            out.deep_view() == seq![trim_ws_start(ls.deep_view()[0])] + ls.deep_view().subrange(
                1,
                i as int,
            ),
        decreases n - i,
    {
        let ghost old_out = out.deep_view();
        let kept = ls[i].clone();
        proof {
            assert(kept@ =~= ls@[i as int]@);
        }
        out.push(kept);
        proof {
            assert(ls.deep_view()[i as int] == ls@[i as int]@);
            assert(out.deep_view() =~~= old_out.push(ls.deep_view()[i as int]));
            assert(old_out.push(ls.deep_view()[i as int]) =~= seq![
                trim_ws_start(ls.deep_view()[0]),
            ] + ls.deep_view().subrange(1, i + 1));
        }
        i = i + 1;
    }
    let ghost old_out = out.deep_view();
    out.push(tlast);
    proof {
        assert(orig[0] == ls@[0]@);
        assert(orig.last() == ls@[n - 1]@);
        assert(out.deep_view() =~~= old_out.push(trim_ws_end(orig.last())));
        assert(out.deep_view() =~~= trim_edge_lines(orig));
    }
    out
}

/// The lines joined with a single `'\n'` between consecutive lines.
fn join_with_newlines(ls: &Vec<Vec<char>>) -> (r: Vec<char>)
    ensures
        r@ == join_lines(ls.deep_view()),
{
    let mut out: Vec<char> = Vec::new();
    if ls.len() == 0 {
        return out;
    }
    push_all(&mut out, &ls[0]);
    proof {
        assert(ls.deep_view()[0] == ls@[0]@);
        assert(out@ =~= ls.deep_view()[0]);
        assert(ls.deep_view().take(1) =~= seq![ls.deep_view()[0]]);
    }
    let mut i: usize = 1;
    while i < ls.len()
        invariant
            1 <= i <= ls@.len(),
            out@ == join_lines(ls.deep_view().take(i as int)),
        decreases ls@.len() - i,
    {
        let ghost old_out = out@;
        out.push('\n');
        push_all(&mut out, &ls[i]);
        proof {
            assert(ls.deep_view()[i as int] == ls@[i as int]@);
            lemma_join_lines_cat(ls.deep_view().take(i as int), seq![ls.deep_view()[i as int]]);
            assert(ls.deep_view().take(i as int) + seq![ls.deep_view()[i as int]]
                =~= ls.deep_view().take(i + 1));
            assert(out@ =~= old_out + seq!['\n'] + ls.deep_view()[i as int]);
        }
        i = i + 1;
    }
    proof {
        assert(ls.deep_view().take(ls@.len() as int) =~= ls.deep_view());
    }
    out
}

/// Normalizes the accumulated Markdown text: empties whitespace-only lines,
/// collapses runs of blank lines to a single blank line, and trims leading
/// and trailing whitespace from the whole document.
pub fn normalize(text: &str) -> (r: String)
    ensures
        r@ == normalize_spec(text@),
{
    let chars = str_to_chars(text);
    let ls = split_into_pieces(&chars, '\n');
    let cleared = clear_blank_lines(&ls);
    let squeezed = squeeze_blank_lines(&cleared);
    let dropped = drop_edge_blanks(squeezed);
    let trimmed = trim_edges(dropped);
    let joined = join_with_newlines(&trimmed);
    chars_to_string(&joined)
}


/// A line as the normalizer admits it: if it is whitespace-only, it is empty.
pub open spec fn line_ok(l: Seq<char>) -> bool {
    all_ws(l) ==> l.len() == 0
}

/// A line of normalized output: free of line breaks, and not
/// whitespace-only unless empty.
pub open spec fn good_line(l: Seq<char>) -> bool {
    sep_free(l, '\n') && line_ok(l)
}

/// No two consecutive lines are both empty.
pub open spec fn no_two_blanks(ls: Seq<Seq<char>>) -> bool {
    forall|i: int| 0 <= i < ls.len() - 1 ==> !((#[trigger] ls[i]).len() == 0 && ls[i + 1].len() == 0)
}

/// No three consecutive line breaks stand anywhere in `s`.
pub open spec fn no_triple_newline(s: Seq<char>) -> bool {
    forall|i: int|
        0 <= i && i + 2 < s.len() ==> !((#[trigger] s[i]) == '\n' && s[i + 1] == '\n' && s[i + 2]
            == '\n')
}

/// Trimming leading whitespace from a line that holds a non-whitespace
/// character leaves it nonempty, starting with that kind of character, and
/// keeps it break-free.
proof fn lemma_trim_ws_start_props(l: Seq<char>)
    ensures
        !all_ws(l) ==> trim_ws_start(l).len() > 0 && !is_ws_char(trim_ws_start(l)[0]) && !all_ws(
            trim_ws_start(l),
        ),
        sep_free(l, '\n') ==> sep_free(trim_ws_start(l), '\n'),
    decreases l.len(),
{
    if l.len() > 0 && is_ws_char(l[0]) {
        lemma_trim_ws_start_props(l.drop_first());
        if !all_ws(l) {
            let w = choose|k: int| 0 <= k < l.len() && !is_ws_char(l[k]);
            assert(!is_ws_char(l.drop_first()[w - 1]));
            assert(!all_ws(l.drop_first()));
        }
        if sep_free(l, '\n') {
            assert forall|k: int| 0 <= k < l.drop_first().len() implies l.drop_first()[k]
                != '\n' by {
                assert(l.drop_first()[k] == l[k + 1]);
            }
        }
    }
}

/// The counterpart for trailing whitespace; trimming from the end is taking
/// a prefix, so the first characters stay what they were.
proof fn lemma_trim_ws_end_props(l: Seq<char>)
    ensures
        !all_ws(l) ==> trim_ws_end(l).len() > 0 && !is_ws_char(trim_ws_end(l).last()) && !all_ws(
            trim_ws_end(l),
        ),
        trim_ws_end(l).len() <= l.len(),
        trim_ws_end(l) == l.take(trim_ws_end(l).len() as int),
        sep_free(l, '\n') ==> sep_free(trim_ws_end(l), '\n'),
    decreases l.len(),
{
    if l.len() > 0 && is_ws_char(l.last()) {
        lemma_trim_ws_end_props(l.drop_last());
        if !all_ws(l) {
            let w = choose|k: int| 0 <= k < l.len() && !is_ws_char(l[k]);
            assert(!is_ws_char(l.drop_last()[w]));
            assert(!all_ws(l.drop_last()));
        }
        if sep_free(l, '\n') {
            assert forall|k: int| 0 <= k < l.drop_last().len() implies l.drop_last()[k]
                != '\n' by {
                assert(l.drop_last()[k] == l[k]);
            }
        }
        assert(l.drop_last().take(trim_ws_end(l).len() as int) =~= l.take(
            trim_ws_end(l).len() as int,
        ));
    } else {
        assert(l.take(l.len() as int) =~= l);
    }
}

/// Collapsing blank runs keeps every line that was good.
proof fn lemma_squeeze_pointwise(ls: Seq<Seq<char>>)
    requires
        forall|i: int| 0 <= i < ls.len() ==> good_line(#[trigger] ls[i]),
    ensures
        forall|i: int|
            0 <= i < squeeze_blanks(ls).len() ==> good_line(#[trigger] squeeze_blanks(ls)[i]),
    decreases ls.len(),
{
    if ls.len() == 0 {
    } else {
        assert forall|i: int| 0 <= i < ls.drop_first().len() implies good_line(
            #[trigger] ls.drop_first()[i],
        ) by {
            assert(good_line(ls[i + 1]));
        }
        lemma_squeeze_pointwise(ls.drop_first());
        if ls.len() >= 2 && ls[0].len() == 0 && ls[1].len() == 0 {
            assert forall|i: int| 0 <= i < squeeze_blanks(ls).len() implies good_line(
                #[trigger] squeeze_blanks(ls)[i],
            ) by {
                assert(squeeze_blanks(ls)[i] == squeeze_blanks(ls.drop_first())[i]);
            }
        } else {
            assert forall|i: int| 0 <= i < squeeze_blanks(ls).len() implies good_line(
                #[trigger] squeeze_blanks(ls)[i],
            ) by {
                if i == 0 {
                    assert(squeeze_blanks(ls)[0] == ls[0]);
                    assert(good_line(ls[0]));
                } else {
                    assert(squeeze_blanks(ls)[i] == squeeze_blanks(ls.drop_first())[i - 1]);
                }
            }
        }
    }
}

/// Collapsing blank runs keeps the last line, keeps a nonempty first line,
/// and leaves at least one line of a nonempty list.
proof fn lemma_squeeze_ends(ls: Seq<Seq<char>>)
    requires
        ls.len() > 0,
    ensures
        squeeze_blanks(ls).len() > 0,
        squeeze_blanks(ls).last() == ls.last(),
        ls[0].len() > 0 ==> squeeze_blanks(ls)[0] == ls[0],
    decreases ls.len(),
{
    if ls.len() >= 2 && ls[0].len() == 0 && ls[1].len() == 0 {
        lemma_squeeze_ends(ls.drop_first());
        assert(ls.drop_first().last() == ls.last());
    } else if ls.len() == 1 {
        assert(ls.drop_first() =~= Seq::<Seq<char>>::empty());
        assert(squeeze_blanks(Seq::<Seq<char>>::empty()) == Seq::<Seq<char>>::empty());
        assert(squeeze_blanks(ls) == seq![ls[0]] + Seq::<Seq<char>>::empty());
        assert(seq![ls[0]] + Seq::<Seq<char>>::empty() =~= seq![ls[0]]);
    } else {
        lemma_squeeze_ends(ls.drop_first());
        assert(ls.drop_first().last() == ls.last());
        assert(squeeze_blanks(ls).last() == squeeze_blanks(ls.drop_first()).last());
        assert(squeeze_blanks(ls)[0] == ls[0]);
    }
}

/// After collapsing, no two empty lines stand together.
proof fn lemma_squeeze_no_two(ls: Seq<Seq<char>>)
    ensures
        no_two_blanks(squeeze_blanks(ls)),
    decreases ls.len(),
{
    if ls.len() == 0 {
    } else if ls.len() >= 2 && ls[0].len() == 0 && ls[1].len() == 0 {
        lemma_squeeze_no_two(ls.drop_first());
    } else {
        lemma_squeeze_no_two(ls.drop_first());
        let q = squeeze_blanks(ls.drop_first());
        assert forall|i: int|
            0 <= i < squeeze_blanks(ls).len() - 1 implies !((#[trigger] squeeze_blanks(ls)[i]).len()
            == 0 && (squeeze_blanks(ls)[i + 1]).len() == 0) by {
            if i == 0 {
                if ls[0].len() == 0 {
                    assert(ls.len() >= 2 && ls[1].len() > 0);
                    lemma_squeeze_ends(ls.drop_first());
                    assert(q[0] == ls.drop_first()[0]);
                    assert(squeeze_blanks(ls)[1] == q[0]);
                }
            } else {
                assert(squeeze_blanks(ls)[i] == q[i - 1]);
                assert(squeeze_blanks(ls)[i + 1] == q[i]);
            }
        }
    }
}

/// A list with no two adjacent empty lines is left unchanged by collapsing.
proof fn lemma_squeeze_identity(ls: Seq<Seq<char>>)
    requires
        no_two_blanks(ls),
    ensures
        squeeze_blanks(ls) == ls,
    decreases ls.len(),
{
    if ls.len() == 0 {
        assert(squeeze_blanks(ls) =~= ls);
    } else {
        assert(!(ls.len() >= 2 && ls[0].len() == 0 && ls[1].len() == 0));
        assert forall|i: int|
            0 <= i < ls.drop_first().len() - 1 implies !((#[trigger] ls.drop_first()[i]).len() == 0
            && (ls.drop_first()[i + 1]).len() == 0) by {
            assert(ls.drop_first()[i] == ls[i + 1]);
            assert(ls.drop_first()[i + 1] == ls[i + 2]);
        }
        lemma_squeeze_identity(ls.drop_first());
        assert(seq![ls[0]] + ls.drop_first() =~= ls);
    }
}

/// The structural facts about the normalized document's lines: every line is
/// break-free and never whitespace-only unless empty, no two empty lines
/// stand together, and the edge lines are nonempty, beginning (respectively
/// ending) with a non-whitespace character.
pub proof fn lemma_normal_lines_props(s: Seq<char>)
    ensures
        forall|i: int| 0 <= i < normal_lines(s).len() ==> good_line(#[trigger] normal_lines(s)[i]),
        no_two_blanks(normal_lines(s)),
        normal_lines(s).len() > 0 ==> normal_lines(s)[0].len() > 0 && !is_ws_char(
            normal_lines(s)[0][0],
        ),
        normal_lines(s).len() > 0 ==> normal_lines(s).last().len() > 0 && !is_ws_char(
            normal_lines(s).last().last(),
        ),
{
    let ls0 = split_lines(s);
    let ls1 = blank_cleared(ls0);
    let ls2 = squeeze_blanks(ls1);
    let ls3 = drop_leading_blank(ls2);
    let ls4 = drop_trailing_blank(ls3);
    lemma_split_at_sep_free(s, '\n');
    assert forall|i: int| 0 <= i < ls1.len() implies good_line(#[trigger] ls1[i]) by {
        assert(ls1[i] == cleared_line(ls0[i]));
        assert(sep_free(ls0[i], '\n'));
    }
    lemma_squeeze_pointwise(ls1);
    lemma_squeeze_no_two(ls1);
    assert(ls1.len() > 0);
    lemma_squeeze_ends(ls1);
    // dropping the edges keeps goodness and adjacency, and makes the edges
    // nonempty
    assert forall|i: int| 0 <= i < ls3.len() implies good_line(#[trigger] ls3[i])
        && (i < ls3.len() - 1 ==> !(ls3[i].len() == 0 && ls3[i + 1].len() == 0)) by {
        if ls2[0].len() == 0 {
            assert(ls3[i] == ls2[i + 1]);
            if i < ls3.len() - 1 {
                assert(ls3[i + 1] == ls2[i + 2]);
            }
        }
    }
    assert(ls3.len() > 0 ==> ls3[0].len() > 0) by {
        if ls3.len() > 0 && ls2[0].len() == 0 {
            assert(ls3[0] == ls2[1]);
            assert(!(ls2[0].len() == 0 && ls2[1].len() == 0));
        }
    }
    assert forall|i: int| 0 <= i < ls4.len() implies good_line(#[trigger] ls4[i])
        && (i < ls4.len() - 1 ==> !(ls4[i].len() == 0 && ls4[i + 1].len() == 0)) by {
        assert(ls4[i] == ls3[i]);
        if i < ls4.len() - 1 {
            assert(ls4[i + 1] == ls3[i + 1]);
        }
    }
    assert(ls4.len() > 0 ==> ls4[0].len() > 0 && ls4.last().len() > 0) by {
        if ls4.len() > 0 {
            assert(ls4[0] == ls3[0]);
            if ls3.last().len() == 0 {
                assert(ls4.last() == ls3[ls3.len() - 2]);
                assert(!(ls3[ls3.len() - 2].len() == 0 && ls3[ls3.len() - 1].len() == 0));
            }
        }
    }
    // the edge trim
    let lsf = trim_edge_lines(ls4);
    if ls4.len() == 0 {
    } else if ls4.len() == 1 {
        let l = ls4[0];
        assert(good_line(l) && l.len() > 0);
        assert(!all_ws(l));
        lemma_trim_ws_start_props(l);
        let t1 = trim_ws_start(l);
        lemma_trim_ws_end_props(t1);
        let t2 = trim_ws_end(t1);
        assert(t2[0] == t1[0]);
        assert(lsf =~= seq![t2]);
        assert forall|i: int| 0 <= i < lsf.len() implies good_line(#[trigger] lsf[i]) by {
            assert(lsf[i] == t2);
        }
    } else {
        let first = ls4[0];
        let last = ls4.last();
        assert(good_line(first) && first.len() > 0 && !all_ws(first));
        assert(good_line(last) && last.len() > 0 && !all_ws(last));
        lemma_trim_ws_start_props(first);
        lemma_trim_ws_end_props(last);
        let tf = trim_ws_start(first);
        let tl = trim_ws_end(last);
        assert(lsf.len() == ls4.len());
        assert(lsf[0] == tf);
        assert(lsf.last() == tl);
        assert forall|i: int| 0 <= i < lsf.len() implies good_line(#[trigger] lsf[i])
            && (i < lsf.len() - 1 ==> !(lsf[i].len() == 0 && lsf[i + 1].len() == 0)) by {
            if 0 < i < lsf.len() - 1 {
                assert(lsf[i] == ls4[i]);
            }
            if i < lsf.len() - 1 {
                if 0 < i + 1 < lsf.len() - 1 {
                    assert(lsf[i + 1] == ls4[i + 1]);
                }
                assert(lsf[0].len() > 0 && lsf.last().len() > 0);
            }
        }
    }
}

/// What normalizing the empty document gives: the empty document.
proof fn lemma_normalize_empty()
    ensures
        normalize_spec(Seq::<char>::empty()) == Seq::<char>::empty(),
{
    let e = Seq::<char>::empty();
    assert(split_lines(e) == seq![e]);
    assert(all_ws(e));
    assert(blank_cleared(seq![e]) =~= seq![e]);
    assert(seq![e].drop_first() =~= Seq::<Seq<char>>::empty());
    assert(squeeze_blanks(Seq::<Seq<char>>::empty()) == Seq::<Seq<char>>::empty());
    assert(squeeze_blanks(seq![e]) == seq![e] + Seq::<Seq<char>>::empty());
    assert(seq![e] + Seq::<Seq<char>>::empty() =~= seq![e]);
    assert(drop_leading_blank(seq![e]) =~= Seq::<Seq<char>>::empty());
    assert(normal_lines(e) =~= Seq::<Seq<char>>::empty());
}

/// Idempotent normalization: normalizing an already-normalized document
/// changes nothing, for every input text.
pub proof fn lemma_normalize_idempotent(s: Seq<char>)
    ensures
        normalize_spec(normalize_spec(s)) == normalize_spec(s),
{
    lemma_normal_lines_props(s);
    let ll = normal_lines(s);
    let y = normalize_spec(s);
    if ll.len() == 0 {
        assert(y =~= Seq::<char>::empty());
        lemma_normalize_empty();
    } else {
        assert forall|i: int| 0 <= i < ll.len() implies sep_free(#[trigger] ll[i], '\n') by {
            assert(good_line(ll[i]));
        }
        lemma_split_join(ll);
        assert(split_lines(y) == ll);
        assert(blank_cleared(ll) =~= ll) by {
            assert forall|i: int| 0 <= i < ll.len() implies blank_cleared(ll)[i] == ll[i] by {
                assert(good_line(ll[i]));
                assert(blank_cleared(ll)[i] == cleared_line(ll[i]));
                if all_ws(ll[i]) {
                    assert(ll[i] =~= Seq::<char>::empty());
                }
            }
        }
        lemma_squeeze_identity(ll);
        assert(drop_leading_blank(ll) == ll);
        assert(drop_trailing_blank(ll) == ll);
        assert(trim_edge_lines(ll) == ll) by {
            if ll.len() == 1 {
                assert(trim_ws_start(ll[0]) == ll[0]);
                assert(trim_ws_end(ll[0]) == ll[0]);
                assert(trim_edge_lines(ll) =~= ll);
            } else {
                assert(trim_ws_start(ll[0]) == ll[0]);
                assert(trim_ws_end(ll.last()) == ll.last());
                assert(trim_edge_lines(ll) =~= ll);
            }
        }
        assert(normal_lines(y) == ll);
    }
}

/// Joining break-free lines of which no two consecutive ones are empty never
/// produces three line breaks in a row.
proof fn lemma_join_no_triple(ls: Seq<Seq<char>>)
    requires
        forall|i: int| 0 <= i < ls.len() ==> sep_free(#[trigger] ls[i], '\n'),
        no_two_blanks(ls),
    ensures
        no_triple_newline(join_lines(ls)),
    decreases ls.len(),
{
    if ls.len() == 0 {
    } else if ls.len() == 1 {
        assert(sep_free(ls[0], '\n'));
    } else {
        assert forall|i: int| 0 <= i < ls.drop_first().len() implies sep_free(
            #[trigger] ls.drop_first()[i],
            '\n',
        ) by {
            assert(sep_free(ls[i + 1], '\n'));
        }
        assert forall|i: int|
            0 <= i < ls.drop_first().len() - 1 implies !((#[trigger] ls.drop_first()[i]).len() == 0
            && (ls.drop_first()[i + 1]).len() == 0) by {
            assert(ls.drop_first()[i] == ls[i + 1]);
            assert(ls.drop_first()[i + 1] == ls[i + 2]);
        }
        lemma_join_no_triple(ls.drop_first());
        let a = ls[0];
        let b = join_lines(ls.drop_first());
        let j = join_lines(ls);
        assert(j == a + seq!['\n'] + b);
        assert forall|i: int|
            0 <= i && i + 2 < j.len() implies !((#[trigger] j[i]) == '\n' && j[i + 1] == '\n'
            && j[i + 2] == '\n') by {
            if i + 2 < a.len() {
                assert(j[i] == a[i]);
                assert(sep_free(a, '\n'));
            } else if i < a.len() {
                if i + 2 == a.len() {
                    assert(j[i + 1] == a[i + 1]);
                } else if i + 2 == a.len() + 1 {
                    assert(j[i] == a[i]);
                } else {
                    assert(j[i + 1] == a[i + 1]);
                }
            } else if i == a.len() {
                // the separator, then the head of the joined rest
                assert(j[i + 1] == b[0]);
                assert(j[i + 2] == b[1]);
                assert(!(b[0] == '\n' && b[1] == '\n')) by {
                    proof_join_head_pair(ls.drop_first());
                }
            } else {
                assert(j[i] == b[i - a.len() - 1]);
                assert(j[i + 1] == b[i - a.len()]);
                assert(j[i + 2] == b[i - a.len() + 1]);
                assert(no_triple_newline(b));
            }
        }
    }
}

/// The first two characters of a joined list never are two line breaks, when
/// no two consecutive lines are empty and the lines are break-free.
proof fn proof_join_head_pair(ls: Seq<Seq<char>>)
    requires
        forall|i: int| 0 <= i < ls.len() ==> sep_free(#[trigger] ls[i], '\n'),
        no_two_blanks(ls),
        join_lines(ls).len() >= 2,
    ensures
        !(join_lines(ls)[0] == '\n' && join_lines(ls)[1] == '\n'),
{
    let j = join_lines(ls);
    if ls.len() == 0 {
    } else if ls.len() == 1 {
        assert(sep_free(ls[0], '\n'));
    } else {
        assert(j == ls[0] + seq!['\n'] + join_lines(ls.drop_first()));
        if ls[0].len() >= 1 {
            assert(j[0] == ls[0][0]);
            assert(sep_free(ls[0], '\n'));
        } else {
            // the first line is empty: the second is not
            assert(!(ls[0].len() == 0 && ls[1].len() == 0));
            assert(ls[1].len() > 0);
            assert(j[0] == '\n');
            let b = join_lines(ls.drop_first());
            assert(j[1] == b[0]);
            if ls.drop_first().len() == 1 {
                assert(b == ls.drop_first()[0]);
                assert(b[0] == ls[1][0]);
            } else {
                assert(b == ls.drop_first()[0] + seq!['\n'] + join_lines(
                    ls.drop_first().drop_first(),
                ));
                assert(b[0] == ls[1][0]);
            }
            assert(sep_free(ls[1], '\n'));
        }
    }
}

/// No more than one blank line ever separates blocks: the normalized output
/// never holds three consecutive line breaks.
pub proof fn lemma_normalize_no_triple_newline(s: Seq<char>)
    ensures
        no_triple_newline(normalize_spec(s)),
{
    lemma_normal_lines_props(s);
    assert forall|i: int| 0 <= i < normal_lines(s).len() implies sep_free(
        #[trigger] normal_lines(s)[i],
        '\n',
    ) by {
        assert(good_line(normal_lines(s)[i]));
    }
    lemma_join_no_triple(normal_lines(s));
}

/// No line of the normalized output consists solely of whitespace: every
/// line is empty or holds a non-whitespace character.
pub proof fn lemma_normalize_no_blank_line(s: Seq<char>)
    ensures
        forall|i: int|
            0 <= i < split_lines(normalize_spec(s)).len() ==> line_ok(
                #[trigger] split_lines(normalize_spec(s))[i],
            ),
{
    lemma_normal_lines_props(s);
    let ll = normal_lines(s);
    if ll.len() == 0 {
        assert(normalize_spec(s) =~= Seq::<char>::empty());
        assert(split_lines(Seq::<char>::empty()) == seq![Seq::<char>::empty()]);
        assert forall|i: int| 0 <= i < split_lines(normalize_spec(s)).len() implies line_ok(
            #[trigger] split_lines(normalize_spec(s))[i],
        ) by {
            assert(split_lines(normalize_spec(s))[i] =~= Seq::<char>::empty());
        }
    } else {
        assert forall|i: int| 0 <= i < ll.len() implies sep_free(#[trigger] ll[i], '\n') by {
            assert(good_line(ll[i]));
        }
        lemma_split_join(ll);
        assert forall|i: int| 0 <= i < split_lines(normalize_spec(s)).len() implies line_ok(
            #[trigger] split_lines(normalize_spec(s))[i],
        ) by {
            assert(split_lines(normalize_spec(s))[i] == ll[i]);
            assert(good_line(ll[i]));
        }
    }
}

} // verus!

