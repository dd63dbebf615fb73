//! Splitting text at a separator character and joining lines back with
//! `'\n'`, with the facts about both that the output normalizer's and the
//! class-token rules' proofs rest on.

use vstd::prelude::*;

verus! {

/// `l` does not contain the separator.
pub open spec fn sep_free(l: Seq<char>, sep: char) -> bool {
    forall|k: int| 0 <= k < l.len() ==> l[k] != sep
}

/// Index of the first occurrence of `sep` in `s`, or `s.len()` if there is
/// none.
pub open spec fn first_sep(s: Seq<char>, sep: char) -> nat
    decreases s.len(),
{
    if s.len() == 0 {
        0
    } else if s[0] == sep {
        0
    } else {
        1 + first_sep(s.drop_first(), sep)
    }
}

/// `first_sep` points at the first separator: nothing before it is one, and
/// it is one unless it is the end of the text.
pub proof fn lemma_first_sep(s: Seq<char>, sep: char)
    ensures
        first_sep(s, sep) <= s.len(),
        forall|k: int| 0 <= k < first_sep(s, sep) ==> s[k] != sep,
        first_sep(s, sep) < s.len() ==> s[first_sep(s, sep) as int] == sep,
    decreases s.len(),
{
    if s.len() == 0 {
    } else if s[0] == sep {
    } else {
        lemma_first_sep(s.drop_first(), sep);
        assert forall|k: int| 0 <= k < first_sep(s, sep) implies s[k] != sep by {
            if k > 0 {
                assert(s.drop_first()[k - 1] != sep);
            }
        }
        if first_sep(s, sep) < s.len() {
            assert(s[first_sep(s, sep) as int] == s.drop_first()[first_sep(
                s.drop_first(),
                sep,
            ) as int]);
        }
    }
}

/// A position with no separator before it, and a separator (or the end) at
/// it, is `first_sep`.
pub proof fn lemma_first_sep_at(s: Seq<char>, sep: char, m: int)
    requires
        0 <= m <= s.len(),
        forall|k: int| 0 <= k < m ==> s[k] != sep,
        m < s.len() ==> s[m] == sep,
    ensures
        first_sep(s, sep) == m,
{
    lemma_first_sep(s, sep);
    if first_sep(s, sep) < m {
        assert(s[first_sep(s, sep) as int] != sep);
    }
    if m < first_sep(s, sep) {
        assert(s[m] != sep);
    }
}

/// `s` split at every occurrence of `sep`. Empty text yields one empty
/// piece; a trailing separator yields a trailing empty piece.
pub open spec fn split_at(s: Seq<char>, sep: char) -> Seq<Seq<char>>
    decreases s.len(),
{
    let k = first_sep(s, sep);
    if k >= s.len() {
        seq![s]
    } else {
        seq![s.take(k as int)] + split_at(s.skip(k as int + 1), sep)
    }
}

/// The lines of `s`: `s` split at every `'\n'`.
pub open spec fn split_lines(s: Seq<char>) -> Seq<Seq<char>> {
    split_at(s, '\n')
}

/// The lines joined with a single `'\n'` between consecutive lines.
pub open spec fn join_lines(ls: Seq<Seq<char>>) -> Seq<char>
    decreases ls.len(),
{
    if ls.len() == 0 {
        Seq::empty()
    } else if ls.len() == 1 {
        ls[0]
    } else {
        ls[0] + seq!['\n'] + join_lines(ls.drop_first())
    }
}

/// There is always at least one piece.
pub proof fn lemma_split_at_len(s: Seq<char>, sep: char)
    ensures
        split_at(s, sep).len() >= 1,
{
}

/// How the pieces grow when one character is appended: a separator opens a
/// new empty piece, any other character extends the last piece.
pub proof fn lemma_split_at_push(s: Seq<char>, c: char, sep: char)
    ensures
        c == sep ==> split_at(s.push(c), sep) == split_at(s, sep).push(Seq::<char>::empty()),
        c != sep ==> split_at(s.push(c), sep) == split_at(s, sep).drop_last().push(
            split_at(s, sep).last().push(c),
        ),
    decreases s.len(),
{
    lemma_first_sep(s, sep);
    let t = s.push(c);
    let k = first_sep(s, sep);
    if k >= s.len() {
        assert forall|j: int| 0 <= j < s.len() implies t[j] != sep by {
            assert(t[j] == s[j]);
        }
        if c == sep {
            assert(t[s.len() as int] == sep);
            lemma_first_sep_at(t, sep, s.len() as int);
            assert(t.take(s.len() as int) =~= s);
            assert(t.skip(s.len() as int + 1) =~= Seq::<char>::empty());
            assert(split_at(Seq::<char>::empty(), sep) == seq![Seq::<char>::empty()]);
            assert(split_at(t, sep) == seq![s] + seq![Seq::<char>::empty()]);
            assert(split_at(s, sep) == seq![s]);
            assert(seq![s] + seq![Seq::<char>::empty()] =~= seq![s].push(Seq::<char>::empty()));
        } else {
            assert(t[s.len() as int] != sep);
            lemma_first_sep_at(t, sep, t.len() as int);
            assert(split_at(t, sep) == seq![t]);
            assert(split_at(s, sep).drop_last().push(split_at(s, sep).last().push(c)) =~= seq![t]);
        }
    } else {
        assert forall|j: int| 0 <= j < k implies t[j] != sep by {
            assert(t[j] == s[j]);
        }
        assert(t[k as int] == s[k as int]);
        lemma_first_sep_at(t, sep, k as int);
        let rest = s.skip(k as int + 1);
        assert(t.take(k as int) =~= s.take(k as int));
        assert(t.skip(k as int + 1) =~= rest.push(c));
        lemma_split_at_push(rest, c, sep);
        lemma_split_at_len(rest, sep);
        if c == sep {
            assert(split_at(t, sep) =~= split_at(s, sep).push(Seq::<char>::empty()));
        } else {
            assert(split_at(s, sep).last() == split_at(rest, sep).last());
            assert(split_at(t, sep) =~= split_at(s, sep).drop_last().push(
                split_at(s, sep).last().push(c),
            ));
        }
    }
}

/// Every piece produced by splitting is free of the separator.
pub proof fn lemma_split_at_sep_free(s: Seq<char>, sep: char)
    ensures
        forall|i: int|
            0 <= i < split_at(s, sep).len() ==> #[trigger] sep_free(split_at(s, sep)[i], sep),
    decreases s.len(),
{
    lemma_first_sep(s, sep);
    let k = first_sep(s, sep);
    if k >= s.len() {
        assert(sep_free(s, sep));
    } else {
        lemma_split_at_sep_free(s.skip(k as int + 1), sep);
        assert(sep_free(s.take(k as int), sep));
        assert forall|i: int| 0 <= i < split_at(s, sep).len() implies #[trigger] sep_free(
            split_at(s, sep)[i],
            sep,
        ) by {
            if i > 0 {
                assert(split_at(s, sep)[i] == split_at(s.skip(k as int + 1), sep)[i - 1]);
            }
        }
    }
}

/// Joining a nonempty front part and a back part inserts one `'\n'` between
/// them.
pub proof fn lemma_join_lines_cat(a: Seq<Seq<char>>, b: Seq<Seq<char>>)
    requires
        a.len() > 0,
        b.len() > 0,
    ensures
        join_lines(a + b) == join_lines(a) + seq!['\n'] + join_lines(b),
    decreases a.len(),
{
    if a.len() == 1 {
        assert((a + b).drop_first() =~= b);
        assert((a + b)[0] == a[0]);
        assert(join_lines(a + b) == a[0] + seq!['\n'] + join_lines(b));
        assert(join_lines(a) == a[0]);
    } else {
        assert((a + b).drop_first() =~= a.drop_first() + b);
        lemma_join_lines_cat(a.drop_first(), b);
        assert((a + b)[0] == a[0]);
        assert(join_lines(a + b) == a[0] + seq!['\n'] + (join_lines(a.drop_first()) + seq!['\n']
            + join_lines(b)));
        assert(join_lines(a) == a[0] + seq!['\n'] + join_lines(a.drop_first()));
        assert(a[0] + seq!['\n'] + (join_lines(a.drop_first()) + seq!['\n'] + join_lines(b))
            =~= (a[0] + seq!['\n'] + join_lines(a.drop_first())) + seq!['\n'] + join_lines(b));
    }
}

/// Splitting undoes joining, for a nonempty list of break-free lines.
pub proof fn lemma_split_join(ls: Seq<Seq<char>>)
    requires
        ls.len() > 0,
        forall|i: int| 0 <= i < ls.len() ==> #[trigger] sep_free(ls[i], '\n'),
    ensures
        split_lines(join_lines(ls)) == ls,
    decreases ls.len(),
{
    if ls.len() == 1 {
        let l = ls[0];
        assert(sep_free(l, '\n'));
        lemma_first_sep_at(l, '\n', l.len() as int);
        assert(split_lines(l) =~= ls);
    } else {
        let j = join_lines(ls);
        assert(j == ls[0] + seq!['\n'] + join_lines(ls.drop_first()));
        let m = ls[0].len() as int;
        assert forall|k: int| 0 <= k < m implies j[k] != '\n' by {
            assert(j[k] == ls[0][k]);
            assert(sep_free(ls[0], '\n'));
        }
        assert(j[m] == '\n');
        lemma_first_sep_at(j, '\n', m);
        assert(j.take(m) =~= ls[0]);
        assert(j.skip(m + 1) =~= join_lines(ls.drop_first()));
        assert forall|i: int| 0 <= i < ls.drop_first().len() implies #[trigger] sep_free(
            ls.drop_first()[i],
            '\n',
        ) by {
            assert(sep_free(ls[i + 1], '\n'));
        }
        lemma_split_join(ls.drop_first());
        assert(split_lines(j) =~= ls);
    }
}

/// The text split at every occurrence of `sep`, as vectors.
pub fn split_into_pieces(chars: &Vec<char>, sep: char) -> (r: Vec<Vec<char>>)
    ensures
        r.deep_view() == split_at(chars@, sep),
{
    let mut out: Vec<Vec<char>> = Vec::new();
    let mut cur: Vec<char> = Vec::new();
    let mut i: usize = 0;
    proof {
        assert(chars@.take(0) =~= Seq::<char>::empty());
        assert(split_at(Seq::<char>::empty(), sep) == seq![Seq::<char>::empty()]);
        assert(out.deep_view().push(cur@) =~= seq![Seq::<char>::empty()]);
    }
    while i < chars.len()
        invariant
            i <= chars@.len(),
            split_at(chars@.take(i as int), sep) == out.deep_view().push(cur@),
        decreases chars@.len() - i,
    {
        let c = chars[i];
        let ghost pre = chars@.take(i as int);
        let ghost old_out = out.deep_view();
        let ghost old_cur = cur@;
        proof {
            lemma_split_at_push(pre, c, sep);
            assert(chars@.take(i + 1) =~= pre.push(c));
        }
        if c == sep {
            out.push(cur);
            cur = Vec::new();
            proof {
                assert(out.deep_view() =~~= old_out.push(old_cur));
                assert(split_at(chars@.take(i + 1), sep) == (old_out.push(old_cur)).push(
                    Seq::<char>::empty(),
                ));
                assert(out.deep_view().push(cur@) =~~= (old_out.push(old_cur)).push(
                    Seq::<char>::empty(),
                ));
            }
        } else {
            cur.push(c);
            proof {
                assert((old_out.push(old_cur)).drop_last() =~= old_out);
                assert((old_out.push(old_cur)).last() == old_cur);
                assert(split_at(chars@.take(i + 1), sep) == old_out.push(old_cur.push(c)));
                assert(out.deep_view().push(cur@) =~~= old_out.push(old_cur.push(c)));
            }
        }
        i = i + 1;
    }
    proof {
        assert(chars@.take(chars@.len() as int) =~= chars@);
    }
    let ghost old_out = out.deep_view();
    out.push(cur);
    proof {
        assert(out.deep_view() =~~= old_out.push(cur@));
    }
    out
}

} // verus!
