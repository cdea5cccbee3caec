//! Line-oriented reading of command output.

use vstd::prelude::*;

verus! {

/// The pieces that splitting `s` at every newline gives: always at least
/// one, the last one being what follows the final newline.
pub open spec fn pieces(s: Seq<char>) -> Seq<Seq<char>>
    decreases s.len(),
{
    if s.len() == 0 {
        seq![Seq::empty()]
    } else {
        let p = pieces(s.drop_last());
        if s.last() == '\n' {
            p.push(Seq::empty())
        } else {
            p.update(p.len() - 1, p.last().push(s.last()))
        }
    }
}

/// The lines of `s`: its pieces, without the single empty piece that a final
/// newline (or an empty text) leaves at the end.
pub open spec fn lines(s: Seq<char>) -> Seq<Seq<char>> {
    let p = pieces(s);
    if p.last().len() == 0 {
        p.drop_last()
    } else {
        p
    }
}

/// What a list of character vectors holds, as sequences of characters.
pub open spec fn views<V: View>(v: Seq<V>) -> Seq<V::V> {
    v.map_values(|x: V| x@)
}

pub proof fn lemma_pieces_nonempty(s: Seq<char>)
    ensures
        pieces(s).len() >= 1,
    decreases s.len(),
{
    if s.len() > 0 {
        lemma_pieces_nonempty(s.drop_last());
    }
}

/// A text of no newline is a single piece.
pub proof fn lemma_pieces_of_line(x: Seq<char>)
    requires
        !x.contains('\n'),
    ensures
        pieces(x) == seq![x],
    decreases x.len(),
{
    if x.len() > 0 {
        let y = x.drop_last();
        assert(!y.contains('\n')) by {
            if y.contains('\n') {
                let k = choose|k: int| 0 <= k < y.len() && y[k] == '\n';
                assert(x[k] == '\n');
            }
        }
        lemma_pieces_of_line(y);
        assert(x.last() != '\n') by {
            assert(x[x.len() - 1] == x.last());
        }
        assert(y.push(x.last()) =~= x);
    } else {
        assert(x =~= Seq::<char>::empty());
    }
}

/// Splitting a concatenation: the last piece of `p` and the first piece of
/// `q` join into one.
pub proof fn lemma_pieces_append(p: Seq<char>, q: Seq<char>)
    ensures
        pieces(p + q) == pieces(p).drop_last() + seq![pieces(p).last() + pieces(q)[0]]
            + pieces(q).drop_first(),
    decreases q.len(),
{
    lemma_pieces_nonempty(p);
    lemma_pieces_nonempty(q);
    if q.len() == 0 {
        assert(p + q =~= p);
        assert(pieces(p).last() + pieces(q)[0] =~= pieces(p).last());
        assert(pieces(p).drop_last() + seq![pieces(p).last()] + pieces(q).drop_first()
            =~= pieces(p));
    } else {
        let q0 = q.drop_last();
        let c = q.last();
        lemma_pieces_append(p, q0);
        lemma_pieces_nonempty(q0);
        assert((p + q).drop_last() =~= p + q0);
        assert((p + q).last() == c);
        let d = pieces(p).drop_last();
        let l = pieces(p).last();
        let r = pieces(q0);
        if c == '\n' {
            assert(pieces(q) == r.push(Seq::empty()));
            assert(pieces(p + q) =~= d + seq![l + pieces(q)[0]] + pieces(q).drop_first());
        } else {
            assert(pieces(q) == r.update(r.len() - 1, r.last().push(c)));
            if r.len() == 1 {
                assert(l + r[0].push(c) =~= (l + r[0]).push(c));
                assert(pieces(p + q) =~= d + seq![l + pieces(q)[0]] + pieces(q).drop_first());
            } else {
                assert(pieces(p + q) =~= d + seq![l + pieces(q)[0]] + pieces(q).drop_first());
            }
        }
    }
}

/// A line of no newline, then a newline, then the rest: that line comes
/// first, and then the lines of the rest.
pub proof fn lemma_lines_prepend(x: Seq<char>, rest: Seq<char>)
    requires
        !x.contains('\n'),
    ensures
        lines(x + seq!['\n'] + rest) == seq![x] + lines(rest),
{
    let p = x + seq!['\n'];
    lemma_pieces_of_line(x);
    assert(p.drop_last() =~= x);
    assert(pieces(p) =~= seq![x, Seq::empty()]);
    lemma_pieces_append(p, rest);
    lemma_pieces_nonempty(rest);
    let r = pieces(rest);
    assert(Seq::<char>::empty() + r[0] =~= r[0]);
    assert(pieces(p + rest) =~= seq![x] + r);
    assert((seq![x] + r).last() == r.last());
    if r.last().len() == 0 {
        assert((seq![x] + r).drop_last() =~= seq![x] + r.drop_last());
    }
}

/// The text of no character has no line.
pub proof fn lemma_lines_empty()
    ensures
        lines(Seq::empty()) == Seq::<Seq<char>>::empty(),
{
    assert(lines(Seq::empty()) =~= Seq::<Seq<char>>::empty());
}

/// An owned copy of `s`.
pub(crate) fn word(s: &str) -> (r: String)
    ensures
        r@ == s@,
{
    s.to_owned()
}

/// Relies on `FromIterator<char>` for `String`: the string holds the given
/// characters, in order.
#[verifier::external_body]
pub(crate) fn string_from_chars(chars: &Vec<char>) -> (r: String)
    ensures
        r@ == chars@,
{
    chars.iter().collect()
}

/// Splits `s` into its lines.
pub fn split_lines(s: &str) -> (r: Vec<String>)
    ensures
        views(r@) == lines(s@),
{
    let ls = line_chars(s);
    let mut out: Vec<String> = Vec::new();
    for i in 0..ls.len()
        invariant
            views(ls@) == lines(s@),
            views(out@) == views(ls@).take(i as int),
    {
        let line = string_from_chars(&ls[i]);
        let ghost before = out@;
        out.push(line);
        assert(views(out@) =~= views(before).push(ls@[i as int]@));
        assert(views(out@) =~= views(ls@).take(i as int + 1));
    }
    assert(views(ls@).take(ls.len() as int) =~= views(ls@));
    out
}

/// Splits `s` into its lines, each as a sequence of characters.
pub fn line_chars(s: &str) -> (r: Vec<Vec<char>>)
    ensures
        views(r@) == lines(s@),
{
    let mut out: Vec<Vec<char>> = Vec::new();
    let mut cur: Vec<char> = Vec::new();
    for c in it: s.chars()
        invariant
            it.seq() == s@,
            views(out@).push(cur@) == pieces(s@.take(it.index() as int)),
    {
        let ghost i = it.index() as int;
        let ghost before = views(out@).push(cur@);
        proof {
            let t = s@.take(i + 1);
            assert(t.drop_last() =~= s@.take(i));
            assert(c == s@[i]);
            assert(t.last() == c);
            lemma_pieces_nonempty(t.drop_last());
        }
        if c == '\n' {
            out.push(cur);
            cur = Vec::new();
            assert(views(out@).push(cur@) =~= before.push(Seq::empty()));
        } else {
            cur.push(c);
            assert(views(out@).push(cur@) =~= before.update(before.len() - 1, before.last().push(c)));
        }
    }
    proof {
        assert(s@.take(s@.len() as int) == s@);
    }
    let ghost all = views(out@).push(cur@);
    if cur.len() > 0 {
        out.push(cur);
        assert(views(out@) =~= all);
    } else {
        assert(views(out@) =~= all.drop_last());
    }
    out
}

} // verus!
