//! Reading the package manager's listings: the configured repositories, and
//! the packages of one repository.

use vstd::prelude::*;
use crate::text::{lines, views, line_chars, split_lines, string_from_chars, word, lemma_lines_prepend, lemma_lines_empty};

verus! {

/// White space as the listing tools use it.
pub open spec fn is_blank(c: char) -> bool {
    c == ' ' || c == '\t' || c == '\n' || c == '\u{b}' || c == '\u{c}' || c == '\r'
}

/// The run of non-blank characters that a line starts with (empty when the
/// line is empty or starts with a blank).
pub open spec fn leading_token(line: Seq<char>) -> Seq<char>
    decreases line.len(),
{
    if line.len() == 0 || is_blank(line[0]) {
        Seq::empty()
    } else {
        seq![line[0]] + leading_token(line.drop_first())
    }
}

/// The leading tokens of the lines that have one, in order.
pub open spec fn tokens(ls: Seq<Seq<char>>) -> Seq<Seq<char>>
    decreases ls.len(),
{
    if ls.len() == 0 {
        Seq::empty()
    } else {
        let t = tokens(ls.drop_last());
        let k = leading_token(ls.last());
        if k.len() > 0 {
            t.push(k)
        } else {
            t
        }
    }
}

/// The repository identifiers of a repository listing: the leading token of
/// every line that has one, but the first, which belongs to the header row.
pub open spec fn repository_ids(output: Seq<char>) -> Seq<Seq<char>> {
    let t = tokens(lines(output));
    if t.len() == 0 {
        t
    } else {
        t.drop_first()
    }
}

/// A repository identifier: not empty, and free of white space.
pub open spec fn is_repository_id(s: Seq<char>) -> bool {
    s.len() > 0 && forall|i: int| 0 <= i < s.len() ==> !is_blank(#[trigger] s[i])
}

pub proof fn lemma_leading_token(line: Seq<char>)
    ensures
        leading_token(line).len() <= line.len(),
        leading_token(line) == line.take(leading_token(line).len() as int),
        forall|i: int|
            0 <= i < leading_token(line).len() ==> !is_blank(#[trigger] leading_token(line)[i]),
        leading_token(line).len() < line.len() ==> is_blank(line[leading_token(line).len() as int]),
        leading_token(line).len() > 0 <==> (line.len() > 0 && !is_blank(line[0])),
    decreases line.len(),
{
    if line.len() > 0 && !is_blank(line[0]) {
        let rest = line.drop_first();
        lemma_leading_token(rest);
        let k = leading_token(rest);
        assert(seq![line[0]] + rest.take(k.len() as int) =~= line.take(k.len() as int + 1));
        assert forall|i: int| 0 <= i < leading_token(line).len() implies !is_blank(
            #[trigger] leading_token(line)[i],
        ) by {
            if i > 0 {
                assert(leading_token(line)[i] == k[i - 1]);
            }
        }
        if k.len() < rest.len() {
            assert(line[k.len() as int + 1] == rest[k.len() as int]);
        }
    } else {
        assert(line.take(0) =~= Seq::<char>::empty());
    }
}

/// A repository identifier is its own leading token.
pub proof fn lemma_token_of_id(s: Seq<char>)
    requires
        forall|i: int| 0 <= i < s.len() ==> !is_blank(#[trigger] s[i]),
    ensures
        leading_token(s) == s,
    decreases s.len(),
{
    if s.len() > 0 {
        let rest = s.drop_first();
        assert forall|i: int| 0 <= i < rest.len() implies !is_blank(#[trigger] rest[i]) by {
            assert(rest[i] == s[i + 1]);
        }
        lemma_token_of_id(rest);
        assert(seq![s[0]] + rest =~= s);
    } else {
        assert(s =~= Seq::<char>::empty());
    }
}

/// Every token is a repository identifier.
pub proof fn lemma_tokens_are_ids(ls: Seq<Seq<char>>)
    ensures
        forall|i: int| 0 <= i < tokens(ls).len() ==> is_repository_id(#[trigger] tokens(ls)[i]),
    decreases ls.len(),
{
    if ls.len() > 0 {
        let t = tokens(ls.drop_last());
        let k = leading_token(ls.last());
        lemma_tokens_are_ids(ls.drop_last());
        lemma_leading_token(ls.last());
        if k.len() > 0 {
            assert(is_repository_id(k));
            assert forall|i: int| 0 <= i < tokens(ls).len() implies is_repository_id(
                #[trigger] tokens(ls)[i],
            ) by {
                if i < t.len() {
                    assert(tokens(ls)[i] == t[i]);
                }
            }
        }
    }
}

/// The tokens of two runs of lines, one after the other.
pub proof fn lemma_tokens_append(a: Seq<Seq<char>>, b: Seq<Seq<char>>)
    ensures
        tokens(a + b) == tokens(a) + tokens(b),
    decreases b.len(),
{
    if b.len() == 0 {
        assert(a + b =~= a);
        assert(tokens(a) + tokens(b) =~= tokens(a));
    } else {
        lemma_tokens_append(a, b.drop_last());
        assert((a + b).drop_last() =~= a + b.drop_last());
        assert((a + b).last() == b.last());
        let k = leading_token(b.last());
        if k.len() > 0 {
            assert(tokens(a + b) =~= tokens(a) + tokens(b));
        } else {
            assert(tokens(a + b) =~= tokens(a) + tokens(b));
        }
    }
}

fn blank(c: char) -> (r: bool)
    ensures
        r == is_blank(c),
{
    c == ' ' || c == '\t' || c == '\n' || c == '\u{b}' || c == '\u{c}' || c == '\r'
}

fn token_of(line: &Vec<char>) -> (r: String)
    ensures
        r@ == leading_token(line@),
{
    proof {
        lemma_leading_token(line@);
    }
    let ghost k = leading_token(line@).len() as int;
    proof {
        assert forall|j: int| 0 <= j < k implies !is_blank(#[trigger] line@[j]) by {
            assert(leading_token(line@)[j] == line@[j]);
        }
    }
    let mut tok: Vec<char> = Vec::new();
    let mut i: usize = 0;
    while i < line.len() && !blank(line[i])
        invariant
            0 <= i <= k,
            k <= line.len(),
            forall|j: int| 0 <= j < k ==> !is_blank(#[trigger] line@[j]),
            k < line.len() ==> is_blank(line@[k]),
            leading_token(line@) == line@.take(k),
            tok@ == line@.take(i as int),
        decreases line.len() - i,
    {
        proof {
            assert(line@.take(k)[i as int] == line@[i as int]);
        }
        tok.push(line[i]);
        i = i + 1;
        assert(tok@ =~= line@.take(i as int));
    }
    string_from_chars(&tok)
}

/// Reads a repository listing (the header row, then one line per
/// repository, each starting with the repository's identifier) into the
/// identifiers, in the order given.
pub fn parse_repository_list(output: &str) -> (r: Vec<String>)
    ensures
        views(r@) == repository_ids(output@),
        forall|i: int| 0 <= i < r.len() ==> is_repository_id(#[trigger] r@[i]@),
{
    let ls = line_chars(output);
    let ghost all = views(ls@);
    let mut out: Vec<String> = Vec::new();
    let mut header_seen = false;
    for i in 0..ls.len()
        invariant
            views(ls@) == lines(output@),
            all == views(ls@),
            header_seen == (tokens(all.take(i as int)).len() > 0),
            header_seen ==> views(out@) == tokens(all.take(i as int)).drop_first(),
            !header_seen ==> out@.len() == 0,
    {
        let tok = token_of(&ls[i]);
        proof {
            assert(all.take(i as int + 1).drop_last() =~= all.take(i as int));
            assert(all.take(i as int + 1).last() == ls@[i as int]@);
        }
        if !tok.as_str().is_empty() {
            if header_seen {
                let ghost before = out@;
                out.push(tok);
                assert(views(out@) =~= views(before).push(tok@));
                assert(views(out@) =~= tokens(all.take(i as int + 1)).drop_first());
            } else {
                header_seen = true;
                assert(views(out@) =~= tokens(all.take(i as int + 1)).drop_first());
            }
        } else {
            proof {
                assert(tok@.len() == 0);
            }
        }
    }
    proof {
        assert(all.take(ls.len() as int) =~= all);
        lemma_tokens_are_ids(all);
        if !header_seen {
            assert(views(out@) =~= repository_ids(output@));
        }
        assert forall|i: int| 0 <= i < out.len() implies is_repository_id(#[trigger] out@[i]@) by {
            assert(out@[i]@ == views(out@)[i]);
            assert(views(out@)[i] == tokens(all)[i + 1]);
        }
    }
    out
}

/// Reads the package names that a query of one repository printed, one per
/// line; the final newline leaves no empty name behind.
pub fn parse_package_list(output: &str) -> (r: Vec<String>)
    ensures
        views(r@) == lines(output@),
{
    split_lines(output)
}

/// Whatever the header row holds, it is dropped, and the identifiers that
/// follow come out in the order listed.
pub proof fn law_header_dropped(header: Seq<char>, a: Seq<char>, b: Seq<char>)
    requires
        header.len() > 0,
        !is_blank(header[0]),
        !header.contains('\n'),
        is_repository_id(a),
        is_repository_id(b),
    ensures
        repository_ids(header + seq!['\n'] + a + seq!['\n'] + b + seq!['\n']) == seq![a, b],
{
    let nl = seq!['\n'];
    let e = Seq::<char>::empty();
    assert(!a.contains('\n')) by {
        if a.contains('\n') {
            let k = choose|k: int| 0 <= k < a.len() && a[k] == '\n';
            assert(is_blank(a[k]));
        }
    }
    assert(!b.contains('\n')) by {
        if b.contains('\n') {
            let k = choose|k: int| 0 <= k < b.len() && b[k] == '\n';
            assert(is_blank(b[k]));
        }
    }
    assert(b + nl =~= b + nl + e);
    lemma_lines_prepend(b, e);
    lemma_lines_empty();
    assert(lines(b + nl) =~= seq![b]);
    lemma_lines_prepend(a, b + nl);
    assert(a + nl + (b + nl) =~= a + nl + b + nl);
    lemma_lines_prepend(header, a + nl + b + nl);
    assert(header + nl + (a + nl + b + nl) =~= header + nl + a + nl + b + nl);
    let ls = header + nl + a + nl + b + nl;
    assert(lines(ls) =~= seq![header, a, b]);
    lemma_leading_token(header);
    lemma_token_of_id(a);
    lemma_token_of_id(b);
    assert(seq![header, a, b].drop_last() =~= seq![header, a]);
    assert(seq![header, a].drop_last() =~= seq![header]);
    assert(seq![header].drop_last() =~= Seq::<Seq<char>>::empty());
    assert(seq![header].last() == header);
    assert(seq![header, a].last() == a);
    assert(seq![header, a, b].last() == b);
    assert(tokens(Seq::<Seq<char>>::empty()) == Seq::<Seq<char>>::empty());
    assert(tokens(seq![header]) =~= seq![leading_token(header)]);
    assert(tokens(seq![header, a]) =~= seq![leading_token(header), a]);
    assert(tokens(seq![header, a, b]) =~= seq![leading_token(header), a, b]);
    assert(seq![leading_token(header), a, b].drop_first() =~= seq![a, b]);
}

/// Two package names, each on a line of its own, read back as those two
/// names and nothing more.
pub proof fn law_package_lines(first: Seq<char>, second: Seq<char>)
    requires
        !first.contains('\n'),
        !second.contains('\n'),
    ensures
        lines(first + seq!['\n'] + second + seq!['\n']) == seq![first, second],
{
    let nl = seq!['\n'];
    let e = Seq::<char>::empty();
    assert(second + nl =~= second + nl + e);
    lemma_lines_prepend(second, e);
    lemma_lines_empty();
    lemma_lines_prepend(first, second + nl);
    assert(first + nl + (second + nl) =~= first + nl + second + nl);
    assert(seq![first] + seq![second] =~= seq![first, second]);
    assert(seq![second] + Seq::<Seq<char>>::empty() =~= seq![second]);
}

/// List the configured repositories: a header row, then one line per
/// repository, starting with its identifier.
pub open spec fn repository_list_args() -> Seq<Seq<char>> {
    seq!["dnf"@, "repolist"@]
}

/// List the names of the packages of one repository, one per line.
pub open spec fn package_query_args(repository: Seq<char>) -> Seq<Seq<char>> {
    seq!["dnf"@, "repoquery"@, "--repo"@, repository, "-q"@, "--qf"@, "%{name}"@]
}

pub fn repository_list_command() -> (r: Vec<String>)
    ensures
        views(r@) == repository_list_args(),
{
    let r = vec![word("dnf"), word("repolist")];
    assert(views(r@) =~= repository_list_args());
    r
}

pub fn package_query_command(repository: &String) -> (r: Vec<String>)
    ensures
        views(r@) == package_query_args(repository@),
{
    let r = vec![
        word("dnf"),
        word("repoquery"),
        word("--repo"),
        repository.clone(),
        word("-q"),
        word("--qf"),
        word("%{name}"),
    ];
    assert(views(r@) =~= package_query_args(repository@));
    r
}

/// Whether `s` can name a repository of the catalog.
pub fn valid_repository_id(s: &String) -> (r: bool)
    ensures
        r == is_repository_id(s@),
{
    let mut ok = true;
    for c in it: s.as_str().chars()
        invariant
            it.seq() == s@,
            ok == forall|j: int| 0 <= j < it.index() ==> !is_blank(#[trigger] s@[j]),
    {
        assert(c == s@[it.index() as int]);
        if blank(c) {
            ok = false;
        }
    }
    ok && !s.as_str().is_empty()
}

} // verus!
