//! The catalog of installable packages, grouped by repository, and how it is
//! built from one query per repository.

use vstd::prelude::*;
use crate::text::{lines, views};
use crate::repository::{is_repository_id, parse_package_list};
use crate::error::{ErrorKind, ProcessError};

verus! {

/// The map that a list of keys and a list of values give, a later key
/// replacing an earlier equal one.
pub open spec fn entries_map(
    keys: Seq<Seq<char>>,
    lists: Seq<Seq<Seq<char>>>,
) -> Map<Seq<char>, Seq<Seq<char>>>
    decreases keys.len(),
{
    if keys.len() == 0 {
        Map::empty()
    } else {
        entries_map(keys.drop_last(), lists.drop_last()).insert(
            keys.last(),
            lists[keys.len() - 1],
        )
    }
}

pub proof fn lemma_entries_map(keys: Seq<Seq<char>>, lists: Seq<Seq<Seq<char>>>)
    requires
        keys.no_duplicates(),
        keys.len() == lists.len(),
    ensures
        forall|k: Seq<char>| entries_map(keys, lists).contains_key(k) <==> keys.contains(k),
        forall|i: int|
            0 <= i < keys.len() ==> entries_map(keys, lists)[#[trigger] keys[i]] == lists[i],
    decreases keys.len(),
{
    if keys.len() > 0 {
        let n = keys.len() - 1;
        let k0 = keys.drop_last();
        let l0 = lists.drop_last();
        lemma_entries_map(k0, l0);
        assert forall|k: Seq<char>| entries_map(keys, lists).contains_key(k) <==> keys.contains(k) by {
            if keys.contains(k) {
                let j = choose|j: int| 0 <= j < keys.len() && keys[j] == k;
                if j < n {
                    assert(k0[j] == k);
                }
            }
            if k0.contains(k) {
                let j = choose|j: int| 0 <= j < k0.len() && k0[j] == k;
                assert(keys[j] == k);
            }
        }
        assert forall|i: int| 0 <= i < keys.len() implies entries_map(keys, lists)[
            #[trigger] keys[i]
        ] == lists[i] by {
            if i < n {
                assert(k0[i] == keys[i]);
                assert(keys[i] != keys[n]);
            }
        }
    }
}

/// Replacing the value of a key that is present already.
pub proof fn lemma_entries_map_update(
    keys: Seq<Seq<char>>,
    lists: Seq<Seq<Seq<char>>>,
    i: int,
    v: Seq<Seq<char>>,
)
    requires
        keys.no_duplicates(),
        keys.len() == lists.len(),
        0 <= i < keys.len(),
    ensures
        entries_map(keys, lists.update(i, v)) == entries_map(keys, lists).insert(keys[i], v),
{
    lemma_entries_map(keys, lists);
    lemma_entries_map(keys, lists.update(i, v));
    let a = entries_map(keys, lists.update(i, v));
    let b = entries_map(keys, lists).insert(keys[i], v);
    assert forall|k: Seq<char>| a.contains_key(k) implies b.contains_key(k) && a[k] == b[k] by {
        assert(keys.contains(k));
        let j = choose|j: int| 0 <= j < keys.len() && keys[j] == k;
        assert(a[keys[j]] == lists.update(i, v)[j]);
        if j != i {
            assert(keys[j] != keys[i]);
        }
    }
    assert forall|k: Seq<char>| #[trigger] a.dom().contains(k) <==> b.dom().contains(k) by {
        assert(entries_map(keys, lists).contains_key(k) <==> keys.contains(k));
        assert(a.contains_key(k) <==> keys.contains(k));
        if k == keys[i] {
            assert(keys[i] == k);
            assert(keys.contains(k));
        }
    }
    assert(a.dom() =~= b.dom());
    assert forall|k: Seq<char>| #[trigger] a.dom().contains(k) implies a[k] == b[k] by {
        assert(a.contains_key(k));
    }
    assert(a =~= b);
}

/// Packages grouped by repository: each repository identifier once, with
/// the package names that its query gave, in the order given.
#[derive(Debug)]
pub struct Catalog {
    repositories: Vec<String>,
    packages: Vec<Vec<String>>,
}

impl View for Catalog {
    type V = Map<Seq<char>, Seq<Seq<char>>>;

    closed spec fn view(&self) -> Map<Seq<char>, Seq<Seq<char>>> {
        entries_map(self.order(), self.lists())
    }
}

impl Catalog {
    /// The repositories, in the order in which they were first added.
    pub closed spec fn order(&self) -> Seq<Seq<char>> {
        views(self.repositories@)
    }

    closed spec fn lists(&self) -> Seq<Seq<Seq<char>>> {
        self.packages@.map_values(|v: Vec<String>| views(v@))
    }

    /// Each repository once, each an identifier, each with its packages.
    pub closed spec fn wf(&self) -> bool {
        &&& self.repositories.len() == self.packages.len()
        &&& self.order().no_duplicates()
        &&& forall|i: int| 0 <= i < self.order().len() ==> is_repository_id(#[trigger] self.order()[i])
    }

    /// The repositories listed in order are the keys of the catalog.
    pub proof fn lemma_keys(&self)
        requires
            self.wf(),
        ensures
            forall|k: Seq<char>| self@.contains_key(k) <==> self.order().contains(k),
            self@.dom().len() == self.order().len(),
            forall|k: Seq<char>| #[trigger] self@.contains_key(k) ==> is_repository_id(k),
    {
        lemma_entries_map(self.order(), self.lists());
        assert(self@.dom() =~= self.order().to_set());
        self.order().unique_seq_to_set();
        assert forall|k: Seq<char>| #[trigger] self@.contains_key(k) implies is_repository_id(k) by {
            let j = choose|j: int| 0 <= j < self.order().len() && self.order()[j] == k;
        }
    }

    /// A catalog of no repository.
    pub fn new() -> (r: Catalog)
        ensures
            r.wf(),
            r@ == Map::<Seq<char>, Seq<Seq<char>>>::empty(),
            r.order() == Seq::<Seq<char>>::empty(),
    {
        let r = Catalog { repositories: Vec::new(), packages: Vec::new() };
        assert(r.order() =~= Seq::<Seq<char>>::empty());
        r
    }

    fn position(&self, repository: &String) -> (r: Option<usize>)
        requires
            self.wf(),
        ensures
            match r {
                Some(i) => i < self.order().len() && self.order()[i as int] == repository@,
                None => !self.order().contains(repository@),
            },
    {
        let mut i: usize = 0;
        while i < self.repositories.len()
            invariant
                self.wf(),
                i <= self.repositories.len(),
                forall|j: int| 0 <= j < i ==> self.order()[j] != repository@,
            decreases self.repositories.len() - i,
        {
            if self.repositories[i] == *repository {
                return Some(i);
            }
            i = i + 1;
        }
        None
    }

    /// The number of repositories.
    pub fn len(&self) -> (r: usize)
        requires
            self.wf(),
        ensures
            r == self.order().len(),
            r == self@.len(),
    {
        proof {
            self.lemma_keys();
        }
        self.repositories.len()
    }

    /// The repositories, in the order in which they were first added.
    pub fn repositories(&self) -> (r: &Vec<String>)
        ensures
            views(r@) == self.order(),
    {
        &self.repositories
    }

    /// The packages of a repository, if the catalog has it.
    pub fn get(&self, repository: &String) -> (r: Option<&Vec<String>>)
        requires
            self.wf(),
        ensures
            match r {
                Some(v) => self@.contains_key(repository@) && views(v@) == self@[repository@],
                None => !self@.contains_key(repository@),
            },
    {
        proof {
            self.lemma_keys();
            lemma_entries_map(self.order(), self.lists());
        }
        match self.position(repository) {
            Some(i) => {
                assert(self.lists()[i as int] == views(self.packages@[i as int]@));
                assert(self.order()[i as int] == repository@);
                assert(self.order().contains(repository@));
                assert(self@.contains_key(repository@));
                assert(self@[self.order()[i as int]] == self.lists()[i as int]);
                Some(&self.packages[i])
            },
            None => None,
        }
    }

    /// Sets the packages of a repository; a repository that the catalog has
    /// keeps its place, a new one comes last.
    pub fn insert(&mut self, repository: String, packages: Vec<String>)
        requires
            old(self).wf(),
            is_repository_id(repository@),
        ensures
            final(self).wf(),
            final(self)@ == old(self)@.insert(repository@, views(packages@)),
            final(self).order() == if old(self).order().contains(repository@) {
                old(self).order()
            } else {
                old(self).order().push(repository@)
            },
    {
        let ghost pv = views(packages@);
        match self.position(&repository) {
            Some(i) => {
                let ghost before = self.lists();
                proof {
                    lemma_entries_map_update(self.order(), before, i as int, pv);
                }
                self.packages.set(i, packages);
                assert(self.lists() =~= before.update(i as int, pv));
            },
            None => {
                let ghost ko = self.order();
                let ghost lo = self.lists();
                self.repositories.push(repository);
                self.packages.push(packages);
                assert(self.order() =~= ko.push(repository@));
                assert(self.lists() =~= lo.push(pv));
                assert(self.order().drop_last() =~= ko);
                assert(self.lists().drop_last() =~= lo);
                assert forall|i: int| 0 <= i < self.order().len() implies is_repository_id(
                    #[trigger] self.order()[i],
                ) by {
                    if i < ko.len() {
                        assert(self.order()[i] == ko[i]);
                    }
                }
            },
        }
    }
}

/// What the query of one repository gave: the text it printed, or nothing
/// when it failed.
pub open spec fn query_text(o: Result<String, ProcessError>) -> Option<Seq<char>> {
    match o {
        Ok(t) => Some(t@),
        Err(_) => None,
    }
}

pub open spec fn query_texts(os: Seq<Result<String, ProcessError>>) -> Seq<Option<Seq<char>>> {
    os.map_values(|o: Result<String, ProcessError>| query_text(o))
}

/// The catalog that the queries of the repositories, in order, give: a
/// repository whose query printed a text gets the lines of that text; one
/// whose query failed adds nothing.
pub open spec fn catalog_map(
    repos: Seq<Seq<char>>,
    texts: Seq<Option<Seq<char>>>,
) -> Map<Seq<char>, Seq<Seq<char>>>
    decreases repos.len(),
{
    if repos.len() == 0 {
        Map::empty()
    } else {
        let m = catalog_map(repos.drop_last(), texts.drop_last());
        match texts[repos.len() - 1] {
            Some(t) => m.insert(repos.last(), lines(t)),
            None => m,
        }
    }
}

/// The repositories whose query failed, in order, each with the kind and
/// the reason of its failure.
pub open spec fn failures_of(
    repos: Seq<Seq<char>>,
    outcomes: Seq<Result<String, ProcessError>>,
) -> Seq<(Seq<char>, ErrorKind, Seq<char>)>
    decreases repos.len(),
{
    if repos.len() == 0 {
        Seq::empty()
    } else {
        let f = failures_of(repos.drop_last(), outcomes.drop_last());
        match outcomes[repos.len() - 1] {
            Ok(_) => f,
            Err(e) => f.push((repos.last(), e.kind, e.reason@)),
        }
    }
}

/// A repository that could not be queried, and why.
#[derive(Debug)]
pub struct RepositoryFailure {
    pub repository: String,
    pub cause: ProcessError,
}

pub open spec fn failure_view(f: RepositoryFailure) -> (Seq<char>, ErrorKind, Seq<char>) {
    (f.repository@, f.cause.kind, f.cause.reason@)
}

pub open spec fn failure_views(fs: Seq<RepositoryFailure>) -> Seq<(Seq<char>, ErrorKind, Seq<char>)> {
    fs.map_values(|f: RepositoryFailure| failure_view(f))
}

/// A catalog, and the repositories that it lacks because their query failed.
#[derive(Debug)]
pub struct CatalogReport {
    pub catalog: Catalog,
    pub failures: Vec<RepositoryFailure>,
}

/// Builds the catalog from the repositories, in the order listed, and what
/// the query of each gave (`outcomes[i]` for `repositories[i]`). A failed
/// query does not stop the build: its repository is left out and recorded.
pub fn build_catalog(
    repositories: &Vec<String>,
    outcomes: &Vec<Result<String, ProcessError>>,
) -> (r: CatalogReport)
    requires
        repositories.len() == outcomes.len(),
        forall|i: int| 0 <= i < repositories.len() ==> is_repository_id(#[trigger] repositories@[i]@),
    ensures
        r.catalog.wf(),
        r.catalog@ == catalog_map(views(repositories@), query_texts(outcomes@)),
        failure_views(r.failures@) == failures_of(views(repositories@), outcomes@),
{
    let ghost rv = views(repositories@);
    let ghost tv = query_texts(outcomes@);
    let mut catalog = Catalog::new();
    let mut failures: Vec<RepositoryFailure> = Vec::new();
    for i in 0..repositories.len()
        invariant
            repositories.len() == outcomes.len(),
            rv == views(repositories@),
            tv == query_texts(outcomes@),
            forall|j: int| 0 <= j < repositories.len() ==> is_repository_id(#[trigger] repositories@[j]@),
            catalog.wf(),
            catalog@ == catalog_map(rv.take(i as int), tv.take(i as int)),
            failure_views(failures@) == failures_of(rv.take(i as int), outcomes@.take(i as int)),
    {
        proof {
            assert(rv.take(i as int + 1).drop_last() =~= rv.take(i as int));
            assert(tv.take(i as int + 1).drop_last() =~= tv.take(i as int));
            assert(outcomes@.take(i as int + 1).drop_last() =~= outcomes@.take(i as int));
            assert(rv.take(i as int + 1).last() == repositories@[i as int]@);
            assert(tv.take(i as int + 1)[i as int] == query_text(outcomes@[i as int]));
            assert(outcomes@.take(i as int + 1)[i as int] == outcomes@[i as int]);
        }
        match &outcomes[i] {
            Ok(text) => {
                let packages = parse_package_list(text.as_str());
                assert(is_repository_id(repositories@[i as int]@));
                catalog.insert(repositories[i].clone(), packages);
            },
            Err(e) => {
                let ghost before = failures@;
                failures.push(RepositoryFailure { repository: repositories[i].clone(), cause: e.duplicate() });
                assert(failure_views(failures@) =~= failure_views(before).push(
                    (repositories@[i as int]@, e.kind, e.reason@),
                ));
            },
        }
    }
    proof {
        assert(rv.take(repositories.len() as int) =~= rv);
        assert(tv.take(repositories.len() as int) =~= tv);
        assert(outcomes@.take(repositories.len() as int) =~= outcomes@);
    }
    CatalogReport { catalog, failures }
}

/// One failed query costs only its own repository: when the repositories are
/// distinct, a repository is in the catalog exactly when its query
/// succeeded, with the packages that query printed, and the catalog holds no
/// other repository.
pub proof fn law_failed_query_left_out(repos: Seq<Seq<char>>, texts: Seq<Option<Seq<char>>>)
    requires
        repos.no_duplicates(),
        repos.len() == texts.len(),
    ensures
        forall|i: int|
            0 <= i < repos.len() ==> (catalog_map(repos, texts).contains_key(#[trigger] repos[i])
                <==> texts[i] is Some),
        forall|i: int|
            0 <= i < repos.len() && texts[i] is Some ==> catalog_map(repos, texts)[#[trigger] repos[i]]
                == lines(texts[i]->0),
        forall|k: Seq<char>| catalog_map(repos, texts).contains_key(k) ==> repos.contains(k),
    decreases repos.len(),
{
    if repos.len() > 0 {
        let n = repos.len() - 1;
        let r0 = repos.drop_last();
        let t0 = texts.drop_last();
        law_failed_query_left_out(r0, t0);
        let m = catalog_map(repos, texts);
        assert forall|i: int| 0 <= i < repos.len() implies (m.contains_key(#[trigger] repos[i])
            <==> texts[i] is Some) && (texts[i] is Some ==> m[repos[i]] == lines(texts[i]->0)) by {
            if i < n {
                assert(r0[i] == repos[i]);
                assert(t0[i] == texts[i]);
                assert(repos[i] != repos[n]);
            } else {
                if texts[n] is None {
                    if catalog_map(r0, t0).contains_key(repos[n]) {
                        assert(r0.contains(repos[n]));
                        let j = choose|j: int| 0 <= j < r0.len() && r0[j] == repos[n];
                        assert(r0[j] == repos[j]);
                        assert(repos[j] == repos[n]);
                    }
                    assert(m == catalog_map(r0, t0));
                }
            }
        }
        assert forall|k: Seq<char>| m.contains_key(k) implies repos.contains(k) by {
            if k == repos[n] {
                assert(repos[n] == k);
            } else {
                assert(catalog_map(r0, t0).contains_key(k));
                assert(r0.contains(k));
                let j = choose|j: int| 0 <= j < r0.len() && r0[j] == k;
                assert(r0[j] == repos[j]);
                assert(repos[j] == k);
            }
        }
    }
}

} // verus!
