//! The dependency resolver: a work-list exploration of the dependency
//! graph that resolves every reachable `(name, range)` pair to a
//! concrete version, deduplicating document fetches per name, range
//! resolutions per `(name, range)` and nodes per `(name, version)`.
//!
//! The resolver itself performs no I/O. `DependencyResolver` is a state
//! machine: the driver asks which document is needed next, hands it in
//! with `add_document`, and calls `step` until the frontier drains.
//! `resolve_deps` runs that protocol against an in-memory `Registry`.

use vstd::prelude::*;

use crate::assoc::{find_from, lemma_find_from_properties};
use crate::npm::{NpmPackageVersion, NpmPackageVersionView, NpmResolvedPackage,
    NpmResolvedPackageView, ResolvedDependencyTree, ResolvedDependencyTreeView, Version,
    VersionRangeSpecifier, tree_view};
use crate::version_range_resolver::{resolve_version_index, spec_selected_index};

verus! {

/// View of a resolution error.
pub enum ErrorView {
    DependencyResolveError,
    VersionDoesNotExist(Seq<char>, Seq<char>),
}

#[derive(Debug, PartialEq, Eq)]
pub enum Error {
    /// The driver broke the protocol: a document needed by the frontier
    /// could not be supplied.
    DependencyResolveError,
    /// The selector found no version for the named reachable
    /// `(name, range)` pair.
    VersionDoesNotExist(String, VersionRangeSpecifier),
}

impl View for Error {
    type V = ErrorView;

    open spec fn view(&self) -> ErrorView {
        match self {
            Error::DependencyResolveError => ErrorView::DependencyResolveError,
            Error::VersionDoesNotExist(n, rg) => ErrorView::VersionDoesNotExist(n@, rg@),
        }
    }
}

/// A `(name, range)` pair, as views.
pub type ReqPair = (Seq<char>, Seq<char>);

/// A pending `(name, range)` resolution.
#[derive(Debug)]
pub struct FrontierItem {
    pub name: String,
    pub range: VersionRangeSpecifier,
    pub is_root: bool,
}

impl View for FrontierItem {
    type V = (Seq<char>, Seq<char>, bool);

    open spec fn view(&self) -> (Seq<char>, Seq<char>, bool) {
        (self.name@, self.range@, self.is_root)
    }
}

/// A memoised selector answer: range `range` of package `name`
/// resolves to concrete version `version`.
#[derive(Debug)]
pub struct RangeSelection {
    pub name: String,
    pub range: VersionRangeSpecifier,
    pub version: Version,
}

impl View for RangeSelection {
    type V = (Seq<char>, Seq<char>, Seq<char>);

    open spec fn view(&self) -> (Seq<char>, Seq<char>, Seq<char>) {
        (self.name@, self.range@, self.version@)
    }
}

/// View of one resolved node before its edges are rewritten.
#[verifier::ext_equal]
pub struct ResolvedEntryView {
    pub name: Seq<char>,
    pub version: Seq<char>,
    pub record: NpmPackageVersionView,
    pub is_root: bool,
}

/// One resolved `(name, version)` node with the full version record.
#[derive(Debug)]
pub struct ResolvedEntry {
    pub name: String,
    pub version: Version,
    pub record: NpmPackageVersion,
    pub is_root: bool,
}

impl View for ResolvedEntry {
    type V = ResolvedEntryView;

    open spec fn view(&self) -> ResolvedEntryView {
        ResolvedEntryView {
            name: self.name@,
            version: self.version@,
            record: self.record@,
            is_root: self.is_root,
        }
    }
}

/// View of a finished resolved node.
#[verifier::ext_equal]
pub struct ResolvedDependenciesView {
    pub name: Seq<char>,
    pub version: Seq<char>,
    pub record: NpmPackageVersionView,
    pub dependencies: Seq<ReqPair>,
    pub is_root: bool,
}

/// A finished resolved node: its key, its version record, and one
/// `(name, version)` reference per declared dependency, in declaration
/// order.
#[derive(Debug, PartialEq, Eq)]
pub struct ResolvedDependencies {
    pub name: String,
    pub version: Version,
    pub record: NpmPackageVersion,
    pub dependencies: Vec<(String, Version)>,
    pub is_root: bool,
}

impl View for ResolvedDependencies {
    type V = ResolvedDependenciesView;

    open spec fn view(&self) -> ResolvedDependenciesView {
        ResolvedDependenciesView {
            name: self.name@,
            version: self.version@,
            record: self.record@,
            dependencies: self.dependencies@.map_values(
                |d: (String, Version)| (d.0@, d.1@),
            ),
            is_root: self.is_root,
        }
    }
}

/// The registry as the resolver sees it: one document per package
/// name; lookups take the first entry with a matching name.
pub struct Registry {
    pub packages: Vec<(String, NpmResolvedPackage)>,
}

impl View for Registry {
    type V = Seq<(Seq<char>, NpmResolvedPackageView)>;

    open spec fn view(&self) -> Seq<(Seq<char>, NpmResolvedPackageView)> {
        self.packages@.map_values(|e: (String, NpmResolvedPackage)| (e.0@, e.1@))
    }
}

/// Index of the first document named `name` in a document table.
pub open spec fn doc_index(
    docs: Seq<(Seq<char>, NpmResolvedPackageView)>,
    name: Seq<char>,
) -> Option<int> {
    find_from(docs, 0, |e: (Seq<char>, NpmResolvedPackageView)| e.0 == name)
}

/// The `(name, range)` pairs of a frontier.
pub open spec fn frontier_pairs(fr: Seq<(Seq<char>, Seq<char>, bool)>) -> Seq<ReqPair> {
    fr.map_values(|t: (Seq<char>, Seq<char>, bool)| (t.0, t.1))
}

/// The `(name, range)` keys of a selection memo.
pub open spec fn index_pairs(idx: Seq<(Seq<char>, Seq<char>, Seq<char>)>) -> Seq<ReqPair> {
    idx.map_values(|t: (Seq<char>, Seq<char>, Seq<char>)| (t.0, t.1))
}

/// The `(name, version)` keys of the resolved set.
pub open spec fn resolved_keys(rs: Seq<ResolvedEntryView>) -> Seq<ReqPair> {
    rs.map_values(|e: ResolvedEntryView| (e.name, e.version))
}

/// All dependency pairs a document can introduce.
pub open spec fn doc_pairs_one(doc: NpmResolvedPackageView) -> Seq<ReqPair> {
    doc.versions.map_values(|v: (Seq<char>, NpmPackageVersionView)| v.1.deps()).flatten()
}

/// All dependency pairs the fetched documents can introduce.
pub open spec fn doc_pairs(docs: Seq<(Seq<char>, NpmResolvedPackageView)>) -> Seq<ReqPair> {
    docs.map_values(|d: (Seq<char>, NpmResolvedPackageView)| doc_pairs_one(d.1)).flatten()
}

/// The version that the selector memo records for `pair`, if any.
pub open spec fn index_lookup(
    idx: Seq<(Seq<char>, Seq<char>, Seq<char>)>,
    pair: ReqPair,
) -> Option<int> {
    find_from(idx, 0, |t: (Seq<char>, Seq<char>, Seq<char>)| t.0 == pair.0 && t.1 == pair.1)
}

/// The mutable heart of the resolver state, as views.
#[verifier::ext_equal]
pub struct ResolverCoreView {
    pub frontier: Seq<(Seq<char>, Seq<char>, bool)>,
    pub range_index: Seq<(Seq<char>, Seq<char>, Seq<char>)>,
    pub resolved: Seq<ResolvedEntryView>,
}

/// The whole resolver state, as views.
#[verifier::ext_equal]
pub struct ResolverStateView {
    pub core: ResolverCoreView,
    pub docs: Seq<(Seq<char>, NpmResolvedPackageView)>,
    pub roots: Seq<ReqPair>,
}

/// Seed a frontier from the root requests, deduplicating pairs.
pub open spec fn spec_seed(
    fr: Seq<(Seq<char>, Seq<char>, bool)>,
    roots: Seq<ReqPair>,
) -> Seq<(Seq<char>, Seq<char>, bool)>
    decreases roots.len(),
{
    if roots.len() == 0 {
        fr
    } else {
        let d = roots.first();
        let fr1 = if frontier_pairs(fr).contains(d) {
            fr
        } else {
            fr.push((d.0, d.1, true))
        };
        spec_seed(fr1, roots.drop_first())
    }
}

/// Enqueue the dependency pairs of a freshly resolved version,
/// skipping pairs already memoised or already pending.
pub open spec fn spec_enqueue(
    fr: Seq<(Seq<char>, Seq<char>, bool)>,
    idx: Seq<(Seq<char>, Seq<char>, Seq<char>)>,
    deps: Seq<ReqPair>,
) -> Seq<(Seq<char>, Seq<char>, bool)>
    decreases deps.len(),
{
    if deps.len() == 0 {
        fr
    } else {
        let d = deps.first();
        let fr1 = if index_pairs(idx).contains(d) || frontier_pairs(fr).contains(d) {
            fr
        } else {
            fr.push((d.0, d.1, false))
        };
        spec_enqueue(fr1, idx, deps.drop_first())
    }
}

/// Record a resolved `(name, version)` node, or upgrade its root mark.
pub open spec fn spec_insert_resolved(
    rs: Seq<ResolvedEntryView>,
    name: Seq<char>,
    version: Seq<char>,
    record: NpmPackageVersionView,
    is_root: bool,
) -> Seq<ResolvedEntryView> {
    match find_from(
        rs,
        0,
        |e: ResolvedEntryView| e.name == name && e.version == version,
    ) {
        Some(i) => if is_root {
            rs.update(
                i,
                ResolvedEntryView { name: rs[i].name, version: rs[i].version, record: rs[i].record, is_root: true },
            )
        } else {
            rs
        },
        None => rs.push(ResolvedEntryView { name, version, record, is_root }),
    }
}

/// One resolution step: take the last frontier item, select its
/// version from `doc`, memoise the selection, record the node, and
/// enqueue its dependency pairs.
pub open spec fn spec_step(c: ResolverCoreView, doc: NpmResolvedPackageView) -> Result<
    ResolverCoreView,
    ErrorView,
>
    recommends
        c.frontier.len() > 0,
{
    let item = c.frontier.last();
    let rest = c.frontier.drop_last();
    match spec_selected_index(doc, item.1) {
        None => Err(ErrorView::VersionDoesNotExist(item.0, item.1)),
        Some(vi) => {
            let version = doc.versions[vi].0;
            let record = doc.versions[vi].1;
            let idx2 = c.range_index.push((item.0, item.1, version));
            let resolved2 = spec_insert_resolved(c.resolved, item.0, version, record, item.2);
            let frontier2 = spec_enqueue(rest, idx2, record.deps());
            Ok(ResolverCoreView { frontier: frontier2, range_index: idx2, resolved: resolved2 })
        },
    }
}

/// Well-formedness of the resolver state. All of these hold from
/// `new` on and are preserved by `add_document` and `step`.
pub open spec fn state_wf(s: ResolverStateView) -> bool {
    // each (name, range) pair is memoised at most once
    &&& index_pairs(s.core.range_index).no_duplicates()
    // pending pairs are distinct and not yet memoised
    &&& frontier_pairs(s.core.frontier).no_duplicates()
    &&& forall|p: ReqPair|
        frontier_pairs(s.core.frontier).contains(p) ==> !index_pairs(
            s.core.range_index,
        ).contains(p)
    // at most one document, and one node, per key
    &&& s.docs.map_values(|d: (Seq<char>, NpmResolvedPackageView)| d.0).no_duplicates()
    &&& resolved_keys(s.core.resolved).no_duplicates()
    // every declared dependency of a resolved node is memoised or pending
    &&& forall|i: int, j: int|
        0 <= i < s.core.resolved.len() && 0 <= j < (#[trigger] s.core.resolved[i]).record.deps().len()
            ==> index_pairs(s.core.range_index).contains(
            #[trigger] s.core.resolved[i].record.deps()[j],
        ) || frontier_pairs(s.core.frontier).contains(s.core.resolved[i].record.deps()[j])
    // every memoised selection has its node in the resolved set
    &&& forall|i: int|
        0 <= i < s.core.range_index.len() ==> resolved_keys(s.core.resolved).contains(
            ((#[trigger] s.core.range_index[i]).0, s.core.range_index[i].2),
        )
    // a document is fetched only for a name that was pending or is memoised
    &&& forall|i: int|
        0 <= i < s.docs.len() ==> frontier_names(s.core.frontier).contains(
            (#[trigger] s.docs[i]).0,
        ) || index_names(s.core.range_index).contains(s.docs[i].0)
    // every memoised name has its document fetched
    &&& forall|i: int|
        0 <= i < s.core.range_index.len() ==> doc_index(
            s.docs,
            (#[trigger] s.core.range_index[i]).0,
        ) is Some
    // every pair the resolver works on came from the roots or from a
    // fetched document
    &&& forall|p: ReqPair|
        frontier_pairs(s.core.frontier).contains(p) ==> s.roots.contains(p) || doc_pairs(
            s.docs,
        ).contains(p)
    &&& forall|p: ReqPair|
        index_pairs(s.core.range_index).contains(p) ==> s.roots.contains(p) || doc_pairs(
            s.docs,
        ).contains(p)
}


/// Names occurring in a frontier.
pub open spec fn frontier_names(fr: Seq<(Seq<char>, Seq<char>, bool)>) -> Seq<Seq<char>> {
    fr.map_values(|t: (Seq<char>, Seq<char>, bool)| t.0)
}

/// Names occurring in the selection memo.
pub open spec fn index_names(idx: Seq<(Seq<char>, Seq<char>, Seq<char>)>) -> Seq<Seq<char>> {
    idx.map_values(|t: (Seq<char>, Seq<char>, Seq<char>)| t.0)
}

/// View of a frontier vector.
pub open spec fn fr_view(s: Seq<FrontierItem>) -> Seq<(Seq<char>, Seq<char>, bool)> {
    s.map_values(|it: FrontierItem| it@)
}

/// View of a selection memo vector.
pub open spec fn idx_view(s: Seq<RangeSelection>) -> Seq<(Seq<char>, Seq<char>, Seq<char>)> {
    s.map_values(|t: RangeSelection| t@)
}

/// View of a resolved-entry vector.
pub open spec fn rs_view(s: Seq<ResolvedEntry>) -> Seq<ResolvedEntryView> {
    s.map_values(|e: ResolvedEntry| e@)
}

/// View of a document table vector.
pub open spec fn docs_view(s: Seq<(String, NpmResolvedPackage)>) -> Seq<
    (Seq<char>, NpmResolvedPackageView),
> {
    s.map_values(|d: (String, NpmResolvedPackage)| (d.0@, d.1@))
}

/// An element of a member sequence is an element of the flattened
/// sequence.
pub proof fn lemma_flatten_elt<A>(s: Seq<Seq<A>>, i: int, x: A)
    requires
        0 <= i < s.len(),
        s[i].contains(x),
    ensures
        s.flatten().contains(x),
    decreases s.len(),
{
    if i == 0 {
        assert(s.flatten() == s.first() + s.drop_first().flatten());
        let k = choose|k: int| 0 <= k < s.first().len() && s.first()[k] == x;
        assert((s.first() + s.drop_first().flatten())[k] == x);
    } else {
        lemma_flatten_elt(s.drop_first(), i - 1, x);
        assert(s.flatten() == s.first() + s.drop_first().flatten());
        let k = choose|k: int|
            0 <= k < s.drop_first().flatten().len() && s.drop_first().flatten()[k] == x;
        assert((s.first() + s.drop_first().flatten())[s.first().len() + k] == x);
    }
}

/// Pushing onto a duplicate-free sequence keeps it duplicate-free when
/// the new element is fresh.
pub proof fn lemma_push_no_dup<A>(s: Seq<A>, x: A)
    requires
        s.no_duplicates(),
        !s.contains(x),
    ensures
        s.push(x).no_duplicates(),
{
}

/// A duplicate-free sequence drawn from a finite set is no longer than
/// the set.
pub proof fn lemma_distinct_seq_bound<A>(s: Seq<A>, u: Set<A>)
    requires
        s.no_duplicates(),
        u.finite(),
        forall|i: int| 0 <= i < s.len() ==> u.contains(#[trigger] s[i]),
    ensures
        s.len() <= u.len(),
{
    s.unique_seq_to_set();
    assert(s.to_set().subset_of(u));
    vstd::set_lib::lemma_len_subset(s.to_set(), u);
}

/// What enqueueing does to a frontier: it appends the fresh dependency
/// pairs, keeps pairs duplicate-free and disjoint from the memo, and
/// afterwards every dependency pair is memoised or pending.
pub proof fn lemma_enqueue_props(
    fr: Seq<(Seq<char>, Seq<char>, bool)>,
    idx: Seq<(Seq<char>, Seq<char>, Seq<char>)>,
    deps: Seq<ReqPair>,
)
    requires
        frontier_pairs(fr).no_duplicates(),
        forall|p: ReqPair|
            frontier_pairs(fr).contains(p) ==> !index_pairs(idx).contains(p),
    ensures
        ({
            let r = spec_enqueue(fr, idx, deps);
            &&& frontier_pairs(r).no_duplicates()
            &&& forall|p: ReqPair|
                frontier_pairs(r).contains(p) ==> !index_pairs(idx).contains(p)
            &&& fr.len() <= r.len()
            &&& forall|i: int| 0 <= i < fr.len() ==> r[i] == fr[i]
            &&& forall|i: int|
                fr.len() <= i < r.len() ==> (#[trigger] r[i]).2 == false && deps.contains(
                    (r[i].0, r[i].1),
                )
            &&& forall|p: ReqPair|
                frontier_pairs(r).contains(p) ==> frontier_pairs(fr).contains(p)
                    || deps.contains(p)
            &&& forall|d: ReqPair|
                deps.contains(d) ==> index_pairs(idx).contains(d) || frontier_pairs(
                    r,
                ).contains(d)
        }),
    decreases deps.len(),
{
    if deps.len() > 0 {
        let d = deps.first();
        let in_old = index_pairs(idx).contains(d) || frontier_pairs(fr).contains(d);
        let fr1 = if in_old {
            fr
        } else {
            fr.push((d.0, d.1, false))
        };
        assert(frontier_pairs(fr.push((d.0, d.1, false))) =~= frontier_pairs(fr).push(d));
        if !in_old {
            lemma_push_no_dup(frontier_pairs(fr), d);
        }
        lemma_enqueue_props(fr1, idx, deps.drop_first());
        let r = spec_enqueue(fr, idx, deps);
        assert(r == spec_enqueue(fr1, idx, deps.drop_first()));
        assert forall|dd: ReqPair| deps.contains(dd) implies index_pairs(idx).contains(dd)
            || frontier_pairs(r).contains(dd) by {
            let k = choose|k: int| 0 <= k < deps.len() && deps[k] == dd;
            if k == 0 {
                if !index_pairs(idx).contains(d) {
                    if !frontier_pairs(fr).contains(d) {
                        assert(frontier_pairs(fr1) =~= frontier_pairs(fr).push(d));
                        assert(frontier_pairs(fr1)[frontier_pairs(fr).len() as int] == d);
                    }
                    assert(frontier_pairs(fr1).contains(d));
                    let w = choose|w: int|
                        0 <= w < frontier_pairs(fr1).len() && frontier_pairs(fr1)[w] == d;
                    assert(frontier_pairs(r)[w] == d);
                }
            } else {
                assert(deps.drop_first()[k - 1] == dd);
                assert(deps.drop_first().contains(dd));
            }
        }
        assert forall|i: int| fr.len() <= i < r.len() implies (#[trigger] r[i]).2 == false
            && deps.contains((r[i].0, r[i].1)) by {
            if i < fr1.len() {
                assert(r[i] == fr1[i]);
                assert(i == fr.len());
                assert(fr1[i] == (d.0, d.1, false));
                assert(deps[0] == d);
            } else {
                assert(deps.drop_first().contains((r[i].0, r[i].1)));
                let k = choose|k: int|
                    0 <= k < deps.drop_first().len() && deps.drop_first()[k] == (
                        r[i].0,
                        r[i].1,
                    );
                assert(deps[k + 1] == (r[i].0, r[i].1));
            }
        }
        assert forall|p: ReqPair| frontier_pairs(r).contains(p) implies frontier_pairs(
            fr,
        ).contains(p) || deps.contains(p) by {
            if frontier_pairs(fr1).contains(p) && !frontier_pairs(fr).contains(p) {
                assert(p == d);
                assert(deps[0] == d);
            }
            if !frontier_pairs(fr1).contains(p) {
                assert(deps.drop_first().contains(p));
                let k = choose|k: int|
                    0 <= k < deps.drop_first().len() && deps.drop_first()[k] == p;
                assert(deps[k + 1] == p);
            }
        }
    }
}

/// A successful lookup stays successful when the table grows at the
/// end.
pub proof fn lemma_find_from_push_some<T>(s: Seq<T>, x: T, p: spec_fn(T) -> bool)
    requires
        find_from(s, 0, p) is Some,
    ensures
        find_from(s.push(x), 0, p) is Some,
{
    lemma_find_from_properties(s, 0, p);
    lemma_find_from_properties(s.push(x), 0, p);
    let j = find_from(s, 0, p)->0;
    assert(s.push(x)[j] == s[j]);
}


/// The resolver state machine. The driver (an installer, a test, or
/// `resolve_deps`) supplies registry documents on demand and calls
/// `step` until `is_done`.
pub struct DependencyResolver {
    pub frontier: Vec<FrontierItem>,
    pub docs: Vec<(String, NpmResolvedPackage)>,
    pub range_index: Vec<RangeSelection>,
    pub resolved: Vec<ResolvedEntry>,
    pub roots: Ghost<Seq<ReqPair>>,
}

impl View for DependencyResolver {
    type V = ResolverStateView;

    open spec fn view(&self) -> ResolverStateView {
        ResolverStateView {
            core: ResolverCoreView {
                frontier: fr_view(self.frontier@),
                range_index: idx_view(self.range_index@),
                resolved: rs_view(self.resolved@),
            },
            docs: docs_view(self.docs@),
            roots: self.roots@,
        }
    }
}

/// Whether `(name, range)` is already pending.
fn frontier_contains_pair(
    fr: &Vec<FrontierItem>,
    name: &String,
    range: &VersionRangeSpecifier,
) -> (r: bool)
    ensures
        r == frontier_pairs(fr_view(fr@)).contains((name@, range@)),
{
    let ghost pairs = frontier_pairs(fr_view(fr@));
    let mut i: usize = 0;
    while i < fr.len()
        invariant
            i <= fr@.len(),
            forall|k: int| 0 <= k < i ==> #[trigger] pairs[k] != (name@, range@),
        decreases fr@.len() - i,
    {
        if fr[i].name.eq(name) && fr[i].range.0.eq(&range.0) {
            assert(pairs[i as int] == (name@, range@));
            return true;
        }
        assert(pairs[i as int] != (name@, range@));
        i = i + 1;
    }
    false
}

/// Whether `name` occurs in a name list.
fn contains_string(list: &Vec<String>, name: &String) -> (r: bool)
    ensures
        r == (exists|w: int| 0 <= w < list@.len() && (#[trigger] list@[w])@ == name@),
{
    let mut i: usize = 0;
    while i < list.len()
        invariant
            i <= list@.len(),
            forall|k: int| 0 <= k < i ==> (#[trigger] list@[k])@ != name@,
        decreases list@.len() - i,
    {
        if list[i].eq(name) {
            return true;
        }
        i = i + 1;
    }
    false
}

/// Whether `(name, range)` is already memoised.
fn index_contains_pair(
    idx: &Vec<RangeSelection>,
    name: &String,
    range: &VersionRangeSpecifier,
) -> (r: bool)
    ensures
        r == index_pairs(idx_view(idx@)).contains((name@, range@)),
{
    let ghost pairs = index_pairs(idx_view(idx@));
    let mut i: usize = 0;
    while i < idx.len()
        invariant
            i <= idx@.len(),
            forall|k: int| 0 <= k < i ==> #[trigger] pairs[k] != (name@, range@),
        decreases idx@.len() - i,
    {
        if idx[i].name.eq(name) && idx[i].range.0.eq(&range.0) {
            assert(pairs[i as int] == (name@, range@));
            return true;
        }
        assert(pairs[i as int] != (name@, range@));
        i = i + 1;
    }
    false
}

impl DependencyResolver {
    /// Protocol invariant; holds from `new` on.
    pub open spec fn wf(&self) -> bool {
        state_wf(self@)
    }

    /// Start a resolution with the given root requests, deduplicated
    /// and marked as roots.
    pub fn new(root_requests: &Vec<(String, VersionRangeSpecifier)>) -> (s: Self)
        ensures
            s.wf(),
            s@.roots == view_root_pairs(root_requests@),
            s@.core.frontier == spec_seed(Seq::empty(), view_root_pairs(root_requests@)),
            s@.core.range_index == Seq::<(Seq<char>, Seq<char>, Seq<char>)>::empty(),
            s@.core.resolved == Seq::<ResolvedEntryView>::empty(),
            s@.docs == Seq::<(Seq<char>, NpmResolvedPackageView)>::empty(),
    {
        let ghost rootsv = view_root_pairs(root_requests@);
        let mut frontier: Vec<FrontierItem> = Vec::new();
        proof {
            assert(fr_view(frontier@) =~= Seq::<(Seq<char>, Seq<char>, bool)>::empty());
            assert(frontier_pairs(fr_view(frontier@)) =~= Seq::<ReqPair>::empty());
            assert(rootsv.skip(0) =~= rootsv);
        }
        let mut i: usize = 0;
        while i < root_requests.len()
            invariant
                i <= root_requests@.len(),
                frontier_pairs(fr_view(frontier@)).no_duplicates(),
                spec_seed(Seq::empty(), rootsv) == spec_seed(
                    fr_view(frontier@),
                    rootsv.skip(i as int),
                ),
                forall|p: ReqPair|
                    frontier_pairs(fr_view(frontier@)).contains(p) ==> rootsv.contains(p),
                forall|k: int|
                    0 <= k < frontier@.len() ==> (#[trigger] fr_view(frontier@)[k]).2 == true,
            decreases root_requests@.len() - i,
        {
            let ghost before = fr_view(frontier@);
            let ghost rest = rootsv.skip(i as int);
            proof {
                assert(rest.len() > 0);
                assert(rest.first() == (root_requests@[i as int].0@, root_requests@[
                    i as int].1@));
                assert(rest.drop_first() =~= rootsv.skip(i + 1));
            }
            let (n, rg) = &root_requests[i];
            let dup = frontier_contains_pair(&frontier, n, rg);
            if !dup {
                frontier.push(FrontierItem { name: n.clone(), range: rg.duplicate(), is_root: true });
                proof {
                    assert(fr_view(frontier@) =~= before.push((n@, rg@, true)));
                    assert(frontier_pairs(fr_view(frontier@)) =~= frontier_pairs(
                        before,
                    ).push((n@, rg@)));
                    lemma_push_no_dup(frontier_pairs(before), (n@, rg@));
                    assert forall|p: ReqPair|
                        frontier_pairs(fr_view(frontier@)).contains(p) implies rootsv.contains(
                        p,
                    ) by {
                        if !frontier_pairs(before).contains(p) {
                            assert(p == (n@, rg@));
                            assert(rootsv[i as int] == p);
                        }
                    }
                }
            }
            proof {
                assert(spec_seed(before, rest) == spec_seed(fr_view(frontier@), rest.drop_first()));
            }
            i = i + 1;
        }
        proof {
            assert(rootsv.skip(root_requests@.len() as int) =~= Seq::<ReqPair>::empty());
            assert(spec_seed(Seq::empty(), rootsv) == fr_view(frontier@));
        }
        let s = DependencyResolver {
            frontier,
            docs: Vec::new(),
            range_index: Vec::new(),
            resolved: Vec::new(),
            roots: Ghost(rootsv),
        };
        proof {
            assert(idx_view(s.range_index@) =~= Seq::<(Seq<char>, Seq<char>, Seq<char>)>::empty());
            assert(rs_view(s.resolved@) =~= Seq::<ResolvedEntryView>::empty());
            assert(docs_view(s.docs@) =~= Seq::<(Seq<char>, NpmResolvedPackageView)>::empty());
            assert(index_pairs(idx_view(s.range_index@)) =~= Seq::<ReqPair>::empty());
            assert(resolved_keys(rs_view(s.resolved@)) =~= Seq::<ReqPair>::empty());
            assert(docs_view(s.docs@).map_values(|d: (Seq<char>, NpmResolvedPackageView)| d.0)
                =~= Seq::<Seq<char>>::empty());
            assert(state_wf(s@));
        }
        s
    }

    /// Whether resolution is complete.
    pub fn is_done(&self) -> (r: bool)
        ensures
            r == (self@.core.frontier.len() == 0),
    {
        self.frontier.len() == 0
    }

    /// Position of the document for `name`, if it was already supplied.
    fn position_of_doc(&self, name: &String) -> (r: Option<usize>)
        ensures
            match doc_index(self@.docs, name@) {
                Some(i) => r is Some && r->0 == i && 0 <= i < self@.docs.len(),
                None => r is None,
            },
    {
        let ghost docs = self@.docs;
        let ghost p = |e: (Seq<char>, NpmResolvedPackageView)| e.0 == name@;
        proof {
            lemma_find_from_properties(docs, 0, p);
        }
        let mut i: usize = 0;
        while i < self.docs.len()
            invariant
                i <= self.docs@.len(),
                forall|k: int| 0 <= k < i ==> !p(#[trigger] docs[k]),
            decreases self.docs@.len() - i,
        {
            if self.docs[i].0.eq(name) {
                assert(p(docs[i as int]));
                return Some(i);
            }
            assert(docs[i as int] == (self.docs@[i as int].0@, self.docs@[i as int].1@));
            i = i + 1;
        }
        None
    }

    /// Whether the document for `name` was already supplied.
    pub fn has_document(&self, name: &String) -> (r: bool)
        ensures
            r == (doc_index(self@.docs, name@) is Some),
    {
        match self.position_of_doc(name) {
            Some(_) => true,
            None => false,
        }
    }

    /// All distinct pending names whose documents are still missing:
    /// the registry fetches of the next wave. Fetching them all (in
    /// any order, concurrently if the driver likes) lets the frontier
    /// drain without further fetches until new names appear.
    pub fn pending_fetches(&self) -> (r: Vec<String>)
        ensures
            forall|k: int|
                0 <= k < r@.len() ==> frontier_names(self@.core.frontier).contains(
                    (#[trigger] r@[k])@,
                ) && doc_index(self@.docs, r@[k]@) is None,
            forall|k1: int, k2: int|
                0 <= k1 < k2 < r@.len() ==> (#[trigger] r@[k1])@ != (#[trigger] r@[k2])@,
            forall|k: int|
                0 <= k < self@.core.frontier.len() ==> doc_index(
                    self@.docs,
                    frontier_names(self@.core.frontier)[k],
                ) is Some || exists|w: int|
                    0 <= w < r@.len() && (#[trigger] r@[w])@ == frontier_names(
                        self@.core.frontier,
                    )[k],
    {
        let ghost fnames = frontier_names(self@.core.frontier);
        let mut out: Vec<String> = Vec::new();
        let mut i: usize = 0;
        while i < self.frontier.len()
            invariant
                i <= self.frontier@.len(),
                fnames == frontier_names(self@.core.frontier),
                forall|k: int|
                    0 <= k < out@.len() ==> fnames.contains((#[trigger] out@[k])@)
                        && doc_index(self@.docs, out@[k]@) is None,
                forall|k1: int, k2: int|
                    0 <= k1 < k2 < out@.len() ==> (#[trigger] out@[k1])@ != (
                    #[trigger] out@[k2])@,
                forall|k: int|
                    0 <= k < i ==> doc_index(self@.docs, fnames[k]) is Some || exists|w: int|
                        0 <= w < out@.len() && (#[trigger] out@[w])@ == fnames[k],
            decreases self.frontier@.len() - i,
        {
            let name = &self.frontier[i].name;
            let ghost out0 = out@;
            proof {
                assert(fnames[i as int] == name@);
            }
            let fetched = self.has_document(name);
            let listed = contains_string(&out, name);
            if !fetched && !listed {
                out.push(name.clone());
                proof {
                    assert(out@[out@.len() - 1]@ == name@);
                    assert(fnames.contains(name@));
                }
            }
            proof {
                assert forall|k: int|
                    0 <= k < i + 1 implies doc_index(self@.docs, fnames[k]) is Some
                    || exists|w: int|
                        0 <= w < out@.len() && (#[trigger] out@[w])@ == fnames[k] by {
                    if doc_index(self@.docs, fnames[k]) is None {
                        if k < i {
                            let w = choose|w: int|
                                0 <= w < out0.len() && (#[trigger] out0[w])@ == fnames[k];
                            assert(out@[w]@ == fnames[k]);
                        } else if listed {
                            let w = choose|w: int|
                                0 <= w < out0.len() && (#[trigger] out0[w])@ == name@;
                            assert(out@[w]@ == fnames[k]);
                        } else {
                            assert(out@[out@.len() - 1]@ == fnames[k]);
                        }
                    }
                }
            }
            i = i + 1;
        }
        out
    }

    /// The name whose document must be supplied before the next step,
    /// if it is still missing.
    pub fn needed_doc(&self) -> (r: Option<&String>)
        requires
            self@.core.frontier.len() > 0,
        ensures
            match r {
                Some(n) => n@ == self@.core.frontier.last().0 && doc_index(
                    self@.docs,
                    n@,
                ) is None,
                None => doc_index(self@.docs, self@.core.frontier.last().0) is Some,
            },
    {
        let li = self.frontier.len() - 1;
        let name = &self.frontier[li].name;
        match self.position_of_doc(name) {
            Some(_) => None,
            None => Some(name),
        }
    }

    /// Supply the registry document for `name`. The protocol only asks
    /// for names that are pending, and only once per name.
    pub fn add_document(&mut self, name: String, doc: NpmResolvedPackage)
        requires
            old(self).wf(),
            doc_index(old(self)@.docs, name@) is None,
            frontier_names(old(self)@.core.frontier).contains(name@),
        ensures
            final(self).wf(),
            final(self)@.core == old(self)@.core,
            final(self)@.roots == old(self)@.roots,
            final(self)@.docs == old(self)@.docs.push((name@, doc@)),
    {
        let ghost olds = self@;
        proof {
            lemma_find_from_properties(
                olds.docs,
                0,
                |e: (Seq<char>, NpmResolvedPackageView)| e.0 == name@,
            );
        }
        self.docs.push((name, doc));
        proof {
            let news = self@;
            let pushed = (news.docs.last().0, news.docs.last().1);
            assert(news.docs =~= olds.docs.push(pushed));
            assert(news.core =~= olds.core);
            lemma_doc_pairs_push(olds.docs, pushed.0, pushed.1);
            assert(doc_pairs(news.docs) == doc_pairs(olds.docs) + doc_pairs_one(pushed.1));
            assert(news.core.frontier == olds.core.frontier);
            assert(news.core.range_index == olds.core.range_index);
            assert(news.core.resolved == olds.core.resolved);
            assert(news.roots == olds.roots);
            let names_old = olds.docs.map_values(
                |d: (Seq<char>, NpmResolvedPackageView)| d.0,
            );
            let names_new = news.docs.map_values(
                |d: (Seq<char>, NpmResolvedPackageView)| d.0,
            );
            assert(names_new =~= names_old.push(news.docs.last().0));
            assert(!names_old.contains(news.docs.last().0));
            lemma_push_no_dup(names_old, news.docs.last().0);
            assert forall|i: int|
                0 <= i < news.core.range_index.len() implies doc_index(
                news.docs,
                (#[trigger] news.core.range_index[i]).0,
            ) is Some by {
                lemma_find_from_push_some(
                    olds.docs,
                    news.docs.last(),
                    |e: (Seq<char>, NpmResolvedPackageView)| e.0 == news.core.range_index[i].0,
                );
            }
            assert forall|p: ReqPair|
                frontier_pairs(news.core.frontier).contains(p) implies news.roots.contains(p)
                || doc_pairs(news.docs).contains(p) by {
                assert(frontier_pairs(olds.core.frontier).contains(p));
                assert(olds.roots.contains(p) || doc_pairs(olds.docs).contains(p));
                if doc_pairs(olds.docs).contains(p) {
                    let k = choose|k: int|
                        0 <= k < doc_pairs(olds.docs).len() && doc_pairs(olds.docs)[k] == p;
                    assert((doc_pairs(olds.docs) + doc_pairs_one(pushed.1))[k] == p);
                    assert(doc_pairs(news.docs)[k] == p);
                }
            }
            assert forall|p: ReqPair|
                index_pairs(news.core.range_index).contains(p) implies news.roots.contains(p)
                || doc_pairs(news.docs).contains(p) by {
                assert(index_pairs(olds.core.range_index).contains(p));
                assert(olds.roots.contains(p) || doc_pairs(olds.docs).contains(p));
                if doc_pairs(olds.docs).contains(p) {
                    let k = choose|k: int|
                        0 <= k < doc_pairs(olds.docs).len() && doc_pairs(olds.docs)[k] == p;
                    assert((doc_pairs(olds.docs) + doc_pairs_one(pushed.1))[k] == p);
                    assert(doc_pairs(news.docs)[k] == p);
                }
            }
            assert(state_wf(news));
        }
    }
}

/// The `(name, range)` views of the root request list.
pub open spec fn view_root_pairs(roots: Seq<(String, VersionRangeSpecifier)>) -> Seq<ReqPair> {
    roots.map_values(|e: (String, VersionRangeSpecifier)| (e.0@, e.1@))
}

/// Growing the document table extends the pairs it can introduce.
pub proof fn lemma_doc_pairs_push(
    docs: Seq<(Seq<char>, NpmResolvedPackageView)>,
    name: Seq<char>,
    doc: NpmResolvedPackageView,
)
    ensures
        doc_pairs(docs.push((name, doc))) == doc_pairs(docs) + doc_pairs_one(doc),
{
    let f = |d: (Seq<char>, NpmResolvedPackageView)| doc_pairs_one(d.1);
    assert(docs.push((name, doc)).map_values(f) =~= docs.map_values(f).push(
        doc_pairs_one(doc),
    ));
    broadcast use vstd::seq_lib::group_seq_lib_default;
    assert(docs.map_values(f).push(doc_pairs_one(doc)).flatten() == docs.map_values(
        f,
    ).flatten() + doc_pairs_one(doc)) by {
        docs.map_values(f).push(doc_pairs_one(doc)).lemma_flatten_and_flatten_alt_are_equivalent();
        docs.map_values(f).lemma_flatten_and_flatten_alt_are_equivalent();
        assert(docs.map_values(f).push(doc_pairs_one(doc)).drop_last() =~= docs.map_values(f));
    }
}


/// What recording a node does to the resolved set: the key appears,
/// existing entries keep their identity, and keys stay duplicate-free.
pub proof fn lemma_insert_resolved_props(
    rs: Seq<ResolvedEntryView>,
    name: Seq<char>,
    version: Seq<char>,
    record: NpmPackageVersionView,
    is_root: bool,
)
    requires
        resolved_keys(rs).no_duplicates(),
    ensures
        ({
            let r = spec_insert_resolved(rs, name, version, record, is_root);
            &&& resolved_keys(r).no_duplicates()
            &&& resolved_keys(r).contains((name, version))
            &&& forall|k: ReqPair|
                resolved_keys(rs).contains(k) ==> resolved_keys(r).contains(k)
            &&& rs.len() <= r.len()
            &&& forall|i: int|
                0 <= i < rs.len() ==> (#[trigger] r[i]).name == rs[i].name && r[i].version
                    == rs[i].version && r[i].record == rs[i].record
            &&& forall|i: int|
                rs.len() <= i < r.len() ==> #[trigger] r[i] == (ResolvedEntryView {
                    name,
                    version,
                    record,
                    is_root,
                })
        }),
{
    let p = |e: ResolvedEntryView| e.name == name && e.version == version;
    lemma_find_from_properties(rs, 0, p);
    let r = spec_insert_resolved(rs, name, version, record, is_root);
    match find_from(rs, 0, p) {
        Some(i) => {
            assert(resolved_keys(rs)[i] == (name, version));
            if is_root {
                assert(resolved_keys(r) =~= resolved_keys(rs));
            }
            assert(resolved_keys(r).contains((name, version)));
        },
        None => {
            assert(r == rs.push(ResolvedEntryView { name, version, record, is_root }));
            assert(resolved_keys(r) =~= resolved_keys(rs).push((name, version)));
            assert forall|k: int| 0 <= k < rs.len() implies #[trigger] resolved_keys(
                rs,
            )[k] != (name, version) by {
                assert(!p(rs[k]));
            }
            assert(!resolved_keys(rs).contains((name, version)));
            lemma_push_no_dup(resolved_keys(rs), (name, version));
            assert(resolved_keys(r)[rs.len() as int] == (name, version));
            assert forall|k: ReqPair| resolved_keys(rs).contains(k) implies resolved_keys(
                r,
            ).contains(k) by {
                let w = choose|w: int|
                    0 <= w < resolved_keys(rs).len() && resolved_keys(rs)[w] == k;
                assert(resolved_keys(r)[w] == k);
            }
        },
    }
}

/// A dependency pair read from a fetched document is one of the pairs
/// that document table can introduce.
pub proof fn lemma_dep_in_doc_pairs(
    docs: Seq<(Seq<char>, NpmResolvedPackageView)>,
    di: int,
    vi: int,
    k: int,
)
    requires
        0 <= di < docs.len(),
        0 <= vi < docs[di].1.versions.len(),
        0 <= k < docs[di].1.versions[vi].1.deps().len(),
    ensures
        doc_pairs(docs).contains(docs[di].1.versions[vi].1.deps()[k]),
{
    let doc = docs[di].1;
    let pair = doc.versions[vi].1.deps()[k];
    let inner = doc.versions.map_values(
        |v: (Seq<char>, NpmPackageVersionView)| v.1.deps(),
    );
    assert(inner[vi] == doc.versions[vi].1.deps());
    assert(inner[vi].contains(pair));
    lemma_flatten_elt(inner, vi, pair);
    assert(doc_pairs_one(doc).contains(pair));
    let outer = docs.map_values(|d: (Seq<char>, NpmResolvedPackageView)| doc_pairs_one(d.1));
    assert(outer[di] == doc_pairs_one(doc));
    lemma_flatten_elt(outer, di, pair);
}

/// Record a resolved `(name, version)` node, or upgrade its root mark.
fn insert_resolved(
    rs: &mut Vec<ResolvedEntry>,
    name: String,
    version: Version,
    record: NpmPackageVersion,
    is_root: bool,
)
    ensures
        rs_view(final(rs)@) == spec_insert_resolved(
            rs_view(old(rs)@),
            name@,
            version@,
            record@,
            is_root,
        ),
{
    let ghost rv = rs_view(rs@);
    let ghost p = |e: ResolvedEntryView| e.name == name@ && e.version == version@;
    proof {
        lemma_find_from_properties(rv, 0, p);
    }
    let mut i: usize = 0;
    while i < rs.len()
        invariant
            i <= rs@.len(),
            rv == rs_view(rs@),
            forall|k: int| 0 <= k < i ==> !p(#[trigger] rv[k]),
        decreases rs@.len() - i,
    {
        if rs[i].name.eq(&name) && rs[i].version.0.eq(&version.0) {
            assert(p(rv[i as int]));
            assert(find_from(rv, 0, p) == Some(i as int));
            if is_root {
                rs[i].is_root = true;
                proof {
                    assert(rs_view(rs@) =~= rv.update(
                        i as int,
                        ResolvedEntryView {
                            name: rv[i as int].name,
                            version: rv[i as int].version,
                            record: rv[i as int].record,
                            is_root: true,
                        },
                    ));
                }
            }
            return;
        }
        assert(!p(rv[i as int]));
        i = i + 1;
    }
    rs.push(ResolvedEntry { name, version, record, is_root });
    proof {
        assert(find_from(rv, 0, p) is None);
        assert(rs_view(rs@) =~= rv.push(rs@.last()@));
    }
}

/// Enqueue the declared dependencies of a resolved version, skipping
/// pairs already memoised or pending.
fn enqueue_deps(
    frontier: &mut Vec<FrontierItem>,
    idx: &Vec<RangeSelection>,
    deps: &Vec<(String, VersionRangeSpecifier)>,
)
    ensures
        fr_view(final(frontier)@) == spec_enqueue(
            fr_view(old(frontier)@),
            idx_view(idx@),
            crate::npm::view_dep_list(deps@),
        ),
{
    let ghost fr0 = fr_view(frontier@);
    let ghost idxv = idx_view(idx@);
    let ghost depsv = crate::npm::view_dep_list(deps@);
    let mut i: usize = 0;
    proof {
        assert(depsv.skip(0) =~= depsv);
    }
    while i < deps.len()
        invariant
            i <= deps@.len(),
            spec_enqueue(fr0, idxv, depsv) == spec_enqueue(
                fr_view(frontier@),
                idxv,
                depsv.skip(i as int),
            ),
        decreases deps@.len() - i,
    {
        let ghost cur = fr_view(frontier@);
        let ghost rest = depsv.skip(i as int);
        proof {
            assert(rest.len() > 0);
            assert(rest.first() == (deps@[i as int].0@, deps@[i as int].1@));
            assert(rest.drop_first() =~= depsv.skip(i + 1));
        }
        let (dn, dr) = &deps[i];
        let dup = index_contains_pair(idx, dn, dr) || frontier_contains_pair(frontier, dn, dr);
        if !dup {
            frontier.push(FrontierItem { name: dn.clone(), range: dr.duplicate(), is_root: false });
            proof {
                assert(fr_view(frontier@) =~= cur.push((dn@, dr@, false)));
            }
        }
        proof {
            assert(spec_enqueue(cur, idxv, rest) == spec_enqueue(
                fr_view(frontier@),
                idxv,
                rest.drop_first(),
            ));
        }
        i = i + 1;
    }
    proof {
        assert(depsv.skip(deps@.len() as int) =~= Seq::<ReqPair>::empty());
    }
}

impl DependencyResolver {
    /// Resolve the last pending frontier item against its (already
    /// supplied) document: memoise the selection, record the node, and
    /// enqueue its declared dependencies.
    pub fn step(&mut self) -> (r: Result<(), Error>)
        requires
            old(self).wf(),
            old(self)@.core.frontier.len() > 0,
            doc_index(old(self)@.docs, old(self)@.core.frontier.last().0) is Some,
        ensures
            final(self).wf(),
            final(self)@.docs == old(self)@.docs,
            final(self)@.roots == old(self)@.roots,
            ({
                let di = doc_index(old(self)@.docs, old(self)@.core.frontier.last().0)->0;
                let doc = old(self)@.docs[di].1;
                match spec_step(old(self)@.core, doc) {
                    Ok(c2) => r is Ok && final(self)@.core == c2,
                    Err(ev) => r is Err && r->Err_0@ == ev && final(self)@.core == old(
                        self,
                    )@.core,
                }
            }),
            r is Ok ==> final(self)@.core.range_index.len() == old(self)@.core.range_index.len()
                + 1,
    {
        let ghost olds = self@;
        let ghost item = olds.core.frontier.last();
        let li = self.frontier.len() - 1;
        let name = self.frontier[li].name.clone();
        let range = self.frontier[li].range.duplicate();
        let is_root = self.frontier[li].is_root;
        proof {
            assert(fr_view(self.frontier@)[li as int] == self.frontier@[li as int]@);
            assert(item == (name@, range@, is_root));
        }
        let di = match self.position_of_doc(&name) {
            Some(di) => di,
            None => {
                return Err(Error::DependencyResolveError);
            },
        };
        let ghost doc = olds.docs[di as int].1;
        proof {
            assert(olds.docs[di as int] == (self.docs@[di as int].0@, self.docs@[di as int].1@));
        }
        let vi = match resolve_version_index(&self.docs[di].1, &range) {
            Some(vi) => vi,
            None => {
                return Err(Error::VersionDoesNotExist(name, range));
            },
        };
        proof {
            assert(doc.versions[vi as int] == (self.docs@[di as int].1.versions@[vi as int].0@,
                self.docs@[di as int].1.versions@[vi as int].1@));
        }
        let version = self.docs[di].1.versions[vi].0.duplicate();
        let record = self.docs[di].1.versions[vi].1.duplicate();
        proof {
            assert(version@ == doc.versions[vi as int].0);
            assert(record@ == doc.versions[vi as int].1);
        }
        self.frontier.pop();
        self.range_index.push(
            RangeSelection { name: name.clone(), range: range.duplicate(), version: version.duplicate() },
        );
        let ghost rest = olds.core.frontier.drop_last();
        let ghost idx2 = olds.core.range_index.push((item.0, item.1, version@));
        proof {
            assert(fr_view(self.frontier@) =~= rest);
            assert(idx_view(self.range_index@) =~= idx2);
        }
        match &record.dependencies {
            Some(d) => {
                enqueue_deps(&mut self.frontier, &self.range_index, d);
                proof {
                    assert(crate::npm::view_dep_list(d@) == record@.deps());
                }
            },
            None => {
                proof {
                    assert(record@.deps() =~= Seq::<ReqPair>::empty());
                    assert(spec_enqueue(rest, idx2, record@.deps()) == rest);
                }
            },
        }
        let ghost frontier2 = spec_enqueue(rest, idx2, record@.deps());
        proof {
            assert(fr_view(self.frontier@) == frontier2);
        }
        let ghost resolved2 = spec_insert_resolved(
            olds.core.resolved,
            item.0,
            version@,
            record@,
            item.2,
        );
        insert_resolved(&mut self.resolved, name, version, record, is_root);
        proof {
            assert(rs_view(self.resolved@) == resolved2);
            let news = self@;
            let c2 = ResolverCoreView { frontier: frontier2, range_index: idx2, resolved: resolved2 };
            assert(news.core =~= c2);
            assert(news.docs =~= olds.docs);
            assert(spec_step(olds.core, doc) == Ok::<ResolverCoreView, ErrorView>(c2));
            lemma_find_from_properties(
                olds.docs,
                0,
                |e: (Seq<char>, NpmResolvedPackageView)| e.0 == name@,
            );
            assert(olds.docs[di as int].0 == name@);
            lemma_step_preserves_wf(olds, doc, di as int, vi as int);
            assert(state_wf(ResolverStateView { core: c2, docs: olds.docs, roots: olds.roots }));
            assert(news =~= (ResolverStateView { core: c2, docs: olds.docs, roots: olds.roots }));
        }
        Ok(())
    }
}

/// `spec_step` preserves well-formedness when the document it uses is
/// the fetched document of the processed item's name.
pub proof fn lemma_step_preserves_wf(s: ResolverStateView, doc: NpmResolvedPackageView, di: int, vi: int)
    requires
        state_wf(s),
        s.core.frontier.len() > 0,
        0 <= di < s.docs.len(),
        s.docs[di].0 == s.core.frontier.last().0,
        doc == s.docs[di].1,
        spec_selected_index(doc, s.core.frontier.last().1) == Some(vi),
        0 <= vi < doc.versions.len(),
        spec_step(s.core, doc) is Ok,
    ensures
        state_wf(ResolverStateView { core: spec_step(s.core, doc)->Ok_0, docs: s.docs, roots: s.roots }),
{
    let item = s.core.frontier.last();
    let rest = s.core.frontier.drop_last();
    let pair = (item.0, item.1);
    let version = doc.versions[vi].0;
    let record = doc.versions[vi].1;
    let idx2 = s.core.range_index.push((item.0, item.1, version));
    let resolved2 = spec_insert_resolved(s.core.resolved, item.0, version, record, item.2);
    let frontier2 = spec_enqueue(rest, idx2, record.deps());
    let c2 = spec_step(s.core, doc)->Ok_0;
    assert(c2 == ResolverCoreView { frontier: frontier2, range_index: idx2, resolved: resolved2 });

    let oldfp = frontier_pairs(s.core.frontier);
    let restp = frontier_pairs(rest);
    let oldip = index_pairs(s.core.range_index);
    let ip2 = index_pairs(idx2);
    assert(restp =~= oldfp.drop_last());
    assert(oldfp[s.core.frontier.len() - 1] == pair);
    assert(oldfp.contains(pair));
    assert(ip2 =~= oldip.push(pair));

    // the memo stays duplicate-free
    assert(!oldip.contains(pair));
    lemma_push_no_dup(oldip, pair);

    // the remaining frontier is duplicate-free and disjoint from the
    // grown memo
    assert(restp.no_duplicates());
    assert forall|p: ReqPair| restp.contains(p) implies !ip2.contains(p) by {
        let k = choose|k: int| 0 <= k < restp.len() && restp[k] == p;
        assert(oldfp[k] == p);
        assert(!oldip.contains(p));
        if p == pair {
            assert(oldfp[k] == oldfp[s.core.frontier.len() - 1]);
            assert(false);
        }
        assert forall|j: int| 0 <= j < ip2.len() implies #[trigger] ip2[j] != p by {
            if j < oldip.len() {
                assert(ip2[j] == oldip[j]);
            } else {
                assert(ip2[j] == pair);
            }
        }
    }
    lemma_enqueue_props(rest, idx2, record.deps());

    // resolved-set facts
    lemma_insert_resolved_props(s.core.resolved, item.0, version, record, item.2);
    assert(resolved_keys(resolved2).contains((item.0, version)));

    // every memoised selection still has its node
    assert forall|i: int|
        0 <= i < idx2.len() implies resolved_keys(resolved2).contains(
        ((#[trigger] idx2[i]).0, idx2[i].2),
    ) by {
        if i < s.core.range_index.len() {
            assert(idx2[i] == s.core.range_index[i]);
            assert(resolved_keys(s.core.resolved).contains((idx2[i].0, idx2[i].2)));
        } else {
            assert(idx2[i] == (item.0, item.1, version));
        }
    }

    // closure: every dependency of every resolved node is memoised or
    // pending
    assert forall|i: int, j: int|
        0 <= i < resolved2.len() && 0 <= j < (#[trigger] resolved2[i]).record.deps().len()
        implies index_pairs(idx2).contains(#[trigger] resolved2[i].record.deps()[j])
        || frontier_pairs(frontier2).contains(resolved2[i].record.deps()[j]) by {
        if i < s.core.resolved.len() {
            assert(resolved2[i].record == s.core.resolved[i].record);
            let dp = s.core.resolved[i].record.deps()[j];
            assert(oldip.contains(dp) || oldfp.contains(dp));
            if oldip.contains(dp) {
                let k = choose|k: int| 0 <= k < oldip.len() && oldip[k] == dp;
                assert(ip2[k] == dp);
            } else {
                let k = choose|k: int| 0 <= k < oldfp.len() && oldfp[k] == dp;
                if k == s.core.frontier.len() - 1 {
                    assert(dp == pair);
                    assert(ip2[oldip.len() as int] == dp);
                } else {
                    assert(restp[k] == dp);
                    assert(frontier2[k] == rest[k]);
                    assert(frontier_pairs(frontier2)[k] == dp);
                }
            }
        } else {
            assert(resolved2[i].record == record);
            let dp = record.deps()[j];
            assert(record.deps().contains(dp));
            assert(index_pairs(idx2).contains(dp) || frontier_pairs(frontier2).contains(dp));
        }
    }

    // fetched documents still belong to pending or memoised names
    assert forall|i: int|
        0 <= i < s.docs.len() implies frontier_names(frontier2).contains(
        (#[trigger] s.docs[i]).0,
    ) || index_names(idx2).contains(s.docs[i].0) by {
        if frontier_names(s.core.frontier).contains(s.docs[i].0) {
            let k = choose|k: int|
                0 <= k < s.core.frontier.len() && frontier_names(s.core.frontier)[k]
                    == s.docs[i].0;
            if k == s.core.frontier.len() - 1 {
                assert(index_names(idx2)[s.core.range_index.len() as int] == item.0);
            } else {
                assert(frontier2[k] == rest[k]);
                assert(frontier_names(frontier2)[k] == s.docs[i].0);
            }
        } else {
            let k = choose|k: int|
                0 <= k < s.core.range_index.len() && index_names(s.core.range_index)[k]
                    == s.docs[i].0;
            assert(index_names(idx2)[k] == s.docs[i].0);
        }
    }

    // every memoised name still has its document
    assert forall|i: int|
        0 <= i < idx2.len() implies doc_index(s.docs, (#[trigger] idx2[i]).0) is Some by {
        if i < s.core.range_index.len() {
            assert(idx2[i] == s.core.range_index[i]);
        } else {
            assert(idx2[i].0 == item.0);
            lemma_find_from_properties(
                s.docs,
                0,
                |e: (Seq<char>, NpmResolvedPackageView)| e.0 == item.0,
            );
            if doc_index(s.docs, item.0) is None {
                assert(!(s.docs[di].0 == item.0));
            }
        }
    }

    // provenance: every pair still comes from the roots or a document
    assert forall|p: ReqPair|
        frontier_pairs(frontier2).contains(p) implies s.roots.contains(p) || doc_pairs(
        s.docs,
    ).contains(p) by {
        if restp.contains(p) {
            let k = choose|k: int| 0 <= k < restp.len() && restp[k] == p;
            assert(oldfp[k] == p);
            assert(oldfp.contains(p));
        } else {
            assert(record.deps().contains(p));
            let k = choose|k: int| 0 <= k < record.deps().len() && record.deps()[k] == p;
            lemma_dep_in_doc_pairs(s.docs, di, vi, k);
        }
    }
    assert forall|p: ReqPair|
        index_pairs(idx2).contains(p) implies s.roots.contains(p) || doc_pairs(
        s.docs,
    ).contains(p) by {
        let k = choose|k: int| 0 <= k < ip2.len() && ip2[k] == p;
        if k < oldip.len() {
            assert(oldip[k] == p);
            assert(oldip.contains(p));
        } else {
            assert(p == pair);
            assert(oldfp.contains(pair));
        }
    }
}


/// View of a finished node list.
pub open spec fn rd_view(s: Seq<ResolvedDependencies>) -> Seq<ResolvedDependenciesView> {
    s.map_values(|n: ResolvedDependencies| n@)
}

/// The version the memo assigns to a dependency pair (meaningful when
/// the pair is memoised).
pub open spec fn sel_version(
    idx: Seq<(Seq<char>, Seq<char>, Seq<char>)>,
    pair: ReqPair,
) -> Seq<char> {
    match index_lookup(idx, pair) {
        Some(i) => idx[i].2,
        None => Seq::empty(),
    }
}

/// The finished node list of a drained resolver: each node keeps its
/// record, and each declared dependency is rewritten to the concrete
/// `(name, version)` reference the memo assigns it.
pub open spec fn spec_finish(c: ResolverCoreView) -> Seq<ResolvedDependenciesView> {
    c.resolved.map_values(
        |e: ResolvedEntryView| ResolvedDependenciesView {
            name: e.name,
            version: e.version,
            record: e.record,
            dependencies: e.record.deps().map_values(
                |d: ReqPair| (d.0, sel_version(c.range_index, d)),
            ),
            is_root: e.is_root,
        },
    )
}

/// Position of the memo entry for `(name, range)`, if any.
fn lookup_selection(
    idx: &Vec<RangeSelection>,
    name: &String,
    range: &VersionRangeSpecifier,
) -> (r: Option<usize>)
    ensures
        match index_lookup(idx_view(idx@), (name@, range@)) {
            Some(i) => r is Some && r->0 == i && 0 <= i < idx@.len(),
            None => r is None,
        },
{
    let ghost idxv = idx_view(idx@);
    let ghost p = |t: (Seq<char>, Seq<char>, Seq<char>)| t.0 == name@ && t.1 == range@;
    proof {
        lemma_find_from_properties(idxv, 0, p);
    }
    let mut i: usize = 0;
    while i < idx.len()
        invariant
            i <= idx@.len(),
            forall|k: int| 0 <= k < i ==> !p(#[trigger] idxv[k]),
        decreases idx@.len() - i,
    {
        if idx[i].name.eq(name) && idx[i].range.0.eq(&range.0) {
            assert(p(idxv[i as int]));
            return Some(i);
        }
        assert(idxv[i as int] == idx@[i as int]@);
        assert(!p(idxv[i as int]));
        i = i + 1;
    }
    None
}

/// Build the finished node list from a drained resolver (step 3 of the
/// resolution algorithm: rewrite each declared dependency edge into a
/// concrete reference).
pub fn construct_dependency_vec(resolver: &DependencyResolver) -> (r: Vec<ResolvedDependencies>)
    requires
        resolver.wf(),
        resolver@.core.frontier.len() == 0,
    ensures
        rd_view(r@) == spec_finish(resolver@.core),
{
    let ghost c = resolver@.core;
    let mut nodes: Vec<ResolvedDependencies> = Vec::new();
    let mut i: usize = 0;
    while i < resolver.resolved.len()
        invariant
            i <= resolver.resolved@.len(),
            resolver.wf(),
            resolver@.core.frontier.len() == 0,
            c == resolver@.core,
            nodes@.len() == i,
            forall|k: int| 0 <= k < i ==> #[trigger] rd_view(nodes@)[k] == spec_finish(c)[k],
        decreases resolver.resolved@.len() - i,
    {
        let ghost e = c.resolved[i as int];
        proof {
            assert(e == resolver.resolved@[i as int]@);
        }
        let entry = &resolver.resolved[i];
        let mut deps: Vec<(String, Version)> = Vec::new();
        match &entry.record.dependencies {
            Some(d) => {
                let ghost depsv = e.record.deps();
                proof {
                    assert(depsv == crate::npm::view_dep_list(d@));
                }
                let mut j: usize = 0;
                while j < d.len()
                    invariant
                        j <= d@.len(),
                        resolver.wf(),
                        resolver@.core.frontier.len() == 0,
                        c == resolver@.core,
                        0 <= i < c.resolved.len(),
                        e == c.resolved[i as int],
                        e == resolver.resolved@[i as int]@,
                        depsv == e.record.deps(),
                        depsv == crate::npm::view_dep_list(d@),
                        deps@.len() == j,
                        forall|k: int|
                            0 <= k < j ==> (#[trigger] deps@[k].0@, deps@[k].1@) == (
                                depsv[k].0,
                                sel_version(c.range_index, depsv[k]),
                            ),
                    decreases d@.len() - j,
                {
                    let ghost pair = depsv[j as int];
                    proof {
                        assert(pair == (d@[j as int].0@, d@[j as int].1@));
                        assert(index_pairs(c.range_index).contains(pair)
                            || frontier_pairs(c.frontier).contains(pair));
                        assert(frontier_pairs(c.frontier).len() == 0);
                        assert(index_pairs(c.range_index).contains(pair));
                    }
                    let (dn, dr) = &d[j];
                    match lookup_selection(&resolver.range_index, dn, dr) {
                        Some(w) => {
                            deps.push((dn.clone(), resolver.range_index[w].version.duplicate()));
                            proof {
                                assert(idx_view(resolver.range_index@)[w as int]
                                    == resolver.range_index@[w as int]@);
                            }
                        },
                        None => {
                            proof {
                                let k = choose|k: int|
                                    0 <= k < index_pairs(c.range_index).len() && index_pairs(
                                        c.range_index,
                                    )[k] == pair;
                                let p = |t: (Seq<char>, Seq<char>, Seq<char>)| t.0 == pair.0
                                    && t.1 == pair.1;
                                lemma_find_from_properties(c.range_index, 0, p);
                                assert(p(c.range_index[k]));
                                assert(false);
                            }
                        },
                    }
                    j = j + 1;
                }
                proof {
                    assert(deps@.map_values(|dd: (String, Version)| (dd.0@, dd.1@))
                        =~= depsv.map_values(
                        |dd: ReqPair| (dd.0, sel_version(c.range_index, dd)),
                    ));
                    assert(deps@.map_values(|dd: (String, Version)| (dd.0@, dd.1@))
                        == e.record.deps().map_values(
                        |dd: ReqPair| (dd.0, sel_version(c.range_index, dd)),
                    ));
                }
            },
            None => {
                proof {
                    assert(e.record.deps() =~= Seq::<ReqPair>::empty());
                    assert(deps@.map_values(|dd: (String, Version)| (dd.0@, dd.1@))
                        =~= e.record.deps().map_values(
                        |dd: ReqPair| (dd.0, sel_version(c.range_index, dd)),
                    ));
                    assert(deps@.map_values(|dd: (String, Version)| (dd.0@, dd.1@))
                        == e.record.deps().map_values(
                        |dd: ReqPair| (dd.0, sel_version(c.range_index, dd)),
                    ));
                }
            },
        }
        let ghost depsg = deps@;
        let ghost old_nodes = nodes@;
        nodes.push(
            ResolvedDependencies {
                name: entry.name.clone(),
                version: entry.version.duplicate(),
                record: entry.record.duplicate(),
                dependencies: deps,
                is_root: entry.is_root,
            },
        );
        proof {
            let nv = nodes@.last()@;
            assert(nv.name == e.name);
            assert(nv.version == e.version);
            assert(nv.record == e.record);
            assert(nv.is_root == e.is_root);
            assert(nv.dependencies == depsg.map_values(
                |dd: (String, Version)| (dd.0@, dd.1@),
            ));
            assert(nv.dependencies =~= e.record.deps().map_values(
                |dd: ReqPair| (dd.0, sel_version(c.range_index, dd)),
            ));
            assert(spec_finish(c)[i as int] == ResolvedDependenciesView {
                name: e.name,
                version: e.version,
                record: e.record,
                dependencies: e.record.deps().map_values(
                    |dd: ReqPair| (dd.0, sel_version(c.range_index, dd)),
                ),
                is_root: e.is_root,
            });
            assert(nv =~= spec_finish(c)[i as int]);
            assert(rd_view(nodes@)[i as int] == nv);
            assert forall|k: int| 0 <= k < i implies #[trigger] rd_view(nodes@)[k]
                == spec_finish(c)[k] by {
                assert(nodes@[k] == old_nodes[k]);
                assert(rd_view(old_nodes)[k] == spec_finish(c)[k]);
            }
        }
        i = i + 1;
    }
    proof {
        assert(rd_view(nodes@) =~= spec_finish(c));
    }
    nodes
}

/// The document the registry offers for `name`, if any.
pub open spec fn reg_doc(
    reg: Seq<(Seq<char>, NpmResolvedPackageView)>,
    name: Seq<char>,
) -> Option<NpmResolvedPackageView> {
    match doc_index(reg, name) {
        Some(i) => Some(reg[i].1),
        None => None,
    }
}

impl Registry {
    /// Look up the document for `name`.
    pub fn lookup(&self, name: &String) -> (r: Option<&NpmResolvedPackage>)
        ensures
            match reg_doc(self@, name@) {
                Some(d) => r is Some && r->0@ == d,
                None => r is None,
            },
    {
        let ghost regv = self@;
        let ghost p = |e: (Seq<char>, NpmResolvedPackageView)| e.0 == name@;
        proof {
            lemma_find_from_properties(regv, 0, p);
        }
        let mut i: usize = 0;
        while i < self.packages.len()
            invariant
                i <= self.packages@.len(),
                forall|k: int| 0 <= k < i ==> !p(#[trigger] regv[k]),
            decreases self.packages@.len() - i,
        {
            if self.packages[i].0.eq(name) {
                assert(p(regv[i as int]));
                return Some(&self.packages[i].1);
            }
            assert(regv[i as int] == (self.packages@[i as int].0@, self.packages@[i as int].1@));
            assert(!p(regv[i as int]));
            i = i + 1;
        }
        None
    }
}

/// The starting state of a resolution.
pub open spec fn init_core(roots: Seq<ReqPair>) -> ResolverCoreView {
    ResolverCoreView {
        frontier: spec_seed(Seq::empty(), roots),
        range_index: Seq::empty(),
        resolved: Seq::empty(),
    }
}

/// Every `(name, range)` pair the resolution can ever touch: the roots
/// and every dependency pair of every registry document.
pub open spec fn univ_set(
    roots: Seq<ReqPair>,
    reg: Seq<(Seq<char>, NpmResolvedPackageView)>,
) -> Set<ReqPair> {
    (roots + doc_pairs(reg)).to_set()
}

/// Fuel that always suffices: one step per distinct touchable pair,
/// plus one.
pub open spec fn fuel_bound(
    roots: Seq<ReqPair>,
    reg: Seq<(Seq<char>, NpmResolvedPackageView)>,
) -> nat {
    univ_set(roots, reg).len() + 1
}

/// The resolution run as a mathematical function: process frontier
/// items one at a time against the registry until the frontier drains
/// (`Some(Ok(..))`), a document is missing (`DependencyResolveError`)
/// or a selection fails (`VersionDoesNotExist`); `None` only when the
/// fuel runs out, which `fuel_bound` rules out.
pub open spec fn spec_run(
    c: ResolverCoreView,
    reg: Seq<(Seq<char>, NpmResolvedPackageView)>,
    fuel: nat,
) -> Option<Result<Seq<ResolvedDependenciesView>, ErrorView>>
    decreases fuel,
{
    if c.frontier.len() == 0 {
        Some(Ok(spec_finish(c)))
    } else if fuel == 0 {
        None
    } else {
        match reg_doc(reg, c.frontier.last().0) {
            None => Some(Err(ErrorView::DependencyResolveError)),
            Some(doc) => match spec_step(c, doc) {
                Err(e) => Some(Err(e)),
                Ok(c2) => spec_run(c2, reg, (fuel - 1) as nat),
            },
        }
    }
}

/// What resolving `roots` against `reg` yields. `resolve_deps` returns
/// exactly this; two runs against the same registry therefore agree.
pub open spec fn spec_resolve(
    roots: Seq<ReqPair>,
    reg: Seq<(Seq<char>, NpmResolvedPackageView)>,
) -> Option<Result<Seq<ResolvedDependenciesView>, ErrorView>> {
    spec_run(init_core(roots), reg, fuel_bound(roots, reg))
}

/// An element of a flattened sequence comes from one of its members.
pub proof fn lemma_flatten_elt_inv<A>(s: Seq<Seq<A>>, x: A)
    requires
        s.flatten().contains(x),
    ensures
        exists|i: int| 0 <= i < s.len() && (#[trigger] s[i]).contains(x),
    decreases s.len(),
{
    if s.len() == 0 {
        assert(s.flatten() =~= Seq::<A>::empty());
    } else {
        assert(s.flatten() == s.first() + s.drop_first().flatten());
        let k = choose|k: int| 0 <= k < s.flatten().len() && s.flatten()[k] == x;
        if k < s.first().len() {
            assert(s.first()[k] == x);
            assert(s[0].contains(x));
        } else {
            assert(s.drop_first().flatten()[k - s.first().len()] == x);
            lemma_flatten_elt_inv(s.drop_first(), x);
            let i = choose|i: int|
                0 <= i < s.drop_first().len() && (#[trigger] s.drop_first()[i]).contains(x);
            assert(s[i + 1].contains(x));
        }
    }
}

/// Under the resolution protocol, every memoised pair lies in the
/// universe of pairs the roots and the registry can produce.
pub proof fn lemma_pairs_in_univ(
    s: ResolverStateView,
    reg: Seq<(Seq<char>, NpmResolvedPackageView)>,
)
    requires
        state_wf(s),
        forall|i: int|
            0 <= i < s.docs.len() ==> reg_doc(reg, (#[trigger] s.docs[i]).0) == Some(
                s.docs[i].1,
            ),
    ensures
        forall|k: int|
            0 <= k < index_pairs(s.core.range_index).len() ==> univ_set(
                s.roots,
                reg,
            ).contains(#[trigger] index_pairs(s.core.range_index)[k]),
{
    let u = s.roots + doc_pairs(reg);
    assert forall|k: int|
        0 <= k < index_pairs(s.core.range_index).len() implies univ_set(s.roots, reg).contains(
        #[trigger] index_pairs(s.core.range_index)[k],
    ) by {
        let pair = index_pairs(s.core.range_index)[k];
        assert(index_pairs(s.core.range_index).contains(pair));
        if s.roots.contains(pair) {
            let w = choose|w: int| 0 <= w < s.roots.len() && s.roots[w] == pair;
            assert(u[w] == pair);
            assert(u.contains(pair));
        } else {
            assert(doc_pairs(s.docs).contains(pair));
            let dmap = s.docs.map_values(
                |d: (Seq<char>, NpmResolvedPackageView)| doc_pairs_one(d.1),
            );
            lemma_flatten_elt_inv(dmap, pair);
            let i = choose|i: int| 0 <= i < dmap.len() && (#[trigger] dmap[i]).contains(pair);
            assert(doc_pairs_one(s.docs[i].1).contains(pair));
            let p = |e: (Seq<char>, NpmResolvedPackageView)| e.0 == s.docs[i].0;
            lemma_find_from_properties(reg, 0, p);
            assert(reg_doc(reg, s.docs[i].0) == Some(s.docs[i].1));
            let j = doc_index(reg, s.docs[i].0)->0;
            assert(reg[j].1 == s.docs[i].1);
            let outer = reg.map_values(
                |d: (Seq<char>, NpmResolvedPackageView)| doc_pairs_one(d.1),
            );
            assert(outer[j] == doc_pairs_one(reg[j].1));
            lemma_flatten_elt(outer, j, pair);
            assert(doc_pairs(reg).contains(pair));
            let w = choose|w: int|
                0 <= w < doc_pairs(reg).len() && doc_pairs(reg)[w] == pair;
            assert(u[s.roots.len() + w] == pair);
            assert(u.contains(pair));
        }
    }
}

/// Each `(name, version)` key occurs at most once among finished
/// nodes.
pub open spec fn nodes_keys_unique(nodes: Seq<ResolvedDependenciesView>) -> bool {
    forall|k1: int, k2: int|
        #![trigger nodes[k1], nodes[k2]]
        0 <= k1 < k2 < nodes.len() ==> (nodes[k1].name, nodes[k1].version) != (
            nodes[k2].name,
            nodes[k2].version,
        )
}

/// Every dependency reference of every finished node names a node of
/// the set.
pub open spec fn nodes_closed(nodes: Seq<ResolvedDependenciesView>) -> bool {
    forall|i: int, j: int|
        #![trigger nodes[i].dependencies[j]]
        0 <= i < nodes.len() && 0 <= j < nodes[i].dependencies.len() ==> exists|k: int|
            0 <= k < nodes.len() && ((#[trigger] nodes[k]).name, nodes[k].version)
                == nodes[i].dependencies[j]
}

/// Witness that a finished resolution run produced `nodes`: a drained
/// well-formed resolver state whose finished node list is `nodes`.
/// Its document table is the fetch log; `lemma_fetch_dedup` turns it
/// into the one-fetch-per-distinct-resolved-name guarantee, and
/// `lemma_resolution_closure` into the closure guarantee.
pub open spec fn finished_run_evidence(
    s: ResolverStateView,
    nodes: Seq<ResolvedDependenciesView>,
) -> bool {
    &&& state_wf(s)
    &&& s.core.frontier.len() == 0
    &&& spec_finish(s.core) == nodes
}

/// Resolve the dependency graph of `root_requests` against an
/// in-memory registry: the executable form of `spec_resolve`.
pub fn resolve_deps(
    root_requests: &Vec<(String, VersionRangeSpecifier)>,
    registry: &Registry,
) -> (r: Result<Vec<ResolvedDependencies>, Error>)
    ensures
        match r {
            Ok(nodes) => spec_resolve(view_root_pairs(root_requests@), registry@) == Some(
                Ok::<Seq<ResolvedDependenciesView>, ErrorView>(rd_view(nodes@)),
            ) && nodes_closed(rd_view(nodes@)) && nodes_keys_unique(rd_view(nodes@)) && (
            exists|s: ResolverStateView| #[trigger] finished_run_evidence(s, rd_view(nodes@))),
            Err(e) => spec_resolve(view_root_pairs(root_requests@), registry@) == Some(
                Err::<Seq<ResolvedDependenciesView>, ErrorView>(e@),
            ),
        },
{
    broadcast use vstd::seq_lib::seq_to_set_is_finite;

    let ghost rootsv = view_root_pairs(root_requests@);
    let ghost regv = registry@;
    let ghost u = univ_set(rootsv, regv);
    let ghost fb = fuel_bound(rootsv, regv);
    let mut resolver = DependencyResolver::new(root_requests);
    proof {
        assert(resolver@.core =~= init_core(rootsv));
        assert(u.finite());
    }
    loop
        invariant
            resolver.wf(),
            resolver@.roots == rootsv,
            forall|i: int|
                0 <= i < resolver@.docs.len() ==> reg_doc(
                    regv,
                    (#[trigger] resolver@.docs[i]).0,
                ) == Some(resolver@.docs[i].1),
            resolver@.core.range_index.len() <= u.len(),
            spec_run(
                resolver@.core,
                regv,
                (fb - resolver@.core.range_index.len()) as nat,
            ) == spec_resolve(rootsv, regv),
            u.finite(),
            u == univ_set(rootsv, regv),
            fb == fuel_bound(rootsv, regv),
        decreases fb - resolver@.core.range_index.len(),
    {
        let ghost fuel_now = (fb - resolver@.core.range_index.len()) as nat;
        if resolver.is_done() {
            proof {
                assert(spec_run(resolver@.core, regv, fuel_now) == Some(
                    Ok::<Seq<ResolvedDependenciesView>, ErrorView>(spec_finish(resolver@.core)),
                ));
            }
            let nodes = construct_dependency_vec(&resolver);
            proof {
                let nv = rd_view(nodes@);
                let c = resolver@.core;
                assert forall|i: int, j: int|
                    #![trigger nv[i].dependencies[j]]
                    0 <= i < nv.len() && 0 <= j < nv[i].dependencies.len() implies exists|k: int|
                        0 <= k < nv.len() && ((#[trigger] nv[k]).name, nv[k].version)
                            == nv[i].dependencies[j] by {
                    lemma_resolution_closure(resolver@, i, j);
                    let w = choose|w: int|
                        0 <= w < spec_finish(c).len() && ((#[trigger] spec_finish(c)[w]).name,
                            spec_finish(c)[w].version,
                        ) == spec_finish(c)[i].dependencies[j];
                    assert((nv[w].name, nv[w].version) == nv[i].dependencies[j]);
                }
                assert forall|k1: int, k2: int|
                    #![trigger nv[k1], nv[k2]]
                    0 <= k1 < k2 < nv.len() implies (nv[k1].name, nv[k1].version) != (
                    nv[k2].name,
                    nv[k2].version,
                ) by {
                    assert(resolved_keys(c.resolved)[k1] == (nv[k1].name, nv[k1].version));
                    assert(resolved_keys(c.resolved)[k2] == (nv[k2].name, nv[k2].version));
                }
                assert(nodes_closed(nv));
                assert(nodes_keys_unique(nv));
                assert(finished_run_evidence(resolver@, nv));
            }
            return Ok(nodes);
        }
        proof {
            assert(fuel_now > 0);
        }
        let fetch_needed: Option<String> = match resolver.needed_doc() {
            Some(n) => Some(n.clone()),
            None => None,
        };
        match fetch_needed {
            Some(n) => {
                match registry.lookup(&n) {
                    Some(doc_ref) => {
                        let doc = doc_ref.duplicate();
                        proof {
                            let fp = frontier_pairs(resolver@.core.frontier);
                            assert(fp[resolver@.core.frontier.len() - 1] == (
                                resolver@.core.frontier.last().0,
                                resolver@.core.frontier.last().1,
                            ));
                            assert(frontier_names(resolver@.core.frontier)[
                                resolver@.core.frontier.len() - 1] == n@);
                        }
                        let ghost nv = n@;
                        resolver.add_document(n, doc);
                        proof {
                            assert(resolver@.docs.last().0 == nv);
                            assert(resolver@.docs[resolver@.docs.len() - 1].0
                                == resolver@.core.frontier.last().0);
                        }
                    },
                    None => {
                        proof {
                            assert(spec_run(resolver@.core, regv, fuel_now) == Some(
                                Err::<Seq<ResolvedDependenciesView>, ErrorView>(
                                    ErrorView::DependencyResolveError,
                                ),
                            ));
                        }
                        return Err(Error::DependencyResolveError);
                    },
                }
            },
            None => {},
        }
        let ghost pre = resolver@;
        proof {
            lemma_find_from_properties(
                pre.docs,
                0,
                |e: (Seq<char>, NpmResolvedPackageView)| e.0 == pre.core.frontier.last().0,
            );
            if doc_index(pre.docs, pre.core.frontier.last().0) is None {
                assert(!(pre.docs[pre.docs.len() - 1].0 == pre.core.frontier.last().0));
                assert(false);
            }
            assert(pre.docs[doc_index(pre.docs, pre.core.frontier.last().0)->0].0
                == pre.core.frontier.last().0);
        }
        match resolver.step() {
            Ok(()) => {
                proof {
                    let di = doc_index(pre.docs, pre.core.frontier.last().0)->0;
                    let doc = pre.docs[di].1;
                    assert(pre.docs[di].0 == pre.core.frontier.last().0);
                    assert(reg_doc(regv, pre.core.frontier.last().0) == Some(doc));
                    assert(spec_run(pre.core, regv, fuel_now) == spec_run(
                        resolver@.core,
                        regv,
                        (fuel_now - 1) as nat,
                    ));
                    lemma_pairs_in_univ(resolver@, regv);
                    lemma_distinct_seq_bound(index_pairs(resolver@.core.range_index), u);
                }
            },
            Err(e) => {
                proof {
                    let di = doc_index(pre.docs, pre.core.frontier.last().0)->0;
                    let doc = pre.docs[di].1;
                    assert(pre.docs[di].0 == pre.core.frontier.last().0);
                    assert(reg_doc(regv, pre.core.frontier.last().0) == Some(doc));
                    assert(spec_run(pre.core, regv, fuel_now) == Some(
                        Err::<Seq<ResolvedDependenciesView>, ErrorView>(e@),
                    ));
                }
                return Err(e);
            },
        }
    }
}

/// Law (determinism): resolution is a function of the roots and the
/// registry responses alone, so two runs that both complete yield the
/// same node list.
pub proof fn lemma_resolve_deterministic(
    roots: Seq<ReqPair>,
    reg: Seq<(Seq<char>, NpmResolvedPackageView)>,
    r1: Seq<ResolvedDependenciesView>,
    r2: Seq<ResolvedDependenciesView>,
)
    requires
        spec_resolve(roots, reg) == Some(Ok::<Seq<ResolvedDependenciesView>, ErrorView>(r1)),
        spec_resolve(roots, reg) == Some(Ok::<Seq<ResolvedDependenciesView>, ErrorView>(r2)),
    ensures
        r1 == r2,
{
}

/// Law (closure): in a finished resolution, every dependency reference
/// of every node names exactly one node of the resolved set.
pub proof fn lemma_resolution_closure(s: ResolverStateView, i: int, j: int)
    requires
        state_wf(s),
        s.core.frontier.len() == 0,
        0 <= i < spec_finish(s.core).len(),
        0 <= j < spec_finish(s.core)[i].dependencies.len(),
    ensures
        ({
            let nodes = spec_finish(s.core);
            let d = nodes[i].dependencies[j];
            &&& exists|k: int|
                0 <= k < nodes.len() && ((#[trigger] nodes[k]).name, nodes[k].version) == d
            &&& forall|k1: int, k2: int|
                0 <= k1 < nodes.len() && 0 <= k2 < nodes.len() && ((#[trigger] nodes[k1]).name,
                    nodes[k1].version,
                ) == d && ((#[trigger] nodes[k2]).name, nodes[k2].version) == d ==> k1 == k2
        }),
{
    let nodes = spec_finish(s.core);
    let e = s.core.resolved[i];
    let pair = e.record.deps()[j];
    let d = nodes[i].dependencies[j];
    assert(index_pairs(s.core.range_index).contains(pair) || frontier_pairs(
        s.core.frontier,
    ).contains(pair));
    assert(index_pairs(s.core.range_index).contains(pair));
    let p = |t: (Seq<char>, Seq<char>, Seq<char>)| t.0 == pair.0 && t.1 == pair.1;
    lemma_find_from_properties(s.core.range_index, 0, p);
    if index_lookup(s.core.range_index, pair) is None {
        let k = choose|k: int|
            0 <= k < index_pairs(s.core.range_index).len() && index_pairs(
                s.core.range_index,
            )[k] == pair;
        assert(p(s.core.range_index[k]));
        assert(false);
    }
    let w = index_lookup(s.core.range_index, pair)->0;
    assert(d == (pair.0, s.core.range_index[w].2));
    assert(d == (s.core.range_index[w].0, s.core.range_index[w].2));
    assert(resolved_keys(s.core.resolved).contains((s.core.range_index[w].0,
        s.core.range_index[w].2)));
    let k = choose|k: int|
        0 <= k < resolved_keys(s.core.resolved).len() && resolved_keys(s.core.resolved)[k] == (
            s.core.range_index[w].0,
            s.core.range_index[w].2,
        );
    assert((nodes[k].name, nodes[k].version) == d);
    assert forall|k1: int, k2: int|
        0 <= k1 < nodes.len() && 0 <= k2 < nodes.len() && ((#[trigger] nodes[k1]).name,
            nodes[k1].version,
        ) == d && ((#[trigger] nodes[k2]).name, nodes[k2].version) == d implies k1 == k2 by {
        assert(resolved_keys(s.core.resolved)[k1] == d);
        assert(resolved_keys(s.core.resolved)[k2] == d);
    }
}

/// Law (shared references): equal declared `(name, range)` edges,
/// wherever they occur among the resolved nodes, are rewritten to the
/// same concrete reference - the selection memo answers each pair
/// once, so two parents requesting the same range share one node.
pub proof fn lemma_equal_requests_share_reference(
    c: ResolverCoreView,
    i1: int,
    j1: int,
    i2: int,
    j2: int,
)
    requires
        0 <= i1 < c.resolved.len(),
        0 <= j1 < c.resolved[i1].record.deps().len(),
        0 <= i2 < c.resolved.len(),
        0 <= j2 < c.resolved[i2].record.deps().len(),
        c.resolved[i1].record.deps()[j1] == c.resolved[i2].record.deps()[j2],
    ensures
        spec_finish(c)[i1].dependencies[j1] == spec_finish(c)[i2].dependencies[j2],
{
}

/// Law (fetch dedup): when resolution finishes, exactly one document
/// was fetched per distinct resolved package name.
pub proof fn lemma_fetch_dedup(s: ResolverStateView)
    requires
        state_wf(s),
        s.core.frontier.len() == 0,
    ensures
        s.docs.map_values(|d: (Seq<char>, NpmResolvedPackageView)| d.0).no_duplicates(),
        s.docs.map_values(|d: (Seq<char>, NpmResolvedPackageView)| d.0).to_set()
            == index_names(s.core.range_index).to_set(),
        s.docs.len() == index_names(s.core.range_index).to_set().len(),
{
    let dn = s.docs.map_values(|d: (Seq<char>, NpmResolvedPackageView)| d.0);
    let inames = index_names(s.core.range_index);
    assert forall|x: Seq<char>| dn.to_set().contains(x) implies inames.to_set().contains(
        x,
    ) by {
        let i = choose|i: int| 0 <= i < dn.len() && dn[i] == x;
        assert(frontier_names(s.core.frontier).contains(s.docs[i].0) || index_names(
            s.core.range_index,
        ).contains(s.docs[i].0));
        assert(frontier_names(s.core.frontier).len() == 0);
    }
    assert forall|x: Seq<char>| inames.to_set().contains(x) implies dn.to_set().contains(
        x,
    ) by {
        let i = choose|i: int| 0 <= i < inames.len() && inames[i] == x;
        assert(doc_index(s.docs, s.core.range_index[i].0) is Some);
        let p = |e: (Seq<char>, NpmResolvedPackageView)| e.0 == s.core.range_index[i].0;
        lemma_find_from_properties(s.docs, 0, p);
        let w = doc_index(s.docs, s.core.range_index[i].0)->0;
        assert(dn[w] == x);
    }
    assert(dn.to_set() =~= inames.to_set());
    dn.unique_seq_to_set();
}


/// View of a `(name, range) -> record` table.
pub open spec fn table_view(s: Seq<(String, VersionRangeSpecifier, NpmPackageVersion)>) -> Seq<
    (Seq<char>, Seq<char>, NpmPackageVersionView),
> {
    s.map_values(
        |e: (String, VersionRangeSpecifier, NpmPackageVersion)| (e.0@, e.1@, e.2@),
    )
}

/// Index of the first table entry for `(name, range)`, if any.
pub open spec fn table_lookup(
    t: Seq<(Seq<char>, Seq<char>, NpmPackageVersionView)>,
    name: Seq<char>,
    range: Seq<char>,
) -> Option<int> {
    find_from(
        t,
        0,
        |e: (Seq<char>, Seq<char>, NpmPackageVersionView)| e.0 == name && e.1 == range,
    )
}

/// Views of a tree list.
pub open spec fn forest_views(s: Seq<ResolvedDependencyTree>) -> Seq<
    ResolvedDependencyTreeView,
> {
    s.map_values(|c: ResolvedDependencyTree| tree_view(c))
}

/// The dependency tree rooted at `(name, range)`, built from a
/// resolved table: the entry's record with one subtree per declared
/// dependency. `None` means the fuel ran out (a dependency cycle).
pub open spec fn spec_tree(
    name: Seq<char>,
    range: Seq<char>,
    table: Seq<(Seq<char>, Seq<char>, NpmPackageVersionView)>,
    fuel: nat,
) -> Option<Result<ResolvedDependencyTreeView, ErrorView>>
    decreases fuel, 0nat,
{
    if fuel == 0 {
        None
    } else {
        match table_lookup(table, name, range) {
            None => Some(Err(ErrorView::VersionDoesNotExist(name, range))),
            Some(i) => match spec_forest(table[i].2.deps(), table, (fuel - 1) as nat) {
                None => None,
                Some(Err(e)) => Some(Err(e)),
                Some(Ok(children)) => Some(
                    Ok(
                        ResolvedDependencyTreeView {
                            name: name,
                            version: table[i].2,
                            dependencies: children,
                        },
                    ),
                ),
            },
        }
    }
}

/// The subtrees of a dependency list, in declaration order.
pub open spec fn spec_forest(
    deps: Seq<ReqPair>,
    table: Seq<(Seq<char>, Seq<char>, NpmPackageVersionView)>,
    fuel: nat,
) -> Option<Result<Seq<ResolvedDependencyTreeView>, ErrorView>>
    decreases fuel, deps.len() + 1,
{
    if deps.len() == 0 {
        Some(Ok(Seq::empty()))
    } else {
        match spec_tree(deps.first().0, deps.first().1, table, fuel) {
            None => None,
            Some(Err(e)) => Some(Err(e)),
            Some(Ok(t)) => match spec_forest(deps.drop_first(), table, fuel) {
                None => None,
                Some(Err(e)) => Some(Err(e)),
                Some(Ok(rest)) => Some(Ok(seq![t] + rest)),
            },
        }
    }
}

/// Position of the first table entry for `(name, range)`, if any.
fn table_position(
    table: &Vec<(String, VersionRangeSpecifier, NpmPackageVersion)>,
    name: &String,
    range: &VersionRangeSpecifier,
) -> (r: Option<usize>)
    ensures
        match table_lookup(table_view(table@), name@, range@) {
            Some(i) => r is Some && r->0 == i && 0 <= i < table@.len(),
            None => r is None,
        },
{
    let ghost tv = table_view(table@);
    let ghost p = |e: (Seq<char>, Seq<char>, NpmPackageVersionView)| e.0 == name@ && e.1
        == range@;
    proof {
        lemma_find_from_properties(tv, 0, p);
    }
    let mut i: usize = 0;
    while i < table.len()
        invariant
            i <= table@.len(),
            forall|k: int| 0 <= k < i ==> !p(#[trigger] tv[k]),
        decreases table@.len() - i,
    {
        proof {
            assert(tv[i as int] == (table@[i as int].0@, table@[i as int].1@, table@[
                i as int].2@));
        }
        if table[i].0.eq(name) && table[i].1.0.eq(&range.0) {
            assert(p(tv[i as int]));
            return Some(i);
        }
        assert(!p(tv[i as int]));
        i = i + 1;
    }
    None
}

/// Build the dependency tree of `(root_name, root_range)` from a
/// resolved `(name, range) -> record` table. `fuel` bounds the depth;
/// exhausting it (possible only on a cyclic table) fails with
/// `DependencyResolveError`, and a missing entry fails with
/// `VersionDoesNotExist`.
pub fn construct_dependency_tree(
    root_name: &String,
    root_range: &VersionRangeSpecifier,
    resolved_versions: &Vec<(String, VersionRangeSpecifier, NpmPackageVersion)>,
    fuel: usize,
) -> (r: Result<ResolvedDependencyTree, Error>)
    ensures
        match spec_tree(root_name@, root_range@, table_view(resolved_versions@), fuel as nat) {
            None => r is Err && r->Err_0@ == ErrorView::DependencyResolveError,
            Some(Ok(tv)) => r is Ok && tree_view(r->Ok_0) == tv,
            Some(Err(ev)) => r is Err && r->Err_0@ == ev,
        },
    decreases fuel,
{
    let ghost tablev = table_view(resolved_versions@);
    if fuel == 0 {
        return Err(Error::DependencyResolveError);
    }
    let i = match table_position(resolved_versions, root_name, root_range) {
        Some(i) => i,
        None => {
            return Err(Error::VersionDoesNotExist(root_name.clone(), root_range.duplicate()));
        },
    };
    let record = resolved_versions[i].2.duplicate();
    proof {
        assert(tablev[i as int] == (resolved_versions@[i as int].0@, resolved_versions@[
            i as int].1@, resolved_versions@[i as int].2@));
        assert(record@ == tablev[i as int].2);
    }
    let ghost f2 = (fuel - 1) as nat;
    let mut children: Vec<ResolvedDependencyTree> = Vec::new();
    match &record.dependencies {
        Some(d) => {
            let ghost depsv = record@.deps();
            proof {
                assert(depsv == crate::npm::view_dep_list(d@));
                assert(depsv.skip(0) =~= depsv);
                assert(forest_views(children@) =~= Seq::<ResolvedDependencyTreeView>::empty());
            }
            let mut j: usize = 0;
            while j < d.len()
                invariant
                    j <= d@.len(),
                    fuel >= 1,
                    f2 == (fuel - 1) as nat,
                    depsv == crate::npm::view_dep_list(d@),
                    match spec_forest(depsv.skip(j as int), tablev, f2) {
                        Some(Ok(rest)) => spec_forest(depsv, tablev, f2) == Some(
                            Ok::<Seq<ResolvedDependencyTreeView>, ErrorView>(
                                forest_views(children@) + rest,
                            ),
                        ),
                        Some(Err(ev)) => spec_forest(depsv, tablev, f2) == Some(
                            Err::<Seq<ResolvedDependencyTreeView>, ErrorView>(ev),
                        ),
                        None => spec_forest(depsv, tablev, f2) is None,
                    },
                decreases d@.len() - j,
            {
                let ghost rest0 = depsv.skip(j as int);
                proof {
                    assert(rest0.len() > 0);
                    assert(rest0.first() == (d@[j as int].0@, d@[j as int].1@));
                    assert(rest0.drop_first() =~= depsv.skip(j + 1));
                }
                let (dn, dr) = &d[j];
                match construct_dependency_tree(dn, dr, resolved_versions, fuel - 1) {
                    Ok(t) => {
                        let ghost tv = tree_view(t);
                        let ghost before = forest_views(children@);
                        children.push(t);
                        proof {
                            assert(forest_views(children@) =~= before.push(tv));
                            assert(spec_tree(rest0.first().0, rest0.first().1, tablev, f2)
                                == Some(Ok::<ResolvedDependencyTreeView, ErrorView>(tv)));
                            let nxt = spec_forest(depsv.skip(j + 1), tablev, f2);
                            if nxt is Some && nxt->0 is Ok {
                                let rest1 = nxt->0->Ok_0;
                                assert(spec_forest(rest0, tablev, f2) == Some(
                                    Ok::<Seq<ResolvedDependencyTreeView>, ErrorView>(
                                        seq![tv] + rest1,
                                    ),
                                ));
                                assert(before + (seq![tv] + rest1) =~= forest_views(children@)
                                    + rest1);
                            }
                        }
                    },
                    Err(e) => {
                        proof {
                            let sub = spec_tree(rest0.first().0, rest0.first().1, tablev, f2);
                            if sub is None {
                                assert(spec_forest(rest0, tablev, f2) is None);
                            } else {
                                assert(spec_forest(rest0, tablev, f2) == Some(
                                    Err::<Seq<ResolvedDependencyTreeView>, ErrorView>(
                                        sub->0->Err_0,
                                    ),
                                ));
                            }
                        }
                        return Err(e);
                    },
                }
                j = j + 1;
            }
            proof {
                assert(depsv.skip(d@.len() as int) =~= Seq::<ReqPair>::empty());
                assert(spec_forest(depsv, tablev, f2) == Some(
                    Ok::<Seq<ResolvedDependencyTreeView>, ErrorView>(
                        forest_views(children@) + Seq::empty(),
                    ),
                ));
                assert(forest_views(children@) + Seq::<ResolvedDependencyTreeView>::empty()
                    =~= forest_views(children@));
            }
        },
        None => {
            proof {
                assert(record@.deps() =~= Seq::<ReqPair>::empty());
                assert(spec_forest(record@.deps(), tablev, f2) == Some(
                    Ok::<Seq<ResolvedDependencyTreeView>, ErrorView>(Seq::empty()),
                ));
                assert(forest_views(children@) =~= Seq::<ResolvedDependencyTreeView>::empty());
            }
        },
    }
    let ghost childviews = forest_views(children@);
    proof {
        assert(spec_forest(record@.deps(), tablev, f2) == Some(
            Ok::<Seq<ResolvedDependencyTreeView>, ErrorView>(childviews),
        ));
    }
    let tree = ResolvedDependencyTree::new(root_name.clone(), record, children);
    proof {
        assert(tree_view(tree).dependencies =~= childviews);
        assert(tree_view(tree) =~= (ResolvedDependencyTreeView {
            name: root_name@,
            version: tablev[i as int].2,
            dependencies: childviews,
        }));
    }
    Ok(tree)
}

} // verus!
