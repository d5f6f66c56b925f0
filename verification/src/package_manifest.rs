//! The manifest updater's decision logic: merging newly installed
//! roots into the manifest's dependency table. Reading and writing the
//! JSON file is the caller's job; it hands the table in as pairs and
//! writes back what comes out.

use vstd::prelude::*;

use crate::assoc::{find_from, lemma_find_from_properties};
use crate::npm::{Version, VersionRangeSpecifier, view_dep_list};

verus! {

/// Insert `(name, range)` into a dependency table, overwriting the
/// entry of an already-present name in place.
pub open spec fn spec_upsert(
    deps: Seq<(Seq<char>, Seq<char>)>,
    name: Seq<char>,
    range: Seq<char>,
) -> Seq<(Seq<char>, Seq<char>)> {
    match find_from(deps, 0, |e: (Seq<char>, Seq<char>)| e.0 == name) {
        Some(i) => deps.update(i, (name, range)),
        None => deps.push((name, range)),
    }
}

/// Merge a batch of additions into a dependency table, first to last.
pub open spec fn spec_merge(
    deps: Seq<(Seq<char>, Seq<char>)>,
    additions: Seq<(Seq<char>, Seq<char>)>,
) -> Seq<(Seq<char>, Seq<char>)>
    decreases additions.len(),
{
    if additions.len() == 0 {
        deps
    } else {
        spec_merge(
            spec_upsert(deps, additions.first().0, additions.first().1),
            additions.drop_first(),
        )
    }
}

fn upsert(deps: &mut Vec<(String, VersionRangeSpecifier)>, name: &String, range:
    &VersionRangeSpecifier)
    ensures
        view_dep_list(final(deps)@) == spec_upsert(view_dep_list(old(deps)@), name@, range@),
{
    let ghost dv = view_dep_list(deps@);
    let ghost p = |e: (Seq<char>, Seq<char>)| e.0 == name@;
    proof {
        lemma_find_from_properties(dv, 0, p);
    }
    let mut i: usize = 0;
    while i < deps.len()
        invariant
            i <= deps@.len(),
            dv == view_dep_list(deps@),
            forall|k: int| 0 <= k < i ==> !p(#[trigger] dv[k]),
        decreases deps@.len() - i,
    {
        proof {
            assert(dv[i as int] == (deps@[i as int].0@, deps@[i as int].1@));
        }
        if deps[i].0.eq(name) {
            assert(p(dv[i as int]));
            deps[i] = (name.clone(), range.duplicate());
            proof {
                assert(view_dep_list(deps@) =~= dv.update(i as int, (name@, range@)));
            }
            return;
        }
        assert(!p(dv[i as int]));
        i = i + 1;
    }
    deps.push((name.clone(), range.duplicate()));
    proof {
        assert(find_from(dv, 0, p) is None);
        assert(view_dep_list(deps@) =~= dv.push((name@, range@)));
    }
}

/// Merge the newly installed roots into the manifest's dependency
/// table: each root's entry is inserted, or overwritten if the name is
/// already present; all other entries and their order are kept.
pub fn update_manifest_deps(
    deps: &mut Vec<(String, VersionRangeSpecifier)>,
    additions: &Vec<(String, VersionRangeSpecifier)>,
)
    ensures
        view_dep_list(final(deps)@) == spec_merge(
            view_dep_list(old(deps)@),
            view_dep_list(additions@),
        ),
{
    let ghost d0 = view_dep_list(deps@);
    let ghost addv = view_dep_list(additions@);
    proof {
        assert(addv.skip(0) =~= addv);
    }
    let mut i: usize = 0;
    while i < additions.len()
        invariant
            i <= additions@.len(),
            addv == view_dep_list(additions@),
            spec_merge(d0, addv) == spec_merge(view_dep_list(deps@), addv.skip(i as int)),
        decreases additions@.len() - i,
    {
        let ghost cur = view_dep_list(deps@);
        let ghost rest = addv.skip(i as int);
        proof {
            assert(rest.len() > 0);
            assert(rest.first() == (additions@[i as int].0@, additions@[i as int].1@));
            assert(rest.drop_first() =~= addv.skip(i + 1));
        }
        let (n, rg) = &additions[i];
        upsert(deps, n, rg);
        proof {
            assert(spec_merge(cur, rest) == spec_merge(view_dep_list(deps@), rest.drop_first()));
        }
        i = i + 1;
    }
    proof {
        assert(addv.skip(additions@.len() as int) =~= Seq::<(Seq<char>, Seq<char>)>::empty());
    }
}

/// The range written into the manifest for a freshly installed root:
/// a caret range on its concrete version.
pub fn caret_range_for(version: &Version) -> (r: VersionRangeSpecifier)
    ensures
        r@ == "^"@ + version@,
{
    VersionRangeSpecifier(String::from_str("^").concat(version.as_str()))
}

} // verus!
