//! The crate's only trusted boundary: semver range and version parsing,
//! range satisfaction and version precedence, all provided by the
//! `node_semver` crate.
//!
//! Every outcome below is a pure function of the argument strings, so
//! each gets an uninterpreted name; the wrappers' contracts relate the
//! call results to those names and say nothing further about them.
//!
//! One caveat governs the range wrappers. `node_semver::Range::parse`
//! aborts (an `unreachable!` in its `primitive` and `tilde` parsers)
//! when a bare `=` or a `~` is followed by a wildcard version part:
//! `=*`, `= x`, `~X`, `~> *` and the like. The wrappers therefore
//! `require` the input to be free of those shapes, and the verified
//! guard below (`range_probe_safe` / `range_probe_safe_check`) decides
//! that condition, conservatively: every aborting string is rejected,
//! and a rejected string is treated by the selector as a tag name.

use vstd::prelude::*;

verus! {

/// Whether a string parses as a semver range (`node_semver::Range::parse`
/// succeeds on it). Strings that do not - `latest`, `stable` - are
/// treated as distribution tags by the selector.
pub uninterp spec fn range_ok(r: Seq<char>) -> bool;

/// Whether a string parses as a semver version
/// (`node_semver::Version::parse` succeeds on it).
pub uninterp spec fn version_ok(v: Seq<char>) -> bool;

/// Whether the version named by `v` lies in the range named by `r`;
/// meaningful where both parse.
pub uninterp spec fn range_allows(r: Seq<char>, v: Seq<char>) -> bool;

/// Whether version `a` strictly precedes version `b` in semver
/// precedence; meaningful where both parse.
pub uninterp spec fn version_precedes(a: Seq<char>, b: Seq<char>) -> bool;

/// Wildcard version parts of the range grammar.
pub open spec fn wild_char(c: char) -> bool {
    c == 'x' || c == 'X' || c == '*'
}

/// The blank characters the range grammar skips (nom's `space0`).
pub open spec fn space_char(c: char) -> bool {
    c == ' ' || c == '\t'
}

/// First position at or after `q` holding a non-blank character.
pub open spec fn skip_spaces(s: Seq<char>, q: int) -> int
    decreases s.len() - q,
{
    if q < 0 || q >= s.len() {
        q
    } else if space_char(s[q]) {
        skip_spaces(s, q + 1)
    } else {
        q
    }
}

/// Whether, from `q` on, the grammar's `partial_version` would read a
/// wildcard first component: blanks, an optional `v`, blanks, then a
/// wildcard character.
pub open spec fn wildcard_partial_at(s: Seq<char>, q: int) -> bool {
    let q1 = skip_spaces(s, q);
    (q1 < s.len() && wild_char(s[q1])) || (q1 < s.len() && s[q1] == 'v' && {
        let q2 = skip_spaces(s, q1 + 1);
        q2 < s.len() && wild_char(s[q2])
    })
}

/// Whether position `p` starts one of the two comparator shapes on
/// which the vendored range parser aborts: a bare `=` (not the tail of
/// `<=`/`>=`) or a `~` (with its optional `>`), each followed by a
/// wildcard version part.
pub open spec fn panic_at(s: Seq<char>, p: int) -> bool {
    (s[p] == '=' && (p == 0 || (s[p - 1] != '<' && s[p - 1] != '>')) && wildcard_partial_at(
        s,
        p + 1,
    )) || (s[p] == '~' && {
        let q1 = skip_spaces(s, p + 1);
        wildcard_partial_at(s, q1) || (q1 < s.len() && s[q1] == '>' && wildcard_partial_at(
            s,
            q1 + 1,
        ))
    })
}

/// Whether `node_semver::Range::parse` can be called on `s` without
/// aborting: no position starts a comparator-with-wildcard shape.
pub open spec fn range_probe_safe(s: Seq<char>) -> bool {
    forall|p: int| 0 <= p < s.len() ==> !panic_at(s, p)
}

fn skip_spaces_exec(s: &str, q: usize) -> (r: usize)
    requires
        q <= s@.len(),
    ensures
        r == skip_spaces(s@, q as int),
        q <= r <= s@.len(),
{
    let n = s.unicode_len();
    let mut i: usize = q;
    while i < n && (s.get_char(i) == ' ' || s.get_char(i) == '\t')
        invariant
            q <= i <= n,
            n == s@.len(),
            skip_spaces(s@, q as int) == skip_spaces(s@, i as int),
        decreases n - i,
    {
        i = i + 1;
    }
    i
}

fn wildcard_partial_check(s: &str, q: usize) -> (r: bool)
    requires
        q <= s@.len(),
    ensures
        r == wildcard_partial_at(s@, q as int),
{
    let n = s.unicode_len();
    let q1 = skip_spaces_exec(s, q);
    if q1 < n {
        let c = s.get_char(q1);
        if c == 'x' || c == 'X' || c == '*' {
            return true;
        }
        if c == 'v' {
            let q2 = skip_spaces_exec(s, q1 + 1);
            if q2 < n {
                let c2 = s.get_char(q2);
                return c2 == 'x' || c2 == 'X' || c2 == '*';
            }
        }
    }
    false
}

/// Runtime check for `range_probe_safe`: the selector consults it
/// before handing a specifier to the range parser.
pub fn range_probe_safe_check(s: &str) -> (r: bool)
    ensures
        r == range_probe_safe(s@),
{
    let n = s.unicode_len();
    let mut p: usize = 0;
    while p < n
        invariant
            p <= n,
            n == s@.len(),
            forall|k: int| 0 <= k < p ==> !panic_at(s@, k),
        decreases n - p,
    {
        let c = s.get_char(p);
        if c == '=' {
            let bare = if p == 0 {
                true
            } else {
                let pc = s.get_char(p - 1);
                pc != '<' && pc != '>'
            };
            if bare && wildcard_partial_check(s, p + 1) {
                assert(panic_at(s@, p as int));
                return false;
            }
        } else if c == '~' {
            let q1 = skip_spaces_exec(s, p + 1);
            if wildcard_partial_check(s, q1) {
                assert(panic_at(s@, p as int));
                return false;
            }
            if q1 < n && s.get_char(q1) == '>' && wildcard_partial_check(s, q1 + 1) {
                assert(panic_at(s@, p as int));
                return false;
            }
        }
        assert(!panic_at(s@, p as int));
        p = p + 1;
    }
    true
}

/// Relies on node_semver::Range::parse: whether it succeeds depends on
/// the input string alone. The `requires` excludes the inputs on which
/// the parser aborts instead of returning.
#[verifier::external_body]
pub(crate) fn range_parses(r: &str) -> (b: bool)
    requires
        range_probe_safe(r@),
    ensures
        b == range_ok(r@),
{
    node_semver::Range::parse(r).is_ok()
}

/// Relies on node_semver::Range::parse, node_semver::Version::parse and
/// node_semver::Range::satisfies: all three are pure, so whether
/// `version` lies in `range` depends on the two strings alone. The
/// `requires` excludes the range strings on which the parser aborts.
#[verifier::external_body]
pub(crate) fn range_matches(range: &str, version: &str) -> (b: bool)
    requires
        range_probe_safe(range@),
    ensures
        b == (range_ok(range@) && version_ok(version@) && range_allows(range@, version@)),
{
    match (node_semver::Range::parse(range), node_semver::Version::parse(version)) {
        (Ok(r), Ok(v)) => r.satisfies(&v),
        _ => false,
    }
}

/// Relies on node_semver::Version::parse and node_semver::Version's Ord
/// impl, which orders by semver precedence; both are total and pure
/// functions of the version strings. The second and third clauses
/// record that the Ord impl is a strict order - transitive and
/// asymmetric (it compares major, minor, patch and pre-release
/// lexicographically).
#[verifier::external_body]
pub(crate) fn version_lt(a: &str, b: &str) -> (r: bool)
    ensures
        r == (version_ok(a@) && version_ok(b@) && version_precedes(a@, b@)),
        r ==> forall|c: Seq<char>|
            version_ok(c) && version_precedes(b@, c) ==> version_precedes(a@, c),
        r ==> !version_precedes(b@, a@),
{
    match (node_semver::Version::parse(a), node_semver::Version::parse(b)) {
        (Ok(x), Ok(y)) => x < y,
        _ => false,
    }
}

} // verus!
