//! What the registry client computes: request URLs and the Accept
//! header for install documents. The transport itself lives with the
//! caller; its failures surface as `Error`.

use vstd::prelude::*;

verus! {

/// A registry transport failure: network error, non-2xx response or a
/// malformed document.
#[derive(Debug, PartialEq)]
pub enum Error {
    HttpError,
}

/// The default public registry.
pub fn npm_registry_url() -> (r: &'static str)
    ensures
        r@ == "https://registry.npmjs.org/"@,
{
    "https://registry.npmjs.org/"
}

/// The Accept header preferring the compact install document.
pub fn install_fetch_header() -> (r: &'static str)
    ensures
        r@ == "application/vnd.npm.install-v1+json; q=1.0, application/json; q=0.8, */*"@,
{
    "application/vnd.npm.install-v1+json; q=1.0, application/json; q=0.8, */*"
}

/// The URL of a package's registry document: the registry base with
/// the package name appended.
pub fn package_document_url(registry_base: &str, name: &str) -> (r: String)
    ensures
        r@ == registry_base@ + name@,
{
    String::from_str(registry_base).concat(name)
}

} // verus!
