//! Host names under the public suffix list, for reporting on filter sources.
use vstd::prelude::*;
use vstd::string::*;

verus! {

/// The registrable domain that the public suffix list gives a host name, if any.
pub uninterp spec fn registrable_of(host: Seq<char>) -> Option<Seq<char>>;

/// Relies on `psl::domain_str`: the registrable domain of a host name, which
/// depends on the name alone.
#[verifier::external_body]
fn domain_str(host: &str) -> (r: Option<String>)
    ensures
        match r {
            Some(d) => registrable_of(host@) == Some(d@),
            None => registrable_of(host@) is None,
        },
{
    match psl::domain_str(host) {
        Some(d) => Some(d.to_string()),
        None => None,
    }
}

/// The name a source host is reported under: its registrable domain, or the
/// host itself where the list gives none.
pub open spec fn reported_host(host: Seq<char>) -> Seq<char> {
    match registrable_of(host) {
        Some(d) => d,
        None => host,
    }
}

/// The registrable domain of `host`, or `host` itself.
pub fn registrable_host(host: &str) -> (r: String)
    ensures
        r@ == reported_host(host@),
{
    match domain_str(host) {
        Some(d) => d,
        None => String::from_str(host),
    }
}

/// Whether `host` is longer than the name it is reported under, so lies below
/// its registrable domain.
pub fn is_subdomain(host: &str) -> (b: bool)
    ensures
        b == (reported_host(host@).len() < host@.len()),
{
    let d = registrable_host(host);
    d.as_str().unicode_len() < host.unicode_len()
}

} // verus!
