//! Turning a host string into addresses.

use vstd::prelude::*;

use crate::address::{is_v4_with, IpAddress};
use crate::errors::{conversion_error_of, IpaddrConversionError, LookupFailure};
use crate::literal::{is_ipv4_literal, literal_octets, parse_ipv4_literal};

verus! {

/// What `get_ipaddr` returns for the collaborator's outcome `out`: its
/// addresses untouched, or its failure wrapped into the matching kind.
pub open spec fn lookup_outcome(out: Result<Vec<IpAddress>, LookupFailure>) -> Result<
    Vec<IpAddress>,
    IpaddrConversionError,
> {
    match out {
        Ok(v) => Ok(v),
        Err(e) => Err(conversion_error_of(e)),
    }
}

/// Resolves `hostname` into addresses. Dotted-decimal IPv4 text is parsed
/// directly into its one address, and `lookup` is not called. Any other
/// string is handed to `lookup` unchanged, and what it yields is returned
/// as it came: the same addresses in the same order, or its failure
/// wrapped into the matching error kind.
pub fn get_ipaddr<F>(hostname: &str, lookup: F) -> (r: Result<Vec<IpAddress>, IpaddrConversionError>) where
    F: FnOnce(&str) -> Result<Vec<IpAddress>, LookupFailure>,

    requires
        !is_ipv4_literal(hostname@) ==> lookup.requires((hostname,)),
    ensures
        is_ipv4_literal(hostname@) ==> r is Ok && r->Ok_0@.len() == 1 && is_v4_with(
            r->Ok_0@[0],
            literal_octets(hostname@),
        ),
        !is_ipv4_literal(hostname@) ==> exists|out: Result<Vec<IpAddress>, LookupFailure>|
            lookup.ensures((hostname,), out) && r == lookup_outcome(out),
{
    match parse_ipv4_literal(hostname) {
        Some(octets) => {
            let mut v: Vec<IpAddress> = Vec::new();
            v.push(IpAddress::V4(octets));
            Ok(v)
        },
        None => {
            let out = lookup(hostname);
            let ghost seen = out;
            let r = match out {
                Ok(addrs) => Ok(addrs),
                Err(e) => Err(e.into_conversion_error()),
            };
            assert(lookup.ensures((hostname,), seen) && r == lookup_outcome(seen));
            r
        },
    }
}

} // verus!
