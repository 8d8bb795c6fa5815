//! Where the default database comes from: callers that find no local
//! database may fetch this public dataset.
use vstd::prelude::*;

verus! {

/// The address of the public IP-to-ASN dataset used when no database
/// path is given.
pub fn download_url() -> (r: &'static str)
    ensures
        r@ == (
        "https://github.com/iplocate/ip-address-databases/raw/d2264aeeffceb0ec401a05581a9401150a79eb5a/ip-to-asn/ip-to-asn.mmdb?download=true"
        )@,
{
    "https://github.com/iplocate/ip-address-databases/raw/d2264aeeffceb0ec401a05581a9401150a79eb5a/ip-to-asn/ip-to-asn.mmdb?download=true"
}

} // verus!
