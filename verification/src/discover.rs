//! Relevance classification: does a DNS response come from a cast device?

use crate::dns::{spec_service_name, service_name, DnsResponse, ResponseModel};
use crate::text::str_eq;
use vstd::prelude::*;

verus! {

/// A response qualifies as a discovery answer exactly when its first answer
/// record names the well-known service.
pub open spec fn is_relevant(r: ResponseModel) -> bool {
    r.answers.len() > 0 && r.answers[0] == spec_service_name()
}

/// Whether a DNS response names a cast-enabled device in its first answer.
pub fn is_cast_device(resp: &DnsResponse) -> (r: bool)
    ensures
        r == is_relevant(resp@),
{
    if resp.answers.len() == 0 {
        return false;
    }
    let matched = str_eq(resp.answers[0].as_str(), service_name());
    proof {
        assert(resp@.answers[0] == resp.answers@[0]@);
    }
    matched
}

} // verus!
