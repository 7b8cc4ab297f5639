//! Suggests TCP ports that are safe to bind: ports that no known-service
//! registry reserves and that no scan reports as in use.
//!
//! The readers turn registry and scanner text into port sets, `aggregate`
//! unions them into one exclusion set, and the search picks ports from the
//! registered (1024-49151) and dynamic (49152-65535) ranges.
use vstd::prelude::*;

pub mod aggregate;
pub mod search;
pub mod services;
pub mod tabular;
pub mod text;
pub mod usage;

pub use search::find_available_ports;
pub use services::parse_services_content;

verus! {

/// Each reader's result depends on its input text alone: reading the same
/// text twice gives the same set.
pub proof fn parsing_is_deterministic(a: Seq<char>, b: Seq<char>)
    requires
        a == b,
    ensures
        services::services_ports(a) == services::services_ports(b),
        usage::used_ports(a) == usage::used_ports(b),
        tabular::csv_ports(a) == tabular::csv_ports(b),
{
}

} // verus!
