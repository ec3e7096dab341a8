//! Object identifiers of the extended operations and controls the client uses.

use vstd::prelude::*;

verus! {

/// StartTLS extended operation
pub const STARTTLS_OID: &'static str = "1.3.6.1.4.1.1466.20037";

/// WHOAMI extended operation
pub const WHOAMI_OID: &'static str = "1.3.6.1.4.1.4203.1.11.3";

/// Notice of disconnection response sent by the server
pub const NOTICE_OF_DISCONNECTION_OID: &'static str = "1.3.6.1.4.1.1466.20036";

/// SimplePagedResultsControl OID
pub const SIMPLE_PAGED_RESULTS_CONTROL_OID: &'static str = "1.2.840.113556.1.4.319";

} // verus!
