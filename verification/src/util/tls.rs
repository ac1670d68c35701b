//! TLS settings.

use std::sync::Arc;
use vstd::prelude::*;

verus! {

/// Treats any certificate of a server as valid. Connections made this way can be
/// intercepted; it is convenient for testing.
#[derive(Debug)]
pub struct SkipServerVerification;

impl SkipServerVerification {
    /// Shared, as TLS settings want it.
    pub fn new() -> (verification: Arc<Self>)
        ensures
            *verification == SkipServerVerification,
    {
        Arc::new(SkipServerVerification)
    }

    /// Whether the certificate of a server is valid: always.
    pub fn verify_server_cert(
        &self,
        _end_entity: &[u8],
        _intermediates: &[Vec<u8>],
        _server_name: &str,
    ) -> (valid: bool)
        ensures
            valid,
    {
        true
    }
}

/// The application protocols that a server offers: `protocols` in that order, or, where
/// there are none, those it has.
pub fn alpn_protocols(current: Vec<Vec<u8>>, protocols: &[Vec<u8>]) -> (offered: Vec<Vec<u8>>)
    ensures
        protocols@.len() == 0 ==> offered == current,
        protocols@.len() > 0 ==> offered@.len() == protocols@.len() && forall|i: int|
            0 <= i < protocols@.len() ==> (#[trigger] offered@[i])@ == protocols@[i]@,
{
    if protocols.len() > 0 {
        let mut offered: Vec<Vec<u8>> = Vec::new();
        let mut i: usize = 0;
        while i < protocols.len()
            invariant
                i <= protocols@.len(),
                offered@.len() == i,
                forall|k: int| 0 <= k < i ==> (#[trigger] offered@[k])@ == protocols@[k]@,
            decreases protocols@.len() - i,
        {
            let protocol = protocols[i].clone();
            assert(protocol@ =~= protocols@[i as int]@);
            offered.push(protocol);
            i += 1;
        }
        offered
    } else {
        current
    }
}

} // verus!
