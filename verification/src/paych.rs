//! In-memory index of payment-channel records.
//!
//! The surrounding node files each payment channel's serialised record in a
//! flat datastore keyed by strings; only that pure map layer lives here.
//! Record contents, channel addresses and their encodings belong to the
//! node's payment-channel collaborator.

use vstd::prelude::*;

verus! {

use std::collections::HashMap;
use vstd::string::StringExecFns;

/// Store of payment-channel records: serialised record bytes under their
/// datastore keys.
#[derive(Clone, Debug)]
pub struct PaychStore {
    /// The backing map.
    pub ds: HashMap<String, Vec<u8>>,
}

impl PaychStore {
    /// An empty store.
    pub fn new() -> (r: PaychStore)
        ensures
            r.ds@ == Map::<String, Vec<u8>>::empty(),
    {
        let ds: HashMap<String, Vec<u8>> = HashMap::new();
        PaychStore { ds }
    }
}

impl Default for PaychStore {
    /// An empty store.
    fn default() -> (r: Self)
        ensures
            r.ds@ == Map::<String, Vec<u8>>::empty(),
    {
        PaychStore::new()
    }
}

/// The datastore key under which a channel's record is filed.
pub fn key_for_channel(channel_id: String) -> (r: String)
    ensures
        r@ == "ChannelInfo/"@ + channel_id@,
{
    let mut k = String::new();
    k.append("ChannelInfo/");
    k.append(channel_id.as_str());
    k
}

} // verus!
