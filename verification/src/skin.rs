//! Skin resolution records and the pure resolution policy: cache first, then
//! the upstream lookup, then the empty sentinel. The network work itself runs
//! outside the tick and hands its outcome back as plain values.

use crate::ident::Uuid;
use vstd::prelude::*;

verus! {

/// A resolved skin: texture payload and signature. Both empty is the
/// sentinel used when resolution fails.
pub struct PlayerSkin {
    pub textures: Vec<u8>,
    pub signature: Vec<u8>,
}

impl PlayerSkin {
    /// The failure sentinel.
    pub open spec fn is_empty_sentinel(&self) -> bool {
        self.textures@.len() == 0 && self.signature@.len() == 0
    }

    /// Builds the failure sentinel.
    pub fn empty() -> (r: PlayerSkin)
        ensures
            r.is_empty_sentinel(),
    {
        PlayerSkin { textures: Vec::new(), signature: Vec::new() }
    }
}

/// A request scheduled at login: resolve the skin for this account and hand
/// it back to this entity.
pub struct SkinRequest {
    pub entity_id: u64,
    pub uuid: Uuid,
}

/// A completed resolution flowing back to the simulation.
pub struct SkinResponse {
    pub entity_id: u64,
    pub skin: PlayerSkin,
}

/// The resolution policy, applied to what the cache and the upstream lookup
/// produced: a cache hit wins, an upstream hit comes second, anything else
/// resolves to the empty sentinel.
pub fn choose_skin(cache_hit: Option<PlayerSkin>, fetched: Option<PlayerSkin>) -> (r: PlayerSkin)
    ensures
        cache_hit matches Some(s) ==> r == s,
        cache_hit is None ==> (fetched matches Some(s) ==> r == s),
        cache_hit is None && fetched is None ==> r.is_empty_sentinel(),
{
    match cache_hit {
        Some(s) => s,
        None => match fetched {
            Some(s) => s,
            None => PlayerSkin::empty(),
        },
    }
}

} // verus!
