//! Opt-in network integrations: which token enables a scrobbler, and what
//! a scrobbled listen holds.
use vstd::prelude::*;

use crate::text::{chars_of, skip_ws_end, skip_ws_start, trim};

verus! {

/// One completed listen, as submitted to a scrobbler.
#[derive(Debug, Clone)]
pub struct Listen {
    pub artist: String,
    pub track: String,
    pub album: Option<String>,
    /// Unix seconds when playback started.
    pub listened_at: i64,
}

/// The token a scrobbler is enabled with: a blank token (empty after
/// trimming) disables it.
pub fn usable_token(token: Option<String>) -> (r: Option<String>)
    ensures
        match token {
            Some(t) => if trim(t@).len() > 0 {
                r == Some(t)
            } else {
                r is None
            },
            None => r is None,
        },
{
    match token {
        Some(t) => {
            let cs = chars_of(t.as_str());
            let a = skip_ws_start(&cs, 0, cs.len());
            let b = skip_ws_end(&cs, a, cs.len());
            proof {
                crate::text::lemma_trim_start_shift(cs@, 0, cs@.len() as int);
                assert(cs@.subrange(0, cs@.len() as int) =~= cs@);
                crate::text::lemma_trim_end_shift(cs@, a as int, cs@.len() as int);
                assert(trim(t@) == cs@.subrange(a as int, b as int));
            }
            if a < b {
                Some(t)
            } else {
                None
            }
        },
        None => None,
    }
}

} // verus!
