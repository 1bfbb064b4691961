//! The recognition service that is used, and how it is asked to listen.

use vstd::prelude::*;

verus! {

pub const CURRENT_ENDPOINT: &'static str =
    "wss://openspeech.bytedance.com/api/v3/sauc/bigmodel_async";

pub const RESOURCE_ID: &'static str = "volc.seedasr.sauc.duration";

/// The pause that ends an utterance.
pub const VAD_END_WINDOW_MS: u64 = 400;

/// The silence that is put before and behind the recorded audio.
pub const AUDIO_EDGE_GUARD_MS: usize = 200;

} // verus!
