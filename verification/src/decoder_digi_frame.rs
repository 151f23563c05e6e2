//! Decoding of raw binary Digimatic frames at the first receiver stage.

use vstd::prelude::*;

verus! {

/// Binary frames are decoded by the parser's bit path; this stage has nothing
/// to do and returns at once.
pub fn digi_frame_decoder_bin() {
}

} // verus!
