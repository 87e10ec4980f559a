use vstd::prelude::*;

verus! {

/// What the near-plane clipper does with a camera-space segment, decided
/// from which endpoints lie in front of the camera plane.
#[derive(Clone, Copy, Debug, PartialEq, Eq, Structural)]
pub enum ClipAction {
    /// Both endpoints in front: the segment passes unchanged.
    KeepBoth,
    /// Only the first endpoint in front: the second endpoint is moved onto
    /// the near plane along the segment.
    TruncateSecond,
    /// Only the second endpoint in front: the segment is first inverted, so
    /// the front endpoint becomes `p0`, then truncated as above.
    InvertAndTruncate,
    /// Both endpoints behind: the segment is discarded entirely.
    Discard,
}

/// The near-plane case analysis of the clipper. `p0_in_front` and
/// `p1_in_front` say whether each endpoint has a positive camera-space depth.
pub fn clip_action(p0_in_front: bool, p1_in_front: bool) -> (r: ClipAction)
    ensures
        p0_in_front && p1_in_front ==> r == ClipAction::KeepBoth,
        p0_in_front && !p1_in_front ==> r == ClipAction::TruncateSecond,
        !p0_in_front && p1_in_front ==> r == ClipAction::InvertAndTruncate,
        !p0_in_front && !p1_in_front ==> r == ClipAction::Discard,
{
    match (p0_in_front, p1_in_front) {
        (true, true) => ClipAction::KeepBoth,
        (true, false) => ClipAction::TruncateSecond,
        (false, true) => ClipAction::InvertAndTruncate,
        (false, false) => ClipAction::Discard,
    }
}

} // verus!
