//! Ethernet addresses and frames, as plain values.

use vstd::prelude::*;

verus! {

/// A hardware address: six octets, in the order they go out.
#[derive(Clone, Copy, Debug, Eq)]
pub struct Mac(pub [u8; 6]);

impl PartialEq for Mac {
    fn eq(&self, other: &Self) -> (same: bool) {
        let same = self.0[0] == other.0[0] && self.0[1] == other.0[1] && self.0[2] == other.0[2]
            && self.0[3] == other.0[3] && self.0[4] == other.0[4] && self.0[5] == other.0[5];
        assert(same ==> self.0 =~= other.0);
        same
    }
}

impl vstd::std_specs::cmp::PartialEqSpecImpl for Mac {
    open spec fn obeys_eq_spec() -> bool {
        true
    }

    open spec fn eq_spec(&self, other: &Self) -> bool {
        self.0 == other.0
    }
}

/// One Ethernet frame.
#[derive(Clone, Debug, PartialEq, Eq)]
pub struct Frame {
    pub destination: Mac,
    pub source: Mac,
    pub ethertype: u16,
    pub payload: Vec<u8>,
}

/// What an Ethernet frame says.
#[verifier::ext_equal]
pub struct FrameView {
    pub destination: Mac,
    pub source: Mac,
    pub ethertype: u16,
    pub payload: Seq<u8>,
}

impl View for Frame {
    type V = FrameView;

    open spec fn view(&self) -> FrameView {
        FrameView {
            destination: self.destination,
            source: self.source,
            ethertype: self.ethertype,
            payload: self.payload@,
        }
    }
}

/// What each of `frames` says.
pub open spec fn frames_view(frames: Seq<Frame>) -> Seq<FrameView> {
    Seq::new(frames.len(), |i: int| frames[i]@)
}

/// Whether `mac` is the address of a group of stations, not of one: the
/// lowest bit of the first octet says so.
pub open spec fn names_group(mac: Mac) -> bool {
    mac.0[0] & 0x01 != 0
}

impl Mac {
    /// Whether this is the address of a group of stations, not of one.
    #[must_use]
    pub fn is_group(&self) -> (group: bool)
        ensures
            group == names_group(*self),
    {
        self.0[0] & 0x01 != 0
    }
}

} // verus!
