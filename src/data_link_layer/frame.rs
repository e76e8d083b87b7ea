//! Frame formats.
use crate::bit::Bit;
use crate::bit_string::BitString;
use vstd::prelude::*;

pub mod checksum;
pub mod tcp;

verus! {

/// A frame format: how data is cut into frames, and the bits of a frame.
pub trait Frame<T>: Sized {
    /// `builder` is configured enough to make frames of `data`.
    spec fn ready(data: Seq<Bit>, builder: &T) -> bool;

    /// The serialized bits of the frame.
    spec fn wire(&self) -> Seq<Bit>;

    fn setup_frames(data: BitString, builder: T) -> (r: Vec<Self>)
        requires
            Self::ready(data@, &builder),
    ;

    fn as_bit_string(&self) -> (r: &BitString)
        ensures
            r@ == self.wire(),
    ;
}

} // verus!
