//! Framing: frames are built, stuffed and flagged before they go on a cable.
use crate::bit_string::BitString;
use core::marker::PhantomData;
use frame::tcp::{TCPFrame, TCPFrameBuilder};
use frame::Frame;
use vstd::prelude::*;

pub mod bit_stuffing;
pub mod crc;
pub mod frame;

use bit_stuffing::{prepare_bits, prepared};

verus! {

/// The data link layer for one frame format `F`, configured by builders of type `B`.
pub struct DataLinkLayer<B, F> {
    frame_type: PhantomData<F>,
    builder_type: PhantomData<B>,
}

impl<B, F> Default for DataLinkLayer<B, F> {
    fn default() -> (r: DataLinkLayer<B, F>) {
        DataLinkLayer { frame_type: PhantomData, builder_type: PhantomData }
    }
}

impl DataLinkLayer<TCPFrameBuilder, TCPFrame> {
    pub fn new() -> (r: DataLinkLayer<TCPFrameBuilder, TCPFrame>) {
        DataLinkLayer { frame_type: PhantomData, builder_type: PhantomData }
    }

    /// The buffers to put on the wire for `data`, in order: for each window of
    /// `window_size` consecutive frames, the first frame of the window, stuffed and
    /// flagged.
    pub fn sliding_window(window_size: u16, data: &[TCPFrame]) -> (r: Vec<BitString>)
        requires
            window_size > 0,
        ensures
            r.len() == if data@.len() >= window_size {
                data@.len() - window_size + 1
            } else {
                0
            },
            forall|i: int| 0 <= i < r.len() ==> #[trigger] r[i]@ == prepared(data@[i].wire()),
    {
        let mut out: Vec<BitString> = Vec::new();
        if data.len() < window_size as usize {
            return out;
        }
        let windows = data.len() - window_size as usize + 1;
        let mut i: usize = 0;
        while i < windows
            invariant
                windows <= data@.len(),
                i <= windows,
                out.len() == i,
                forall|j: int| 0 <= j < i ==> #[trigger] out[j]@ == prepared(data@[j].wire()),
            decreases windows - i,
        {
            let bits = data[i].as_bit_string().duplicate();
            out.push(prepare_bits(bits));
            i += 1;
        }
        out
    }
}

} // verus!
