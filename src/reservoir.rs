//! The bit reservoir: a sliding buffer that carries main data across frames.
use crate::error::{invalid, Error, ErrorKind};
use vstd::prelude::*;

verus! {

/// The capacity of the reservoir in bytes.
pub const RESERVOIR_CAPACITY: usize = 4096;

/// Decoder state that persists from frame to frame: the reservoir of main
/// data bytes.
pub struct DecoderState {
    frame_buffer: Vec<u8>,
    frame_buffer_len: usize,
}

impl DecoderState {
    /// The bytes the reservoir holds.
    pub closed spec fn reservoir(&self) -> Seq<u8> {
        self.frame_buffer@.subrange(0, self.frame_buffer_len as int)
    }

    pub closed spec fn wf(&self) -> bool {
        &&& self.frame_buffer@.len() == RESERVOIR_CAPACITY
        &&& self.frame_buffer_len <= RESERVOIR_CAPACITY
    }

    /// A state whose reservoir is empty.
    pub fn new() -> (r: DecoderState)
        ensures
            r.wf(),
            r.reservoir() == Seq::<u8>::empty(),
    {
        let mut frame_buffer: Vec<u8> = Vec::new();
        let mut i: usize = 0;
        while i < RESERVOIR_CAPACITY
            invariant
                i <= RESERVOIR_CAPACITY,
                frame_buffer@.len() == i,
            decreases RESERVOIR_CAPACITY - i,
        {
            frame_buffer.push(0);
            i = i + 1;
        }
        let r = DecoderState { frame_buffer, frame_buffer_len: 0 };
        assert(r.reservoir() =~= Seq::<u8>::empty());
        r
    }

    /// The number of bytes in the reservoir.
    pub fn len(&self) -> (r: usize)
        requires
            self.wf(),
        ensures
            r == self.reservoir().len(),
            r <= RESERVOIR_CAPACITY,
    {
        self.frame_buffer_len
    }

    /// The bytes in the reservoir.
    pub fn contents(&self) -> (r: &[u8])
        requires
            self.wf(),
        ensures
            r@ == self.reservoir(),
    {
        vstd::slice::slice_subrange(self.frame_buffer.as_slice(), 0, self.frame_buffer_len)
    }

    /// Assembles a frame's logical main data: the last `main_data_begin` bytes
    /// of the reservoir followed by the frame's own main data bytes. The result
    /// replaces the reservoir. A back-pointer beyond the reservoir's length is
    /// `InvalidData` and leaves the reservoir as it was.
    pub fn read_logical_frame_data(&mut self, main_data: &[u8], main_data_begin: usize) -> (r: Result<(), Error>)
        requires
            old(self).wf(),
            main_data_begin + main_data@.len() <= RESERVOIR_CAPACITY,
        ensures
            final(self).wf(),
            match r {
                Ok(_) => {
                    let prior = old(self).reservoir();
                    &&& main_data_begin <= prior.len()
                    &&& final(self).reservoir() == prior.subrange(prior.len() - main_data_begin, prior.len() as int) + main_data@
                },
                Err(e) => {
                    &&& main_data_begin > old(self).reservoir().len()
                    &&& e.kind() == ErrorKind::InvalidData
                    &&& final(self).reservoir() == old(self).reservoir()
                },
            },
    {
        if main_data_begin > self.frame_buffer_len {
            return Err(invalid("main_data_begin exceeds the reservoir"));
        }
        let ghost prior = self.reservoir();
        let ghost old_buf = self.frame_buffer@;
        let prev_start = self.frame_buffer_len - main_data_begin;
        let mut i: usize = 0;
        while i < main_data_begin
            invariant
                i <= main_data_begin,
                prev_start + main_data_begin <= RESERVOIR_CAPACITY,
                self.frame_buffer@.len() == RESERVOIR_CAPACITY,
                old_buf.len() == RESERVOIR_CAPACITY,
                forall|j: int| 0 <= j < i ==> self.frame_buffer@[j] == old_buf[prev_start + j],
                forall|j: int| i <= j < RESERVOIR_CAPACITY ==> self.frame_buffer@[j] == old_buf[j],
            decreases main_data_begin - i,
        {
            let b = self.frame_buffer[prev_start + i];
            self.frame_buffer.set(i, b);
            i = i + 1;
        }
        let mut k: usize = 0;
        while k < main_data.len()
            invariant
                k <= main_data@.len(),
                main_data_begin + main_data@.len() <= RESERVOIR_CAPACITY,
                self.frame_buffer@.len() == RESERVOIR_CAPACITY,
                forall|j: int| 0 <= j < main_data_begin ==> self.frame_buffer@[j] == old_buf[prev_start + j],
                forall|j: int| 0 <= j < k ==> self.frame_buffer@[main_data_begin + j] == main_data@[j],
            decreases main_data@.len() - k,
        {
            self.frame_buffer.set(main_data_begin + k, main_data[k]);
            k = k + 1;
        }
        self.frame_buffer_len = main_data_begin + main_data.len();
        assert(self.reservoir() =~= prior.subrange(prior.len() - main_data_begin, prior.len() as int) + main_data@);
        Ok(())
    }
}

} // verus!
