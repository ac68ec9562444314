//! The stream positions of the compressed audio a streaming plugin sends: each encoded
//! buffer is stamped with the number of samples that came before the samples it encodes.
use vstd::prelude::*;

verus! {

/// The bit depths the encoder converts samples to.
#[derive(Clone, Copy, PartialEq, Eq, Structural, Debug)]
pub enum SampleFormat {
    I16,
    I24,
    I32,
}

/// The sample format for a bit depth: the encoder supports 16, 24 and 32 bits and no other.
pub fn sample_format(bits_per_sample: usize) -> (r: SampleFormat)
    requires
        bits_per_sample == 16 || bits_per_sample == 24 || bits_per_sample == 32,
    ensures
        r == if bits_per_sample == 16 {
            SampleFormat::I16
        } else if bits_per_sample == 24 {
            SampleFormat::I24
        } else {
            SampleFormat::I32
        },
{
    if bits_per_sample == 16 {
        SampleFormat::I16
    } else if bits_per_sample == 24 {
        SampleFormat::I24
    } else {
        SampleFormat::I32
    }
}

/// Where the encoder's output stands: the stream position of the next encoded buffer, and
/// the samples handed to the encoder since that buffer started.
#[derive(Clone, Copy, PartialEq, Eq, Structural, Debug)]
pub struct StreamPosition {
    pub stream_pos: u64,
    pub queued_len: usize,
}

impl StreamPosition {
    /// The start of a stream.
    pub fn new() -> (r: Self)
        ensures
            r.stream_pos == 0,
            r.queued_len == 0,
    {
        StreamPosition { stream_pos: 0, queued_len: 0 }
    }

    /// Accounts for `len` samples handed to the encoder; when the encoder produced output
    /// (`has_output`), answers the stream position to stamp it with and starts the next
    /// buffer after the queued samples. Nothing happens for an empty batch.
    pub fn process(&mut self, len: usize, has_output: bool) -> (r: Option<u64>)
        requires
            old(self).queued_len + len <= usize::MAX,
            old(self).stream_pos + old(self).queued_len + len <= u64::MAX,
        ensures
            len == 0 ==> r is None && *final(self) == *old(self),
            len > 0 && !has_output ==> r is None && final(self).stream_pos == old(self).stream_pos
                && final(self).queued_len == old(self).queued_len + len,
            len > 0 && has_output ==> r == Some(old(self).stream_pos) && final(self).stream_pos
                == old(self).stream_pos + old(self).queued_len + len && final(self).queued_len == 0,
            final(self).stream_pos + final(self).queued_len == old(self).stream_pos + old(self).queued_len + len,
            final(self).stream_pos >= old(self).stream_pos,
    {
        if len == 0 {
            return None;
        }
        self.queued_len = self.queued_len + len;
        if has_output {
            let stamp = self.stream_pos;
            self.stream_pos = self.stream_pos + self.queued_len as u64;
            self.queued_len = 0;
            Some(stamp)
        } else {
            None
        }
    }

    /// The stream position of the last buffer, flushed when the stream ends.
    pub fn finish(&self) -> (r: u64)
        ensures
            r == self.stream_pos,
    {
        self.stream_pos
    }
}

/// A buffer of encoded audio: its bytes, the stream position of its first sample, and
/// whether it ends the stream.
#[derive(Debug)]
pub struct EncodedBuf {
    pub data: Vec<u8>,
    pub stream_time: u64,
    pub is_last: bool,
}

/// The number of samples the encoder takes from a batch: the shortest channel's length, or
/// none when there is no channel.
pub open spec fn frame_count_of(lens: Seq<usize>) -> int
    decreases lens.len(),
{
    if lens.len() == 0 {
        0
    } else if lens.len() == 1 {
        lens[0] as int
    } else {
        let m = frame_count_of(lens.drop_last());
        if lens.last() < m {
            lens.last() as int
        } else {
            m
        }
    }
}

/// The number of samples the encoder takes from a batch whose channels have the given
/// lengths.
pub fn frame_count(lens: &Vec<usize>) -> (r: usize)
    ensures
        r == frame_count_of(lens@),
        forall|c: int| 0 <= c < lens@.len() ==> r <= #[trigger] lens@[c],
{
    if lens.len() == 0 {
        return 0;
    }
    let mut m = lens[0];
    let mut i: usize = 1;
    assert(lens@.take(1).drop_last() =~= Seq::<usize>::empty());
    while i < lens.len()
        invariant
            1 <= i <= lens@.len(),
            m == frame_count_of(lens@.take(i as int)),
            forall|c: int| 0 <= c < i ==> m <= #[trigger] lens@[c],
        decreases lens@.len() - i,
    {
        assert(lens@.take(i as int + 1).drop_last() =~= lens@.take(i as int));
        if lens[i] < m {
            m = lens[i];
        }
        i = i + 1;
    }
    assert(lens@.take(lens@.len() as int) =~= lens@);
    m
}

impl StreamPosition {
    /// One batch of `len` samples handed to the encoder, after which the encoder's output
    /// holds the bytes `encoded`: when it wrote any, they go out as one buffer at the back of
    /// `output`, stamped with the stream position of the buffer's start, and the encoder's
    /// output is emptied; an empty batch changes nothing.
    pub fn encode(&mut self, len: usize, encoded: &mut Vec<u8>, output: &mut Vec<EncodedBuf>)
        requires
            old(self).queued_len + len <= usize::MAX,
            old(self).stream_pos + old(self).queued_len + len <= u64::MAX,
        ensures
            final(self).stream_pos + final(self).queued_len == old(self).stream_pos + old(self).queued_len + len,
            if len > 0 && old(encoded)@.len() > 0 {
                &&& final(output)@ == old(output)@.push(
                    EncodedBuf { data: *old(encoded), stream_time: old(self).stream_pos, is_last: false },
                )
                &&& final(self).queued_len == 0
                &&& final(encoded)@.len() == 0
            } else {
                &&& final(output)@ == old(output)@
                &&& final(self).stream_pos == old(self).stream_pos
                &&& final(encoded)@ == old(encoded)@
            },
    {
        let has_output = encoded.len() > 0;
        match self.process(len, has_output) {
            Some(stamp) => {
                let mut data: Vec<u8> = Vec::new();
                std::mem::swap(&mut data, encoded);
                output.push(EncodedBuf { data, stream_time: stamp, is_last: false });
            },
            None => {},
        }
    }

    /// The end of the stream: the encoder's last bytes go out as the last buffer, stamped
    /// with the current stream position, and the encoder's output is emptied.
    pub fn finish_stream(&self, encoded: &mut Vec<u8>, output: &mut Vec<EncodedBuf>)
        ensures
            final(output)@ == old(output)@.push(
                EncodedBuf { data: *old(encoded), stream_time: self.stream_pos, is_last: true },
            ),
            final(encoded)@.len() == 0,
    {
        let mut data: Vec<u8> = Vec::new();
        std::mem::swap(&mut data, encoded);
        output.push(EncodedBuf { data, stream_time: self.finish(), is_last: true });
    }
}

} // verus!
