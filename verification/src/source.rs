//! Samples and where they come from.
use vstd::prelude::*;
use crate::double::Double;

verus! {

/// A sample: when it was taken, in nanoseconds from the start of sampling, and a
/// value for each channel. A value that is no number is missing.
#[derive(Debug)]
pub struct Sample {
    pub t: i64,
    pub values: Vec<Double>,
}

/// The shape of a wave.
#[derive(Debug, Clone, Copy, PartialEq, Eq, Structural)]
pub enum Waveform {
    Sine,
    /// Rising, from minus one to one.
    Sawtooth,
}

/// Samples that wait to be drawn, in the order in which they came.
#[derive(Debug)]
pub struct ChannelSource {
    pub names: Vec<String>,
    pub waiting: Vec<Sample>,
}

impl ChannelSource {
    /// A source of these channels, with no sample waiting.
    pub fn new(channels: Vec<String>) -> (r: ChannelSource)
        ensures
            r.names == channels,
            r.waiting@ == Seq::<Sample>::empty(),
    {
        ChannelSource { names: channels, waiting: Vec::new() }
    }

    /// Puts a sample behind those that wait.
    pub fn send(&mut self, sample: Sample)
        ensures
            final(self).waiting@ == old(self).waiting@.push(sample),
            final(self).names == old(self).names,
    {
        self.waiting.push(sample);
    }

    /// The names of the channels.
    pub fn channel_names(&self) -> (r: &[String])
        ensures
            r@ == self.names@,
    {
        self.names.as_slice()
    }

    /// Takes all samples that wait.
    pub fn poll(&mut self) -> (r: Vec<Sample>)
        ensures
            r@ == old(self).waiting@,
            final(self).waiting@ == Seq::<Sample>::empty(),
            final(self).names == old(self).names,
    {
        let mut out: Vec<Sample> = Vec::new();
        out.append(&mut self.waiting);
        assert(out@ =~= old(self).waiting@);
        out
    }
}

/// When the next sample of a generated wave is due, all in nanoseconds: one
/// period after the last one, or now where that is more than a period past.
pub fn next_wave_sample(due: u64, period: u64, now: u64) -> (r: u64)
    requires
        due + period <= u64::MAX,
    ensures
        r == if due + 2 * period < now {
            now as int
        } else {
            due + period
        },
{
    let next: u64 = due + period;
    if (next as u128 + period as u128) < now as u128 {
        now
    } else {
        next
    }
}

}
