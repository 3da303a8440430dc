//! The decoder of one partially length-prefixed or fixed-size value.

use vstd::prelude::*;
use crate::le::le_value;
use crate::source::{ByteSource, SourceError};

verus! {

/// The size prefix of a PLP value that marks it NULL (all bits set).
pub const PLP_NULL: u64 = 0xffff_ffff_ffff_ffff;

/// The smallest declared size that needs the PLP encoding: a two-byte size
/// prefix cannot hold it.
pub const PLP_THRESHOLD: usize = 0xffff;

/// Mode for type reader.
#[derive(Debug, Clone, Copy, PartialEq, Eq, Structural)]
pub enum ReadTyMode {
    /// Fixed-size type with given size: a two-byte size prefix, then that
    /// many raw bytes.
    FixedSize(usize),
    /// Partially length-prefixed type: an eight-byte size prefix, then
    /// chunks each led by a four-byte length, ended by a chunk of length 0.
    Plp,
}

impl ReadTyMode {
    /// Determine the mode automatically from size.
    pub fn auto(size: usize) -> (r: Self)
        ensures
            size < PLP_THRESHOLD ==> r == ReadTyMode::FixedSize(size),
            size >= PLP_THRESHOLD ==> r == ReadTyMode::Plp,
    {
        if size < PLP_THRESHOLD {
            ReadTyMode::FixedSize(size)
        } else {
            ReadTyMode::Plp
        }
    }
}

/// How far the decoding of a value has come.
pub enum Phase {
    /// The size prefix has not been read.
    Start,
    /// The size prefix has been read; `data` holds the payload so far and
    /// `left` the bytes still to copy from the current chunk or segment.
    Body { data: Seq<u8>, left: nat },
    /// Decoding has ended with `value` (`None` for NULL).
    Finished { value: Option<Seq<u8>> },
}

pub open spec fn rank(ph: Phase) -> nat {
    match ph {
        Phase::Start => 2,
        Phase::Body { .. } => 1,
        Phase::Finished { .. } => 0,
    }
}

/// One transition of the decoder on the unread bytes `t`: the next phase and
/// the number of bytes it consumes, or `None` where `t` is too short for the
/// next field (or decoding has ended).
pub open spec fn step(mode: ReadTyMode, ph: Phase, t: Seq<u8>) -> Option<(Phase, nat)> {
    match ph {
        Phase::Start => match mode {
            ReadTyMode::FixedSize(_) => if t.len() < 2 {
                None
            } else {
                Some((Phase::Body { data: Seq::empty(), left: le_value(t.take(2)) }, 2))
            },
            ReadTyMode::Plp => if t.len() < 8 {
                None
            } else if le_value(t.take(8)) == PLP_NULL as nat {
                Some((Phase::Finished { value: None }, 8))
            } else {
                Some((Phase::Body { data: Seq::empty(), left: 0 }, 8))
            },
        },
        Phase::Body { data, left } => if left == 0 {
            match mode {
                ReadTyMode::FixedSize(_) => Some((Phase::Finished { value: Some(data) }, 0)),
                ReadTyMode::Plp => if t.len() < 4 {
                    None
                } else if le_value(t.take(4)) == 0 {
                    Some((Phase::Finished { value: Some(data) }, 4))
                } else {
                    Some((Phase::Body { data, left: le_value(t.take(4)) }, 4))
                },
            }
        } else if t.len() < 1 {
            None
        } else {
            Some((Phase::Body { data: data.push(t[0]), left: (left - 1) as nat }, 1))
        },
        Phase::Finished { .. } => None,
    }
}

/// The decoder run on the unread bytes `t` from phase `ph` for as long as
/// it can go: the phase it stops in and the number of bytes it consumes.
/// It stops in a `Finished` phase, or where `t` runs short.
pub open spec fn run(mode: ReadTyMode, ph: Phase, t: Seq<u8>) -> (Phase, nat)
    decreases t.len(), rank(ph),
{
    match step(mode, ph, t) {
        None => (ph, 0),
        Some((q, k)) => {
            let (f, j) = run(mode, q, t.skip(k as int));
            (f, k + j)
        },
    }
}


/// A finished decoder consumes nothing more.
pub proof fn lemma_run_finished(mode: ReadTyMode, value: Option<Seq<u8>>, t: Seq<u8>)
    ensures
        run(mode, Phase::Finished { value }, t) == (Phase::Finished { value }, 0nat),
{
}

/// What one call of [`ReadTyState::read`] comes to.
#[derive(Debug, PartialEq, Eq)]
pub enum Progress {
    /// Decoding has ended: the value's bytes, or `None` where it is NULL.
    Ready(Option<Vec<u8>>),
    /// The source ran short; call again once more bytes have arrived.
    Suspended,
}

/// Why decoding failed.
#[derive(Debug, Clone, Copy, PartialEq, Eq, Structural)]
pub enum Error {
    /// The transport ended before the value did.
    UnexpectedEof,
}

/// The payloads that a `Ready` outcome hands out, as sequences.
pub open spec fn ready_value(p: Progress) -> Option<Option<Seq<u8>>> {
    match p {
        Progress::Ready(Some(v)) => Some(Some(v@)),
        Progress::Ready(None) => Some(None),
        Progress::Suspended => None,
    }
}

/// A partially read type.
#[derive(Debug)]
pub struct ReadTyState {
    mode: ReadTyMode,
    data: Option<Vec<u8>>,
    chunk_data_left: usize,
    done: bool,
}

impl ReadTyState {
    pub closed spec fn mode_of(&self) -> ReadTyMode {
        self.mode
    }

    /// How far this value has been decoded. Once the value has been handed
    /// out the phase is `Finished` with no value kept.
    pub closed spec fn phase(&self) -> Phase {
        if self.done {
            Phase::Finished { value: None }
        } else {
            match self.data {
                None => Phase::Start,
                Some(v) => Phase::Body { data: v@, left: self.chunk_data_left as nat },
            }
        }
    }

    pub closed spec fn wf(&self) -> bool {
        &&& self.done ==> self.data is None
        &&& self.data is None ==> self.chunk_data_left == 0
    }

    /// Initialize a type reader.
    pub fn new(mode: ReadTyMode) -> (r: Self)
        ensures
            r.wf(),
            r.mode_of() == mode,
            r.phase() == Phase::Start,
    {
        ReadTyState { mode, data: None, chunk_data_left: 0, done: false }
    }

    /// The mode this reader was made with.
    pub fn mode(&self) -> (r: ReadTyMode)
        ensures
            r == self.mode_of(),
    {
        self.mode
    }

    /// Whether the value has been handed out, so that this reader is spent.
    pub fn is_done(&self) -> (r: bool)
        ensures
            r == self.phase() is Finished,
    {
        self.done
    }

    /// Read data stream as Plain or PLP.
    ///
    /// Consumes from `input` as much of the value as has arrived. The size
    /// prefix of a PLP value, whether a length or the mark of an unknown
    /// length, is a hint only: the chunks decide how many bytes follow. Returns
    /// the bytes read, or `None` if the value turned out to be NULL; or
    /// `Suspended` where the bytes ran short, keeping what was consumed, so
    /// that the next call continues where this one stopped.
    pub fn read(&mut self, input: &mut ByteSource) -> (r: Result<Progress, Error>)
        requires
            old(self).wf(),
            old(input).wf(),
            !(old(self).phase() is Finished),
        ensures
            final(self).wf(),
            final(input).wf(),
            final(self).mode_of() == old(self).mode_of(),
            final(input).ended() == old(input).ended(),
            ({
                let (q, k) = run(old(self).mode_of(), old(self).phase(), old(input).pending());
                &&& final(input).pending() == old(input).pending().skip(k as int)
                &&& match q {
                    Phase::Finished { value } => {
                        &&& final(self).phase() is Finished
                        &&& r is Ok
                        &&& ready_value(r->Ok_0) == Some(value)
                    },
                    _ => {
                        &&& final(self).phase() == q
                        &&& old(input).ended() ==> r == Err::<Progress, Error>(Error::UnexpectedEof)
                        &&& !old(input).ended() ==> r == Ok::<Progress, Error>(Progress::Suspended)
                    },
                }
            }),
    {
        let ghost mode = self.mode;
        let ghost p0 = input.pending();
        let ghost ph0 = self.phase();
        let ghost mut j: nat = 0;
        let mut buf: Vec<u8>;
        match self.data.take() {
            Some(v) => {
                buf = v;
            },
            None => {
                // The size prefix.
                let size: u64;
                match self.mode {
                    ReadTyMode::FixedSize(_) => match input.read_u16_le() {
                        Ok(v) => {
                            size = v as u64;
                        },
                        Err(e) => {
                            return Self::shortfall(e);
                        },
                    },
                    ReadTyMode::Plp => match input.read_u64_le() {
                        Ok(v) => {
                            size = v;
                        },
                        Err(e) => {
                            return Self::shortfall(e);
                        },
                    },
                }
                if size == PLP_NULL {
                    proof {
                        lemma_run_finished(mode, None, input.pending());
                    }
                    self.done = true;
                    return Ok(Progress::Ready(None));
                }
                // The declared length is a hint only: the chunks decide.
                buf = Vec::new();
                if let ReadTyMode::FixedSize(_) = self.mode {
                    // A fixed-size value is one segment of the declared length.
                    self.chunk_data_left = size as usize;
                }
                proof {
                    j = (p0.len() - input.pending().len()) as nat;
                    assert(input.pending() =~= p0.skip(j as int));
                }
            },
        }
        loop
            invariant
                input.wf(),
                self.mode == mode,
                mode == old(self).mode,
                ph0 == old(self).phase(),
                p0 == old(input).pending(),
                self.chunk_data_left == 0 || self.data is None,
                self.data is None,
                !self.done,
                input.ended() == old(input).ended(),
                j <= p0.len(),
                input.pending() == p0.skip(j as int),
                ({
                    let (q, k) = run(mode, Phase::Body { data: buf@, left: self.chunk_data_left as nat }, input.pending());
                    run(mode, ph0, p0) == (q, j + k)
                }),
            decreases input.pending().len(),
        {
            let ghost cur = Phase::Body { data: buf@, left: self.chunk_data_left as nat };
            let ghost t = input.pending();
            if self.chunk_data_left == 0 {
                // A new chunk begins, or the value ends.
                let chunk_size: usize = match self.mode {
                    ReadTyMode::FixedSize(_) => 0,
                    ReadTyMode::Plp => match input.read_u32_le() {
                        Ok(v) => {
                            proof {
                                j = j + 4;
                                assert(input.pending() =~= p0.skip(j as int));
                            }
                            v as usize
                        },
                        Err(e) => {
                            self.data = Some(buf);
                            return Self::shortfall(e);
                        },
                    },
                };
                if chunk_size == 0 {
                    proof {
                        let kk: nat = if mode is Plp { 4 } else { 0 };
                        let fin = Phase::Finished { value: Some(buf@) };
                        assert(step(mode, cur, t) == Some((fin, kk)));
                        lemma_run_finished(mode, Some(buf@), t.skip(kk as int));
                        assert(run(mode, cur, t) == (fin, kk));
                    }
                    self.done = true;
                    return Ok(Progress::Ready(Some(buf)));
                }
                self.chunk_data_left = chunk_size;
            } else {
                let byte = match input.read_u8() {
                    Ok(b) => b,
                    Err(e) => {
                        self.data = Some(buf);
                        return Self::shortfall(e);
                    },
                };
                self.chunk_data_left = self.chunk_data_left - 1;
                buf.push(byte);
                proof {
                    j = j + 1;
                    assert(input.pending() =~= p0.skip(j as int));
                }
            }
        }
    }

    /// The outcome of a read that found too few bytes.
    fn shortfall(e: SourceError) -> (r: Result<Progress, Error>)
        ensures
            e == SourceError::UnexpectedEof ==> r == Err::<Progress, Error>(Error::UnexpectedEof),
            e == SourceError::WouldBlock ==> r == Ok::<Progress, Error>(Progress::Suspended),
    {
        match e {
            SourceError::WouldBlock => Ok(Progress::Suspended),
            SourceError::UnexpectedEof => Err(Error::UnexpectedEof),
        }
    }
}

} // verus!
