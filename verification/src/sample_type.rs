//! The sample formats that generated test signals are written in.
use vstd::prelude::*;

verus! {

/// How the samples of a generated signal are stored.
#[derive(Debug, Clone, Copy, PartialEq, Eq)]
pub enum SampleType {
    /// 32-bit floating point samples.
    F32,
    /// 16-bit signed integer samples.
    I16,
}

/// The name of a sample type in file names.
pub open spec fn sample_type_name(t: SampleType) -> Seq<char> {
    match t {
        SampleType::F32 => seq!['f', '3', '2'],
        SampleType::I16 => seq!['i', '1', '6'],
    }
}

impl SampleType {
    /// The name of the sample type, as it appears in file names.
    pub fn name(&self) -> (r: String)
        ensures
            r@ == sample_type_name(*self),
    {
        match self {
            SampleType::F32 => {
                let s = "f32";
                proof {
                    reveal_strlit("f32");
                }
                s.to_owned()
            },
            SampleType::I16 => {
                let s = "i16";
                proof {
                    reveal_strlit("i16");
                }
                s.to_owned()
            },
        }
    }

    /// The width of one sample in bits.
    pub fn bits_per_sample(&self) -> (r: u16)
        ensures
            r == match *self {
                SampleType::F32 => 32u16,
                SampleType::I16 => 16u16,
            },
    {
        match self {
            SampleType::F32 => 32,
            SampleType::I16 => 16,
        }
    }
}

} // verus!
