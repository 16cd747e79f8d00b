use vstd::prelude::*;

verus! {

/// A set of hitsound samples.
///
/// Hitsounds come in sample sets of (normal, soft, drum). A beatmap names a
/// sample set for the whole map, for each timing section, for single notes
/// and for the additions (whistle, finish, clap).
#[derive(Clone, Copy, Debug, PartialEq, Eq, Structural)]
pub enum SampleSet {
    /// No sample set used.
    Unspecified,
    /// Normal sample set.
    Normal,
    /// Soft sample set.
    Soft,
    /// Drum sample set.
    Drum,
}

impl SampleSet {
    /// The code of the sample set in beatmap files.
    pub open spec fn spec_code(self) -> u32 {
        match self {
            SampleSet::Unspecified => 0,
            SampleSet::Normal => 1,
            SampleSet::Soft => 2,
            SampleSet::Drum => 3,
        }
    }

    /// The code of the sample set in beatmap files: 0 to 3.
    pub fn code(self) -> (r: u32)
        ensures
            r == self.spec_code(),
    {
        match self {
            SampleSet::Unspecified => 0,
            SampleSet::Normal => 1,
            SampleSet::Soft => 2,
            SampleSet::Drum => 3,
        }
    }

    /// The sample set with the given code, if there is one.
    pub fn from_u32(n: u32) -> (r: Option<SampleSet>)
        ensures
            match r {
                Some(s) => s.spec_code() == n,
                None => n > 3,
            },
    {
        if n == 0 {
            Some(SampleSet::Unspecified)
        } else if n == 1 {
            Some(SampleSet::Normal)
        } else if n == 2 {
            Some(SampleSet::Soft)
        } else if n == 3 {
            Some(SampleSet::Drum)
        } else {
            None
        }
    }
}

/// A single hitsound: its samples, custom sample index, volume and file.
#[derive(Clone, Debug)]
pub struct SampleInfo {
    /// The sample set (normal, soft, drum) of this hitsound.
    pub sample_set: SampleSet,
    /// The sample set of the additions (whistle, finish, clap).
    pub addition_set: SampleSet,
    /// The index of the custom sample file to use.
    pub custom_index: i32,
    /// Volume (from 5 to 100).
    pub sample_volume: i32,
    /// A file name that overrides the sample.
    pub filename: Option<String>,
}

impl Default for SampleInfo {
    /// No sample sets, index and volume zero, no file name.
    fn default() -> (r: SampleInfo)
        ensures
            r.sample_set == SampleSet::Unspecified,
            r.addition_set == SampleSet::Unspecified,
            r.custom_index == 0,
            r.sample_volume == 0,
            r.filename is None,
    {
        SampleInfo {
            sample_set: SampleSet::Unspecified,
            addition_set: SampleSet::Unspecified,
            custom_index: 0,
            sample_volume: 0,
            filename: None,
        }
    }
}

} // verus!
