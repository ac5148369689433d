use crate::breakpoint::{Breakpoint, BreakpointView};
use crate::collection::BreakpointCollection;
use vstd::multiset::Multiset;
use vstd::prelude::*;

verus! {

/// The extension of a saved marker set.
pub const EXTENSION_NAME: &'static str = "bax";

/// The extension of a plain audio file.
pub const AUDIO_EXTENSION: &'static str = "mp3";

/// What kind of file is open.
#[derive(PartialEq, Eq, Structural, Debug, Clone, Copy)]
pub enum FileCategory {
    /// A plain audio file.
    Mp3,
    /// A saved marker set: the audio together with its markers.
    Bax,
    /// No file.
    Nil,
}

impl FileCategory {
    pub fn is_nil(&self) -> (r: bool)
        ensures
            r == (*self == FileCategory::Nil),
    {
        match self {
            FileCategory::Nil => true,
            _ => false,
        }
    }
}

/// Why the output device could not decode a source.
#[derive(PartialEq, Eq, Structural, Debug, Clone, Copy)]
pub enum DecodeError {
    UnrecognizedFormat,
    Io,
    Malformed,
    ResourceLimit,
    ResetRequired,
    NoStreams,
}

/// Why a file could not be opened.
#[derive(PartialEq, Eq, Structural, Debug, Clone, Copy)]
pub enum OpenError {
    /// Neither an audio file nor a saved marker set.
    UnsupportedExtension,
    /// A saved marker set whose marker list cannot be read.
    CorruptSaveFile,
    /// The audio could not be decoded.
    Decode(DecodeError),
    /// The file could not be read or written.
    Io,
}

/// The message shown for `e`.
pub open spec fn open_error_text(e: OpenError) -> Seq<char> {
    match e {
        OpenError::UnsupportedExtension => "files with this extension cannot be opened"@,
        OpenError::CorruptSaveFile => "the file is damaged: its marker list cannot be read"@,
        OpenError::Decode(DecodeError::UnrecognizedFormat) => "the audio format is not recognized"@,
        OpenError::Decode(DecodeError::Io) => "the audio could not be read"@,
        OpenError::Decode(DecodeError::Malformed) => "the audio stream is malformed"@,
        OpenError::Decode(DecodeError::ResourceLimit) => "the audio exceeds a decoding limit"@,
        OpenError::Decode(DecodeError::ResetRequired) => "the audio decoder must be reset"@,
        OpenError::Decode(DecodeError::NoStreams) => "the file holds no audio stream"@,
        OpenError::Io => "the file could not be read or written"@,
    }
}

impl OpenError {
    /// A message for the user.
    pub fn message(&self) -> (r: String)
        ensures
            r@ == open_error_text(*self),
    {
        match self {
            OpenError::UnsupportedExtension => "files with this extension cannot be opened".to_owned(),
            OpenError::CorruptSaveFile => "the file is damaged: its marker list cannot be read".to_owned(),
            OpenError::Decode(DecodeError::UnrecognizedFormat) => "the audio format is not recognized".to_owned(),
            OpenError::Decode(DecodeError::Io) => "the audio could not be read".to_owned(),
            OpenError::Decode(DecodeError::Malformed) => "the audio stream is malformed".to_owned(),
            OpenError::Decode(DecodeError::ResourceLimit) => "the audio exceeds a decoding limit".to_owned(),
            OpenError::Decode(DecodeError::ResetRequired) => "the audio decoder must be reset".to_owned(),
            OpenError::Decode(DecodeError::NoStreams) => "the file holds no audio stream".to_owned(),
            OpenError::Io => "the file could not be read or written".to_owned(),
        }
    }
}

/// The kind of file that an extension names, where it names one.
pub open spec fn category_of(extension: Seq<char>) -> Option<FileCategory> {
    if extension == EXTENSION_NAME@ {
        Some(FileCategory::Bax)
    } else if extension == AUDIO_EXTENSION@ {
        Some(FileCategory::Mp3)
    } else {
        None
    }
}

/// Picks how to open a file from its extension (`None` where it has none).
pub fn classify(extension: Option<&str>) -> (r: Result<FileCategory, OpenError>)
    ensures
        match extension {
            Some(e) => match category_of(e@) {
                Some(c) => r == Ok::<FileCategory, OpenError>(c),
                None => r == Err::<FileCategory, OpenError>(OpenError::UnsupportedExtension),
            },
            None => r == Err::<FileCategory, OpenError>(OpenError::UnsupportedExtension),
        },
{
    match extension {
        Some(e) => {
            let given = e.to_owned();
            let saved = EXTENSION_NAME.to_owned();
            let audio = AUDIO_EXTENSION.to_owned();
            if given == saved {
                Ok(FileCategory::Bax)
            } else if given == audio {
                Ok(FileCategory::Mp3)
            } else {
                Err(OpenError::UnsupportedExtension)
            }
        },
        None => Err(OpenError::UnsupportedExtension),
    }
}

/// A millisecond offset read from whole seconds and the nanoseconds past
/// them, the form offsets have in a saved marker set.
pub open spec fn millis_of(secs: u64, nanos: u32) -> int {
    secs * 1000 + nanos / 1_000_000
}

/// Reads an offset stored as seconds and nanoseconds, whole seconds among
/// the nanoseconds carried over; `None` where the offset does not fit.
pub fn timepoint_from_parts(secs: u64, nanos: u32) -> (r: Option<u64>)
    ensures
        r == (if millis_of(secs, nanos) <= u64::MAX {
            Some(millis_of(secs, nanos) as u64)
        } else {
            None::<u64>
        }),
{
    if secs > u64::MAX / 1000 {
        assert(secs * 1000 > u64::MAX) by (nonlinear_arith)
            requires secs > u64::MAX / 1000;
        return None;
    }
    assert(secs * 1000 <= u64::MAX) by (nonlinear_arith)
        requires secs <= u64::MAX / 1000;
    let whole = secs * 1000;
    let part = (nanos / 1_000_000) as u64;
    if whole > u64::MAX - part {
        return None;
    }
    Some(whole + part)
}

/// Splits a millisecond offset into whole seconds and the nanoseconds past
/// them, the form offsets have in a saved marker set.
pub fn timepoint_to_parts(timepoint: u64) -> (r: (u64, u32))
    ensures
        r.0 == timepoint / 1000,
        r.1 == (timepoint % 1000) * 1_000_000,
        millis_of(r.0, r.1) == timepoint,
{
    let secs = timepoint / 1000;
    let nanos = ((timepoint % 1000) * 1_000_000) as u32;
    (secs, nanos)
}

/// A collection of `marks` in offset order.
pub fn collect_marks(marks: Vec<Breakpoint>) -> (r: BreakpointCollection)
    ensures
        r.wf(),
        r@.len() == marks@.len(),
        r@.to_multiset() == marks@.map_values(|b: Breakpoint| b@).to_multiset(),
{
    let mut out = BreakpointCollection::new();
    let mut rest = marks;
    let ghost all = rest@.map_values(|b: Breakpoint| b@);
    proof {
        broadcast use vstd::seq_lib::group_to_multiset_ensures, vstd::multiset::group_multiset_axioms;
        assert(out@ =~= Seq::<BreakpointView>::empty());
        assert(out@.to_multiset() =~= Multiset::empty());
        assert(out@.to_multiset().add(all.to_multiset()) =~= all.to_multiset());
    }
    while rest.len() > 0
        invariant
            out.wf(),
            out@.to_multiset().add(rest@.map_values(|b: Breakpoint| b@).to_multiset())
                == all.to_multiset(),
            out@.len() + rest@.len() == all.len(),
        decreases rest.len(),
    {
        let ghost before = rest@.map_values(|b: Breakpoint| b@);
        let ghost out_before = out@;
        let b = rest.pop().unwrap();
        let ghost v = b@;
        assert(before =~= rest@.map_values(|b: Breakpoint| b@).push(v));
        let k = out.insert(b);
        proof {
            broadcast use vstd::multiset::group_multiset_axioms;
            vstd::seq_lib::to_multiset_build(rest@.map_values(|b: Breakpoint| b@), v);
            vstd::seq_lib::to_multiset_insert(out_before, k as int, v);
            assert(out@.to_multiset().add(rest@.map_values(|b: Breakpoint| b@).to_multiset())
                =~= out_before.to_multiset().add(before.to_multiset()));
        }
    }
    proof {
        broadcast use vstd::seq_lib::group_to_multiset_ensures, vstd::multiset::group_multiset_axioms;
        assert(rest@.map_values(|b: Breakpoint| b@) =~= Seq::<BreakpointView>::empty());
        assert(out@.to_multiset().add(Multiset::empty()) =~= out@.to_multiset());
    }
    out
}

} // verus!
