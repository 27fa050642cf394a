use vstd::prelude::*;

verus! {

/// The kinds of failure that the decoders and codecs of this crate report.
#[derive(Debug, Clone, Copy, PartialEq, Eq, Structural)]
pub enum UvtError {
    /// The cursor ran past the end of its buffer.
    Underrun,
    /// Bytes could not be turned into the typed value that was asked for.
    Invalid,
    /// A string field does not hold well-formed UTF-8.
    InvalidUtf8,
    /// A point-field type byte outside `1..=8`.
    UnknownDatatype(u8),
    /// A known point-field type that is not promoted to a coordinate.
    UnsupportedFieldType,
    /// A point field that the extraction needs is not declared, or does not
    /// fit inside one point record.
    MissingField,
    /// The UVT text has no delimiter line between map and trajectory.
    MissingDelimiter,
    /// The trajectory block does not start with a `frame_id : <value>` line.
    MissingFrameId,
    /// A trajectory line (1-based number in the whole block) is not six
    /// comma-separated numbers.
    MalformedTrajLine(usize),
    /// No message or connection matches the requested topic.
    TopicNotFound,
    /// The map messages yielded no point.
    EmptyMap,
    /// A trajectory with no pose cannot name its frame.
    MissingPoses,
    /// The VTK library refused the map section.
    InvalidMap,
}

} // verus!
