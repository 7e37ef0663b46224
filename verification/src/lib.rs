pub mod chum;
pub mod drain;
pub mod pipe;
pub mod recorded;
pub mod segment;
pub mod source;
pub mod stream;

pub use chum::Chum;
pub use drain::Drain;
pub use pipe::Pipe;
pub use source::Source;
pub use segment::{IntoSegment, Mixed, Segment, SegmentStream};
pub use stream::{
    PausableStream, ReadableStream, Stream, StreamType, TransformableStream, Unpiped,
    WriteableStream,
};
