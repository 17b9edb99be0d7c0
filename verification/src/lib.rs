//! Decorators that pass bytes through a stream while copying them, under an
//! optional label, to a second stream.

pub mod laws;
pub mod memory;
pub mod mirror;
pub mod printreader;
pub mod printwriter;
pub mod record;
pub mod stream;

pub use memory::{BoundedWriter, MemoryReader};
pub use printreader::PrintReader;
pub use printwriter::PrintWriter;
pub use record::{RecordedReader, RecordedWriter};
pub use stream::{ReadEvent, Readable, Writable, WriteEvent};
