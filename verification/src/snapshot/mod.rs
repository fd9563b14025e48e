//! The snapshot: entries, their diff and the archive that holds them.

pub mod cbor;
pub mod codec;
pub mod constants;
pub mod diff;
pub mod entry;
pub mod format;
pub mod pack;
pub mod reading;
pub mod snappy;
pub mod unpack;
pub mod writing;

pub use self::constants::{BUFFER_SIZE, VERSION, VERSION_LEN};
pub use self::diff::{diff, Diff};
pub use self::pack::Pack;
pub use self::reading::Reading;
pub use self::unpack::{Restored, Unpack};
pub use self::writing::Writing;
pub use self::entry::{Attributes, Entry, EntryKind, EntryView};
