//! A content-addressed version-control engine speaking the Git on-disk and
//! smart-HTTP wire formats: object codec, object store, pkt-line framing,
//! pack-stream receiver, delta reconstructor, tree builder and working-tree
//! materialization planner.
use vstd::prelude::*;

pub mod checkout;
pub mod codec;
pub mod commit;
pub mod delta;
pub mod digest;
pub mod hexid;
pub mod num;
pub mod pack;
pub mod pktline;
pub mod protocol;
pub mod store;
pub mod tree;
pub mod util;
pub mod zlib;

verus! {

/// The error kinds surfaced by the engine. All errors are fatal to the
/// operation that raised them; none are recovered internally.
#[derive(Clone, Copy, Debug, PartialEq, Eq, Structural)]
pub enum GitError {
    /// Kind or length field of a stored object is unparsable.
    MalformedObjectHeader,
    /// An object kind outside {commit, tree, blob} where one was required,
    /// or a pack entry of the unimplemented offset-delta kind.
    UnsupportedKind,
    /// Bad pack signature or version, invalid entry header, decompression
    /// short or long, trailer mismatch, or entries not consumed exactly.
    CorruptPack,
    /// A ref-delta names a base identity not present in the in-memory store.
    MissingBase,
    /// Delta size mismatch, reserved opcode, or cursor overrun.
    MalformedDelta,
    /// Unexpected HTTP status, missing NAK, missing HEAD line, or an identity
    /// that is not forty hex characters.
    TransportError,
    /// A read or write failed while materializing the working tree.
    FilesystemError,
}

} // verus!
