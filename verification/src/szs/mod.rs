//! The `.szs` container: a Yaz0-compressed U8 archive.
pub mod yaz0;
pub mod arc;

use vstd::prelude::*;
use crate::error::Error;
use arc::{Arc, DirectoryEntry, arc_outcome, dir_built, lemma_dir_built_unique, node_infos, same_dir};
use yaz0::{Yaz0, decompress_outcome};

verus! {

/// An unpacked `.szs` file: the directory tree of its archive.
pub struct Szs {
    pub root: DirectoryEntry,
}

/// Whether unpacking the `.szs` bytes `data` fails, and with which error:
/// decompression first, then reading the archive it yields.
pub open spec fn szs_outcome(data: Seq<u8>) -> Result<(), Error> {
    match decompress_outcome(data) {
        Err(e) => Err(e),
        Ok(archive) => arc_outcome(archive),
    }
}

/// Decompresses the `.szs` bytes `data` and rebuilds the tree of the archive.
pub fn parse_bytes(data: &[u8]) -> (r: Result<Szs, Error>)
    ensures
        match szs_outcome(data@) {
            Ok(()) => r matches Ok(s) && dir_built(
                node_infos(decompress_outcome(data@)->Ok_0),
                decompress_outcome(data@)->Ok_0,
                0,
                s.root,
            ),
            Err(e) => r == Err::<Szs, Error>(e),
        },
{
    let decompressed = Yaz0::decompress(data)?;
    let archive = Arc::new(decompressed.decompressed_data.as_slice())?;
    Ok(Szs { root: archive.tree })
}

/// Unpacking a `.szs` file succeeds exactly when its archive, once decompressed,
/// reads well, and then gives the tree that reading that archive gives.
pub proof fn lemma_szs_root_is_archive_tree(data: Seq<u8>, archive: Seq<u8>, root: DirectoryEntry, tree: DirectoryEntry)
    requires
        decompress_outcome(data) == Ok::<Seq<u8>, Error>(archive),
        dir_built(node_infos(decompress_outcome(data)->Ok_0), decompress_outcome(data)->Ok_0, 0, root),
        dir_built(node_infos(archive), archive, 0, tree),
    ensures
        szs_outcome(data) == arc_outcome(archive),
        same_dir(root, tree),
{
    lemma_dir_built_unique(node_infos(archive), archive, 0, root, tree);
}

} // verus!
