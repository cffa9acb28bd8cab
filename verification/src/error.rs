use vstd::prelude::*;

verus! {

/// Why a parser refused its input.
#[derive(Debug, Clone, Copy, PartialEq, Eq, Structural)]
pub enum Error {
    /// A read needed bytes past the end of the data.
    OutOfBounds,
    /// Bytes that should hold text are not well-formed UTF-8.
    InvalidUtf8,
    /// A zero-terminated string that starts at this offset has no terminating
    /// zero byte.
    NoNullTerminator(usize),
    /// A Yaz0 stream does not start with the magic `Yaz0`.
    InvalidMagic,
    /// A Yaz0 back-reference points before the start of the output.
    InvalidDistance,
    /// An archive directory node refers to a node index past the node table.
    NodeIndexOutOfBounds { index: usize, len: usize },
    /// An archive directory's skip index lies past the node table, which has
    /// `count` nodes.
    SkipIndexTooLarge { skip: usize, count: usize },
    /// An archive directory's skip index does not lie past the directory itself,
    /// node `index`.
    SkipIndexNotAdvancing { skip: usize, index: usize },
    /// An archive file's data range, `size` bytes from `offset`, lies outside the
    /// archive, which has `len` bytes.
    FileDataOutOfBounds { offset: u32, size: u32, len: usize },
    /// A KMP file names a section that is not one of the fifteen known ones; the
    /// four bytes of the name, read as a big-endian number.
    UnknownSection(u32),
    /// A KMP file lacks one of the fifteen sections; the name of the first one
    /// missing in the order of the fields of `Kmp`, its four bytes read as a
    /// big-endian number.
    MissingSection(u32),
    /// A BRRES file does not start with the magic `bres`.
    InvalidFileHeader,
    /// A BRRES root section does not start with the magic `root`.
    InvalidRootHeader,
    /// A BRRES subfile has a magic that names no known section type; the first
    /// four bytes of the magic (zero where it is shorter), read as a big-endian
    /// number.
    InvalidSectionMagic(u32),
    /// A BRRES index group is nested deeper than the file has bytes.
    NestingTooDeep,
    /// A BRRES index entry carries an index that does not fit the group it fills.
    InvalidEntryIndex,
}

} // verus!
