//! Reader for version-1 package archives.
//!
//! An archive starts with a twelve-byte header (signature, version and the
//! size of the directory tree, each a little-endian `u32`).  The directory
//! tree follows: zero-terminated strings grouped on three levels (extension,
//! directory, file name), a fixed-size record after every file name, and an
//! empty string closing each group.  The payload starts right after the tree.

use vstd::prelude::*;
use vstd::slice::{slice_subrange, slice_to_vec};
use vstd::utf8::{decode_utf8, valid_utf8};
use crate::text::string_from_utf8;

verus! {

/// Length of the archive header in bytes.
pub const HEADER_LEN: usize = 12;

/// Signature that opens every version-1 archive.
pub const SIGNATURE: u32 = 0x55AA_1234;

/// The only format version this reader understands.
pub const FORMAT_VERSION: u32 = 1;

/// Length of the fixed-size record that follows a file name in the tree.
pub const RECORD_LEN: usize = 18;

/// Value that closes every record.
pub const RECORD_TERMINATOR: u16 = 0xFFFF;

/// Why a byte string is not a readable archive.
#[derive(Clone, Copy, Debug, PartialEq, Eq, Structural)]
pub enum FormatError {
    /// The header, or the directory tree it announces, does not fit in the file.
    Truncated,
    /// The file does not start with [`SIGNATURE`].
    BadSignature,
    /// The header names a version other than [`FORMAT_VERSION`].
    UnsupportedVersion,
    /// The directory tree is malformed: a string or record runs past the
    /// tree, a record lacks its terminator, or a path is not UTF-8.
    CorruptTree,
}

/// Why the bytes of an entry could not be handed out.
#[derive(Clone, Copy, Debug, PartialEq, Eq, Structural)]
pub enum ReadError {
    /// The entry's offset and length reach past the end of the file.
    ShortRead,
}

/// One record of the directory tree.
#[derive(Clone, Debug)]
pub struct ArchiveEntry {
    /// `directory/name.extension`, exactly as the tree spells it.
    pub path: String,
    /// Offset of the entry's bytes, counted from the start of the payload.
    pub data_offset: u32,
    /// Number of bytes the entry holds in the payload.
    pub data_length: u32,
    /// Which physical file holds the bytes.
    pub container_index: u16,
}

/// Mathematical value of an [`ArchiveEntry`].
pub struct ArchiveEntryView {
    pub path: Seq<char>,
    pub data_offset: u32,
    pub data_length: u32,
    pub container_index: u16,
}

impl View for ArchiveEntry {
    type V = ArchiveEntryView;

    open spec fn view(&self) -> ArchiveEntryView {
        ArchiveEntryView {
            path: self.path@,
            data_offset: self.data_offset,
            data_length: self.data_length,
            container_index: self.container_index,
        }
    }
}

/// The views of a sequence of entries, in order.
pub open spec fn entry_views(entries: Seq<ArchiveEntry>) -> Seq<ArchiveEntryView> {
    Seq::new(entries.len(), |i: int| entries[i]@)
}

/// The three nesting levels of the directory tree.
#[derive(Clone, Copy, Debug, PartialEq, Eq, Structural)]
pub enum Level {
    Extension,
    Directory,
    File,
}

/// Little-endian `u16` at `at`.
pub open spec fn le_u16(b: Seq<u8>, at: int) -> u16 {
    (b[at] as int + 256 * (b[at + 1] as int)) as u16
}

/// Little-endian `u32` at `at`.
pub open spec fn le_u32(b: Seq<u8>, at: int) -> u32 {
    (b[at] as int + 256 * (b[at + 1] as int) + 65536 * (b[at + 2] as int) + 16777216 * (b[at
        + 3] as int)) as u32
}

/// Position of the first zero byte in `b[from..end]`, if there is one.
pub open spec fn first_nul(b: Seq<u8>, from: int, end: int) -> Option<int>
    decreases end - from,
{
    if from >= end {
        None
    } else if b[from] == 0 {
        Some(from)
    } else {
        first_nul(b, from + 1, end)
    }
}

/// Bytes of the path `dir/name.ext`.
pub open spec fn path_bytes(dir: Seq<u8>, name: Seq<u8>, ext: Seq<u8>) -> Seq<u8> {
    dir + seq![0x2Fu8] + name + seq![0x2Eu8] + ext
}

/// The record at `at` for the file whose path bytes are `path`, together with
/// the position after the record and its preload bytes.  `None` where the
/// record or its preload bytes run past `end`, the terminator is wrong, or
/// the path is not UTF-8.
pub open spec fn record_at(b: Seq<u8>, at: int, end: int, path: Seq<u8>) -> Option<
    (ArchiveEntryView, int),
> {
    if at + RECORD_LEN > end {
        None
    } else if le_u16(b, at + 16) != RECORD_TERMINATOR {
        None
    } else if at + RECORD_LEN + le_u16(b, at + 4) > end {
        None
    } else if !valid_utf8(path) {
        None
    } else {
        Some(
            (
                ArchiveEntryView {
                    path: decode_utf8(path),
                    data_offset: le_u32(b, at + 8),
                    data_length: le_u32(b, at + 12),
                    container_index: le_u16(b, at + 6),
                },
                at + RECORD_LEN + le_u16(b, at + 4),
            ),
        )
    }
}

/// The entries that the tree bytes `b[pos..end]` spell when read on `level`
/// inside extension `ext` and directory `dir`, and the position where the
/// tree ends.  `None` where the tree is malformed.
///
/// An empty string closes the current level; on the outermost level it ends
/// the tree, as does reaching `end` there.
pub open spec fn tree_from(
    b: Seq<u8>,
    pos: int,
    end: int,
    level: Level,
    ext: Seq<u8>,
    dir: Seq<u8>,
) -> Option<(Seq<ArchiveEntryView>, int)>
    decreases end - pos,
{
    if level == Level::Extension && pos >= end {
        Some((Seq::empty(), pos))
    } else {
        match first_nul(b, pos, end) {
            None => None,
            Some(z) => {
                if z < pos || z >= end {
                    None
                } else if z == pos {
                    match level {
                        Level::Extension => Some((Seq::empty(), z + 1)),
                        Level::Directory => tree_from(b, z + 1, end, Level::Extension, ext, dir),
                        Level::File => tree_from(b, z + 1, end, Level::Directory, ext, dir),
                    }
                } else {
                    let s = b.subrange(pos, z);
                    match level {
                        Level::Extension => tree_from(b, z + 1, end, Level::Directory, s, dir),
                        Level::Directory => tree_from(b, z + 1, end, Level::File, ext, s),
                        Level::File => match record_at(b, z + 1, end, path_bytes(dir, s, ext)) {
                            None => None,
                            Some((entry, after)) => match tree_from(
                                b,
                                after,
                                end,
                                Level::File,
                                ext,
                                dir,
                            ) {
                                None => None,
                                Some((rest, fin)) => Some((seq![entry] + rest, fin)),
                            },
                        },
                    }
                }
            },
        }
    }
}

/// Where the directory tree of a file ends according to its header, which
/// is what `header` holds in its first twelve bytes; or the reason the
/// header cannot be used.
pub open spec fn announced_tree_end(header: Seq<u8>) -> Result<int, FormatError> {
    if header.len() < HEADER_LEN {
        Err(FormatError::Truncated)
    } else if le_u32(header, 0) != SIGNATURE {
        Err(FormatError::BadSignature)
    } else if le_u32(header, 4) != FORMAT_VERSION {
        Err(FormatError::UnsupportedVersion)
    } else {
        Ok(HEADER_LEN + le_u32(header, 8))
    }
}

/// What a whole file `b` holds: its entries in tree order and the position
/// where its payload starts, or the reason it cannot be read.
pub open spec fn parse_archive(b: Seq<u8>) -> Result<(Seq<ArchiveEntryView>, int), FormatError> {
    match announced_tree_end(b) {
        Err(e) => Err(e),
        Ok(end) => if end > b.len() {
            Err(FormatError::Truncated)
        } else {
            match tree_from(
                b,
                HEADER_LEN as int,
                end,
                Level::Extension,
                Seq::empty(),
                Seq::empty(),
            ) {
                None => Err(FormatError::CorruptTree),
                Some(tree) => Ok(tree),
            }
        },
    }
}

/// The entry that a lookup of `path` finds among `entries`: the last one
/// with that path, so that a later record shadows an earlier one.
pub open spec fn find_entry(entries: Seq<ArchiveEntryView>, path: Seq<char>) -> Option<
    ArchiveEntryView,
>
    decreases entries.len(),
{
    if entries.len() == 0 {
        None
    } else if entries.last().path == path {
        Some(entries.last())
    } else {
        find_entry(entries.drop_last(), path)
    }
}

/// The bytes of an entry with the given offset and length in a file `data`
/// whose payload starts at `payload_start`, or `None` where they would reach
/// past the end of the file.
pub open spec fn entry_bytes(data: Seq<u8>, payload_start: int, offset: u32, length: u32) -> Option<
    Seq<u8>,
> {
    if payload_start + offset + length <= data.len() {
        Some(data.subrange(payload_start + offset, payload_start + offset + length))
    } else {
        None
    }
}

/// The outcome `tail` of reading a tree with the entries `acc` put in front.
pub open spec fn prepend(acc: Seq<ArchiveEntryView>, tail: Option<(Seq<ArchiveEntryView>, int)>) -> Option<
    (Seq<ArchiveEntryView>, int),
> {
    match tail {
        None => None,
        Some((rest, fin)) => Some((acc + rest, fin)),
    }
}

proof fn lemma_prepend_empty(tail: Option<(Seq<ArchiveEntryView>, int)>)
    ensures
        prepend(Seq::empty(), tail) == tail,
{
    if let Some((rest, fin)) = tail {
        assert(Seq::<ArchiveEntryView>::empty() + rest =~= rest);
    }
}

proof fn lemma_prepend_push(
    acc: Seq<ArchiveEntry>,
    entry: ArchiveEntry,
    tail: Option<(Seq<ArchiveEntryView>, int)>,
)
    ensures
        prepend(entry_views(acc.push(entry)), tail) == prepend(
            entry_views(acc),
            match tail {
                None => None,
                Some((rest, fin)) => Some((seq![entry@] + rest, fin)),
            },
        ),
{
    if let Some((rest, fin)) = tail {
        assert(entry_views(acc.push(entry)) + rest =~= entry_views(acc) + (seq![entry@] + rest));
    }
}

fn read_u16(b: &[u8], at: usize) -> (r: u16)
    requires
        at + 2 <= b@.len(),
    ensures
        r == le_u16(b@, at as int),
{
    let lo: u16 = b[at] as u16;
    let hi: u16 = b[at + 1] as u16;
    lo + 256 * hi
}

fn read_u32(b: &[u8], at: usize) -> (r: u32)
    requires
        at + 4 <= b@.len(),
    ensures
        r == le_u32(b@, at as int),
{
    let b0: u32 = b[at] as u32;
    let b1: u32 = b[at + 1] as u32;
    let b2: u32 = b[at + 2] as u32;
    let b3: u32 = b[at + 3] as u32;
    b0 + 256 * b1 + 65536 * b2 + 16777216 * b3
}

fn find_nul(b: &[u8], from: usize, end: usize) -> (r: Option<usize>)
    requires
        from <= end <= b@.len(),
    ensures
        r matches Some(z) ==> from <= z < end,
        match r {
            Some(z) => first_nul(b@, from as int, end as int) == Some(z as int),
            None => first_nul(b@, from as int, end as int) is None,
        },
{
    let mut i: usize = from;
    while i < end
        invariant
            from <= i <= end <= b@.len(),
            first_nul(b@, from as int, end as int) == first_nul(b@, i as int, end as int),
        decreases end - i,
    {
        if b[i] == 0 {
            return Some(i);
        }
        i = i + 1;
    }
    None
}

fn push_range(out: &mut Vec<u8>, b: &[u8], from: usize, to: usize)
    requires
        from <= to <= b@.len(),
    ensures
        final(out)@ == old(out)@ + b@.subrange(from as int, to as int),
{
    let mut i: usize = from;
    while i < to
        invariant
            from <= i <= to <= b@.len(),
            out@ == old(out)@ + b@.subrange(from as int, i as int),
        decreases to - i,
    {
        out.push(b[i]);
        i = i + 1;
        assert(out@ =~= old(out)@ + b@.subrange(from as int, i as int));
    }
    assert(out@ =~= old(out)@ + b@.subrange(from as int, to as int));
}

/// Builds `dir/name.ext` from three ranges of `b`.
fn join_path(b: &[u8], dir: (usize, usize), name: (usize, usize), ext: (usize, usize)) -> (r:
    Vec<u8>)
    requires
        dir.0 <= dir.1 <= b@.len(),
        name.0 <= name.1 <= b@.len(),
        ext.0 <= ext.1 <= b@.len(),
    ensures
        r@ == path_bytes(
            b@.subrange(dir.0 as int, dir.1 as int),
            b@.subrange(name.0 as int, name.1 as int),
            b@.subrange(ext.0 as int, ext.1 as int),
        ),
{
    let mut out: Vec<u8> = Vec::new();
    push_range(&mut out, b, dir.0, dir.1);
    out.push(0x2Fu8);
    push_range(&mut out, b, name.0, name.1);
    out.push(0x2Eu8);
    push_range(&mut out, b, ext.0, ext.1);
    assert(out@ =~= path_bytes(
        b@.subrange(dir.0 as int, dir.1 as int),
        b@.subrange(name.0 as int, name.1 as int),
        b@.subrange(ext.0 as int, ext.1 as int),
    ));
    out
}

/// Reads the record at `at`; see [`record_at`].
fn read_record(b: &[u8], at: usize, end: usize, path: Vec<u8>) -> (r: Option<
    (ArchiveEntry, usize),
>)
    requires
        at <= end <= b@.len(),
    ensures
        match record_at(b@, at as int, end as int, path@) {
            Some((entry, after)) => r matches Some((e, p)) && e@ == entry && p == after && at
                < p <= end,
            None => r is None,
        },
{
    if end - at < RECORD_LEN {
        return None;
    }
    if read_u16(b, at + 16) != RECORD_TERMINATOR {
        return None;
    }
    let preload: usize = read_u16(b, at + 4) as usize;
    if end - at - RECORD_LEN < preload {
        return None;
    }
    let container_index = read_u16(b, at + 6);
    let data_offset = read_u32(b, at + 8);
    let data_length = read_u32(b, at + 12);
    match string_from_utf8(path) {
        None => None,
        Some(p) => Some(
            (
                ArchiveEntry { path: p, data_offset, data_length, container_index },
                at + RECORD_LEN + preload,
            ),
        ),
    }
}

/// Reads the directory tree in `b[start..end]`; see [`tree_from`].
#[verifier::rlimit(50)]
fn read_tree(b: &[u8], start: usize, end: usize) -> (r: Option<(Vec<ArchiveEntry>, usize)>)
    requires
        start <= end <= b@.len(),
    ensures
        match tree_from(
            b@,
            start as int,
            end as int,
            Level::Extension,
            Seq::empty(),
            Seq::empty(),
        ) {
            Some((entries, fin)) => r matches Some((v, p)) && entry_views(v@) == entries && p
                == fin && start <= p <= end,
            None => r is None,
        },
{
    let mut entries: Vec<ArchiveEntry> = Vec::new();
    let mut pos: usize = start;
    let mut level = Level::Extension;
    let mut ext: (usize, usize) = (start, start);
    let mut dir: (usize, usize) = (start, start);
    let ghost whole = tree_from(
        b@,
        start as int,
        end as int,
        Level::Extension,
        Seq::empty(),
        Seq::empty(),
    );
    proof {
        assert(b@.subrange(start as int, start as int) =~= Seq::<u8>::empty());
        assert(entry_views(entries@) =~= Seq::<ArchiveEntryView>::empty());
        lemma_prepend_empty(whole);
    }
    loop
        invariant
            start <= pos <= end <= b@.len(),
            ext.0 <= ext.1 <= end,
            dir.0 <= dir.1 <= end,
            whole == tree_from(
                b@,
                start as int,
                end as int,
                Level::Extension,
                Seq::empty(),
                Seq::empty(),
            ),
            whole == prepend(
                entry_views(entries@),
                tree_from(
                    b@,
                    pos as int,
                    end as int,
                    level,
                    b@.subrange(ext.0 as int, ext.1 as int),
                    b@.subrange(dir.0 as int, dir.1 as int),
                ),
            ),
        decreases end - pos,
    {
        if level == Level::Extension && pos >= end {
            proof {
                assert(entry_views(entries@) + Seq::<ArchiveEntryView>::empty() =~= entry_views(
                    entries@,
                ));
            }
            return Some((entries, pos));
        }
        let z = match find_nul(b, pos, end) {
            None => {
                return None;
            },
            Some(z) => z,
        };
        if z == pos {
            match level {
                Level::Extension => {
                    proof {
                        assert(entry_views(entries@) + Seq::<ArchiveEntryView>::empty()
                            =~= entry_views(entries@));
                    }
                    return Some((entries, z + 1));
                },
                Level::Directory => {
                    level = Level::Extension;
                },
                Level::File => {
                    level = Level::Directory;
                },
            }
            pos = z + 1;
        } else {
            match level {
                Level::Extension => {
                    ext = (pos, z);
                    level = Level::Directory;
                    pos = z + 1;
                },
                Level::Directory => {
                    dir = (pos, z);
                    level = Level::File;
                    pos = z + 1;
                },
                Level::File => {
                    let path = join_path(b, dir, (pos, z), ext);
                    match read_record(b, z + 1, end, path) {
                        None => {
                            return None;
                        },
                        Some((entry, after)) => {
                            proof {
                                lemma_prepend_push(
                                    entries@,
                                    entry,
                                    tree_from(
                                        b@,
                                        after as int,
                                        end as int,
                                        Level::File,
                                        b@.subrange(ext.0 as int, ext.1 as int),
                                        b@.subrange(dir.0 as int, dir.1 as int),
                                    ),
                                );
                            }
                            entries.push(entry);
                            pos = after;
                        },
                    }
                },
            }
        }
    }
}


/// Reads the header of a file and says where its directory tree ends, so
/// that a caller knows how much of the file an [`ArchiveHandle`] needs; see
/// [`announced_tree_end`].
pub fn tree_end(header: &[u8]) -> (r: Result<u64, FormatError>)
    ensures
        match announced_tree_end(header@) {
            Ok(end) => r == Ok::<u64, FormatError>(end as u64) && end <= u64::MAX,
            Err(e) => r == Err::<u64, FormatError>(e),
        },
{
    if header.len() < HEADER_LEN {
        return Err(FormatError::Truncated);
    }
    if read_u32(header, 0) != SIGNATURE {
        return Err(FormatError::BadSignature);
    }
    if read_u32(header, 4) != FORMAT_VERSION {
        return Err(FormatError::UnsupportedVersion);
    }
    Ok(HEADER_LEN as u64 + read_u32(header, 8) as u64)
}

/// Mathematical value of an [`ArchiveHandle`].
pub struct ArchiveView {
    /// Every byte of the file.
    pub data: Seq<u8>,
    /// The records of the directory tree, in tree order.
    pub entries: Seq<ArchiveEntryView>,
    /// Position of the first payload byte.
    pub payload_start: int,
}

/// An opened archive: the file's bytes and its parsed directory tree.
///
/// A handle exists only for bytes whose header and tree were read in full,
/// so every entry it hands out comes from a validated tree.
pub struct ArchiveHandle {
    data: Vec<u8>,
    entries: Vec<ArchiveEntry>,
    payload_start: usize,
}

impl View for ArchiveHandle {
    type V = ArchiveView;

    closed spec fn view(&self) -> ArchiveView {
        ArchiveView {
            data: self.data@,
            entries: entry_views(self.entries@),
            payload_start: self.payload_start as int,
        }
    }
}

impl ArchiveHandle {
    #[verifier::type_invariant]
    spec fn parsed(&self) -> bool {
        parse_archive(self.data@) == Ok::<(Seq<ArchiveEntryView>, int), FormatError>(
            (entry_views(self.entries@), self.payload_start as int),
        )
    }

    /// Validates the header of `data` and reads its directory tree.
    ///
    /// `data` may be the whole file or any prefix of it that reaches to
    /// the end of the tree (see [`tree_end`] and [`lemma_prefix_suffices`]):
    /// the payload is not looked at.
    pub fn open(data: Vec<u8>) -> (r: Result<ArchiveHandle, FormatError>)
        ensures
            match parse_archive(data@) {
                Ok((entries, start)) => r matches Ok(h) && h@.data == data@ && h@.entries
                    == entries && h@.payload_start == start && HEADER_LEN <= start
                    <= data@.len(),
                Err(e) => r matches Err(x) && x == e,
            },
    {
        let bytes = data.as_slice();
        let end = match tree_end(bytes) {
            Err(e) => {
                return Err(e);
            },
            Ok(end) => end,
        };
        if end > data.len() as u64 {
            return Err(FormatError::Truncated);
        }
        match read_tree(bytes, HEADER_LEN, end as usize) {
            None => Err(FormatError::CorruptTree),
            Some((entries, payload_start)) => Ok(ArchiveHandle { data, entries, payload_start }),
        }
    }

    /// Number of records in the directory tree.
    pub fn len(&self) -> (n: usize)
        ensures
            n == self@.entries.len(),
    {
        self.entries.len()
    }

    /// The `i`-th record in tree order, `None` where there are no more
    /// than `i` records.
    pub fn entry(&self, i: usize) -> (r: Option<&ArchiveEntry>)
        ensures
            match r {
                Some(e) => i < self@.entries.len() && e@ == self@.entries[i as int],
                None => i >= self@.entries.len(),
            },
    {
        if i < self.entries.len() {
            Some(&self.entries[i])
        } else {
            None
        }
    }

    /// Position of the first payload byte, which is where the tree ended.
    pub fn payload_start(&self) -> (p: usize)
        ensures
            p == self@.payload_start,
            parse_archive(self@.data) == Ok::<(Seq<ArchiveEntryView>, int), FormatError>(
                (self@.entries, self@.payload_start),
            ),
    {
        proof {
            use_type_invariant(self);
        }
        self.payload_start
    }

    /// Finds the record stored under `path`, matched literally.
    pub fn lookup(&self, path: &str) -> (r: Option<&ArchiveEntry>)
        ensures
            match find_entry(self@.entries, path@) {
                Some(e) => r matches Some(x) && x@ == e,
                None => r is None,
            },
    {
        let wanted = path.to_owned();
        let mut i: usize = self.entries.len();
        proof {
            assert(entry_views(self.entries@).subrange(0, i as int) =~= entry_views(
                self.entries@,
            ));
        }
        while i > 0
            invariant
                i <= self.entries@.len(),
                wanted@ == path@,
                find_entry(entry_views(self.entries@), path@) == find_entry(
                    entry_views(self.entries@).subrange(0, i as int),
                    path@,
                ),
            decreases i,
        {
            let ghost prefix = entry_views(self.entries@).subrange(0, i as int);
            i = i - 1;
            proof {
                assert(prefix.last() == self.entries@[i as int]@);
                assert(prefix.drop_last() =~= entry_views(self.entries@).subrange(0, i as int));
            }
            if self.entries[i].path == wanted {
                return Some(&self.entries[i]);
            }
        }
        None
    }

    /// Copies the bytes of `entry` out of the payload.  The entry's offset
    /// counts from the start of the payload; nothing past the end of the
    /// file is ever read.
    pub fn read_entry(&self, entry: &ArchiveEntry) -> (r: Result<Vec<u8>, ReadError>)
        ensures
            match entry_bytes(
                self@.data,
                self@.payload_start,
                entry.data_offset,
                entry.data_length,
            ) {
                Some(bytes) => r matches Ok(v) && v@ == bytes,
                None => r matches Err(e) && e == ReadError::ShortRead,
            },
    {
        proof {
            use_type_invariant(self);
            lemma_payload_in_file(self.data@);
        }
        let total = self.data.len();
        let offset = entry.data_offset as usize;
        let length = entry.data_length as usize;
        if total - self.payload_start < offset {
            return Err(ReadError::ShortRead);
        }
        let start = self.payload_start + offset;
        if total - start < length {
            return Err(ReadError::ShortRead);
        }
        Ok(slice_to_vec(slice_subrange(self.data.as_slice(), start, start + length)))
    }
}


/// A tree that reads well ends between where it started and `end`.
#[verifier::rlimit(50)]
pub proof fn lemma_tree_end_in_bounds(
    b: Seq<u8>,
    pos: int,
    end: int,
    level: Level,
    ext: Seq<u8>,
    dir: Seq<u8>,
)
    requires
        pos <= end,
    ensures
        tree_from(b, pos, end, level, ext, dir) matches Some((_, fin)) ==> pos <= fin <= end,
    decreases end - pos,
{
    if level == Level::Extension && pos >= end {
    } else {
        match first_nul(b, pos, end) {
            None => {},
            Some(z) => {
                if z < pos || z >= end {
                } else if z == pos {
                    match level {
                        Level::Extension => {},
                        Level::Directory => lemma_tree_end_in_bounds(
                            b,
                            z + 1,
                            end,
                            Level::Extension,
                            ext,
                            dir,
                        ),
                        Level::File => lemma_tree_end_in_bounds(
                            b,
                            z + 1,
                            end,
                            Level::Directory,
                            ext,
                            dir,
                        ),
                    }
                } else {
                    let s = b.subrange(pos, z);
                    match level {
                        Level::Extension => lemma_tree_end_in_bounds(
                            b,
                            z + 1,
                            end,
                            Level::Directory,
                            s,
                            dir,
                        ),
                        Level::Directory => lemma_tree_end_in_bounds(
                            b,
                            z + 1,
                            end,
                            Level::File,
                            ext,
                            s,
                        ),
                        Level::File => match record_at(b, z + 1, end, path_bytes(dir, s, ext)) {
                            None => {},
                            Some((_, after)) => lemma_tree_end_in_bounds(
                                b,
                                after,
                                end,
                                Level::File,
                                ext,
                                dir,
                            ),
                        },
                    }
                }
            },
        }
    }
}

/// The payload of a readable archive starts after the header and within
/// the file.
pub proof fn lemma_payload_in_file(data: Seq<u8>)
    ensures
        parse_archive(data) matches Ok((_, start)) ==> HEADER_LEN <= start <= data.len(),
{
    if data.len() >= HEADER_LEN && HEADER_LEN + le_u32(data, 8) <= data.len() {
        lemma_tree_end_in_bounds(
            data,
            HEADER_LEN as int,
            HEADER_LEN + le_u32(data, 8),
            Level::Extension,
            Seq::empty(),
            Seq::empty(),
        );
    }
}


proof fn lemma_first_nul_agrees(a: Seq<u8>, b: Seq<u8>, from: int, end: int)
    requires
        0 <= from,
        end <= a.len(),
        end <= b.len(),
        forall|i: int| from <= i < end ==> a[i] == b[i],
    ensures
        first_nul(a, from, end) == first_nul(b, from, end),
        first_nul(a, from, end) matches Some(z) ==> from <= z < end,
    decreases end - from,
{
    if from < end && a[from] != 0 {
        lemma_first_nul_agrees(a, b, from + 1, end);
    }
}

/// Reading a tree looks at nothing but the bytes of the tree.
#[verifier::rlimit(50)]
pub proof fn lemma_tree_from_agrees(
    a: Seq<u8>,
    b: Seq<u8>,
    pos: int,
    end: int,
    level: Level,
    ext: Seq<u8>,
    dir: Seq<u8>,
)
    requires
        0 <= pos <= end,
        end <= a.len(),
        end <= b.len(),
        forall|i: int| pos <= i < end ==> a[i] == b[i],
    ensures
        tree_from(a, pos, end, level, ext, dir) == tree_from(b, pos, end, level, ext, dir),
    decreases end - pos,
{
    if level == Level::Extension && pos >= end {
    } else {
        lemma_first_nul_agrees(a, b, pos, end);
        match first_nul(a, pos, end) {
            None => {},
            Some(z) => {
                if z == pos {
                    match level {
                        Level::Extension => {},
                        Level::Directory => lemma_tree_from_agrees(
                            a,
                            b,
                            z + 1,
                            end,
                            Level::Extension,
                            ext,
                            dir,
                        ),
                        Level::File => lemma_tree_from_agrees(
                            a,
                            b,
                            z + 1,
                            end,
                            Level::Directory,
                            ext,
                            dir,
                        ),
                    }
                } else {
                    let s = a.subrange(pos, z);
                    assert(s =~= b.subrange(pos, z));
                    match level {
                        Level::Extension => lemma_tree_from_agrees(
                            a,
                            b,
                            z + 1,
                            end,
                            Level::Directory,
                            s,
                            dir,
                        ),
                        Level::Directory => lemma_tree_from_agrees(
                            a,
                            b,
                            z + 1,
                            end,
                            Level::File,
                            ext,
                            s,
                        ),
                        Level::File => {
                            let path = path_bytes(dir, s, ext);
                            assert(record_at(a, z + 1, end, path) == record_at(
                                b,
                                z + 1,
                                end,
                                path,
                            ));
                            match record_at(a, z + 1, end, path) {
                                None => {},
                                Some((_, after)) => lemma_tree_from_agrees(
                                    a,
                                    b,
                                    after,
                                    end,
                                    Level::File,
                                    ext,
                                    dir,
                                ),
                            }
                        },
                    }
                }
            },
        }
    }
}

/// A handle needs no more of a file than its header and tree: whatever
/// follows the tree, the file is read as the same archive.
pub proof fn lemma_prefix_suffices(file: Seq<u8>, prefix: Seq<u8>)
    requires
        prefix.len() <= file.len(),
        forall|i: int| 0 <= i < prefix.len() ==> prefix[i] == file[i],
        prefix.len() == file.len() || (announced_tree_end(prefix) matches Ok(end) && end
            <= prefix.len()),
    ensures
        parse_archive(prefix) == parse_archive(file),
{
    if prefix.len() == file.len() {
        assert(prefix =~= file);
    } else {
        let end = announced_tree_end(prefix)->Ok_0;
        assert(announced_tree_end(file) == announced_tree_end(prefix));
        lemma_tree_from_agrees(
            prefix,
            file,
            HEADER_LEN as int,
            end,
            Level::Extension,
            Seq::empty(),
            Seq::empty(),
        );
    }
}

} // verus!
