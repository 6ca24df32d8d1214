//! The directory tree as a writer lays it out, and the proof that the
//! reader of [`crate::archive`] reads every well-formed tree back as the
//! entries that were written.

use vstd::prelude::*;
use vstd::utf8::{decode_utf8, valid_utf8};
use crate::archive::{
    entry_bytes, first_nul, le_u16, le_u32, parse_archive, path_bytes, prepend, record_at,
    tree_from,
    ArchiveEntryView, FormatError, Level, FORMAT_VERSION, HEADER_LEN, RECORD_LEN, SIGNATURE,
};

verus! {

/// One file of a tree to be written.
pub struct FileNode {
    /// The file's name without directory and extension.
    pub name: Seq<u8>,
    pub crc: u32,
    /// Bytes of the file that are kept inside the tree.
    pub preload: Seq<u8>,
    pub container_index: u16,
    pub data_offset: u32,
    pub data_length: u32,
}

/// One directory of a tree to be written, with its files of one extension.
pub struct DirNode {
    pub name: Seq<u8>,
    pub files: Seq<FileNode>,
}

/// All files of one extension, by directory.
pub struct ExtNode {
    pub name: Seq<u8>,
    pub dirs: Seq<DirNode>,
}

/// The fixed-size record of a file, byte by byte.
pub open spec fn record_bytes(f: FileNode) -> Seq<u8> {
    seq![
        (f.crc % 256) as u8,
        (f.crc / 256 % 256) as u8,
        (f.crc / 65536 % 256) as u8,
        (f.crc / 16777216) as u8,
        (f.preload.len() % 256) as u8,
        (f.preload.len() / 256) as u8,
        (f.container_index % 256) as u8,
        (f.container_index / 256) as u8,
        (f.data_offset % 256) as u8,
        (f.data_offset / 256 % 256) as u8,
        (f.data_offset / 65536 % 256) as u8,
        (f.data_offset / 16777216) as u8,
        (f.data_length % 256) as u8,
        (f.data_length / 256 % 256) as u8,
        (f.data_length / 65536 % 256) as u8,
        (f.data_length / 16777216) as u8,
        0xFFu8,
        0xFFu8,
    ]
}

/// A file as written: its name, a zero byte, its record, its preload bytes.
pub open spec fn file_bytes(f: FileNode) -> Seq<u8> {
    f.name + seq![0u8] + record_bytes(f) + f.preload
}

/// The files of a directory as written, closed by an empty name.
pub open spec fn files_bytes(files: Seq<FileNode>) -> Seq<u8>
    decreases files.len(),
{
    if files.len() == 0 {
        seq![0u8]
    } else {
        file_bytes(files[0]) + files_bytes(files.drop_first())
    }
}

/// The directories of an extension as written, closed by an empty name.
pub open spec fn dirs_bytes(dirs: Seq<DirNode>) -> Seq<u8>
    decreases dirs.len(),
{
    if dirs.len() == 0 {
        seq![0u8]
    } else {
        dirs[0].name + seq![0u8] + files_bytes(dirs[0].files) + dirs_bytes(dirs.drop_first())
    }
}

/// A whole tree as written, closed by an empty name.
pub open spec fn tree_bytes(exts: Seq<ExtNode>) -> Seq<u8>
    decreases exts.len(),
{
    if exts.len() == 0 {
        seq![0u8]
    } else {
        exts[0].name + seq![0u8] + dirs_bytes(exts[0].dirs) + tree_bytes(exts.drop_first())
    }
}

/// Whether `s` can be written as a name: it is not empty and holds no zero
/// byte.
pub open spec fn name_ok(s: Seq<u8>) -> bool {
    s.len() > 0 && forall|i: int| 0 <= i < s.len() ==> #[trigger] s[i] != 0
}

/// Whether a file can be written into directory `dir` of extension `ext`.
pub open spec fn file_ok(f: FileNode, dir: Seq<u8>, ext: Seq<u8>) -> bool {
    &&& name_ok(f.name)
    &&& f.preload.len() <= 0xFFFF
    &&& valid_utf8(path_bytes(dir, f.name, ext))
}

/// Whether the files can be written into directory `dir` of extension `ext`.
pub open spec fn files_ok(files: Seq<FileNode>, dir: Seq<u8>, ext: Seq<u8>) -> bool {
    forall|i: int| 0 <= i < files.len() ==> file_ok(#[trigger] files[i], dir, ext)
}

/// Whether the directories can be written under extension `ext`.
pub open spec fn dirs_ok(dirs: Seq<DirNode>, ext: Seq<u8>) -> bool {
    forall|i: int|
        0 <= i < dirs.len() ==> name_ok((#[trigger] dirs[i]).name) && files_ok(
            dirs[i].files,
            dirs[i].name,
            ext,
        )
}

/// Whether the tree can be written.
pub open spec fn tree_ok(exts: Seq<ExtNode>) -> bool {
    forall|i: int|
        0 <= i < exts.len() ==> name_ok((#[trigger] exts[i]).name) && dirs_ok(
            exts[i].dirs,
            exts[i].name,
        )
}

/// The entry that stands for a written file.
pub open spec fn file_entry(f: FileNode, dir: Seq<u8>, ext: Seq<u8>) -> ArchiveEntryView {
    ArchiveEntryView {
        path: decode_utf8(path_bytes(dir, f.name, ext)),
        data_offset: f.data_offset,
        data_length: f.data_length,
        container_index: f.container_index,
    }
}

/// The entries of the files of one directory, in order.
pub open spec fn files_entries(files: Seq<FileNode>, dir: Seq<u8>, ext: Seq<u8>) -> Seq<
    ArchiveEntryView,
>
    decreases files.len(),
{
    if files.len() == 0 {
        Seq::empty()
    } else {
        seq![file_entry(files[0], dir, ext)] + files_entries(files.drop_first(), dir, ext)
    }
}

/// The entries of the directories of one extension, in order.
pub open spec fn dirs_entries(dirs: Seq<DirNode>, ext: Seq<u8>) -> Seq<ArchiveEntryView>
    decreases dirs.len(),
{
    if dirs.len() == 0 {
        Seq::empty()
    } else {
        files_entries(dirs[0].files, dirs[0].name, ext) + dirs_entries(dirs.drop_first(), ext)
    }
}

/// The entries of a whole tree, in order.
pub open spec fn tree_entries(exts: Seq<ExtNode>) -> Seq<ArchiveEntryView>
    decreases exts.len(),
{
    if exts.len() == 0 {
        Seq::empty()
    } else {
        dirs_entries(exts[0].dirs, exts[0].name) + tree_entries(exts.drop_first())
    }
}

/// Whether `b` holds the bytes `x` from position `pos` on.
pub open spec fn holds_at(b: Seq<u8>, pos: int, x: Seq<u8>) -> bool {
    &&& 0 <= pos
    &&& pos + x.len() <= b.len()
    &&& forall|i: int| 0 <= i < x.len() ==> b[pos + i] == #[trigger] x[i]
}


/// The name of the last of `dirs`, or `before` where there is none.
pub open spec fn last_name(dirs: Seq<DirNode>, before: Seq<u8>) -> Seq<u8> {
    if dirs.len() == 0 {
        before
    } else {
        dirs.last().name
    }
}

proof fn lemma_split(b: Seq<u8>, pos: int, x: Seq<u8>, y: Seq<u8>)
    requires
        holds_at(b, pos, x + y),
    ensures
        holds_at(b, pos, x),
        holds_at(b, pos + x.len(), y),
{
    assert forall|i: int| 0 <= i < x.len() implies b[pos + i] == #[trigger] x[i] by {
        assert((x + y)[i] == x[i]);
    }
    assert forall|i: int| 0 <= i < y.len() implies b[pos + x.len() + i] == #[trigger] y[i] by {
        assert((x + y)[x.len() + i] == y[i]);
    }
}

proof fn lemma_first_nul_skip(b: Seq<u8>, from: int, z: int, end: int)
    requires
        0 <= from <= z < end <= b.len(),
        forall|j: int| from <= j < z ==> #[trigger] b[j] != 0,
        b[z] == 0,
    ensures
        first_nul(b, from, end) == Some(z),
    decreases z - from,
{
    if from < z {
        assert(b[from] != 0);
        lemma_first_nul_skip(b, from + 1, z, end);
    }
}

proof fn lemma_name_read(b: Seq<u8>, pos: int, end: int, name: Seq<u8>)
    requires
        holds_at(b, pos, name + seq![0u8]),
        forall|i: int| 0 <= i < name.len() ==> #[trigger] name[i] != 0,
        pos + name.len() < end <= b.len(),
    ensures
        first_nul(b, pos, end) == Some(pos + name.len()),
        b.subrange(pos, pos + name.len()) == name,
{
    lemma_split(b, pos, name, seq![0u8]);
    let z = pos + name.len();
    assert(b[z + 0] == seq![0u8][0]);
    assert forall|j: int| pos <= j < z implies #[trigger] b[j] != 0 by {
        assert(b[pos + (j - pos)] == name[j - pos]);
    }
    lemma_first_nul_skip(b, pos, z, end);
    assert forall|i: int| 0 <= i < name.len() implies b.subrange(pos, z)[i] == name[i] by {
        assert(b[pos + i] == name[i]);
    }
    assert(b.subrange(pos, z) =~= name);
}

proof fn lemma_u16_parts(v: u16)
    ensures
        v % 256 + 256 * (v / 256) == v,
        v / 256 < 256,
{
    assert(v % 256 + 256 * (v / 256) == v && v / 256 < 256) by (bit_vector);
}

#[verifier::rlimit(50)]
proof fn lemma_u32_parts(v: u32)
    ensures
        v % 256 + 256 * (v / 256 % 256) + 65536 * (v / 65536 % 256) + 16777216 * (v / 16777216)
            == v,
        v / 16777216 < 256,
{
    assert(v / 16777216 < 256) by (bit_vector);
    assert(v == (v / 256) * 256 + v % 256);
    assert(v / 256 == (v / 256 / 256) * 256 + v / 256 % 256);
    assert(v / 256 / 256 == (v / 256 / 256 / 256) * 256 + v / 256 / 256 % 256);
    assert(v / 256 / 256 == v / 65536);
    assert(v / 256 / 256 / 256 == v / 16777216);
    assert(v / 65536 / 256 == v / 16777216);
    assert(v / 16777216 % 256 == v / 16777216);
}

proof fn lemma_le_u16_decodes(b: Seq<u8>, at: int, v: u16)
    requires
        b[at] == (v % 256) as u8,
        b[at + 1] == (v / 256) as u8,
    ensures
        le_u16(b, at) == v,
{
    lemma_u16_parts(v);
}

proof fn lemma_le_u32_decodes(b: Seq<u8>, at: int, v: u32)
    requires
        b[at] == (v % 256) as u8,
        b[at + 1] == (v / 256 % 256) as u8,
        b[at + 2] == (v / 65536 % 256) as u8,
        b[at + 3] == (v / 16777216) as u8,
    ensures
        le_u32(b, at) == v,
{
    lemma_u32_parts(v);
}

#[verifier::rlimit(50)]
proof fn lemma_record_fields(b: Seq<u8>, at: int, f: FileNode)
    requires
        holds_at(b, at, record_bytes(f)),
        f.preload.len() <= 0xFFFF,
    ensures
        le_u16(b, at + 4) == f.preload.len(),
        le_u16(b, at + 6) == f.container_index,
        le_u32(b, at + 8) == f.data_offset,
        le_u32(b, at + 12) == f.data_length,
        le_u16(b, at + 16) == 0xFFFF,
{
    let r = record_bytes(f);
    assert(b[at + 4] == r[4]);
    assert(b[at + 5] == r[5]);
    assert(b[at + 6] == r[6]);
    assert(b[at + 7] == r[7]);
    assert(b[at + 8] == r[8]);
    assert(b[at + 9] == r[9]);
    assert(b[at + 10] == r[10]);
    assert(b[at + 11] == r[11]);
    assert(b[at + 12] == r[12]);
    assert(b[at + 13] == r[13]);
    assert(b[at + 14] == r[14]);
    assert(b[at + 15] == r[15]);
    assert(b[at + 16] == r[16]);
    assert(b[at + 17] == r[17]);
    let n = f.preload.len() as u16;
    assert(n % 256 == f.preload.len() % 256 && n / 256 == f.preload.len() / 256);
    lemma_le_u16_decodes(b, at + 4, n);
    lemma_le_u16_decodes(b, at + 6, f.container_index);
    lemma_le_u32_decodes(b, at + 8, f.data_offset);
    lemma_le_u32_decodes(b, at + 12, f.data_length);
    lemma_le_u16_decodes(b, at + 16, 0xFFFFu16);
}

proof fn lemma_record_read(b: Seq<u8>, at: int, end: int, f: FileNode, dir: Seq<u8>, ext: Seq<u8>)
    requires
        holds_at(b, at, record_bytes(f)),
        at + RECORD_LEN + f.preload.len() <= end <= b.len(),
        file_ok(f, dir, ext),
    ensures
        record_at(b, at, end, path_bytes(dir, f.name, ext)) == Some(
            (file_entry(f, dir, ext), at + RECORD_LEN + f.preload.len()),
        ),
{
    lemma_record_fields(b, at, f);
}


/// Reading the written files of one directory gives their entries and goes
/// on, one level up, behind the empty name that closes them.
#[verifier::rlimit(50)]
proof fn lemma_files_read(
    b: Seq<u8>,
    pos: int,
    end: int,
    files: Seq<FileNode>,
    dir: Seq<u8>,
    ext: Seq<u8>,
)
    requires
        holds_at(b, pos, files_bytes(files)),
        pos + files_bytes(files).len() <= end <= b.len(),
        files_ok(files, dir, ext),
    ensures
        tree_from(b, pos, end, Level::File, ext, dir) == prepend(
            files_entries(files, dir, ext),
            tree_from(b, pos + files_bytes(files).len(), end, Level::Directory, ext, dir),
        ),
    decreases files.len(),
{
    let after_all = tree_from(
        b,
        pos + files_bytes(files).len(),
        end,
        Level::Directory,
        ext,
        dir,
    );
    if files.len() == 0 {
        assert(b[pos + 0] == seq![0u8][0]);
        assert(first_nul(b, pos, end) == Some(pos));
        if let Some((rest, fin)) = after_all {
            assert(Seq::<ArchiveEntryView>::empty() + rest =~= rest);
        }
    } else {
        let f = files[0];
        let rest = files.drop_first();
        assert(file_ok(f, dir, ext));
        assert forall|i: int| 0 <= i < rest.len() implies file_ok(#[trigger] rest[i], dir, ext) by {
            assert(rest[i] == files[i + 1]);
        }
        let head = f.name + seq![0u8];
        lemma_split(b, pos, file_bytes(f), files_bytes(rest));
        assert(file_bytes(f) =~= head + (record_bytes(f) + f.preload));
        lemma_split(b, pos, head, record_bytes(f) + f.preload);
        lemma_split(b, pos + head.len(), record_bytes(f), f.preload);
        lemma_name_read(b, pos, end, f.name);
        let z = pos + f.name.len();
        lemma_record_read(b, z + 1, end, f, dir, ext);
        let after = z + 1 + RECORD_LEN + f.preload.len();
        assert(after == pos + file_bytes(f).len());
        lemma_files_read(b, after, end, rest, dir, ext);
        let tail = tree_from(b, after, end, Level::File, ext, dir);
        assert(tree_from(b, pos, end, Level::File, ext, dir) == match tail {
            None => None,
            Some((more, fin)) => Some((seq![file_entry(f, dir, ext)] + more, fin)),
        });
        if let Some((more, fin)) = after_all {
            assert(seq![file_entry(f, dir, ext)] + (files_entries(rest, dir, ext) + more)
                =~= files_entries(files, dir, ext) + more);
        }
    }
}

/// Reading the written directories of one extension gives their entries
/// and goes on, one level up, behind the empty name that closes them.
#[verifier::rlimit(50)]
proof fn lemma_dirs_read(
    b: Seq<u8>,
    pos: int,
    end: int,
    dirs: Seq<DirNode>,
    ext: Seq<u8>,
    before: Seq<u8>,
)
    requires
        holds_at(b, pos, dirs_bytes(dirs)),
        pos + dirs_bytes(dirs).len() <= end <= b.len(),
        dirs_ok(dirs, ext),
    ensures
        tree_from(b, pos, end, Level::Directory, ext, before) == prepend(
            dirs_entries(dirs, ext),
            tree_from(
                b,
                pos + dirs_bytes(dirs).len(),
                end,
                Level::Extension,
                ext,
                last_name(dirs, before),
            ),
        ),
    decreases dirs.len(),
{
    let after_all = tree_from(
        b,
        pos + dirs_bytes(dirs).len(),
        end,
        Level::Extension,
        ext,
        last_name(dirs, before),
    );
    if dirs.len() == 0 {
        assert(b[pos + 0] == seq![0u8][0]);
        assert(first_nul(b, pos, end) == Some(pos));
        if let Some((rest, fin)) = after_all {
            assert(Seq::<ArchiveEntryView>::empty() + rest =~= rest);
        }
    } else {
        let d = dirs[0];
        let rest = dirs.drop_first();
        assert(name_ok(d.name) && files_ok(d.files, d.name, ext));
        assert forall|i: int| 0 <= i < rest.len() implies name_ok((#[trigger] rest[i]).name)
            && files_ok(rest[i].files, rest[i].name, ext) by {
            assert(rest[i] == dirs[i + 1]);
        }
        let head = d.name + seq![0u8];
        assert(dirs_bytes(dirs) =~= head + (files_bytes(d.files) + dirs_bytes(rest)));
        lemma_split(b, pos, head, files_bytes(d.files) + dirs_bytes(rest));
        lemma_split(b, pos + head.len(), files_bytes(d.files), dirs_bytes(rest));
        lemma_name_read(b, pos, end, d.name);
        let z = pos + d.name.len();
        lemma_files_read(b, z + 1, end, d.files, d.name, ext);
        let after = z + 1 + files_bytes(d.files).len();
        lemma_dirs_read(b, after, end, rest, ext, d.name);
        assert(last_name(rest, d.name) == last_name(dirs, before)) by {
            if rest.len() > 0 {
                assert(rest.last() == dirs.last());
            }
        }
        if let Some((more, fin)) = after_all {
            assert(files_entries(d.files, d.name, ext) + (dirs_entries(rest, ext) + more)
                =~= dirs_entries(dirs, ext) + more);
        }
    }
}

/// The reader reads a written tree back: wherever the bytes of a
/// well-formed tree stand, reading them on the outermost level gives the
/// entries of its files, in the order they were written, and ends right
/// behind the tree.
#[verifier::rlimit(50)]
pub proof fn lemma_tree_read_back(
    b: Seq<u8>,
    pos: int,
    end: int,
    exts: Seq<ExtNode>,
    ext: Seq<u8>,
    dir: Seq<u8>,
)
    requires
        holds_at(b, pos, tree_bytes(exts)),
        pos + tree_bytes(exts).len() <= end <= b.len(),
        tree_ok(exts),
    ensures
        tree_from(b, pos, end, Level::Extension, ext, dir) == Some(
            (tree_entries(exts), pos + tree_bytes(exts).len()),
        ),
    decreases exts.len(),
{
    if exts.len() == 0 {
        assert(b[pos + 0] == seq![0u8][0]);
        assert(first_nul(b, pos, end) == Some(pos));
    } else {
        let e = exts[0];
        let rest = exts.drop_first();
        assert(name_ok(e.name) && dirs_ok(e.dirs, e.name));
        assert forall|i: int| 0 <= i < rest.len() implies name_ok((#[trigger] rest[i]).name)
            && dirs_ok(rest[i].dirs, rest[i].name) by {
            assert(rest[i] == exts[i + 1]);
        }
        let head = e.name + seq![0u8];
        assert(tree_bytes(exts) =~= head + (dirs_bytes(e.dirs) + tree_bytes(rest)));
        lemma_split(b, pos, head, dirs_bytes(e.dirs) + tree_bytes(rest));
        lemma_split(b, pos + head.len(), dirs_bytes(e.dirs), tree_bytes(rest));
        lemma_name_read(b, pos, end, e.name);
        let z = pos + e.name.len();
        lemma_dirs_read(b, z + 1, end, e.dirs, e.name, dir);
        let after = z + 1 + dirs_bytes(e.dirs).len();
        lemma_tree_read_back(b, after, end, rest, e.name, last_name(e.dirs, dir));
    }
}


/// The header of an archive whose tree takes `tree_size` bytes.
pub open spec fn header_bytes(tree_size: u32) -> Seq<u8> {
    seq![
        0x34u8,
        0x12u8,
        0xAAu8,
        0x55u8,
        1u8,
        0u8,
        0u8,
        0u8,
        (tree_size % 256) as u8,
        (tree_size / 256 % 256) as u8,
        (tree_size / 65536 % 256) as u8,
        (tree_size / 16777216) as u8,
    ]
}

/// A whole archive as written: header, tree, payload.
pub open spec fn archive_bytes(exts: Seq<ExtNode>, payload: Seq<u8>) -> Seq<u8> {
    header_bytes(tree_bytes(exts).len() as u32) + tree_bytes(exts) + payload
}

#[verifier::rlimit(50)]
proof fn lemma_header_read(b: Seq<u8>, size: u32)
    requires
        holds_at(b, 0, header_bytes(size)),
    ensures
        le_u32(b, 0) == SIGNATURE,
        le_u32(b, 4) == FORMAT_VERSION,
        le_u32(b, 8) == size,
{
    let header = header_bytes(size);
    assert(b[0int + 0] == header[0]);
    assert(b[0int + 1] == header[1]);
    assert(b[0int + 2] == header[2]);
    assert(b[0int + 3] == header[3]);
    assert(b[0int + 4] == header[4]);
    assert(b[0int + 5] == header[5]);
    assert(b[0int + 6] == header[6]);
    assert(b[0int + 7] == header[7]);
    assert(b[0int + 8] == header[8]);
    assert(b[0int + 9] == header[9]);
    assert(b[0int + 10] == header[10]);
    assert(b[0int + 11] == header[11]);
    assert(le_u32(b, 0) == SIGNATURE);
    assert(le_u32(b, 4) == FORMAT_VERSION);
    lemma_le_u32_decodes(b, 8, size);
}

/// The reader reads a written archive back: the entries are those of the
/// files written, in order, and the payload starts right behind the tree.
#[verifier::rlimit(50)]
pub proof fn lemma_archive_read_back(exts: Seq<ExtNode>, payload: Seq<u8>)
    requires
        tree_ok(exts),
        tree_bytes(exts).len() <= u32::MAX,
    ensures
        parse_archive(archive_bytes(exts, payload)) == Ok::<
            (Seq<ArchiveEntryView>, int),
            FormatError,
        >((tree_entries(exts), HEADER_LEN + tree_bytes(exts).len())),
{
    let size = tree_bytes(exts).len() as u32;
    let header = header_bytes(size);
    let tree = tree_bytes(exts);
    let b = archive_bytes(exts, payload);
    assert(holds_at(b, 0, (header + tree) + payload));
    lemma_split(b, 0, header + tree, payload);
    lemma_split(b, 0, header, tree);
    lemma_header_read(b, size);
    assert(header.len() == HEADER_LEN);
    lemma_tree_read_back(
        b,
        HEADER_LEN as int,
        HEADER_LEN + size,
        exts,
        Seq::empty(),
        Seq::empty(),
    );
}

/// An entry of a written archive whose offset and length lie within the
/// payload is read as that part of the payload.
pub proof fn lemma_payload_read_back(
    exts: Seq<ExtNode>,
    payload: Seq<u8>,
    offset: u32,
    length: u32,
)
    requires
        offset + length <= payload.len(),
    ensures
        entry_bytes(
            archive_bytes(exts, payload),
            HEADER_LEN + tree_bytes(exts).len(),
            offset,
            length,
        ) == Some(payload.subrange(offset as int, offset + length)),
{
    let b = archive_bytes(exts, payload);
    let start = HEADER_LEN + tree_bytes(exts).len();
    assert(b.subrange(start + offset, start + offset + length) =~= payload.subrange(
        offset as int,
        offset + length,
    ));
}

} // verus!
