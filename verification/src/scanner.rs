//! The scan of an add-on directory: which files are archives, which catalog
//! ids their names carry, and how what was found on disk, inside the
//! archives and in the catalog is put together into the list of entries.
//!
//! Listing the directory, reading the files and asking the catalog is the
//! caller's part; every decision in between is made here.

use vstd::prelude::*;
use vstd::string::*;
use crate::catalog::{
    contains_id, CatalogItem, CatalogItemView, CatalogResolver, WorkshopResultView,
};
use crate::metadata::{AddonData, AddonDataView};
use crate::text::{chars_of, ends_with, has_suffix};
use crate::workshop_id::{
    digits_at, find_workshop_id_in_str, lemma_no_run_no_id, workshop_id_of, IdPattern,
};

verus! {

/// Whether a file name is that of an archive: it ends in `.vpk`.
pub open spec fn is_archive(name: Seq<char>) -> bool {
    has_suffix(name, ".vpk"@)
}

/// Executable test for [`is_archive`].
pub fn is_archive_name(name: &str) -> (r: bool)
    ensures
        r == is_archive(name@),
{
    ends_with(name, ".vpk")
}

/// One entry of a directory listing.
#[derive(Clone, Debug)]
pub struct ListedEntry {
    /// The entry's name within the directory.
    pub name: String,
    /// Whether the entry is a regular file, as opposed to a directory or
    /// anything else.
    pub is_file: bool,
}

/// Whether a listed entry is an archive file: a regular file whose name
/// ends in `.vpk`.  A directory is none, whatever its name.
pub open spec fn is_archive_file(entry: ListedEntry) -> bool {
    entry.is_file && is_archive(entry.name@)
}

/// The positions below `upto` of the listed entries that are archive
/// files, ascending.
pub open spec fn archives_among(listing: Seq<ListedEntry>, upto: int) -> Seq<usize>
    decreases upto,
{
    if upto <= 0 {
        Seq::empty()
    } else if is_archive_file(listing[upto - 1]) {
        archives_among(listing, upto - 1).push((upto - 1) as usize)
    } else {
        archives_among(listing, upto - 1)
    }
}

/// Picks the archive files out of a directory listing: their positions,
/// in listing order.  Directories and files of other extensions are left
/// out.
pub fn select_archives(listing: &Vec<ListedEntry>) -> (r: Vec<usize>)
    ensures
        r@ == archives_among(listing@, listing@.len() as int),
{
    let mut picked: Vec<usize> = Vec::new();
    let mut i: usize = 0;
    while i < listing.len()
        invariant
            i <= listing@.len(),
            picked@ == archives_among(listing@, i as int),
        decreases listing@.len() - i,
    {
        if listing[i].is_file && is_archive_name(listing[i].name.as_str()) {
            picked.push(i);
        }
        i = i + 1;
    }
    picked
}

/// Position of the last dot of `s` before `upto`.
pub open spec fn last_dot(s: Seq<char>, upto: int) -> Option<int>
    decreases upto,
{
    if upto <= 0 {
        None
    } else if s[upto - 1] == '.' {
        Some(upto - 1)
    } else {
        last_dot(s, upto - 1)
    }
}

/// A file name without its extension: the name up to its last dot, where
/// a dot that opens the name does not count.
pub open spec fn stem_of(name: Seq<char>) -> Seq<char> {
    match last_dot(name, name.len() as int) {
        Some(i) => if i > 0 {
            name.subrange(0, i)
        } else {
            name
        },
        None => name,
    }
}

/// Cuts the extension off a file name; see [`stem_of`].
pub fn file_stem(name: &str) -> (r: String)
    ensures
        r@ == stem_of(name@),
{
    let cs = chars_of(name);
    let mut i: usize = cs.len();
    while i > 0
        invariant
            cs@ == name@,
            i <= cs@.len(),
            last_dot(name@, name@.len() as int) == last_dot(name@, i as int),
        decreases i,
    {
        if cs[i - 1] == '.' {
            if i - 1 > 0 {
                return name.substring_char(0, i - 1).to_owned();
            } else {
                return name.to_owned();
            }
        }
        i = i - 1;
    }
    name.to_owned()
}

/// The catalog id that a file is a candidate for: the id that the stem of
/// its name carries.
pub open spec fn candidate_of(file_name: Seq<char>, min_digits: nat) -> Option<u32> {
    workshop_id_of(stem_of(file_name), min_digits)
}

/// Finds the catalog id that a file is a candidate for.
pub fn candidate_id(pattern: &IdPattern, file_name: &str) -> (r: Option<u32>)
    ensures
        r == candidate_of(file_name@, pattern.min_digits()),
{
    let stem = file_stem(file_name);
    find_workshop_id_in_str(pattern, stem.as_str())
}

/// What the file system says of one archive file.
#[derive(Clone, Debug)]
pub struct FileStat {
    pub file_name: String,
    pub file_size: u64,
    /// Time of the last change, in seconds since the epoch, where known.
    pub last_update_time: Option<u64>,
    /// Time of creation, in seconds since the epoch, where known.
    pub create_time: Option<u64>,
}

/// One archive file as the scan found it: its file-system data and what
/// could be read out of it.
#[derive(Debug)]
pub struct ScannedFile {
    pub stat: FileStat,
    /// `None` where the file could not be read as an archive.
    pub addon_data: Option<AddonData>,
}

/// One add-on of the scanned directory.
#[derive(Debug)]
pub struct AddonEntry {
    pub file_name: String,
    pub file_size: u64,
    pub last_update_time: Option<u64>,
    pub create_time: Option<u64>,
    pub addon_data: Option<AddonData>,
    pub workshop_info: Option<CatalogItem>,
}

/// Mathematical value of an [`AddonEntry`].
pub struct AddonEntryView {
    pub file_name: Seq<char>,
    pub file_size: u64,
    pub last_update_time: Option<u64>,
    pub create_time: Option<u64>,
    pub addon_data: Option<AddonDataView>,
    pub workshop_info: Option<CatalogItemView>,
}

/// The value of optional archive data.
pub open spec fn data_view(data: Option<AddonData>) -> Option<AddonDataView> {
    match data {
        Some(d) => Some(d@),
        None => None,
    }
}

impl View for AddonEntry {
    type V = AddonEntryView;

    open spec fn view(&self) -> AddonEntryView {
        AddonEntryView {
            file_name: self.file_name@,
            file_size: self.file_size,
            last_update_time: self.last_update_time,
            create_time: self.create_time,
            addon_data: data_view(self.addon_data),
            workshop_info: match self.workshop_info {
                Some(item) => Some(item@),
                None => None,
            },
        }
    }
}

/// The distinct candidate ids of the first `upto` files, in the order of
/// their first occurrence.
pub open spec fn candidates_among(files: Seq<ScannedFile>, min_digits: nat, upto: int) -> Seq<u32>
    decreases upto,
{
    if upto <= 0 {
        Seq::empty()
    } else {
        let before = candidates_among(files, min_digits, upto - 1);
        match candidate_of(files[upto - 1].stat.file_name@, min_digits) {
            Some(id) => if before.contains(id) {
                before
            } else {
                before.push(id)
            },
            None => before,
        }
    }
}

/// Collects the ids to resolve for a scan: every id that some file is a
/// candidate for, once.
pub fn collect_candidates(pattern: &IdPattern, files: &Vec<ScannedFile>) -> (r: Vec<u32>)
    ensures
        r@ == candidates_among(files@, pattern.min_digits(), files@.len() as int),
{
    let mut ids: Vec<u32> = Vec::new();
    let mut i: usize = 0;
    while i < files.len()
        invariant
            i <= files@.len(),
            ids@ == candidates_among(files@, pattern.min_digits(), i as int),
        decreases files@.len() - i,
    {
        match candidate_id(pattern, files[i].stat.file_name.as_str()) {
            Some(id) => {
                if !contains_id(&ids, id) {
                    ids.push(id);
                }
            },
            None => {},
        }
        i = i + 1;
    }
    ids
}

/// The record that an entry for a file named `file_name` gets: the one
/// resolved for the id the file is a candidate for, if there is such an id
/// and it was resolved.
pub open spec fn workshop_info_of(
    file_name: Seq<char>,
    min_digits: nat,
    results: Map<u32, WorkshopResultView>,
) -> Option<CatalogItemView> {
    match candidate_of(file_name, min_digits) {
        Some(id) => if results.contains_key(id) {
            Some(results[id].item)
        } else {
            None
        },
        None => None,
    }
}

/// The entry for one scanned file.
pub open spec fn entry_of(
    file: ScannedFile,
    min_digits: nat,
    results: Map<u32, WorkshopResultView>,
) -> AddonEntryView {
    AddonEntryView {
        file_name: file.stat.file_name@,
        file_size: file.stat.file_size,
        last_update_time: file.stat.last_update_time,
        create_time: file.stat.create_time,
        addon_data: data_view(file.addon_data),
        workshop_info: workshop_info_of(file.stat.file_name@, min_digits, results),
    }
}

/// Puts together the entry for one scanned file; see [`entry_of`].
pub fn build_entry(pattern: &IdPattern, file: ScannedFile, resolver: &CatalogResolver) -> (r:
    AddonEntry)
    ensures
        r@ == entry_of(file, pattern.min_digits(), resolver@.results),
{
    let workshop_info = match candidate_id(pattern, file.stat.file_name.as_str()) {
        Some(id) => match resolver.resolved(id) {
            Some(found) => Some(found.item.duplicate()),
            None => None,
        },
        None => None,
    };
    AddonEntry {
        file_name: file.stat.file_name,
        file_size: file.stat.file_size,
        last_update_time: file.stat.last_update_time,
        create_time: file.stat.create_time,
        addon_data: file.addon_data,
        workshop_info,
    }
}

/// Puts together the entries of a scan: one for every scanned file, in
/// the order of the files.
#[verifier::rlimit(50)]
pub fn build_entries(pattern: &IdPattern, files: Vec<ScannedFile>, resolver: &CatalogResolver) -> (r:
    Vec<AddonEntry>)
    ensures
        r@.len() == files@.len(),
        forall|i: int|
            0 <= i < files@.len() ==> (#[trigger] r@[i])@ == entry_of(
                files@[i],
                pattern.min_digits(),
                resolver@.results,
            ),
{
    let ghost all = files@;
    let mut rest = files;
    let mut reversed: Vec<AddonEntry> = Vec::new();
    while rest.len() > 0
        invariant
            rest@.len() + reversed@.len() == all.len(),
            rest@ == all.subrange(0, rest@.len() as int),
            forall|k: int|
                0 <= k < reversed@.len() ==> (#[trigger] reversed@[k])@ == entry_of(
                    all[all.len() - 1 - k],
                    pattern.min_digits(),
                    resolver@.results,
                ),
        decreases rest@.len(),
    {
        let file = rest.pop().unwrap();
        reversed.push(build_entry(pattern, file, resolver));
    }
    let mut entries: Vec<AddonEntry> = Vec::new();
    while reversed.len() > 0
        invariant
            reversed@.len() + entries@.len() == all.len(),
            forall|k: int|
                0 <= k < reversed@.len() ==> (#[trigger] reversed@[k])@ == entry_of(
                    all[all.len() - 1 - k],
                    pattern.min_digits(),
                    resolver@.results,
                ),
            forall|i: int|
                0 <= i < entries@.len() ==> (#[trigger] entries@[i])@ == entry_of(
                    all[i],
                    pattern.min_digits(),
                    resolver@.results,
                ),
        decreases reversed@.len(),
    {
        let entry = reversed.pop().unwrap();
        entries.push(entry);
    }
    entries
}


/// An id is collected exactly when some file is a candidate for it.
#[verifier::rlimit(50)]
pub proof fn lemma_candidates_exact(files: Seq<ScannedFile>, min_digits: nat, upto: int, id: u32)
    requires
        0 <= upto <= files.len(),
    ensures
        candidates_among(files, min_digits, upto).contains(id) <==> exists|i: int|
            0 <= i < upto && #[trigger] candidate_of(files[i].stat.file_name@, min_digits) == Some(
                id,
            ),
    decreases upto,
{
    if upto > 0 {
        lemma_candidates_exact(files, min_digits, upto - 1, id);
        let before = candidates_among(files, min_digits, upto - 1);
        let now = candidates_among(files, min_digits, upto);
        let here = candidate_of(files[upto - 1].stat.file_name@, min_digits);
        if now.contains(id) {
            if before.contains(id) {
                let i = choose|i: int|
                    0 <= i < upto - 1 && #[trigger] candidate_of(
                        files[i].stat.file_name@,
                        min_digits,
                    ) == Some(id);
                assert(0 <= i < upto);
            } else {
                assert(now == before.push(id));
                assert(here == Some(id));
            }
        }
        if exists|i: int|
            0 <= i < upto && #[trigger] candidate_of(files[i].stat.file_name@, min_digits) == Some(
                id,
            ) {
            let i = choose|i: int|
                0 <= i < upto && #[trigger] candidate_of(files[i].stat.file_name@, min_digits)
                    == Some(id);
            if i < upto - 1 {
                assert(before.contains(id));
                if now != before {
                    assert(now == before.push(here->0));
                    let k = choose|k: int| 0 <= k < before.len() && before[k] == id;
                    assert(now[k] == id);
                }
            } else {
                if before.contains(id) {
                } else {
                    assert(now == before.push(id));
                    assert(now[before.len() as int] == id);
                }
            }
        }
    }
}

/// No id is collected twice.
pub proof fn lemma_candidates_distinct(files: Seq<ScannedFile>, min_digits: nat, upto: int)
    ensures
        candidates_among(files, min_digits, upto).no_duplicates(),
    decreases upto,
{
    if upto > 0 {
        lemma_candidates_distinct(files, min_digits, upto - 1);
    }
}

/// A file whose name has no run of digits of the minimum length is no
/// candidate for any id: it adds nothing to the ids to resolve, and its
/// entry carries no catalog record whatever was resolved.
pub proof fn lemma_no_digits_no_candidate(
    file_name: Seq<char>,
    min_digits: nat,
    results: Map<u32, WorkshopResultView>,
)
    requires
        forall|at: int| !digits_at(stem_of(file_name), at, min_digits),
    ensures
        candidate_of(file_name, min_digits) is None,
        workshop_info_of(file_name, min_digits, results) is None,
{
    lemma_no_run_no_id(stem_of(file_name), min_digits);
}

/// An entry depends on the records that were resolved, not on whether they
/// came from the cache or from the remote service: two scans that resolve
/// the same records produce the same entry for a file.
pub proof fn lemma_entry_ignores_origin(
    file: ScannedFile,
    min_digits: nat,
    first: Map<u32, WorkshopResultView>,
    second: Map<u32, WorkshopResultView>,
)
    requires
        first.dom() == second.dom(),
        forall|id: u32| #[trigger] first.contains_key(id) ==> first[id].item == second[id].item,
    ensures
        entry_of(file, min_digits, first) == entry_of(file, min_digits, second),
{
    match candidate_of(file.stat.file_name@, min_digits) {
        Some(id) => {
            assert(first.contains_key(id) == second.contains_key(id));
        },
        None => {},
    }
}


/// The positions picked are exactly those of the archive files, each once
/// and in ascending order: a listing with `n` archive files gives `n`
/// positions, whatever else it holds.
#[verifier::rlimit(50)]
pub proof fn lemma_archives_exact(listing: Seq<ListedEntry>, upto: int)
    requires
        0 <= upto <= listing.len(),
        listing.len() <= usize::MAX,
    ensures
        forall|i: int|
            0 <= i < upto ==> (is_archive_file(listing[i]) <==> #[trigger] archives_among(
                listing,
                upto,
            ).contains(i as usize)),
        forall|k: int|
            0 <= k < archives_among(listing, upto).len() ==> (#[trigger] archives_among(
                listing,
                upto,
            )[k]) < upto,
        forall|j: int, k: int|
            0 <= j < k < archives_among(listing, upto).len() ==> (#[trigger] archives_among(
                listing,
                upto,
            )[j]) < (#[trigger] archives_among(listing, upto)[k]),
    decreases upto,
{
    if upto > 0 {
        lemma_archives_exact(listing, upto - 1);
        let before = archives_among(listing, upto - 1);
        let now = archives_among(listing, upto);
        assert forall|i: int| 0 <= i < upto implies (is_archive_file(listing[i]) <==> now.contains(
            i as usize,
        )) by {
            if i < upto - 1 {
                if before.contains(i as usize) {
                    let k = choose|k: int| 0 <= k < before.len() && before[k] == i as usize;
                    assert(now[k] == i as usize);
                }
                if now.contains(i as usize) {
                    let k = choose|k: int| 0 <= k < now.len() && now[k] == i as usize;
                    if k < before.len() {
                        assert(before[k] == i as usize);
                    }
                }
            } else {
                if is_archive_file(listing[i]) {
                    assert(now[before.len() as int] == i as usize);
                } else {
                    if now.contains(i as usize) {
                        let k = choose|k: int| 0 <= k < now.len() && now[k] == i as usize;
                        assert(before[k] < upto - 1);
                    }
                }
            }
        }
    }
}

} // verus!
