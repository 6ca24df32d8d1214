//! Bookkeeping of the download of one catalog item: how much has arrived,
//! and when the user interface is to be told.  Fetching the bytes and
//! writing them out is the caller's part.

use vstd::prelude::*;
use vstd::string::*;
use crate::catalog::{CatalogItem, CatalogItemView};
use crate::text::{decimal_digits, parse_u64, parse_unsigned, u64_to_decimal};

verus! {

/// Number of chunks after which the next chunk triggers a progress report.
pub const CHUNKS_PER_REPORT: u8 = 100;

/// A progress report for the user interface.
#[derive(Clone, Copy, Debug, PartialEq, Eq, Structural)]
pub struct UpdatePayload {
    pub publishedfileid: u32,
    pub bytes_downloaded: usize,
    pub bytes_total: usize,
    pub complete: bool,
}

/// A failure report for the user interface.
#[derive(Clone, Debug)]
pub struct ErrorPayload {
    pub publishedfileid: u32,
    pub error: String,
}

/// Name of the file that a download of `id` is moved to when it is done.
pub open spec fn archive_file_name_of(id: u32) -> Seq<char> {
    decimal_digits(id as nat) + ".vpk"@
}

/// Name of the file that a download of `id` is written to while it runs.
pub open spec fn part_file_name_of(id: u32) -> Seq<char> {
    decimal_digits(id as nat) + ".vpk.part"@
}

/// Builds [`archive_file_name_of`].
pub fn archive_file_name(id: u32) -> (r: String)
    ensures
        r@ == archive_file_name_of(id),
{
    let mut name = u64_to_decimal(id as u64);
    name.append(".vpk");
    name
}

/// Builds [`part_file_name_of`].
pub fn part_file_name(id: u32) -> (r: String)
    ensures
        r@ == part_file_name_of(id),
{
    let mut name = u64_to_decimal(id as u64);
    name.append(".vpk.part");
    name
}

/// The size in bytes that a catalog record declares for its file, where it
/// spells a number that fits the machine's word.
pub open spec fn declared_size(item: CatalogItemView) -> Option<usize> {
    match parse_unsigned(item.file_size, usize::MAX as nat) {
        Some(v) => Some(v as usize),
        None => None,
    }
}

/// Mathematical value of a [`Download`].
pub struct DownloadView {
    pub publishedfileid: u32,
    pub bytes_total: usize,
    pub bytes_downloaded: usize,
    /// Chunks taken in since the last progress report.
    pub chunks: u8,
}

/// The download of one item while it runs.
pub struct Download {
    publishedfileid: u32,
    bytes_total: usize,
    bytes_downloaded: usize,
    chunks: u8,
}

impl View for Download {
    type V = DownloadView;

    closed spec fn view(&self) -> DownloadView {
        DownloadView {
            publishedfileid: self.publishedfileid,
            bytes_total: self.bytes_total,
            bytes_downloaded: self.bytes_downloaded,
            chunks: self.chunks,
        }
    }
}

impl Download {
    #[verifier::type_invariant]
    spec fn counted(&self) -> bool {
        self.chunks <= CHUNKS_PER_REPORT
    }

    /// Starts the download of `item` under the id `publishedfileid`, unless
    /// the size the record declares cannot be read.
    pub fn start(publishedfileid: u32, item: &CatalogItem) -> (r: Option<Download>)
        ensures
            match declared_size(item@) {
                Some(total) => r matches Some(d) && d@ == (DownloadView {
                    publishedfileid,
                    bytes_total: total,
                    bytes_downloaded: 0,
                    chunks: 0,
                }),
                None => r is None,
            },
    {
        match parse_u64(item.file_size.as_str()) {
            Some(total) => {
                if total <= usize::MAX as u64 {
                    Some(
                        Download {
                            publishedfileid,
                            bytes_total: total as usize,
                            bytes_downloaded: 0,
                            chunks: 0,
                        },
                    )
                } else {
                    None
                }
            },
            None => None,
        }
    }

    /// Takes in a chunk of `len` bytes.  Every chunk that follows
    /// [`CHUNKS_PER_REPORT`] unreported ones yields a progress report and
    /// starts the count anew.
    pub fn on_chunk(&mut self, len: usize) -> (r: Option<UpdatePayload>)
        requires
            old(self)@.bytes_downloaded + len <= usize::MAX,
        ensures
            final(self)@.publishedfileid == old(self)@.publishedfileid,
            final(self)@.bytes_total == old(self)@.bytes_total,
            final(self)@.bytes_downloaded == old(self)@.bytes_downloaded + len,
            old(self)@.chunks < CHUNKS_PER_REPORT ==> r is None && final(self)@.chunks == old(
                self,
            )@.chunks + 1,
            old(self)@.chunks >= CHUNKS_PER_REPORT ==> final(self)@.chunks == 0 && r == Some(
                UpdatePayload {
                    publishedfileid: old(self)@.publishedfileid,
                    bytes_downloaded: final(self)@.bytes_downloaded,
                    bytes_total: old(self)@.bytes_total,
                    complete: false,
                },
            ),
    {
        proof {
            use_type_invariant(&*self);
        }
        let downloaded = self.bytes_downloaded + len;
        if self.chunks >= CHUNKS_PER_REPORT {
            let report = UpdatePayload {
                publishedfileid: self.publishedfileid,
                bytes_downloaded: downloaded,
                bytes_total: self.bytes_total,
                complete: false,
            };
            self.bytes_downloaded = downloaded;
            self.chunks = 0;
            Some(report)
        } else {
            let chunks = self.chunks + 1;
            self.bytes_downloaded = downloaded;
            self.chunks = chunks;
            None
        }
    }

    /// Number of bytes taken in so far.
    pub fn bytes_downloaded(&self) -> (n: usize)
        ensures
            n == self@.bytes_downloaded,
    {
        self.bytes_downloaded
    }

    /// The report that closes the download.
    pub fn finish(&self) -> (r: UpdatePayload)
        ensures
            r == (UpdatePayload {
                publishedfileid: self@.publishedfileid,
                bytes_downloaded: self@.bytes_downloaded,
                bytes_total: self@.bytes_total,
                complete: true,
            }),
    {
        UpdatePayload {
            publishedfileid: self.publishedfileid,
            bytes_downloaded: self.bytes_downloaded,
            bytes_total: self.bytes_total,
            complete: true,
        }
    }
}


/// The file names of a download that is about to start.
#[derive(Clone, Debug)]
pub struct DownloadPlan {
    /// The record of the item to download.
    pub item: CatalogItem,
    /// Name of the file to write while the download runs.
    pub part_file: String,
    /// Name of the file that the finished download is moved to.
    pub dest_file: String,
}

/// The catalog items that wait to be downloaded.  The item added last is
/// processed first.
pub struct DownloadManager {
    downloads: Vec<CatalogItem>,
}

impl DownloadManager {
    /// The records that wait, oldest first.
    pub closed spec fn waiting(&self) -> Seq<CatalogItem> {
        self.downloads@
    }

    /// A manager with nothing to download.
    pub fn new() -> (r: DownloadManager)
        ensures
            r.waiting().len() == 0,
    {
        DownloadManager { downloads: Vec::new() }
    }

    /// Number of items that wait.
    pub fn count(&self) -> (n: usize)
        ensures
            n == self.waiting().len(),
    {
        self.downloads.len()
    }

    /// Adds `item` and returns the number of items that wait then.
    pub fn add_item(&mut self, item: CatalogItem) -> (n: usize)
        ensures
            final(self).waiting() == old(self).waiting().push(item),
            n == old(self).waiting().len() + 1,
    {
        self.downloads.push(item);
        self.downloads.len()
    }

    /// Forgets every item that waits.
    pub fn clear(&mut self)
        ensures
            final(self).waiting().len() == 0,
    {
        self.downloads.clear()
    }

    /// Takes the item added last off the queue and names its files: the
    /// item's id followed by `.vpk`, and by `.vpk.part` while it is under
    /// way.  `None` where nothing waits.
    pub fn process(&mut self) -> (r: Option<DownloadPlan>)
        ensures
            match r {
                Some(plan) => {
                    &&& old(self).waiting().len() > 0
                    &&& plan.item == old(self).waiting().last()
                    &&& final(self).waiting() == old(self).waiting().drop_last()
                    &&& plan.dest_file@ == plan.item.publishedfileid@ + ".vpk"@
                    &&& plan.part_file@ == plan.item.publishedfileid@ + ".vpk.part"@
                },
                None => old(self).waiting().len() == 0 && final(self).waiting().len() == 0,
            },
    {
        match self.downloads.pop() {
            None => None,
            Some(item) => {
                let mut dest_file = item.publishedfileid.clone();
                dest_file.append(".vpk");
                let mut part_file = item.publishedfileid.clone();
                part_file.append(".vpk.part");
                Some(DownloadPlan { item, part_file, dest_file })
            },
        }
    }
}

} // verus!
