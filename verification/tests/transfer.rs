use l4d2_addon_manager::catalog::CatalogItem;
use l4d2_addon_manager::transfer::{
    archive_file_name, part_file_name, Download, DownloadManager, ErrorPayload, UpdatePayload,
    CHUNKS_PER_REPORT,
};

fn item(size: &str) -> CatalogItem {
    CatalogItem {
        publishedfileid: String::from("555"),
        title: String::from("t"),
        time_updated: 0,
        file_size: String::from(size),
        file_url: None,
    }
}

#[test]
fn file_names_of_a_download() {
    assert_eq!(archive_file_name(2468013), "2468013.vpk");
    assert_eq!(part_file_name(2468013), "2468013.vpk.part");
    assert_eq!(archive_file_name(0), "0.vpk");
}

#[test]
fn a_download_needs_a_readable_size() {
    assert!(Download::start(555, &item("1000")).is_some());
    assert!(Download::start(555, &item("0")).is_some());
    assert!(Download::start(555, &item("")).is_none());
    assert!(Download::start(555, &item("big")).is_none());
    assert!(Download::start(555, &item("-1")).is_none());
    assert!(Download::start(555, &item("99999999999999999999999999")).is_none());
}

#[test]
fn progress_is_reported_every_hundred_and_first_chunk() {
    assert_eq!(CHUNKS_PER_REPORT, 100);
    let mut download = Download::start(555, &item("100000")).expect("starts");
    for _ in 0..100 {
        assert_eq!(download.on_chunk(10), None);
    }
    assert_eq!(download.bytes_downloaded(), 1000);
    assert_eq!(
        download.on_chunk(10),
        Some(UpdatePayload {
            publishedfileid: 555,
            bytes_downloaded: 1010,
            bytes_total: 100000,
            complete: false,
        })
    );
    for _ in 0..100 {
        assert_eq!(download.on_chunk(1), None);
    }
    assert_eq!(
        download.on_chunk(0),
        Some(UpdatePayload {
            publishedfileid: 555,
            bytes_downloaded: 1110,
            bytes_total: 100000,
            complete: false,
        })
    );
}

#[test]
fn the_last_report_is_complete() {
    let mut download = Download::start(7, &item("30")).expect("starts");
    assert_eq!(
        download.finish(),
        UpdatePayload { publishedfileid: 7, bytes_downloaded: 0, bytes_total: 30, complete: true }
    );
    download.on_chunk(10);
    download.on_chunk(20);
    assert_eq!(
        download.finish(),
        UpdatePayload { publishedfileid: 7, bytes_downloaded: 30, bytes_total: 30, complete: true }
    );
}

#[test]
fn a_failure_report_names_the_item() {
    let report = ErrorPayload { publishedfileid: 9, error: String::from("timed out") };
    assert_eq!(report.publishedfileid, 9);
    assert_eq!(report.error, "timed out");
}

#[test]
fn the_queue_hands_out_the_latest_item_first() {
    let mut queue = DownloadManager::new();
    assert_eq!(queue.count(), 0);
    assert!(queue.process().is_none());
    let mut first = item("1");
    first.publishedfileid = String::from("111");
    let mut second = item("2");
    second.publishedfileid = String::from("222");
    assert_eq!(queue.add_item(first), 1);
    assert_eq!(queue.add_item(second), 2);
    assert_eq!(queue.count(), 2);
    let plan = queue.process().expect("an item waits");
    assert_eq!(plan.item.publishedfileid, "222");
    assert_eq!(plan.item.file_size, "2");
    assert_eq!(plan.dest_file, "222.vpk");
    assert_eq!(plan.part_file, "222.vpk.part");
    assert_eq!(queue.count(), 1);
    queue.clear();
    assert_eq!(queue.count(), 0);
    assert!(queue.process().is_none());
}
