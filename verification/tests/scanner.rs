use l4d2_addon_manager::catalog::{CatalogItem, CatalogResolver};
use l4d2_addon_manager::metadata::AddonData;
use l4d2_addon_manager::scanner::{
    build_entries, build_entry, candidate_id, collect_candidates, file_stem, is_archive_name,
    select_archives, AddonEntry, FileStat, ListedEntry, ScannedFile,
};
use l4d2_addon_manager::workshop_id::IdPattern;

fn pattern() -> IdPattern {
    IdPattern::new(4).expect("the expression is accepted")
}

fn item(id: u32, title: &str) -> CatalogItem {
    CatalogItem {
        publishedfileid: id.to_string(),
        title: String::from(title),
        time_updated: 17,
        file_size: String::from("99"),
        file_url: None,
    }
}

fn file(name: &str, size: u64) -> ScannedFile {
    ScannedFile {
        stat: FileStat {
            file_name: String::from(name),
            file_size: size,
            last_update_time: Some(size + 1),
            create_time: None,
        },
        addon_data: None,
    }
}

fn listing(list: &[(&str, bool)]) -> Vec<ListedEntry> {
    list.iter().map(|(name, is_file)| ListedEntry { name: name.to_string(), is_file: *is_file }).collect()
}

#[test]
fn archives_end_in_vpk() {
    assert!(is_archive_name("a.vpk"));
    assert!(is_archive_name("123456.vpk"));
    assert!(is_archive_name(".vpk"));
    assert!(!is_archive_name("a.vpk.disabled"));
    assert!(!is_archive_name("a.VPK"));
    assert!(!is_archive_name("a.vpk "));
    assert!(!is_archive_name("avpk"));
    assert!(!is_archive_name("123_ws.json"));
    assert!(!is_archive_name(""));
}

#[test]
fn select_archives_keeps_listing_order() {
    let listed = listing(&[
        ("b.vpk", true),
        ("readme.txt", true),
        ("a.vpk", true),
        ("workshop", false),
        ("1_ws.json", true),
        ("c.vpk", true),
    ]);
    assert_eq!(select_archives(&listed), vec![0, 2, 5]);
    assert_eq!(select_archives(&listing(&[("x", true), ("y", false)])), Vec::<usize>::new());
    assert_eq!(select_archives(&Vec::new()), Vec::<usize>::new());
}

#[test]
fn select_archives_leaves_directories_out() {
    let listed = listing(&[
        ("a.vpk", true),
        ("b.txt", true),
        ("c.vpk.disabled", true),
        ("d.vpk", false),
        ("sub", false),
    ]);
    assert_eq!(select_archives(&listed), vec![0]);
    assert_eq!(select_archives(&listing(&[("d.vpk", false)])), Vec::<usize>::new());
}

#[test]
fn file_stem_cuts_the_last_extension() {
    assert_eq!(file_stem("123456.vpk"), "123456");
    assert_eq!(file_stem("a.b.vpk"), "a.b");
    assert_eq!(file_stem("noext"), "noext");
    assert_eq!(file_stem(".vpk"), ".vpk");
    assert_eq!(file_stem("a."), "a");
    assert_eq!(file_stem(""), "");
    assert_eq!(file_stem("caf\u{e9}.vpk"), "caf\u{e9}");
}

#[test]
fn candidate_id_looks_at_the_stem() {
    let p = pattern();
    assert_eq!(candidate_id(&p, "2468013.vpk"), Some(2468013));
    assert_eq!(candidate_id(&p, "addon.1234"), None);
    assert_eq!(candidate_id(&p, "addon.1234.vpk"), Some(1234));
    assert_eq!(candidate_id(&p, "campaign.vpk"), None);
    assert_eq!(candidate_id(&p, "v12.vpk"), None);
}

#[test]
fn candidates_are_collected_once_each() {
    let files = vec![
        file("111111.vpk", 1),
        file("plain.vpk", 2),
        file("222222.vpk", 3),
        file("copy of 111111.vpk", 4),
        file("12.vpk", 5),
    ];
    assert_eq!(collect_candidates(&pattern(), &files), vec![111111, 222222]);
    assert_eq!(collect_candidates(&pattern(), &Vec::new()), Vec::<u32>::new());
}

#[test]
fn a_scan_returns_one_entry_per_file() {
    let p = pattern();
    let mut resolver = CatalogResolver::new();
    resolver.add_candidate(111111, Some(item(111111, "first")));
    resolver.record_item(item(222222, "second"));
    let files = vec![
        file("111111.vpk", 10),
        file("plain.vpk", 20),
        file("222222.vpk", 30),
        file("333333.vpk", 40),
        file("copy of 111111.vpk", 50),
    ];
    let entries: Vec<AddonEntry> = build_entries(&p, files, &resolver);
    assert_eq!(entries.len(), 5);
    let got: Vec<(&str, u64, Option<&str>)> = entries
        .iter()
        .map(|e| (e.file_name.as_str(), e.file_size, e.workshop_info.as_ref().map(|i| i.title.as_str())))
        .collect();
    assert_eq!(
        got,
        vec![
            ("111111.vpk", 10, Some("first")),
            ("plain.vpk", 20, None),
            ("222222.vpk", 30, Some("second")),
            ("333333.vpk", 40, None),
            ("copy of 111111.vpk", 50, Some("first")),
        ]
    );
    assert_eq!(entries[0].last_update_time, Some(11));
    assert_eq!(entries[0].create_time, None);
    assert!(build_entries(&p, Vec::new(), &resolver).is_empty());
}

#[test]
fn a_name_without_an_id_gets_no_record() {
    let p = pattern();
    let mut resolver = CatalogResolver::new();
    for id in 0..50u32 {
        resolver.record_item(item(id, "any"));
    }
    let entry = build_entry(&p, file("campaign_v12.vpk", 1), &resolver);
    assert!(entry.workshop_info.is_none());
    assert_eq!(collect_candidates(&p, &vec![file("campaign_v12.vpk", 1)]), Vec::<u32>::new());
}

#[test]
fn an_entry_carries_what_was_read_from_the_archive() {
    let p = pattern();
    let resolver = CatalogResolver::new();
    let mut scanned = file("corrupt.vpk", 7);
    let entry = build_entry(&p, scanned, &resolver);
    assert!(entry.addon_data.is_none());
    scanned = file("empty.vpk", 8);
    scanned.addon_data = Some(AddonData { info: None, mission_info: None });
    scanned.stat.create_time = Some(5);
    let entry = build_entry(&p, scanned, &resolver);
    assert!(entry.addon_data.is_some());
    assert_eq!(entry.file_name, "empty.vpk");
    assert_eq!(entry.file_size, 8);
    assert_eq!(entry.create_time, Some(5));
}

#[test]
fn a_rescan_from_a_warm_cache_gives_the_same_entries() {
    let p = pattern();
    let listing = ["111111.vpk", "plain.vpk", "222222.vpk"];
    // First scan: nothing cached, both ids are fetched.
    let mut first = CatalogResolver::new();
    let files: Vec<ScannedFile> = listing.iter().map(|n| file(n, 1)).collect();
    for id in collect_candidates(&p, &files) {
        first.add_candidate(id, None);
    }
    let mut calls = 0;
    let mut cache: Vec<(u32, CatalogItem)> = Vec::new();
    loop {
        let batch = first.next_batch();
        if batch.is_empty() {
            break;
        }
        calls += 1;
        for id in batch {
            let fetched = item(id, "remote");
            if let Some(written) = first.record_item(fetched.duplicate()) {
                cache.push((written, fetched));
            }
        }
    }
    assert_eq!(calls, 1);
    let before = build_entries(&p, files, &first);
    // Second scan: every id is answered by the cache.
    let mut second = CatalogResolver::new();
    let files: Vec<ScannedFile> = listing.iter().map(|n| file(n, 1)).collect();
    for id in collect_candidates(&p, &files) {
        let hit = cache.iter().find(|(known, _)| *known == id).map(|(_, i)| i.duplicate());
        second.add_candidate(id, hit);
    }
    assert!(second.next_batch().is_empty());
    let after = build_entries(&p, files, &second);
    assert_eq!(before.len(), after.len());
    for (a, b) in before.iter().zip(after.iter()) {
        assert_eq!(a.file_name, b.file_name);
        assert_eq!(a.file_size, b.file_size);
        assert_eq!(a.last_update_time, b.last_update_time);
        assert_eq!(a.create_time, b.create_time);
        assert_eq!(a.workshop_info.is_some(), b.workshop_info.is_some());
        if let (Some(x), Some(y)) = (&a.workshop_info, &b.workshop_info) {
            assert_eq!(x.publishedfileid, y.publishedfileid);
            assert_eq!(x.title, y.title);
            assert_eq!(x.time_updated, y.time_updated);
            assert_eq!(x.file_size, y.file_size);
            assert_eq!(x.file_url, y.file_url);
        }
    }
}
