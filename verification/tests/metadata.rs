use l4d2_addon_manager::archive::{ArchiveHandle, FormatError, ReadError};
use l4d2_addon_manager::keyvalues::parse_document;
use l4d2_addon_manager::metadata::{
    decode_addon_info, decode_descriptor, decode_mission, decode_mission_info, descriptor_entry,
    extract, get_addon_data, get_mission_data, mission_entry, AddonDataError, ExtractError,
    ParseError,
};

fn cstr(text: &str) -> Vec<u8> {
    let mut out = text.as_bytes().to_vec();
    out.push(0);
    out
}

fn record(offset: u32, length: u32) -> Vec<u8> {
    let mut out = Vec::new();
    out.extend_from_slice(&0u32.to_le_bytes());
    out.extend_from_slice(&0u16.to_le_bytes());
    out.extend_from_slice(&0x7FFFu16.to_le_bytes());
    out.extend_from_slice(&offset.to_le_bytes());
    out.extend_from_slice(&length.to_le_bytes());
    out.extend_from_slice(&0xFFFFu16.to_le_bytes());
    out
}

/// An archive of text files, each given by directory, name and content.
fn archive_of(files: &[(&str, &str, &[u8])]) -> Vec<u8> {
    let mut tree = cstr("txt");
    let mut payload: Vec<u8> = Vec::new();
    for (dir, name, content) in files {
        tree.extend(cstr(dir));
        tree.extend(cstr(name));
        tree.extend(record(payload.len() as u32, content.len() as u32));
        tree.extend(cstr(""));
        payload.extend_from_slice(content);
    }
    tree.extend(cstr(""));
    tree.extend(cstr(""));
    let mut out = Vec::new();
    out.extend_from_slice(&0x55AA1234u32.to_le_bytes());
    out.extend_from_slice(&1u32.to_le_bytes());
    out.extend_from_slice(&(tree.len() as u32).to_le_bytes());
    out.extend(tree);
    out.extend(payload);
    out
}

fn info_of(text: &str) -> Result<l4d2_addon_manager::metadata::AddonInfo, ParseError> {
    decode_addon_info(&parse_document(text).expect("text follows the grammar"))
}

const DESCRIPTOR: &str = "\"AddonInfo\"\n{\n\t// a comment\n\taddonSteamAppID\t550\n\tAddonTitle\t\"My Campaign\"\n\taddonversion\t1.2\n\taddonAuthor\t\"Someone\"\n\tAddonDescription\t\"Line \\\"one\\\"\"\n\taddonContent_Campaign\t1\n\taddonContent_Map\t\"1\"\n\taddonContent_Skin\t0\n}\n";

const MISSION: &str = "\"mission\"\n{\n\t\"Name\"\t\"Cold\"\n\t\"modes\"\n\t{\n\t\t\"coop\"\n\t\t{\n\t\t\t\"2\"\n\t\t\t{\n\t\t\t\t\"Map\" \"c2\"\n\t\t\t\t\"DisplayName\" \"Second\"\n\t\t\t\t\"Image\" \"maps/c2\"\n\t\t\t}\n\t\t\t\"1\"\n\t\t\t{\n\t\t\t\t\"Map\" \"c1\"\n\t\t\t\t\"DisplayName\" \"First\"\n\t\t\t\t\"Image\" \"maps/c1\"\n\t\t\t\t\"Extra\" \"x\"\n\t\t\t}\n\t\t\t\"10\"\n\t\t\t{\n\t\t\t\t\"map\" \"c10\"\n\t\t\t\t\"displayname\" \"Tenth\"\n\t\t\t\t\"image\" \"maps/c10\"\n\t\t\t}\n\t\t}\n\t\t\"survival\"\n\t\t{\n\t\t}\n\t\t\"scavenge\"\n\t\t{\n\t\t\t\"x\" \"y\"\n\t\t}\n\t}\n}\n";

#[test]
fn parse_document_builds_the_tree() {
    let doc = parse_document("root { b \"two\" a { x 1 } b three }").expect("parses");
    assert_eq!(doc.key, "root");
    assert_eq!(doc.text, None);
    assert_eq!(doc.children.len(), 3);
    assert_eq!(doc.children[0].key, "a");
    assert_eq!(doc.children[0].text, None);
    assert_eq!(doc.children[0].children.len(), 1);
    assert_eq!(doc.children[0].children[0].key, "x");
    assert_eq!(doc.children[0].children[0].text.as_deref(), Some("1"));
    assert_eq!(doc.children[1].key, "b");
    assert_eq!(doc.children[1].text.as_deref(), Some("two"));
    assert_eq!(doc.children[2].key, "b");
    assert_eq!(doc.children[2].text.as_deref(), Some("three"));
    assert!(doc.children[2].children.is_empty());
}

#[test]
fn parse_document_resolves_escapes() {
    let doc = parse_document("k \"a\\tb\\\\c\\\"d\\ne\"").expect("parses");
    assert_eq!(doc.key, "k");
    assert_eq!(doc.text.as_deref(), Some("a\tb\\c\"d\ne"));
}

#[test]
fn parse_document_refuses_what_breaks_the_grammar() {
    assert!(parse_document("").is_none());
    assert!(parse_document("key").is_none());
    assert!(parse_document("key {").is_none());
    assert!(parse_document("key { a }").is_none());
    assert!(parse_document("a b c d").is_none());
}

#[test]
fn descriptor_is_decoded() {
    let info = info_of(DESCRIPTOR).expect("decodes");
    assert_eq!(info.title, "My Campaign");
    assert_eq!(info.version.as_deref(), Some("1.2"));
    assert_eq!(info.author.as_deref(), Some("Someone"));
    assert_eq!(info.description.as_deref(), Some("Line \"one\""));
    assert!(!info.content_script);
    assert!(info.content_campaign);
    assert!(info.content_map);
    assert!(!info.content_music);
    assert!(!info.content_sound);
    assert!(!info.content_skin);
    assert!(!info.content_weapon);
}

#[test]
fn title_spellings_fill_the_same_field() {
    for key in ["AddonTitle", "addonTitle", "addontitle", "ADDONTITLE"] {
        let info = info_of(&format!("AddonInfo {{ {} \"Same\" }}", key)).expect("decodes");
        assert_eq!(info.title, "Same");
        assert_eq!(info.version, None);
    }
}

#[test]
fn every_field_has_its_key() {
    let text = "x { addontitle t addonVersion v ADDONAUTHOR a addonDescription d \
                addonContent_Script 1 addonContent_Campaign 1 addonContent_Map 1 \
                AddonContent_Music 1 addoncontent_sound 1 addonContent_Skin 1 \
                addonContent_Weapon 1 }";
    let info = info_of(text).expect("decodes");
    assert_eq!(info.title, "t");
    assert_eq!(info.version.as_deref(), Some("v"));
    assert_eq!(info.author.as_deref(), Some("a"));
    assert_eq!(info.description.as_deref(), Some("d"));
    assert!(info.content_script && info.content_campaign && info.content_map);
    assert!(info.content_music && info.content_sound && info.content_skin);
    assert!(info.content_weapon);
}

#[test]
fn absent_fields_take_their_defaults() {
    let info = info_of("x { addontitle \"\" }").expect("decodes");
    assert_eq!(info.title, "");
    assert_eq!(info.version, None);
    assert_eq!(info.author, None);
    assert_eq!(info.description, None);
    assert!(!info.content_script && !info.content_campaign && !info.content_map);
    assert!(!info.content_music && !info.content_sound && !info.content_skin);
    assert!(!info.content_weapon);
}

#[test]
fn unknown_keys_are_ignored() {
    let info = info_of("x { title no addontitle yes nested { addontitle deep } }").expect("ok");
    assert_eq!(info.title, "yes");
}

#[test]
fn descriptor_errors() {
    assert_eq!(info_of("x y").err(), Some(ParseError::NotAnObject));
    assert_eq!(info_of("x { }").err(), Some(ParseError::MissingField));
    assert_eq!(info_of("x { addonversion 1 }").err(), Some(ParseError::MissingField));
    assert_eq!(
        info_of("x { addontitle a AddonTitle b }").err(),
        Some(ParseError::DuplicateField)
    );
    assert_eq!(
        info_of("x { addontitle a addontitle b }").err(),
        Some(ParseError::DuplicateField)
    );
    assert_eq!(info_of("x { addontitle { } }").err(), Some(ParseError::ExpectedText));
    assert_eq!(
        info_of("x { addontitle a addoncontent_map yes }").err(),
        Some(ParseError::InvalidFlag)
    );
    assert_eq!(
        info_of("x { addontitle a addoncontent_map 2 }").err(),
        Some(ParseError::InvalidFlag)
    );
    assert_eq!(
        info_of("x { addontitle a addonauthor { } }").err(),
        Some(ParseError::ExpectedText)
    );
}

#[test]
fn errors_are_reported_in_field_order() {
    // The title comes first among the fields, whatever the order in the text.
    assert_eq!(
        info_of("x { addoncontent_map 7 addonversion { } }").err(),
        Some(ParseError::MissingField)
    );
    assert_eq!(
        info_of("x { addoncontent_map 7 addonversion { } addontitle t }").err(),
        Some(ParseError::ExpectedText)
    );
}

#[test]
fn mission_is_decoded() {
    let doc = parse_document(MISSION).expect("parses");
    let info = decode_mission_info(&doc).expect("decodes");
    let modes = info.modes.expect("modes");
    let coop = modes.coop.expect("coop");
    assert_eq!(coop.len(), 3);
    assert_eq!(coop.keys().copied().collect::<Vec<u64>>(), vec![1, 2, 10]);
    assert_eq!(coop[&1].map, "c1");
    assert_eq!(coop[&1].display_name, "First");
    assert_eq!(coop[&1].image, "maps/c1");
    assert_eq!(coop[&2].map, "c2");
    assert_eq!(coop[&10].map, "c10");
    assert_eq!(coop[&10].display_name, "Tenth");
    assert!(modes.versus.is_none());
    assert_eq!(modes.survival.expect("survival").len(), 0);
}

#[test]
fn mission_without_modes() {
    let doc = parse_document("mission { Name x }").expect("parses");
    assert!(decode_mission_info(&doc).expect("decodes").modes.is_none());
}

#[test]
fn mission_chapter_that_comes_again_replaces() {
    let text = "m { modes { coop { 1 { Map a DisplayName b Image c } \
                +1 { Map x DisplayName y Image z } } } }";
    let doc = parse_document(text).expect("parses");
    let coop = decode_mission_info(&doc).expect("decodes").modes.expect("modes").coop.expect("c");
    assert_eq!(coop.len(), 1);
    // "+1" sorts before "1", so the pair keyed "1" is the later one.
    assert_eq!(coop[&1].map, "a");
}

#[test]
fn mission_errors() {
    let bad = |text: &str| decode_mission_info(&parse_document(text).expect("parses")).err();
    assert_eq!(bad("m x"), Some(ParseError::NotAnObject));
    assert_eq!(bad("m { modes x }"), Some(ParseError::NotAnObject));
    assert_eq!(bad("m { modes { } Modes { } }"), Some(ParseError::DuplicateField));
    assert_eq!(bad("m { modes { coop x } }"), Some(ParseError::NotAnObject));
    assert_eq!(
        bad("m { modes { coop { one { Map a DisplayName b Image c } } } }"),
        Some(ParseError::InvalidChapterIndex)
    );
    assert_eq!(
        bad("m { modes { coop { 1 { Map a DisplayName b } } } }"),
        Some(ParseError::MissingField)
    );
    assert_eq!(bad("m { modes { versus { 1 x } } }"), Some(ParseError::NotAnObject));
    assert_eq!(
        bad("m { modes { survival { 1 { Map { } DisplayName b Image c } } } }"),
        Some(ParseError::ExpectedText)
    );
}

#[test]
fn addon_data_of_a_whole_archive() {
    let data = archive_of(&[
        ("materials", "readme", b"nothing"),
        (" ", "addoninfo", DESCRIPTOR.as_bytes()),
        ("missions", "cold", MISSION.as_bytes()),
    ]);
    let found = get_addon_data(data).expect("reads");
    assert_eq!(found.info.expect("info").title, "My Campaign");
    let coop = found.mission_info.expect("mission").modes.expect("modes").coop.expect("coop");
    assert_eq!(coop[&2].display_name, "Second");
}

#[test]
fn archive_without_descriptor_is_no_error() {
    let data = archive_of(&[("materials", "readme", b"nothing")]);
    let found = get_addon_data(data).expect("no error");
    assert!(found.info.is_none());
    assert!(found.mission_info.is_none());

    let data = archive_of(&[("", "addoninfo", DESCRIPTOR.as_bytes())]);
    assert!(get_addon_data(data).expect("no error").info.is_none());

    let handle = ArchiveHandle::open(archive_of(&[])).expect("opens");
    assert!(matches!(extract(&handle), Ok(None)));
    assert!(get_mission_data(&handle).is_none());
}

#[test]
fn mission_is_kept_where_the_descriptor_is_absent() {
    let data = archive_of(&[("missions", "cold", MISSION.as_bytes())]);
    let found = get_addon_data(data).expect("no error");
    assert!(found.info.is_none());
    assert!(found.mission_info.is_some());
}

#[test]
fn addon_data_errors() {
    assert_eq!(
        get_addon_data(vec![1, 2, 3]).err(),
        Some(AddonDataError::Format(FormatError::Truncated))
    );
    let data = archive_of(&[(" ", "addoninfo", b"\"AddonInfo\" {")]);
    assert_eq!(get_addon_data(data).err(), Some(AddonDataError::Descriptor(ExtractError::Syntax)));
    let data = archive_of(&[(" ", "addoninfo", b"AddonInfo { }")]);
    assert_eq!(
        get_addon_data(data).err(),
        Some(AddonDataError::Descriptor(ExtractError::Decode(ParseError::MissingField)))
    );
    let mut data = archive_of(&[(" ", "addoninfo", DESCRIPTOR.as_bytes())]);
    data.truncate(data.len() - 1);
    assert_eq!(
        get_addon_data(data).err(),
        Some(AddonDataError::Descriptor(ExtractError::Read(ReadError::ShortRead)))
    );
}

#[test]
fn descriptor_bytes_are_decoded_lossily() {
    let mut content = b"AddonInfo { addontitle \"caf".to_vec();
    content.extend_from_slice(&[0xC3, 0xA9, 0xFF]);
    content.extend_from_slice(b"\" }");
    let data = archive_of(&[(" ", "addoninfo", &content)]);
    let info = get_addon_data(data).expect("reads").info.expect("info");
    assert_eq!(info.title, "caf\u{e9}\u{fffd}");
}

#[test]
fn the_first_mission_file_counts() {
    let other = "m { modes { versus { 1 { Map v DisplayName w Image x } } } }";
    let data = archive_of(&[
        ("missions", "notes.md", b"x"),
        ("mission", "early", other.as_bytes()),
        ("missions", "cold", MISSION.as_bytes()),
        ("missions", "late", other.as_bytes()),
    ]);
    let handle = ArchiveHandle::open(data).expect("opens");
    // "missions/notes.md.txt" is the first entry under missions/ that ends in .txt,
    // and it does not follow the grammar.
    assert!(get_mission_data(&handle).is_none());

    let data = archive_of(&[
        ("mission", "early", other.as_bytes()),
        ("missions/sub", "cold", MISSION.as_bytes()),
        ("missions", "late", other.as_bytes()),
    ]);
    let handle = ArchiveHandle::open(data).expect("opens");
    let modes = get_mission_data(&handle).expect("mission").modes.expect("modes");
    assert!(modes.coop.is_some());
    assert!(modes.versus.is_none());
}

#[test]
fn mission_that_does_not_decode_is_dropped() {
    let data = archive_of(&[
        (" ", "addoninfo", DESCRIPTOR.as_bytes()),
        ("missions", "bad", b"m { modes x }"),
    ]);
    let found = get_addon_data(data).expect("reads");
    assert!(found.info.is_some());
    assert!(found.mission_info.is_none());
}

#[test]
fn descriptor_bytes_are_decoded() {
    let info = decode_descriptor(DESCRIPTOR.as_bytes()).expect("decodes");
    assert_eq!(info.title, "My Campaign");
    assert!(info.content_campaign);
    assert_eq!(decode_descriptor(b"{").err(), Some(ExtractError::Syntax));
    assert_eq!(decode_descriptor(b"").err(), Some(ExtractError::Syntax));
    assert_eq!(
        decode_descriptor(b"a { addontitle { } }").err(),
        Some(ExtractError::Decode(ParseError::ExpectedText))
    );
    assert_eq!(decode_descriptor(b"a b").err(), Some(ExtractError::Decode(ParseError::NotAnObject)));
}

#[test]
fn mission_bytes_are_decoded() {
    let info = decode_mission(MISSION.as_bytes()).expect("decodes");
    assert_eq!(info.modes.expect("modes").coop.expect("coop").len(), 3);
    assert!(decode_mission(b"m {").is_none());
    assert!(decode_mission(b"m { modes x }").is_none());
    assert!(decode_mission(b"m { }").expect("decodes").modes.is_none());
}

#[test]
fn descriptor_entries_are_found() {
    let data = archive_of(&[
        ("materials", "readme", b"nothing"),
        (" ", "addoninfo", b"abc"),
        ("missions", "one", b"de"),
        ("missions", "two", b"f"),
    ]);
    let handle = ArchiveHandle::open(data).expect("opens");
    let descriptor = descriptor_entry(&handle).expect("found");
    assert_eq!(descriptor.path, " /addoninfo.txt");
    assert_eq!(descriptor.data_offset, 7);
    assert_eq!(descriptor.data_length, 3);
    let mission = mission_entry(&handle).expect("found");
    assert_eq!(mission.path, "missions/one.txt");
    assert_eq!(mission.data_offset, 10);

    let handle = ArchiveHandle::open(archive_of(&[("a", "b", b"c")])).expect("opens");
    assert!(descriptor_entry(&handle).is_none());
    assert!(mission_entry(&handle).is_none());
}
