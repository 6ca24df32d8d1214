//! The package descriptor and the mission descriptor of an add-on: their
//! types, and the decoders that fill them from a key-value document.

use std::collections::BTreeMap;
use vstd::prelude::*;
use crate::archive::{
    entry_bytes, find_entry, parse_archive, ArchiveEntry, ArchiveEntryView, ArchiveHandle,
    ArchiveView,
    FormatError, ReadError,
};
use crate::keyvalues::{parse_document, KvNode};
use crate::text::{
    ends_with, eq_ignore_case, fold_case, has_prefix, has_suffix, parse_u64,
    parse_unsigned, starts_with, str_eq, string_from_utf8_lossy, text_view,
};

verus! {

/// Why a key-value document does not describe what was asked of it.
#[derive(Clone, Copy, Debug, PartialEq, Eq, Structural)]
pub enum ParseError {
    /// A text stands where an object of pairs is needed.
    NotAnObject,
    /// A recognised key occurs more than once in one object.
    DuplicateField,
    /// An object stands where a recognised key needs a text.
    ExpectedText,
    /// A content flag is neither `0` nor `1`.
    InvalidFlag,
    /// A required key is missing.
    MissingField,
    /// A chapter is keyed by something other than an unsigned number.
    InvalidChapterIndex,
}

/// The package descriptor of an add-on.
#[derive(Clone, Debug)]
pub struct AddonInfo {
    pub title: String,
    pub version: Option<String>,
    pub author: Option<String>,
    pub description: Option<String>,
    pub content_script: bool,
    /// Has several maps that form a campaign.
    pub content_campaign: bool,
    /// Has at least one map file.
    pub content_map: bool,
    pub content_music: bool,
    pub content_sound: bool,
    pub content_skin: bool,
    pub content_weapon: bool,
}

/// Mathematical value of an [`AddonInfo`].
pub struct AddonInfoView {
    pub title: Seq<char>,
    pub version: Option<Seq<char>>,
    pub author: Option<Seq<char>>,
    pub description: Option<Seq<char>>,
    pub content_script: bool,
    pub content_campaign: bool,
    pub content_map: bool,
    pub content_music: bool,
    pub content_sound: bool,
    pub content_skin: bool,
    pub content_weapon: bool,
}

impl View for AddonInfo {
    type V = AddonInfoView;

    open spec fn view(&self) -> AddonInfoView {
        AddonInfoView {
            title: self.title@,
            version: text_view(self.version),
            author: text_view(self.author),
            description: text_view(self.description),
            content_script: self.content_script,
            content_campaign: self.content_campaign,
            content_map: self.content_map,
            content_music: self.content_music,
            content_sound: self.content_sound,
            content_skin: self.content_skin,
            content_weapon: self.content_weapon,
        }
    }
}

/// Whether `key` spells `name` when letter case is ignored.  Every
/// historical spelling of a key differs from the others by case alone, so
/// one name per field stands for all of them.
pub open spec fn key_is(key: Seq<char>, name: Seq<char>) -> bool {
    fold_case(key) == fold_case(name)
}

/// Position of the first pair at or after `from` whose key spells `name`.
pub open spec fn first_match(pairs: Seq<KvNode>, name: Seq<char>, from: int) -> Option<int>
    decreases pairs.len() - from,
{
    if from < 0 || from >= pairs.len() {
        None
    } else if key_is(pairs[from].key@, name) {
        Some(from)
    } else {
        first_match(pairs, name, from + 1)
    }
}

/// Position of the one pair whose key spells `name`: `Ok(None)` where there
/// is none, an error where there are several.
pub open spec fn single_match(pairs: Seq<KvNode>, name: Seq<char>) -> Result<
    Option<int>,
    ParseError,
> {
    match first_match(pairs, name, 0) {
        None => Ok(None),
        Some(i) => if first_match(pairs, name, i + 1) is Some {
            Err(ParseError::DuplicateField)
        } else {
            Ok(Some(i))
        },
    }
}

/// The text stored under `name`, where the key is present.
pub open spec fn field_text(pairs: Seq<KvNode>, name: Seq<char>) -> Result<
    Option<Seq<char>>,
    ParseError,
> {
    match single_match(pairs, name) {
        Err(e) => Err(e),
        Ok(None) => Ok(None),
        Ok(Some(i)) => match pairs[i].text {
            None => Err(ParseError::ExpectedText),
            Some(t) => Ok(Some(t@)),
        },
    }
}

/// The text stored under `name`, which must be present.
pub open spec fn required_text(pairs: Seq<KvNode>, name: Seq<char>) -> Result<
    Seq<char>,
    ParseError,
> {
    match field_text(pairs, name) {
        Err(e) => Err(e),
        Ok(None) => Err(ParseError::MissingField),
        Ok(Some(t)) => Ok(t),
    }
}

/// The flag stored under `name`: `1` for set, `0` or an absent key for
/// unset.
pub open spec fn field_flag(pairs: Seq<KvNode>, name: Seq<char>) -> Result<bool, ParseError> {
    match field_text(pairs, name) {
        Err(e) => Err(e),
        Ok(None) => Ok(false),
        Ok(Some(t)) => if t == "1"@ {
            Ok(true)
        } else if t == "0"@ {
            Ok(false)
        } else {
            Err(ParseError::InvalidFlag)
        },
    }
}

/// First error among the results of reading the eleven descriptor fields,
/// in the order of the fields.
pub open spec fn first_error(
    title: Result<Seq<char>, ParseError>,
    texts: Seq<Result<Option<Seq<char>>, ParseError>>,
    flags: Seq<Result<bool, ParseError>>,
) -> Option<ParseError> {
    if title is Err {
        Some(title->Err_0)
    } else if texts[0] is Err {
        Some(texts[0]->Err_0)
    } else if texts[1] is Err {
        Some(texts[1]->Err_0)
    } else if texts[2] is Err {
        Some(texts[2]->Err_0)
    } else if flags[0] is Err {
        Some(flags[0]->Err_0)
    } else if flags[1] is Err {
        Some(flags[1]->Err_0)
    } else if flags[2] is Err {
        Some(flags[2]->Err_0)
    } else if flags[3] is Err {
        Some(flags[3]->Err_0)
    } else if flags[4] is Err {
        Some(flags[4]->Err_0)
    } else if flags[5] is Err {
        Some(flags[5]->Err_0)
    } else if flags[6] is Err {
        Some(flags[6]->Err_0)
    } else {
        None
    }
}

/// The package descriptor that the document `doc` holds.  The document's
/// own key is not looked at; unknown keys inside it are ignored.
pub open spec fn addon_info_of(doc: KvNode) -> Result<AddonInfoView, ParseError> {
    let pairs = doc.children@;
    let title = required_text(pairs, "addontitle"@);
    let texts = seq![
        field_text(pairs, "addonversion"@),
        field_text(pairs, "addonauthor"@),
        field_text(pairs, "addondescription"@),
    ];
    let flags = seq![
        field_flag(pairs, "addoncontent_script"@),
        field_flag(pairs, "addoncontent_campaign"@),
        field_flag(pairs, "addoncontent_map"@),
        field_flag(pairs, "addoncontent_music"@),
        field_flag(pairs, "addoncontent_sound"@),
        field_flag(pairs, "addoncontent_skin"@),
        field_flag(pairs, "addoncontent_weapon"@),
    ];
    if doc.text is Some {
        Err(ParseError::NotAnObject)
    } else {
        match first_error(title, texts, flags) {
            Some(e) => Err(e),
            None => Ok(
                AddonInfoView {
                    title: title->Ok_0,
                    version: texts[0]->Ok_0,
                    author: texts[1]->Ok_0,
                    description: texts[2]->Ok_0,
                    content_script: flags[0]->Ok_0,
                    content_campaign: flags[1]->Ok_0,
                    content_map: flags[2]->Ok_0,
                    content_music: flags[3]->Ok_0,
                    content_sound: flags[4]->Ok_0,
                    content_skin: flags[5]->Ok_0,
                    content_weapon: flags[6]->Ok_0,
                },
            ),
        }
    }
}

fn find_from(pairs: &Vec<KvNode>, name: &str, from: usize) -> (r: Option<usize>)
    ensures
        r matches Some(k) ==> from <= k < pairs.len(),
        match r {
            Some(k) => first_match(pairs@, name@, from as int) == Some(k as int),
            None => first_match(pairs@, name@, from as int) is None,
        },
{
    let n = pairs.len();
    let mut i: usize = from;
    while i < n
        invariant
            n == pairs@.len(),
            from <= i,
            first_match(pairs@, name@, from as int) == first_match(pairs@, name@, i as int),
        decreases n - i,
    {
        if eq_ignore_case(pairs[i].key.as_str(), name) {
            return Some(i);
        }
        i = i + 1;
    }
    None
}

fn find_single(pairs: &Vec<KvNode>, name: &str) -> (r: Result<Option<usize>, ParseError>)
    ensures
        r matches Ok(Some(k)) ==> k < pairs.len(),
        match r {
            Ok(Some(k)) => single_match(pairs@, name@) == Ok::<Option<int>, ParseError>(
                Some(k as int),
            ),
            Ok(None) => single_match(pairs@, name@) == Ok::<Option<int>, ParseError>(None),
            Err(e) => single_match(pairs@, name@) == Err::<Option<int>, ParseError>(e),
        },
{
    match find_from(pairs, name, 0) {
        None => Ok(None),
        Some(i) => match find_from(pairs, name, i + 1) {
            Some(_) => Err(ParseError::DuplicateField),
            None => Ok(Some(i)),
        },
    }
}

fn read_text(pairs: &Vec<KvNode>, name: &str) -> (r: Result<Option<String>, ParseError>)
    ensures
        match field_text(pairs@, name@) {
            Ok(t) => r matches Ok(s) && text_view(s) == t,
            Err(e) => r matches Err(x) && x == e,
        },
{
    match find_single(pairs, name) {
        Err(e) => Err(e),
        Ok(None) => Ok(None),
        Ok(Some(i)) => match &pairs[i].text {
            None => Err(ParseError::ExpectedText),
            Some(t) => Ok(Some(t.clone())),
        },
    }
}

fn read_required(pairs: &Vec<KvNode>, name: &str) -> (r: Result<String, ParseError>)
    ensures
        match required_text(pairs@, name@) {
            Ok(t) => r matches Ok(s) && s@ == t,
            Err(e) => r matches Err(x) && x == e,
        },
{
    match read_text(pairs, name) {
        Err(e) => Err(e),
        Ok(None) => Err(ParseError::MissingField),
        Ok(Some(t)) => Ok(t),
    }
}

fn read_flag(pairs: &Vec<KvNode>, name: &str) -> (r: Result<bool, ParseError>)
    ensures
        r == field_flag(pairs@, name@),
{
    match read_text(pairs, name) {
        Err(e) => Err(e),
        Ok(None) => Ok(false),
        Ok(Some(t)) => if str_eq(t.as_str(), "1") {
            Ok(true)
        } else if str_eq(t.as_str(), "0") {
            Ok(false)
        } else {
            Err(ParseError::InvalidFlag)
        },
    }
}

/// Decodes the package descriptor held in `doc`; see [`addon_info_of`].
pub fn decode_addon_info(doc: &KvNode) -> (r: Result<AddonInfo, ParseError>)
    ensures
        match addon_info_of(*doc) {
            Ok(v) => r matches Ok(info) && info@ == v,
            Err(e) => r matches Err(x) && x == e,
        },
{
    if doc.text.is_some() {
        return Err(ParseError::NotAnObject);
    }
    let pairs = &doc.children;
    let title = read_required(pairs, "addontitle")?;
    let version = read_text(pairs, "addonversion")?;
    let author = read_text(pairs, "addonauthor")?;
    let description = read_text(pairs, "addondescription")?;
    let content_script = read_flag(pairs, "addoncontent_script")?;
    let content_campaign = read_flag(pairs, "addoncontent_campaign")?;
    let content_map = read_flag(pairs, "addoncontent_map")?;
    let content_music = read_flag(pairs, "addoncontent_music")?;
    let content_sound = read_flag(pairs, "addoncontent_sound")?;
    let content_skin = read_flag(pairs, "addoncontent_skin")?;
    let content_weapon = read_flag(pairs, "addoncontent_weapon")?;
    Ok(
        AddonInfo {
            title,
            version,
            author,
            description,
            content_script,
            content_campaign,
            content_map,
            content_music,
            content_sound,
            content_skin,
            content_weapon,
        },
    )
}


/// One chapter of a campaign.
#[derive(Clone, Debug)]
pub struct MissionChapter {
    /// Identifier of the map that the chapter plays on.
    pub map: String,
    /// Name shown for the chapter.
    pub display_name: String,
    /// Reference to the chapter's picture.
    pub image: String,
}

/// The chapters of a campaign for each game mode, keyed by chapter number.
#[derive(Clone, Debug)]
pub struct MissionModes {
    pub coop: Option<BTreeMap<u64, MissionChapter>>,
    pub versus: Option<BTreeMap<u64, MissionChapter>>,
    pub survival: Option<BTreeMap<u64, MissionChapter>>,
}

/// The mission descriptor of a campaign add-on.
#[derive(Clone, Debug)]
pub struct MissionInfo {
    pub modes: Option<MissionModes>,
}

/// Mathematical value of a [`MissionChapter`].
pub struct MissionChapterView {
    pub map: Seq<char>,
    pub display_name: Seq<char>,
    pub image: Seq<char>,
}

/// Mathematical value of a [`MissionModes`].
pub struct MissionModesView {
    pub coop: Option<Map<u64, MissionChapterView>>,
    pub versus: Option<Map<u64, MissionChapterView>>,
    pub survival: Option<Map<u64, MissionChapterView>>,
}

/// Mathematical value of a [`MissionInfo`].
pub struct MissionInfoView {
    pub modes: Option<MissionModesView>,
}

impl View for MissionChapter {
    type V = MissionChapterView;

    open spec fn view(&self) -> MissionChapterView {
        MissionChapterView {
            map: self.map@,
            display_name: self.display_name@,
            image: self.image@,
        }
    }
}

/// The chapters of one mode by their views.
pub open spec fn chapters_view(chapters: Option<BTreeMap<u64, MissionChapter>>) -> Option<
    Map<u64, MissionChapterView>,
> {
    match chapters {
        Some(m) => Some(m@.map_values(|c: MissionChapter| c@)),
        None => None,
    }
}

impl View for MissionModes {
    type V = MissionModesView;

    open spec fn view(&self) -> MissionModesView {
        MissionModesView {
            coop: chapters_view(self.coop),
            versus: chapters_view(self.versus),
            survival: chapters_view(self.survival),
        }
    }
}

impl View for MissionInfo {
    type V = MissionInfoView;

    open spec fn view(&self) -> MissionInfoView {
        MissionInfoView {
            modes: match self.modes {
                Some(m) => Some(m@),
                None => None,
            },
        }
    }
}

/// The chapter that the object `node` describes.
pub open spec fn chapter_of(node: KvNode) -> Result<MissionChapterView, ParseError> {
    let map = required_text(node.children@, "Map"@);
    let display_name = required_text(node.children@, "DisplayName"@);
    let image = required_text(node.children@, "Image"@);
    if node.text is Some {
        Err(ParseError::NotAnObject)
    } else if map is Err {
        Err(map->Err_0)
    } else if display_name is Err {
        Err(display_name->Err_0)
    } else if image is Err {
        Err(image->Err_0)
    } else {
        Ok(
            MissionChapterView {
                map: map->Ok_0,
                display_name: display_name->Ok_0,
                image: image->Ok_0,
            },
        )
    }
}

/// The chapters that the pairs from position `from` on add to `acc`: each
/// key is a chapter number and each value a chapter; a number that comes
/// again replaces what it stood for.
pub open spec fn chapters_from(
    pairs: Seq<KvNode>,
    from: int,
    acc: Map<u64, MissionChapterView>,
) -> Result<Map<u64, MissionChapterView>, ParseError>
    decreases pairs.len() - from,
{
    if from < 0 || from >= pairs.len() {
        Ok(acc)
    } else {
        match parse_unsigned(pairs[from].key@, u64::MAX as nat) {
            None => Err(ParseError::InvalidChapterIndex),
            Some(n) => match chapter_of(pairs[from]) {
                Err(e) => Err(e),
                Ok(c) => chapters_from(pairs, from + 1, acc.insert(n as u64, c)),
            },
        }
    }
}

/// The chapters of the mode stored under `name`, where the key is present.
pub open spec fn mode_of(pairs: Seq<KvNode>, name: Seq<char>) -> Result<
    Option<Map<u64, MissionChapterView>>,
    ParseError,
> {
    match single_match(pairs, name) {
        Err(e) => Err(e),
        Ok(None) => Ok(None),
        Ok(Some(i)) => if pairs[i].text is Some {
            Err(ParseError::NotAnObject)
        } else {
            match chapters_from(pairs[i].children@, 0, Map::empty()) {
                Err(e) => Err(e),
                Ok(m) => Ok(Some(m)),
            }
        },
    }
}

/// The game modes that the object `node` describes.
pub open spec fn modes_of(node: KvNode) -> Result<MissionModesView, ParseError> {
    let coop = mode_of(node.children@, "coop"@);
    let versus = mode_of(node.children@, "versus"@);
    let survival = mode_of(node.children@, "survival"@);
    if node.text is Some {
        Err(ParseError::NotAnObject)
    } else if coop is Err {
        Err(coop->Err_0)
    } else if versus is Err {
        Err(versus->Err_0)
    } else if survival is Err {
        Err(survival->Err_0)
    } else {
        Ok(MissionModesView { coop: coop->Ok_0, versus: versus->Ok_0, survival: survival->Ok_0 })
    }
}

/// The mission descriptor that the document `doc` holds.
pub open spec fn mission_info_of(doc: KvNode) -> Result<MissionInfoView, ParseError> {
    if doc.text is Some {
        Err(ParseError::NotAnObject)
    } else {
        match single_match(doc.children@, "modes"@) {
            Err(e) => Err(e),
            Ok(None) => Ok(MissionInfoView { modes: None }),
            Ok(Some(i)) => match modes_of(doc.children@[i]) {
                Err(e) => Err(e),
                Ok(m) => Ok(MissionInfoView { modes: Some(m) }),
            },
        }
    }
}

fn decode_chapter(node: &KvNode) -> (r: Result<MissionChapter, ParseError>)
    ensures
        match chapter_of(*node) {
            Ok(v) => r matches Ok(c) && c@ == v,
            Err(e) => r matches Err(x) && x == e,
        },
{
    if node.text.is_some() {
        return Err(ParseError::NotAnObject);
    }
    let map = read_required(&node.children, "Map")?;
    let display_name = read_required(&node.children, "DisplayName")?;
    let image = read_required(&node.children, "Image")?;
    Ok(MissionChapter { map, display_name, image })
}

fn put_chapter(chapters: &mut BTreeMap<u64, MissionChapter>, index: u64, chapter: MissionChapter)
    ensures
        final(chapters)@ == old(chapters)@.insert(index, chapter),
{
    broadcast use vstd::laws_cmp::group_laws_cmp;

    chapters.insert(index, chapter);
}

fn decode_chapters(pairs: &Vec<KvNode>) -> (r: Result<BTreeMap<u64, MissionChapter>, ParseError>)
    ensures
        match chapters_from(pairs@, 0, Map::empty()) {
            Ok(v) => r matches Ok(m) && chapters_view(Some(m)) == Some(v),
            Err(e) => r matches Err(x) && x == e,
        },
{
    let mut chapters: BTreeMap<u64, MissionChapter> = BTreeMap::new();
    let n = pairs.len();
    let mut i: usize = 0;
    proof {
        assert(chapters@.map_values(|c: MissionChapter| c@) =~= Map::<
            u64,
            MissionChapterView,
        >::empty());
    }
    while i < n
        invariant
            n == pairs@.len(),
            i <= n,
            chapters_from(pairs@, 0, Map::empty()) == chapters_from(
                pairs@,
                i as int,
                chapters@.map_values(|c: MissionChapter| c@),
            ),
        decreases n - i,
    {
        let index = match parse_u64(pairs[i].key.as_str()) {
            None => {
                return Err(ParseError::InvalidChapterIndex);
            },
            Some(index) => index,
        };
        let chapter = decode_chapter(&pairs[i])?;
        let ghost before = chapters@;
        put_chapter(&mut chapters, index, chapter);
        proof {
            assert(chapters@.map_values(|c: MissionChapter| c@) =~= before.map_values(
                |c: MissionChapter| c@,
            ).insert(index, chapter@));
        }
        i = i + 1;
    }
    Ok(chapters)
}

fn decode_mode(pairs: &Vec<KvNode>, name: &str) -> (r: Result<
    Option<BTreeMap<u64, MissionChapter>>,
    ParseError,
>)
    ensures
        match mode_of(pairs@, name@) {
            Ok(v) => r matches Ok(m) && chapters_view(m) == v,
            Err(e) => r matches Err(x) && x == e,
        },
{
    match find_single(pairs, name) {
        Err(e) => Err(e),
        Ok(None) => Ok(None),
        Ok(Some(i)) => {
            if pairs[i].text.is_some() {
                return Err(ParseError::NotAnObject);
            }
            match decode_chapters(&pairs[i].children) {
                Err(e) => Err(e),
                Ok(m) => Ok(Some(m)),
            }
        },
    }
}

fn decode_modes(node: &KvNode) -> (r: Result<MissionModes, ParseError>)
    ensures
        match modes_of(*node) {
            Ok(v) => r matches Ok(m) && m@ == v,
            Err(e) => r matches Err(x) && x == e,
        },
{
    if node.text.is_some() {
        return Err(ParseError::NotAnObject);
    }
    let coop = decode_mode(&node.children, "coop")?;
    let versus = decode_mode(&node.children, "versus")?;
    let survival = decode_mode(&node.children, "survival")?;
    Ok(MissionModes { coop, versus, survival })
}

/// Decodes the mission descriptor held in `doc`; see [`mission_info_of`].
pub fn decode_mission_info(doc: &KvNode) -> (r: Result<MissionInfo, ParseError>)
    ensures
        match mission_info_of(*doc) {
            Ok(v) => r matches Ok(info) && info@ == v,
            Err(e) => r matches Err(x) && x == e,
        },
{
    if doc.text.is_some() {
        return Err(ParseError::NotAnObject);
    }
    match find_single(&doc.children, "modes") {
        Err(e) => Err(e),
        Ok(None) => Ok(MissionInfo { modes: None }),
        Ok(Some(i)) => match decode_modes(&doc.children[i]) {
            Err(e) => Err(e),
            Ok(m) => Ok(MissionInfo { modes: Some(m) }),
        },
    }
}


/// What was found inside one archive.
#[derive(Clone, Debug)]
pub struct AddonData {
    /// The package descriptor, where the archive has one.
    pub info: Option<AddonInfo>,
    /// The mission descriptor, where the archive has a readable one.
    pub mission_info: Option<MissionInfo>,
}

/// Mathematical value of an [`AddonData`].
pub struct AddonDataView {
    pub info: Option<AddonInfoView>,
    pub mission_info: Option<MissionInfoView>,
}

impl View for AddonData {
    type V = AddonDataView;

    open spec fn view(&self) -> AddonDataView {
        AddonDataView {
            info: match self.info {
                Some(i) => Some(i@),
                None => None,
            },
            mission_info: match self.mission_info {
                Some(m) => Some(m@),
                None => None,
            },
        }
    }
}

/// Why the package descriptor of an opened archive could not be decoded.
#[derive(Clone, Copy, Debug, PartialEq, Eq, Structural)]
pub enum ExtractError {
    /// The descriptor's bytes reach past the end of the file.
    Read(ReadError),
    /// The descriptor does not follow the key-value grammar.
    Syntax,
    /// The descriptor follows the grammar but not the descriptor's shape.
    Decode(ParseError),
}

/// Why no data could be taken from the bytes of a file.
#[derive(Clone, Copy, Debug, PartialEq, Eq, Structural)]
pub enum AddonDataError {
    /// The file is not a readable archive.
    Format(FormatError),
    /// The archive opened, but its package descriptor is unusable.
    Descriptor(ExtractError),
}

/// Whether an entry path names a mission descriptor: a text file in the
/// missions directory.
pub open spec fn is_mission_path(path: Seq<char>) -> bool {
    has_prefix(path, "missions/"@) && has_suffix(path, ".txt"@)
}

/// Position of the first entry at or after `from` that names a mission
/// descriptor.
pub open spec fn first_mission_entry(entries: Seq<ArchiveEntryView>, from: int) -> Option<int>
    decreases entries.len() - from,
{
    if from < 0 || from >= entries.len() {
        None
    } else if is_mission_path(entries[from].path) {
        Some(from)
    } else {
        first_mission_entry(entries, from + 1)
    }
}

/// What decoding makes of each outcome of reading a descriptor's text:
/// a text that the reader refuses is a syntax error, a document is decoded
/// by [`addon_info_of`].
pub open spec fn descriptor_outcome(parsed: Option<KvNode>) -> Result<
    AddonInfoView,
    ExtractError,
> {
    match parsed {
        None => Err(ExtractError::Syntax),
        Some(doc) => match addon_info_of(doc) {
            Err(e) => Err(ExtractError::Decode(e)),
            Ok(info) => Ok(info),
        },
    }
}

/// What decoding makes of each outcome of reading a mission's text: there
/// is a mission descriptor only where the text was read and decodes.
pub open spec fn mission_outcome(parsed: Option<KvNode>) -> Option<MissionInfoView> {
    match parsed {
        None => None,
        Some(doc) => match mission_info_of(doc) {
            Err(_) => None,
            Ok(info) => Some(info),
        },
    }
}

/// The value of a decoded descriptor or the error in its place.
pub open spec fn descriptor_view(r: Result<AddonInfo, ExtractError>) -> Result<
    AddonInfoView,
    ExtractError,
> {
    match r {
        Ok(info) => Ok(info@),
        Err(e) => Err(e),
    }
}

/// The value of an optional descriptor or the error in its place.
pub open spec fn extract_view(r: Result<Option<AddonInfo>, ExtractError>) -> Result<
    Option<AddonInfoView>,
    ExtractError,
> {
    match r {
        Ok(Some(info)) => Ok(Some(info@)),
        Ok(None) => Ok(None),
        Err(e) => Err(e),
    }
}

/// The value of an optional mission descriptor.
pub open spec fn mission_view(r: Option<MissionInfo>) -> Option<MissionInfoView> {
    match r {
        Some(info) => Some(info@),
        None => None,
    }
}

/// The value of what was taken from a file or the error in its place.
pub open spec fn addon_data_view(r: Result<AddonData, AddonDataError>) -> Result<
    AddonDataView,
    AddonDataError,
> {
    match r {
        Ok(data) => Ok(data@),
        Err(e) => Err(e),
    }
}

/// Whether `r` is a possible package descriptor of `archive`.
///
/// Without an entry ` /addoninfo.txt` (the leading space is part of the
/// path) there is none, and that is no error.  An entry that reaches past
/// the end of the file is a short read.  Otherwise the reader of key-value
/// text decides, and `r` is what [`descriptor_outcome`] makes of one of
/// its outcomes.
pub open spec fn extract_allows(
    archive: ArchiveView,
    r: Result<Option<AddonInfoView>, ExtractError>,
) -> bool {
    match find_entry(archive.entries, " /addoninfo.txt"@) {
        None => r == Ok::<Option<AddonInfoView>, ExtractError>(None),
        Some(entry) => match entry_bytes(
            archive.data,
            archive.payload_start,
            entry.data_offset,
            entry.data_length,
        ) {
            None => r == Err::<Option<AddonInfoView>, ExtractError>(
                ExtractError::Read(ReadError::ShortRead),
            ),
            Some(_) => exists|parsed: Option<KvNode>|
                r == match #[trigger] descriptor_outcome(parsed) {
                    Ok(info) => Ok::<Option<AddonInfoView>, ExtractError>(Some(info)),
                    Err(e) => Err(e),
                },
        },
    }
}

/// Whether `r` is a possible mission descriptor of `archive`.
///
/// There is none without an entry that names one, nor where the first
/// such entry reaches past the end of the file.  Otherwise the reader of
/// key-value text decides, and `r` is what [`mission_outcome`] makes of
/// one of its outcomes.
pub open spec fn mission_allows(archive: ArchiveView, r: Option<MissionInfoView>) -> bool {
    match first_mission_entry(archive.entries, 0) {
        None => r is None,
        Some(i) => match entry_bytes(
            archive.data,
            archive.payload_start,
            archive.entries[i].data_offset,
            archive.entries[i].data_length,
        ) {
            None => r is None,
            Some(_) => exists|parsed: Option<KvNode>| r == #[trigger] mission_outcome(parsed),
        },
    }
}

/// Whether `r` is a possible outcome of taking the descriptors out of the
/// file `data`.
///
/// A file that is no readable archive gives its format error, and nothing
/// else does.  Of a readable archive, an unusable package descriptor is
/// the error; otherwise both descriptors are handed out as far as they
/// are there.
pub open spec fn addon_data_allows(data: Seq<u8>, r: Result<AddonDataView, AddonDataError>) -> bool {
    match parse_archive(data) {
        Err(e) => r == Err::<AddonDataView, AddonDataError>(AddonDataError::Format(e)),
        Ok((entries, payload_start)) => {
            let archive = ArchiveView { data, entries, payload_start };
            match r {
                Err(AddonDataError::Format(_)) => false,
                Err(AddonDataError::Descriptor(e)) => extract_allows(archive, Err(e)),
                Ok(found) => extract_allows(archive, Ok(found.info)) && mission_allows(
                    archive,
                    found.mission_info,
                ),
            }
        },
    }
}

/// Decodes a descriptor from what the reader of key-value text made of its
/// text; see [`descriptor_outcome`].
pub fn descriptor_from(parsed: Option<KvNode>) -> (r: Result<AddonInfo, ExtractError>)
    ensures
        descriptor_view(r) == descriptor_outcome(parsed),
{
    match parsed {
        None => Err(ExtractError::Syntax),
        Some(doc) => match decode_addon_info(&doc) {
            Err(e) => Err(ExtractError::Decode(e)),
            Ok(info) => Ok(info),
        },
    }
}

/// Decodes a mission descriptor from what the reader of key-value text
/// made of its text; see [`mission_outcome`].
pub fn mission_from(parsed: Option<KvNode>) -> (r: Option<MissionInfo>)
    ensures
        mission_view(r) == mission_outcome(parsed),
{
    match parsed {
        None => None,
        Some(doc) => match decode_mission_info(&doc) {
            Err(_) => None,
            Ok(info) => Some(info),
        },
    }
}

/// Decodes the bytes of a descriptor entry: they are taken as UTF-8 with
/// malformed sequences replaced, read as key-value text and decoded.  The
/// result is what [`descriptor_outcome`] makes of what the reader gave.
pub fn decode_descriptor(bytes: &[u8]) -> (r: Result<AddonInfo, ExtractError>)
    ensures
        exists|parsed: Option<KvNode>| descriptor_view(r) == #[trigger] descriptor_outcome(parsed),
{
    let text = string_from_utf8_lossy(bytes);
    let parsed = parse_document(text.as_str());
    let ghost given = parsed;
    let r = descriptor_from(parsed);
    assert(descriptor_view(r) == descriptor_outcome(given));
    r
}

/// Decodes the bytes of a mission entry in the same way.  The result is
/// what [`mission_outcome`] makes of what the reader gave.
pub fn decode_mission(bytes: &[u8]) -> (r: Option<MissionInfo>)
    ensures
        exists|parsed: Option<KvNode>| mission_view(r) == #[trigger] mission_outcome(parsed),
{
    let text = string_from_utf8_lossy(bytes);
    let parsed = parse_document(text.as_str());
    let ghost given = parsed;
    let r = mission_from(parsed);
    assert(mission_view(r) == mission_outcome(given));
    r
}

/// Finds the entry that holds the package descriptor, if there is one.
pub fn descriptor_entry(archive: &ArchiveHandle) -> (r: Option<&ArchiveEntry>)
    ensures
        match find_entry(archive@.entries, " /addoninfo.txt"@) {
            Some(e) => r matches Some(x) && x@ == e,
            None => r is None,
        },
{
    archive.lookup(" /addoninfo.txt")
}

/// Finds the first entry that names a mission descriptor, if there is one.
pub fn mission_entry(archive: &ArchiveHandle) -> (r: Option<&ArchiveEntry>)
    ensures
        match first_mission_entry(archive@.entries, 0) {
            Some(i) => r matches Some(x) && 0 <= i < archive@.entries.len() && x@
                == archive@.entries[i],
            None => r is None,
        },
{
    let n = archive.len();
    let mut i: usize = 0;
    while i < n
        invariant
            n == archive@.entries.len(),
            i <= n,
            first_mission_entry(archive@.entries, 0) == first_mission_entry(
                archive@.entries,
                i as int,
            ),
        decreases n - i,
    {
        let entry = match archive.entry(i) {
            None => {
                return None;
            },
            Some(entry) => entry,
        };
        if starts_with(entry.path.as_str(), "missions/") && ends_with(entry.path.as_str(), ".txt") {
            return Some(entry);
        }
        i = i + 1;
    }
    None
}

/// Reads and decodes the package descriptor of an opened archive; see
/// [`extract_allows`].  An archive without a descriptor is no error.
pub fn extract(archive: &ArchiveHandle) -> (r: Result<Option<AddonInfo>, ExtractError>)
    ensures
        extract_allows(archive@, extract_view(r)),
{
    let entry = match descriptor_entry(archive) {
        None => {
            return Ok(None);
        },
        Some(entry) => entry,
    };
    let bytes = match archive.read_entry(entry) {
        Err(e) => {
            return Err(ExtractError::Read(e));
        },
        Ok(bytes) => bytes,
    };
    let decoded = decode_descriptor(bytes.as_slice());
    let ghost parsed = choose|parsed: Option<KvNode>|
        descriptor_view(decoded) == #[trigger] descriptor_outcome(parsed);
    let r = match decoded {
        Err(e) => Err(e),
        Ok(info) => Ok(Some(info)),
    };
    assert(extract_view(r) == match descriptor_outcome(parsed) {
        Ok(info) => Ok::<Option<AddonInfoView>, ExtractError>(Some(info)),
        Err(e) => Err(e),
    });
    r
}

/// Reads and decodes the first mission descriptor of an opened archive; see
/// [`mission_allows`].
pub fn get_mission_data(archive: &ArchiveHandle) -> (r: Option<MissionInfo>)
    ensures
        mission_allows(archive@, mission_view(r)),
{
    let entry = match mission_entry(archive) {
        None => {
            return None;
        },
        Some(entry) => entry,
    };
    match archive.read_entry(entry) {
        Err(_) => None,
        Ok(bytes) => decode_mission(bytes.as_slice()),
    }
}

/// Opens the archive held in `data` and takes its descriptors out; see
/// [`addon_data_allows`].
pub fn get_addon_data(data: Vec<u8>) -> (r: Result<AddonData, AddonDataError>)
    ensures
        addon_data_allows(data@, addon_data_view(r)),
{
    let ghost bytes = data@;
    let archive = match ArchiveHandle::open(data) {
        Err(e) => {
            return Err(AddonDataError::Format(e));
        },
        Ok(archive) => archive,
    };
    proof {
        assert(archive@ == ArchiveView {
            data: bytes,
            entries: archive@.entries,
            payload_start: archive@.payload_start,
        });
    }
    let info = match extract(&archive) {
        Err(e) => {
            return Err(AddonDataError::Descriptor(e));
        },
        Ok(info) => info,
    };
    let mission_info = get_mission_data(&archive);
    Ok(AddonData { info, mission_info })
}

/// Whether two runs of pairs differ at most in the letter case of keys.
pub open spec fn same_but_case(a: Seq<KvNode>, b: Seq<KvNode>) -> bool {
    &&& a.len() == b.len()
    &&& forall|i: int|
        0 <= i < a.len() ==> {
            &&& fold_case(#[trigger] a[i].key@) == fold_case(b[i].key@)
            &&& text_view(a[i].text) == text_view(b[i].text)
        }
}

proof fn lemma_first_match_same(a: Seq<KvNode>, b: Seq<KvNode>, name: Seq<char>, from: int)
    requires
        same_but_case(a, b),
    ensures
        first_match(a, name, from) == first_match(b, name, from),
    decreases a.len() - from,
{
    if 0 <= from < a.len() {
        assert(fold_case(a[from].key@) == fold_case(b[from].key@));
        if !key_is(a[from].key@, name) {
            lemma_first_match_same(a, b, name, from + 1);
        }
    }
}

proof fn lemma_field_text_same(a: Seq<KvNode>, b: Seq<KvNode>, name: Seq<char>)
    requires
        same_but_case(a, b),
    ensures
        single_match(a, name) == single_match(b, name),
        field_text(a, name) == field_text(b, name),
        required_text(a, name) == required_text(b, name),
        field_flag(a, name) == field_flag(b, name),
{
    lemma_first_match_same(a, b, name, 0);
    lemma_first_match_bounds(a, name, 0);
    match first_match(a, name, 0) {
        Some(i) => {
            lemma_first_match_same(a, b, name, i + 1);
            assert(fold_case(a[i].key@) == fold_case(b[i].key@));
            assert(text_view(a[i].text) == text_view(b[i].text));
        },
        None => {},
    }
}

/// Where [`first_match`] finds a position, it lies within the pairs.
proof fn lemma_first_match_bounds(a: Seq<KvNode>, name: Seq<char>, from: int)
    ensures
        first_match(a, name, from) matches Some(i) ==> from <= i < a.len(),
    decreases a.len() - from,
{
    if 0 <= from < a.len() && !key_is(a[from].key@, name) {
        lemma_first_match_bounds(a, name, from + 1);
    }
}

/// Two descriptors whose pairs differ in nothing but the letter case of
/// their keys, pair by pair, decode to the same package descriptor.
pub proof fn lemma_key_case_is_ignored(a: KvNode, b: KvNode)
    requires
        a.text is Some == b.text is Some,
        same_but_case(a.children@, b.children@),
    ensures
        addon_info_of(a) == addon_info_of(b),
{
    let x = a.children@;
    let y = b.children@;
    lemma_field_text_same(x, y, "addontitle"@);
    lemma_field_text_same(x, y, "addonversion"@);
    lemma_field_text_same(x, y, "addonauthor"@);
    lemma_field_text_same(x, y, "addondescription"@);
    lemma_field_text_same(x, y, "addoncontent_script"@);
    lemma_field_text_same(x, y, "addoncontent_campaign"@);
    lemma_field_text_same(x, y, "addoncontent_map"@);
    lemma_field_text_same(x, y, "addoncontent_music"@);
    lemma_field_text_same(x, y, "addoncontent_sound"@);
    lemma_field_text_same(x, y, "addoncontent_skin"@);
    lemma_field_text_same(x, y, "addoncontent_weapon"@);
}

proof fn lemma_first_match_upto(pairs: Seq<KvNode>, name: Seq<char>, from: int, i: int)
    requires
        0 <= from <= i < pairs.len(),
        key_is(pairs[i].key@, name),
    ensures
        first_match(pairs, name, from) matches Some(k) && from <= k <= i,
    decreases i - from,
{
    if !key_is(pairs[from].key@, name) {
        lemma_first_match_upto(pairs, name, from + 1, i);
    }
}

/// A field that reads well holds the text of the pair whose key spells its
/// name, in whatever letter case the key is written and wherever the pair
/// stands among the others.
pub proof fn lemma_field_found(pairs: Seq<KvNode>, name: Seq<char>, i: int)
    requires
        0 <= i < pairs.len(),
        key_is(pairs[i].key@, name),
        field_text(pairs, name) is Ok,
    ensures
        pairs[i].text is Some,
        field_text(pairs, name) == Ok::<Option<Seq<char>>, ParseError>(Some(pairs[i].text->0@)),
{
    lemma_first_match_upto(pairs, name, 0, i);
    let k = first_match(pairs, name, 0)->0;
    if k < i {
        lemma_first_match_upto(pairs, name, k + 1, i);
    }
}

/// The three spellings that the title's key has had all spell its name.
pub proof fn lemma_title_spellings()
    ensures
        key_is("AddonTitle"@, "addontitle"@),
        key_is("addonTitle"@, "addontitle"@),
        key_is("addontitle"@, "addontitle"@),
{
    reveal_strlit("AddonTitle");
    reveal_strlit("addonTitle");
    reveal_strlit("addontitle");
    assert(fold_case("AddonTitle"@) =~= fold_case("addontitle"@));
    assert(fold_case("addonTitle"@) =~= fold_case("addontitle"@));
}

/// A descriptor that decodes takes its title from the pair whose key
/// spells `addontitle` in any letter case (`AddonTitle`, `addonTitle`,
/// `addontitle`, ...), wherever that pair stands: every spelling fills the
/// same field with the same value.
pub proof fn lemma_title_by_any_spelling(doc: KvNode, i: int)
    requires
        0 <= i < doc.children@.len(),
        key_is(doc.children@[i].key@, "addontitle"@),
        addon_info_of(doc) is Ok,
    ensures
        doc.children@[i].text is Some,
        addon_info_of(doc)->Ok_0.title == doc.children@[i].text->0@,
{
    lemma_field_found(doc.children@, "addontitle"@, i);
}


/// A lookup among entries none of which has the path finds nothing.
pub proof fn lemma_find_entry_absent(entries: Seq<ArchiveEntryView>, path: Seq<char>)
    requires
        forall|i: int| 0 <= i < entries.len() ==> (#[trigger] entries[i]).path != path,
    ensures
        find_entry(entries, path) is None,
    decreases entries.len(),
{
    if entries.len() > 0 {
        let head = entries.drop_last();
        assert forall|i: int| 0 <= i < head.len() implies (#[trigger] head[i]).path != path by {
            assert(head[i] == entries[i]);
        }
        lemma_find_entry_absent(head, path);
    }
}

/// An archive without a package descriptor is read without error, and its
/// data holds no descriptor: nothing else is a possible outcome.
pub proof fn lemma_missing_descriptor_is_no_error(
    data: Seq<u8>,
    r: Result<AddonDataView, AddonDataError>,
)
    requires
        parse_archive(data) matches Ok((entries, _)) && forall|i: int|
            0 <= i < entries.len() ==> (#[trigger] entries[i]).path != " /addoninfo.txt"@,
        addon_data_allows(data, r),
    ensures
        r matches Ok(found) && found.info is None,
{
    let entries = parse_archive(data)->Ok_0.0;
    lemma_find_entry_absent(entries, " /addoninfo.txt"@);
}

} // verus!
