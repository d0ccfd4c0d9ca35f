//! The split grammar read from `<AutoSplitterSettings>` and its evaluator.
//!
//! Each `<Split>` text is `Name` or `Name,Value`; the name selects what
//! ends the segment (a chapter completed, an area entered, a checkpoint room
//! reached, a collectible picked up...).  Unknown names split manually.
use vstd::prelude::*;
use vstd::utf8::encode_utf8;
use crate::settings_xml::{lemma_texts_len, unescape, xml_texts, xml_texts_spec, xml_unescape};
use crate::state::GameState;
use crate::text::{
    bytes_eq, bytes_eq_ignore_ascii_case, bytes_eq_ignore_case, chars_eq_ignore_ascii_case,
    chars_eq_ignore_case, chars_eq_str, contains, contains_chars, fold_char, from_chars, split_first,
    split_first_exec, to_chars, trim, trim_chars, utf8_len,
};

verus! {

/// Area id of the main menu.
pub const AREA_MENU: i32 = -1;

/// Area id of chapter 7, whose completion is followed by the credits.
pub const AREA_THE_SUMMIT: i32 = 7;

/// Mode id of an A-side.
pub const MODE_A_SIDE: i32 = 0;

/// What ends a segment.
pub enum SplitDef {
    Manual,
    /// Any chapter complete.
    CompleteAny,
    /// Prologue, chapters 1 to 9 or epilogue complete.
    Complete { area: i32 },
    /// Area complete, optionally in one mode.
    CompleteArea { area: i32, mode: Option<i32> },
    AreaEnter { area: i32, mode: Option<i32> },
    AreaExit { area: i32, mode: Option<i32> },
    /// Chapter checkpoint: the room differs between A-side and B-side.
    Checkpoint { area: i32, a_room: &'static str, b_room: &'static str },
    Cassette { area: i32 },
    HeartGem { area: i32 },
    HeartGemAny,
    StrawberryPickup,
    GoldenBerry,
    RoomEnter { name: String },
    RoomExit { name: String },
}

/// A split with its texts as char sequences.
pub enum SplitModel {
    Manual,
    CompleteAny,
    Complete { area: i32 },
    CompleteArea { area: i32, mode: Option<i32> },
    AreaEnter { area: i32, mode: Option<i32> },
    AreaExit { area: i32, mode: Option<i32> },
    Checkpoint { area: i32, a_room: Seq<char>, b_room: Seq<char> },
    Cassette { area: i32 },
    HeartGem { area: i32 },
    HeartGemAny,
    StrawberryPickup,
    GoldenBerry,
    RoomEnter { name: Seq<char> },
    RoomExit { name: Seq<char> },
}

impl View for SplitDef {
    type V = SplitModel;

    open spec fn view(&self) -> SplitModel {
        match self {
            SplitDef::Manual => SplitModel::Manual,
            SplitDef::CompleteAny => SplitModel::CompleteAny,
            SplitDef::Complete { area } => SplitModel::Complete { area: *area },
            SplitDef::CompleteArea { area, mode } => SplitModel::CompleteArea {
                area: *area,
                mode: *mode,
            },
            SplitDef::AreaEnter { area, mode } => SplitModel::AreaEnter { area: *area, mode: *mode },
            SplitDef::AreaExit { area, mode } => SplitModel::AreaExit { area: *area, mode: *mode },
            SplitDef::Checkpoint { area, a_room, b_room } => SplitModel::Checkpoint {
                area: *area,
                a_room: a_room@,
                b_room: b_room@,
            },
            SplitDef::Cassette { area } => SplitModel::Cassette { area: *area },
            SplitDef::HeartGem { area } => SplitModel::HeartGem { area: *area },
            SplitDef::HeartGemAny => SplitModel::HeartGemAny,
            SplitDef::StrawberryPickup => SplitModel::StrawberryPickup,
            SplitDef::GoldenBerry => SplitModel::GoldenBerry,
            SplitDef::RoomEnter { name } => SplitModel::RoomEnter { name: name@ },
            SplitDef::RoomExit { name } => SplitModel::RoomExit { name: name@ },
        }
    }
}

/// The run configuration read from the settings.
pub struct RunConfig {
    pub splits: Vec<SplitDef>,
    /// No split listed: split on every room change.
    pub every_room: bool,
    /// Individual-level run: report chapter time.
    pub il_splits: bool,
    pub chapter_splits: bool,
    pub file_time_offset: bool,
    /// Offset added to the host's split index.
    pub add_amount: usize,
}

impl RunConfig {
    /// The splits of this configuration.
    pub open spec fn split_models(&self) -> Seq<SplitModel> {
        self.splits@.map_values(|d: SplitDef| d@)
    }
}

// ---------------------------------------------------------------------------
// Names
// ---------------------------------------------------------------------------

/// The area id named `s` (ASCII case ignored).
pub open spec fn area_by_name_spec(s: Seq<char>) -> Option<i32> {
    if chars_eq_ignore_case("Menu"@, s) {
        Some(-1i32)
    } else if chars_eq_ignore_case("Prologue"@, s) {
        Some(0i32)
    } else if chars_eq_ignore_case("ForsakenCity"@, s) {
        Some(1i32)
    } else if chars_eq_ignore_case("OldSite"@, s) {
        Some(2i32)
    } else if chars_eq_ignore_case("CelestialResort"@, s) {
        Some(3i32)
    } else if chars_eq_ignore_case("GoldenRidge"@, s) {
        Some(4i32)
    } else if chars_eq_ignore_case("MirrorTemple"@, s) {
        Some(5i32)
    } else if chars_eq_ignore_case("Reflection"@, s) {
        Some(6i32)
    } else if chars_eq_ignore_case("TheSummit"@, s) {
        Some(7i32)
    } else if chars_eq_ignore_case("Epilogue"@, s) {
        Some(8i32)
    } else if chars_eq_ignore_case("Core"@, s) {
        Some(9i32)
    } else if chars_eq_ignore_case("Farewell"@, s) {
        Some(10i32)
    } else {
        None
    }
}

/// The mode id named `s` (ASCII case ignored).
pub open spec fn mode_by_name_spec(s: Seq<char>) -> Option<i32> {
    if chars_eq_ignore_case("None"@, s) {
        Some(-1i32)
    } else if chars_eq_ignore_case("ASide"@, s) {
        Some(0i32)
    } else if chars_eq_ignore_case("BSide"@, s) {
        Some(1i32)
    } else if chars_eq_ignore_case("CSide"@, s) {
        Some(2i32)
    } else {
        None
    }
}

proof fn lemma_ignore_case_equiv(a: Seq<char>, b: Seq<char>, c: Seq<char>)
    requires
        chars_eq_ignore_case(b, c),
    ensures
        chars_eq_ignore_case(a, b) <==> chars_eq_ignore_case(a, c),
        chars_eq_ignore_case(c, b),
{
    if chars_eq_ignore_case(a, b) {
        assert forall|i: int| 0 <= i < a.len() implies fold_char(#[trigger] a[i]) == fold_char(c[i]) by {
            assert(fold_char(b[i]) == fold_char(c[i]));
        }
    }
    if chars_eq_ignore_case(a, c) {
        assert forall|i: int| 0 <= i < a.len() implies fold_char(#[trigger] a[i]) == fold_char(b[i]) by {
            assert(fold_char(b[i]) == fold_char(c[i]));
        }
    }
    assert forall|i: int| 0 <= i < c.len() implies fold_char(#[trigger] c[i]) == fold_char(b[i]) by {
        assert(fold_char(b[i]) == fold_char(c[i]));
    }
}

/// Area names ignore ASCII case, and each area has one name: names equal
/// up to case give the same area, and two names that give the same area
/// are equal up to case.
pub proof fn law_area_names(s: Seq<char>, t: Seq<char>)
    ensures
        chars_eq_ignore_case(s, t) ==> area_by_name_spec(s) == area_by_name_spec(t),
        area_by_name_spec(s) is Some && area_by_name_spec(s) == area_by_name_spec(t)
            ==> chars_eq_ignore_case(s, t),
{
    let names = seq![
        "Menu"@,
        "Prologue"@,
        "ForsakenCity"@,
        "OldSite"@,
        "CelestialResort"@,
        "GoldenRidge"@,
        "MirrorTemple"@,
        "Reflection"@,
        "TheSummit"@,
        "Epilogue"@,
        "Core"@,
        "Farewell"@
    ];
    if chars_eq_ignore_case(s, t) {
        assert forall|k: int| 0 <= k < names.len() implies chars_eq_ignore_case(#[trigger] names[k], s)
            == chars_eq_ignore_case(names[k], t) by {
            lemma_ignore_case_equiv(names[k], s, t);
        }
        assert(names[0] == "Menu"@ && names[1] == "Prologue"@ && names[2] == "ForsakenCity"@
            && names[3] == "OldSite"@ && names[4] == "CelestialResort"@ && names[5]
            == "GoldenRidge"@ && names[6] == "MirrorTemple"@ && names[7] == "Reflection"@
            && names[8] == "TheSummit"@ && names[9] == "Epilogue"@ && names[10] == "Core"@
            && names[11] == "Farewell"@);
    }
    if area_by_name_spec(s) is Some && area_by_name_spec(s) == area_by_name_spec(t) {
        let l = if chars_eq_ignore_case("Menu"@, s) {
            "Menu"@
        } else if chars_eq_ignore_case("Prologue"@, s) {
            "Prologue"@
        } else if chars_eq_ignore_case("ForsakenCity"@, s) {
            "ForsakenCity"@
        } else if chars_eq_ignore_case("OldSite"@, s) {
            "OldSite"@
        } else if chars_eq_ignore_case("CelestialResort"@, s) {
            "CelestialResort"@
        } else if chars_eq_ignore_case("GoldenRidge"@, s) {
            "GoldenRidge"@
        } else if chars_eq_ignore_case("MirrorTemple"@, s) {
            "MirrorTemple"@
        } else if chars_eq_ignore_case("Reflection"@, s) {
            "Reflection"@
        } else if chars_eq_ignore_case("TheSummit"@, s) {
            "TheSummit"@
        } else if chars_eq_ignore_case("Epilogue"@, s) {
            "Epilogue"@
        } else if chars_eq_ignore_case("Core"@, s) {
            "Core"@
        } else {
            "Farewell"@
        };
        assert(chars_eq_ignore_case(l, s));
        assert(chars_eq_ignore_case(l, t));
        lemma_ignore_case_equiv(s, l, t);
        lemma_ignore_case_equiv(l, s, s);
        assert forall|i: int| 0 <= i < s.len() implies fold_char(#[trigger] s[i]) == fold_char(t[i]) by {
            assert(fold_char(l[i]) == fold_char(s[i]));
            assert(fold_char(l[i]) == fold_char(t[i]));
        }
    }
}

/// Side names ignore ASCII case, and each mode has one name.
pub proof fn law_mode_names(s: Seq<char>, t: Seq<char>)
    ensures
        chars_eq_ignore_case(s, t) ==> mode_by_name_spec(s) == mode_by_name_spec(t),
        mode_by_name_spec(s) is Some && mode_by_name_spec(s) == mode_by_name_spec(t)
            ==> chars_eq_ignore_case(s, t),
{
    if chars_eq_ignore_case(s, t) {
        lemma_ignore_case_equiv("None"@, s, t);
        lemma_ignore_case_equiv("ASide"@, s, t);
        lemma_ignore_case_equiv("BSide"@, s, t);
        lemma_ignore_case_equiv("CSide"@, s, t);
    }
    if mode_by_name_spec(s) is Some && mode_by_name_spec(s) == mode_by_name_spec(t) {
        let l = if chars_eq_ignore_case("None"@, s) {
            "None"@
        } else if chars_eq_ignore_case("ASide"@, s) {
            "ASide"@
        } else if chars_eq_ignore_case("BSide"@, s) {
            "BSide"@
        } else {
            "CSide"@
        };
        assert(chars_eq_ignore_case(l, s) && chars_eq_ignore_case(l, t));
        assert forall|i: int| 0 <= i < s.len() implies fold_char(#[trigger] s[i]) == fold_char(t[i]) by {
            assert(fold_char(l[i]) == fold_char(s[i]));
            assert(fold_char(l[i]) == fold_char(t[i]));
        }
    }
}

fn eq_name(lit: &str, s: &[char]) -> (r: bool)
    ensures
        r == chars_eq_ignore_case(lit@, s@),
{
    let l = to_chars(lit);
    chars_eq_ignore_ascii_case(l.as_slice(), s)
}

pub fn area_by_name(s: &[char]) -> (r: Option<i32>)
    ensures
        r == area_by_name_spec(s@),
{
    if eq_name("Menu", s) {
        Some(-1i32)
    } else if eq_name("Prologue", s) {
        Some(0i32)
    } else if eq_name("ForsakenCity", s) {
        Some(1i32)
    } else if eq_name("OldSite", s) {
        Some(2i32)
    } else if eq_name("CelestialResort", s) {
        Some(3i32)
    } else if eq_name("GoldenRidge", s) {
        Some(4i32)
    } else if eq_name("MirrorTemple", s) {
        Some(5i32)
    } else if eq_name("Reflection", s) {
        Some(6i32)
    } else if eq_name("TheSummit", s) {
        Some(7i32)
    } else if eq_name("Epilogue", s) {
        Some(8i32)
    } else if eq_name("Core", s) {
        Some(9i32)
    } else if eq_name("Farewell", s) {
        Some(10i32)
    } else {
        None
    }
}

pub fn mode_by_name(s: &[char]) -> (r: Option<i32>)
    ensures
        r == mode_by_name_spec(s@),
{
    if eq_name("None", s) {
        Some(-1i32)
    } else if eq_name("ASide", s) {
        Some(0i32)
    } else if eq_name("BSide", s) {
        Some(1i32)
    } else if eq_name("CSide", s) {
        Some(2i32)
    } else {
        None
    }
}

/// `"Area"` or `"Area-Mode"`: the area must be known; an unknown or missing
/// mode means any mode.
pub open spec fn parse_area_mode_spec(value: Seq<char>) -> Option<(i32, Option<i32>)> {
    let (first, rest) = split_first(value, '-');
    match area_by_name_spec(trim(first)) {
        None => None,
        Some(area) => Some(
            (
                area,
                match rest {
                    Some(m) => mode_by_name_spec(trim(m)),
                    None => None,
                },
            ),
        ),
    }
}

pub fn parse_area_mode_value(value: &[char]) -> (r: Option<(i32, Option<i32>)>)
    ensures
        r == parse_area_mode_spec(value@),
{
    let (first, rest) = split_first_exec(value, '-');
    let area = match area_by_name(trim_chars(first.as_slice()).as_slice()) {
        Some(a) => a,
        None => return None,
    };
    let mode = match rest {
        Some(m) => mode_by_name(trim_chars(m.as_slice()).as_slice()),
        None => None,
    };
    Some((area, mode))
}

// ---------------------------------------------------------------------------
// Split names
// ---------------------------------------------------------------------------

/// Names that need no value.
pub open spec fn plain_split(name: Seq<char>) -> Option<SplitModel> {
    if name == "Manual"@ {
        Some(SplitModel::Manual)
    } else if name == "ChapterA"@ {
        Some(SplitModel::CompleteAny)
    } else if name == "Prologue"@ {
        Some(SplitModel::Complete { area: 0 })
    } else if name == "Chapter1"@ {
        Some(SplitModel::Complete { area: 1 })
    } else if name == "Chapter2"@ {
        Some(SplitModel::Complete { area: 2 })
    } else if name == "Chapter3"@ {
        Some(SplitModel::Complete { area: 3 })
    } else if name == "Chapter4"@ {
        Some(SplitModel::Complete { area: 4 })
    } else if name == "Chapter5"@ {
        Some(SplitModel::Complete { area: 5 })
    } else if name == "Chapter6"@ {
        Some(SplitModel::Complete { area: 6 })
    } else if name == "Chapter7"@ {
        Some(SplitModel::Complete { area: 7 })
    } else if name == "Epilogue"@ {
        Some(SplitModel::Complete { area: 8 })
    } else if name == "Chapter8"@ {
        Some(SplitModel::Complete { area: 9 })
    } else if name == "Chapter9"@ {
        Some(SplitModel::Complete { area: 10 })
    } else if name == "HeartGemAny"@ {
        Some(SplitModel::HeartGemAny)
    } else if name == "StrawberryPickup"@ {
        Some(SplitModel::StrawberryPickup)
    } else if name == "GoldenBerry"@ {
        Some(SplitModel::GoldenBerry)
    } else {
        None
    }
}

fn plain_split_exec(name: &[char]) -> (r: Option<SplitDef>)
    ensures
        match (r, plain_split(name@)) {
            (Some(d), Some(m)) => d@ == m,
            (None, None) => true,
            _ => false,
        },
{
    if chars_eq_str(name, "Manual") {
        Some(SplitDef::Manual)
    } else if chars_eq_str(name, "ChapterA") {
        Some(SplitDef::CompleteAny)
    } else if chars_eq_str(name, "Prologue") {
        Some(SplitDef::Complete { area: 0 })
    } else if chars_eq_str(name, "Chapter1") {
        Some(SplitDef::Complete { area: 1 })
    } else if chars_eq_str(name, "Chapter2") {
        Some(SplitDef::Complete { area: 2 })
    } else if chars_eq_str(name, "Chapter3") {
        Some(SplitDef::Complete { area: 3 })
    } else if chars_eq_str(name, "Chapter4") {
        Some(SplitDef::Complete { area: 4 })
    } else if chars_eq_str(name, "Chapter5") {
        Some(SplitDef::Complete { area: 5 })
    } else if chars_eq_str(name, "Chapter6") {
        Some(SplitDef::Complete { area: 6 })
    } else if chars_eq_str(name, "Chapter7") {
        Some(SplitDef::Complete { area: 7 })
    } else if chars_eq_str(name, "Epilogue") {
        Some(SplitDef::Complete { area: 8 })
    } else if chars_eq_str(name, "Chapter8") {
        Some(SplitDef::Complete { area: 9 })
    } else if chars_eq_str(name, "Chapter9") {
        Some(SplitDef::Complete { area: 10 })
    } else if chars_eq_str(name, "HeartGemAny") {
        Some(SplitDef::HeartGemAny)
    } else if chars_eq_str(name, "StrawberryPickup") {
        Some(SplitDef::StrawberryPickup)
    } else if chars_eq_str(name, "GoldenBerry") {
        Some(SplitDef::GoldenBerry)
    } else {
        None
    }
}

/// Checkpoint names: the area and the checkpoint room on the A-side and
/// on the B-side.
pub open spec fn checkpoint_split(name: Seq<char>) -> Option<(i32, Seq<char>, Seq<char>)> {
    if name == "Chapter1Checkpoint1"@ {
        Some((1i32, "6"@, "04"@))
    } else if name == "Chapter1Checkpoint2"@ {
        Some((1i32, "9b"@, "08"@))
    } else if name == "Chapter2Checkpoint1"@ {
        Some((2i32, "3"@, "03"@))
    } else if name == "Chapter2Checkpoint2"@ {
        Some((2i32, "end_3"@, "08b"@))
    } else if name == "Chapter3Checkpoint1"@ {
        Some((3i32, "08-a"@, "06"@))
    } else if name == "Chapter3Checkpoint2"@ {
        Some((3i32, "09-d"@, "11"@))
    } else if name == "Chapter3Checkpoint3"@ {
        Some((3i32, "00-d"@, "16"@))
    } else if name == "Chapter4Checkpoint1"@ {
        Some((4i32, "b-00"@, "b-00"@))
    } else if name == "Chapter4Checkpoint2"@ {
        Some((4i32, "c-00"@, "c-00"@))
    } else if name == "Chapter4Checkpoint3"@ {
        Some((4i32, "d-00"@, "d-00"@))
    } else if name == "Chapter5Checkpoint1"@ {
        Some((5i32, "b-00"@, "b-00"@))
    } else if name == "Chapter5Checkpoint2"@ {
        Some((5i32, "c-00"@, "c-00"@))
    } else if name == "Chapter5Checkpoint3"@ {
        Some((5i32, "d-00"@, "d-00"@))
    } else if name == "Chapter5Checkpoint4"@ {
        Some((5i32, "e-00"@, "e-00"@))
    } else if name == "Chapter6Checkpoint1"@ {
        Some((6i32, "00"@, "b-00"@))
    } else if name == "Chapter6Checkpoint2"@ {
        Some((6i32, "04"@, "c-00"@))
    } else if name == "Chapter6Checkpoint3"@ {
        Some((6i32, "b-00"@, "d-00"@))
    } else if name == "Chapter6Checkpoint4"@ {
        Some((6i32, "boss-00"@, "boss-00"@))
    } else if name == "Chapter6Checkpoint5"@ {
        Some((6i32, "after-00"@, "after-00"@))
    } else if name == "Chapter7Checkpoint1"@ {
        Some((7i32, "b-00"@, "b-00"@))
    } else if name == "Chapter7Checkpoint2"@ {
        Some((7i32, "c-00"@, "c-01"@))
    } else if name == "Chapter7Checkpoint3"@ {
        Some((7i32, "d-00"@, "d-00"@))
    } else if name == "Chapter7Checkpoint4"@ {
        Some((7i32, "e-00b"@, "e-00"@))
    } else if name == "Chapter7Checkpoint5"@ {
        Some((7i32, "f-00"@, "f-00"@))
    } else if name == "Chapter7Checkpoint6"@ {
        Some((7i32, "g-00"@, "g-00"@))
    } else if name == "Chapter8Checkpoint1"@ {
        Some((9i32, "a-00"@, "a-00"@))
    } else if name == "Chapter8Checkpoint2"@ {
        Some((9i32, "c-00"@, "b-00"@))
    } else if name == "Chapter8Checkpoint3"@ {
        Some((9i32, "d-00"@, "c-01"@))
    } else if name == "Chapter9Checkpoint1"@ {
        Some((10i32, "a-00"@, "a-00"@))
    } else if name == "Chapter9Checkpoint2"@ {
        Some((10i32, "c-00"@, "c-00"@))
    } else if name == "Chapter9Checkpoint3"@ {
        Some((10i32, "e-00z"@, "e-00z"@))
    } else if name == "Chapter9Checkpoint4"@ {
        Some((10i32, "f-door"@, "f-door"@))
    } else if name == "Chapter9Checkpoint5"@ {
        Some((10i32, "h-00b"@, "h-00b"@))
    } else if name == "Chapter9Checkpoint6"@ {
        Some((10i32, "i-00"@, "i-00"@))
    } else if name == "Chapter9Checkpoint7"@ {
        Some((10i32, "j-00"@, "j-00"@))
    } else if name == "Chapter9Checkpoint8"@ {
        Some((10i32, "j-16"@, "j-16"@))
    } else {
        None
    }
}

fn checkpoint(area: i32, a_room: &'static str, b_room: &'static str) -> (r: SplitDef)
    ensures
        r@ == (SplitModel::Checkpoint { area, a_room: a_room@, b_room: b_room@ }),
{
    SplitDef::Checkpoint { area, a_room, b_room }
}

fn checkpoint_split_exec(name: &[char]) -> (r: Option<SplitDef>)
    ensures
        match (r, checkpoint_split(name@)) {
            (Some(d), Some((area, a, b))) => d@ == (SplitModel::Checkpoint {
                area,
                a_room: a,
                b_room: b,
            }),
            (None, None) => true,
            _ => false,
        },
{
    if chars_eq_str(name, "Chapter1Checkpoint1") {
        Some(checkpoint(1, "6", "04"))
    } else if chars_eq_str(name, "Chapter1Checkpoint2") {
        Some(checkpoint(1, "9b", "08"))
    } else if chars_eq_str(name, "Chapter2Checkpoint1") {
        Some(checkpoint(2, "3", "03"))
    } else if chars_eq_str(name, "Chapter2Checkpoint2") {
        Some(checkpoint(2, "end_3", "08b"))
    } else if chars_eq_str(name, "Chapter3Checkpoint1") {
        Some(checkpoint(3, "08-a", "06"))
    } else if chars_eq_str(name, "Chapter3Checkpoint2") {
        Some(checkpoint(3, "09-d", "11"))
    } else if chars_eq_str(name, "Chapter3Checkpoint3") {
        Some(checkpoint(3, "00-d", "16"))
    } else if chars_eq_str(name, "Chapter4Checkpoint1") {
        Some(checkpoint(4, "b-00", "b-00"))
    } else if chars_eq_str(name, "Chapter4Checkpoint2") {
        Some(checkpoint(4, "c-00", "c-00"))
    } else if chars_eq_str(name, "Chapter4Checkpoint3") {
        Some(checkpoint(4, "d-00", "d-00"))
    } else if chars_eq_str(name, "Chapter5Checkpoint1") {
        Some(checkpoint(5, "b-00", "b-00"))
    } else if chars_eq_str(name, "Chapter5Checkpoint2") {
        Some(checkpoint(5, "c-00", "c-00"))
    } else if chars_eq_str(name, "Chapter5Checkpoint3") {
        Some(checkpoint(5, "d-00", "d-00"))
    } else if chars_eq_str(name, "Chapter5Checkpoint4") {
        Some(checkpoint(5, "e-00", "e-00"))
    } else if chars_eq_str(name, "Chapter6Checkpoint1") {
        Some(checkpoint(6, "00", "b-00"))
    } else if chars_eq_str(name, "Chapter6Checkpoint2") {
        Some(checkpoint(6, "04", "c-00"))
    } else if chars_eq_str(name, "Chapter6Checkpoint3") {
        Some(checkpoint(6, "b-00", "d-00"))
    } else if chars_eq_str(name, "Chapter6Checkpoint4") {
        Some(checkpoint(6, "boss-00", "boss-00"))
    } else if chars_eq_str(name, "Chapter6Checkpoint5") {
        Some(checkpoint(6, "after-00", "after-00"))
    } else if chars_eq_str(name, "Chapter7Checkpoint1") {
        Some(checkpoint(7, "b-00", "b-00"))
    } else if chars_eq_str(name, "Chapter7Checkpoint2") {
        Some(checkpoint(7, "c-00", "c-01"))
    } else if chars_eq_str(name, "Chapter7Checkpoint3") {
        Some(checkpoint(7, "d-00", "d-00"))
    } else if chars_eq_str(name, "Chapter7Checkpoint4") {
        Some(checkpoint(7, "e-00b", "e-00"))
    } else if chars_eq_str(name, "Chapter7Checkpoint5") {
        Some(checkpoint(7, "f-00", "f-00"))
    } else if chars_eq_str(name, "Chapter7Checkpoint6") {
        Some(checkpoint(7, "g-00", "g-00"))
    } else if chars_eq_str(name, "Chapter8Checkpoint1") {
        Some(checkpoint(9, "a-00", "a-00"))
    } else if chars_eq_str(name, "Chapter8Checkpoint2") {
        Some(checkpoint(9, "c-00", "b-00"))
    } else if chars_eq_str(name, "Chapter8Checkpoint3") {
        Some(checkpoint(9, "d-00", "c-01"))
    } else if chars_eq_str(name, "Chapter9Checkpoint1") {
        Some(checkpoint(10, "a-00", "a-00"))
    } else if chars_eq_str(name, "Chapter9Checkpoint2") {
        Some(checkpoint(10, "c-00", "c-00"))
    } else if chars_eq_str(name, "Chapter9Checkpoint3") {
        Some(checkpoint(10, "e-00z", "e-00z"))
    } else if chars_eq_str(name, "Chapter9Checkpoint4") {
        Some(checkpoint(10, "f-door", "f-door"))
    } else if chars_eq_str(name, "Chapter9Checkpoint5") {
        Some(checkpoint(10, "h-00b", "h-00b"))
    } else if chars_eq_str(name, "Chapter9Checkpoint6") {
        Some(checkpoint(10, "i-00", "i-00"))
    } else if chars_eq_str(name, "Chapter9Checkpoint7") {
        Some(checkpoint(10, "j-00", "j-00"))
    } else if chars_eq_str(name, "Chapter9Checkpoint8") {
        Some(checkpoint(10, "j-16", "j-16"))
    } else {
        None
    }
}

/// Cassette names: the area whose cassette ends the segment.
pub open spec fn cassette_split(name: Seq<char>) -> Option<i32> {
    if name == "Chapter1Cassette"@ {
        Some(1i32)
    } else if name == "Chapter2Cassette"@ {
        Some(2i32)
    } else if name == "Chapter3Cassette"@ {
        Some(3i32)
    } else if name == "Chapter4Cassette"@ {
        Some(4i32)
    } else if name == "Chapter5Cassette"@ {
        Some(5i32)
    } else if name == "Chapter6Cassette"@ {
        Some(6i32)
    } else if name == "Chapter7Cassette"@ {
        Some(7i32)
    } else if name == "Chapter8Cassette"@ {
        Some(9i32)
    } else {
        None
    }
}

fn cassette_split_exec(name: &[char]) -> (r: Option<i32>)
    ensures
        r == cassette_split(name@),
{
    if chars_eq_str(name, "Chapter1Cassette") {
        Some(1i32)
    } else if chars_eq_str(name, "Chapter2Cassette") {
        Some(2i32)
    } else if chars_eq_str(name, "Chapter3Cassette") {
        Some(3i32)
    } else if chars_eq_str(name, "Chapter4Cassette") {
        Some(4i32)
    } else if chars_eq_str(name, "Chapter5Cassette") {
        Some(5i32)
    } else if chars_eq_str(name, "Chapter6Cassette") {
        Some(6i32)
    } else if chars_eq_str(name, "Chapter7Cassette") {
        Some(7i32)
    } else if chars_eq_str(name, "Chapter8Cassette") {
        Some(9i32)
    } else {
        None
    }
}

/// Heart gem names: the area whose heart gem ends the segment.
pub open spec fn heart_split(name: Seq<char>) -> Option<i32> {
    if name == "Chapter1HeartGem"@ {
        Some(1i32)
    } else if name == "Chapter2HeartGem"@ {
        Some(2i32)
    } else if name == "Chapter3HeartGem"@ {
        Some(3i32)
    } else if name == "Chapter4HeartGem"@ {
        Some(4i32)
    } else if name == "Chapter5HeartGem"@ {
        Some(5i32)
    } else if name == "Chapter6HeartGem"@ {
        Some(6i32)
    } else if name == "Chapter7HeartGem"@ {
        Some(7i32)
    } else if name == "Chapter8HeartGem"@ {
        Some(9i32)
    } else {
        None
    }
}

fn heart_split_exec(name: &[char]) -> (r: Option<i32>)
    ensures
        r == heart_split(name@),
{
    if chars_eq_str(name, "Chapter1HeartGem") {
        Some(1i32)
    } else if chars_eq_str(name, "Chapter2HeartGem") {
        Some(2i32)
    } else if chars_eq_str(name, "Chapter3HeartGem") {
        Some(3i32)
    } else if chars_eq_str(name, "Chapter4HeartGem") {
        Some(4i32)
    } else if chars_eq_str(name, "Chapter5HeartGem") {
        Some(5i32)
    } else if chars_eq_str(name, "Chapter6HeartGem") {
        Some(6i32)
    } else if chars_eq_str(name, "Chapter7HeartGem") {
        Some(7i32)
    } else if chars_eq_str(name, "Chapter8HeartGem") {
        Some(9i32)
    } else {
        None
    }
}

/// The split named `name` with value `value`.
pub open spec fn split_for(name: Seq<char>, value: Seq<char>) -> SplitModel {
    match plain_split(name) {
        Some(d) => d,
        None => if name == "AreaComplete"@ {
            match parse_area_mode_spec(value) {
                Some((area, mode)) => SplitModel::CompleteArea { area, mode },
                None => SplitModel::Manual,
            }
        } else if name == "AreaOnEnter"@ {
            match parse_area_mode_spec(value) {
                Some((area, mode)) => SplitModel::AreaEnter { area, mode },
                None => SplitModel::Manual,
            }
        } else if name == "AreaOnExit"@ {
            match parse_area_mode_spec(value) {
                Some((area, mode)) => SplitModel::AreaExit { area, mode },
                None => SplitModel::Manual,
            }
        } else if name == "LevelEnter"@ {
            SplitModel::RoomEnter { name: value }
        } else if name == "LevelExit"@ {
            SplitModel::RoomExit { name: value }
        } else {
            match checkpoint_split(name) {
                Some((area, a, b)) => SplitModel::Checkpoint { area, a_room: a, b_room: b },
                None => match cassette_split(name) {
                    Some(area) => SplitModel::Cassette { area },
                    None => match heart_split(name) {
                        Some(area) => SplitModel::HeartGem { area },
                        None => SplitModel::Manual,
                    },
                },
            }
        },
    }
}

/// Name and value of a split text: `Name,Value`, or `Name` alone with an
/// empty value.
pub open spec fn name_value(text: Seq<char>) -> (Seq<char>, Seq<char>) {
    let (name, value) = split_first(text, ',');
    (
        name,
        match value {
            Some(v) => v,
            None => seq![],
        },
    )
}

/// The split that a split text stands for.
pub open spec fn parse_split_spec(text: Seq<char>) -> SplitModel {
    split_for(name_value(text).0, name_value(text).1)
}

/// What kind of split a name counts as when deciding between individual
/// level and full-game runs.
pub enum SplitCategory {
    Chapter,
    Heart,
    Area,
    Cassette,
    Other,
}

/// Names of 8 bytes count as chapters; otherwise a name containing
/// `HeartGem`, `AreaComplete` or `Cassette` counts as that kind.
pub open spec fn category(name: Seq<char>) -> SplitCategory {
    if encode_utf8(name).len() == 8 {
        SplitCategory::Chapter
    } else if contains(name, "HeartGem"@) {
        SplitCategory::Heart
    } else if contains(name, "AreaComplete"@) {
        SplitCategory::Area
    } else if contains(name, "Cassette"@) {
        SplitCategory::Cassette
    } else {
        SplitCategory::Other
    }
}

/// How many split names of each kind were seen.
pub struct Counts {
    pub chapter: u32,
    pub heart: u32,
    pub area: u32,
    pub cassette: u32,
}

impl Counts {
    /// Every count can take one more.
    pub open spec fn has_room(&self) -> bool {
        self.chapter < u32::MAX && self.heart < u32::MAX && self.area < u32::MAX && self.cassette
            < u32::MAX
    }

    /// The counts after seeing one more name of kind `c`.
    pub open spec fn bumped(&self, c: SplitCategory) -> (u32, u32, u32, u32) {
        match c {
            SplitCategory::Chapter => ((self.chapter + 1) as u32, self.heart, self.area, self.cassette),
            SplitCategory::Heart => (self.chapter, (self.heart + 1) as u32, self.area, self.cassette),
            SplitCategory::Area => (self.chapter, self.heart, (self.area + 1) as u32, self.cassette),
            SplitCategory::Cassette => (self.chapter, self.heart, self.area, (self.cassette + 1) as u32),
            SplitCategory::Other => (self.chapter, self.heart, self.area, self.cassette),
        }
    }

    pub open spec fn tuple(&self) -> (u32, u32, u32, u32) {
        (self.chapter, self.heart, self.area, self.cassette)
    }
}

/// Reads one split text and counts its kind.
pub fn parse_split(text: &[char], counts: &mut Counts) -> (r: SplitDef)
    requires
        old(counts).has_room(),
    ensures
        r@ == parse_split_spec(text@),
        final(counts).tuple() == old(counts).bumped(category(name_value(text@).0)),
{
    let (name, value) = split_first_exec(text, ',');
    let value: Vec<char> = match value {
        Some(v) => v,
        None => Vec::new(),
    };
    assert(value@ == name_value(text@).1);
    let n = name.as_slice();
    let def = match plain_split_exec(n) {
        Some(d) => d,
        None => if chars_eq_str(n, "AreaComplete") {
            match parse_area_mode_value(value.as_slice()) {
                Some((area, mode)) => SplitDef::CompleteArea { area, mode },
                None => SplitDef::Manual,
            }
        } else if chars_eq_str(n, "AreaOnEnter") {
            match parse_area_mode_value(value.as_slice()) {
                Some((area, mode)) => SplitDef::AreaEnter { area, mode },
                None => SplitDef::Manual,
            }
        } else if chars_eq_str(n, "AreaOnExit") {
            match parse_area_mode_value(value.as_slice()) {
                Some((area, mode)) => SplitDef::AreaExit { area, mode },
                None => SplitDef::Manual,
            }
        } else if chars_eq_str(n, "LevelEnter") {
            SplitDef::RoomEnter { name: from_chars(value.as_slice()) }
        } else if chars_eq_str(n, "LevelExit") {
            SplitDef::RoomExit { name: from_chars(value.as_slice()) }
        } else {
            match checkpoint_split_exec(n) {
                Some(d) => d,
                None => match cassette_split_exec(n) {
                    Some(area) => SplitDef::Cassette { area },
                    None => match heart_split_exec(n) {
                        Some(area) => SplitDef::HeartGem { area },
                        None => SplitDef::Manual,
                    },
                },
            }
        },
    };
    let heart_gem = to_chars("HeartGem");
    let area_complete = to_chars("AreaComplete");
    let cassette = to_chars("Cassette");
    if utf8_len(n) == 8 {
        counts.chapter = counts.chapter + 1;
    } else if contains_chars(n, heart_gem.as_slice()) {
        counts.heart = counts.heart + 1;
    } else if contains_chars(n, area_complete.as_slice()) {
        counts.area = counts.area + 1;
    } else if contains_chars(n, cassette.as_slice()) {
        counts.cassette = counts.cassette + 1;
    }
    def
}


// ---------------------------------------------------------------------------
// Configuration
// ---------------------------------------------------------------------------

/// A `<Split>` text with surrounding whitespace and entities removed.
pub open spec fn split_text(t: Seq<char>) -> Seq<char> {
    trim(unescape(trim(t)))
}

/// The `<Split>` texts of the settings.
pub open spec fn split_texts(xml: Seq<char>) -> Seq<Seq<char>> {
    xml_texts_spec(xml, "Split"@)
}

/// How many of `texts` name a split of kind `k`.
pub open spec fn count_kind(texts: Seq<Seq<char>>, k: SplitCategory) -> nat
    decreases texts.len(),
{
    if texts.len() == 0 {
        0
    } else {
        count_kind(texts.drop_last(), k) + if category(name_value(split_text(texts.last())).0)
            == k {
            1nat
        } else {
            0nat
        }
    }
}

proof fn lemma_count_kind_bound(texts: Seq<Seq<char>>, k: SplitCategory)
    ensures
        count_kind(texts, k) <= texts.len(),
    decreases texts.len(),
{
    if texts.len() > 0 {
        lemma_count_kind_bound(texts.drop_last(), k);
    }
}

/// The first `<FileTimeOffset>` text is `true` (ASCII case ignored).
pub open spec fn file_time_offset_spec(xml: Seq<char>) -> bool {
    let ts = xml_texts_spec(xml, "FileTimeOffset"@);
    ts.len() > 0 && chars_eq_ignore_case(trim(ts[0]), "true"@)
}

/// The configuration that the settings XML describes.
pub open spec fn config_matches(cfg: RunConfig, xml: Seq<char>) -> bool {
    let texts = split_texts(xml);
    let chapter = count_kind(texts, SplitCategory::Chapter);
    let heart = count_kind(texts, SplitCategory::Heart);
    let area = count_kind(texts, SplitCategory::Area);
    let cassette = count_kind(texts, SplitCategory::Cassette);
    let chapter_splits = chapter > 0 || heart > 0 || area > 0 || cassette > 0;
    &&& cfg.split_models() == texts.map_values(|t: Seq<char>| parse_split_spec(split_text(t)))
    &&& cfg.every_room == (texts.len() == 0)
    &&& cfg.il_splits == (chapter <= 1 && heart <= 1 && area <= 1 && cassette <= 1)
    &&& cfg.chapter_splits == chapter_splits
    &&& cfg.file_time_offset == file_time_offset_spec(xml)
    &&& cfg.add_amount == (if texts.len() > 0 && !chapter_splits {
        1usize
    } else {
        0usize
    })
}

proof fn lemma_count_kind_one(texts: Seq<Seq<char>>, k: SplitCategory, i: int)
    requires
        0 <= i < texts.len(),
        category(name_value(split_text(texts[i])).0) == k,
    ensures
        count_kind(texts, k) >= 1,
    decreases texts.len(),
{
    if i < texts.len() - 1 {
        lemma_count_kind_one(texts.drop_last(), k, i);
    }
}

proof fn lemma_count_kind_two(texts: Seq<Seq<char>>, k: SplitCategory, i: int, j: int)
    requires
        0 <= i < j < texts.len(),
        category(name_value(split_text(texts[i])).0) == k,
        category(name_value(split_text(texts[j])).0) == k,
    ensures
        count_kind(texts, k) >= 2,
    decreases texts.len(),
{
    let init = texts.drop_last();
    if j == texts.len() - 1 {
        lemma_count_kind_one(init, k, i);
    } else {
        lemma_count_kind_two(init, k, i, j);
    }
}

/// The name of split text `t`, in UTF-8, is 8 bytes long (a chapter
/// name).
pub open spec fn eight_bytes(t: Seq<char>) -> bool {
    encode_utf8(name_value(split_text(t)).0).len() == 8
}

/// The name of split text `t` contains `pat`.
pub open spec fn names(t: Seq<char>, pat: Seq<char>) -> bool {
    contains(name_value(split_text(t)).0, pat)
}

/// Two split texts of the same kind make a full-game run: two chapter
/// names (8 bytes), two names with `HeartGem`, two with `AreaComplete` or
/// two with `Cassette` (each kind tried in that order) turn individual
/// level splitting off.
pub proof fn law_two_of_a_kind_is_full_game(cfg: RunConfig, xml: Seq<char>, i: int, j: int)
    requires
        config_matches(cfg, xml),
        0 <= i < j < split_texts(xml).len(),
        ({
            let a = split_texts(xml)[i];
            let b = split_texts(xml)[j];
            ||| eight_bytes(a) && eight_bytes(b)
            ||| !eight_bytes(a) && !eight_bytes(b) && names(a, "HeartGem"@) && names(b, "HeartGem"@)
            ||| !eight_bytes(a) && !eight_bytes(b) && !names(a, "HeartGem"@) && !names(b, "HeartGem"@)
                && names(a, "AreaComplete"@) && names(b, "AreaComplete"@)
            ||| !eight_bytes(a) && !eight_bytes(b) && !names(a, "HeartGem"@) && !names(b, "HeartGem"@)
                && !names(a, "AreaComplete"@) && !names(b, "AreaComplete"@) && names(a, "Cassette"@)
                && names(b, "Cassette"@)
        }),
    ensures
        !cfg.il_splits,
{
    let texts = split_texts(xml);
    let k = category(name_value(split_text(texts[i])).0);
    lemma_count_kind_two(texts, k, i, j);
}

/// Split text `t` names a split that counts as a chapter-type split: an
/// 8-byte name, or one containing `HeartGem`, `AreaComplete` or
/// `Cassette`.
pub open spec fn chapter_type(t: Seq<char>) -> bool {
    eight_bytes(t) || names(t, "HeartGem"@) || names(t, "AreaComplete"@) || names(t, "Cassette"@)
}

proof fn lemma_count_kind_zero(texts: Seq<Seq<char>>, k: SplitCategory)
    requires
        forall|i: int|
            0 <= i < texts.len() ==> category(name_value(split_text(#[trigger] texts[i])).0) != k,
    ensures
        count_kind(texts, k) == 0,
    decreases texts.len(),
{
    if texts.len() > 0 {
        let init = texts.drop_last();
        assert forall|i: int| 0 <= i < init.len() implies category(
            name_value(split_text(#[trigger] init[i])).0,
        ) != k by {
            assert(init[i] == texts[i]);
        }
        lemma_count_kind_zero(init, k);
        assert(texts.last() == texts[texts.len() - 1]);
    }
}

/// The shape of a configuration: one split per `<Split>` text; every
/// room splits exactly when there are none; a chapter-type split anywhere
/// makes the run a chapter run, and a list without any is offset by one
/// (its first split is the start trigger), never by more.
pub proof fn law_config_shape(cfg: RunConfig, xml: Seq<char>)
    requires
        config_matches(cfg, xml),
    ensures
        cfg.splits@.len() == split_texts(xml).len(),
        cfg.every_room <==> split_texts(xml).len() == 0,
        cfg.chapter_splits <==> exists|i: int|
            0 <= i < split_texts(xml).len() && #[trigger] chapter_type(split_texts(xml)[i]),
        cfg.add_amount <= 1,
        cfg.add_amount == 1 <==> (split_texts(xml).len() > 0 && !cfg.chapter_splits),
{
    let texts = split_texts(xml);
    assert(cfg.split_models().len() == texts.len());
    if exists|i: int| 0 <= i < texts.len() && #[trigger] chapter_type(texts[i]) {
        let i = choose|i: int| 0 <= i < texts.len() && #[trigger] chapter_type(texts[i]);
        let k = category(name_value(split_text(texts[i])).0);
        lemma_count_kind_one(texts, k, i);
    } else {
        assert forall|i: int| 0 <= i < texts.len() implies category(
            name_value(split_text(#[trigger] texts[i])).0,
        ) == SplitCategory::Other by {
            assert(!chapter_type(texts[i]));
        }
        lemma_count_kind_zero(texts, SplitCategory::Chapter);
        lemma_count_kind_zero(texts, SplitCategory::Heart);
        lemma_count_kind_zero(texts, SplitCategory::Area);
        lemma_count_kind_zero(texts, SplitCategory::Cassette);
    }
}

/// A single split (or none) is always an individual-level run.
pub proof fn law_one_split_is_individual_level(cfg: RunConfig, xml: Seq<char>)
    requires
        config_matches(cfg, xml),
        split_texts(xml).len() <= 1,
    ensures
        cfg.il_splits,
{
    let texts = split_texts(xml);
    lemma_count_kind_bound(texts, SplitCategory::Chapter);
    lemma_count_kind_bound(texts, SplitCategory::Heart);
    lemma_count_kind_bound(texts, SplitCategory::Area);
    lemma_count_kind_bound(texts, SplitCategory::Cassette);
}

fn file_time_offset(xml: &str) -> (r: bool)
    ensures
        r == file_time_offset_spec(xml@),
{
    let texts = xml_texts(xml, "FileTimeOffset");
    proof {
        assert(texts@.len() == xml_texts_spec(xml@, "FileTimeOffset"@).len());
    }
    if texts.len() == 0 {
        return false;
    }
    let first = to_chars(texts[0].as_str());
    proof {
        assert(texts@.map_values(|t: String| t@)[0] == texts@[0]@);
    }
    let trimmed = trim_chars(first.as_slice());
    let t = to_chars("true");
    chars_eq_ignore_ascii_case(trimmed.as_slice(), t.as_slice())
}

/// The split text of one `<Split>` element's raw text.
fn split_text_exec(raw: &str) -> (r: Vec<char>)
    ensures
        r@ == split_text(raw@),
{
    let cs = to_chars(raw);
    let outer = from_chars(trim_chars(cs.as_slice()).as_slice());
    let unescaped = xml_unescape(outer.as_str());
    let uc = to_chars(unescaped.as_str());
    trim_chars(uc.as_slice())
}

/// A split name that selects a split of its own (every other name stands
/// for a manual split).
pub open spec fn known_split_name(name: Seq<char>) -> bool {
    ||| plain_split(name) is Some
    ||| name == "AreaComplete"@
    ||| name == "AreaOnEnter"@
    ||| name == "AreaOnExit"@
    ||| name == "LevelEnter"@
    ||| name == "LevelExit"@
    ||| checkpoint_split(name) is Some
    ||| cassette_split(name) is Some
    ||| heart_split(name) is Some
}

/// The names, in order, of the split texts `texts` that name no known
/// split.
pub open spec fn unknown_names(texts: Seq<Seq<char>>) -> Seq<Seq<char>>
    decreases texts.len(),
{
    if texts.len() == 0 {
        seq![]
    } else {
        let rest = unknown_names(texts.drop_last());
        let name = name_value(split_text(texts.last())).0;
        if known_split_name(name) {
            rest
        } else {
            rest.push(name)
        }
    }
}

/// A split text whose name is unknown reads as a manual split.
pub proof fn law_unknown_name_is_manual(text: Seq<char>)
    requires
        !known_split_name(name_value(text).0),
    ensures
        parse_split_spec(text) == SplitModel::Manual,
{
}

/// Whether `name` names a known split.
pub fn split_name_known(name: &[char]) -> (r: bool)
    ensures
        r == known_split_name(name@),
{
    let plain = match plain_split_exec(name) {
        Some(_) => true,
        None => false,
    };
    let checkpoint = match checkpoint_split_exec(name) {
        Some(_) => true,
        None => false,
    };
    let cassette = match cassette_split_exec(name) {
        Some(_) => true,
        None => false,
    };
    let heart = match heart_split_exec(name) {
        Some(_) => true,
        None => false,
    };
    plain || chars_eq_str(name, "AreaComplete") || chars_eq_str(name, "AreaOnEnter")
        || chars_eq_str(name, "AreaOnExit") || chars_eq_str(name, "LevelEnter") || chars_eq_str(
        name,
        "LevelExit",
    ) || checkpoint || cassette || heart
}

/// The names, in order, of the `<Split>` texts of the settings that name
/// no known split (each such split reads as manual).
pub fn unknown_split_names(xml: &str) -> (r: Vec<String>)
    ensures
        r@.map_values(|n: String| n@) == unknown_names(split_texts(xml@)),
{
    let texts = xml_texts(xml, "Split");
    let ghost tv = texts@.map_values(|t: String| t@);
    assert(tv == split_texts(xml@));
    let mut names: Vec<String> = Vec::new();
    let mut i: usize = 0;
    while i < texts.len()
        invariant
            tv == texts@.map_values(|t: String| t@),
            i <= tv.len(),
            names@.map_values(|n: String| n@) == unknown_names(tv.take(i as int)),
        decreases tv.len() - i,
    {
        let ghost prefix = tv.take(i as int);
        let ghost t = tv[i as int];
        assert(texts@[i as int]@ == t);
        let text = split_text_exec(texts[i].as_str());
        let (name, _) = split_first_exec(text.as_slice(), ',');
        let known = split_name_known(name.as_slice());
        let ghost before = names@;
        if !known {
            names.push(from_chars(name.as_slice()));
        }
        i = i + 1;
        proof {
            let next = tv.take(i as int);
            assert(next.drop_last() =~= prefix);
            assert(next.last() == t);
            if !known {
                assert(names@.map_values(|n: String| n@) =~= before.map_values(|n: String| n@).push(
                    name@,
                ));
            }
        }
    }
    assert(tv.take(tv.len() as int) =~= tv);
    names
}

/// Reads the run configuration from the inner XML of
/// `<AutoSplitterSettings>`.
pub fn parse_config(xml: &str) -> (r: RunConfig)
    requires
        xml@.len() <= u32::MAX,
    ensures
        config_matches(r, xml@),
{
    let file_time_offset = file_time_offset(xml);
    let texts = xml_texts(xml, "Split");
    let ghost tv = texts@.map_values(|t: String| t@);
    proof {
        lemma_texts_len(xml@, crate::settings_xml::open_tag("Split"@), crate::settings_xml::close_tag("Split"@));
        assert(tv == split_texts(xml@));
    }
    let mut counts = Counts { chapter: 0, heart: 0, area: 0, cassette: 0 };
    let mut splits: Vec<SplitDef> = Vec::new();
    let mut i: usize = 0;
    while i < texts.len()
        invariant
            tv == texts@.map_values(|t: String| t@),
            tv.len() <= u32::MAX,
            i <= tv.len(),
            splits@.map_values(|d: SplitDef| d@) == tv.take(i as int).map_values(
                |t: Seq<char>| parse_split_spec(split_text(t)),
            ),
            counts.chapter == count_kind(tv.take(i as int), SplitCategory::Chapter),
            counts.heart == count_kind(tv.take(i as int), SplitCategory::Heart),
            counts.area == count_kind(tv.take(i as int), SplitCategory::Area),
            counts.cassette == count_kind(tv.take(i as int), SplitCategory::Cassette),
        decreases tv.len() - i,
    {
        let ghost prefix = tv.take(i as int);
        let ghost t = tv[i as int];
        proof {
            lemma_count_kind_bound(prefix, SplitCategory::Chapter);
            lemma_count_kind_bound(prefix, SplitCategory::Heart);
            lemma_count_kind_bound(prefix, SplitCategory::Area);
            lemma_count_kind_bound(prefix, SplitCategory::Cassette);
            assert(texts@[i as int]@ == t);
        }
        let text = split_text_exec(texts[i].as_str());
        let def = parse_split(text.as_slice(), &mut counts);
        let ghost dv = def@;
        let ghost before = splits@;
        splits.push(def);
        i = i + 1;
        proof {
            let next = tv.take(i as int);
            assert(next.drop_last() =~= prefix);
            assert(next.last() == t);
            assert(splits@ == before.push(def));
            assert(splits@.map_values(|d: SplitDef| d@) =~= before.map_values(|d: SplitDef| d@).push(dv));
            assert(next =~= prefix.push(t));
            assert(next.map_values(|t: Seq<char>| parse_split_spec(split_text(t))) =~= prefix.map_values(
                |t: Seq<char>| parse_split_spec(split_text(t)),
            ).push(parse_split_spec(split_text(t))));
            assert(splits@.map_values(|d: SplitDef| d@) =~= next.map_values(
                |t: Seq<char>| parse_split_spec(split_text(t)),
            ));
        }
    }
    proof {
        assert(tv.take(tv.len() as int) =~= tv);
    }
    let every_room = splits.len() == 0;
    let il_splits = counts.chapter <= 1 && counts.heart <= 1 && counts.area <= 1 && counts.cassette
        <= 1;
    let chapter_splits = counts.chapter > 0 || counts.heart > 0 || counts.area > 0 || counts.cassette
        > 0;
    let add_amount: usize = if splits.len() != 0 && !chapter_splits {
        1
    } else {
        0
    };
    RunConfig { splits, every_room, il_splits, chapter_splits, file_time_offset, add_amount }
}

// ---------------------------------------------------------------------------
// Evaluation
// ---------------------------------------------------------------------------

/// `s` starts with `prefix`, ASCII case ignored.
pub open spec fn starts_with_ignore_case_spec(s: Seq<u8>, prefix: Seq<u8>) -> bool {
    s.len() >= prefix.len() && bytes_eq_ignore_case(s.take(prefix.len() as int), prefix)
}

/// The bytes of `credits`.
pub open spec fn credits() -> Seq<u8> {
    seq![0x63u8, 0x72, 0x65, 0x64, 0x69, 0x74, 0x73]
}

/// A chapter-complete split: the rising edge of `complete` in the wanted
/// area marks the chapter as being exited (and splits at once in an
/// individual-level run); once exiting, the falling edge of `complete`
/// splits.  Returns the decision and the new exiting flag.
pub open spec fn chapter_split_spec(
    exiting: bool,
    il_splits: bool,
    chapter_area: Option<i32>,
    s: GameState,
    p: GameState,
) -> (bool, bool) {
    if !exiting {
        let area_ok = match chapter_area {
            None => true,
            Some(a) => s.area == a,
        };
        let credits_ok = chapter_area != Some(AREA_THE_SUMMIT) || (s.room_len > 0
            && !starts_with_ignore_case_spec(s.room_name(), credits()));
        let now_exiting = area_ok && s.complete && !p.complete && credits_ok;
        (now_exiting && il_splits, now_exiting)
    } else {
        (!s.complete && p.complete, exiting)
    }
}

/// `None` matches any value.
pub open spec fn mode_ok(mode: Option<i32>, want: i32) -> bool {
    match mode {
        None => true,
        Some(m) => want == m,
    }
}

/// Whether split `d` fires between samples `p` and `s`, and the new exiting
/// flag.
pub open spec fn eval_split_spec(
    d: SplitModel,
    il: bool,
    il_or_fto: bool,
    exiting: bool,
    s: GameState,
    p: GameState,
) -> (bool, bool) {
    match d {
        SplitModel::Manual => (false, exiting),
        SplitModel::CompleteAny => chapter_split_spec(exiting, il, None, s, p),
        SplitModel::Complete { area } => chapter_split_spec(exiting, il, Some(area), s, p),
        SplitModel::CompleteArea { area, mode } => {
            let (fired, ex) = chapter_split_spec(exiting, il, Some(area), s, p);
            (fired && mode_ok(mode, p.mode), ex)
        },
        SplitModel::AreaEnter { area, mode } => (s.area != p.area && s.area == area && (
        mode is None || (s.mode != p.mode && mode_ok(mode, s.mode))), exiting),
        SplitModel::AreaExit { area, mode } => (s.area != p.area && p.area == area && (mode is None
            || (s.mode != p.mode && mode_ok(mode, p.mode))), exiting),
        SplitModel::Checkpoint { area, a_room, b_room } => {
            let expected = if s.mode == MODE_A_SIDE {
                a_room
            } else {
                b_room
            };
            (s.area == area && s.room_name() == encode_utf8(expected), exiting)
        },
        SplitModel::Cassette { area } => (s.area == area && ((il_or_fto && s.ch_cassette)
            || s.cassettes == p.cassettes + 1), exiting),
        SplitModel::HeartGem { area } => (s.area == area && ((il_or_fto && s.ch_heart) || s.hearts
            == p.hearts + 1), exiting),
        SplitModel::HeartGemAny => ((il_or_fto && s.ch_heart) || s.hearts == p.hearts + 1, exiting),
        SplitModel::StrawberryPickup => (s.strawberries == p.strawberries + 1, exiting),
        SplitModel::GoldenBerry => (s.ch_golden && !p.ch_golden, exiting),
        SplitModel::RoomEnter { name } => (s.area != AREA_MENU && s.room_name() != p.room_name()
            && bytes_eq_ignore_case(s.room_name(), encode_utf8(name)), exiting),
        SplitModel::RoomExit { name } => (s.area != AREA_MENU && s.room_name() != p.room_name()
            && bytes_eq_ignore_case(p.room_name(), encode_utf8(name)), exiting),
    }
}

/// Whether the split at `idx` fires between samples `p` and `s`, and the
/// new exiting flag.  Without listed splits every room change (in a
/// chapter) and every chapter completion splits.
pub open spec fn eval_spec(cfg: RunConfig, exiting: bool, idx: int, s: GameState, p: GameState) -> (
    bool,
    bool,
) {
    if cfg.every_room {
        let room_change = s.area != AREA_MENU && s.room_len > 0 && p.room_len > 0 && s.room_name()
            != p.room_name();
        (room_change || (s.complete && !p.complete), exiting)
    } else if 0 <= idx < cfg.splits@.len() {
        eval_split_spec(
            cfg.splits@[idx]@,
            cfg.il_splits,
            cfg.il_splits || cfg.file_time_offset,
            exiting,
            s,
            p,
        )
    } else {
        (false, exiting)
    }
}

pub fn eq_ignore_case(a: &[u8], b: &[u8]) -> (r: bool)
    ensures
        r == bytes_eq_ignore_case(a@, b@),
{
    bytes_eq_ignore_ascii_case(a, b)
}

pub fn starts_with_ignore_case(s: &[u8], prefix: &[u8]) -> (r: bool)
    ensures
        r == starts_with_ignore_case_spec(s@, prefix@),
{
    if s.len() < prefix.len() {
        return false;
    }
    let head = &s[0..prefix.len()];
    eq_ignore_case(head, prefix)
}

fn chapter_split(
    exiting: &mut bool,
    il_splits: bool,
    chapter_area: Option<i32>,
    s: &GameState,
    p: &GameState,
) -> (r: bool)
    requires
        s.wf(),
    ensures
        (r, *final(exiting)) == chapter_split_spec(*old(exiting), il_splits, chapter_area, *s, *p),
{
    if !*exiting {
        let area_ok = match chapter_area {
            None => true,
            Some(a) => s.area == a,
        };
        let credits_prefix: [u8; 7] = [0x63u8, 0x72, 0x65, 0x64, 0x69, 0x74, 0x73];
        assert(credits_prefix@ =~= credits());
        let is_summit = match chapter_area {
            Some(a) => a == AREA_THE_SUMMIT,
            None => false,
        };
        let credits_ok = !is_summit || (s.room_len > 0 && !starts_with_ignore_case(
            s.room(),
            credits_prefix.as_slice(),
        ));
        *exiting = area_ok && s.complete && !p.complete && credits_ok;
        *exiting && il_splits
    } else {
        !s.complete && p.complete
    }
}

/// Whether the split at `idx` fires between the previous sample `p` and
/// the current sample `s`.
pub fn eval(cfg: &RunConfig, exiting: &mut bool, idx: usize, s: &GameState, p: &GameState) -> (r:
    bool)
    requires
        s.wf(),
        p.wf(),
    ensures
        (r, *final(exiting)) == eval_spec(*cfg, *old(exiting), idx as int, *s, *p),
{
    if cfg.every_room {
        let room_change = s.area != AREA_MENU && s.room_len > 0 && p.room_len > 0 && !bytes_eq(
            s.room(),
            p.room(),
        );
        return room_change || (s.complete && !p.complete);
    }
    let il = cfg.il_splits;
    let il_or_fto = il || cfg.file_time_offset;
    if idx >= cfg.splits.len() {
        return false;
    }
    match &cfg.splits[idx] {
        SplitDef::Manual => false,
        SplitDef::CompleteAny => chapter_split(exiting, il, None, s, p),
        SplitDef::Complete { area } => chapter_split(exiting, il, Some(*area), s, p),
        SplitDef::CompleteArea { area, mode } => {
            let fired = chapter_split(exiting, il, Some(*area), s, p);
            fired && match mode {
                None => true,
                Some(m) => p.mode == *m,
            }
        },
        SplitDef::AreaEnter { area, mode } => {
            s.area != p.area && s.area == *area && match mode {
                None => true,
                Some(m) => s.mode != p.mode && s.mode == *m,
            }
        },
        SplitDef::AreaExit { area, mode } => {
            s.area != p.area && p.area == *area && match mode {
                None => true,
                Some(m) => s.mode != p.mode && p.mode == *m,
            }
        },
        SplitDef::Checkpoint { area, a_room, b_room } => {
            let expected: &str = if s.mode == MODE_A_SIDE {
                a_room
            } else {
                b_room
            };
            s.area == *area && bytes_eq(s.room(), expected.as_bytes())
        },
        SplitDef::Cassette { area } => {
            s.area == *area && ((il_or_fto && s.ch_cassette) || s.cassettes as i64 == p.cassettes as i64
                + 1)
        },
        SplitDef::HeartGem { area } => {
            s.area == *area && ((il_or_fto && s.ch_heart) || s.hearts as i64 == p.hearts as i64 + 1)
        },
        SplitDef::HeartGemAny => (il_or_fto && s.ch_heart) || s.hearts as i64 == p.hearts as i64 + 1,
        SplitDef::StrawberryPickup => s.strawberries as i64 == p.strawberries as i64 + 1,
        SplitDef::GoldenBerry => s.ch_golden && !p.ch_golden,
        SplitDef::RoomEnter { name } => {
            s.area != AREA_MENU && !bytes_eq(s.room(), p.room()) && eq_ignore_case(
                s.room(),
                name.as_str().as_bytes(),
            )
        },
        SplitDef::RoomExit { name } => {
            s.area != AREA_MENU && !bytes_eq(s.room(), p.room()) && eq_ignore_case(
                p.room(),
                name.as_str().as_bytes(),
            )
        },
    }
}

/// Start trigger (used by the testers): runs made only of non-chapter
/// splits start when their first split fires; otherwise a run starts on the
/// rising edge of `started`.
pub open spec fn should_start_spec(cfg: RunConfig, exiting: bool, s: GameState, p: GameState) -> (
    bool,
    bool,
) {
    if !cfg.chapter_splits && cfg.splits@.len() != 0 {
        eval_spec(cfg, exiting, 0, s, p)
    } else {
        (s.started && !p.started, exiting)
    }
}

/// A chapter split for one side of a chapter (`AreaComplete,<area>-<side>`)
/// fires only when the side completed was that side: the previous sample
/// is in that mode; and it fires only on the chapter edge, the rising edge
/// of `complete` in the area in an individual-level run, or the falling
/// edge once the chapter is being exited.
pub proof fn law_complete_area_needs_side(
    cfg: RunConfig,
    exiting: bool,
    idx: int,
    s: GameState,
    p: GameState,
)
    requires
        !cfg.every_room,
        0 <= idx < cfg.splits@.len(),
    ensures
        match cfg.splits@[idx]@ {
            SplitModel::CompleteArea { area, mode: Some(m) } => eval_spec(cfg, exiting, idx, s, p).0
                ==> {
                &&& p.mode == m
                &&& if exiting {
                    !s.complete && p.complete
                } else {
                    s.area == area && s.complete && !p.complete && cfg.il_splits
                }
            },
            _ => true,
        },
{
}

/// What each kind of split waits for, between the previous sample `p` and
/// the current one `s`: entering or leaving an area (in a given mode),
/// standing in the checkpoint room of the side being played, one more
/// cassette, heart or strawberry (or the chapter's collectible flag when
/// individual levels or file-time offset are on), grabbing the golden
/// berry, or moving into or out of a named room.  Only chapter splits
/// touch the exiting flag; a manual split never fires.
pub proof fn law_split_kinds(cfg: RunConfig, exiting: bool, idx: int, s: GameState, p: GameState)
    requires
        !cfg.every_room,
        0 <= idx < cfg.splits@.len(),
    ensures
        ({
            let (fired, ex) = eval_spec(cfg, exiting, idx, s, p);
            let flags_count = cfg.il_splits || cfg.file_time_offset;
            match cfg.splits@[idx]@ {
                SplitModel::Manual => !fired && ex == exiting,
                SplitModel::AreaEnter { area, mode } => ex == exiting && (fired <==> (p.area
                    != area && s.area == area && match mode {
                    None => true,
                    Some(m) => p.mode != m && s.mode == m,
                })),
                SplitModel::AreaExit { area, mode } => ex == exiting && (fired <==> (p.area == area
                    && s.area != area && match mode {
                    None => true,
                    Some(m) => p.mode == m && s.mode != m,
                })),
                SplitModel::Checkpoint { area, a_room, b_room } => ex == exiting && (fired <==> (
                s.area == area && s.room_name() == encode_utf8(
                    if s.mode == 0 {
                        a_room
                    } else {
                        b_room
                    },
                ))),
                SplitModel::Cassette { area } => ex == exiting && (fired <==> (s.area == area && (
                s.cassettes == p.cassettes + 1 || (flags_count && s.ch_cassette)))),
                SplitModel::HeartGem { area } => ex == exiting && (fired <==> (s.area == area && (
                s.hearts == p.hearts + 1 || (flags_count && s.ch_heart)))),
                SplitModel::HeartGemAny => ex == exiting && (fired <==> (s.hearts == p.hearts + 1
                    || (flags_count && s.ch_heart))),
                SplitModel::StrawberryPickup => ex == exiting && (fired <==> s.strawberries
                    == p.strawberries + 1),
                SplitModel::GoldenBerry => ex == exiting && (fired <==> (s.ch_golden
                    && !p.ch_golden)),
                SplitModel::RoomEnter { name } => ex == exiting && (fired <==> (s.area != -1
                    && s.room_name() != p.room_name() && bytes_eq_ignore_case(
                    s.room_name(),
                    encode_utf8(name),
                ))),
                SplitModel::RoomExit { name } => ex == exiting && (fired <==> (s.area != -1
                    && s.room_name() != p.room_name() && bytes_eq_ignore_case(
                    p.room_name(),
                    encode_utf8(name),
                ))),
                _ => true,
            }
        }),
{
}

/// The chapter splits (any chapter, one chapter, one side of a chapter):
/// outside a chapter exit, the rising edge of `complete` in the wanted
/// area starts the exit, except in chapter 7 while the credits roll or
/// without a room, and splits at once only in an individual-level run;
/// during an exit the falling edge of `complete` splits and the exit flag
/// stays.  Beyond the listed splits nothing fires.
pub proof fn law_chapter_splits(cfg: RunConfig, exiting: bool, idx: int, s: GameState, p: GameState)
    requires
        !cfg.every_room,
    ensures
        ({
            let (fired, ex) = eval_spec(cfg, exiting, idx, s, p);
            if !(0 <= idx < cfg.splits@.len()) {
                !fired && ex == exiting
            } else {
                let wanted = match cfg.splits@[idx]@ {
                    SplitModel::CompleteAny => Some(None),
                    SplitModel::Complete { area } => Some(Some(area)),
                    SplitModel::CompleteArea { area, mode } => Some(Some(area)),
                    _ => None,
                };
                let side_ok = match cfg.splits@[idx]@ {
                    SplitModel::CompleteArea { area, mode: Some(m) } => p.mode == m,
                    _ => true,
                };
                match wanted {
                    Some(a) => if exiting {
                        ex && (fired <==> (!s.complete && p.complete && side_ok))
                    } else {
                        let credits = a == Some(7i32) && (s.room_len == 0
                            || starts_with_ignore_case_spec(s.room_name(), credits()));
                        &&& ex <==> (s.complete && !p.complete && !credits && match a {
                            None => true,
                            Some(area) => s.area == area,
                        })
                        &&& fired <==> (ex && cfg.il_splits && side_ok)
                    },
                    None => true,
                }
            }
        }),
{
}

/// Without listed splits, every room change inside a chapter (both rooms
/// known) and every chapter completion splits.
pub proof fn law_every_room(cfg: RunConfig, exiting: bool, idx: int, s: GameState, p: GameState)
    requires
        cfg.every_room,
    ensures
        eval_spec(cfg, exiting, idx, s, p).0 <==> ((s.area != -1 && s.room_len > 0 && p.room_len > 0
            && s.room_name() != p.room_name()) || (s.complete && !p.complete)),
        eval_spec(cfg, exiting, idx, s, p).1 == exiting,
{
}

/// Without split texts, or with chapter-type splits, the run starts on the
/// rising edge of `started` and only then: never while the previous sample
/// was already started; the exiting flag is left alone.
pub proof fn law_start_on_rising_edge(cfg: RunConfig, exiting: bool, s: GameState, p: GameState)
    requires
        cfg.chapter_splits || cfg.splits@.len() == 0,
    ensures
        p.started ==> !should_start_spec(cfg, exiting, s, p).0,
        !s.started ==> !should_start_spec(cfg, exiting, s, p).0,
        s.started && !p.started ==> should_start_spec(cfg, exiting, s, p).0,
        should_start_spec(cfg, exiting, s, p).1 == exiting,
{
}

/// A list of splits without chapter-type splits uses its first split as
/// the start trigger: starting decides exactly as evaluating split 0 would
/// (the host's split indices are then offset by one).
pub proof fn law_start_on_first_split(cfg: RunConfig, exiting: bool, s: GameState, p: GameState)
    requires
        !cfg.chapter_splits,
        cfg.splits@.len() > 0,
    ensures
        should_start_spec(cfg, exiting, s, p) == eval_spec(cfg, exiting, 0, s, p),
{
}

pub fn should_start(cfg: &RunConfig, exiting: &mut bool, s: &GameState, p: &GameState) -> (r:
    bool)
    requires
        s.wf(),
        p.wf(),
    ensures
        (r, *final(exiting)) == should_start_spec(*cfg, *old(exiting), *s, *p),
{
    if !cfg.chapter_splits && cfg.splits.len() != 0 {
        eval(cfg, exiting, 0, s, p)
    } else {
        s.started && !p.started
    }
}

} // verus!
