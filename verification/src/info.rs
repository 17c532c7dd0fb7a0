//! The `/info` advertisement of a receiver.

use vstd::prelude::*;
use vstd::string::StringExecFns;
use vstd::utf8::{is_ascii_chars, is_ascii_chars_encode_utf8};

use crate::ascii::{
    contains_ignore_ascii_case, eq_ignore_ascii_case, has_word, is_word, law_only_case_is_ignored,
    law_words_are_found_anywhere, lowered,
};

verus! {

/// Bytes in a property list.
#[derive(Debug, Clone, PartialEq, Eq, Default)]
pub struct PlistByteArray {
    pub bytes: Vec<u8>,
}

impl From<Vec<u8>> for PlistByteArray {
    fn from(bytes: Vec<u8>) -> (array: Self) {
        PlistByteArray { bytes }
    }
}

impl vstd::std_specs::convert::FromSpecImpl<Vec<u8>> for PlistByteArray {
    open spec fn obeys_from_spec() -> bool {
        true
    }

    open spec fn from_spec(bytes: Vec<u8>) -> Self {
        PlistByteArray { bytes }
    }
}

/// A truth value, which a property list may write as a number.
#[derive(Debug, Clone, Copy, PartialEq, Eq, Default)]
pub struct FlexBool {
    pub value: bool,
}

impl From<bool> for FlexBool {
    fn from(value: bool) -> (flex: Self) {
        FlexBool { value }
    }
}

impl vstd::std_specs::convert::FromSpecImpl<bool> for FlexBool {
    open spec fn obeys_from_spec() -> bool {
        true
    }

    open spec fn from_spec(value: bool) -> Self {
        FlexBool { value }
    }
}

/// What a receiver can do, as a mask. Bits without a name are kept.
#[derive(Debug, Clone, Copy, PartialEq, Eq, Default)]
pub struct AirPlayFeature {
    pub mask: u64,
}

/// The receiver has a screen.
pub const SCREEN: u64 = 0x80;

/// The receiver takes redundant audio.
pub const REDUNDANT_AUDIO: u64 = 0x800;

/// The receiver decodes AAC-LC.
pub const AUDIO_AAC_LC: u64 = 0x10_0000;

/// The receiver is controlled by CarPlay.
pub const CARPLAY_CONTROL: u64 = 0x20_0000_0000;

/// The receiver pairs and encrypts.
pub const HK_PAIRING_AND_ENCRYPT: u64 = 0x40_0000_0000;

/// The receiver decodes more than one video codec.
pub const SUPPORTS_SCREEN_MULTI_CODEC: u64 = 0x400_0000_0000;

impl AirPlayFeature {
    /// The features of a mask, with unknown bits.
    pub fn from_bits_retain(mask: u64) -> (features: Self)
        ensures
            features.mask == mask,
    {
        AirPlayFeature { mask }
    }

    /// The mask.
    pub fn bits(&self) -> (mask: u64)
        ensures
            mask == self.mask,
    {
        self.mask
    }

    /// Whether all features of a mask are there.
    pub fn contains(&self, mask: u64) -> (all: bool)
        ensures
            all == (self.mask & mask == mask),
    {
        self.mask & mask == mask
    }
}

/// The state that a receiver reports, as a mask.
#[derive(Debug, Clone, Copy, PartialEq, Eq, Default)]
pub struct AirPlayStatus {
    pub mask: u64,
}

/// What a display can do, as a mask.
#[derive(Debug, Clone, Copy, PartialEq, Eq, Default)]
pub struct DisplayFeature {
    pub mask: u64,
}

/// Audio formats, as a mask.
#[derive(Debug, Clone, Copy, PartialEq, Eq, Default)]
pub struct AudioFormat {
    pub mask: u64,
}

/// The type of a stream, as its number.
#[derive(Debug, Clone, Copy, PartialEq, Eq, Default)]
pub struct StreamType {
    pub code: u64,
}

/// How a user operates a display, as its number.
#[derive(Debug, Clone, Copy, PartialEq, Eq, Default)]
pub struct PrimaryInputDevice {
    pub code: u64,
}

/// What audio is for, by name.
#[derive(Debug, Clone, PartialEq, Eq, Default)]
pub struct AudioType {
    pub name: String,
}

/// A feature that has no bit, by name.
#[derive(Debug, Clone, PartialEq, Eq, Default)]
pub struct ExtendedFeature {
    pub name: String,
}

/// A part of the user interface that may be limited, by name.
#[derive(Debug, Clone, PartialEq, Eq, Default)]
pub struct LimitedUIElement {
    pub name: String,
}

/// Who owns screen, audio and the rest, in encoded form.
#[derive(Debug, Clone, PartialEq, Eq, Default)]
pub struct ChangeModes {
    pub encoded: Vec<u8>,
}

/// A request for `/info`.
#[derive(Debug, Clone, PartialEq, Eq, Default)]
pub struct InfoMessage {
    pub qualifier: Option<Vec<String>>,
}

/// An answer with the record of the service.
#[derive(Debug, Clone, PartialEq, Eq, Default)]
pub struct InfoMessageTxtAirPlayResponse {
    pub txt_airplay: PlistByteArray,
}

/// That a receiver decodes HEVC.
#[derive(Debug, Clone, Copy, PartialEq, Eq, Default)]
pub struct HevcInfo {}

/// An icon of the car maker.
#[derive(Debug, Clone, PartialEq, Eq, Default)]
pub struct OemIcon {
    pub image_data: PlistByteArray,
    pub height_pixels: u32,
    pub width_pixels: u32,
    pub prerendered: FlexBool,
}

/// The formats of a stream.
#[derive(Debug, Clone, PartialEq, Eq, Default)]
pub struct AudioFormatStruct {
    pub audio_input_formats: Option<AudioFormat>,
    pub audio_output_formats: Option<AudioFormat>,
    pub stream_type: StreamType,
    pub audio_type: Option<AudioType>,
}

/// The latency of a stream.
#[derive(Debug, Clone, PartialEq, Eq, Default)]
pub struct AudioLatency {
    pub stream_type: Option<StreamType>,
    pub audio_type: Option<AudioType>,
    pub sr: Option<u64>,
    pub ss: Option<u64>,
    pub ch: Option<u64>,
    pub input_latency_micros: Option<u64>,
    pub output_latency_micros: Option<u64>,
}

/// What tells displays apart. Types and namespaces differ: the number 7, the text "7", a display
/// with that UUID and a device with that UUID have nothing to do with each other.
#[derive(Debug, Clone, PartialEq, Eq)]
pub enum DisplayId {
    String(String),
    Number(u64),
}

/// A display.
#[derive(Debug, Clone, PartialEq, Eq, Default)]
pub struct Display {
    pub name: Option<String>,
    pub display_id: Option<DisplayId>,
    pub edid: Option<PlistByteArray>,
    pub features: DisplayFeature,
    pub max_fps: Option<u32>,
    pub height_pixels: u32,
    pub width_pixels: u32,
    pub height_physical: u32,
    pub width_physical: u32,
    pub uuid: String,
    pub primary_input_device: Option<PrimaryInputDevice>,
}

/// An input device.
#[derive(Debug, Clone, PartialEq, Eq, Default)]
pub struct HidDevice {
    pub display_uuid: Option<String>,
    pub display_id: Option<DisplayId>,
    pub hid_country_code: u16,
    pub hid_descriptor: PlistByteArray,
    pub hid_product_id: u16,
    pub hid_vendor_id: u16,
    pub name: String,
    pub uuid: String,
}

/// What a receiver says of itself.
#[derive(Debug, Clone, PartialEq, Eq, Default)]
pub struct InfoMessageResponse {
    pub audio_formats: Vec<AudioFormatStruct>,
    pub audio_latencies: Vec<AudioLatency>,
    pub bluetooth_ids: Vec<String>,
    pub device_id: String,
    pub displays: Vec<Display>,
    pub extended_features: Vec<ExtendedFeature>,
    pub features: AirPlayFeature,
    pub firmware_revision: String,
    pub hardware_revision: String,
    pub hid_devices: Vec<HidDevice>,
    pub hid_languages: Vec<String>,
    pub keep_alive_low_power: bool,
    pub keep_alive_send_stats_as_body: bool,
    pub limited_ui_elements: Vec<LimitedUIElement>,
    pub limited_ui: FlexBool,
    pub manufacturer: String,
    pub model: String,
    pub modes: ChangeModes,
    /// "CarPlay".
    pub name: String,
    pub night_mode: Option<FlexBool>,
    pub oem_icon: Option<PlistByteArray>,
    pub oem_icons: Vec<OemIcon>,
    pub oem_icon_label: Option<String>,
    pub oem_icon_visible: FlexBool,
    pub os_info: Option<String>,
    /// "1.0".
    pub protocol_version: Option<String>,
    pub right_hand_drive: FlexBool,
    /// The version of the SDK.
    pub source_version: String,
    pub status_flags: AirPlayStatus,
    pub hevc_info: Option<HevcInfo>,
}

/// Whether a name says that a display is an alternate one.
pub open spec fn alternate_name(name: Seq<char>) -> bool {
    ||| is_word(name, "alt"@)
    ||| is_word(name, "alternate"@)
    ||| is_word(name, "cluster"@)
    ||| has_word(name, "altscreen"@)
}

/// Whether a name says that a display is the main one.
pub open spec fn main_name(name: Seq<char>) -> bool {
    ||| is_word(name, "main"@)
    ||| is_word(name, "mainScreen"@)
    ||| is_word(name, "primary"@)
}

fn names_alternate(name: &str) -> (yes: bool)
    ensures
        yes == alternate_name(name@),
{
    eq_ignore_ascii_case(name, "alt") || eq_ignore_ascii_case(name, "alternate")
        || eq_ignore_ascii_case(name, "cluster") || contains_ignore_ascii_case(name, "altscreen")
}

fn names_main(name: &str) -> (yes: bool)
    ensures
        yes == main_name(name@),
{
    eq_ignore_ascii_case(name, "main") || eq_ignore_ascii_case(name, "mainScreen")
        || eq_ignore_ascii_case(name, "primary")
}

impl Display {
    /// Whether the name or the UUID says that this is an alternate display. Neither its size nor its
    /// place in a list nor a number says so.
    pub open spec fn alternate(self) -> bool {
        ||| alternate_name(self.uuid@)
        ||| self.name matches Some(name) && alternate_name(name@)
    }

    /// Whether the name or the UUID says that this is the main display.
    pub open spec fn named_main(self) -> bool {
        &&& !self.alternate()
        &&& {
            ||| main_name(self.uuid@)
            ||| self.name matches Some(name) && main_name(name@)
        }
    }

    /// Whether this is an alternate display. Older receivers use the UUID as its name.
    pub fn is_alternate(&self) -> (yes: bool)
        ensures
            yes == self.alternate(),
    {
        if names_alternate(self.uuid.as_str()) {
            return true;
        }
        match &self.name {
            Some(name) => names_alternate(name.as_str()),
            None => false,
        }
    }

    /// Whether this is called the main display.
    pub fn is_named_main(&self) -> (yes: bool)
        ensures
            yes == self.named_main(),
    {
        if self.is_alternate() {
            return false;
        }
        if names_main(self.uuid.as_str()) {
            return true;
        }
        match &self.name {
            Some(name) => names_main(name.as_str()),
            None => false,
        }
    }

    /// Whether the display has an identity and a size.
    pub open spec fn usable(self) -> bool {
        self.uuid@.len() > 0 && self.width_pixels != 0 && self.height_pixels != 0
    }
}

/// Whether two identifiers are the same, type included.
pub open spec fn same_id(a: DisplayId, b: DisplayId) -> bool {
    match (a, b) {
        (DisplayId::String(x), DisplayId::String(y)) => x@ == y@,
        (DisplayId::Number(x), DisplayId::Number(y)) => x == y,
        _ => false,
    }
}

/// Whether a display has this identifier.
pub open spec fn has_id(display: Display, id: DisplayId) -> bool {
    display.display_id matches Some(own) && same_id(own, id)
}

fn is_same_id(a: &DisplayId, b: &DisplayId) -> (same: bool)
    ensures
        same == same_id(*a, *b),
{
    match (a, b) {
        (DisplayId::String(x), DisplayId::String(y)) => *x == *y,
        (DisplayId::Number(x), DisplayId::Number(y)) => *x == *y,
        _ => false,
    }
}

fn display_has_id(display: &Display, id: &DisplayId) -> (has: bool)
    ensures
        has == has_id(*display, *id),
{
    match &display.display_id {
        Some(own) => is_same_id(own, id),
        None => false,
    }
}

/// The first display that is not an alternate one.
pub open spec fn first_plain(displays: Seq<Display>) -> Option<int>
    decreases displays.len(),
{
    if displays.len() == 0 {
        None
    } else {
        match first_plain(displays.drop_last()) {
            Some(i) => Some(i),
            None => if displays.last().alternate() {
                None
            } else {
                Some(displays.len() - 1)
            },
        }
    }
}

/// The first display that is called the main one.
pub open spec fn first_named(displays: Seq<Display>) -> Option<int>
    decreases displays.len(),
{
    if displays.len() == 0 {
        None
    } else {
        match first_named(displays.drop_last()) {
            Some(i) => Some(i),
            None => if displays.last().named_main() {
                Some(displays.len() - 1)
            } else {
                None
            },
        }
    }
}

/// Whether two displays are called the main one.
pub open spec fn ambiguous(displays: Seq<Display>) -> bool {
    exists|i: int, j: int|
        0 <= i < j < displays.len() && (#[trigger] displays[i]).named_main() && (
        #[trigger] displays[j]).named_main()
}

/// Which display is the main one: the one that is called so, or else the first that is not an
/// alternate one. It has an identity and a size.
pub open spec fn main_display(displays: Seq<Display>) -> Result<int, &'static str> {
    let choice = match first_named(displays) {
        Some(i) => Some(i),
        None => first_plain(displays),
    };
    if ambiguous(displays) {
        Err("ambiguous main displays")
    } else {
        match choice {
            None => Err("missing main display"),
            Some(i) => if displays[i].usable() {
                Ok(i)
            } else {
                Err("invalid main display identity or dimensions")
            },
        }
    }
}

/// Whether some display has this UUID.
pub open spec fn known_uuid(displays: Seq<Display>, uuid: Seq<char>) -> bool {
    exists|i: int| 0 <= i < displays.len() && (#[trigger] displays[i]).uuid@ == uuid
}

/// Whether some display has this identifier.
pub open spec fn known_id(displays: Seq<Display>, id: DisplayId) -> bool {
    exists|i: int| 0 <= i < displays.len() && has_id(#[trigger] displays[i], id)
}

/// Whether an input device stays: unless it belongs to a known display other than `main`. An
/// identifier that `main` shares with another display is that of `main`.
pub open spec fn hid_stays(hid: HidDevice, displays: Seq<Display>, main: Display) -> bool {
    let other_uuid = hid.display_uuid matches Some(uuid) && uuid@.len() > 0 && uuid@ != main.uuid@
        && known_uuid(displays, uuid@);
    let other_id = hid.display_id matches Some(id) && !has_id(main, id) && known_id(displays, id);
    !other_uuid && !other_id
}

/// The input devices that stay.
pub open spec fn hids_left(hids: Seq<HidDevice>, displays: Seq<Display>, main: Display) -> Seq<
    HidDevice,
>
    decreases hids.len(),
{
    if hids.len() == 0 {
        Seq::empty()
    } else {
        let left = hids_left(hids.drop_last(), displays, main);
        if hid_stays(hids.last(), displays, main) {
            left.push(hids.last())
        } else {
            left
        }
    }
}

proof fn lemma_first_named(displays: Seq<Display>)
    ensures
        match first_named(displays) {
            Some(i) => 0 <= i < displays.len() && displays[i].named_main(),
            None => forall|k: int| 0 <= k < displays.len() ==> !(#[trigger] displays[k]).named_main(),
        },
    decreases displays.len(),
{
    if displays.len() > 0 {
        let front = displays.drop_last();
        lemma_first_named(front);
        assert forall|k: int|
            0 <= k < displays.len() && first_named(displays) is None implies !(
        #[trigger] displays[k]).named_main() by {
            if k < front.len() {
                assert(front[k] == displays[k]);
            }
        }
    }
}

proof fn lemma_first_plain(displays: Seq<Display>)
    ensures
        first_plain(displays) matches Some(i) ==> 0 <= i < displays.len()
            && !displays[i].alternate(),
    decreases displays.len(),
{
    if displays.len() > 0 {
        lemma_first_plain(displays.drop_last());
    }
}

fn uuid_is_known(displays: &Vec<Display>, uuid: &String) -> (known: bool)
    ensures
        known == known_uuid(displays@, uuid@),
{
    let mut i: usize = 0;
    while i < displays.len()
        invariant
            i <= displays@.len(),
            forall|k: int| 0 <= k < i ==> (#[trigger] displays@[k]).uuid@ != uuid@,
        decreases displays@.len() - i,
    {
        if displays[i].uuid == *uuid {
            assert(displays@[i as int].uuid@ == uuid@);
            return true;
        }
        i = i + 1;
    }
    false
}

fn id_is_known(displays: &Vec<Display>, id: &DisplayId) -> (known: bool)
    ensures
        known == known_id(displays@, *id),
{
    let mut i: usize = 0;
    while i < displays.len()
        invariant
            i <= displays@.len(),
            forall|k: int| 0 <= k < i ==> !has_id(#[trigger] displays@[k], *id),
        decreases displays@.len() - i,
    {
        if display_has_id(&displays[i], id) {
            assert(has_id(displays@[i as int], *id));
            return true;
        }
        i = i + 1;
    }
    false
}

fn stays(hid: &HidDevice, displays: &Vec<Display>, main: &Display) -> (yes: bool)
    ensures
        yes == hid_stays(*hid, displays@, *main),
{
    let other_uuid = match &hid.display_uuid {
        Some(uuid) => !uuid.as_str().is_empty() && *uuid != main.uuid && uuid_is_known(displays, uuid),
        None => false,
    };
    let other_id = match &hid.display_id {
        Some(id) => !display_has_id(main, id) && id_is_known(displays, id),
        None => false,
    };
    !other_uuid && !other_id
}

/// Finds the main display.
fn find_main(displays: &Vec<Display>) -> (found: Result<usize, &'static str>)
    ensures
        match main_display(displays@) {
            Ok(i) => found matches Ok(k) && k == i && 0 <= i < displays@.len(),
            Err(why) => found == Err::<usize, &'static str>(why),
        },
{
    let mut named: Option<usize> = None;
    let mut plain: Option<usize> = None;
    let mut twice = false;
    let mut i: usize = 0;
    assert(displays@.take(0) =~= Seq::<Display>::empty());
    while i < displays.len()
        invariant
            i <= displays@.len(),
            match first_named(displays@.take(i as int)) {
                Some(k) => named matches Some(n) && n == k,
                None => named is None,
            },
            match first_plain(displays@.take(i as int)) {
                Some(k) => plain matches Some(n) && n == k,
                None => plain is None,
            },
            twice == ambiguous(displays@.take(i as int)),
        decreases displays@.len() - i,
    {
        let ghost before = displays@.take(i as int);
        let ghost seen = displays@.take(i + 1);
        let display = &displays[i];
        assert(seen.drop_last() =~= before);
        proof {
            lemma_first_named(before);
            assert(ambiguous(seen) <==> ambiguous(before) || display.named_main() && first_named(
                before,
            ) is Some) by {
                if ambiguous(before) {
                    let (a, b) = choose|a: int, b: int|
                        0 <= a < b < before.len() && (#[trigger] before[a]).named_main() && (
                        #[trigger] before[b]).named_main();
                    assert(seen[a].named_main() && seen[b].named_main());
                }
                if display.named_main() && first_named(before) is Some {
                    let a = first_named(before)->0;
                    assert(seen[a].named_main() && seen[i as int].named_main());
                }
                if ambiguous(seen) && !ambiguous(before) {
                    let (a, b) = choose|a: int, b: int|
                        0 <= a < b < seen.len() && (#[trigger] seen[a]).named_main() && (
                        #[trigger] seen[b]).named_main();
                    assert(before[a].named_main());
                    if b < i {
                        assert(before[b].named_main());
                    }
                }
            }
        }
        if display.is_named_main() {
            if named.is_some() {
                twice = true;
            } else {
                named = Some(i);
            }
        }
        if plain.is_none() && !display.is_alternate() {
            plain = Some(i);
        }
        i = i + 1;
    }
    assert(displays@.take(displays@.len() as int) =~= displays@);
    proof {
        lemma_first_named(displays@);
        lemma_first_plain(displays@);
    }
    if twice {
        return Err("ambiguous main displays");
    }
    let choice = match named {
        Some(k) => Some(k),
        None => plain,
    };
    match choice {
        None => Err("missing main display"),
        Some(k) => {
            let display = &displays[k];
            if display.uuid.as_str().is_empty() || display.width_pixels == 0 || display.height_pixels == 0 {
                return Err("invalid main display identity or dimensions");
            }
            Ok(k)
        },
    }
}

impl InfoMessageResponse {
    /// Restricts the advertisement to the one main screen. Input devices of displays that go away
    /// go with them. Where the main display cannot be told, nothing changes.
    pub fn retain_main_screen_only(&mut self) -> (done: Result<(), &'static str>)
        ensures
            match main_display(old(self).displays@) {
                Ok(i) => {
                    let main = old(self).displays@[i];
                    &&& done == Ok::<(), &'static str>(())
                    &&& final(self).displays@ == seq![main]
                    &&& final(self).hid_devices@ == hids_left(
                        old(self).hid_devices@,
                        old(self).displays@,
                        main,
                    )
                    &&& *final(self) == (InfoMessageResponse {
                        displays: final(self).displays,
                        hid_devices: final(self).hid_devices,
                        ..*old(self)
                    })
                },
                Err(why) => done == Err::<(), &'static str>(why) && *final(self) == *old(self),
            },
    {
        let index: usize = find_main(&self.displays)?;
        let ghost displays = self.displays@;
        let ghost main = displays[index as int];
        let ghost hids = self.hid_devices@;
        let ghost mut seen: int = 0;
        let mut i: usize = 0;
        assert(hids.take(0) =~= Seq::<HidDevice>::empty());
        assert(hids.skip(0) =~= hids);
        assert(hids =~= hids_left(hids.take(0), displays, main) + hids.skip(0));
        while i < self.hid_devices.len()
            invariant
                0 <= seen <= hids.len(),
                index < displays.len(),
                displays == self.displays@,
                main == displays[index as int],
                i == hids_left(hids.take(seen), displays, main).len(),
                self.hid_devices@ == hids_left(hids.take(seen), displays, main) + hids.skip(seen),
                *self == (InfoMessageResponse { hid_devices: self.hid_devices, ..*old(self) }),
            decreases hids.len() - seen,
        {
            let ghost left = hids_left(hids.take(seen), displays, main);
            let ghost hid = hids[seen];
            assert(self.hid_devices@[i as int] == hid);
            assert(hids.take(seen + 1).drop_last() =~= hids.take(seen));
            assert(hids.skip(seen) =~= seq![hid] + hids.skip(seen + 1));
            if stays(&self.hid_devices[i], &self.displays, &self.displays[index]) {
                assert(self.hid_devices@ =~= left.push(hid) + hids.skip(seen + 1));
                i = i + 1;
            } else {
                self.hid_devices.remove(i);
                assert(self.hid_devices@ =~= left + hids.skip(seen + 1));
            }
            proof {
                seen = seen + 1;
            }
        }
        assert(hids.take(seen) =~= hids);
        assert(self.hid_devices@ =~= hids_left(hids, displays, main));
        let selected = self.displays.swap_remove(index);
        self.displays.clear();
        self.displays.push(selected);
        assert(self.displays@ =~= seq![main]);
        Ok(())
    }
}

/// What the receiver is seen as.
#[derive(Debug, Clone, Copy, PartialEq, Eq, Structural)]
pub enum AirPlayReceiverProfile {
    AppleTV,
    CarPlay,
}

impl AirPlayReceiverProfile {
    /// Restricts an advertisement to what the profile can show: CarPlay has one screen. It comes
    /// after all other changes to the advertisement.
    pub fn constrain_info(&self, info: &mut InfoMessageResponse) -> (done: Result<(), &'static str>)
        ensures
            self is AppleTV ==> done == Ok::<(), &'static str>(()) && *final(info) == *old(info),
            self is CarPlay ==> match main_display(old(info).displays@) {
                Ok(i) => {
                    let main = old(info).displays@[i];
                    &&& done == Ok::<(), &'static str>(())
                    &&& final(info).displays@ == seq![main]
                    &&& final(info).hid_devices@ == hids_left(
                        old(info).hid_devices@,
                        old(info).displays@,
                        main,
                    )
                    &&& *final(info) == (InfoMessageResponse {
                        displays: final(info).displays,
                        hid_devices: final(info).hid_devices,
                        ..*old(info)
                    })
                },
                Err(why) => done == Err::<(), &'static str>(why) && *final(info) == *old(info),
            },
    {
        match self {
            AirPlayReceiverProfile::AppleTV => Ok(()),
            AirPlayReceiverProfile::CarPlay => info.retain_main_screen_only(),
        }
    }
}

/// Copies what belongs to the car, its screens, inputs and looks, into what the receiver tells the
/// phone. The features stay those of the receiver, unknown bits included: they speak of this
/// connection and not of the one to the car.
pub fn merge_car_info(local: &mut InfoMessageResponse, car: InfoMessageResponse)
    ensures
        final(local).oem_icon_label matches Some(label) && label@ == "CatPlay"@,
        *final(local) == (InfoMessageResponse {
            hid_devices: car.hid_devices,
            hid_languages: car.hid_languages,
            right_hand_drive: car.right_hand_drive,
            oem_icon: car.oem_icon,
            oem_icon_label: final(local).oem_icon_label,
            oem_icon_visible: car.oem_icon_visible,
            oem_icons: car.oem_icons,
            manufacturer: car.manufacturer,
            model: car.model,
            displays: car.displays,
            audio_latencies: car.audio_latencies,
            ..*old(local)
        }),
{
    local.hid_devices = car.hid_devices;
    local.hid_languages = car.hid_languages;
    local.right_hand_drive = car.right_hand_drive;
    local.oem_icon = car.oem_icon;
    local.oem_icon_label = Some(String::from_str("CatPlay"));
    local.oem_icon_visible = car.oem_icon_visible;
    local.oem_icons = car.oem_icons;
    local.manufacturer = car.manufacturer;
    local.model = car.model;
    local.displays = car.displays;
    local.audio_latencies = car.audio_latencies;
}

/// An alternate display never becomes the main one, and the main one has an identity and a size.
pub proof fn law_main_is_never_alternate(displays: Seq<Display>)
    ensures
        main_display(displays) matches Ok(i) ==> {
            &&& 0 <= i < displays.len()
            &&& !displays[i].alternate()
            &&& displays[i].usable()
        },
{
    lemma_first_named(displays);
    lemma_first_plain(displays);
}

/// A display that is called the main one is chosen over all others, wherever it stands.
pub proof fn law_named_main_wins(displays: Seq<Display>, i: int)
    requires
        0 <= i < displays.len(),
        displays[i].named_main(),
        forall|k: int| 0 <= k < displays.len() && k != i ==> !(#[trigger] displays[k]).named_main(),
    ensures
        main_display(displays) == (if displays[i].usable() {
            Ok::<int, &'static str>(i)
        } else {
            Err("invalid main display identity or dimensions")
        }),
{
    lemma_first_named(displays);
    assert(!ambiguous(displays));
}

/// An advertisement that was restricted once is not changed by being restricted again.
pub proof fn law_retention_is_idempotent(displays: Seq<Display>, hids: Seq<HidDevice>)
    requires
        main_display(displays) is Ok,
    ensures
        ({
            let main = displays[main_display(displays)->Ok_0];
            let left = hids_left(hids, displays, main);
            &&& main_display(seq![main]) == Ok::<int, &'static str>(0)
            &&& hids_left(left, seq![main], main) == left
        }),
{
    law_main_is_never_alternate(displays);
    let main = displays[main_display(displays)->Ok_0];
    let one = seq![main];
    assert(one.drop_last() =~= Seq::<Display>::empty());
    assert(first_named(one.drop_last()) is None && first_plain(one.drop_last()) is None);
    assert(first_named(one) == if main.named_main() {
        Some(0int)
    } else {
        None
    });
    assert(first_plain(one) == Some(0int));
    assert(!ambiguous(one));
    lemma_all_stay(hids_left(hids, displays, main), main);
}

proof fn lemma_all_stay(hids: Seq<HidDevice>, main: Display)
    ensures
        hids_left(hids, seq![main], main) == hids,
    decreases hids.len(),
{
    if hids.len() > 0 {
        lemma_all_stay(hids.drop_last(), main);
        assert(hid_stays(hids.last(), seq![main], main));
        assert(hids.drop_last().push(hids.last()) =~= hids);
    } else {
        assert(hids =~= Seq::<HidDevice>::empty());
    }
}

/// An input device stays if it names no display, or the main one, even where another display shares
/// its identifiers, or a display that nobody knows. Its own UUID does not matter.
pub proof fn law_input_of_the_main_display_stays(
    hid: HidDevice,
    displays: Seq<Display>,
    main: Display,
)
    requires
        hid.display_uuid matches Some(uuid) ==> uuid@.len() == 0 || uuid@ == main.uuid@
            || !known_uuid(displays, uuid@),
        hid.display_id matches Some(id) ==> has_id(main, id) || !known_id(displays, id),
    ensures
        hid_stays(hid, displays, main),
{
}

/// Whether an input device names `display`, by what `main` does not share with it.
pub open spec fn names_other(hid: HidDevice, display: Display, main: Display) -> bool {
    ||| hid.display_uuid matches Some(uuid) && uuid@.len() > 0 && uuid@ == display.uuid@ && uuid@
        != main.uuid@
    ||| hid.display_id matches Some(id) && has_id(display, id) && !has_id(main, id)
}

/// An input device goes if it names a display that goes, by UUID or by identifier.
pub proof fn law_input_of_another_display_goes(
    hid: HidDevice,
    displays: Seq<Display>,
    main: Display,
    i: int,
)
    requires
        0 <= i < displays.len(),
        names_other(hid, displays[i], main),
    ensures
        !hid_stays(hid, displays, main),
{
}

proof fn lemma_word_bytes(word: Seq<char>, bytes: Seq<u8>)
    requires
        is_ascii_chars(word),
        word.len() == bytes.len(),
        forall|i: int|
            0 <= i < word.len() ==> #[trigger] bytes[i] == (if 65 <= word[i] as int <= 90 {
                word[i] as int + 32
            } else {
                word[i] as int
            }),
    ensures
        lowered(word) == bytes,
{
    is_ascii_chars_encode_utf8(word);
    assert(lowered(word) =~= bytes);
}

/// The words that tell alternate and main displays, in lower case and byte by byte.
proof fn lemma_words()
    ensures
        lowered("alt"@) == seq![97u8, 108, 116],
        lowered("alternate"@) == seq![97u8, 108, 116, 101, 114, 110, 97, 116, 101],
        lowered("cluster"@) == seq![99u8, 108, 117, 115, 116, 101, 114],
        lowered("altscreen"@) == seq![97u8, 108, 116, 115, 99, 114, 101, 101, 110],
        lowered("main"@) == seq![109u8, 97, 105, 110],
        lowered("mainScreen"@) == seq![109u8, 97, 105, 110, 115, 99, 114, 101, 101, 110],
        lowered("primary"@) == seq![112u8, 114, 105, 109, 97, 114, 121],
{
    reveal_strlit("alt");
    reveal_strlit("alternate");
    reveal_strlit("cluster");
    reveal_strlit("altscreen");
    reveal_strlit("main");
    reveal_strlit("mainScreen");
    reveal_strlit("primary");
    lemma_word_bytes("alt"@, seq![97u8, 108, 116]);
    lemma_word_bytes("alternate"@, seq![97u8, 108, 116, 101, 114, 110, 97, 116, 101]);
    lemma_word_bytes("cluster"@, seq![99u8, 108, 117, 115, 116, 101, 114]);
    lemma_word_bytes("altscreen"@, seq![97u8, 108, 116, 115, 99, 114, 101, 101, 110]);
    lemma_word_bytes("main"@, seq![109u8, 97, 105, 110]);
    lemma_word_bytes("mainScreen"@, seq![109u8, 97, 105, 110, 115, 99, 114, 101, 101, 110]);
    lemma_word_bytes("primary"@, seq![112u8, 114, 105, 109, 97, 114, 121]);
}

/// Whether a name is that of an alternate display: "alt", "alternate" or "cluster", or one in which
/// "altscreen" occurs, in letters of any case.
pub open spec fn says_alternate(name: Seq<char>) -> bool {
    let text = lowered(name);
    let part = seq![97u8, 108, 116, 115, 99, 114, 101, 101, 110];
    ||| text == seq![97u8, 108, 116]
    ||| text == seq![97u8, 108, 116, 101, 114, 110, 97, 116, 101]
    ||| text == seq![99u8, 108, 117, 115, 116, 101, 114]
    ||| exists|at: int| 0 <= at && at + 9 <= text.len() && #[trigger] text.subrange(at, at + 9) == part
}

/// Whether a name is that of the main display: "main", "mainscreen" or "primary", in letters of any
/// case.
pub open spec fn says_main(name: Seq<char>) -> bool {
    let text = lowered(name);
    ||| text == seq![109u8, 97, 105, 110]
    ||| text == seq![109u8, 97, 105, 110, 115, 99, 114, 101, 101, 110]
    ||| text == seq![112u8, 114, 105, 109, 97, 114, 121]
}

proof fn lemma_names(name: Seq<char>)
    ensures
        alternate_name(name) == says_alternate(name),
        main_name(name) == says_main(name),
{
    lemma_words();
    law_only_case_is_ignored(name, "alt"@);
    law_only_case_is_ignored(name, "alternate"@);
    law_only_case_is_ignored(name, "cluster"@);
    law_words_are_found_anywhere(name, "altscreen"@);
    law_only_case_is_ignored(name, "main"@);
    law_only_case_is_ignored(name, "mainScreen"@);
    law_only_case_is_ignored(name, "primary"@);
    assert(lowered("altscreen"@).len() == 9);
}

/// A display is an alternate one if its UUID or its name says so, and it is called the main one if
/// neither says so and one of them says that. Nothing else about a display tells.
pub proof fn law_names_tell_displays(display: Display)
    ensures
        display.alternate() <==> says_alternate(display.uuid@) || (match display.name {
            Some(name) => says_alternate(name@),
            None => false,
        }),
        display.named_main() <==> !says_alternate(display.uuid@) && (match display.name {
            Some(name) => !says_alternate(name@) && (says_main(display.uuid@) || says_main(name@)),
            None => says_main(display.uuid@),
        }),
{
    lemma_names(display.uuid@);
    if let Some(name) = display.name {
        lemma_names(name@);
    }
}

/// Whether the display at `i` is the one to keep: the only one that is called the main one, or, where
/// none is, the first that is not an alternate one.
pub open spec fn to_keep(displays: Seq<Display>, i: int) -> bool {
    &&& 0 <= i < displays.len()
    &&& {
        ||| displays[i].named_main() && forall|k: int|
            0 <= k < displays.len() && k != i ==> !(#[trigger] displays[k]).named_main()
        ||| !displays[i].alternate() && (forall|k: int|
            0 <= k < displays.len() ==> !(#[trigger] displays[k]).named_main()) && (forall|k: int|
            0 <= k < i ==> (#[trigger] displays[k]).alternate())
    }
}

proof fn lemma_first_plain_is_first(displays: Seq<Display>)
    ensures
        match first_plain(displays) {
            Some(i) => 0 <= i < displays.len() && !displays[i].alternate() && forall|k: int|
                0 <= k < i ==> (#[trigger] displays[k]).alternate(),
            None => forall|k: int| 0 <= k < displays.len() ==> (#[trigger] displays[k]).alternate(),
        },
    decreases displays.len(),
{
    if displays.len() > 0 {
        let front = displays.drop_last();
        lemma_first_plain_is_first(front);
        assert forall|k: int| 0 <= k < front.len() implies front[k] == #[trigger] displays[k] by {}
    }
}

/// The display that is to be kept is kept if it has a UUID that is not empty and a width and a height
/// that are not zero, and only then. There is none to keep where two are called the main one, or where
/// all are alternate ones.
pub proof fn law_display_with_identity_and_size_is_kept(displays: Seq<Display>)
    ensures
        forall|i: int| #[trigger]
            to_keep(displays, i) ==> main_display(displays) == (if displays[i].uuid@.len() > 0
                && displays[i].width_pixels > 0 && displays[i].height_pixels > 0 {
                Ok::<int, &'static str>(i)
            } else {
                Err("invalid main display identity or dimensions")
            }),
        (exists|i: int, j: int|
            0 <= i < j < displays.len() && (#[trigger] displays[i]).named_main() && (
            #[trigger] displays[j]).named_main()) ==> main_display(displays) == Err::<
            int,
            &'static str,
        >("ambiguous main displays"),
        (forall|i: int| 0 <= i < displays.len() ==> (#[trigger] displays[i]).alternate())
            ==> main_display(displays) == Err::<int, &'static str>("missing main display"),
{
    lemma_first_named(displays);
    lemma_first_plain_is_first(displays);
    assert forall|i: int| #[trigger] to_keep(displays, i) implies !ambiguous(displays) && (
    match first_named(displays) {
        Some(k) => k == i,
        None => first_plain(displays) == Some(i),
    }) by {
        if first_named(displays) is None {
            let k = first_plain(displays);
            if k is None {
                assert(displays[i].alternate());
            } else if k->0 < i {
                assert(displays[k->0].alternate());
            } else if k->0 > i {
                assert(displays[i].alternate());
            }
        }
    }
    if forall|i: int| 0 <= i < displays.len() ==> (#[trigger] displays[i]).alternate() {
        assert(forall|k: int| 0 <= k < displays.len() ==> !(#[trigger] displays[k]).named_main());
    }
}

/// An identifier as its kind and its value.
pub open spec fn id_key(id: DisplayId) -> (bool, Seq<char>, u64) {
    match id {
        DisplayId::String(text) => (true, text@, 0),
        DisplayId::Number(number) => (false, Seq::empty(), number),
    }
}

/// Whether an input device names a display by its UUID, which an empty text does not.
pub open spec fn names_by_uuid(hid: HidDevice, display: Display) -> bool {
    match hid.display_uuid {
        Some(uuid) => uuid@.len() > 0 && uuid@ == display.uuid@,
        None => false,
    }
}

/// Whether an input device names a display by its identifier.
pub open spec fn names_by_id(hid: HidDevice, display: Display) -> bool {
    match (hid.display_id, display.display_id) {
        (Some(a), Some(b)) => id_key(a) == id_key(b),
        _ => false,
    }
}

/// An input device goes if and only if it names some display by UUID and the kept one not by UUID, or
/// some display by identifier and the kept one not by identifier.
pub proof fn law_inputs_of_other_displays_go(
    hid: HidDevice,
    displays: Seq<Display>,
    main: Display,
)
    ensures
        hid_stays(hid, displays, main) <==> {
            &&& !names_by_uuid(hid, main) ==> forall|k: int|
                0 <= k < displays.len() ==> !names_by_uuid(hid, #[trigger] displays[k])
            &&& !names_by_id(hid, main) ==> forall|k: int|
                0 <= k < displays.len() ==> !names_by_id(hid, #[trigger] displays[k])
        },
{
    if let Some(id) = hid.display_id {
        assert forall|k: int| 0 <= k < displays.len() implies names_by_id(
            hid,
            #[trigger] displays[k],
        ) == has_id(displays[k], id) by {
            lemma_same_key(displays[k], id);
        }
        lemma_same_key(main, id);
    }
    if let Some(uuid) = hid.display_uuid {
        assert forall|k: int| 0 <= k < displays.len() implies names_by_uuid(
            hid,
            #[trigger] displays[k],
        ) == (uuid@.len() > 0 && displays[k].uuid@ == uuid@) by {}
    }
}

proof fn lemma_same_key(display: Display, id: DisplayId)
    ensures
        has_id(display, id) <==> (match display.display_id {
            Some(own) => id_key(id) == id_key(own),
            None => false,
        }),
{
}

/// The input devices that are left are those that stay, in their order.
pub proof fn law_inputs_keep_their_order(hids: Seq<HidDevice>, displays: Seq<Display>, main: Display)
    ensures
        hids_left(hids, displays, main) == hids.filter(
            |hid: HidDevice| hid_stays(hid, displays, main),
        ),
    decreases hids.len(),
{
    reveal(Seq::filter);
    if hids.len() > 0 {
        law_inputs_keep_their_order(hids.drop_last(), displays, main);
    } else {
        assert(hids_left(hids, displays, main) =~= hids.filter(
            |hid: HidDevice| hid_stays(hid, displays, main),
        ));
    }
}

}
