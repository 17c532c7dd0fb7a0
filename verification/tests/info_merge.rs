use std::io::Cursor;

use catplay::info::{
    merge_car_info, AirPlayFeature, AirPlayStatus, AudioFormatStruct, AudioLatency, ChangeModes, Display, HevcInfo, HidDevice,
    InfoMessageResponse, OemIcon, AUDIO_AAC_LC, CARPLAY_CONTROL, HK_PAIRING_AND_ENCRYPT, REDUNDANT_AUDIO, SCREEN,
    SUPPORTS_SCREEN_MULTI_CODEC,
};

const LOCAL: u64 = 0x6144540380;
const AUDI: u64 = 0x144440b80;

fn info(features: u64) -> InfoMessageResponse {
    InfoMessageResponse {
        features: AirPlayFeature::from_bits_retain(features),
        ..Default::default()
    }
}

#[test]
fn audi_mask_does_not_replace_local_receiver_features() {
    let mut local = info(LOCAL);
    merge_car_info(&mut local, info(AUDI));
    assert_eq!(local.features.bits(), LOCAL);
    assert!(local.features.contains(HK_PAIRING_AND_ENCRYPT | CARPLAY_CONTROL | AUDIO_AAC_LC));
    assert!(!local.features.contains(REDUNDANT_AUDIO));
}

#[test]
fn car_only_unknown_bits_and_hevc_are_not_imported() {
    let mut local = info(LOCAL);
    let mut car = info(AUDI | (1 << 63) | SUPPORTS_SCREEN_MULTI_CODEC);
    car.hevc_info = Some(HevcInfo::default());
    merge_car_info(&mut local, car);
    assert_eq!(local.features.bits(), LOCAL);
    assert_eq!(local.hevc_info, None);
}

#[test]
fn reduced_local_mask_is_not_widened() {
    for mask in [0, SCREEN, LOCAL & !AUDIO_AAC_LC, LOCAL | (1 << 63)] {
        let mut local = info(mask);
        merge_car_info(&mut local, info(u64::MAX));
        assert_eq!(local.features.bits(), mask);
    }
}

#[test]
fn car_metadata_is_copied_while_receiver_and_runtime_fields_stay_local() {
    let mut local = InfoMessageResponse {
        protocol_version: Some("1.0".into()),
        source_version: "local-sdk".into(),
        device_id: "local-device".into(),
        audio_formats: vec![AudioFormatStruct::default()],
        keep_alive_low_power: true,
        keep_alive_send_stats_as_body: true,
        night_mode: Some(false.into()),
        modes: ChangeModes { encoded: vec![1, 0] },
        ..info(LOCAL)
    };
    let car = InfoMessageResponse {
        manufacturer: "Audi".into(),
        model: "MHI2Q".into(),
        protocol_version: Some("car-protocol".into()),
        source_version: "car-sdk".into(),
        hid_devices: vec![HidDevice {
            name: "car-input".into(),
            ..Default::default()
        }],
        hid_languages: vec!["en".into()],
        right_hand_drive: true.into(),
        oem_icon: Some(vec![1, 2, 3].into()),
        oem_icon_label: Some("car-label".into()),
        oem_icon_visible: true.into(),
        oem_icons: vec![OemIcon {
            width_pixels: 24,
            ..Default::default()
        }],
        displays: vec![Display {
            width_pixels: 1440,
            height_pixels: 450,
            ..Default::default()
        }],
        audio_latencies: vec![AudioLatency {
            output_latency_micros: Some(12345),
            ..Default::default()
        }],
        night_mode: Some(true.into()),
        ..info(AUDI)
    };
    let before = local.clone();
    merge_car_info(&mut local, car.clone());
    assert_eq!(local.hid_devices, car.hid_devices);
    assert_eq!(local.hid_languages, car.hid_languages);
    assert_eq!(local.right_hand_drive, car.right_hand_drive);
    assert_eq!(local.oem_icon, car.oem_icon);
    assert_eq!(local.oem_icon_label.as_deref(), Some("CatPlay"));
    assert_eq!(local.oem_icon_visible, car.oem_icon_visible);
    assert_eq!(local.oem_icons, car.oem_icons);
    assert_eq!(local.manufacturer, car.manufacturer);
    assert_eq!(local.model, car.model);
    assert_eq!(local.displays, car.displays);
    assert_eq!(local.audio_latencies, car.audio_latencies);
    assert_eq!(local.features, before.features);
    assert_eq!(local.protocol_version, before.protocol_version);
    assert_eq!(local.source_version, before.source_version);
    assert_eq!(local.device_id, before.device_id);
    assert_eq!(local.audio_formats, before.audio_formats);
    assert_eq!(local.keep_alive_low_power, before.keep_alive_low_power);
    assert_eq!(local.keep_alive_send_stats_as_body, before.keep_alive_send_stats_as_body);
    assert_eq!(local.modes, before.modes);
    assert_eq!(local.night_mode, before.night_mode);
}

fn text(value: &plist::Value) -> String {
    value.as_string().unwrap().into()
}

fn flag(value: &plist::Value) -> bool {
    value.as_boolean().unwrap()
}

/// The message in a binary property list. Lists and optional records are those of a receiver that
/// has none.
fn encode(info: &InfoMessageResponse) -> Vec<u8> {
    assert!(info.audio_formats.is_empty() && info.audio_latencies.is_empty() && info.displays.is_empty());
    assert!(info.extended_features.is_empty() && info.hid_devices.is_empty() && info.limited_ui_elements.is_empty());
    assert!(info.oem_icons.is_empty() && info.oem_icon.is_none() && info.night_mode.is_none() && info.hevc_info.is_none());
    let mut dictionary = plist::Dictionary::new();
    for (key, list) in [("bluetoothIDs", &info.bluetooth_ids), ("hidLanguages", &info.hid_languages)] {
        let list = list.iter().map(|item| plist::Value::from(item.as_str())).collect();
        dictionary.insert(key.into(), plist::Value::Array(list));
    }
    for (key, value) in [
        ("deviceID", Some(&info.device_id)),
        ("firmwareRevision", Some(&info.firmware_revision)),
        ("hardwareRevision", Some(&info.hardware_revision)),
        ("manufacturer", Some(&info.manufacturer)),
        ("model", Some(&info.model)),
        ("name", Some(&info.name)),
        ("sourceVersion", Some(&info.source_version)),
        ("oemIconLabel", info.oem_icon_label.as_ref()),
        ("OSInfo", info.os_info.as_ref()),
        ("protocolVersion", info.protocol_version.as_ref()),
    ] {
        if let Some(value) = value {
            dictionary.insert(key.into(), plist::Value::from(value.as_str()));
        }
    }
    for (key, value) in [
        ("keepAliveLowPower", info.keep_alive_low_power),
        ("keepAliveSendStatsAsBody", info.keep_alive_send_stats_as_body),
        ("limitedUI", info.limited_ui.value),
        ("oemIconVisible", info.oem_icon_visible.value),
        ("rightHandDrive", info.right_hand_drive.value),
    ] {
        dictionary.insert(key.into(), plist::Value::from(value));
    }
    dictionary.insert("features".into(), plist::Value::from(info.features.bits()));
    dictionary.insert("statusFlags".into(), plist::Value::from(info.status_flags.mask));
    dictionary.insert("modes".into(), plist::Value::Data(info.modes.encoded.clone()));
    let mut payload = Vec::new();
    plist::Value::Dictionary(dictionary).to_writer_binary(&mut payload).unwrap();
    payload
}

fn decode(payload: &[u8]) -> InfoMessageResponse {
    let value = plist::Value::from_reader(Cursor::new(payload)).unwrap();
    let wire = value.as_dictionary().unwrap();
    let list = |key| wire.get(key).unwrap().as_array().unwrap().iter().map(text).collect();
    let number = |key| wire.get(key).unwrap().as_unsigned_integer().unwrap();
    InfoMessageResponse {
        bluetooth_ids: list("bluetoothIDs"),
        hid_languages: list("hidLanguages"),
        device_id: text(wire.get("deviceID").unwrap()),
        firmware_revision: text(wire.get("firmwareRevision").unwrap()),
        hardware_revision: text(wire.get("hardwareRevision").unwrap()),
        manufacturer: text(wire.get("manufacturer").unwrap()),
        model: text(wire.get("model").unwrap()),
        name: text(wire.get("name").unwrap()),
        source_version: text(wire.get("sourceVersion").unwrap()),
        oem_icon_label: wire.get("oemIconLabel").map(text),
        os_info: wire.get("OSInfo").map(text),
        protocol_version: wire.get("protocolVersion").map(text),
        keep_alive_low_power: flag(wire.get("keepAliveLowPower").unwrap()),
        keep_alive_send_stats_as_body: flag(wire.get("keepAliveSendStatsAsBody").unwrap()),
        limited_ui: flag(wire.get("limitedUI").unwrap()).into(),
        oem_icon_visible: flag(wire.get("oemIconVisible").unwrap()).into(),
        right_hand_drive: flag(wire.get("rightHandDrive").unwrap()).into(),
        features: AirPlayFeature::from_bits_retain(number("features")),
        status_flags: AirPlayStatus { mask: number("statusFlags") },
        modes: ChangeModes {
            encoded: wire.get("modes").unwrap().as_data().unwrap().to_vec(),
        },
        ..Default::default()
    }
}

#[test]
fn merged_features_survive_binary_plist_u64_roundtrip() {
    for mask in [LOCAL, LOCAL | SUPPORTS_SCREEN_MULTI_CODEC] {
        let mut local = info(mask);
        merge_car_info(&mut local, info(AUDI));
        let payload = encode(&local);
        assert!(payload.starts_with(b"bplist00"));
        let decoded = decode(&payload);
        assert_eq!(decoded.features.bits(), mask);
        assert_eq!(decoded, local);
    }
}
