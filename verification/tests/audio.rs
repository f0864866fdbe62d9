use ravenvoice::audio::{
    classify, first_fit, list_inputs, low_latency, pick_config, MicKind, SampleFormat, Source,
    StreamRange, SAMPLE_RATE,
};

fn source(id: &str, name: &str) -> Source {
    Source { id: id.into(), name: name.into() }
}

#[test]
fn microphones_are_classified() {
    assert_eq!(classify("pulseaudio:alsa_input.usb-Blue_Yeti", "Blue Yeti"), MicKind::Usb);
    assert_eq!(classify("pulseaudio:bluez_input.00", "Headset"), MicKind::Bluetooth);
    assert_eq!(classify("x", "My Bluetooth thing"), MicKind::Bluetooth);
    assert_eq!(classify("pulseaudio:alsa_input.pci-0000", "Analog"), MicKind::BuiltIn);
    assert_eq!(classify("platform-sound", "Analog"), MicKind::BuiltIn);
    assert_eq!(classify("x", "Built-in Audio"), MicKind::BuiltIn);
    assert_eq!(classify("BLUEZ-USB", "x"), MicKind::Bluetooth);
    assert_eq!(classify("x", "usb"), MicKind::Other);
    assert_eq!(MicKind::BuiltIn.label(), "built-in");
    assert_eq!(MicKind::Usb.label(), "USB");
    assert_eq!(MicKind::Bluetooth.label(), "Bluetooth");
    assert_eq!(MicKind::Other.label(), "external");
}

#[test]
fn the_list_leaves_out_loopbacks_and_starts_with_the_default() {
    let all = [
        source("pulse:b", "Zeta"),
        source("pulse:speakers.monitor", "Speakers"),
        source("pulse:c", "Monitor of Speakers"),
        source("alsa:plughw", "Plug"),
        source("alsa:sysdefault:CARD=0", "Sys"),
        source("alsa:default", "Default"),
        source("alsa:pipewire", "Pipe"),
        source("pulse:usb-a", "Alpha"),
        source("pulse:d", "Zeta"),
    ];
    let list = list_inputs(&all, Some("pulse:d"));
    let ids: Vec<&str> = list.iter().map(|m| m.id.as_str()).collect();
    assert_eq!(
        ids,
        [
            "pulse:d",
            "pulse:usb-a",
            "alsa:default",
            "alsa:pipewire",
            "alsa:sysdefault:CARD=0",
            "pulse:b"
        ]
    );
    assert!(list[0].is_default && !list[1].is_default);
    assert_eq!(list[1].display(), "Alpha (USB)");
    assert_eq!(list[0].display(), "Zeta (external)");
    assert!(list_inputs(&[], None).is_empty());
}

#[test]
fn equal_names_keep_their_order() {
    let all = [
        source("p:2", "Same"),
        source("p:0", "Same"),
        source("p:1", "Same"),
        source("p:3", "Earlier"),
        source("p:4", "\u{c9}arlier"),
    ];
    let ids: Vec<String> = list_inputs(&all, None).into_iter().map(|m| m.id).collect();
    assert_eq!(ids, ["p:3", "p:2", "p:0", "p:1", "p:4"]);
    // The order is that of the standard library.
    let mut names: Vec<&str> = all.iter().map(|s| s.name.as_str()).collect();
    names.sort();
    let listed: Vec<String> = list_inputs(&all, None).into_iter().map(|m| m.name).collect();
    assert_eq!(listed, names);
}

fn range(format: SampleFormat, channels: u16, min_rate: u32, max_rate: u32) -> StreamRange {
    StreamRange { format, channels, min_rate, max_rate }
}

#[test]
fn the_preferred_format_is_picked() {
    let (f32s, i16s, i32s) = (SampleFormat::F32, SampleFormat::I16, SampleFormat::I32);
    let all = [
        range(i16s, 1, 8_000, 48_000),
        range(f32s, 2, 8_000, 48_000),
        range(f32s, 1, 44_100, 48_000),
        range(f32s, 1, 16_000, 16_000),
    ];
    assert_eq!(pick_config(&all), Some(3));
    assert_eq!(pick_config(&all[..3]), Some(1));
    assert_eq!(pick_config(&all[..1]), Some(0));
    assert_eq!(pick_config(&[range(i16s, 2, 0, SAMPLE_RATE)]), Some(0));
    assert_eq!(pick_config(&[range(i32s, 1, 8_000, 48_000)]), None);
    assert_eq!(pick_config(&[]), None);
    assert_eq!(first_fit(&all, f32s, 1, 48_000), Some(2));
    assert_eq!(first_fit(&all, f32s, 1, 22_050), None);
}

#[test]
fn buffers_hold_thirty_milliseconds() {
    assert_eq!(low_latency(16_000, Some((1, 10_000))), Some(480));
    assert_eq!(low_latency(48_000, Some((1, 10_000))), Some(1440));
    assert_eq!(low_latency(16_000, Some((512, 4096))), Some(512));
    assert_eq!(low_latency(48_000, Some((1, 1024))), Some(1024));
    assert_eq!(low_latency(48_000, None), None);
}
