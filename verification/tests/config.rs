use std::path::PathBuf;
use harmony::config::{AudioClipData, Clips, Config, Deserializer, HALF_VOLUME_BITS};

fn clip(path: &str, name: &str) -> AudioClipData {
    AudioClipData { path: PathBuf::from(path), name: name.to_string() }
}

#[test]
fn default_volume_is_one_half() {
    assert_eq!(f32::from_bits(HALF_VOLUME_BITS), 0.5f32);
}

#[test]
fn unreadable_settings_fall_back_to_defaults() {
    let d = Deserializer::from_parsed(None);
    assert!(d.config.clips.is_empty());
    assert_eq!(d.config.volume, (0.5f32.to_bits(), 0.5f32.to_bits()));
    assert_eq!(d.config.device, (0, 0));
}

#[test]
fn readable_settings_are_kept() {
    let saved = Config {
        clips: vec![clip("/a/horn.wav", "horn.wav")],
        volume: (0.25f32.to_bits(), 1.0f32.to_bits()),
        device: (2, 1),
    };
    let d = Deserializer::from_parsed(Some(saved));
    assert_eq!(d.config.clips.len(), 1);
    assert_eq!(d.config.clips[0].name, "horn.wav");
    assert_eq!(d.config.clips[0].path, PathBuf::from("/a/horn.wav"));
    assert_eq!(d.config.volume, (0.25f32.to_bits(), 1.0f32.to_bits()));
    assert_eq!(d.config.device, (2, 1));
}

#[test]
fn session_settings_record_clips_and_devices() {
    let mut c = Config::new((1, 2), (0, 0));
    assert!(c.clips.inner.is_empty());
    c.record_clip(4, clip("/x/a.mp3", "a.mp3"));
    c.record_clip(9, clip("/x/b.mp3", "b.mp3"));
    c.select_primary(3);
    assert_eq!(c.device, (3, 0));
    c.select_secondary(5);
    assert_eq!(c.device, (3, 5));
    c.set_volume((7, 8));
    assert_eq!(c.volume, (7, 8));
    assert_eq!(c.clips.inner.len(), 2);
    c.forget_clip(4);
    c.forget_clip(100);
    assert_eq!(c.clips.inner.len(), 1);
    assert_eq!(c.clips.inner[&9].name, "b.mp3");
}

#[test]
fn entries_list_each_clip_once() {
    let mut clips = Clips::new();
    for i in 0..20usize {
        clips.inner.insert(i, clip(&format!("/p/{}.wav", i), &format!("{}.wav", i)));
    }
    let entries = clips.entries();
    assert_eq!(entries.len(), 20);
    let mut names: Vec<String> = entries.iter().map(|c| c.name.clone()).collect();
    names.sort();
    let mut expected: Vec<String> = (0..20).map(|i| format!("{}.wav", i)).collect();
    expected.sort();
    assert_eq!(names, expected);
    assert!(Clips::new().entries().is_empty());
}
