use std::path::PathBuf;
use harmony::config::{AudioClipData, Config};
use harmony::loading::{begin_load, finish_load};
use harmony::player::Player;

fn data(name: &str) -> AudioClipData {
    AudioClipData { path: PathBuf::from(format!("/sounds/{}", name)), name: name.to_string() }
}

#[test]
fn a_clip_gets_an_id_and_a_button() {
    let mut p: Player<&str> = Player::new();
    let (id, script) = begin_load(&mut p, "horn.wav");
    assert_eq!(id, 0);
    assert_eq!(script, r#"new_sound(0, "horn.wav");"#);
    assert!(p.may_insert(id));
    let (id, script) = begin_load(&mut p, "bell.mp3");
    assert_eq!(id, 1);
    assert_eq!(script, r#"new_sound(1, "bell.mp3");"#);
}

#[test]
fn a_loaded_clip_is_kept_and_remembered() {
    let mut p: Player<&str> = Player::new();
    let mut config = Config::new((5, 6), (1, 2));
    let (id, _) = begin_load(&mut p, "horn.wav");
    let script = finish_load(&mut p, &mut config, id, data("horn.wav"), Some(("clip", 125)));
    assert_eq!(script, r#"init_sound(0, "horn.wav", "02:05");"#);
    assert!(p.contains(id));
    assert_eq!(*p.clip(id), "clip");
    assert_eq!(config.clips.inner[&id].name, "horn.wav");
    assert_eq!(config.clips.inner[&id].path, PathBuf::from("/sounds/horn.wav"));
    assert_eq!(config.volume, (5, 6));
    assert_eq!(config.device, (1, 2));
}

#[test]
fn a_clip_that_could_not_be_read_is_dropped() {
    let mut p: Player<&str> = Player::new();
    let mut config = Config::new((0, 0), (0, 0));
    let (id, _) = begin_load(&mut p, "broken.ogg");
    let script = finish_load(&mut p, &mut config, id, data("broken.ogg"), None);
    assert_eq!(script, "remove_sound(0);");
    assert!(!p.contains(id));
    assert!(config.clips.inner.is_empty());
    let (next, _) = begin_load(&mut p, "other.ogg");
    assert_eq!(next, 1);
}
