use harmony::player::Player;
use harmony::script::Icon;

#[test]
fn ids_count_up_from_zero() {
    let mut p: Player<&str> = Player::new();
    assert!(p.can_allocate());
    assert_eq!(p.allocate_id(), 0);
    assert_eq!(p.allocate_id(), 1);
    assert_eq!(p.allocate_id(), 2);
}

#[test]
fn loaded_clips_are_found_by_id() {
    let mut p: Player<&str> = Player::new();
    let a = p.allocate_id();
    let b = p.allocate_id();
    assert!(p.may_insert(a));
    assert!(!p.may_insert(5));
    p.insert_clip(a, "horn");
    p.insert_clip(b, "bell");
    assert!(p.contains(a));
    assert!(!p.contains(7));
    assert_eq!(*p.clip(a), "horn");
    assert_eq!(*p.clip(b), "bell");
    let mut all: Vec<&str> = p.clips().into_iter().copied().collect();
    all.sort();
    assert_eq!(all, vec!["bell", "horn"]);
}

#[test]
fn removed_ids_are_reused_last_first() {
    let mut p: Player<u32> = Player::new();
    for i in 0..4 {
        let id = p.allocate_id();
        p.insert_clip(id, i);
    }
    assert_eq!(p.remove(1), Some(1));
    assert_eq!(p.remove(3), Some(3));
    assert_eq!(p.remove(3), None);
    assert_eq!(p.remove(17), None);
    assert!(!p.contains(1));
    assert!(!p.may_insert(1));
    assert_eq!(p.allocate_id(), 3);
    assert_eq!(p.allocate_id(), 1);
    assert_eq!(p.allocate_id(), 4);
}

#[test]
fn a_freshly_allocated_id_is_unused() {
    let mut p: Player<u8> = Player::new();
    for round in 0..50u8 {
        let id = p.allocate_id();
        assert!(!p.contains(id));
        p.insert_clip(id, round);
        if round % 3 == 0 {
            p.remove(id);
        }
    }
}

use harmony::player::Playback;
use std::cell::RefCell;

struct Recorder {
    name: &'static str,
    log: std::rc::Rc<RefCell<Vec<String>>>,
    playing: bool,
}

impl Playback for Recorder {
    type Device = u8;

    fn play(&self) {
        self.log.borrow_mut().push(format!("{} play", self.name));
    }

    fn restart(&self) {
        self.log.borrow_mut().push(format!("{} restart", self.name));
    }

    fn stop(&self) {
        self.log.borrow_mut().push(format!("{} stop", self.name));
    }

    fn is_playing(&self) -> bool {
        self.playing
    }

    fn set_primary_device(&self, device: &u8) {
        self.log.borrow_mut().push(format!("{} primary {}", self.name, device));
    }

    fn set_secondary_device(&self, device: &u8) {
        self.log.borrow_mut().push(format!("{} secondary {}", self.name, device));
    }
}

#[test]
fn playback_reaches_the_clip_of_the_id() {
    let log = std::rc::Rc::new(RefCell::new(Vec::new()));
    let mut p: Player<Recorder> = Player::new();
    let a = p.allocate_id();
    p.insert_clip(a, Recorder { name: "a", log: log.clone(), playing: true });
    let b = p.allocate_id();
    p.insert_clip(b, Recorder { name: "b", log: log.clone(), playing: false });
    p.play(b);
    p.restart(a);
    p.stop(b);
    assert!(p.is_playing(a));
    assert!(!p.is_playing(b));
    assert_eq!(*log.borrow(), vec!["b play", "a restart", "b stop"]);
}

#[test]
fn device_changes_and_stop_all_reach_every_clip() {
    let log = std::rc::Rc::new(RefCell::new(Vec::new()));
    let mut p: Player<Recorder> = Player::new();
    for name in ["a", "b", "c"] {
        let id = p.allocate_id();
        p.insert_clip(id, Recorder { name, log: log.clone(), playing: false });
    }
    p.set_primary_device(&2);
    p.set_secondary_device(&5);
    p.stop_all();
    let mut entries = log.borrow().clone();
    entries.sort();
    assert_eq!(
        entries,
        vec![
            "a primary 2", "a secondary 5", "a stop", "a stop",
            "b primary 2", "b secondary 5", "b stop", "b stop",
            "c primary 2", "c secondary 5", "c stop", "c stop",
        ]
    );
}

#[test]
fn play_pause_stops_a_playing_clip_and_starts_a_stopped_one() {
    let log = std::rc::Rc::new(RefCell::new(Vec::new()));
    let mut p: Player<Recorder> = Player::new();
    let a = p.allocate_id();
    p.insert_clip(a, Recorder { name: "a", log: log.clone(), playing: true });
    let b = p.allocate_id();
    p.insert_clip(b, Recorder { name: "b", log: log.clone(), playing: false });
    assert_eq!(p.play_pause(a), Icon::Play);
    assert_eq!(p.play_pause(b), Icon::Pause);
    assert_eq!(*log.borrow(), vec!["a stop", "b play"]);
}

#[test]
fn an_id_that_holds_a_clip_takes_no_other() {
    let mut p: Player<u8> = Player::new();
    let id = p.allocate_id();
    assert!(p.may_insert(id));
    p.insert_clip(id, 1);
    assert!(!p.may_insert(id));
}
