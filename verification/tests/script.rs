use harmony::script::{
    device_list_call, icon_after_toggle, init_sound_call, new_sound_call, remove_sound_call,
    set_icon_call, update_device_call, Icon,
};

#[test]
fn icon_calls() {
    assert_eq!(set_icon_call(3, Icon::Play), r#"set_icon(3, "play-icon")"#);
    assert_eq!(set_icon_call(10, Icon::Pause), r#"set_icon(10, "pause-icon")"#);
}

#[test]
fn toggled_button_shows_the_other_icon() {
    assert_eq!(icon_after_toggle(true), Icon::Play);
    assert_eq!(icon_after_toggle(false), Icon::Pause);
}

#[test]
fn sound_calls() {
    assert_eq!(new_sound_call(0, "horn.wav"), r#"new_sound(0, "horn.wav");"#);
    assert_eq!(
        init_sound_call(7, "horn.wav", "01:05"),
        r#"init_sound(7, "horn.wav", "01:05");"#
    );
    assert_eq!(remove_sound_call(42), "remove_sound(42);");
}

#[test]
fn device_calls() {
    assert_eq!(update_device_call(0, 2), "update_device(0,2);");
    let names = vec!["Speakers".to_string(), "Cable Input".to_string(), "Headset".to_string()];
    assert_eq!(
        device_list_call(&names),
        r#"set_device_list(["Default","Cable Input","Headset"])"#
    );
    assert_eq!(device_list_call(&vec!["Speakers".to_string()]), r#"set_device_list(["Default"])"#);
    assert_eq!(device_list_call(&Vec::new()), r#"set_device_list(["Default"])"#);
}
