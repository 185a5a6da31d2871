use harmony::command::{parse_command, parse_index, same_text, split_words, white_space, Command, CommandError};

#[test]
fn white_space_agrees_with_std() {
    for u in 0u32..0x110000 {
        if let Some(c) = char::from_u32(u) {
            assert_eq!(white_space(c), c.is_whitespace(), "code point {:x}", u);
        }
    }
}

#[test]
fn split_words_agrees_with_split_whitespace() {
    let samples = [
        "",
        " ",
        "play_pause 3",
        "  set_volume\t0.5   1.0  ",
        "a\u{3000}b\u{85}c\u{a0}d",
        "exit",
        "\n\r\t",
        "héllo wörld  ",
        "x\u{2028}y\u{205f}z",
    ];
    for s in samples {
        let got = split_words(s);
        let expected: Vec<&str> = s.split_whitespace().collect();
        assert_eq!(got, expected, "text {:?}", s);
    }
}

#[test]
fn parse_index_agrees_with_std() {
    let samples = [
        "0", "7", "42", "+42", "-1", "+", "", "0042", "1.5", "12a", " 1",
        "18446744073709551615", "18446744073709551616", "99999999999999999999999",
    ];
    for s in samples {
        assert_eq!(parse_index(s), s.parse::<usize>().ok(), "text {:?}", s);
    }
}

#[test]
fn same_text_compares_whole_texts() {
    assert!(same_text("exit", "exit"));
    assert!(!same_text("exit", "exits"));
    assert!(!same_text("exit", "Exit"));
    assert!(same_text("", ""));
}

#[test]
fn commands_without_arguments() {
    assert_eq!(parse_command("exit"), Ok(Command::Exit));
    assert_eq!(parse_command("browse"), Ok(Command::Browse));
    assert_eq!(parse_command("update_device_list"), Ok(Command::UpdateDeviceList));
    assert_eq!(parse_command("ready"), Ok(Command::Ready));
    assert_eq!(parse_command("  ready  extra words"), Ok(Command::Ready));
}

#[test]
fn commands_with_an_index() {
    assert_eq!(parse_command("remove 3"), Ok(Command::Remove(3)));
    assert_eq!(parse_command("play_pause 0"), Ok(Command::PlayPause(0)));
    assert_eq!(parse_command("restart 12"), Ok(Command::Restart(12)));
    assert_eq!(parse_command("select_primary 2"), Ok(Command::SelectPrimary(2)));
    assert_eq!(parse_command("select_secondary\t+1"), Ok(Command::SelectSecondary(1)));
    assert_eq!(parse_command("play_pause 4 5"), Ok(Command::PlayPause(4)));
}

#[test]
fn set_volume_keeps_the_number_texts() {
    assert_eq!(
        parse_command("set_volume 0.25 1"),
        Ok(Command::SetVolume("0.25".to_string(), "1".to_string()))
    );
    assert_eq!(parse_command("set_volume 0.25"), Err(CommandError::MissingArgument));
}

#[test]
fn refused_command_texts() {
    assert_eq!(parse_command(""), Err(CommandError::Empty));
    assert_eq!(parse_command(" \t\n"), Err(CommandError::Empty));
    assert_eq!(parse_command("remove"), Err(CommandError::MissingArgument));
    assert_eq!(parse_command("play_pause x"), Err(CommandError::InvalidIndex));
    assert_eq!(parse_command("restart -1"), Err(CommandError::InvalidIndex));
    assert_eq!(
        parse_command("select_primary 99999999999999999999999"),
        Err(CommandError::InvalidIndex)
    );
}

#[test]
fn unknown_command_words() {
    assert_eq!(parse_command("jump 3"), Ok(Command::Other));
    assert_eq!(parse_command("Exit"), Ok(Command::Other));
    assert_eq!(parse_command("exit_now"), Ok(Command::Other));
}

#[test]
fn written_ids_read_back() {
    for id in [0usize, 1, 9, 10, 255, 65536, usize::MAX] {
        assert_eq!(parse_command(&format!("play_pause {}", id)), Ok(Command::PlayPause(id)));
        assert_eq!(parse_command(&format!("remove {}", id)), Ok(Command::Remove(id)));
    }
}
