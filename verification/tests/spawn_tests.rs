use relay_gateway::detached_spawn::{append_quoted, windows_command_line, windows_creation_flags};
use relay_gateway::spawn_environment::{
    environment_block, environment_entries, remove_entry, set_entry, EnvChange, EnvEntry, EnvVariable,
};

fn wide(text: &str) -> Vec<u16> {
    text.encode_utf16().collect()
}

fn quoted(text: &str) -> String {
    let mut line = Vec::new();
    append_quoted(&mut line, &wide(text));
    String::from_utf16(&line).unwrap()
}

#[test]
fn plain_parts_are_only_wrapped_in_quotes() {
    assert_eq!(quoted("ab"), "\"ab\"");
    assert_eq!(quoted("x y"), "\"x y\"");
    assert_eq!(quoted(""), "\"\"");
}

#[test]
fn backslashes_are_doubled_only_before_quotes() {
    assert_eq!(quoted("a\\b"), "\"a\\b\"");
    assert_eq!(quoted("a\\"), "\"a\\\\\"");
    assert_eq!(quoted("a\"b"), "\"a\\\"b\"");
    assert_eq!(quoted("a\\\""), "\"a\\\\\\\"\"");
}

#[test]
fn command_lines_quote_every_part_and_end_in_nul() {
    let line = windows_command_line(&wide("C:\\relay.exe"), &vec![wide("serve"), wide("x y")]);
    assert_eq!(line.last(), Some(&0u16));
    assert_eq!(
        String::from_utf16(&line[..line.len() - 1]).unwrap(),
        "\"C:\\relay.exe\" \"serve\" \"x y\""
    );
}

#[test]
fn creation_flags_follow_the_job_limits() {
    assert_eq!(windows_creation_flags(false, None), (0x0800_0200, false));
    assert_eq!(windows_creation_flags(true, Some(0x0000_0800)), (0x0900_0200, false));
    assert_eq!(windows_creation_flags(true, Some(0x0000_1000)), (0x0800_0200, false));
    assert_eq!(windows_creation_flags(true, Some(0)), (0x0800_0200, true));
    assert_eq!(windows_creation_flags(true, None), (0x0800_0200, true));
}

fn var(name: &str, value: &str) -> EnvVariable {
    EnvVariable { name: name.to_string(), wide_name: wide(name), value: wide(value) }
}

fn keys(entries: &Vec<EnvEntry>) -> Vec<String> {
    entries.iter().map(|e| e.key.clone()).collect()
}

#[test]
fn entries_stay_in_byte_order_of_their_keys() {
    let mut entries = Vec::new();
    set_entry(&mut entries, "a".to_string(), wide("a"), wide("1"));
    set_entry(&mut entries, "Z".to_string(), wide("Z"), wide("2"));
    set_entry(&mut entries, "M".to_string(), wide("M"), wide("3"));
    assert_eq!(keys(&entries), vec!["M", "Z", "a"]);
    set_entry(&mut entries, "Z".to_string(), wide("z"), wide("4"));
    assert_eq!(keys(&entries), vec!["M", "Z", "a"]);
    assert_eq!(entries[1].name, wide("z"));
    assert_eq!(entries[1].value, wide("4"));
    remove_entry(&mut entries, &"M".to_string());
    remove_entry(&mut entries, &"Q".to_string());
    assert_eq!(keys(&entries), vec!["Z", "a"]);
}

#[test]
fn names_are_compared_in_upper_case_and_later_settings_win() {
    let entries = environment_entries(
        vec![var("Path", "C:\\bin"), var("temp", "C:\\t"), var("PATH", "D:\\bin")],
        vec![
            EnvChange { name: "Temp".to_string(), wide_name: wide("Temp"), value: None },
            EnvChange { name: "relay_mode".to_string(), wide_name: wide("relay_mode"), value: Some(wide("gateway")) },
        ],
    );
    assert_eq!(keys(&entries), vec!["PATH", "RELAY_MODE"]);
    assert_eq!(entries[0].name, wide("PATH"));
    assert_eq!(entries[0].value, wide("D:\\bin"));
    assert_eq!(entries[1].name, wide("relay_mode"));
    let block = environment_block(&entries);
    assert_eq!(
        String::from_utf16(&block).unwrap(),
        "PATH=D:\\bin\u{0}relay_mode=gateway\u{0}\u{0}"
    );
}

#[test]
fn an_empty_environment_is_a_lone_nul() {
    assert_eq!(environment_block(&Vec::new()), vec![0u16]);
}
