use mini_telnet::text::{format_enter_str, strip_echo, trim};

#[test]
fn trim_removes_surrounding_whitespace() {
    assert_eq!(trim(" \t\r\nx y\r\n "), "x y");
}

#[test]
fn trim_keeps_inner_whitespace() {
    assert_eq!(trim("a \r\n b"), "a \r\n b");
}

#[test]
fn trim_of_all_whitespace_is_empty() {
    assert_eq!(trim(" \r\n\t "), "");
    assert_eq!(trim(""), "");
}

#[test]
fn echo_prefix_is_stripped_and_trimmed() {
    assert_eq!(
        strip_echo("show version", "show version\r\nCisco IOS..."),
        "Cisco IOS..."
    );
}

#[test]
fn output_without_the_echo_is_unchanged() {
    assert_eq!(strip_echo("show version", "Cisco IOS...\r\n"), "Cisco IOS...\r\n");
    assert_eq!(strip_echo("show version", "show ver"), "show ver");
}

#[test]
fn enter_is_appended_only_once() {
    assert_eq!(format_enter_str("show boot"), "show boot\n");
    assert_eq!(format_enter_str("show boot\n"), "show boot\n");
    assert_eq!(format_enter_str(""), "\n");
}
