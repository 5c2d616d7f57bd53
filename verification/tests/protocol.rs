use chat_core::protocol::Command;
use chat_core::protocol::parse_command;
use chat_core::protocol::split_command;
use chat_core::protocol::trim;

#[test]
fn trim_strips_surrounding_whitespace() {
    assert_eq!(trim("  hello  "), "hello");
    assert_eq!(trim("\t\r\n x \n"), "x");
    assert_eq!(trim("nothing-to-do"), "nothing-to-do");
    assert_eq!(trim("   "), "");
    assert_eq!(trim(""), "");
    assert_eq!(trim(" a b "), "a b");
}

#[test]
fn split_takes_the_rest_of_the_line_verbatim() {
    let (head, arg) = split_command("/join the big room");
    assert_eq!(head, "/join");
    assert_eq!(arg, Some("the big room"));
    let (head, arg) = split_command("/list");
    assert_eq!(head, "/list");
    assert_eq!(arg, None);
    // a second separator belongs to the argument
    let (head, arg) = split_command("/name  padded");
    assert_eq!(head, "/name");
    assert_eq!(arg, Some(" padded"));
}

#[test]
fn commands_parse_as_the_grammar_says() {
    assert!(matches!(parse_command("/list"), Command::List));
    assert!(matches!(parse_command("/list extra"), Command::List));
    assert!(matches!(parse_command("/join lobby"), Command::Join(r) if r == "lobby"));
    assert!(matches!(parse_command("/join"), Command::MissingRoomArg));
    assert!(matches!(parse_command("/name Ann"), Command::Name(n) if n == "Ann"));
    assert!(matches!(parse_command("/name"), Command::MissingNameArg));
    assert!(matches!(parse_command("/quit"), Command::Unknown(t) if t == "/quit"));
    assert!(matches!(parse_command("/"), Command::Unknown(t) if t == "/"));
    assert!(matches!(parse_command("/ x"), Command::Unknown(t) if t == "/ x"));
}

#[test]
fn formats_identifiers_in_decimal() {
    assert_eq!(chat_core::textfmt::u64_to_string(0), "0");
    assert_eq!(chat_core::textfmt::u64_to_string(9), "9");
    assert_eq!(chat_core::textfmt::u64_to_string(10), "10");
    assert_eq!(chat_core::textfmt::u64_to_string(907), "907");
    assert_eq!(
        chat_core::textfmt::u64_to_string(18446744073709551615),
        "18446744073709551615"
    );
}
