use pwm::cli::{generate_password, join_names, parse_command, password_confirmation, save_answer, Command};
use pwm::parser::Parser;

fn words(line: &str) -> Vec<Vec<u8>> {
    Parser::new(line).iter()
}

#[test]
fn cli_insert_with_and_without_data() {
    match parse_command(&words("insert test 123\n")) {
        Command::Insert(name, data) => {
            assert_eq!(name, b"test".to_vec());
            assert_eq!(data, Some(b"123".to_vec()));
        }
        _ => panic!("expected insert"),
    }
    // the trailing newline leaves an empty last word, which is the data
    match parse_command(&words("add \"test 123\"\n")) {
        Command::Insert(name, data) => {
            assert_eq!(name, b"test 123".to_vec());
            assert_eq!(data, Some(Vec::new()));
        }
        _ => panic!("expected insert"),
    }
    match parse_command(&vec![b"i".to_vec(), b"key".to_vec()]) {
        Command::Insert(name, data) => {
            assert_eq!(name, b"key".to_vec());
            assert_eq!(data, None);
        }
        _ => panic!("expected insert"),
    }
}

#[test]
fn cli_missing_arguments() {
    for (line, msg) in [
        ("insert", "Expected a key"),
        ("rm", "Expected a key"),
        ("import", "Expected a file"),
        ("ex", "Expected a file"),
        ("rename a", "Expected rename <name> <name>"),
        ("s", "Expected a filename"),
        ("pw", "Expected a length"),
        ("get", "Expected a key"),
    ] {
        match parse_command(&words(line)) {
            Command::Missing(m) => assert_eq!(m, msg),
            _ => panic!("expected a missing argument for {}", line),
        }
    }
}

#[test]
fn cli_other_commands() {
    assert!(matches!(parse_command(&words("help")), Command::Help));
    assert!(matches!(parse_command(&words("q\n")), Command::Exit));
    assert!(matches!(parse_command(&words("frobnicate")), Command::Invalid));
    assert!(matches!(parse_command(&words("\n")), Command::Invalid));
    assert!(matches!(parse_command(&Vec::new()), Command::Nothing));
    match parse_command(&words("rename a b")) {
        Command::Rename(a, b) => {
            assert_eq!(a, b"a".to_vec());
            assert_eq!(b, b"b".to_vec());
        }
        _ => panic!("expected rename"),
    }
    match parse_command(&vec![b"list".to_vec()]) {
        Command::List(p) => assert_eq!(p, None),
        _ => panic!("expected list"),
    }
    match parse_command(&words("search 1")) {
        Command::Search(p) => assert_eq!(p, Some(b"1".to_vec())),
        _ => panic!("expected search"),
    }
    match parse_command(&words("pw 12")) {
        Command::Pw(n) => assert_eq!(n, b"12".to_vec()),
        _ => panic!("expected pw"),
    }
}

#[test]
fn cli_join_names() {
    let names = vec!["user1".to_string(), "user2".to_string(), "user3".to_string()];
    assert_eq!(join_names(&names), "user1, user2, user3");
    assert_eq!(join_names(&vec!["user1".to_string()]), "user1");
    assert_eq!(join_names(&Vec::new()), "");
}

#[test]
fn cli_save_answer() {
    assert_eq!(save_answer("Y"), Some(true));
    assert_eq!(save_answer("yEs"), Some(true));
    assert_eq!(save_answer("n"), Some(false));
    assert_eq!(save_answer("NO"), Some(false));
    assert_eq!(save_answer("maybe"), None);
    assert_eq!(save_answer(""), None);
}

#[test]
fn cli_password_confirmation() {
    assert_eq!(password_confirmation("12".to_string(), "12".to_string()), Ok("12".to_string()));
    assert_eq!(
        password_confirmation("12".to_string(), "13".to_string()),
        Err("passwords do not match".to_string())
    );
}

#[test]
fn cli_generate_password() {
    assert_eq!(generate_password("abc"), Err("Invalid length input".to_string()));
    assert_eq!(generate_password("-4"), Err("Invalid length input".to_string()));
    assert_eq!(
        generate_password("0"),
        Err("Failed to generate password: The length of passwords cannot be 0.".to_string())
    );
    assert_eq!(
        generate_password("3"),
        Err("Failed to generate password: The length of passwords is too short.".to_string())
    );
    let p = generate_password("+12").unwrap();
    assert_eq!(p.chars().count(), 12);
    assert!(p.chars().all(|c| ('!'..='~').contains(&c)));
    assert!(p.chars().any(|c| c.is_ascii_digit()));
    assert!(p.chars().any(|c| c.is_ascii_lowercase()));
    assert!(p.chars().any(|c| c.is_ascii_uppercase()));
    assert!(p.chars().any(|c| c.is_ascii_punctuation()));
}
