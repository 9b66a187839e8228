use pwm::parser::Parser;

#[test]
fn test_basic() {
    let parser = Parser::new("insert test 123");
    let words = parser.iter();
    let mut itr = words.iter();
    let data = itr.next().unwrap();
    println!("{:?}", data);
    assert_eq!(data, b"insert");
    let data = itr.next().unwrap();
    println!("{:?}", data);
    assert_eq!(data, b"test");
    let data = itr.next().unwrap();
    println!("{:?}", data);
    assert_eq!(data, b"123");
}

#[test]
fn test_extended_name() {
    let parser = Parser::new("insert \"test\" 123");
    let words = parser.iter();
    let mut itr = words.iter();

    let data = itr.next().unwrap();
    println!("{:?}\n{:?}", data, b"insert");
    assert_eq!(data, b"insert");

    let data = itr.next().unwrap();
    println!("{:?}\n{:?}", data, b"test");
    assert_eq!(data, b"test");

    let data = itr.next().unwrap();
    println!("{:?}\n{:?}", data, b"123");
    assert_eq!(data, b"123");
}

#[test]
fn test_extended_name_2() {
    let parser = Parser::new("insert \"test 123\" 123");
    let words = parser.iter();
    let mut itr = words.iter();

    let data = itr.next().unwrap();
    println!("{:?}\n{:?}", String::from_utf8(data.to_vec()), "insert");
    assert_eq!(data, b"insert");

    let data = itr.next().unwrap();
    println!("{:?}\n{:?}", String::from_utf8(data.to_vec()), "test 123");
    assert_eq!(data, b"test 123");

    let data = itr.next().unwrap();
    println!("{:?}\n{:?}", String::from_utf8(data.to_vec()), "123");
    assert_eq!(data, b"123");
}

#[test]
fn parser_escaped_quote_and_trailing_word() {
    let parser = Parser::new("say a\\\"b ");
    let words = parser.iter();
    assert_eq!(words.len(), 3);
    assert_eq!(words[0], b"say");
    assert_eq!(words[1], b"a\"b");
    assert_eq!(words[2], b"");
}

#[test]
fn parser_quote_joins_preceding_bytes() {
    let parser = Parser::new("ab\"c d\"e");
    let words = parser.iter();
    assert_eq!(words.len(), 2);
    assert_eq!(words[0], b"abc d");
    assert_eq!(words[1], b"e");
}

#[test]
fn parser_refuses_unterminated_input() {
    assert!(Parser::try_new("get \"open").is_none());
    assert!(Parser::try_new("get \\").is_none());
    assert!(Parser::try_new("get x").is_some());
}

#[test]
fn parser_whitespace_chars() {
    assert!(Parser::is_whitespace(' '));
    assert!(Parser::is_whitespace('\t'));
    assert!(Parser::is_whitespace('\n'));
    assert!(Parser::is_whitespace('\r'));
    assert!(!Parser::is_whitespace('a'));
}
