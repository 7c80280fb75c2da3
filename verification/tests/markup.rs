use wikicorpus::markup::{read_tokens, Token};

#[test]
fn reads_open_text_close() {
    let tokens = read_tokens("<p>hello</p>", true);
    assert_eq!(tokens.len(), 3);
    assert!(matches!(&tokens[0], Token::Open(name, _) if name == b"p"));
    assert!(matches!(&tokens[1], Token::Text(raw) if raw == b"hello"));
    assert!(matches!(&tokens[2], Token::Close(name) if name == b"p"));
}

#[test]
fn reads_attributes_as_written() {
    let tokens = read_tokens("<a href=\"/x?a=1&amp;b=2\" class='c'>t</a>", true);
    match &tokens[0] {
        Token::Open(name, attributes) => {
            assert_eq!(name, b"a");
            assert_eq!(attributes.len(), 2);
            assert_eq!(attributes[0].key, b"href");
            assert_eq!(attributes[0].value, b"/x?a=1&amp;b=2");
            assert_eq!(attributes[1].key, b"class");
            assert_eq!(attributes[1].value, b"c");
        }
        other => panic!("not an opening tag: {:?}", other),
    }
}

#[test]
fn reads_empty_elements_and_other_markup() {
    let tokens = read_tokens("<?xml version=\"1.0\"?><a><redirect title=\"x\"/><!-- c --></a>", true);
    assert_eq!(tokens.len(), 5);
    assert!(matches!(&tokens[0], Token::Other));
    assert!(matches!(&tokens[1], Token::Open(name, _) if name == b"a"));
    assert!(matches!(&tokens[2], Token::Empty(name) if name == b"redirect"));
    assert!(matches!(&tokens[3], Token::Other));
    assert!(matches!(&tokens[4], Token::Close(name) if name == b"a"));
}

#[test]
fn trimming_drops_white_space_around_text() {
    let trimmed = read_tokens("<p> a b </p>\n<p>c</p>", true);
    assert_eq!(trimmed.len(), 6);
    assert!(matches!(&trimmed[1], Token::Text(raw) if raw == b"a b"));
    let untrimmed = read_tokens("<p> a b </p>\n<p>c</p>", false);
    assert_eq!(untrimmed.len(), 7);
    assert!(matches!(&untrimmed[1], Token::Text(raw) if raw == b" a b "));
    assert!(matches!(&untrimmed[3], Token::Text(raw) if raw == b"\n"));
}

#[test]
fn a_mismatched_end_is_malformed_and_ends_the_tokens() {
    let tokens = read_tokens("<a>x</b><c>", true);
    assert_eq!(tokens.len(), 3);
    assert!(matches!(&tokens[2], Token::Malformed));
}

#[test]
fn an_empty_document_has_no_tokens() {
    assert!(read_tokens("", true).is_empty());
    assert!(read_tokens("  \n ", true).is_empty());
}
