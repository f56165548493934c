use iiif_core::ident::{Identifier, IdentifierError};

fn ok(raw: &str) -> Identifier {
    Identifier::decode(raw).unwrap()
}

fn rejects(raw: &str, why: IdentifierError) {
    assert_eq!(Identifier::decode(raw).unwrap_err(), why, "input {raw:?}");
}

#[test]
fn plain_identifiers() {
    assert_eq!(ok("abcd1234").as_path(), "abcd1234");
    assert_eq!(ok("a-b_c.tif").as_path(), "a-b_c.tif");
    assert_eq!(ok("dir%2Fimage.tif").as_path(), "dir/image.tif");
    assert_eq!(ok("a%2Fb%2Fc").as_path(), "a/b/c");
    assert_eq!(ok("M%C3%BCnchen.jp2").as_path(), "M\u{fc}nchen.jp2");
}

#[test]
fn dots_that_are_not_traversal() {
    assert_eq!(ok("..foo").as_path(), "..foo");
    assert_eq!(ok("foo..").as_path(), "foo..");
    assert_eq!(ok("f.o.o").as_path(), "f.o.o");
    assert_eq!(ok("a%2F..b").as_path(), "a/..b");
}

#[test]
fn traversal_rejected() {
    rejects("..", IdentifierError::Traversal);
    rejects(".", IdentifierError::Traversal);
    rejects("%2E%2E", IdentifierError::Traversal);
    rejects("..%2Fetc%2Fpasswd", IdentifierError::Traversal);
    rejects("a%2F..%2Fb", IdentifierError::Traversal);
    rejects("a%2F.%2Fb", IdentifierError::Traversal);
    rejects("%2Fabsolute", IdentifierError::Traversal);
    rejects("a%2F%2Fb", IdentifierError::Traversal);
    rejects("trailing%2F", IdentifierError::Traversal);
}

#[test]
fn single_decode_pass_only() {
    assert_eq!(ok("%252E%252E").as_path(), "%2E%2E");
    assert_eq!(ok("a%252Fb").as_path(), "a%2Fb");
}

#[test]
fn bad_encodings_rejected() {
    rejects("%", IdentifierError::BadEscape);
    rejects("%2", IdentifierError::BadEscape);
    rejects("%GG", IdentifierError::BadEscape);
    rejects("a%2Gb", IdentifierError::BadEscape);
    rejects("", IdentifierError::Empty);
    rejects("%FF", IdentifierError::NotUtf8);
    rejects("a%00b", IdentifierError::ControlCharacter);
    rejects("a%0Ab", IdentifierError::ControlCharacter);
    rejects("a%7Fb", IdentifierError::ControlCharacter);
    rejects("a%5Cb", IdentifierError::Backslash);
    rejects("a\\b", IdentifierError::Backslash);
}

#[test]
fn encoded_identifiers_decode_back() {
    for raw in ["abcd1234", "dir%2Fimage.tif", "M%C3%BCnchen.jp2", "a b", "%252E%252E", "x%3Fy%23z"] {
        let id = ok(raw);
        let again = Identifier::decode(&id.encoded()).unwrap();
        assert_eq!(again, id, "{raw}");
    }
    assert_eq!(ok("dir%2Fimage.tif").encoded(), "dir%2Fimage.tif");
    assert_eq!(ok("a b").encoded(), "a%20b");
}

#[test]
fn decoded_paths_carry_no_traversal() {
    for raw in ["a%2Fb%2Fc", "..foo", "x%2F.y", "M%C3%BCnchen.jp2"] {
        let id = ok(raw);
        let p = id.as_path();
        assert!(!p.starts_with('/'));
        for seg in p.split('/') {
            assert!(!seg.is_empty() && seg != "." && seg != "..");
        }
    }
}

#[test]
fn identifier_error_messages() {
    assert_eq!(IdentifierError::Traversal.to_string(), "identifier contains path traversal");
    assert_eq!(IdentifierError::NotUtf8.to_string(), "identifier is not valid UTF-8");
}
