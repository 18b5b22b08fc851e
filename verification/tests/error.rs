use record_decoder::chars::CharClass;
use record_decoder::error::failure_text;
use record_decoder::MyError;

#[test]
fn error_messages() {
    assert_eq!(MyError::FileNotFound("data.bin".to_string()).message(), "File not found: data.bin");
    assert_eq!(
        MyError::IoError("broken pipe".to_string()).message(),
        "Failed to read file: broken pipe"
    );
    assert_eq!(MyError::InvalidFormat.message(), "Invalid file format");
    assert_eq!(MyError::FileNotFound(String::new()).message(), "File not found: ");
}

#[test]
fn failure_line_names_the_file_and_the_error() {
    assert_eq!(
        failure_text("recs/one.bin", &MyError::InvalidFormat),
        "Error processing file recs/one.bin: Invalid file format"
    );
    assert_eq!(
        failure_text("", &MyError::FileNotFound("x".to_string())),
        "Error processing file : File not found: x"
    );
}

#[test]
fn whitespace_class_is_the_standard_library_whitespace() {
    for code in 0..=0x10FFFFu32 {
        if let Some(c) = char::from_u32(code) {
            assert_eq!(CharClass::Whitespace.contains(c), c.is_whitespace(), "U+{code:04X}");
        }
    }
}

#[test]
fn parens_and_quote_classes() {
    assert!(CharClass::Parens.contains('('));
    assert!(CharClass::Parens.contains(')'));
    assert!(!CharClass::Parens.contains('['));
    assert!(!CharClass::Parens.contains(' '));
    assert!(CharClass::Quote.contains('"'));
    assert!(!CharClass::Quote.contains('\''));
    assert!(!CharClass::Quote.contains('\u{201C}'));
}
