use hurl::ast::{Bytes, SourceInfo};
use hurl::error::ParseError;
use hurl::parser::base64;
use hurl::parser::bytes::{base64_bytes, bytes, file_bytes, json_bytes};
use hurl::parser::json;
use hurl::reader::Reader;

#[test]
fn test_bytes_json() {
    let mut reader = Reader::init("[1,2,3] ");
    match bytes(&mut reader).unwrap() {
        Bytes::Json { value } => match value {
            json::Value::List { space0, elements } => {
                assert_eq!(space0, "");
                assert_eq!(elements.len(), 3);
                let expected = ["1", "2", "3"];
                for (k, e) in elements.iter().enumerate() {
                    assert_eq!(e.space0, "");
                    assert_eq!(e.space1, "");
                    match &e.value {
                        json::Value::Number(n) => assert_eq!(n, expected[k]),
                        _ => panic!("expected a number"),
                    }
                }
            }
            _ => panic!("expected a list"),
        },
        _ => panic!("expected json"),
    }
    assert_eq!(reader.state.cursor, 7);

    let mut reader = Reader::init("{ } ");
    match bytes(&mut reader).unwrap() {
        Bytes::Json { value } => match value {
            json::Value::Object { space0, elements } => {
                assert_eq!(space0, " ");
                assert_eq!(elements.len(), 0);
            }
            _ => panic!("expected an object"),
        },
        _ => panic!("expected json"),
    }
    assert_eq!(reader.state.cursor, 3);

    let mut reader = Reader::init("true");
    match bytes(&mut reader).unwrap() {
        Bytes::Json { value } => match value {
            json::Value::Boolean(b) => assert!(b),
            _ => panic!("expected a boolean"),
        },
        _ => panic!("expected json"),
    }
    assert_eq!(reader.state.cursor, 4);

    let mut reader = Reader::init("\"\" x");
    match bytes(&mut reader).unwrap() {
        Bytes::Json { value } => match value {
            json::Value::String(template) => {
                assert!(template.quotes);
                assert_eq!(template.elements.len(), 0);
                assert_eq!(template.source_info, SourceInfo::init(1, 2, 1, 2));
            }
            _ => panic!("expected a string"),
        },
        _ => panic!("expected json"),
    }
    assert_eq!(reader.state.cursor, 2);
}

#[test]
fn test_bytes_xml() {
    let mut reader = Reader::init("<a/>");
    match bytes(&mut reader).unwrap() {
        Bytes::Xml { value } => assert_eq!(value, "<a/>"),
        _ => panic!("expected xml"),
    }
}

#[test]
fn test_bytes_file() {
    let mut reader = Reader::init("file,data.xml;");
    match bytes(&mut reader).unwrap() {
        Bytes::File { space0, filename, space1 } => {
            assert_eq!(space0.value, "");
            assert_eq!(space0.source_info, SourceInfo::init(1, 6, 1, 6));
            assert_eq!(filename.value, "data.xml");
            assert_eq!(filename.source_info, SourceInfo::init(1, 6, 1, 14));
            assert_eq!(space1.value, "");
            assert_eq!(space1.source_info, SourceInfo::init(1, 14, 1, 14));
        }
        _ => panic!("expected a file"),
    }
}

#[test]
fn test_bytes_json_error() {
    let mut reader = Reader::init("{ x ");
    let error = bytes(&mut reader).err().unwrap();
    assert_eq!(error.pos.line, 1);
    assert_eq!(error.pos.column, 3);
    let ParseError::Expecting { value } = error.inner;
    assert_eq!(value, "\"");
}

#[test]
fn test_bytes_multilines_error() {
    let mut reader = Reader::init("```\nxxx ");
    let error = bytes(&mut reader).err().unwrap();
    assert_eq!(error.pos.line, 2);
    assert_eq!(error.pos.column, 5);
    let ParseError::Expecting { value } = error.inner;
    assert_eq!(value, "```");
}

#[test]
fn test_bytes_eof() {
    let mut reader = Reader::init("");
    let error = bytes(&mut reader).err().unwrap();
    let ParseError::Expecting { value } = error.inner;
    assert_eq!(value, "file");
    assert_eq!(error.recoverable, true);
}

#[test]
fn test_json_bytes() {
    let mut reader = Reader::init("100");
    match json_bytes(&mut reader).unwrap() {
        Bytes::Json { value } => match value {
            json::Value::Number(n) => assert_eq!(n, "100"),
            _ => panic!("expected a number"),
        },
        _ => panic!("expected json"),
    }
}

#[test]
fn test_file_bytes() {
    let mut reader = Reader::init("file, filename1;");
    match file_bytes(&mut reader).unwrap() {
        Bytes::File { space0, filename, space1 } => {
            assert_eq!(space0.value, " ");
            assert_eq!(space0.source_info, SourceInfo::init(1, 6, 1, 7));
            assert_eq!(filename.value, "filename1");
            assert_eq!(filename.source_info, SourceInfo::init(1, 7, 1, 16));
            assert_eq!(space1.value, "");
            assert_eq!(space1.source_info, SourceInfo::init(1, 16, 1, 16));
        }
        _ => panic!("expected a file"),
    }

    let mut reader = Reader::init("file, tmp/filename1;");
    match file_bytes(&mut reader).unwrap() {
        Bytes::File { space0, filename, space1 } => {
            assert_eq!(space0.value, " ");
            assert_eq!(space0.source_info, SourceInfo::init(1, 6, 1, 7));
            assert_eq!(filename.value, "tmp/filename1");
            assert_eq!(filename.source_info, SourceInfo::init(1, 7, 1, 20));
            assert_eq!(space1.value, "");
            assert_eq!(space1.source_info, SourceInfo::init(1, 20, 1, 20));
        }
        _ => panic!("expected a file"),
    }
}

#[test]
fn test_file_bytes_error() {
    let mut reader = Reader::init("fil; filename1;");
    let error = file_bytes(&mut reader).err().unwrap();
    assert_eq!(error.pos.line, 1);
    assert_eq!(error.pos.column, 1);
    assert_eq!(error.recoverable, true);

    let mut reader = Reader::init("file, filename1");
    let error = file_bytes(&mut reader).err().unwrap();
    assert_eq!(error.pos.line, 1);
    assert_eq!(error.pos.column, 16);
    assert_eq!(error.recoverable, false);
    let ParseError::Expecting { value } = error.inner;
    assert_eq!(value, ";");
}

#[test]
fn test_base64_bytes() {
    let mut reader = Reader::init("base64,  T WE=;xxx");
    match base64_bytes(&mut reader).unwrap() {
        Bytes::Base64 { space0, value, encoded, space1 } => {
            assert_eq!(space0.value, "  ");
            assert_eq!(space0.source_info, SourceInfo::init(1, 8, 1, 10));
            assert_eq!(value, vec![77, 97]);
            assert_eq!(encoded, "T WE=");
            assert_eq!(space1.value, "");
            assert_eq!(space1.source_info, SourceInfo::init(1, 15, 1, 15));
        }
        _ => panic!("expected base64"),
    }
    assert_eq!(reader.state.cursor, 15);
}

#[test]
fn test_base64_round_trip() {
    // Decoding the captured encoded text gives back the captured bytes.
    let mut reader = Reader::init("base64, VGhpcyBpcyBh IHRlc3Q=;");
    match base64_bytes(&mut reader).unwrap() {
        Bytes::Base64 { value, encoded, .. } => {
            let mut re_reader = Reader::init(&encoded);
            let decoded = base64::parse(&mut re_reader);
            assert_eq!(decoded, value);
            assert_eq!(value, b"This is a test".to_vec());
        }
        _ => panic!("expected base64"),
    }
}

#[test]
fn test_choice_last_error() {
    // When every variant fails recoverably, the error is the last
    // variant's probe, at the exact position where parsing began.
    let mut reader = Reader::init("zzz");
    let error = bytes(&mut reader).err().unwrap();
    assert_eq!(error.pos.line, 1);
    assert_eq!(error.pos.column, 1);
    assert_eq!(error.recoverable, true);
    let ParseError::Expecting { value } = error.inner;
    assert_eq!(value, "file");
}

#[test]
fn test_backtracking_restores_position() {
    // A recoverable failure leaves the cursor, line and column exactly
    // where the failing parser started.
    let mut reader = Reader::init("zzz");
    let before = reader.state;
    let error = bytes(&mut reader).err().unwrap();
    assert!(error.recoverable);
    assert_eq!(reader.state, before);

    let mut reader = Reader::init("fil; filename1;");
    let before = reader.state;
    let error = file_bytes(&mut reader).err().unwrap();
    assert!(error.recoverable);
    assert_eq!(reader.state, before);
}

#[test]
fn test_raw_string_bytes() {
    let mut reader = Reader::init("```\nline1\n```");
    match bytes(&mut reader).unwrap() {
        Bytes::RawString { newline, value } => {
            assert_eq!(newline.value, "\n");
            assert!(!value.quotes);
            assert_eq!(value.elements.len(), 1);
            match &value.elements[0] {
                hurl::ast::TemplateElement::Str { value } => assert_eq!(value, "line1\n"),
                _ => panic!("expected fixed text"),
            }
        }
        _ => panic!("expected a raw string"),
    }
    assert_eq!(reader.state.cursor, 13);
}

#[test]
fn test_xml_nested() {
    let mut reader = Reader::init("<a><b/>text</a>x");
    match bytes(&mut reader).unwrap() {
        Bytes::Xml { value } => assert_eq!(value, "<a><b/>text</a>"),
        _ => panic!("expected xml"),
    }
    assert_eq!(reader.state.cursor, 15);
}

#[test]
fn test_bytes_json_object_members() {
    let mut reader = Reader::init("{ \"a\": 1, \"b\": \"x\" } ");
    match bytes(&mut reader).unwrap() {
        Bytes::Json { value } => match value {
            json::Value::Object { space0, elements } => {
                assert_eq!(space0, " ");
                assert_eq!(elements.len(), 2);
                assert_eq!(elements[0].name, "a");
                match &elements[0].value {
                    json::Value::Number(n) => assert_eq!(n, "1"),
                    _ => panic!("expected a number"),
                }
                assert_eq!(elements[1].name, "b");
                match &elements[1].value {
                    json::Value::String(t) => {
                        assert_eq!(t.elements.len(), 1);
                        match &t.elements[0] {
                            hurl::ast::TemplateElement::Str { value } => assert_eq!(value, "x"),
                            _ => panic!("expected fixed text"),
                        }
                    }
                    _ => panic!("expected a string"),
                }
            }
            _ => panic!("expected an object"),
        },
        _ => panic!("expected json"),
    }
    assert_eq!(reader.state.cursor, 20);
}

#[test]
fn test_negative_and_fractional_numbers() {
    let mut reader = Reader::init("-12.5,");
    match bytes(&mut reader).unwrap() {
        Bytes::Json { value } => match value {
            json::Value::Number(n) => assert_eq!(n, "-12.5"),
            _ => panic!("expected a number"),
        },
        _ => panic!("expected json"),
    }
    assert_eq!(reader.state.cursor, 5);
}
