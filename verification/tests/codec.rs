use complexipy::classes::{CodeComplexity, FileComplexity, FunctionComplexity, LineComplexity};
use complexipy::codec::{
    decode_code_complexity, decode_file_complexity, encode_code_complexity, encode_file_complexity,
};

fn sample_functions() -> Vec<FunctionComplexity> {
    vec![
        FunctionComplexity {
            name: String::from("Straße::röntgen"),
            complexity: 4,
            line_start: 2,
            line_end: 9,
            line_complexities: vec![
                LineComplexity { line: 2, complexity: 1 },
                LineComplexity { line: 5, complexity: 3 },
            ],
        },
        FunctionComplexity {
            name: String::from("plain"),
            complexity: 0,
            line_start: 11,
            line_end: 11,
            line_complexities: vec![],
        },
    ]
}

#[test]
fn code_record_round_trips() {
    let record = CodeComplexity { functions: sample_functions(), complexity: 4 };
    let bytes = encode_code_complexity(&record);
    let decoded = decode_code_complexity(&bytes).expect("round trip");
    assert_eq!(decoded, record);
}

#[test]
fn file_record_round_trips_preserving_function_order() {
    let record = FileComplexity {
        path: String::from("src/päckchen/mod.py"),
        file_name: String::from("mod.py"),
        functions: sample_functions(),
        complexity: 4,
    };
    let bytes = encode_file_complexity(&record);
    let decoded = decode_file_complexity(&bytes).expect("round trip");
    assert_eq!(decoded, record);
    let names: Vec<&str> = decoded.functions.iter().map(|f| f.name.as_str()).collect();
    assert_eq!(names, vec!["Straße::röntgen", "plain"]);
}

#[test]
fn empty_record_round_trips() {
    let record = CodeComplexity { functions: vec![], complexity: 0 };
    let bytes = encode_code_complexity(&record);
    assert_eq!(decode_code_complexity(&bytes), Some(record));
}

#[test]
fn truncated_input_is_rejected() {
    let record = CodeComplexity { functions: sample_functions(), complexity: 4 };
    let bytes = encode_code_complexity(&record);
    assert_eq!(decode_code_complexity(&bytes[..bytes.len() - 1]), None);
    assert_eq!(decode_code_complexity(&[]), None);
}

#[test]
fn trailing_garbage_is_rejected() {
    let record = CodeComplexity { functions: sample_functions(), complexity: 4 };
    let mut bytes = encode_code_complexity(&record);
    bytes.push(0);
    assert_eq!(decode_code_complexity(&bytes), None);
}

#[test]
fn invalid_utf8_in_a_name_is_rejected() {
    let record = CodeComplexity {
        functions: vec![
            FunctionComplexity {
                name: String::from("abcd"),
                complexity: 1,
                line_start: 1,
                line_end: 1,
                line_complexities: vec![],
            },
        ],
        complexity: 1,
    };
    let mut bytes = encode_code_complexity(&record);
    // The name's bytes sit right after the two u64 headers and the name's
    // length prefix; 0xff is never valid UTF-8.
    assert_eq!(&bytes[24..28], b"abcd");
    bytes[24] = 0xff;
    assert_eq!(decode_code_complexity(&bytes), None);
}

#[test]
fn corrupted_length_prefix_is_rejected() {
    let record = CodeComplexity { functions: sample_functions(), complexity: 4 };
    let mut bytes = encode_code_complexity(&record);
    // Inflate the declared function count far past the buffer's end.
    bytes[15] = 0xff;
    assert_eq!(decode_code_complexity(&bytes), None);
}
