use mi::bin::{hash_quick, Find, Replace};
use mi::fs::sanitize;
use mi::img::{orientation_transform, ImageTransform, Resolution};
use mi::logger::{Logger, LOGLEVEL_DEBUG, LOGLEVEL_ERROR, LOGLEVEL_INFO, LOGLEVEL_WARN};
use mi::text::{parse_dec, u64_to_string};
use mi::util::log;

#[test]
fn it_works() {
    let result = 2 + 2;
    assert_eq!(result, 4);
}

#[test]
fn hash_quick_wraps_on_overflow() {
    assert_eq!(hash_quick(vec![u64::MAX, 1u64, u64::MAX, 15u64]), 14u64);
    assert_eq!(hash_quick(vec![]), 0);
    assert_eq!(hash_quick(vec![1, 2, 3]), 6);
}

#[test]
fn find_index_of_complete_matches() {
    let data: Vec<u8> = b"xxabyab".to_vec();
    assert_eq!(data.index_of(b"ab", 0), Ok(2));
    assert_eq!(data.index_of(b"ab", 3), Ok(5));
    assert_eq!(data.index_of(b"abz", 0), Err(0));
    // A partial match hanging over the end does not count.
    assert_eq!(data.index_of(b"abc", 5), Err(0));
}

#[test]
fn replace_resumes_past_each_occurrence() {
    let data: Vec<u8> = b"abcd".to_vec();
    // After replacing `ab` the scan resumes one byte later, dropping `c`.
    assert_eq!(data.replace(b"ab", b"X"), b"Xd".to_vec());
    let untouched: Vec<u8> = b"hello".to_vec();
    assert_eq!(untouched.replace(b"zz", b"X"), b"hello".to_vec());
    assert_eq!(untouched.replace(b"", b"X"), b"hello".to_vec());
}

#[test]
fn between_extracts_inner_bytes() {
    let data: Vec<u8> = b"<a>body</a>".to_vec();
    assert_eq!(data.between(b"<a>", b"</a>"), b"body".to_vec());
    assert_eq!(data.between(b"<x>", b"</x>"), data);
    assert_eq!(data.replace_between(b"<a>", b"</a>", b"new"), b"<a>new</a>".to_vec());
}

#[test]
fn sanitize_cleans_file_names() {
    assert_eq!(sanitize("/ect/passwd"), "_ect_passwd");
    assert_eq!(sanitize("Oh no!\u{1f525}!"), "oh-no___");
    assert_eq!(sanitize("  spaced name  "), "spaced-name");
    assert_eq!(sanitize("File.TXT"), "file.txt");
    assert_eq!(sanitize(""), "");
}

#[test]
fn resolution_parses_wxh() {
    let r = Resolution::from_str("800x600").unwrap();
    assert_eq!(r.width, 800);
    assert_eq!(r.height, 600);
    let padded = Resolution::from_str(" 1920 x 1080 ").unwrap();
    assert_eq!(padded.width, 1920);
    assert_eq!(padded.height, 1080);
}

#[test]
fn resolution_rejects_bad_shapes() {
    assert_eq!(
        Resolution::from_str("800"),
        Err("Invalid Resolution, must be in format WxH".to_string())
    );
    assert_eq!(
        Resolution::from_str("8x6x4"),
        Err("Invalid Resolution, must be in format WxH".to_string())
    );
    assert_eq!(Resolution::from_str("ax600"), Err("Invalid Resolution".to_string()));
    assert_eq!(Resolution::from_str("800x"), Err("Invalid Resolution".to_string()));
    assert_eq!(Resolution::from_str("100x100"), Err("Resolution to low".to_string()));
    assert_eq!(Resolution::from_str("100x600"), Err("Resolution to low".to_string()));
}

#[test]
fn logger_level_gates_messages() {
    let mut logger = Logger::new();
    assert_eq!(logger.get_level(), LOGLEVEL_ERROR);
    assert!(logger.debugln("hidden").is_none());
    assert!(logger.infoln("hidden").is_none());
    let err = logger.errorln("boom").unwrap();
    assert!(err.to_stderr);
    assert_eq!(err.text, "[ Error ] boom\n");
    logger.set_level(LOGLEVEL_DEBUG);
    let dbg = logger.debug("d").unwrap();
    assert!(!dbg.to_stderr);
    assert_eq!(dbg.text, "[ Debug ] d");
}

#[test]
fn logger_prefixes_and_plain_forms() {
    let mut logger = Logger::new();
    logger.set_level(LOGLEVEL_DEBUG);
    assert_eq!(logger.warnln("w").unwrap().text, "[Warning] w\n");
    assert_eq!(logger.infoln("i").unwrap().text, "[ Info  ] i\n");
    assert_eq!(logger.warn("w").unwrap().text, "[Warning] w");
    assert_eq!(logger.info("i").unwrap().text, "[ Info  ] i");
    assert_eq!(logger.error("e").unwrap().text, "[ Error ] e");
    assert_eq!(logger.ulog(LOGLEVEL_WARN, "raw").unwrap().text, "raw");
    assert_eq!(logger.ulogln(LOGLEVEL_INFO, "raw").unwrap().text, "raw\n");
    assert_eq!(logger.logln(LOGLEVEL_WARN, "m").unwrap().text, "[Warning] m\n");
    assert!(logger.log(0, "nothing").is_none());
    assert!(logger.log(5, "nothing").is_none());
}

#[test]
fn sink_line_has_timestamp_message_and_newline() {
    assert_eq!(log(1700000000, "GET /"), "1700000000 GET /\n");
    assert_eq!(log(0, "x"), "0 x\n");
}

#[test]
fn decimal_formatting_and_parsing() {
    assert_eq!(u64_to_string(0), "0");
    assert_eq!(u64_to_string(42), "42");
    assert_eq!(u64_to_string(u64::MAX), "18446744073709551615");
    assert_eq!(parse_dec("0"), Some(0));
    assert_eq!(parse_dec("00123"), Some(123));
    assert_eq!(parse_dec(""), None);
    assert_eq!(parse_dec("12a"), None);
    assert_eq!(parse_dec("-1"), None);
    assert_eq!(parse_dec("18446744073709551615"), Some(u64::MAX));
    assert_eq!(parse_dec("18446744073709551616"), None);
}

#[test]
fn orientation_transform_table() {
    let id = ImageTransform { flip_horizontal: false, quarter_turns: 0, switches_sides: false };
    assert_eq!(orientation_transform(1), id);
    assert_eq!(orientation_transform(0), id);
    assert_eq!(orientation_transform(9), id);
    let r6 = orientation_transform(6);
    assert!(!r6.flip_horizontal);
    assert_eq!(r6.quarter_turns, 1);
    assert!(r6.switches_sides);
    let r5 = orientation_transform(5);
    assert!(r5.flip_horizontal);
    assert_eq!(r5.quarter_turns, 3);
    assert!(r5.switches_sides);
    let r3 = orientation_transform(3);
    assert_eq!(r3.quarter_turns, 2);
    assert!(!r3.switches_sides);
}
