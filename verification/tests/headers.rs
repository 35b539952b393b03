use hyper_ex::header::{copy_values, lower_byte, names_match, raw_values};
use hyper_ex::HeaderField;

fn field(name: &str, values: &[&str]) -> HeaderField {
    HeaderField {
        name: name.to_string(),
        values: values.iter().map(|v| v.as_bytes().to_vec()).collect(),
    }
}

#[test]
fn names_match_without_regard_to_ascii_case() {
    assert!(names_match("Set-Cookie", "set-cookie"));
    assert!(names_match("LOCATION", "Location"));
    assert!(names_match("", ""));
    assert!(!names_match("Cookie", "Cookies"));
    assert!(!names_match("Cookie", "Cookia"));
    assert!(!names_match("a-b", "a_b"));
}

#[test]
fn names_match_does_not_fold_beyond_ascii() {
    assert!(names_match("x-é", "X-é"));
    assert!(!names_match("x-é", "x-É"));
    assert!(!names_match("[", "{"));
    assert!(!names_match("@", "`"));
}

#[test]
fn raw_values_gathers_every_field_of_the_name() {
    let fields = vec![
        field("Set-Cookie", &["a=1"]),
        field("Content-Type", &["text/html"]),
        field("set-cookie", &["b=2", "c=3"]),
    ];
    assert_eq!(
        raw_values(&fields, "SET-COOKIE"),
        vec![b"a=1".to_vec(), b"b=2".to_vec(), b"c=3".to_vec()]
    );
    assert_eq!(raw_values(&fields, "content-type"), vec![b"text/html".to_vec()]);
    assert_eq!(raw_values(&fields, "Location"), Vec::<Vec<u8>>::new());
    assert_eq!(raw_values(&vec![], "Location"), Vec::<Vec<u8>>::new());
}

#[test]
fn lower_byte_turns_only_capitals() {
    assert_eq!(lower_byte(b'A'), b'a');
    assert_eq!(lower_byte(b'Z'), b'z');
    assert_eq!(lower_byte(b'a'), b'a');
    assert_eq!(lower_byte(b'@'), b'@');
    assert_eq!(lower_byte(b'['), b'[');
    assert_eq!(lower_byte(0xc9), 0xc9);
}

#[test]
fn copy_values_copies() {
    let values = vec![b"a".to_vec(), vec![], vec![0xff, 0x00]];
    assert_eq!(copy_values(&values), values);
}

#[test]
fn field_copies_are_equal() {
    let f = field("X", &["1", "", "3"]);
    assert_eq!(f.clone(), f);
}
