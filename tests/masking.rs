use speakeasy_rust_sdk::masking::body_mask::{BodyMask, Error};
use speakeasy_rust_sdk::masking::generic_mask::{GenericMask, QueryStringMask, RequestHeaderMask};
use speakeasy_rust_sdk::masking::option::{NumberMaskingOption, StringMaskingOption, DEFAULT_NUMBER_MASK};
use speakeasy_rust_sdk::masking::Masking;
use speakeasy_rust_sdk::Fields;

struct Case {
    body: &'static str,
    expected: &'static str,
    string_masks: Vec<(String, String)>,
    number_masks: Vec<(String, i32)>,
}

fn s(v: &str) -> String {
    v.to_string()
}

fn fields(names: &[&str]) -> Fields {
    Fields::new(names.iter().map(|n| n.to_string()).collect())
}

#[test]
fn body_mask_run() {
    let cases = vec![
        // successfully masks body with single string field
        Case {
            body: r#"{"test": "test"}"#,
            expected: r#"{"test": "testmask"}"#,
            string_masks: vec![(s("test"), s("testmask"))],
            number_masks: vec![],
        },
        // successfully masks body with single int field
        Case {
            body: r#"{"test": 123}"#,
            expected: r#"{"test": -123456789}"#,
            string_masks: vec![],
            number_masks: vec![(s("test"), -123456789)],
        },
        // successfully masks body with single negative field
        Case {
            body: r#"{"test": -123}"#,
            expected: r#"{"test": -123456789}"#,
            string_masks: vec![],
            number_masks: vec![(s("test"), -123456789)],
        },
        // successfully masks body with single float field
        Case {
            body: r#"{"test": 123.123}"#,
            expected: r#"{"test": -123456789}"#,
            string_masks: vec![],
            number_masks: vec![(s("test"), -123456789)],
        },
        // successfully masks body with multiple masking fields
        Case {
            body: r#"{"test": "test", "another_test": "secret", "not_a_secret": "not a secret"}"#,
            expected: r#"{"test": "testmask", "another_test": "testmask", "not_a_secret": "not a secret"}"#,
            string_masks: vec![(s("test"), s("testmask")), (s("another_test"), s("testmask"))],
            number_masks: vec![],
        },
        // successfully masks body with nested fields
        Case {
            body: r#"{"test": {"test": "test", "test1": 123}}"#,
            expected: r#"{"test": {"test": "testmask", "test1": -123456789}}"#,
            string_masks: vec![(s("test"), s("testmask"))],
            number_masks: vec![(s("test1"), -123456789)],
        },
        // successfully masks formatted body
        Case {
            body: r#"
                "test": {
                    "test": "test",
                    "test1": 123
                }"#,
            expected: r#"
                "test": {
                    "test": "testmask",
                    "test1": -123456789
                }"#,
            string_masks: vec![(s("test"), s("testmask"))],
            number_masks: vec![(s("test1"), -123456789)],
        },
        // successfully masks body with complex string field
        Case {
            body: r#"{"test": "\",{abc}: .\""}"#,
            expected: r#"{"test": "testmask"}"#,
            string_masks: vec![(s("test"), s("testmask"))],
            number_masks: vec![],
        },
        // successfully masks body with complex field key
        Case {
            body: r#"{"test\"hello\": ": "\",{abc}: .\""}"#,
            expected: r#"{"test\"hello\": ": "testmask"}"#,
            string_masks: vec![(s(r#"test\"hello\": "#), s("testmask"))],
            number_masks: vec![],
        },
    ];

    for case in cases {
        assert_eq!(
            BodyMask::try_new(case.string_masks, case.number_masks).unwrap().mask(case.body),
            case.expected,
        );
    }
}

#[test]
fn masking_twice_changes_nothing_more() {
    let mask = BodyMask::try_new(
        vec![(s("password"), s("***")), (s("token"), s("xx"))],
        vec![(s("pin"), 0)],
    )
    .unwrap();
    let body = r#"{"user": "ann", "password": "hunter2", "nested": {"token": "abc\"def", "pin": 1234}}"#;
    let once = mask.mask(body);
    assert_eq!(once, r#"{"user": "ann", "password": "***", "nested": {"token": "xx", "pin": 0}}"#);
    assert_eq!(mask.mask(&once), once);
}

#[test]
fn masking_one_field_leaves_another_alone() {
    let mask = BodyMask::try_new(vec![(s("a"), s("M"))], vec![]).unwrap();
    assert_eq!(mask.mask(r#"{"a": {"b": "keep"}}"#), r#"{"a": {"b": "keep"}}"#);
    assert_eq!(mask.mask(r#"{"b": {"a": "x"}, "c": "y"}"#), r#"{"b": {"a": "M"}, "c": "y"}"#);
    assert_eq!(mask.mask(r#"{"b": "a", "a": "b"}"#), r#"{"b": "a", "a": "M"}"#);
    assert_eq!(mask.mask(r#"{"ab": "x", "ba": "y"}"#), r#"{"ab": "x", "ba": "y"}"#);
}

#[test]
fn number_mask_leaves_exponents_and_strings() {
    let mask = BodyMask::try_new(vec![], vec![(s("n"), 7)]).unwrap();
    assert_eq!(mask.mask(r#"{"n": 1e10}"#), r#"{"n": 1e10}"#);
    assert_eq!(mask.mask(r#"{"n": "12"}"#), r#"{"n": "12"}"#);
    assert_eq!(mask.mask(r#"{"n":-0.5,"m":3}"#), r#"{"n":7,"m":3}"#);
    assert_eq!(mask.mask(r#"{"n": 1.2.3}"#), r#"{"n": 1.2.3}"#);
}

#[test]
fn empty_body_and_no_rules_pass_through() {
    let mask = BodyMask::try_new(vec![], vec![]).unwrap();
    assert!(mask.is_empty());
    assert_eq!(mask.mask(r#"{"a": "b"}"#), r#"{"a": "b"}"#);
    let mask = BodyMask::try_new(vec![(s("a"), s("M"))], vec![]).unwrap();
    assert_eq!(mask.mask(""), "");
    assert_eq!(mask.mask(r#"{"a": "unterminated"#), r#"{"a": "unterminated"#);
}

#[test]
fn empty_field_names_are_refused() {
    assert!(matches!(BodyMask::try_new(vec![(s(""), s("M"))], vec![]), Err(Error::StringField(_))));
    assert!(matches!(BodyMask::try_new(vec![], vec![(s(""), 1)]), Err(Error::NumberField(_))));
    let mut masking = Masking::default();
    assert!(masking.with_request_field_mask_string(fields(&["ok", ""]), StringMaskingOption::DefaultMask).is_err());
    assert!(masking.is_empty());
    assert!(masking.with_response_field_mask_number(fields(&[""]), NumberMaskingOption::DefaultMask).is_err());
    assert!(masking.is_empty());
}

#[test]
fn replacement_strategies_resolve() {
    let none = StringMaskingOption::DefaultMask;
    assert_eq!(none.get_mask_replacement("x", Some(0)), "__masked__");
    assert_eq!(none.get_mask_replacement("y", None), "__masked__");

    let single = StringMaskingOption::SingleMask(s("v"));
    assert_eq!(single.get_mask_replacement("x", Some(0)), "v");
    assert_eq!(single.get_mask_replacement("z", Some(7)), "v");
    assert_eq!(single.get_mask_replacement("z", None), "v");

    let multiple = StringMaskingOption::MultipleMasks(vec![s("m0"), s("m1")]);
    assert_eq!(multiple.get_mask_replacement("a", Some(0)), "m0");
    assert_eq!(multiple.get_mask_replacement("b", Some(1)), "m1");
    assert_eq!(multiple.get_mask_replacement("c", Some(2)), "__masked__");
    assert_eq!(multiple.get_mask_replacement("c", Some(9)), "__masked__");
    assert_eq!(multiple.get_mask_replacement("c", None), "__masked__");

    let associated = StringMaskingOption::AssociatedMasks(vec![(s("x"), s("y"))]);
    assert_eq!(associated.get_mask_replacement("x", Some(5)), "y");
    assert_eq!(associated.get_mask_replacement("w", Some(0)), "__masked__");

    assert_eq!(NumberMaskingOption::DefaultMask.get_mask_replacement("x", Some(0)), DEFAULT_NUMBER_MASK);
    assert_eq!(DEFAULT_NUMBER_MASK, -12321);
    assert_eq!(NumberMaskingOption::SingleMask(4).get_mask_replacement("q", Some(3)), 4);
    let numbers = NumberMaskingOption::MultipleMasks(vec![10, 11]);
    assert_eq!(numbers.get_mask_replacement("a", Some(0)), 10);
    assert_eq!(numbers.get_mask_replacement("a", Some(1)), 11);
    assert_eq!(numbers.get_mask_replacement("a", Some(2)), -12321);
    let numbers = NumberMaskingOption::AssociatedMasks(vec![(s("x"), 9)]);
    assert_eq!(numbers.get_mask_replacement("x", None), 9);
    assert_eq!(numbers.get_mask_replacement("y", None), -12321);
}

#[test]
fn positional_masks_follow_field_order() {
    let mut masking = Masking::default();
    masking
        .with_request_field_mask_string(fields(&["a", "b", "c"]), StringMaskingOption::MultipleMasks(vec![s("A"), s("B")]))
        .unwrap();
    let body = r#"{"c": "3", "b": "2", "a": "1"}"#;
    assert_eq!(masking.request_body_rules().mask(body), r#"{"c": "__masked__", "b": "B", "a": "A"}"#);
    masking.with_response_field_mask_number(fields(&["n"]), NumberMaskingOption::DefaultMask).unwrap();
    assert_eq!(masking.response_body_rules().mask(r#"{"n": 5}"#), r#"{"n": -12321}"#);
}

#[test]
fn flat_masks_replace_configured_names_only() {
    let mask: GenericMask<RequestHeaderMask> =
        GenericMask::new(fields(&["authorization", "cookie"]), StringMaskingOption::MultipleMasks(vec![s("***")]));
    assert_eq!(mask.mask("authorization", "Bearer abc"), "***");
    assert_eq!(mask.mask("cookie", "a=b"), "__masked__");
    assert_eq!(mask.mask("Authorization", "Bearer abc"), "Bearer abc");
    assert_eq!(mask.mask("accept", "*/*"), "*/*");
    assert!(!mask.is_empty());

    let empty: GenericMask<QueryStringMask> = GenericMask::default();
    assert!(empty.is_empty());
    assert_eq!(empty.mask("password", "secret"), "secret");

    let associated: GenericMask<QueryStringMask> = GenericMask::new(
        fields(&["password", "token"]),
        StringMaskingOption::AssociatedMasks(vec![(s("password"), s("hunter2"))]),
    );
    assert_eq!(associated.mask("password", "p"), "hunter2");
    assert_eq!(associated.mask("token", "t"), "__masked__");
    let meta = associated.metadata();
    assert_eq!(meta, vec![(s("password"), s("hunter2")), (s("token"), s("__masked__"))]);
}

#[test]
fn masking_policy_metadata_lists_rules() {
    let mut masking = Masking::default();
    assert!(masking.is_empty());
    assert!(masking.metadata().query_string_masks.is_empty());
    masking.with_query_string_mask(fields(&["secret"]), StringMaskingOption::SingleMask(s("****")));
    masking.with_request_header_mask(fields(&["x-key"]), StringMaskingOption::DefaultMask);
    masking.with_response_cookie_mask(fields(&["session"]), StringMaskingOption::DefaultMask);
    masking.with_request_field_mask_number(fields(&["age"]), NumberMaskingOption::SingleMask(-1)).unwrap();
    assert!(!masking.is_empty());
    let meta = masking.metadata();
    assert_eq!(meta.query_string_masks, vec![(s("secret"), s("****"))]);
    assert_eq!(meta.request_header_masks, vec![(s("x-key"), s("__masked__"))]);
    assert_eq!(meta.response_cookie_masks, vec![(s("session"), s("__masked__"))]);
    assert_eq!(meta.request_field_masks_number, vec![(s("age"), s("-1"))]);
    assert!(meta.response_header_masks.is_empty());
}

#[test]
fn options_convert_from_plain_values() {
    assert!(matches!(StringMaskingOption::from(s("x")), StringMaskingOption::SingleMask(m) if m == "x"));
    assert!(matches!(StringMaskingOption::from(None::<String>), StringMaskingOption::DefaultMask));
    assert!(matches!(StringMaskingOption::from(vec![s("a"), s("b")]), StringMaskingOption::MultipleMasks(v) if v.len() == 2));
    assert!(matches!(StringMaskingOption::from(vec![(s("k"), s("v"))]), StringMaskingOption::AssociatedMasks(v) if v.len() == 1));
    assert!(matches!(StringMaskingOption::default(), StringMaskingOption::DefaultMask));
    assert!(matches!(NumberMaskingOption::from(5), NumberMaskingOption::SingleMask(5)));
    assert!(matches!(NumberMaskingOption::from(Some(6)), NumberMaskingOption::SingleMask(6)));
    assert!(matches!(NumberMaskingOption::from(vec![1, 2]), NumberMaskingOption::MultipleMasks(v) if v == vec![1, 2]));
    assert!(matches!(NumberMaskingOption::from(vec![(s("k"), 3)]), NumberMaskingOption::AssociatedMasks(v) if v.len() == 1));
    assert!(matches!(NumberMaskingOption::default(), NumberMaskingOption::DefaultMask));
}
