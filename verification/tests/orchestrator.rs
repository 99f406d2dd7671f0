use styled::namegen::NameGenerator;
use styled::{get_style_info, StyleError, StyleInfo};

#[test]
fn engine_success_produces_scoped_style() {
    let result = stylist::Style::new("background-color: red;");
    let mut names = NameGenerator::new();
    let info = get_style_info(result, &mut names).expect("the engine accepted this style");
    assert_eq!(info.class_name, "styled-0");
    assert!(info.style_string.contains(".styled-0"));
    assert!(info.style_string.contains("background-color: red;"));
    assert!(!info.style_string.contains("stylist-"));
    assert_eq!(names.counter, 1);
}

#[test]
fn engine_failure_is_fatal() {
    let err = stylist::Error::Parse {
        reason: String::from("unexpected token"),
        source: None,
    };
    let mut names = NameGenerator::new();
    let out = get_style_info(Err(err), &mut names);
    match out {
        Ok(_) => panic!("an engine failure must not produce style info"),
        Err(StyleError::EngineFailure { message }) => {
            assert!(message.contains("unexpected token"));
        }
    }
    assert_eq!(names.counter, 0);
}

#[test]
fn error_message_accessor() {
    let err = StyleError::EngineFailure {
        message: String::from("no style"),
    };
    assert_eq!(err.message(), "no style");
}

#[test]
fn style_info_clones() {
    let info = StyleInfo {
        class_name: String::from("styled-5"),
        style_string: String::from(".styled-5 { color: red; }"),
    };
    let copy = info.clone();
    assert_eq!(copy.class_name, info.class_name);
    assert_eq!(copy.style_string, info.style_string);
}

#[test]
fn successive_styles_get_distinct_names() {
    let mut names = NameGenerator::new();
    let first = get_style_info(stylist::Style::new("color: blue;"), &mut names)
        .expect("the engine accepted this style");
    let second = get_style_info(stylist::Style::new("color: green;"), &mut names)
        .expect("the engine accepted this style");
    assert_ne!(first.class_name, second.class_name);
}
