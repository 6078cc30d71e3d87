use exam_segmenter::TextType;
use exam_segmenter::question_type;

#[test]
fn detect_question() {
    assert!(TextType::Numeric == question_type("   1. Something"));
    assert!(TextType::Numeric == question_type(" 1) Something"));
    assert!(TextType::Numeric == question_type("(1) Something"));
    assert!(TextType::Numeric == question_type("1. Indicar cuál tipo de autómata"));
    assert!(TextType::Alphabetic == question_type("(a) Un autómata finito"));
    assert!(TextType::Undefined == question_type("hello"));
    assert!(TextType::Undefined == question_type("Cada acierto un punto sobre"));
    assert!(TextType::Undefined == question_type("Cada acierto un punto sobre 10"));
}

#[test]
fn other_detect_question() {
    assert!(TextType::Undefined == question_type("descuenta 1/2."));
    assert!(TextType::Undefined == question_type("puntuan."));
    assert!(TextType::Undefined == question_type("vacía. En el diagram"));
}

#[test]
fn detect_dash() {
    assert!(question_type("1 - alsdkfj alsdkfj") == TextType::Numeric);
}

#[test]
fn utf8_characters() {
    assert!(TextType::Undefined == question_type("(¢) ala+ba)\" — aa®(ba)”"));
}

#[test]
fn numeric_markers() {
    assert_eq!(question_type("1. x"), TextType::Numeric);
    assert_eq!(question_type(" 1) x"), TextType::Numeric);
    assert_eq!(question_type("(1) x"), TextType::Numeric);
    assert_eq!(question_type("1 - text"), TextType::Numeric);
    assert_eq!(question_type("10. x"), TextType::Numeric);
    assert_eq!(question_type("(12) x"), TextType::Numeric);
}

#[test]
fn alphabetic_markers() {
    assert_eq!(question_type("(a) x"), TextType::Alphabetic);
    assert_eq!(question_type("a) x"), TextType::Alphabetic);
    assert_eq!(question_type("iv) x"), TextType::Alphabetic);
}

#[test]
fn undefined_lines() {
    assert_eq!(question_type("hello"), TextType::Undefined);
    assert_eq!(question_type("descuenta 1/2."), TextType::Undefined);
    assert_eq!(question_type(""), TextType::Undefined);
    assert_eq!(question_type("     "), TextType::Undefined);
}

#[test]
fn symbol_first_markers_are_undefined() {
    // the marker shape matches, but its first character is neither numeric
    // nor alphabetic
    assert_eq!(question_type("(¢) x"), TextType::Undefined);
    assert_eq!(question_type("“1” x"), TextType::Undefined);
    assert_eq!(question_type("€5. price"), TextType::Undefined);
}

#[test]
fn marker_body_cap_is_four() {
    assert_eq!(question_type("abcd) x"), TextType::Alphabetic);
    assert_eq!(question_type("abcde) x"), TextType::Undefined);
}
