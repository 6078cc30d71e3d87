use exam_segmenter::BuildError;
use exam_segmenter::Region;
use exam_segmenter::RegionKind;
use exam_segmenter::TextLine;
use exam_segmenter::build_regions;
use exam_segmenter::usize_to_decimal;

fn line(top_y: i32, height: i32, text: &str) -> TextLine {
    TextLine { top_y, height, text: String::from(text) }
}

fn region(
    kind: RegionKind,
    question_number: usize,
    answer_number: Option<usize>,
    top: i32,
    width: i32,
    height: i32,
) -> Region {
    Region { kind, question_number, answer_number, left: 1, top, width, height }
}

#[test]
fn end_to_end_scenario() {
    let lines = vec![
        line(0, 18, "1. What?"),
        line(20, 18, "(a) opt1"),
        line(40, 18, "(b) opt2"),
        line(60, 18, "2. Next?"),
    ];
    let regions = build_regions(&lines, 800).unwrap();
    let expected = vec![
        // first answer option right after the question text
        region(RegionKind::QuestionStart, 1, None, 0, 800, 20),
        // second answer option
        region(RegionKind::QuestionAnswer, 1, Some(1), 20, 800, 20),
        // line 4 matches the top-level label: question 1 is closed...
        region(RegionKind::FullQuestion, 1, None, 0, 800, 60),
        // ...and the same line also counts as another answer of question 2
        region(RegionKind::QuestionAnswer, 2, Some(2), 40, 800, 20),
        // closing regions for the final line
        region(RegionKind::FullQuestion, 2, None, 60, 800, 0),
        region(RegionKind::QuestionAnswer, 2, Some(3), 60, 800, 18),
    ];
    assert_eq!(regions, expected);
}

#[test]
fn single_line_completes() {
    let lines = vec![line(0, 18, "1. Only one?")];
    let regions = build_regions(&lines, 640).unwrap();
    let expected = vec![
        region(RegionKind::FullQuestion, 1, None, 0, 640, 0),
        region(RegionKind::QuestionAnswer, 1, Some(1), 0, 640, 18),
    ];
    assert_eq!(regions, expected);
}

#[test]
fn rerun_yields_identical_regions() {
    let lines = vec![
        line(0, 18, "1. What?"),
        line(20, 18, "(a) opt1"),
        line(40, 18, "(b) opt2"),
        line(60, 18, "2. Next?"),
    ];
    let first = build_regions(&lines, 800).unwrap();
    let second = build_regions(&lines, 800).unwrap();
    assert_eq!(first, second);
}

#[test]
fn empty_input_is_malformed() {
    let lines: Vec<TextLine> = Vec::new();
    assert_eq!(build_regions(&lines, 800), Err(BuildError::MalformedInput));
}

#[test]
fn undefined_line_is_skipped_and_widens_next_region() {
    let lines = vec![
        line(0, 18, "1. One?"),
        line(10, 18, "stray noise"),
        line(30, 18, "(a) opt"),
        line(50, 18, "2. Two?"),
    ];
    let regions = build_regions(&lines, 200).unwrap();
    let expected = vec![
        // the skipped noise line widens this span: it starts at the question
        region(RegionKind::QuestionStart, 1, None, 0, 200, 30),
        region(RegionKind::FullQuestion, 1, None, 0, 200, 50),
        region(RegionKind::QuestionAnswer, 2, Some(1), 30, 200, 20),
        region(RegionKind::FullQuestion, 2, None, 50, 200, 0),
        region(RegionKind::QuestionAnswer, 2, Some(2), 50, 200, 18),
    ];
    assert_eq!(regions, expected);
}

#[test]
fn leading_undefined_lines_prime_the_anchor() {
    // lines seen while the top-level label is unset re-prime the anchor;
    // the first labeled line primes it for good and emits nothing
    let lines = vec![
        line(0, 18, "page header"),
        line(20, 18, "1. One?"),
        line(40, 18, "(a) opt"),
    ];
    let regions = build_regions(&lines, 300).unwrap();
    let expected = vec![
        region(RegionKind::QuestionStart, 1, None, 20, 300, 20),
        region(RegionKind::FullQuestion, 1, None, 20, 300, 20),
        region(RegionKind::QuestionAnswer, 1, Some(1), 40, 300, 18),
    ];
    assert_eq!(regions, expected);
}

#[test]
fn file_names() {
    let fq = region(RegionKind::FullQuestion, 1, None, 0, 800, 60);
    assert_eq!(fq.file_name("page"), "page-full-question-1.png");
    let qs = region(RegionKind::QuestionStart, 2, None, 0, 800, 20);
    assert_eq!(qs.file_name("out/scan"), "out/scan-question2.png");
    let qa = region(RegionKind::QuestionAnswer, 3, Some(12), 0, 800, 20);
    assert_eq!(qa.file_name("p"), "p-question3-answer12.png");
}

#[test]
fn decimal_rendering() {
    assert_eq!(usize_to_decimal(0), "0");
    assert_eq!(usize_to_decimal(7), "7");
    assert_eq!(usize_to_decimal(10), "10");
    assert_eq!(usize_to_decimal(305), "305");
}

#[test]
fn reaches_below_page() {
    let r = region(RegionKind::FullQuestion, 1, None, 50, 800, 20);
    assert!(r.reaches_below(60));
    assert!(!r.reaches_below(70));
}
