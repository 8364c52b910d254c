use dinghy_apple::ansi::{parse, Rgb, Segment, State};

fn shown(segments: &[Segment]) -> Vec<(String, Rgb)> {
    segments.iter().map(|segment| (segment.text.clone(), segment.rgb)).collect()
}

fn parts(state: &mut State, input: &str) -> Vec<(String, Rgb)> {
    shown(&parse(state, input))
}

const GREEN: Rgb = (0, 100, 0);

#[test]
fn plain_text_is_green() {
    let mut state = State::new();
    assert_eq!(state.rgb(), GREEN);
    assert_eq!(parts(&mut state, "hello"), vec![("hello".to_string(), GREEN)]);
}

#[test]
fn empty_text_has_no_segments() {
    let mut state = State::new();
    assert!(parse(&mut state, "").is_empty());
    assert!(parse(&mut state, "\u{1b}[31m").is_empty());
    assert_eq!(state.rgb(), (80, 0, 0));
}

#[test]
fn colours_cut_the_text() {
    let mut state = State::new();
    assert_eq!(
        parts(&mut state, "a\u{1b}[31mb\u{1b}[0mc"),
        vec![
            ("a".to_string(), GREEN),
            ("b".to_string(), (80, 0, 0)),
            ("c".to_string(), GREEN),
        ]
    );
}

#[test]
fn style_is_kept_from_one_text_to_the_next() {
    let mut split = State::new();
    let mut whole = State::new();
    let mut pieces = parts(&mut split, "\u{1b}[1;34mblue");
    pieces.extend(parts(&mut split, " sky"));
    let together = parts(&mut whole, "\u{1b}[1;34mblue sky");
    assert_eq!(pieces, vec![("blue".to_string(), (33, 33, 100)), (" sky".to_string(), (33, 33, 100))]);
    assert_eq!(together, vec![("blue sky".to_string(), (33, 33, 100))]);
    assert_eq!(split.rgb(), whole.rgb());
}

#[test]
fn every_colour_has_its_value() {
    let expected: [(u8, Rgb, Rgb); 16] = [
        (30, (25, 25, 25), (50, 50, 50)),
        (31, (80, 0, 0), (100, 33, 33)),
        (32, (0, 80, 0), (33, 100, 33)),
        (33, (80, 80, 0), (100, 100, 33)),
        (34, (40, 40, 100), (33, 33, 100)),
        (35, (80, 0, 80), (100, 33, 100)),
        (36, (0, 80, 80), (33, 100, 100)),
        (37, (75, 75, 75), (100, 100, 100)),
        (90, (50, 50, 50), (50, 50, 50)),
        (91, (100, 33, 33), (100, 33, 33)),
        (92, (33, 100, 33), (33, 100, 33)),
        (93, (100, 100, 33), (100, 100, 33)),
        (94, (33, 33, 100), (33, 33, 100)),
        (95, (100, 33, 100), (100, 33, 100)),
        (96, (33, 100, 100), (33, 100, 100)),
        (97, (100, 100, 100), (100, 100, 100)),
    ];
    for (code, normal, bold) in expected {
        let mut state = State::new();
        parse(&mut state, &format!("\u{1b}[{code}m"));
        assert_eq!(state.rgb(), normal, "{code}");
        parse(&mut state, "\u{1b}[1m");
        assert_eq!(state.rgb(), bold, "{code} bold");
        parse(&mut state, "\u{1b}[22m");
        assert_eq!(state.rgb(), normal, "{code} again");
        parse(&mut state, "\u{1b}[39m");
        assert_eq!(state.rgb(), GREEN);
    }
}

#[test]
fn bold_without_colour_is_bright_green() {
    let mut state = State::new();
    assert_eq!(parts(&mut state, "\u{1b}[1mx"), vec![("x".to_string(), (33, 100, 33))]);
    parse(&mut state, "\u{1b}[m");
    assert_eq!(state.rgb(), GREEN);
}

#[test]
fn unknown_parameters_have_no_effect() {
    let mut state = State::new();
    parse(&mut state, "\u{1b}[31m");
    for escape in ["\u{1b}[4m", "\u{1b}[256m", "\u{1b}[;m\u{1b}[31m", "\u{1b}[x", "\u{1b}[2K", "\u{1b}[38;5m"] {
        parse(&mut state, escape);
        assert_eq!(state.rgb(), (80, 0, 0), "{escape:?}");
    }
    parse(&mut state, "\u{1b}[+0m");
    assert_eq!(state.rgb(), GREEN);
}

#[test]
fn other_escapes_cut_the_text_too() {
    let mut state = State::new();
    assert_eq!(
        parts(&mut state, "a\u{1b}[2Kb"),
        vec![("a".to_string(), GREEN), ("b".to_string(), GREEN)]
    );
}

#[test]
fn lone_escape_is_text() {
    let mut state = State::new();
    assert_eq!(parts(&mut state, "a\u{1b}b"), vec![("a\u{1b}b".to_string(), GREEN)]);
    assert_eq!(parts(&mut state, "\u{1b}"), vec![("\u{1b}".to_string(), GREEN)]);
}

#[test]
fn open_escape_swallows_the_rest() {
    let mut state = State::new();
    assert_eq!(parts(&mut state, "a\u{1b}[31"), vec![("a".to_string(), GREEN)]);
    assert_eq!(state.rgb(), GREEN);
}

#[test]
fn other_scripts_are_text() {
    let mut state = State::new();
    assert_eq!(
        parts(&mut state, "\u{e9}\u{1b}[92m\u{1f680}\u{4e2d}"),
        vec![("\u{e9}".to_string(), GREEN), ("\u{1f680}\u{4e2d}".to_string(), (33, 100, 33))]
    );
}

#[test]
fn segments_hold_what_is_visible() {
    let mut state = State::new();
    let input = "one\u{1b}[31m two\u{1b}[0m\u{1b}[1m three";
    let text: String = parse(&mut state, input).into_iter().map(|segment| segment.text).collect();
    assert_eq!(text, "one two three");
}
