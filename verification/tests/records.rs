use bracket_scan::lexer::bracket::{bracket_lexer, BracketKind, BracketToken};
use bracket_scan::parser::bracket::{paren_parse, BracketPair};
use bracket_scan::ser::bracket::{BracketPairSer, CharPos};
use bracket_scan::ser::diagnostic::{resolve_span, Severity, SourceDiagnosticSer, Span, TraceSer};
use bracket_scan::ser::font::{FontInfoSer, FontStyle, FontVariantSer};
use bracket_scan::ser::package::{format_version, push_decimal, PackageSpecSer};
use bracket_scan::ser::processor::{processor_file_name, ProcessorDes};
use bracket_scan::utils::char_position::CharPosition;

fn pair(kind: BracketKind) -> BracketPair {
    let open = BracketToken { kind, position: CharPosition { line: 1, ch: 2, offset: 7 } };
    let close = BracketToken {
        kind: BracketKind::ParenClose,
        position: CharPosition { line: 3, ch: 4, offset: 19 },
    };
    BracketPair { kind, depth: 5, open, close }
}

#[test]
fn record_of_a_pair() {
    let record = BracketPairSer::from(&pair(BracketKind::ParenOpen));
    assert_eq!(
        record,
        BracketPairSer {
            kind: "paren".to_string(),
            depth: 5,
            open_offset: 7,
            open_pos: CharPos { line: 1, ch: 2 },
            close_offset: 19,
            close_pos: CharPos { line: 3, ch: 4 },
        }
    );
    assert_eq!(BracketPairSer::from_pair(&pair(BracketKind::ParenOpen)), record);
}

#[test]
fn families_are_recorded_by_name() {
    assert_eq!(BracketPairSer::from(&pair(BracketKind::ParenOpen)).kind, "paren");
    assert_eq!(BracketPairSer::from(&pair(BracketKind::BracketOpen)).kind, "bracket");
    assert_eq!(BracketPairSer::from(&pair(BracketKind::BraceOpen)).kind, "brace");
}

#[test]
fn kind_of_a_closer_is_recorded_as_unknown() {
    assert_eq!(BracketPairSer::from(&pair(BracketKind::ParenClose)).kind, "unknown");
    assert_eq!(BracketPairSer::from(&pair(BracketKind::BracketClose)).kind, "unknown");
    assert_eq!(BracketPairSer::from(&pair(BracketKind::BraceClose)).kind, "unknown");
}

#[test]
fn records_of_the_pairs_of_a_text() {
    let pairs = paren_parse(&bracket_lexer("{\n  [🎉]\n}"));
    let records: Vec<BracketPairSer> = pairs.iter().map(BracketPairSer::from).collect();
    assert_eq!(
        records,
        vec![
            BracketPairSer {
                kind: "bracket".to_string(),
                depth: 1,
                open_offset: 4,
                open_pos: CharPos { line: 1, ch: 2 },
                close_offset: 7,
                close_pos: CharPos { line: 1, ch: 5 },
            },
            BracketPairSer {
                kind: "brace".to_string(),
                depth: 0,
                open_offset: 0,
                open_pos: CharPos { line: 0, ch: 0 },
                close_offset: 9,
                close_pos: CharPos { line: 2, ch: 0 },
            },
        ]
    );
}

#[test]
fn severity_is_recorded_as_a_number() {
    let error = SourceDiagnosticSer::from_diag(
        Severity::Error,
        Some(Span { start: 3, end: 9 }),
        "unknown variable".to_string(),
        vec![TraceSer::new(None, "call".to_string())],
        vec!["did you mean x?".to_string()],
    );
    assert_eq!(
        error,
        SourceDiagnosticSer {
            severity: 1,
            span: Span { start: 3, end: 9 },
            message: "unknown variable".to_string(),
            trace: vec![TraceSer { span: Span { start: 0, end: 0 }, point: "call".to_string() }],
            hints: vec!["did you mean x?".to_string()],
        }
    );
    let warning =
        SourceDiagnosticSer::from_diag(Severity::Warning, None, String::new(), vec![], vec![]);
    assert_eq!(warning.severity, 2);
    assert_eq!(warning.span, Span { start: 0, end: 0 });
}

#[test]
fn unresolved_span_is_the_empty_range_at_the_start() {
    assert_eq!(resolve_span(None), Span { start: 0, end: 0 });
    assert_eq!(resolve_span(Some(Span { start: 4, end: 6 })), Span { start: 4, end: 6 });
    let trace = TraceSer::new(Some(Span { start: 1, end: 2 }), "import".to_string());
    assert_eq!(trace, TraceSer { span: Span { start: 1, end: 2 }, point: "import".to_string() });
}

#[test]
fn font_styles_are_recorded_by_name() {
    assert_eq!(FontVariantSer::new(FontStyle::Normal, 400, 1).style, "Normal");
    assert_eq!(FontVariantSer::new(FontStyle::Italic, 400, 1).style, "Italic");
    assert_eq!(FontVariantSer::new(FontStyle::Oblique, 400, 1).style, "Oblique");
}

#[test]
fn record_of_a_font() {
    let info = FontInfoSer::new(
        "Libertinus Serif".to_string(),
        FontStyle::Italic,
        700,
        1,
        6,
        vec![32, 95, 33, 7],
    );
    assert_eq!(
        info,
        FontInfoSer {
            family: "Libertinus Serif".to_string(),
            variant: FontVariantSer { style: "Italic".to_string(), weight: 700, stretch: 1 },
            flags: 6,
            coverage: vec![32, 95, 33, 7],
        }
    );
}

#[test]
fn decimal_digits() {
    for n in [0u32, 7, 9, 10, 11, 99, 100, 1234567890, u32::MAX] {
        let mut out = String::from("v");
        push_decimal(&mut out, n);
        assert_eq!(out, format!("v{}", n));
    }
}

#[test]
fn version_as_text() {
    assert_eq!(format_version(0, 0, 0), "0.0.0");
    assert_eq!(format_version(0, 13, 1), "0.13.1");
    assert_eq!(format_version(10, 200, 3000), "10.200.3000");
    assert_eq!(format_version(u32::MAX, 0, u32::MAX), "4294967295.0.4294967295");
}

#[test]
fn record_of_a_package() {
    let spec = PackageSpecSer::new("preview".to_string(), "cetz".to_string(), 0, 3, 4);
    assert_eq!(
        spec,
        PackageSpecSer {
            namespace: "preview".to_string(),
            name: "cetz".to_string(),
            version: "0.3.4".to_string(),
        }
    );
}

#[test]
fn processor_file_names() {
    assert_eq!(processor_file_name("inline", "dark"), "inline--dark.typ");
    assert_eq!(processor_file_name("", ""), "--.typ");
    let processor = ProcessorDes {
        kind: "display".to_string(),
        id: "x1".to_string(),
        format: "#set page(width: auto)".to_string(),
    };
    assert_eq!(processor.file_name(), "display--x1.typ");
}
