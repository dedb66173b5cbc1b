use bracket_scan::clock::{date_at, narrow_date, offset_seconds, Date};
use bracket_scan::fetch::{must_fetch, FetchFailure};
use bracket_scan::session::{finish_svg, Session, UpdatePlan};
use bracket_scan::source::{format_package_path, parse_source_path, SourcePath};
use bracket_scan::utils::text::same_text;

fn package(
    namespace: &str,
    name: &str,
    version: (u32, u32, u32),
    vpath: &str,
) -> SourcePath {
    SourcePath::Package {
        namespace: namespace.to_string(),
        name: name.to_string(),
        major: version.0,
        minor: version.1,
        patch: version.2,
        vpath: vpath.to_string(),
    }
}

#[test]
fn failures_by_their_numbers() {
    assert_eq!(FetchFailure::from_code(0), FetchFailure::Constraints);
    assert_eq!(FetchFailure::from_code(10), FetchFailure::AccessDenied);
    assert_eq!(FetchFailure::from_code(11), FetchFailure::IsDirectory);
    assert_eq!(FetchFailure::from_code(12), FetchFailure::NotFound);
    assert_eq!(FetchFailure::from_code(20), FetchFailure::MalformedArchive);
    assert_eq!(FetchFailure::from_code(21), FetchFailure::NetworkFailed);
    assert_eq!(FetchFailure::from_code(22), FetchFailure::PackageNotFound);
}

#[test]
fn other_numbers_are_unexpected_failures() {
    for code in [-1, 1, 9, 13, 19, 23, 100, i64::MIN, i64::MAX] {
        assert_eq!(FetchFailure::from_code(code), FetchFailure::Unexpected);
    }
}

#[test]
fn messages_of_failures() {
    assert_eq!(FetchFailure::Constraints.message().as_deref(), Some("implementation constraints"));
    assert_eq!(FetchFailure::MalformedArchive.message().as_deref(), Some("invalid package format"));
    assert_eq!(FetchFailure::NetworkFailed.message().as_deref(), Some("network connection error"));
    assert_eq!(FetchFailure::Unexpected.message().as_deref(), Some("unexpected error"));
    assert_eq!(FetchFailure::AccessDenied.message(), None);
    assert_eq!(FetchFailure::IsDirectory.message(), None);
    assert_eq!(FetchFailure::NotFound.message(), None);
    assert_eq!(FetchFailure::PackageNotFound.message(), None);
}

#[test]
fn seconds_of_an_offset() {
    assert_eq!(offset_seconds(0), Some(0));
    assert_eq!(offset_seconds(9), Some(32400));
    assert_eq!(offset_seconds(-5), Some(-18000));
    assert_eq!(offset_seconds(596523), Some(2147482800));
    assert_eq!(offset_seconds(-596523), Some(-2147482800));
}

#[test]
fn offsets_that_do_not_fit() {
    assert_eq!(offset_seconds(596524), None);
    assert_eq!(offset_seconds(-596524), None);
    assert_eq!(offset_seconds(i64::MAX), None);
    assert_eq!(offset_seconds(i64::MIN), None);
    assert_eq!(offset_seconds(2147483648), None);
}

#[test]
fn same_text_compares_characters() {
    assert!(same_text("", ""));
    assert!(same_text("日本語", "日本語"));
    assert!(!same_text("abc", "abd"));
    assert!(!same_text("abc", "ab"));
    assert!(!same_text("ab", "abc"));
    assert!(!same_text("", "a"));
}

#[test]
fn first_request_switches_to_the_processor() {
    let mut session = Session::new();
    assert_eq!(session.last_kind, "");
    assert_eq!(session.last_id, "");
    let plan = session.request("inline", "a");
    assert_eq!(plan, UpdatePlan::Switch { file: "inline--a.typ".to_string() });
    assert_eq!(session.last_kind, "inline");
    assert_eq!(session.last_id, "a");
}

#[test]
fn same_processor_again_replaces_the_text() {
    let mut session = Session::new();
    session.request("inline", "a");
    assert_eq!(session.request("inline", "a"), UpdatePlan::Replace);
    assert_eq!(session.request("inline", "a"), UpdatePlan::Replace);
    assert_eq!(session.last_kind, "inline");
    assert_eq!(session.last_id, "a");
}

#[test]
fn another_kind_or_another_id_switches() {
    let mut session = Session::new();
    session.request("inline", "a");
    assert_eq!(
        session.request("inline", "b"),
        UpdatePlan::Switch { file: "inline--b.typ".to_string() }
    );
    assert_eq!(
        session.request("display", "b"),
        UpdatePlan::Switch { file: "display--b.typ".to_string() }
    );
    assert_eq!(session.request("display", "b"), UpdatePlan::Replace);
}

#[test]
fn empty_request_on_a_new_session_replaces() {
    let mut session = Session::new();
    assert_eq!(session.request("", ""), UpdatePlan::Replace);
}

#[test]
fn finished_svg_lets_the_drawing_overflow() {
    let svg = "<svg class=\"typst-frame\" width=\"10pt\"><g class=\"x\"/></svg>";
    assert_eq!(
        finish_svg(Some(svg)),
        Ok("<svg style=\"overflow: visible;\" class=\"typst-frame\" width=\"10pt\"><g class=\"x\"/></svg>"
            .to_string())
    );
}

#[test]
fn every_root_element_is_styled() {
    assert_eq!(
        finish_svg(Some("<svg class><svg class>")),
        Ok("<svg style=\"overflow: visible;\" class><svg style=\"overflow: visible;\" class>"
            .to_string())
    );
}

#[test]
fn svg_without_the_root_pattern_stays() {
    assert_eq!(finish_svg(Some("<svg id=\"a\">")), Ok("<svg id=\"a\">".to_string()));
    assert_eq!(finish_svg(Some("")), Ok(String::new()));
}

#[test]
fn document_without_pages_is_an_error() {
    assert_eq!(finish_svg(None), Err("document has no pages".to_string()));
}

#[test]
fn plain_paths() {
    assert_eq!(parse_source_path("main.typ"), SourcePath::Plain);
    assert_eq!(parse_source_path("dir/a@b/1.0.0/x"), SourcePath::Plain);
    assert_eq!(parse_source_path(""), SourcePath::Plain);
}

#[test]
fn package_paths() {
    assert_eq!(
        parse_source_path("@preview/cetz/0.3.4/src/lib.typ"),
        package("preview", "cetz", (0, 3, 4), "src/lib.typ")
    );
    assert_eq!(
        parse_source_path("@local/パッケージ/10.0.200/日本語.typ"),
        package("local", "パッケージ", (10, 0, 200), "日本語.typ")
    );
    assert_eq!(parse_source_path("@a/b/1.2.3/"), package("a", "b", (1, 2, 3), ""));
    assert_eq!(parse_source_path("@//1.2.3/x"), package("", "", (1, 2, 3), "x"));
}

#[test]
fn numbers_of_a_version() {
    assert_eq!(parse_source_path("@a/b/+1.02.003/x"), package("a", "b", (1, 2, 3), "x"));
    assert_eq!(
        parse_source_path("@a/b/4294967295.0.0/x"),
        package("a", "b", (4294967295, 0, 0), "x")
    );
    // parts after the third are not read
    assert_eq!(parse_source_path("@a/b/1.2.3.4/x"), package("a", "b", (1, 2, 3), "x"));
    assert_eq!(parse_source_path("@a/b/1.2.3.beta/x"), package("a", "b", (1, 2, 3), "x"));
}

#[test]
fn malformed_package_paths() {
    for path in [
        "@",
        "@preview",
        "@preview/cetz",
        "@preview/cetz/0.3.4",
        "@preview/cetz/0.3/x",
        "@preview/cetz/0.3./x",
        "@preview/cetz/0..4/x",
        "@preview/cetz/.3.4/x",
        "@preview/cetz/a.3.4/x",
        "@preview/cetz/0.3.4b/x",
        "@preview/cetz/-1.3.4/x",
        "@preview/cetz/+.3.4/x",
        "@preview/cetz/++1.3.4/x",
        "@preview/cetz/1 .3.4/x",
        "@preview/cetz/4294967296.0.0/x",
        "@preview/cetz/0.99999999999.0/x",
        "@preview/cetz//x",
    ] {
        assert_eq!(parse_source_path(path), SourcePath::Malformed, "{}", path);
    }
}

#[test]
fn path_of_a_package_file() {
    assert_eq!(
        format_package_path("preview", "cetz", 0, 3, 4, "src/lib.typ"),
        "@preview/cetz/0.3.4/src/lib.typ"
    );
    assert_eq!(format_package_path("a", "b", 1, 2, 3, ""), "@a/b/1.2.3/");
}

#[test]
fn path_of_a_package_file_is_read_back() {
    let cases = [
        ("preview", "cetz", (0u32, 3u32, 4u32), "src/lib.typ"),
        ("local", "x-y", (u32::MAX, 0, 10), "a/b/c.typ"),
        ("", "", (1, 1, 1), ""),
    ];
    for (namespace, name, version, vpath) in cases {
        let path = format_package_path(namespace, name, version.0, version.1, version.2, vpath);
        assert_eq!(parse_source_path(&path), package(namespace, name, version, vpath));
    }
}

#[test]
fn file_is_asked_for_until_the_host_gives_it() {
    assert!(must_fetch(None));
    assert!(must_fetch(Some(false)));
    assert!(!must_fetch(Some(true)));
}

#[test]
fn date_at_the_start_of_1970() {
    assert_eq!(date_at(0, 0), Some(Date { year: 1970, month: 1, day: 1 }));
    assert_eq!(date_at(0, 9), Some(Date { year: 1970, month: 1, day: 1 }));
    assert_eq!(date_at(0, -1), Some(Date { year: 1969, month: 12, day: 31 }));
    assert_eq!(date_at(-1, 0), Some(Date { year: 1969, month: 12, day: 31 }));
}

#[test]
fn date_moves_with_the_offset() {
    // 2023-11-14 22:13:20 in universal time
    let moment = 1_700_000_000;
    assert_eq!(date_at(moment, 0), Some(Date { year: 2023, month: 11, day: 14 }));
    assert_eq!(date_at(moment, 1), Some(Date { year: 2023, month: 11, day: 14 }));
    assert_eq!(date_at(moment, 2), Some(Date { year: 2023, month: 11, day: 15 }));
    assert_eq!(date_at(moment, 9), Some(Date { year: 2023, month: 11, day: 15 }));
    assert_eq!(date_at(moment, -23), Some(Date { year: 2023, month: 11, day: 13 }));
}

#[test]
fn date_on_a_leap_day() {
    // 2024-02-29 12:00:00 in universal time
    assert_eq!(date_at(1_709_208_000, 0), Some(Date { year: 2024, month: 2, day: 29 }));
    assert_eq!(date_at(1_709_208_000, 12), Some(Date { year: 2024, month: 3, day: 1 }));
}

#[test]
fn offset_of_a_whole_day_gives_no_date() {
    assert_eq!(date_at(0, 23), Some(Date { year: 1970, month: 1, day: 1 }));
    assert_eq!(date_at(0, -23), Some(Date { year: 1969, month: 12, day: 31 }));
    assert_eq!(date_at(0, 24), None);
    assert_eq!(date_at(0, -24), None);
    assert_eq!(date_at(0, 596523), None);
    assert_eq!(date_at(0, 596524), None);
    assert_eq!(date_at(0, i64::MIN), None);
}

#[test]
fn moment_out_of_range_gives_no_date() {
    assert_eq!(date_at(i64::MAX, 0), None);
    assert_eq!(date_at(i64::MIN, 0), None);
}

#[test]
fn narrowing_a_date() {
    assert_eq!(narrow_date(2024, 2, 29), Some(Date { year: 2024, month: 2, day: 29 }));
    assert_eq!(narrow_date(-5, 255, 255), Some(Date { year: -5, month: 255, day: 255 }));
    assert_eq!(narrow_date(2024, 256, 1), None);
    assert_eq!(narrow_date(2024, 1, 256), None);
    assert_eq!(narrow_date(2024, u32::MAX, u32::MAX), None);
}
