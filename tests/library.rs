use tango::calendar::{is_leap_year, secs_per_year};
use tango::check::{ErrorKind, MtimeResult, Transform, TransformNeed};
use tango::context::Context;
use tango::paths::{check_path, keep_file_name, MdPath, RsPath};
use tango::permalink::encode_to_url;
use tango::text::lines_of;
use tango::timestamp::Timestamp;
use tango::{get_lit_dir, get_src_dir, md2rs, rs2md, Config, Error, Warning};

fn literate(rs: &str) -> String {
    let mut out = String::new();
    rs2md(rs, &mut out);
    out
}

fn source(md: &str) -> (String, Result<(), Error>) {
    let mut out = String::new();
    let r = md2rs(md, &mut out);
    (out, r)
}

fn pair(source_time: Timestamp, target: MtimeResult) -> Transform<String, String> {
    Transform::new("src/foo.rs".to_string(), "src/foo.md".to_string(), source_time, target)
}

#[test]
fn timestamp_from_milliseconds() {
    let t = Timestamp(1500);
    assert_eq!(t.secs, 1);
    assert_eq!(t.nsecs, 500_000_000);
    assert_eq!(t.to_ms(), 1500);
    assert_eq!(Timestamp::new(2, 999_999_999).to_ms(), 2999);
}

#[test]
fn timestamp_comparisons() {
    let a = Timestamp::new(2000, 0);
    let b = Timestamp::new(2000, 400_000);
    let c = Timestamp::new(2000, 1_000_000);
    assert!(a.is_before(&b));
    assert!(!b.is_before(&a));
    assert!(a.same_ms(&b));
    assert!(!a.same_ms(&c));
    assert!(a.ms_before(&c));
    assert!(!a.ms_before(&b));
    assert!(Timestamp::new(1999, 999_999_999).ms_before(&a));
}

#[test]
fn dates_of_timestamps() {
    assert_eq!(Timestamp::new(0, 0).date_fulltime_badly(), "1970-01-01 00:00:00.0 (GMT)");
    assert_eq!(Timestamp::new(86400, 0).date_fulltime_badly(), "1970-01-02 00:00:00.0 (GMT)");
    assert_eq!(
        Timestamp::new(1234567890, 0).date_fulltime_badly(),
        "2009-02-13 23:31:30.0 (GMT)"
    );
    assert_eq!(
        Timestamp::new(1700000000, 123456789).date_fulltime_badly(),
        "2023-11-14 22:13:20.123456789 (GMT)"
    );
}

#[test]
fn dates_at_exact_boundaries_stay_in_the_earlier_period() {
    assert_eq!(Timestamp::new(31536000, 0).date_fulltime_badly(), "1970-12-32 00:00:00.0 (GMT)");
    assert_eq!(Timestamp::new(951868800, 5).date_fulltime_badly(), "2000-02-30 00:00:00.5 (GMT)");
}

#[test]
fn leap_years() {
    assert!(is_leap_year(2000));
    assert!(!is_leap_year(1900));
    assert!(is_leap_year(2024));
    assert!(!is_leap_year(2023));
    assert_eq!(secs_per_year(2024), 366 * 86400);
    assert_eq!(secs_per_year(2023), 365 * 86400);
}

#[test]
fn missing_target_is_needed() {
    let t = pair(Timestamp::new(2000, 0), MtimeResult::NonExistant);
    assert!(matches!(t.check(None), Ok(TransformNeed::Needed)));
}

#[test]
fn sub_millisecond_difference_is_unneeded_without_stamp() {
    let t = pair(Timestamp::new(2000, 0), MtimeResult::Modified(Timestamp::new(2000, 400_000)));
    assert!(matches!(t.check(None), Ok(TransformNeed::Unneeded)));
    let t = pair(Timestamp::new(2000, 400_000), MtimeResult::Modified(Timestamp::new(2000, 0)));
    assert!(matches!(t.check(None), Ok(TransformNeed::Unneeded)));
}

#[test]
fn newer_target_is_unneeded() {
    let t = pair(Timestamp::new(1000, 0), MtimeResult::Modified(Timestamp::new(2000, 0)));
    assert!(matches!(t.check(Some(Timestamp::new(500, 0))), Ok(TransformNeed::Unneeded)));
}

#[test]
fn older_target_without_stamp_is_a_conflict() {
    let t = pair(Timestamp::new(2000, 0), MtimeResult::Modified(Timestamp::new(1000, 0)));
    match t.check(None) {
        Err(e) => match e.0 {
            ErrorKind::NoTangoStampExists { tgt, src } => {
                assert_eq!(tgt, "src/foo.md");
                assert_eq!(src, "src/foo.rs");
                assert_eq!(e.1.original, "src/foo.rs");
                assert_eq!(e.1.generate, "src/foo.md");
            }
            _ => panic!("wrong conflict"),
        },
        Ok(_) => panic!("expected a conflict"),
    }
}

#[test]
fn stamp_older_than_target_is_a_conflict() {
    let t = pair(Timestamp::new(3000, 0), MtimeResult::Modified(Timestamp::new(2000, 0)));
    match t.check(Some(Timestamp::new(1000, 0))) {
        Err(e) => assert!(matches!(e.0, ErrorKind::TangoStampOlderThanTarget { .. })),
        Ok(_) => panic!("expected a conflict"),
    }
}

#[test]
fn stamp_at_or_after_target_regenerates() {
    let t = pair(Timestamp::new(3000, 0), MtimeResult::Modified(Timestamp::new(2000, 0)));
    assert!(matches!(t.check(Some(Timestamp::new(2500, 0))), Ok(TransformNeed::Needed)));
    assert!(matches!(t.check(Some(Timestamp::new(2000, 0))), Ok(TransformNeed::Needed)));
    let t = pair(Timestamp::new(3000, 0), MtimeResult::Modified(Timestamp::new(2000, 400_000)));
    assert!(matches!(t.check(Some(Timestamp::new(2000, 100))), Ok(TransformNeed::Needed)));
}

#[test]
fn encoding_of_code() {
    assert_eq!(
        encode_to_url("\n// Here is some content\nfn main() { }\n"),
        "https://play.rust-lang.org/?code=//%20Here%20is%20some%20content%0Afn%20main()%20{%20}&version=nightly"
    );
    assert_eq!(
        encode_to_url("  a&b=c%  "),
        "https://play.rust-lang.org/?code=a%26b%3Dc%25&version=nightly"
    );
    assert_eq!(encode_to_url("\u{e9}"), "https://play.rust-lang.org/?code=%C3%A9&version=nightly");
    assert_eq!(encode_to_url(""), "https://play.rust-lang.org/?code=&version=nightly");
}

#[test]
fn encoding_is_deterministic() {
    let code = "let x = \"a b\";\n";
    assert_eq!(encode_to_url(code), encode_to_url(code));
    assert_eq!(encode_to_url(code), encode_to_url("\n\n  let x = \"a b\";"));
}

#[test]
fn splitting_lines() {
    assert_eq!(lines_of("a\r\nb\n\nc"), vec!["a", "b", "", "c"]);
    assert_eq!(lines_of(""), Vec::<String>::new());
    assert_eq!(lines_of("a\n"), vec!["a"]);
    assert_eq!(lines_of("\r"), vec!["\r"]);
    assert_eq!(lines_of("\n\n"), vec!["", ""]);
}

#[test]
fn paths_between_trees() {
    assert!(check_path("src/foo.rs", "rs", "src"));
    assert!(check_path("src/a/b.c.rs", "rs", "src"));
    assert!(!check_path("src/.rs", "rs", "src"));
    assert!(!check_path("lib/foo.rs", "rs", "src"));
    assert!(!check_path("src/foo.md", "rs", "src"));
    let rs = RsPath::new("src/a/foo.rs".to_string(), "src");
    let md = rs.to_md("src", "doc");
    assert_eq!(md.0, "doc/a/foo.md");
    let back = md.to_rs("doc", "src");
    assert_eq!(back.0, "src/a/foo.rs");
    let md = MdPath::new("src/x.md".to_string(), "src");
    assert_eq!(md.to_rs("src", "src").0, "src/x.rs");
}

#[test]
fn hidden_files_are_skipped() {
    assert!(!keep_file_name(".#lib.md"));
    assert!(keep_file_name("lib.md"));
    assert!(keep_file_name(""));
}

#[test]
fn configuration() {
    assert_eq!(get_src_dir(), "src");
    assert_eq!(get_lit_dir(), "src");
    let mut c = Config::new();
    assert_eq!(c.src_dir, "src");
    assert!(!c.rerun_if);
    c.set_src_dir("code".to_string()).set_lit_dir("doc".to_string()).emit_rerun_if();
    assert_eq!(c.src_dir, "code");
    assert_eq!(c.lit_dir, "doc");
    assert!(c.rerun_if);
}

#[test]
fn newest_time_is_kept() {
    let mut c = Context::new(None);
    c.update_newest_time(Timestamp::new(5, 0));
    c.update_newest_time(Timestamp::new(3, 0));
    assert_eq!(c.newest_stamp, Some(Timestamp::new(5, 0)));
    c.update_newest_time(Timestamp::new(5, 1));
    assert_eq!(c.newest_stamp, Some(Timestamp::new(5, 1)));
}

fn rs_transform(source_time: Timestamp, target: MtimeResult) -> Transform<RsPath, MdPath> {
    let rs = RsPath::new("src/foo.rs".to_string(), "src");
    let md = rs.to_md("src", "src");
    Transform::new(rs, md, source_time, target)
}

#[test]
fn gathering_schedules_needed_transforms() {
    let mut c = Context::new(Some(Timestamp::new(1500, 0)));
    assert!(c.gather_src(rs_transform(Timestamp::new(2000, 0), MtimeResult::NonExistant)).is_ok());
    assert!(c
        .gather_src(rs_transform(Timestamp::new(1000, 0), MtimeResult::Modified(Timestamp::new(3000, 0))))
        .is_ok());
    assert_eq!(c.src_inputs.len(), 1);
    assert_eq!(c.newest_stamp, Some(Timestamp::new(2000, 0)));
    let r = c.gather_src(rs_transform(
        Timestamp::new(3000, 0),
        MtimeResult::Modified(Timestamp::new(2000, 0)),
    ));
    match r {
        Err(Error::CheckInputError { error }) => {
            assert!(matches!(error.0, ErrorKind::TangoStampOlderThanTarget { .. }))
        }
        _ => panic!("expected a conflict"),
    }
    assert_eq!(c.src_inputs.len(), 1);
}

#[test]
fn concurrent_update_is_reported() {
    let mut c = Context::new(None);
    c.push_src(rs_transform(Timestamp::new(2000, 0), MtimeResult::NonExistant));
    let same = vec![MtimeResult::Modified(Timestamp::new(2000, 0))];
    assert!(c.check_input_timestamps(&same, &Vec::new()).is_ok());
    let gone = vec![MtimeResult::NonExistant];
    assert!(c.check_input_timestamps(&gone, &Vec::new()).is_ok());
    let later = vec![MtimeResult::Modified(Timestamp::new(2001, 0))];
    match c.check_input_timestamps(&later, &Vec::new()) {
        Err(Error::ConcurrentUpdate { path_buf, old_time, new_time }) => {
            assert_eq!(path_buf, "src/foo.rs");
            assert_eq!(old_time, Timestamp::new(2000, 0));
            assert_eq!(new_time, Timestamp::new(2001, 0));
        }
        _ => panic!("expected a concurrent update"),
    }
}

#[test]
fn code_only_file_becomes_one_block() {
    assert_eq!(
        literate("fn main() { println!(\"hi\"); }"),
        "```rust\nfn main() { println!(\"hi\"); }\n```\n"
    );
}

#[test]
fn prose_only_file_loses_its_prefix() {
    assert_eq!(literate("//@ This is a demo without code."), "This is a demo without code.\n");
}

#[test]
fn alternating_prose_and_code() {
    assert_eq!(literate("//@ one\nlet x = 1;\n//@ two\n"), "one\n```rust\nlet x = 1;\n```\ntwo\n");
}

#[test]
fn matching_link_names_its_block() {
    let md = "```rust\nlet a = 1;\n```\n[demo]: https://play.rust-lang.org/?code=let%20a%20%3D%201;&version=nightly\n";
    let (out, r) = source(md);
    assert!(r.is_ok());
    assert_eq!(out, "let a = 1;\n//@@@ demo\n");
}

#[test]
fn mismatching_link_warns_once() {
    let md = "```rust\nlet a = 1;\n```\n[demo]: https://play.rust-lang.org/?code=other&version=nightly\n";
    let (out, r) = source(md);
    assert_eq!(out, "let a = 1;\n//@@@ demo\n");
    match r {
        Err(Error::Warnings(ws)) => {
            assert_eq!(ws.len(), 1);
            match &ws[0] {
                Warning::EncodedUrlMismatch { actual, expect } => {
                    assert_eq!(actual, "https://play.rust-lang.org/?code=other&version=nightly");
                    assert_eq!(
                        expect,
                        "https://play.rust-lang.org/?code=let%20a%20%3D%201;&version=nightly"
                    );
                }
            }
        }
        _ => panic!("expected one warning"),
    }
}

#[test]
fn blank_runs_in_prose_and_code() {
    let (out, r) = source("a\n\n\nb\n");
    assert!(r.is_ok());
    assert_eq!(out, "//@ a\n//@\n//@\n//@ b\n");
    let (out, _) = source("```rust\nx\n\n\ny\n```\n");
    assert_eq!(out, "x\n\n\ny\n");
    assert_eq!(literate("//@ a\n//@\n//@\n//@ b\n"), "a\n\n\nb\n");
}

#[test]
fn fence_attributes_travel_both_ways() {
    let (out, _) = source("```rust { .css }\nx\n```\n");
    assert_eq!(out, "//@@ { .css }\nx\n");
    assert_eq!(literate(&out), "```rust { .css }\nx\n```\n");
}

#[test]
fn empty_link_name_is_ordinary_text() {
    let (out, r) = source("[]: https://play.rust-lang.org/?code=x\n");
    assert!(r.is_ok());
    assert_eq!(out, "//@ []: https://play.rust-lang.org/?code=x\n");
}

#[test]
fn literate_text_survives_a_round_trip() {
    for md in [
        "# Hello World\nThis is a Hello World demo.\n\n```rust\n// Code\nfn main() { }\n```\nAnd then the text resumes here.\n",
        "# Title\nsome text\n\nmore text\n",
        "\n\n```rust\nfn a() {}\n```\n\nText\n\n```rust\nfn b() {}\n```\n",
    ] {
        let (rs, r) = source(md);
        assert!(r.is_ok());
        assert_eq!(literate(&rs), md);
    }
}

#[test]
fn source_text_survives_a_round_trip() {
    for rs in [
        "//@ # Hello World\n//@ This is a demo.\n\n// code\nfn main() { }\n//@ And then the text resumes here.\n",
        "//@ a\n//@\n//@ b\n",
    ] {
        let (back, r) = source(&literate(rs));
        assert!(r.is_ok());
        assert_eq!(back, rs);
    }
}

#[test]
fn first_pending_fence_attribute_wins() {
    assert_eq!(literate("//@@ {.a}\n//@@ {.b}\nx\n"), "```rust {.a}\nx\n```\n");
    assert_eq!(literate("//@@ {.a}\nx\n//@ p\n//@@ {.b}\ny\n"), "```rust {.a}\nx\n```\np\n```rust {.b}\ny\n```\n");
}

#[test]
fn named_block_link_follows_its_code() {
    assert_eq!(
        literate("let a = 1;\n//@@@ demo\n//@ after\n"),
        "```rust\nlet a = 1;\n```\n[demo]: https://play.rust-lang.org/?code=let%20a%20%3D%201;&version=nightly\nafter\n"
    );
}

#[test]
fn named_blocks_survive_a_round_trip() {
    let url = encode_to_url("\nfn main() { }\n\nlet x = 1;");
    let md = format!(
        "# Title\n\n```rust\nfn main() {{ }}\n\nlet x = 1;\n```\n[demo]: {}\n```rust\nmore();\n```\nend\n",
        url
    );
    let (rs, r) = source(&md);
    assert!(r.is_ok());
    assert_eq!(rs, "//@ # Title\n\nfn main() { }\n\nlet x = 1;\n//@@@ demo\nmore();\n//@ end\n");
    assert_eq!(literate(&rs), md);
}
