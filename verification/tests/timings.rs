use starship_daemon::timings::{
    assemble_report, escape_newlines_str, fmt_dur, module_table_rows, module_timing,
    render_path_rows, sort_slowest_first, truncate_utf8, ModuleTiming,
};

fn mt(name: &str, value: &str, nanos: u64) -> ModuleTiming {
    ModuleTiming { name: name.to_string(), value: value.to_string(), nanos }
}

#[test]
fn truncate_utf8_respects_char_boundary() {
    let s = "abc\u{4e2d}\u{6587}def";
    let out = truncate_utf8(s, 5);
    assert!(out.len() <= 5);
    let mut rebuilt = String::new();
    for ch in s.chars() {
        if rebuilt.len() + ch.len_utf8() > 5 {
            break;
        }
        rebuilt.push(ch);
    }
    assert_eq!(out, rebuilt);
    assert!(out.is_char_boundary(out.len()));
}

#[test]
fn truncate_utf8_short_input_untouched() {
    assert_eq!(truncate_utf8("hello", 100), "hello");
}

#[test]
fn truncate_utf8_edges() {
    assert_eq!(truncate_utf8("hello", 5), "hello");
    assert_eq!(truncate_utf8("hello", 0), "");
    assert_eq!(truncate_utf8("\u{1F600}x", 3), "");
    assert_eq!(truncate_utf8("\u{1F600}x", 4), "\u{1F600}");
    assert_eq!(truncate_utf8("\u{e9}\u{e9}", 3), "\u{e9}");
}

#[test]
fn fmt_dur_picks_the_unit() {
    assert_eq!(fmt_dur(0), "0us");
    assert_eq!(fmt_dur(999), "0us");
    assert_eq!(fmt_dur(1_500), "1us");
    assert_eq!(fmt_dur(999_999), "999us");
    assert_eq!(fmt_dur(1_000_000), "1ms");
    assert_eq!(fmt_dur(12_345_678), "12ms");
}

#[test]
fn render_path_rows_pads_labels() {
    let rows = render_path_rows(2_000_000, 500_000, 3_000);
    let expected = format!(
        " {:<42} {}\n {:<42} {}\n {:<42} {}\n",
        "cold (fresh context, repo open)",
        "2ms",
        "warm (context+repo cache reused)",
        "500us",
        "lru (daemon render-cache hit)",
        "3us"
    );
    assert_eq!(rows, expected);
}

#[test]
fn module_table_lists_rows_in_order() {
    let t = module_table_rows(vec![mt("git_status", "[!]", 3_000_000), mt("directory", "~", 10_000)]);
    assert_eq!(
        t,
        "\n Here are the timings of modules in your prompt (warm repo, >=1ms or output):\n git_status  -  3ms  -   \"[!]\"\n directory  -  10us  -   \"~\"\n"
    );
}

#[test]
fn module_timing_keeps_output_or_slow_modules() {
    assert!(module_timing("a".into(), None, 5_000_000).is_none());
    assert!(module_timing("a".into(), Some(String::new()), 999_999).is_none());
    let slow = module_timing("a".into(), Some(String::new()), 1_000_000).unwrap();
    assert_eq!(slow.value, "");
    let m = module_timing("line_break".into(), Some("\n".into()), 10).unwrap();
    assert_eq!(m.value, "\\n");
    assert_eq!(escape_newlines_str("a\nb\n"), "a\\nb\\n");
}

#[test]
fn sort_is_slowest_first_and_stable() {
    let sorted = sort_slowest_first(vec![
        mt("a", "", 1),
        mt("b", "", 5),
        mt("c", "", 1),
        mt("d", "", 9),
        mt("e", "", 5),
    ]);
    let names: Vec<&str> = sorted.iter().map(|m| m.name.as_str()).collect();
    assert_eq!(names, vec!["d", "b", "e", "a", "c"]);
    assert!(sort_slowest_first(Vec::new()).is_empty());
}

#[test]
fn report_has_heading_rows_and_table() {
    let r = assemble_report("C:\\w", true, 1_000_000, 2_000, 3_000, vec![mt("x", "y", 0)]);
    assert!(r.starts_with("\n Render path timing (cwd = C:\\w):\n cache: HIT\n"));
    assert!(r.contains(" x  -  0us  -   \"y\"\n"));
    let miss = assemble_report("C:\\w", false, 0, 0, 0, Vec::new());
    assert!(miss.contains("cache: MISS"));
    let long = "\u{4e2d}".repeat(30_000);
    let cut = assemble_report("C:\\w", false, 0, 0, 0, vec![mt("big", &long, 0)]);
    assert!(cut.len() <= 65531);
    assert!(cut.len() > 65531 - 4);
}
