//! Text, numbers, sizes and paths.
use storage_bench::identity::{
    current_run_text, generate_run_id, git_commit, parse_git_dir, parse_head, reference_commit,
    rustc_version, Head,
};
use storage_bench::numbers::{
    decimal_text, opt_u64_text, parse_u32, parse_u64, parse_usize, push_padded, u64_text,
};
use storage_bench::paths::{
    default_plots_dir, default_results_dir, default_run_subdir, is_uri_path, join_path,
    nonempty_word,
};
use storage_bench::text::{
    bytes_lt, contains_text, join, list_contains, opt_eq, parse_list, replace_char, split,
    starts_with_text, text_eq, text_lt, trim,
};
use storage_bench::units::{fmt_bytes, fmt_time_ms, fmt_time_ms_u64};

fn strings(items: &[&str]) -> Vec<String> {
    items.iter().map(|s| s.to_string()).collect()
}

#[test]
fn lists_are_cleaned() {
    assert_eq!(parse_list(" a, b ,,c\t"), strings(&["a", "b", "c"]));
    assert_eq!(parse_list(" , ,"), strings(&[]));
    assert_eq!(parse_list(""), strings(&[]));
    assert_eq!(parse_list("a b,c"), strings(&["a b", "c"]));
    assert_eq!(join(&strings(&["a", "b", "c"]), ","), "a,b,c");
    assert_eq!(join(&strings(&[]), ","), "");
}

#[test]
fn text_is_cut_and_compared() {
    assert_eq!(split("a.b..c", '.'), strings(&["a", "b", "", "c"]));
    assert_eq!(split("", '.'), strings(&[""]));
    assert_eq!(trim("\u{3000} x y \r\n"), "x y");
    assert_eq!(trim("   "), "");
    assert_eq!(replace_char("2.1.0", '.', '_'), "2_1_0");
    assert!(contains_text("data/set.index/x", ".index"));
    assert!(!contains_text("data/setindex", ".index"));
    assert!(contains_text("x", ""));
    assert!(starts_with_text("panic: x", "panic:"));
    assert!(!starts_with_text("a panic: x", "panic:"));
    assert!(text_eq("\u{e9}", "\u{e9}") && !text_eq("e", "\u{e9}"));
    assert!(text_lt("Z", "a") && text_lt("a", "aa") && text_lt("z", "\u{e9}"));
    assert!(!text_lt("a", "a"));
    assert!(bytes_lt(&[1, 2], &[1, 3]) && !bytes_lt(&[2], &[1, 9]));
    assert!(list_contains(&strings(&["x", "y"]), "y"));
    assert!(!list_contains(&strings(&["x", "y"]), "z"));
    assert!(opt_eq(&None, &None) && !opt_eq(&None, &Some(String::new())));
}

#[test]
fn numbers_are_read_and_written() {
    assert_eq!(decimal_text(0), "0");
    assert_eq!(decimal_text(u128::MAX), u128::MAX.to_string());
    assert_eq!(u64_text(u64::MAX), u64::MAX.to_string());
    assert_eq!(opt_u64_text(None), None);
    assert_eq!(opt_u64_text(Some(17)), Some("17".to_string()));
    let mut padded = String::from("x");
    push_padded(&mut padded, 42, 5);
    assert_eq!(padded, "x00042");
    assert_eq!(parse_u64("+17"), Some(17));
    assert_eq!(parse_u64("0017"), Some(17));
    assert_eq!(parse_u64("-1"), None);
    assert_eq!(parse_u64(""), None);
    assert_eq!(parse_u64("+"), None);
    assert_eq!(parse_u64("1 "), None);
    assert_eq!(parse_u64("18446744073709551615"), Some(u64::MAX));
    assert_eq!(parse_u64("18446744073709551616"), None);
    assert_eq!(parse_u32("4294967295"), Some(u32::MAX));
    assert_eq!(parse_u32("4294967296"), None);
    assert_eq!(parse_usize("12"), Some(12));
}

#[test]
fn decimal_round_trip() {
    for n in [0u64, 7, 10, 99, 100, 123_456_789, u64::MAX] {
        assert_eq!(parse_u64(&u64_text(n)), Some(n));
    }
}

#[test]
fn sizes_have_units() {
    assert_eq!(fmt_bytes(0), "0 B");
    assert_eq!(fmt_bytes(1023), "1023 B");
    assert_eq!(fmt_bytes(1024), "1.00 KiB");
    assert_eq!(fmt_bytes(1536), "1.50 KiB");
    assert_eq!(fmt_bytes(1_048_576), "1.00 MiB");
    assert_eq!(fmt_bytes(5 * 1024 * 1024 * 1024), "5.00 GiB");
    for n in [1029u64, 1_048_575, 1_073_741_823, 123_456_789_012, 1 << 50, u64::MAX, u64::MAX - 1] {
        let mut value = n as f64;
        let units = ["B", "KiB", "MiB", "GiB", "TiB"];
        let mut unit = 0;
        while value >= 1024.0 && unit + 1 < units.len() {
            value /= 1024.0;
            unit += 1;
        }
        assert_eq!(fmt_bytes(n), format!("{value:.2} {}", units[unit]));
    }
}

#[test]
fn times_have_units() {
    assert_eq!(fmt_time_ms(0), "0.000 ms");
    assert_eq!(fmt_time_ms(7), "0.007 ms");
    assert_eq!(fmt_time_ms(999), "0.999 ms");
    assert_eq!(fmt_time_ms(1000), "1 ms");
    assert_eq!(fmt_time_ms(1999), "1 ms");
    assert_eq!(fmt_time_ms_u64(12_345), "12 ms");
}

#[test]
fn paths_are_joined() {
    assert_eq!(join_path("a", "b"), "a/b");
    assert_eq!(join_path("a/", "b"), "a/b");
    assert_eq!(join_path("", "b"), "b");
    assert_eq!(join_path("a", "/b"), "/b");
    assert_eq!(join_path("a", ""), "a/");
    for (base, part) in [("a", "b"), ("a/", "b"), ("", "b"), ("a", "/b"), ("a", ""), ("/", "x/y")] {
        assert_eq!(
            join_path(base, part),
            std::path::Path::new(base).join(part).to_string_lossy()
        );
    }
    assert!(is_uri_path("s3://bucket/x") && !is_uri_path("s3:/bucket"));
    assert_eq!(nonempty_word(&Some(" x \n".to_string())), Some("x".to_string()));
    assert_eq!(nonempty_word(&Some(" \n".to_string())), None);
    assert_eq!(nonempty_word(&None), None);
}

#[test]
fn current_run_round_trip() {
    let text = Some(current_run_text("20260101T000000Z"));
    assert_eq!(default_results_dir(&text), "results/runs/20260101T000000Z/json");
    assert_eq!(default_plots_dir(&text), "results/runs/20260101T000000Z/plots");
    assert_eq!(default_results_dir(&None), "results/json");
    assert_eq!(default_plots_dir(&Some("  \n".to_string())), "results/plots");
    assert_eq!(default_run_subdir(&Some("r".to_string()), "x", "y"), "results/runs/r/x");
}

#[test]
fn builds_and_runs_have_names() {
    let some = |s: &str| Some(s.to_string());
    assert_eq!(rustc_version(&some(" rustc 1.2 "), &some("other")), "rustc 1.2");
    assert_eq!(rustc_version(&some("  "), &some("rustc 1.3\n")), "rustc 1.3");
    assert_eq!(rustc_version(&None, &some("")), "unknown");
    assert_eq!(git_commit(&None, &some("abc\n")), "abc");
    assert_eq!(git_commit(&None, &None), "no-commits");
    assert_eq!(generate_run_id(&some("20260101T000000Z\n"), Some(5)), "20260101T000000Z");
    assert_eq!(generate_run_id(&None, Some(1234)), "unix1234");
    assert_eq!(generate_run_id(&some(" "), None), "unix0");
}

#[test]
fn heads_are_parsed() {
    assert_eq!(
        parse_head("ref: refs/heads/main\n"),
        Some(Head::Reference("refs/heads/main".to_string()))
    );
    assert_eq!(parse_head(" abc123 \n"), Some(Head::Commit("abc123".to_string())));
    assert_eq!(parse_head("ref:x"), Some(Head::Commit("ref:x".to_string())));
    assert_eq!(parse_head(" \n"), None);
    assert_eq!(parse_git_dir("/w", "gitdir: ../g\n"), Some("/w/../g".to_string()));
    assert_eq!(parse_git_dir("/w", "gitdir: /g\n"), Some("/g".to_string()));
    assert_eq!(parse_git_dir("/w", "other"), None);
}

#[test]
fn references_are_found() {
    let packed = "# pack-refs with: peeled\n111 refs/heads/a\n^999\n\n222\trefs/heads/b\r\n";
    let packed = Some(packed.to_string());
    let own = Some(" 333\n".to_string());
    assert_eq!(reference_commit("refs/heads/a", &own, &packed), Some("333".to_string()));
    assert_eq!(reference_commit("refs/heads/a", &None, &packed), Some("111".to_string()));
    assert_eq!(reference_commit("refs/heads/b", &None, &packed), Some("222".to_string()));
    assert_eq!(reference_commit("refs/heads/c", &None, &packed), None);
    assert_eq!(reference_commit("refs/heads/a", &None, &None), None);
    let broken = Some("111\n222 refs/heads/b\n".to_string());
    assert_eq!(reference_commit("refs/heads/b", &None, &broken), None);
    let longer = Some("222 refs/heads/b more\n".to_string());
    assert_eq!(reference_commit("refs/heads/b", &None, &longer), Some("222".to_string()));
}
