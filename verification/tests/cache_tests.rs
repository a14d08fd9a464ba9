use std::time::{Duration, SystemTime, UNIX_EPOCH};

use mcpg_plugin::cache::{
    cache_entry, gc_report, parse_gc_args, removal_summary, resolve_default_cache_dir, tally_removals,
    threshold_nanos,
};
use mcpg_plugin::gc::{format_age, format_bytes, parse_duration_secs, plan_gc, split_group_tag, CacheEntry};

fn nanos(t: SystemTime) -> i128 {
    t.duration_since(UNIX_EPOCH).unwrap().as_nanos() as i128
}

fn secs(s: u64) -> i128 {
    Duration::from_secs(s).as_nanos() as i128
}

fn threshold(s: u64) -> Option<u128> {
    Some(Duration::from_secs(s).as_nanos())
}

fn entry(group: &str, tag: &str, mtime: i128, size: u64) -> CacheEntry {
    CacheEntry {
        path: format!("/cache/{group}_{tag}.zip"),
        group: group.to_owned(),
        tag: tag.to_owned(),
        mtime,
        size,
    }
}

fn args(v: &[&str]) -> Vec<String> {
    v.iter().map(|s| s.to_string()).collect()
}

#[test]
fn parse_duration_units() {
    assert_eq!(parse_duration_secs("30s"), Some(30));
    assert_eq!(parse_duration_secs("5m"), Some(300));
    assert_eq!(parse_duration_secs("2h"), Some(7200));
    assert_eq!(parse_duration_secs("7d"), Some(604_800));
    assert_eq!(parse_duration_secs("2w"), Some(1_209_600));
    assert_eq!(parse_duration_secs("3600"), Some(3600));
    assert_eq!(parse_duration_secs("3600sec"), Some(3600));
    assert_eq!(parse_duration_secs("1 hour"), Some(3600));
    assert_eq!(parse_duration_secs(""), None);
    assert_eq!(parse_duration_secs("abc"), None);
    assert_eq!(parse_duration_secs("30x"), None);
}

#[test]
fn parse_duration_edges() {
    assert_eq!(parse_duration_secs("  12 h  "), Some(43_200));
    assert_eq!(parse_duration_secs("0"), Some(0));
    assert_eq!(parse_duration_secs("3 weeks"), Some(1_814_400));
    assert_eq!(parse_duration_secs("+3s"), None);
    assert_eq!(parse_duration_secs("h"), None);
    // 2^64 - 1 seconds fits, one more does not; a product past u64 fails.
    assert_eq!(parse_duration_secs("18446744073709551615"), Some(u64::MAX));
    assert_eq!(parse_duration_secs("18446744073709551616"), None);
    assert_eq!(parse_duration_secs("18446744073709551615m"), None);
}

#[test]
fn split_group_tag_splits_on_last_underscore() {
    assert_eq!(
        split_group_tag("ghcr.io_mcpg-dev_plugins_audit_1.0.0"),
        ("ghcr.io_mcpg-dev_plugins_audit".to_owned(), "1.0.0".to_owned())
    );
    assert_eq!(split_group_tag("audit_1.0.0"), ("audit".to_owned(), "1.0.0".to_owned()));
    assert_eq!(split_group_tag("noversion"), ("noversion".to_owned(), String::new()));
}

#[test]
fn split_group_tag_needs_both_sides() {
    assert_eq!(split_group_tag("_tag"), ("_tag".to_owned(), String::new()));
    assert_eq!(split_group_tag("group_"), ("group_".to_owned(), String::new()));
    assert_eq!(split_group_tag("a_b_"), ("a_b_".to_owned(), String::new()));
}

#[test]
fn plan_gc_without_older_than_removes_nothing() {
    let now = nanos(SystemTime::now());
    let old = now - secs(10_000_000);
    let entries = vec![
        entry("audit", "1.0.0", now, 100),
        entry("audit", "1.0.1", now - secs(3600), 110),
        entry("audit", "1.0.2", old, 105),
        entry("audit", "1.0.3", old, 102),
        entry("audit", "1.0.4", old, 104),
    ];
    let plan = plan_gc(&entries, 3, None, now);
    assert_eq!(plan.removed.len(), 0, "no --older-than → keep forever");
    assert_eq!(plan.kept.len(), 5);
}

#[test]
fn plan_gc_keeps_newest_n_per_group() {
    let now = nanos(SystemTime::now());
    let older = now - secs(30 * 86_400);
    let entries = vec![
        entry("audit", "1.0.0", now, 100),
        entry("audit", "1.0.1", now - secs(3600), 110),
        entry("audit", "1.0.2", older, 105),
        entry("audit", "1.0.3", older - secs(1), 102),
        entry("audit", "1.0.4", older - secs(2), 104),
        entry("webhook", "1.0.0", now, 200),
    ];
    // Keep latest 2 per group, remove older-than-20d beyond that.
    let plan = plan_gc(&entries, 2, threshold(20 * 86_400), now);
    assert_eq!(plan.kept.len(), 3, "2 audit kept + 1 webhook kept");
    assert_eq!(plan.removed.len(), 3, "3 old audit beyond top-2 removed");

    // Confirm the two audit kept are the two newest.
    let audit_kept_tags: Vec<_> =
        plan.kept.iter().filter(|e| e.group == "audit").map(|e| e.tag.clone()).collect();
    assert!(audit_kept_tags.contains(&"1.0.0".to_owned()));
    assert!(audit_kept_tags.contains(&"1.0.1".to_owned()));
}

#[test]
fn plan_gc_respects_older_than_threshold() {
    let now = nanos(SystemTime::now());
    let recent = now - secs(5 * 86_400); // 5d old
    let ancient = now - secs(60 * 86_400); // 60d old
    let entries = vec![
        entry("p", "a", now, 1),
        entry("p", "b", now - secs(1), 1),
        entry("p", "c", recent, 1), // beyond keep_latest=2 but only 5d old
        entry("p", "d", ancient, 1), // beyond keep_latest=2 AND 60d old
    ];
    let plan = plan_gc(&entries, 2, threshold(30 * 86_400), now);
    let removed_tags: Vec<_> = plan.removed.iter().map(|e| e.tag.clone()).collect();
    assert_eq!(removed_tags, vec!["d".to_owned()]);
    assert_eq!(plan.kept.len(), 3);
}

#[test]
fn plan_gc_empty_input() {
    let plan = plan_gc(&[], 3, threshold(86_400), nanos(SystemTime::now()));
    assert_eq!(plan.kept.len(), 0);
    assert_eq!(plan.removed.len(), 0);
}

#[test]
fn plan_gc_zero_keep_latest_without_older_than_still_keeps() {
    // keep_latest=0 + older_than=None → still keep-forever (the
    // --older-than gate is the actual remover).
    let now = nanos(SystemTime::now());
    let entries = vec![entry("p", "a", now, 1)];
    let plan = plan_gc(&entries, 0, None, now);
    assert_eq!(plan.kept.len(), 1);
    assert_eq!(plan.removed.len(), 0);
}

#[test]
fn plan_gc_lists_groups_in_order_newest_first() {
    let now = 1_000 * secs(86_400);
    let entries = vec![
        entry("zeta", "1", now - secs(10), 1),
        entry("alpha", "old", now - secs(100), 1),
        entry("alpha", "new", now - secs(5), 1),
        entry("zeta", "2", now - secs(1), 1),
        entry("alpha", "mid", now - secs(50), 1),
    ];
    let plan = plan_gc(&entries, 1, threshold(20), now);
    let kept: Vec<_> = plan.kept.iter().map(|e| format!("{}:{}", e.group, e.tag)).collect();
    let removed: Vec<_> = plan.removed.iter().map(|e| format!("{}:{}", e.group, e.tag)).collect();
    assert_eq!(kept, vec!["alpha:new", "zeta:2", "zeta:1"]);
    assert_eq!(removed, vec!["alpha:mid", "alpha:old"]);
}

#[test]
fn plan_gc_age_exactly_at_threshold_is_removed_and_future_is_kept() {
    let now = 500 * secs(86_400);
    let entries = vec![
        entry("p", "newest", now, 1),
        entry("p", "exact", now - secs(3600), 1),
        entry("p", "future", now + secs(3600), 1),
    ];
    let plan = plan_gc(&entries, 1, threshold(3600), now);
    let removed: Vec<_> = plan.removed.iter().map(|e| e.tag.clone()).collect();
    // "future" is the newest of the group (kept by rank); "newest" is
    // second but has no age; "exact" meets the threshold.
    assert_eq!(removed, vec!["exact".to_owned()]);
    assert_eq!(plan.kept.len(), 2);
}

#[test]
fn scan_cache_dir_filters_non_zip() {
    let now = nanos(SystemTime::now());
    let zip = cache_entry("/tmp/x/audit_1.0.0.zip", now, 3).expect("zip file is an entry");
    assert_eq!(zip.group, "audit");
    assert_eq!(zip.tag, "1.0.0");
    assert_eq!(zip.size, 3);
    assert!(cache_entry("/tmp/x/audit_1.0.0.zip.sig", now, 3).is_none());
    assert!(cache_entry("/tmp/x/not-a-plugin.txt", now, 1).is_none());
    assert!(cache_entry("/tmp/x/subdir", now, 0).is_none());
    // A hidden `.zip` has no extension.
    assert!(cache_entry("/tmp/x/.zip", now, 0).is_none());
}

#[test]
fn format_bytes_units() {
    assert_eq!(format_bytes(42), "42B");
    assert_eq!(format_bytes(2048), "2.0K");
    assert_eq!(format_bytes(3 * 1024 * 1024), "3.0M");
    assert_eq!(format_bytes(4 * 1024 * 1024 * 1024), "4.00G");
}

fn float_format(n: u64) -> String {
    const KB: u64 = 1024;
    const MB: u64 = 1024 * KB;
    const GB: u64 = 1024 * MB;
    if n >= GB {
        format!("{:.2}G", n as f64 / GB as f64)
    } else if n >= MB {
        format!("{:.1}M", n as f64 / MB as f64)
    } else if n >= KB {
        format!("{:.1}K", n as f64 / KB as f64)
    } else {
        format!("{n}B")
    }
}

#[test]
fn format_bytes_matches_float_formatting() {
    let mut samples: Vec<u64> = vec![
        0,
        1,
        1023,
        1024,
        1075,
        1126,
        1177,
        1536,
        10_240,
        1_048_575,
        1_048_576,
        1_101_005,
        1_153_434,
        5_242_880,
        1_073_741_823,
        1_073_741_824,
        1_084_479_242,
        1_079_110_533,
        10_737_418_240,
        u64::MAX,
        u64::MAX - 1,
        (1u64 << 53) + 1,
        (1u64 << 60) + 12_345,
    ];
    let mut x: u64 = 0x9e37_79b9_7f4a_7c15;
    for _ in 0..2000 {
        x ^= x << 13;
        x ^= x >> 7;
        x ^= x << 17;
        samples.push(x >> (x % 64));
    }
    for n in samples {
        assert_eq!(format_bytes(n), float_format(n), "n = {n}");
    }
}

#[test]
fn format_age_units() {
    let now = 10_000 * secs(86_400);
    assert_eq!(format_age(now, now), "0s");
    assert_eq!(format_age(now, now - secs(59)), "59s");
    assert_eq!(format_age(now, now - secs(60)), "1m");
    assert_eq!(format_age(now, now - secs(3_599)), "59m");
    assert_eq!(format_age(now, now - secs(3_600)), "1h");
    assert_eq!(format_age(now, now - secs(86_399)), "23h");
    assert_eq!(format_age(now, now - secs(3 * 86_400 + 5)), "3d");
    // Partial seconds round down; a future time has no age.
    assert_eq!(format_age(now, now - 1_999_999_999), "1s");
    assert_eq!(format_age(now, now + secs(100)), "0s");
}

#[test]
fn gc_args_defaults_and_flags() {
    let g = parse_gc_args(&[]).unwrap().unwrap();
    assert_eq!(g.cache_dir, None);
    assert_eq!(g.older_than_secs, None);
    assert_eq!(g.keep_latest, 3);
    assert!(!g.dry_run);

    let g = parse_gc_args(&args(&[
        "--cache-dir",
        "/c",
        "--older-than",
        "30d",
        "--keep-latest",
        "+1",
        "--dry-run",
    ]))
    .unwrap()
    .unwrap();
    assert_eq!(g.cache_dir.as_deref(), Some("/c"));
    assert_eq!(g.older_than_secs, Some(2_592_000));
    assert_eq!(g.keep_latest, 1);
    assert!(g.dry_run);
}

#[test]
fn gc_args_help_stops_reading() {
    assert!(parse_gc_args(&args(&["--dry-run", "-h", "--bogus"])).unwrap().is_none());
    assert!(parse_gc_args(&args(&["--help"])).unwrap().is_none());
    // An error before the help flag still wins.
    let err = parse_gc_args(&args(&["--bogus", "--help"])).unwrap_err().to_string();
    assert_eq!(err, "unknown flag '--bogus' for cache gc — try --help");
}

#[test]
fn gc_args_errors() {
    let e = |v: &[&str]| parse_gc_args(&args(v)).unwrap_err().to_string();
    assert_eq!(e(&["--cache-dir"]), "--cache-dir requires a path");
    assert_eq!(e(&["--older-than"]), "--older-than requires a duration");
    assert_eq!(e(&["--keep-latest"]), "--keep-latest requires an integer");
    assert_eq!(
        e(&["--older-than", "soon"]),
        "invalid --older-than value 'soon': use e.g. 30d, 12h, 2w, 3600s"
    );
    assert_eq!(e(&["--keep-latest", "x"]), "invalid --keep-latest 'x': invalid digit found in string");
    assert_eq!(
        e(&["--keep-latest", ""]),
        "invalid --keep-latest '': cannot parse integer from empty string"
    );
    assert_eq!(
        e(&["--keep-latest", "99999999999999999999999"]),
        "invalid --keep-latest '99999999999999999999999': number too large to fit in target type"
    );
    assert_eq!(e(&["--keep-latest", "-1"]), "invalid --keep-latest '-1': invalid digit found in string");
}

#[test]
fn gc_threshold_in_nanoseconds() {
    assert_eq!(threshold_nanos(None), None);
    assert_eq!(threshold_nanos(Some(2)), Some(2_000_000_000));
    assert_eq!(threshold_nanos(Some(u64::MAX)), Some(u64::MAX as u128 * 1_000_000_000));
}

#[test]
fn default_cache_dir_resolution_order() {
    assert_eq!(resolve_default_cache_dir(Some("/x"), Some("/home/u")), "/x/mcpg/plugins/oci");
    assert_eq!(resolve_default_cache_dir(Some("/x/"), None), "/x/mcpg/plugins/oci");
    assert_eq!(resolve_default_cache_dir(Some(""), Some("/home/u")), "/home/u/.cache/mcpg/plugins/oci");
    assert_eq!(resolve_default_cache_dir(None, Some("/home/u")), "/home/u/.cache/mcpg/plugins/oci");
    assert_eq!(resolve_default_cache_dir(None, Some("")), "/var/cache/mcpg/plugins/oci");
    assert_eq!(resolve_default_cache_dir(None, None), "/var/cache/mcpg/plugins/oci");
}

#[test]
fn gc_report_lines() {
    let now = 100 * secs(86_400);
    let entries = vec![
        entry("audit", "1.0.0", now - secs(10), 100),
        entry("audit", "0.9.0", now - secs(40 * 86_400), 3 * 1024 * 1024),
    ];
    let plan = plan_gc(&entries, 1, threshold(30 * 86_400), now);
    let lines = gc_report("/c", &plan, true, now);
    assert_eq!(
        lines,
        vec![
            "Cache: /c",
            "Kept: 1 file(s), Removed: 1 (dry-run)",
            "",
            "Would remove:",
            "  3.0M      40d  audit_0.9.0.zip",
            "",
            "Kept:",
            "  100B      10s  audit_1.0.0.zip",
        ]
    );
    let lines = gc_report("/c", &plan_gc(&entries, 5, None, now), false, now);
    assert_eq!(
        lines,
        vec![
            "Cache: /c",
            "Kept: 2 file(s), Removed: 0",
            "",
            "",
            "Kept:",
            "  100B      10s  audit_1.0.0.zip",
            "  3.0M      40d  audit_0.9.0.zip",
        ]
    );
    let lines = gc_report("/c", &plan_gc(&entries, 0, threshold(1), now), false, now);
    assert_eq!(lines[3], "Removing:");
    assert_eq!(lines.len(), 6);
}

#[test]
fn tally_removals_counts_successes_and_errors() {
    let now = nanos(SystemTime::now());
    let targets = vec![
        CacheEntry { path: "/c/audit_1.0.0.zip".into(), group: "audit".into(), tag: "1.0.0".into(), mtime: now, size: 1 },
        CacheEntry { path: "/c/audit_1.0.1.zip".into(), group: "audit".into(), tag: "1.0.1".into(), mtime: now, size: 2 },
        CacheEntry { path: "/c/x_2.zip".into(), group: "x".into(), tag: "2".into(), mtime: now, size: 2048 },
    ];
    let outcomes = vec![None, Some("No such file or directory (os error 2)".to_owned()), None];
    let t = tally_removals(&targets, &outcomes);
    assert_eq!(t.removed, 2, "two files actually removed");
    assert_eq!(t.bytes, 2049);
    assert_eq!(t.errors, vec!["/c/audit_1.0.1.zip: No such file or directory (os error 2)".to_owned()]);
    assert_eq!(removal_summary(&t), "Removed 2 file(s), freed 2.0K.");
}

#[test]
fn execute_removals_reports_errors_for_missing_files() {
    let now = nanos(SystemTime::now());
    let entries = vec![
        CacheEntry { path: "/c/audit_1.0.0.zip".into(), group: "audit".into(), tag: "1.0.0".into(), mtime: now, size: 1 },
        CacheEntry { path: "/c/audit_1.0.1.zip".into(), group: "audit".into(), tag: "1.0.1".into(), mtime: now, size: 2 },
    ];
    // The second file was never written: removing it failed.
    let outcomes = vec![None, Some("No such file or directory (os error 2)".to_owned())];
    let t = tally_removals(&entries, &outcomes);
    assert_eq!(t.removed, 1, "one file actually removed");
    assert_eq!(t.bytes, 1);
    assert_eq!(t.errors.len(), 1, "missing file reports an error");
}
