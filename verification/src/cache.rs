//! `cache gc`: its command line, the default cache directory, which files
//! of the cache directory are entries, and the report of a plan.
use vstd::prelude::*;

use crate::cli::{arg_is, fail, fail_with, opt_text, texts, CliError};
use crate::gc::{
    age_seconds, age_text, byte_size_text, duration_seconds, format_age, format_bytes,
    parse_duration_secs, split_group_tag, group_tag_of, valid_instant, CacheEntry, GcPlan,
};
use crate::num::{parse_unsigned, parse_usize};
use crate::path::{extension, extension_of, file_name, file_name_of, path_join, path_join_of};
use crate::text::{chars_of, decimal, push_char, push_decimal, string_of_range};

verus! {

// ---------------------------------------------------------------------------
// The command line
// ---------------------------------------------------------------------------

/// The options of `cache gc`.
#[derive(Debug)]
pub struct GcArgs {
    /// `--cache-dir`; the default directory when absent.
    pub cache_dir: Option<String>,
    /// `--older-than`, in seconds.
    pub older_than_secs: Option<u64>,
    /// `--keep-latest`, 3 when absent.
    pub keep_latest: usize,
    pub dry_run: bool,
}

pub struct GcArgsView {
    pub cache_dir: Option<Seq<char>>,
    pub older_than_secs: Option<nat>,
    pub keep_latest: nat,
    pub dry_run: bool,
}

impl View for GcArgs {
    type V = GcArgsView;

    open spec fn view(&self) -> GcArgsView {
        GcArgsView {
            cache_dir: opt_text(self.cache_dir),
            older_than_secs: match self.older_than_secs {
                Some(s) => Some(s as nat),
                None => None,
            },
            keep_latest: self.keep_latest as nat,
            dry_run: self.dry_run,
        }
    }
}

/// The options before any flag.
pub open spec fn gc_defaults() -> GcArgsView {
    GcArgsView { cache_dir: None, older_than_secs: None, keep_latest: 3, dry_run: false }
}

/// Reads the flags `args[i..]` of `cache gc`; `None` when a `--help` /
/// `-h` is reached (print the usage and stop).
pub open spec fn scan_gc(args: Seq<Seq<char>>, i: int, g: GcArgsView) -> Result<Option<GcArgsView>, Seq<char>>
    decreases args.len() - i,
{
    if i >= args.len() || i < 0 {
        Ok(Some(g))
    } else if args[i] == "--cache-dir"@ {
        if i + 1 < args.len() {
            scan_gc(args, i + 2, GcArgsView { cache_dir: Some(args[i + 1]), ..g })
        } else {
            Err("--cache-dir requires a path"@)
        }
    } else if args[i] == "--older-than"@ {
        if i + 1 < args.len() {
            match duration_seconds(args[i + 1]) {
                Some(secs) => scan_gc(args, i + 2, GcArgsView { older_than_secs: Some(secs), ..g }),
                None => Err(
                    "invalid --older-than value '"@ + args[i + 1] + "': use e.g. 30d, 12h, 2w, 3600s"@,
                ),
            }
        } else {
            Err("--older-than requires a duration"@)
        }
    } else if args[i] == "--keep-latest"@ {
        if i + 1 < args.len() {
            match parse_unsigned(args[i + 1], usize::MAX as nat) {
                Ok(n) => scan_gc(args, i + 2, GcArgsView { keep_latest: n, ..g }),
                Err(k) => Err("invalid --keep-latest '"@ + args[i + 1] + "': "@ + k.text()),
            }
        } else {
            Err("--keep-latest requires an integer"@)
        }
    } else if args[i] == "--dry-run"@ {
        scan_gc(args, i + 1, GcArgsView { dry_run: true, ..g })
    } else if args[i] == "--help"@ || args[i] == "-h"@ {
        Ok(None)
    } else {
        Err("unknown flag '"@ + args[i] + "' for cache gc — try --help"@)
    }
}

/// Parses the `cache gc` command line; `Ok(None)` asks for the usage.
pub fn parse_gc_args(args: &[String]) -> (r: Result<Option<GcArgs>, CliError>)
    ensures
        crate::pack::outcome_opt(r) == scan_gc(texts(args@), 0, gc_defaults()),
{
    let ghost a = texts(args@);
    let mut g = GcArgs { cache_dir: None, older_than_secs: None, keep_latest: 3, dry_run: false };
    let mut i: usize = 0;
    while i < args.len()
        invariant
            a == texts(args@),
            i <= args@.len(),
            scan_gc(a, 0, gc_defaults()) == scan_gc(a, i as int, g@),
        decreases args.len() - i,
    {
        if arg_is(args, i, "--cache-dir") {
            if i + 1 >= args.len() {
                return Err(fail_with("--cache-dir requires a path"));
            }
            g.cache_dir = Some(args[i + 1].clone());
            i = i + 2;
        } else if arg_is(args, i, "--older-than") {
            if i + 1 >= args.len() {
                return Err(fail_with("--older-than requires a duration"));
            }
            match parse_duration_secs(args[i + 1].as_str()) {
                Some(secs) => {
                    g.older_than_secs = Some(secs);
                },
                None => {
                    let mut m = String::from_str("invalid --older-than value '");
                    m.append(args[i + 1].as_str());
                    m.append("': use e.g. 30d, 12h, 2w, 3600s");
                    return Err(fail(m));
                },
            }
            i = i + 2;
        } else if arg_is(args, i, "--keep-latest") {
            if i + 1 >= args.len() {
                return Err(fail_with("--keep-latest requires an integer"));
            }
            match parse_usize(args[i + 1].as_str()) {
                Ok(n) => {
                    g.keep_latest = n;
                },
                Err(k) => {
                    let mut m = String::from_str("invalid --keep-latest '");
                    m.append(args[i + 1].as_str());
                    m.append("': ");
                    let why = k.to_string();
                    m.append(why.as_str());
                    return Err(fail(m));
                },
            }
            i = i + 2;
        } else if arg_is(args, i, "--dry-run") {
            g.dry_run = true;
            i = i + 1;
        } else if arg_is(args, i, "--help") || arg_is(args, i, "-h") {
            return Ok(None);
        } else {
            let mut m = String::from_str("unknown flag '");
            m.append(args[i].as_str());
            m.append("' for cache gc — try --help");
            return Err(fail(m));
        }
    }
    Ok(Some(g))
}

/// The `--older-than` threshold of a plan, in nanoseconds.
pub fn threshold_nanos(older_than_secs: Option<u64>) -> (r: Option<u128>)
    ensures
        r == match older_than_secs {
            Some(s) => Some((s * 1_000_000_000) as u128),
            None => None::<u128>,
        },
{
    match older_than_secs {
        Some(s) => Some((s as u128) * 1_000_000_000),
        None => None,
    }
}

// ---------------------------------------------------------------------------
// The cache directory
// ---------------------------------------------------------------------------

/// The directory the gateway unpacks OCI plugins into:
/// `$XDG_CACHE_HOME/mcpg/plugins/oci`, else `$HOME/.cache/mcpg/plugins/oci`,
/// else `/var/cache/mcpg/plugins/oci`; an empty variable counts as unset.
pub open spec fn default_cache_dir_of(xdg_cache_home: Option<Seq<char>>, home: Option<Seq<char>>) -> Seq<char> {
    match xdg_cache_home {
        Some(x) if x.len() > 0 => path_join_of(path_join_of(path_join_of(x, "mcpg"@), "plugins"@), "oci"@),
        _ => match home {
            Some(h) if h.len() > 0 => path_join_of(
                path_join_of(path_join_of(path_join_of(h, ".cache"@), "mcpg"@), "plugins"@),
                "oci"@,
            ),
            _ => "/var/cache/mcpg/plugins/oci"@,
        },
    }
}

/// The default cache directory in full: `<XDG_CACHE_HOME>/mcpg/plugins/oci`
/// (no `/` doubled), else `<HOME>/.cache/mcpg/plugins/oci`, else
/// `/var/cache/mcpg/plugins/oci`.
pub proof fn lemma_default_cache_dir(xdg_cache_home: Option<Seq<char>>, home: Option<Seq<char>>)
    ensures
        default_cache_dir_of(xdg_cache_home, home) == match xdg_cache_home {
            Some(x) if x.len() > 0 => (if x.last() == '/' { x } else { x + "/"@ }) + "mcpg/plugins/oci"@,
            _ => match home {
                Some(h) if h.len() > 0 => (if h.last() == '/' { h } else { h + "/"@ })
                    + ".cache/mcpg/plugins/oci"@,
                _ => "/var/cache/mcpg/plugins/oci"@,
            },
        },
{
    reveal_strlit("/");
    reveal_strlit("mcpg");
    reveal_strlit("plugins");
    reveal_strlit("oci");
    reveal_strlit(".cache");
    reveal_strlit("mcpg/plugins/oci");
    reveal_strlit(".cache/mcpg/plugins/oci");
    match xdg_cache_home {
        Some(x) if x.len() > 0 => {
            let a = path_join_of(x, "mcpg"@);
            let b = path_join_of(a, "plugins"@);
            assert(a.last() == 'g');
            assert(b.last() == 's');
            assert(path_join_of(b, "oci"@) =~= (if x.last() == '/' { x } else { x + "/"@ })
                + "mcpg/plugins/oci"@);
        },
        _ => match home {
            Some(h) if h.len() > 0 => {
                let a = path_join_of(h, ".cache"@);
                let b = path_join_of(a, "mcpg"@);
                let c = path_join_of(b, "plugins"@);
                assert(a.last() == 'e');
                assert(b.last() == 'g');
                assert(c.last() == 's');
                assert(path_join_of(c, "oci"@) =~= (if h.last() == '/' { h } else { h + "/"@ })
                    + ".cache/mcpg/plugins/oci"@);
            },
            _ => {},
        },
    }
}

/// Resolves the default cache directory from `XDG_CACHE_HOME` and `HOME`.
pub fn resolve_default_cache_dir(xdg_cache_home: Option<&str>, home: Option<&str>) -> (r: String)
    ensures
        r@ == default_cache_dir_of(
            match xdg_cache_home {
                Some(x) => Some(x@),
                None => None,
            },
            match home {
                Some(h) => Some(h@),
                None => None,
            },
        ),
{
    match xdg_cache_home {
        Some(x) => {
            if x.unicode_len() > 0 {
                let a = path_join(x, "mcpg");
                let b = path_join(a.as_str(), "plugins");
                return path_join(b.as_str(), "oci");
            }
        },
        None => {},
    }
    match home {
        Some(h) => {
            if h.unicode_len() > 0 {
                let a = path_join(h, ".cache");
                let b = path_join(a.as_str(), "mcpg");
                let c = path_join(b.as_str(), "plugins");
                return path_join(c.as_str(), "oci");
            }
        },
        None => {},
    }
    String::from_str("/var/cache/mcpg/plugins/oci")
}

/// The cache entry a regular file at `path` stands for: only `.zip` files
/// count; the group and the tag come from the file stem.
pub open spec fn cache_entry_of(path: Seq<char>) -> Option<(Seq<char>, Seq<char>)> {
    match file_name_of(path) {
        Some(name) => if extension_of(name) == Some("zip"@) {
            Some(group_tag_of(name.take(name.len() - 4)))
        } else {
            None
        },
        None => None,
    }
}

/// The entry for the regular file at `path`, modified at `mtime`
/// (nanoseconds since the UNIX epoch) and `size` bytes long; `None` when
/// it is not a `.zip` file.
pub fn cache_entry(path: &str, mtime: i128, size: u64) -> (r: Option<CacheEntry>)
    ensures
        match r {
            Some(e) => cache_entry_of(path@) == Some((e.group@, e.tag@)) && e.path@ == path@ && e.mtime
                == mtime && e.size == size,
            None => cache_entry_of(path@) is None,
        },
{
    let name = match file_name(path) {
        Some(n) => n,
        None => {
            return None;
        },
    };
    match extension(name.as_str()) {
        Some(ext) => {
            if !crate::text::same_text(ext.as_str(), "zip") {
                return None;
            }
        },
        None => {
            return None;
        },
    }
    proof {
        reveal_strlit("zip");
    }
    let cs = chars_of(name.as_str());
    let stem = string_of_range(&cs, 0, cs.len() - 4);
    assert(stem@ =~= name@.take(name@.len() - 4));
    let (group, tag) = split_group_tag(stem.as_str());
    Some(CacheEntry { path: String::from_str(path), group, tag, mtime, size })
}

// ---------------------------------------------------------------------------
// The report
// ---------------------------------------------------------------------------

/// `format!("{:w}", s)`: `s` padded with spaces on the right to `w`
/// characters.
pub open spec fn pad_right(s: Seq<char>, w: nat) -> Seq<char> {
    if s.len() >= w {
        s
    } else {
        s + Seq::new((w - s.len()) as nat, |i: int| ' ')
    }
}

fn pad_to(s: &mut String, w: usize)
    ensures
        final(s)@ == pad_right(old(s)@, w as nat),
{
    let ghost start = s@;
    let n = s.as_str().unicode_len();
    if n < w {
        let mut k: usize = n;
        while k < w
            invariant
                n == start.len(),
                n <= k <= w,
                s@ == start + Seq::new((k - n) as nat, |i: int| ' '),
            decreases w - k,
        {
            push_char(s, ' ');
            assert(s@ =~= start + Seq::new((k + 1 - n) as nat, |i: int| ' '));
            k = k + 1;
        }
    } else {
        assert(s@ =~= pad_right(start, w as nat));
    }
}

/// One line of the report: size (padded to 8), age and file name.
pub open spec fn entry_line_of(e: CacheEntry, now: i128) -> Seq<char> {
    "  "@ + pad_right(byte_size_text(e.size as nat), 8) + "  "@ + age_text(age_seconds(now, e.mtime)) + "  "@
        + match file_name_of(e.path@) {
        Some(n) => n,
        None => Seq::empty(),
    }
}

fn entry_line(e: &CacheEntry, now: i128) -> (r: String)
    requires
        valid_instant(now),
        valid_instant(e.mtime),
    ensures
        r@ == entry_line_of(*e, now),
{
    let mut s = String::from_str("  ");
    let size = format_bytes(e.size);
    let mut padded = size.clone();
    pad_to(&mut padded, 8);
    s.append(padded.as_str());
    s.append("  ");
    let age = format_age(now, e.mtime);
    s.append(age.as_str());
    s.append("  ");
    match file_name(e.path.as_str()) {
        Some(n) => {
            s.append(n.as_str());
        },
        None => {},
    }
    s
}

/// The lines of a section: one per entry.
pub open spec fn entry_lines_of(es: Seq<CacheEntry>, now: i128) -> Seq<Seq<char>> {
    es.map_values(|e: CacheEntry| entry_line_of(e, now))
}

fn push_entry_lines(lines: &mut Vec<String>, es: &Vec<CacheEntry>, now: i128)
    requires
        valid_instant(now),
        forall|k: int| 0 <= k < es@.len() ==> valid_instant(#[trigger] es@[k].mtime),
    ensures
        texts(final(lines)@) == texts(old(lines)@) + entry_lines_of(es@, now),
{
    let ghost start = texts(lines@);
    let mut i: usize = 0;
    while i < es.len()
        invariant
            valid_instant(now),
            forall|k: int| 0 <= k < es@.len() ==> valid_instant(#[trigger] es@[k].mtime),
            i <= es.len(),
            texts(lines@) == start + entry_lines_of(es@.take(i as int), now),
        decreases es.len() - i,
    {
        let l = entry_line(&es[i], now);
        let ghost before = texts(lines@);
        lines.push(l);
        assert(texts(lines@) =~= before.push(l@));
        assert(entry_lines_of(es@.take(i + 1), now) =~= entry_lines_of(es@.take(i as int), now).push(
            entry_line_of(es@[i as int], now),
        ));
        assert(texts(lines@) =~= start + entry_lines_of(es@.take(i + 1), now));
        i = i + 1;
    }
    assert(es@.take(es.len() as int) =~= es@);
}

/// The report of a plan: the cache directory, the counts, then the entries
/// to remove and the entries kept, each section only when not empty.
pub open spec fn gc_report_of(cache_dir: Seq<char>, kept: Seq<CacheEntry>, removed: Seq<CacheEntry>, dry_run: bool, now: i128) -> Seq<
    Seq<char>,
> {
    seq![
        "Cache: "@ + cache_dir,
        "Kept: "@ + decimal(kept.len()) + " file(s), Removed: "@ + decimal(removed.len()) + if dry_run {
            " (dry-run)"@
        } else {
            ""@
        },
        ""@,
    ] + (if removed.len() > 0 {
        seq![if dry_run { "Would remove:"@ } else { "Removing:"@ }] + entry_lines_of(removed, now)
    } else {
        Seq::empty()
    }) + (if kept.len() > 0 {
        seq![""@, "Kept:"@] + entry_lines_of(kept, now)
    } else {
        Seq::empty()
    })
}

/// The lines `cache gc` prints for `plan`.
pub fn gc_report(cache_dir: &str, plan: &GcPlan, dry_run: bool, now: i128) -> (r: Vec<String>)
    requires
        valid_instant(now),
        forall|k: int| 0 <= k < plan.kept@.len() ==> valid_instant(#[trigger] plan.kept@[k].mtime),
        forall|k: int| 0 <= k < plan.removed@.len() ==> valid_instant(#[trigger] plan.removed@[k].mtime),
    ensures
        texts(r@) == gc_report_of(cache_dir@, plan.kept@, plan.removed@, dry_run, now),
{
    let mut lines: Vec<String> = Vec::new();
    let mut head = String::from_str("Cache: ");
    head.append(cache_dir);
    lines.push(head);
    let mut counts = String::from_str("Kept: ");
    push_decimal(&mut counts, plan.kept.len() as u64);
    counts.append(" file(s), Removed: ");
    push_decimal(&mut counts, plan.removed.len() as u64);
    if dry_run {
        counts.append(" (dry-run)");
    } else {
        counts.append("");
    }
    lines.push(counts);
    lines.push(String::new());
    let ghost top = seq![
        "Cache: "@ + cache_dir@,
        "Kept: "@ + decimal(plan.kept@.len()) + " file(s), Removed: "@ + decimal(plan.removed@.len()) + if dry_run {
            " (dry-run)"@
        } else {
            ""@
        },
        ""@,
    ];
    proof {
        reveal_strlit("");
    }
    assert(texts(lines@)[0] == top[0]);
    assert(texts(lines@)[1] == top[1]);
    assert(texts(lines@)[2] =~= top[2]);
    assert(texts(lines@) =~= top);
    let ghost removed_part: Seq<Seq<char>> = if plan.removed@.len() > 0 {
        seq![if dry_run { "Would remove:"@ } else { "Removing:"@ }] + entry_lines_of(plan.removed@, now)
    } else {
        Seq::empty()
    };
    if plan.removed.len() > 0 {
        if dry_run {
            lines.push(String::from_str("Would remove:"));
        } else {
            lines.push(String::from_str("Removing:"));
        }
        assert(texts(lines@) =~= top + seq![if dry_run { "Would remove:"@ } else { "Removing:"@ }]);
        push_entry_lines(&mut lines, &plan.removed, now);
    }
    assert(texts(lines@) =~= top + removed_part);
    let ghost kept_part: Seq<Seq<char>> = if plan.kept@.len() > 0 {
        seq![""@, "Kept:"@] + entry_lines_of(plan.kept@, now)
    } else {
        Seq::empty()
    };
    if plan.kept.len() > 0 {
        lines.push(String::new());
        lines.push(String::from_str("Kept:"));
        assert(texts(lines@)[texts(lines@).len() - 2] =~= ""@);
        assert(texts(lines@) =~= top + removed_part + seq![""@, "Kept:"@]);
        push_entry_lines(&mut lines, &plan.kept, now);
    }
    assert(texts(lines@) =~= top + removed_part + kept_part);
    lines
}

// ---------------------------------------------------------------------------
// Removals
// ---------------------------------------------------------------------------

/// What removing the planned files achieved.
#[derive(Debug)]
pub struct RemovalTally {
    /// Files actually removed.
    pub removed: usize,
    /// Their total size.
    pub bytes: u64,
    /// One `<path>: <error>` per file that could not be removed.
    pub errors: Vec<String>,
}

/// The total size of the entries whose removal succeeded (`None` error).
pub open spec fn removed_bytes(es: Seq<CacheEntry>, outcomes: Seq<Option<String>>) -> nat
    decreases es.len(),
{
    if es.len() == 0 || outcomes.len() == 0 {
        0
    } else {
        removed_bytes(es.drop_last(), outcomes.drop_last()) + if outcomes.last() is None {
            es.last().size as nat
        } else {
            0nat
        }
    }
}

/// How many removals succeeded.
pub open spec fn removed_count(outcomes: Seq<Option<String>>) -> nat
    decreases outcomes.len(),
{
    if outcomes.len() == 0 {
        0
    } else {
        removed_count(outcomes.drop_last()) + if outcomes.last() is None {
            1nat
        } else {
            0nat
        }
    }
}

/// The error lines of the failed removals, in order.
pub open spec fn removal_errors(es: Seq<CacheEntry>, outcomes: Seq<Option<String>>) -> Seq<Seq<char>>
    decreases es.len(),
{
    if es.len() == 0 || outcomes.len() == 0 {
        Seq::empty()
    } else {
        removal_errors(es.drop_last(), outcomes.drop_last()) + match outcomes.last() {
            Some(e) => seq![es.last().path@ + ": "@ + e@],
            None => Seq::empty(),
        }
    }
}

proof fn lemma_removed_count_bound(outcomes: Seq<Option<String>>)
    ensures
        removed_count(outcomes) <= outcomes.len(),
    decreases outcomes.len(),
{
    if outcomes.len() > 0 {
        lemma_removed_count_bound(outcomes.drop_last());
    }
}

/// Tallies the removal of `targets`: `outcomes[i]` is the error removing
/// `targets[i]` gave, if any.
pub fn tally_removals(targets: &[CacheEntry], outcomes: &[Option<String>]) -> (r: RemovalTally)
    requires
        targets@.len() == outcomes@.len(),
        removed_bytes(targets@, outcomes@) <= u64::MAX,
    ensures
        r.removed == removed_count(outcomes@),
        r.bytes == removed_bytes(targets@, outcomes@),
        texts(r.errors@) == removal_errors(targets@, outcomes@),
{
    let mut removed: usize = 0;
    let mut bytes: u64 = 0;
    let mut errors: Vec<String> = Vec::new();
    let mut i: usize = 0;
    while i < targets.len()
        invariant
            targets@.len() == outcomes@.len(),
            removed_bytes(targets@, outcomes@) <= u64::MAX,
            i <= targets.len(),
            removed == removed_count(outcomes@.take(i as int)),
            bytes == removed_bytes(targets@.take(i as int), outcomes@.take(i as int)),
            texts(errors@) == removal_errors(targets@.take(i as int), outcomes@.take(i as int)),
        decreases targets.len() - i,
    {
        let ghost (t1, o1) = (targets@.take(i + 1), outcomes@.take(i + 1));
        assert(t1.drop_last() =~= targets@.take(i as int));
        assert(o1.drop_last() =~= outcomes@.take(i as int));
        proof {
            lemma_removed_count_bound(o1);
            lemma_removed_bytes_prefix(targets@, outcomes@, i + 1);
        }
        match &outcomes[i] {
            None => {
                removed = removed + 1;
                bytes = bytes + targets[i].size;
            },
            Some(e) => {
                let ghost before = texts(errors@);
                let mut line = targets[i].path.clone();
                line.append(": ");
                line.append(e.as_str());
                errors.push(line);
                assert(texts(errors@) =~= before.push(line@));
            },
        }
        i = i + 1;
    }
    assert(targets@.take(i as int) =~= targets@);
    assert(outcomes@.take(i as int) =~= outcomes@);
    RemovalTally { removed, bytes, errors }
}

proof fn lemma_removed_bytes_prefix(es: Seq<CacheEntry>, outcomes: Seq<Option<String>>, k: int)
    requires
        es.len() == outcomes.len(),
        0 <= k <= es.len(),
    ensures
        removed_bytes(es.take(k), outcomes.take(k)) <= removed_bytes(es, outcomes),
    decreases es.len() - k,
{
    if k < es.len() {
        lemma_removed_bytes_prefix(es, outcomes, k + 1);
        assert(es.take(k + 1).drop_last() =~= es.take(k));
        assert(outcomes.take(k + 1).drop_last() =~= outcomes.take(k));
    } else {
        assert(es.take(k) =~= es);
        assert(outcomes.take(k) =~= outcomes);
    }
}

/// The line `cache gc` prints after removing files.
pub fn removal_summary(t: &RemovalTally) -> (r: String)
    ensures
        r@ == "Removed "@ + decimal(t.removed as nat) + " file(s), freed "@ + byte_size_text(t.bytes as nat)
            + "."@,
{
    let mut s = String::from_str("Removed ");
    push_decimal(&mut s, t.removed as u64);
    s.append(" file(s), freed ");
    let b = format_bytes(t.bytes);
    s.append(b.as_str());
    s.append(".");
    s
}

} // verus!
