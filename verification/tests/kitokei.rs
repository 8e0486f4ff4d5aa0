use kitokei::{
    capture_counts, combine_counts, counts_from_names, parse_file, render_rows, table, Aggregate,
    AnalyzeError, Capabilities, CaptureCounts, Language, QueryCache, RunError,
};

fn counts_of(pairs: &[(&str, usize)]) -> CaptureCounts {
    let mut c = CaptureCounts::new();
    for (k, v) in pairs {
        c.add(k.to_string(), *v);
    }
    c
}

fn get(c: &CaptureCounts, k: &str) -> Option<usize> {
    c.get(&k.to_string())
}

#[test]
fn resolve_python_extension() {
    assert_eq!(Language::resolve("dir/mod.py"), Ok(Language::Python));
    assert_eq!(Language::resolve("mod.py"), Ok(Language::Python));
}

#[test]
fn resolve_rust_extension() {
    assert_eq!(Language::resolve("src/lib.rs"), Ok(Language::Rust));
}

#[test]
fn resolve_missing_extension() {
    assert_eq!(Language::resolve("Makefile"), Err(AnalyzeError::MissingExtension));
    assert_eq!(Language::resolve("dir.py/file"), Err(AnalyzeError::MissingExtension));
    assert_eq!(Language::resolve(".py"), Err(AnalyzeError::MissingExtension));
}

#[test]
fn resolve_unknown_extension() {
    assert_eq!(Language::resolve("notes.txt"), Err(AnalyzeError::UnknownExtension));
    assert_eq!(Language::resolve("a.pyc"), Err(AnalyzeError::UnknownExtension));
}

#[test]
fn language_names() {
    assert_eq!(Language::Python.name(), "python");
    assert_eq!(Language::Rust.name(), "rust");
}

#[test]
fn queries_gated_by_capabilities() {
    let full = Capabilities::full();
    assert!(Language::Python.queries(&full).is_ok());
    assert!(Language::Rust.queries(&full).is_ok());
    let none = Capabilities { python: false, rust: false };
    assert_eq!(
        Language::Python.queries(&none),
        Err(AnalyzeError::CapabilityMissing(Language::Python))
    );
}

#[test]
fn merge_sums_per_key() {
    let a = counts_of(&[("function", 2), ("comment", 1)]);
    let b = counts_of(&[("comment", 3), ("string", 4)]);
    let m = combine_counts(a, b);
    assert_eq!(get(&m, "function"), Some(2));
    assert_eq!(get(&m, "comment"), Some(4));
    assert_eq!(get(&m, "string"), Some(4));
    assert_eq!(get(&m, "other"), None);
}

#[test]
fn merge_is_order_independent() {
    let mk = |x: usize| counts_of(&[("f", x), ("c", 2 * x + 1)]);
    let (a, b, c) = (mk(1), mk(2), counts_of(&[("g", 7)]));
    let left = combine_counts(combine_counts(mk(1), mk(2)), counts_of(&[("g", 7)]));
    let right = combine_counts(a, combine_counts(b, c));
    let third = combine_counts(
        combine_counts(mk(1), counts_of(&[("g", 7)])),
        mk(2),
    );
    for k in ["f", "c", "g"] {
        assert_eq!(get(&left, k), get(&right, k));
        assert_eq!(get(&left, k), get(&third, k));
    }
    assert_eq!(left.len(), right.len());
    assert_eq!(left.len(), third.len());
}

#[test]
fn cache_builds_once() {
    let caps = Capabilities::full();
    let mut cache = QueryCache::new();
    assert!(!cache.has(Language::Python));
    assert!(cache.get_or_build(Language::Python, &caps).is_ok());
    assert!(cache.has(Language::Python));
    // a second request leaves the cache untouched and still succeeds
    assert!(cache.get_or_build(Language::Python, &caps).is_ok());
    assert!(cache.has(Language::Python));
    assert!(!cache.has(Language::Rust));
}

#[test]
fn empty_aggregate_is_an_error() {
    let agg = Aggregate::new();
    match agg.finish() {
        Err(RunError::NoFiles) => {}
        _ => panic!("an aggregate of zero files must be the no-files error"),
    }
}

#[test]
fn aggregate_with_one_file_succeeds() {
    let mut agg = Aggregate::new();
    agg.absorb(counts_of(&[("function", 1)]));
    let c = agg.finish().unwrap();
    assert_eq!(get(&c, "function"), Some(1));
}

#[test]
fn reserved_names_never_rendered() {
    let c = counts_of(&[("_internal", 99), ("visible", 1), ("_x", 1)]);
    let rows = render_rows(&c);
    assert_eq!(rows.len(), 1);
    assert_eq!(rows[0].0, "visible");
    assert_eq!(rows[0].1, 1);
    let t = table(&c);
    let s = format!("{}", t);
    assert!(s.contains("visible"));
    assert!(!s.contains("_internal"));
    assert!(!s.contains("_x"));
}

#[test]
fn rows_sorted_by_name() {
    let c = counts_of(&[("zeta", 1), ("alpha", 2), ("mid", 3)]);
    let rows = render_rows(&c);
    let names: Vec<&str> = rows.iter().map(|r| r.0.as_str()).collect();
    assert_eq!(names, vec!["alpha", "mid", "zeta"]);
}

#[test]
fn capture_counts_tallies_indices() {
    let idx: Vec<u32> = vec![0, 1, 1, 0, 1];
    let t = capture_counts(&idx, 3);
    assert_eq!(t, vec![2, 3, 0]);
}

#[test]
fn counts_from_names_drops_zeroes() {
    let names = vec!["a".to_string(), "b".to_string()];
    let tallies = vec![2, 0];
    let c = counts_from_names(&names, &tallies);
    assert_eq!(get(&c, "a"), Some(2));
    assert_eq!(get(&c, "b"), None);
    assert_eq!(c.len(), 1);
}

#[test]
fn single_python_file_counts() {
    let caps = Capabilities::full();
    let mut cache = QueryCache::new();
    let code = "# first comment\n# second comment\ndef f():\n    pass\n";
    let c = parse_file("example.py", code, &caps, &mut cache).unwrap();
    assert_eq!(get(&c, "function"), Some(1));
    assert_eq!(get(&c, "comment"), Some(2));
}

#[test]
fn single_rust_file_counts() {
    let caps = Capabilities::full();
    let mut cache = QueryCache::new();
    let code = "// a comment\nfn main() {}\n";
    let c = parse_file("main.rs", code, &caps, &mut cache).unwrap();
    assert_eq!(get(&c, "function"), Some(1));
    assert_eq!(get(&c, "comment"), Some(1));
}

#[test]
fn two_languages_merge_to_sums() {
    let caps = Capabilities::full();
    let mut cache = QueryCache::new();
    let py = parse_file("a.py", "def f():\n    pass\n# hi\n", &caps, &mut cache).unwrap();
    let rs = parse_file("b.rs", "fn g() {}\nfn h() {}\n", &caps, &mut cache).unwrap();
    let pf = get(&py, "function").unwrap_or(0);
    let rf = get(&rs, "function").unwrap_or(0);
    let one = combine_counts(
        parse_file("a.py", "def f():\n    pass\n# hi\n", &caps, &mut cache).unwrap(),
        parse_file("b.rs", "fn g() {}\nfn h() {}\n", &caps, &mut cache).unwrap(),
    );
    let other = combine_counts(
        parse_file("b.rs", "fn g() {}\nfn h() {}\n", &caps, &mut cache).unwrap(),
        parse_file("a.py", "def f():\n    pass\n# hi\n", &caps, &mut cache).unwrap(),
    );
    assert_eq!(get(&one, "function"), Some(pf + rf));
    assert_eq!(get(&other, "function"), Some(pf + rf));
    assert_eq!(get(&one, "comment"), get(&other, "comment"));
}

#[test]
fn unsupported_file_skipped_valid_file_counted() {
    let caps = Capabilities::full();
    let mut cache = QueryCache::new();
    let mut skipped: usize = 0;
    let mut agg = Aggregate::new();
    for (path, code) in [("ok.py", "def f():\n    pass\n"), ("data.json", "{}")] {
        match parse_file(path, code, &caps, &mut cache) {
            Ok(c) => agg.absorb(c),
            Err(_) => skipped += 1,
        }
    }
    assert_eq!(skipped, 1);
    let c = agg.finish().unwrap();
    assert_eq!(get(&c, "function"), Some(1));
    assert_eq!(get(&c, "comment"), None);
}

#[test]
fn capability_gate_fails_file_not_run() {
    let caps = Capabilities { python: false, rust: true };
    let mut cache = QueryCache::new();
    let r = parse_file("x.py", "def f():\n    pass\n", &caps, &mut cache);
    assert_eq!(r.unwrap_err(), AnalyzeError::CapabilityMissing(Language::Python));
    // the same run can still analyze the enabled language
    assert!(parse_file("y.rs", "fn a() {}\n", &caps, &mut cache).is_ok());
}

#[test]
fn resolution_ignores_content() {
    // identical paths with different content resolve identically
    let caps = Capabilities::full();
    let mut cache = QueryCache::new();
    let a = parse_file("same.py", "def f():\n    pass\n", &caps, &mut cache);
    let b = parse_file("same.py", "not really python at all £$%^", &caps, &mut cache);
    assert!(a.is_ok());
    // content may parse or not, but resolution never becomes an extension error
    match b {
        Ok(_) | Err(AnalyzeError::Parse) => {}
        other => panic!("unexpected: {:?}", other),
    }
}

#[test]
fn equal_content_equal_counts() {
    // the analysis result is a function of content and language alone:
    // separate caches, different paths, same content, same counts
    let caps = Capabilities::full();
    let mut cache_a = QueryCache::new();
    let mut cache_b = QueryCache::new();
    let code = "def f():\n    pass\n# note\n";
    let a = parse_file("one.py", code, &caps, &mut cache_a).unwrap();
    let b = parse_file("two/other.py", code, &caps, &mut cache_b).unwrap();
    assert_eq!(a.len(), b.len());
    for k in ["function", "comment"] {
        assert_eq!(get(&a, k), get(&b, k));
    }
}

#[test]
fn cache_gains_only_the_resolved_language() {
    let caps = Capabilities::full();
    let mut cache = QueryCache::new();
    parse_file("a.py", "def f():\n    pass\n", &caps, &mut cache).unwrap();
    assert!(cache.has(Language::Python));
    assert!(!cache.has(Language::Rust));
}
