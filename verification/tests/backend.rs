use dsh_desktop::backend::{
    classify_line, describe, extract_url, is_batch_script, is_js_entry, missing_node_message,
    newest_first, node_source, parse_version, resolve_after_bundled, resolve_after_dsh,
    resolve_after_npx, resolve_start, strip_verbatim_prefix, web_args, Budget, Event, Launch,
    NodeSource, Resolution, Startup, Tool, Verdict, Wake,
};

#[test]
fn extracts_announced_loopback_url() {
    assert_eq!(
        extract_url("dsh web: http://127.0.0.1:54321"),
        Some("http://127.0.0.1:54321".to_string())
    );
}

#[test]
fn extracts_url_with_lan_suffix() {
    assert_eq!(
        extract_url("dsh web: http://127.0.0.1:50340 (LAN: http://192.168.1.5:50340)"),
        Some("http://127.0.0.1:50340".to_string())
    );
}

#[test]
fn ignores_unrelated_lines() {
    assert_eq!(extract_url("listening on 127.0.0.1"), None);
    assert_eq!(extract_url(""), None);
}

#[test]
fn parses_node_version_directory_names() {
    assert_eq!(parse_version("v20.11.0"), (20, 11, 0));
    assert_eq!(parse_version("22.3.1"), (22, 3, 1));
    assert_eq!(parse_version("v18"), (18, 0, 0));
    assert_eq!(parse_version("not-a-version"), (0, 0, 0));
}

#[test]
fn orders_node_versions_numerically_not_lexically() {
    // The bug this guards: "v9" sorts after "v20" as a string.
    let mut names = ["v9.0.0", "v20.11.0", "v18.19.1"];
    names.sort_by_key(|n| std::cmp::Reverse(parse_version(n)));
    assert_eq!(names, ["v20.11.0", "v18.19.1", "v9.0.0"]);
}

#[test]
fn strips_the_windows_verbatim_prefix() {
    assert_eq!(
        strip_verbatim_prefix(r"\\?\C:\Users\max\app\bin.js"),
        r"C:\Users\max\app\bin.js".to_string()
    );
    assert_eq!(
        strip_verbatim_prefix(r"\\?\UNC\server\share\app"),
        r"\\server\share\app".to_string()
    );
}

#[test]
fn leaves_ordinary_paths_untouched() {
    assert_eq!(
        strip_verbatim_prefix("/usr/local/bin/node"),
        "/usr/local/bin/node".to_string()
    );
    assert_eq!(
        strip_verbatim_prefix(r"C:\Program Files\nodejs"),
        r"C:\Program Files\nodejs".to_string()
    );
}

#[test]
fn recognises_javascript_entry_points() {
    assert!(is_js_entry("/path/lib/bin.js"));
    assert!(is_js_entry("/path/lib/bin.mjs"));
    assert!(is_js_entry("/path/lib/bin.cjs"));
    assert!(!is_js_entry("/usr/local/bin/dsh"));
}

// ---- further cases ----------------------------------------------------------

#[test]
fn takes_only_the_first_announcement() {
    assert_eq!(
        extract_url("http://127.0.0.1:x then http://127.0.0.1:80"),
        None
    );
    assert_eq!(
        extract_url("a http://127.0.0.1:1b http://127.0.0.1:2"),
        Some("http://127.0.0.1:1".to_string())
    );
    assert_eq!(extract_url("http://127.0.0.1:"), None);
    assert_eq!(
        extract_url("é http://127.0.0.1:8080/"),
        Some("http://127.0.0.1:8080".to_string())
    );
}

#[test]
fn version_fields_that_overflow_read_as_zero() {
    assert_eq!(parse_version("v4294967295.1.2"), (4294967295, 1, 2));
    assert_eq!(parse_version("v4294967296.1.2"), (0, 1, 2));
    assert_eq!(parse_version("vv20.1rc2.3"), (20, 1, 3));
    assert_eq!(parse_version(""), (0, 0, 0));
    assert_eq!(parse_version("1..2"), (1, 0, 2));
    assert_eq!(parse_version("1.2.3.4"), (1, 2, 3));
}

#[test]
fn newest_version_directory_comes_first() {
    let names: Vec<String> = ["v9.0.0", "v20.11.0", "junk", "v18.19.1", "v20.11.0"]
        .iter()
        .map(|s| s.to_string())
        .collect();
    assert_eq!(newest_first(&names), vec![1, 4, 3, 0, 2]);
    assert_eq!(newest_first(&Vec::new()), Vec::<usize>::new());
}

#[test]
fn verbatim_prefix_without_drive_is_kept() {
    assert_eq!(strip_verbatim_prefix(r"\\?\GLOBALROOT\x"), r"\\?\GLOBALROOT\x".to_string());
    assert_eq!(strip_verbatim_prefix(r"\\?\1:\x"), r"\\?\1:\x".to_string());
    assert_eq!(strip_verbatim_prefix(r"\\?\d:"), "d:".to_string());
}

#[test]
fn batch_scripts_are_told_apart_by_extension() {
    assert!(is_batch_script("npx.cmd"));
    assert!(is_batch_script("RUN.BaT"));
    assert!(!is_batch_script("node.exe"));
    assert!(!is_batch_script(".cmd"));
    assert!(!is_batch_script("cmd"));
    assert!(!is_batch_script("a.cmd.exe"));
    assert!(is_batch_script("a.exe.cmd"));
}

#[test]
fn missing_node_message_names_the_escape_hatch() {
    assert_eq!(
        missing_node_message("DSH_DESKTOP_BACKEND"),
        "Node.js not found, which DSH_DESKTOP_BACKEND requires. Install Node.js 20 or newer, \
         or set DSH_DESKTOP_NODE to the full path of the `node` binary."
    );
}

#[test]
fn web_arguments_default_to_any_port() {
    assert_eq!(web_args(None), vec!["web", "--no-open", "--port", "0"]);
    assert_eq!(web_args(Some(" \t".to_string())), vec!["web", "--no-open", "--port", "0"]);
    assert_eq!(
        web_args(Some(" 5173\n".to_string())),
        vec!["web", "--no-open", "--port", "5173"]
    );
}

#[test]
fn describes_a_command() {
    let args = vec!["web".to_string(), "--port".to_string(), "0".to_string()];
    assert_eq!(describe("/usr/bin/dsh", &args), "/usr/bin/dsh web --port 0");
    assert_eq!(describe("dsh", &Vec::new()), "dsh ");
}

#[test]
fn budgets() {
    assert_eq!(Budget::local(), Budget { idle_ns: 45_000_000_000, total_ns: 45_000_000_000 });
    assert_eq!(Budget::bootstrap(), Budget { idle_ns: 150_000_000_000, total_ns: 2_700_000_000_000 });
}

#[test]
fn node_resolution_order() {
    assert_eq!(node_source(true, true), NodeSource::Explicit);
    assert_eq!(node_source(false, true), NodeSource::Bundled);
    assert_eq!(node_source(false, false), NodeSource::Search);
}

fn ready(r: Resolution) -> Launch {
    match r {
        Resolution::Ready(l) => l,
        _ => panic!("expected a launch"),
    }
}

fn failed(r: Resolution) -> String {
    match r {
        Resolution::Failed(m) => m,
        _ => panic!("expected a failure"),
    }
}

#[test]
fn explicit_backend_wins() {
    let l = ready(resolve_start(Some("/src/harness/lib/bin.js"), true));
    assert_eq!((l.program, l.script), (Tool::Node, Some(Tool::Backend)));
    assert_eq!(l.budget, Budget::local());
    assert!(l.fixed_args.is_empty() && l.env.is_none());
    let l = ready(resolve_start(Some("/opt/homebrew/bin/dsh"), false));
    assert_eq!((l.program, l.script), (Tool::Backend, None));
    let m = failed(resolve_start(Some("x.mjs"), false));
    assert_eq!(m, missing_node_message("DSH_DESKTOP_BACKEND"));
}

#[test]
fn falls_through_bundled_dsh_and_npx() {
    assert!(matches!(resolve_start(None, true), Resolution::ProbeBundled));
    assert!(matches!(resolve_start(None, false), Resolution::FindDsh));
    let l = ready(resolve_after_bundled(true));
    assert_eq!((l.program, l.script), (Tool::Node, Some(Tool::Bundled)));
    assert!(matches!(resolve_after_bundled(false), Resolution::FindDsh));
    let l = ready(resolve_after_dsh(true));
    assert_eq!((l.program, l.script), (Tool::Dsh, None));
    assert!(matches!(resolve_after_dsh(false), Resolution::FindNpx));
    let l = ready(resolve_after_npx(true, false));
    assert_eq!(l.program, Tool::Npx);
    assert_eq!(l.fixed_args, vec!["--yes", "@deepseek-ai/dsh@latest"]);
    assert_eq!(l.env, Some(("npm_config_loglevel".to_string(), "http".to_string())));
    assert_eq!(l.budget, Budget::bootstrap());
    assert_eq!(failed(resolve_after_npx(false, false)), missing_node_message("the bundled backend"));
    assert_eq!(
        failed(resolve_after_npx(false, true)),
        "no DeepSeek Harness backend found: set DSH_DESKTOP_BACKEND, run `npm run backend:install`, \
         or install Node.js and `dsh`"
    );
}

#[test]
fn only_stdout_is_scanned_for_the_url() {
    let line = "dsh web: http://127.0.0.1:54321".to_string();
    assert!(matches!(classify_line(line.clone(), true), Event::Url(u) if u == "http://127.0.0.1:54321"));
    assert!(matches!(classify_line(line.clone(), false), Event::Line(l) if l == line));
    assert!(matches!(classify_line("hello".to_string(), true), Event::Line(l) if l == "hello"));
}

fn line(s: &str) -> Wake {
    Wake::Event(Event::Line(s.to_string()))
}

#[test]
fn the_url_ends_the_start() {
    let mut st = Startup::new(Budget::local());
    let r = st.on_wake(Wake::Event(Event::Url("http://127.0.0.1:1".to_string())), 5, "dsh web");
    assert!(r.forward.is_none());
    assert!(matches!(r.verdict, Verdict::Ready(u) if u == "http://127.0.0.1:1"));
}

#[test]
fn progress_is_throttled() {
    let mut st = Startup::new(Budget::local());
    let r = st.on_wake(line("one"), 0, "d");
    assert_eq!(r.forward.as_deref(), Some("one"));
    assert!(matches!(r.verdict, Verdict::Waiting));
    // Showing the line took 10 ms; the 90 ms gap runs from when it was done.
    st.shown(10_000_000);
    assert!(st.on_wake(line("two"), 99_999_999, "d").forward.is_none());
    assert_eq!(st.on_wake(line("three"), 100_000_000, "d").forward.as_deref(), Some("three"));
    st.shown(100_000_000);
    assert!(st.on_wake(line("four"), 189_999_999, "d").forward.is_none());
    assert_eq!(st.on_wake(line("five"), 190_000_000, "d").forward.as_deref(), Some("five"));
}

#[test]
fn second_close_is_an_early_exit() {
    let mut st = Startup::new(Budget::local());
    assert!(matches!(st.on_wake(Wake::Event(Event::Closed), 1, "dsh web").verdict, Verdict::Waiting));
    let r = st.on_wake(Wake::Event(Event::Closed), 2, "dsh web");
    assert!(matches!(r.verdict, Verdict::Failed(m) if m == "backend exited before announcing its URL (dsh web)"));
    let mut st = Startup::new(Budget::local());
    let r = st.on_wake(Wake::Disconnected, 2, "x");
    assert!(matches!(r.verdict, Verdict::Failed(m) if m == "backend exited before announcing its URL (x)"));
}

#[test]
fn silence_and_the_total_budget_end_the_start() {
    let mut st = Startup::new(Budget::bootstrap());
    assert_eq!(st.idle_ns(), 150_000_000_000);
    let r = st.on_wake(Wake::TimedOut, 150_000_000_000, "npx");
    assert!(matches!(r.verdict, Verdict::Failed(m)
        if m == "backend did not become ready within 150s (npx)"));
    let mut st = Startup::new(Budget::local());
    let r = st.on_wake(Wake::TimedOut, 45_000_000_000, "dsh web");
    assert!(matches!(r.verdict, Verdict::Failed(m)
        if m == "backend did not become ready within 45s (dsh web)"));
    let mut st = Startup::new(Budget::local());
    assert!(matches!(st.on_wake(line("x"), 45_000_000_000, "d").verdict, Verdict::Waiting));
    let r = st.on_wake(line("y"), 45_000_000_001, "d");
    assert!(matches!(r.verdict, Verdict::Failed(m) if m == "backend did not become ready within 45s (d)"));
    let r = st.on_wake(Wake::Event(Event::Closed), 45_000_000_002, "d");
    assert!(matches!(r.verdict, Verdict::Failed(m) if m == "backend did not become ready within 45s (d)"));
}

#[test]
fn report_keeps_head_and_tail() {
    let mut st = Startup::new(Budget::local());
    assert_eq!(st.report("boom"), "boom");
    st.on_wake(line("a"), 0, "d");
    st.on_wake(line("b"), 0, "d");
    assert_eq!(st.report("boom"), "boom\n  a\n  b");

    let mut st = Startup::new(Budget::local());
    for i in 0..60 {
        st.on_wake(line(&format!("l{i}")), 0, "d");
    }
    let mut expected = vec!["boom".to_string()];
    for i in 0..25 {
        expected.push(format!("  l{i}"));
    }
    expected.push("  \u{2026} 10 more lines \u{2026}".to_string());
    for i in 35..60 {
        expected.push(format!("  l{i}"));
    }
    assert_eq!(st.report("boom"), expected.join("\n"));

    let mut st = Startup::new(Budget::local());
    for i in 0..50 {
        st.on_wake(line(&format!("l{i}")), 0, "d");
    }
    let mut expected = vec!["r".to_string()];
    for i in 0..50 {
        expected.push(format!("  l{i}"));
    }
    assert_eq!(st.report("r"), expected.join("\n"));
}

/// Follows the resolution steps, answering each lookup from the flags.
fn drive(backend: Option<&str>, has_node: bool, bundled: bool, dsh: bool, npx: bool) -> Resolution {
    let mut step = resolve_start(backend, has_node);
    loop {
        step = match step {
            Resolution::ProbeBundled => resolve_after_bundled(bundled),
            Resolution::FindDsh => resolve_after_dsh(dsh),
            Resolution::FindNpx => resolve_after_npx(npx, has_node),
            done => return done,
        };
    }
}

#[test]
fn the_first_available_backend_wins() {
    let l = ready(drive(None, true, true, true, true));
    assert_eq!((l.program, l.script), (Tool::Node, Some(Tool::Bundled)));
    // A bundled backend is no use without Node to run it.
    let l = ready(drive(None, false, true, true, true));
    assert_eq!((l.program, l.script), (Tool::Dsh, None));
    let l = ready(drive(None, true, false, false, true));
    assert_eq!(l.program, Tool::Npx);
    let l = ready(drive(Some("/usr/bin/dsh"), false, true, true, true));
    assert_eq!((l.program, l.script), (Tool::Backend, None));
    assert_eq!(
        failed(drive(None, false, false, false, false)),
        missing_node_message("the bundled backend")
    );
}
