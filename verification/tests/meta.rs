use invoker::sandbox::{interpret_meta, parse_meta_file, RunStatus};

fn interpret(s: &str) -> invoker::sandbox::RunResult {
    interpret_meta(&parse_meta_file(s)).expect("meta should interpret")
}

#[test]
fn meta_file_parsing() {
    let meta = "time:0.185
time-wall:0.331
max-rss:254360
csw-voluntary:6
csw-forced:5
exitsig:11
status:SG
message:Caught fatal signal 11
";
    let pairs = parse_meta_file(meta);
    assert_eq!(pairs.len(), 8);
    assert_eq!(pairs[0].0, "time");
    assert_eq!(pairs[0].1, "0.185");
    assert_eq!(pairs[5].0, "exitsig");
    assert_eq!(pairs[5].1, "11");
    let r = interpret(meta);
    assert_eq!(r.status, RunStatus::Ml);
    assert_eq!(r.time_ms, 185);
    assert_eq!(r.real_time_ms, 331);
    assert_eq!(r.memory, 254360);
    assert_eq!(r.status_message.as_deref(), Some("Caught fatal signal 11"));
    assert!(!r.killed);
}

#[test]
fn meta_missing_status_means_ok() {
    let r = interpret("time:0.1\ntime-wall:0.2\nmax-rss:1024\n");
    assert_eq!(r.status, RunStatus::Completed);
    assert_eq!(r.time_ms, 100);
    assert_eq!(r.real_time_ms, 200);
    assert_eq!(r.memory, 1024);
    assert_eq!(r.status_message, None);
}

#[test]
fn meta_signals_six_and_eleven_mean_memory() {
    let r6 = interpret("status:SG\nexitsig:6\ntime:0\ntime-wall:0\nmax-rss:1\n");
    assert_eq!(r6.status, RunStatus::Ml);
    let r11 = interpret("status:SG\nexitsig:11\ntime:0\ntime-wall:0\nmax-rss:1\n");
    assert_eq!(r11.status, RunStatus::Ml);
    let r9 = interpret("status:SG\nexitsig:9\ntime:0\ntime-wall:0\nmax-rss:1\n");
    assert_eq!(r9.status, RunStatus::Sg(9));
}

#[test]
fn meta_timeout_and_runtime_error() {
    let to = interpret("status:TO\ntime:2.0\ntime-wall:2.1\nmax-rss:10\n");
    assert_eq!(to.status, RunStatus::Tl);
    assert_eq!(to.time_ms, 2000);
    let re = interpret("status:RE\nexitcode:1\ntime:0.5\ntime-wall:0.5\nmax-rss:10\n");
    assert_eq!(re.status, RunStatus::Re(1));
}

#[test]
fn meta_unknown_keys_are_ignored() {
    let base = "time:0.1\ntime-wall:0.2\nmax-rss:1024\n";
    let extra = "time:0.1\nstrange-key:whatever\ntime-wall:0.2\nmax-rss:1024\nanother: x:y:z\n";
    let a = interpret(base);
    let b = interpret(extra);
    assert_eq!(a.status, b.status);
    assert_eq!(a.time_ms, b.time_ms);
    assert_eq!(a.real_time_ms, b.real_time_ms);
    assert_eq!(a.memory, b.memory);
    assert_eq!(a.killed, b.killed);
}

#[test]
fn meta_parser_is_total_on_garbage() {
    for s in [
        "",
        "\n\n\n",
        "::::",
        "no separators here",
        "a:b",
        "status:",
        "status:??\n",
        ":value-with-empty-key\n",
        "key:value:with:more:colons\n",
        "\u{0}\u{1}:\u{2}\n",
    ] {
        let pairs = parse_meta_file(s);
        let _ = interpret_meta(&pairs);
    }
}

#[test]
fn meta_malformed_is_an_error() {
    assert!(interpret_meta(&parse_meta_file("status:XX\ntime:0\ntime-wall:0\nmax-rss:1\n")).is_err());
    assert!(interpret_meta(&parse_meta_file("status:RE\ntime:0\ntime-wall:0\nmax-rss:1\n")).is_err());
    assert!(interpret_meta(&parse_meta_file("status:SG\nexitsig:abc\ntime:0\ntime-wall:0\nmax-rss:1\n")).is_err());
    assert!(interpret_meta(&parse_meta_file("time:0\ntime-wall:0\n")).is_err());
    assert!(interpret_meta(&parse_meta_file("time:zero\ntime-wall:0\nmax-rss:1\n")).is_err());
}

#[test]
fn meta_killed_flag() {
    let k = interpret("time:0\ntime-wall:0\nmax-rss:1\nkilled:1\n");
    assert!(k.killed);
    let nk = interpret("time:0\ntime-wall:0\nmax-rss:1\nkilled:0\n");
    assert!(!nk.killed);
}

#[test]
fn meta_trailing_blank_lines_accepted() {
    let r = interpret("time:0.1\ntime-wall:0.2\nmax-rss:7\n\n\n");
    assert_eq!(r.memory, 7);
}

#[test]
fn meta_last_occurrence_wins() {
    let r = interpret("max-rss:1\ntime:0\ntime-wall:0\nmax-rss:99\n");
    assert_eq!(r.memory, 99);
}
