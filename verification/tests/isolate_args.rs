use invoker::command::Command;
use invoker::isolate::{cleanup_args, init_args, inner_dir, run_args, sec_str, IsolateConfig};
use invoker::MaybeLimited;

#[test]
fn default_isolate_config() {
    let cfg = IsolateConfig::default();
    assert_eq!(cfg.sandboxes_count, 1000);
    assert_eq!(cfg.box_root, "/.invoker/isolate");
    assert_eq!(cfg.lock_root, "/run/isolate/locks");
    assert_eq!(cfg.cg_root, "/run/isolate/cgroup");
    assert_eq!(cfg.first_uid, 60000);
    assert_eq!(cfg.first_gid, 60000);
    assert!(!cfg.restricted_init);
    assert!(matches!(cfg.process_default_limit, MaybeLimited::Limited(1)));
    assert!(matches!(cfg.open_files_default_limit, MaybeLimited::Limited(2)));
    assert!(matches!(cfg.time_default_limit_ms, MaybeLimited::Limited(10000)));
    assert!(matches!(cfg.memory_default_limit, MaybeLimited::Limited(1048576)));
    assert!(matches!(cfg.stack_default_limit, MaybeLimited::Unlimited));
    assert_eq!(cfg.extra_time_default_limit_ms, 0);
}

#[test]
fn config_text_lists_every_key() {
    let cfg = IsolateConfig::default();
    assert_eq!(
        cfg.config_text(),
        "box_root=/.invoker/isolate\nlock_root=/run/isolate/locks\ncg_root=/run/isolate/cgroup\nfirst_uid=60000\nfirst_gid=60000\nnum_boxes=1000\nrestricted_init=0\n"
    );
}

#[test]
fn seconds_rendering_pads_three_places() {
    assert_eq!(sec_str(0), "0.000");
    assert_eq!(sec_str(185), "0.185");
    assert_eq!(sec_str(1500), "1.500");
    assert_eq!(sec_str(10000), "10.000");
    assert_eq!(sec_str(12), "0.012");
    assert_eq!(sec_str(2003), "2.003");
}

#[test]
fn inner_dir_is_slot_box() {
    assert_eq!(inner_dir("/.invoker/isolate", 7), "/.invoker/isolate/7/box");
}

#[test]
fn init_and_cleanup_args() {
    assert_eq!(init_args(3), vec!["--init", "--box-id=3"]);
    assert_eq!(cleanup_args(), vec!["--cleanup"]);
}

fn unlimited_config() -> IsolateConfig {
    let mut cfg = IsolateConfig::default();
    cfg.time_default_limit_ms = MaybeLimited::Unlimited;
    cfg.real_time_default_limit_ms = MaybeLimited::Unlimited;
    cfg.memory_default_limit = MaybeLimited::Unlimited;
    cfg.stack_default_limit = MaybeLimited::Unlimited;
    cfg.open_files_default_limit = MaybeLimited::Unlimited;
    cfg.process_default_limit = MaybeLimited::Unlimited;
    cfg
}

#[test]
fn unlimited_limits_emit_no_flags() {
    let cfg = unlimited_config();
    let cmd = Command::new("./solution.out");
    let args = run_args(&cfg, 2, &cmd);
    for flag in ["--time=", "--wall-time=", "--mem=", "--stack=", "--open-files=", "--processes="] {
        assert!(
            !args.iter().any(|a| a.starts_with(flag)),
            "an unlimited resource must not emit {flag}"
        );
    }
    assert!(args.iter().any(|a| a == "--processes"));
    assert!(args.iter().any(|a| a.starts_with("--extra-time=")));
}

#[test]
fn limited_run_args_in_order() {
    let cfg = IsolateConfig::default();
    let mut cmd = Command::new("./solution.out");
    cmd.arg("extra");
    cmd.time(MaybeLimited::Limited(1500));
    cmd.memory(MaybeLimited::Limited(262144));
    cmd.real_time(MaybeLimited::Limited(2000));
    cmd.stack(MaybeLimited::Limited(1024));
    cmd.count_files(MaybeLimited::Limited(4));
    cmd.count_process(MaybeLimited::Limited(1));
    cmd.stdin("in.txt");
    cmd.stdout("out.txt");
    cmd.use_env();
    cmd.open_dir("/.invoker");
    let args = run_args(&cfg, 5, &cmd);
    assert_eq!(
        args,
        vec![
            "--box-id=5",
            "--meta=/.invoker/isolate/5/box/meta",
            "--stdin=in.txt",
            "--stdout=out.txt",
            "--dir=/.invoker",
            "--time=1.500",
            "--wall-time=2.000",
            "--mem=262144",
            "--extra-time=0.000",
            "--stack=1024",
            "--open-files=4",
            "--processes=1",
            "--full-env",
            "--run",
            "--",
            "./solution.out",
            "extra",
        ]
    );
}

#[test]
fn command_limits_override_defaults() {
    let cfg = IsolateConfig::default();
    let mut cmd = Command::new("p");
    cmd.time(MaybeLimited::Unlimited);
    let args = run_args(&cfg, 0, &cmd);
    assert!(!args.iter().any(|a| a.starts_with("--time=")));
    // the default ten-second wall clock still applies
    assert!(args.iter().any(|a| a == "--wall-time=10.000"));
}
