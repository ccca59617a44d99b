use invoker::judge::Lang;
use invoker::manifest::{parse, serialize, Group, Limits, Problem, TestsRange, Type};

fn sample() -> Problem {
    Problem {
        typ: Type::Standard,
        lang: Lang::Gpp,
        limits: Limits { time_ms: 1000, real_time_ms: 2000, memory: 262144, stack: Some(1024) },
        groups: vec![
            Group { id: 0, range: TestsRange(1, 2), cost: 30, depends: vec![] },
            Group { id: 1, range: TestsRange(3, 5), cost: 70, depends: vec![0] },
        ],
    }
}

fn assert_same(a: &Problem, b: &Problem) {
    assert_eq!(a.typ, b.typ);
    assert_eq!(a.lang, b.lang);
    assert_eq!(a.limits.time_ms, b.limits.time_ms);
    assert_eq!(a.limits.real_time_ms, b.limits.real_time_ms);
    assert_eq!(a.limits.memory, b.limits.memory);
    assert_eq!(a.limits.stack, b.limits.stack);
    assert_eq!(a.groups.len(), b.groups.len());
    for (x, y) in a.groups.iter().zip(b.groups.iter()) {
        assert_eq!(x.id, y.id);
        assert_eq!(x.range.0, y.range.0);
        assert_eq!(x.range.1, y.range.1);
        assert_eq!(x.cost, y.cost);
        assert_eq!(x.depends, y.depends);
    }
}

#[test]
fn serialize_renders_canonical_text() {
    let text = serialize(&sample());
    assert_eq!(
        text,
        "type: standard\nlang: g++\nlimits:\n  time: 1.000\n  real_time: 2.000\n  memory: 262144\n  stack: 1024\ngroups:\n  - id: 0\n    range: [1,2]\n    cost: 30\n    depends: []\n  - id: 1\n    range: [3,5]\n    cost: 70\n    depends: [0]"
    );
}

#[test]
fn parse_inverts_serialize() {
    let p = sample();
    let back = parse(serialize(&p).as_str()).expect("a rendered manifest parses");
    assert_same(&p, &back);
}

#[test]
fn parse_inverts_serialize_without_stack() {
    let mut p = sample();
    p.typ = Type::Interactive;
    p.lang = Lang::Python;
    p.limits.stack = None;
    p.groups = vec![Group { id: 0, range: TestsRange(7, 7), cost: 0, depends: vec![] }];
    let back = parse(serialize(&p).as_str()).expect("a rendered manifest parses");
    assert_same(&p, &back);
}

#[test]
fn parse_reads_handwritten_text() {
    let text = "type: interactive\nlang: python3\nlimits:\n  time: 0.5\n  real_time: 0.9\n  memory: 65536\ngroups:\n  - id: 0\n    range: [1,1]\n    cost: 100\n    depends: []";
    let p = parse(text).expect("canonical text parses");
    assert_eq!(p.typ, Type::Interactive);
    assert_eq!(p.lang, Lang::Python);
    assert_eq!(p.limits.time_ms, 500);
    assert_eq!(p.limits.real_time_ms, 900);
    assert_eq!(p.limits.stack, None);
    assert_eq!(p.groups.len(), 1);
    assert_eq!(p.groups[0].cost, 100);
}

#[test]
fn parse_reads_times_as_seconds() {
    // a bare integer is whole seconds, a fraction scales to milliseconds
    let text = "type: standard\nlang: g++\nlimits:\n  time: 1\n  real_time: 1.5\n  memory: 1\ngroups:";
    let p = parse(text).expect("seconds parse");
    assert_eq!(p.limits.time_ms, 1000);
    assert_eq!(p.limits.real_time_ms, 1500);
}

#[test]
fn parse_accepts_limits_keys_in_any_order() {
    let text = "type: standard\nlang: g++\nlimits:\n  memory: 65536\n  stack: 1024\n  real_time: 2\n  time: 1\ngroups:\n  - id: 0\n    range: [1,1]\n    cost: 5\n    depends: []";
    let p = parse(text).expect("reordered limits parse");
    assert_eq!(p.limits.time_ms, 1000);
    assert_eq!(p.limits.real_time_ms, 2000);
    assert_eq!(p.limits.memory, 65536);
    assert_eq!(p.limits.stack, Some(1024));
}

#[test]
fn parse_accepts_spaces_in_lists_and_values() {
    let text = "type: standard\nlang: g++\nlimits:\n  time:  1.5 \n  real_time: 3\n  memory:  256 \ngroups:\n  - id: 0\n    range: [1, 2]\n    cost:  7 \n    depends: []\n  - id: 1\n    range: [ 3 , 4 ]\n    cost: 3\n    depends: [0, 1]";
    let p = parse(text).expect("spaced values parse");
    assert_eq!(p.limits.time_ms, 1500);
    assert_eq!(p.limits.memory, 256);
    assert_eq!(p.groups[0].range.0, 1);
    assert_eq!(p.groups[0].range.1, 2);
    assert_eq!(p.groups[0].cost, 7);
    assert_eq!(p.groups[1].range.0, 3);
    assert_eq!(p.groups[1].range.1, 4);
    assert_eq!(p.groups[1].depends, vec![0, 1]);
}

#[test]
fn parse_requires_every_mandatory_limit() {
    // real_time missing
    assert!(parse("type: standard\nlang: g++\nlimits:\n  time: 1\n  memory: 1\ngroups:").is_none());
    // an unknown key inside the limits block
    assert!(parse("type: standard\nlang: g++\nlimits:\n  time: 1\n  real_time: 1\n  memory: 1\n  fuel: 3\ngroups:").is_none());
}

#[test]
fn parse_rejects_malformed_manifests() {
    assert!(parse("").is_none());
    assert!(parse("type: weird\nlang: g++\nlimits:\n  time: 1\n  real_time: 1\n  memory: 1\ngroups:").is_none());
    // a dependency that names no group
    assert!(parse("type: standard\nlang: g++\nlimits:\n  time: 1\n  real_time: 1\n  memory: 1\ngroups:\n  - id: 0\n    range: [1,1]\n    cost: 1\n    depends: [5]").is_none());
    // a backwards range
    assert!(parse("type: standard\nlang: g++\nlimits:\n  time: 1\n  real_time: 1\n  memory: 1\ngroups:\n  - id: 0\n    range: [3,1]\n    cost: 1\n    depends: []").is_none());
    // ids out of order
    assert!(parse("type: standard\nlang: g++\nlimits:\n  time: 1\n  real_time: 1\n  memory: 1\ngroups:\n  - id: 1\n    range: [1,1]\n    cost: 1\n    depends: []").is_none());
    // a number that is no number
    assert!(parse("type: standard\nlang: g++\nlimits:\n  time: soon\n  real_time: 1\n  memory: 1\ngroups:").is_none());
    // a truncated group record
    assert!(parse("type: standard\nlang: g++\nlimits:\n  time: 1\n  real_time: 1\n  memory: 1\ngroups:\n  - id: 0\n    range: [1,1]").is_none());
}

#[test]
fn parse_accepts_empty_groups() {
    let p = parse("type: standard\nlang: g++\nlimits:\n  time: 1\n  real_time: 1\n  memory: 1\ngroups:")
        .expect("a manifest with no groups parses");
    assert_eq!(p.groups.len(), 0);
}
