use vstd::prelude::*;

use crate::MaybeLimited;
use crate::command::{Command, CommandView};
use crate::numbers::{spec_digits, u64_to_string};
use crate::text::starts_with;

verus! {

/// Settings of the jail service: slot count, default limits and root paths.
/// Times are milliseconds, sizes KiB.
#[derive(Debug, Clone)]
pub struct IsolateConfig {
    pub sandboxes_count: usize,
    pub process_default_limit: MaybeLimited<u64>,
    pub open_files_default_limit: MaybeLimited<u64>,
    pub memory_default_limit: MaybeLimited<u64>,
    pub stack_default_limit: MaybeLimited<u64>,
    pub time_default_limit_ms: MaybeLimited<u64>,
    pub extra_time_default_limit_ms: u64,
    pub real_time_default_limit_ms: MaybeLimited<u64>,
    pub box_root: String,
    pub lock_root: String,
    pub cg_root: String,
    pub first_uid: u64,
    pub first_gid: u64,
    pub restricted_init: bool,
}

/// Mathematical image of an `IsolateConfig`.
pub ghost struct IsolateConfigView {
    pub sandboxes_count: usize,
    pub process_default_limit: MaybeLimited<u64>,
    pub open_files_default_limit: MaybeLimited<u64>,
    pub memory_default_limit: MaybeLimited<u64>,
    pub stack_default_limit: MaybeLimited<u64>,
    pub time_default_limit_ms: MaybeLimited<u64>,
    pub extra_time_default_limit_ms: u64,
    pub real_time_default_limit_ms: MaybeLimited<u64>,
    pub box_root: Seq<char>,
    pub lock_root: Seq<char>,
    pub cg_root: Seq<char>,
    pub first_uid: u64,
    pub first_gid: u64,
    pub restricted_init: bool,
}

impl View for IsolateConfig {
    type V = IsolateConfigView;

    open spec fn view(&self) -> IsolateConfigView {
        IsolateConfigView {
            sandboxes_count: self.sandboxes_count,
            process_default_limit: self.process_default_limit,
            open_files_default_limit: self.open_files_default_limit,
            memory_default_limit: self.memory_default_limit,
            stack_default_limit: self.stack_default_limit,
            time_default_limit_ms: self.time_default_limit_ms,
            extra_time_default_limit_ms: self.extra_time_default_limit_ms,
            real_time_default_limit_ms: self.real_time_default_limit_ms,
            box_root: self.box_root@,
            lock_root: self.lock_root@,
            cg_root: self.cg_root@,
            first_uid: self.first_uid,
            first_gid: self.first_gid,
            restricted_init: self.restricted_init,
        }
    }
}

impl Default for IsolateConfig {
    /// A thousand slots under `/.invoker/isolate`, one process and two open
    /// files per run, ten seconds of cpu and wall time, a GiB of memory,
    /// unlimited stack.
    fn default() -> (r: Self)
        ensures
            r@.sandboxes_count == 1000,
            r@.box_root == "/.invoker/isolate"@,
            r@.lock_root == "/run/isolate/locks"@,
            r@.cg_root == "/run/isolate/cgroup"@,
            r@.first_uid == 60000,
            r@.first_gid == 60000,
            !r@.restricted_init,
            r@.process_default_limit == MaybeLimited::Limited(1u64),
            r@.open_files_default_limit == MaybeLimited::Limited(2u64),
            r@.time_default_limit_ms == MaybeLimited::Limited(10000u64),
            r@.extra_time_default_limit_ms == 0,
            r@.real_time_default_limit_ms == MaybeLimited::Limited(10000u64),
            r@.memory_default_limit == MaybeLimited::Limited((1u64 << 20)),
            r@.stack_default_limit == MaybeLimited::<u64>::Unlimited,
    {
        IsolateConfig {
            sandboxes_count: 1000,
            process_default_limit: MaybeLimited::Limited(1),
            open_files_default_limit: MaybeLimited::Limited(2),
            memory_default_limit: MaybeLimited::Limited(1u64 << 20),
            stack_default_limit: MaybeLimited::Unlimited,
            time_default_limit_ms: MaybeLimited::Limited(10000),
            extra_time_default_limit_ms: 0,
            real_time_default_limit_ms: MaybeLimited::Limited(10000),
            box_root: String::from_str("/.invoker/isolate"),
            lock_root: String::from_str("/run/isolate/locks"),
            cg_root: String::from_str("/run/isolate/cgroup"),
            first_uid: 60000,
            first_gid: 60000,
            restricted_init: false,
        }
    }
}

/// The text written to the jail's own configuration file.
pub open spec fn spec_config_text(c: IsolateConfigView) -> Seq<char> {
    "box_root="@ + c.box_root + "\nlock_root="@ + c.lock_root + "\ncg_root="@ + c.cg_root
        + "\nfirst_uid="@ + spec_digits(c.first_uid as nat) + "\nfirst_gid="@ + spec_digits(
        c.first_gid as nat,
    ) + "\nnum_boxes="@ + spec_digits(c.sandboxes_count as nat) + "\nrestricted_init="@ + (
    if c.restricted_init {
        "1"@
    } else {
        "0"@
    }) + "\n"@
}

impl IsolateConfig {
    /// Renders the jail's configuration file, one `key=value` per line.
    pub fn config_text(&self) -> (r: String)
        ensures
            r@ == spec_config_text(self@),
    {
        let mut r = String::from_str("box_root=");
        r.append(self.box_root.as_str());
        r.append("\nlock_root=");
        r.append(self.lock_root.as_str());
        r.append("\ncg_root=");
        r.append(self.cg_root.as_str());
        r.append("\nfirst_uid=");
        let uid = u64_to_string(self.first_uid);
        r.append(uid.as_str());
        r.append("\nfirst_gid=");
        let gid = u64_to_string(self.first_gid);
        r.append(gid.as_str());
        r.append("\nnum_boxes=");
        let cnt = u64_to_string(self.sandboxes_count as u64);
        r.append(cnt.as_str());
        r.append("\nrestricted_init=");
        if self.restricted_init {
            r.append("1");
        } else {
            r.append("0");
        }
        r.append("\n");
        r
    }
}

/// Three zero-padded digits for a thousandth part.
pub open spec fn spec_pad3(r: nat) -> Seq<char> {
    if r < 10 {
        seq!['0', '0'] + spec_digits(r)
    } else if r < 100 {
        seq!['0'] + spec_digits(r)
    } else {
        spec_digits(r)
    }
}

/// A millisecond count written as decimal seconds, always three places:
/// 1500 becomes `1.500`.
pub open spec fn spec_sec_str(ms: u64) -> Seq<char> {
    spec_digits((ms / 1000) as nat) + seq!['.'] + spec_pad3((ms % 1000) as nat)
}

/// Renders milliseconds as a seconds string with three decimal places.
pub fn sec_str(ms: u64) -> (r: String)
    ensures
        r@ == spec_sec_str(ms),
{
    let mut r = u64_to_string(ms / 1000);
    r.append(".");
    proof {
        reveal_strlit(".");
        assert("."@ =~= seq!['.']);
        reveal_strlit("0");
        assert("0"@ =~= seq!['0']);
        assert(("0"@ + "0"@) =~= seq!['0', '0']);
    }
    let frac = ms % 1000;
    if frac < 10 {
        r.append("0");
        r.append("0");
    } else if frac < 100 {
        r.append("0");
    }
    let fs = u64_to_string(frac);
    r.append(fs.as_str());
    proof {
        if frac < 10 {
            assert(r@ =~= spec_sec_str(ms));
        } else if frac < 100 {
            assert(r@ =~= spec_sec_str(ms));
        } else {
            assert(r@ =~= spec_sec_str(ms));
        }
    }
    r
}

/// The limit a run gets: the command's own where set, else the pool default.
pub open spec fn eff_time(c: CommandView, g: IsolateConfigView) -> MaybeLimited<u64> {
    match c.time_limit {
        Some(l) => l,
        None => g.time_default_limit_ms,
    }
}

pub open spec fn eff_real_time(c: CommandView, g: IsolateConfigView) -> MaybeLimited<u64> {
    match c.real_time_limit {
        Some(l) => l,
        None => g.real_time_default_limit_ms,
    }
}

pub open spec fn eff_memory(c: CommandView, g: IsolateConfigView) -> MaybeLimited<u64> {
    match c.memory_limit {
        Some(l) => l,
        None => g.memory_default_limit,
    }
}

pub open spec fn eff_extra_time(c: CommandView, g: IsolateConfigView) -> u64 {
    match c.extra_time_limit {
        Some(l) => l,
        None => g.extra_time_default_limit_ms,
    }
}

pub open spec fn eff_stack(c: CommandView, g: IsolateConfigView) -> MaybeLimited<u64> {
    match c.stack_limit {
        Some(l) => l,
        None => g.stack_default_limit,
    }
}

pub open spec fn eff_files(c: CommandView, g: IsolateConfigView) -> MaybeLimited<u64> {
    match c.count_files_limit {
        Some(l) => l,
        None => g.open_files_default_limit,
    }
}

pub open spec fn eff_process(c: CommandView, g: IsolateConfigView) -> MaybeLimited<u64> {
    match c.count_process_limit {
        Some(l) => l,
        None => g.process_default_limit,
    }
}

pub open spec fn spec_num_flag(prefix: Seq<char>, l: MaybeLimited<u64>) -> Seq<Seq<char>> {
    match l {
        MaybeLimited::Limited(v) => seq![prefix + spec_digits(v as nat)],
        MaybeLimited::Unlimited => Seq::empty(),
    }
}

pub open spec fn spec_sec_flag(prefix: Seq<char>, l: MaybeLimited<u64>) -> Seq<Seq<char>> {
    match l {
        MaybeLimited::Limited(v) => seq![prefix + spec_sec_str(v)],
        MaybeLimited::Unlimited => Seq::empty(),
    }
}

/// The limit flags one run gets, in the order they are passed: cpu time, wall
/// time, memory, extra time (always), stack, open files, processes (bare when
/// unlimited), environment.
pub open spec fn spec_limit_flags(c: CommandView, g: IsolateConfigView) -> Seq<Seq<char>> {
    spec_sec_flag("--time="@, eff_time(c, g)) + spec_sec_flag("--wall-time="@, eff_real_time(c, g))
        + spec_num_flag("--mem="@, eff_memory(c, g)) + seq![
        "--extra-time="@ + spec_sec_str(eff_extra_time(c, g)),
    ] + spec_num_flag("--stack="@, eff_stack(c, g)) + spec_num_flag(
        "--open-files="@,
        eff_files(c, g),
    ) + (match eff_process(c, g) {
        MaybeLimited::Limited(v) => seq!["--processes="@ + spec_digits(v as nat)],
        MaybeLimited::Unlimited => seq!["--processes"@],
    }) + (if c.use_env {
        seq!["--full-env"@]
    } else {
        Seq::<Seq<char>>::empty()
    })
}

/// The jailed root of one slot: `{box_root}/{id}/box`.
pub open spec fn spec_inner_dir(box_root: Seq<char>, id: usize) -> Seq<char> {
    box_root + "/"@ + spec_digits(id as nat) + "/box"@
}

/// Builds `{box_root}/{id}/box`, the directory a leased slot exposes.
pub fn inner_dir(box_root: &str, id: usize) -> (r: String)
    ensures
        r@ == spec_inner_dir(box_root@, id),
{
    let mut r = String::from_str(box_root);
    r.append("/");
    let ds = u64_to_string(id as u64);
    r.append(ds.as_str());
    r.append("/box");
    r
}

/// Every argument handed to the jail for one run, in order: the slot, the meta
/// path, redirections, bound directories, the limit flags, then `--run --`
/// and the target program with its arguments.
pub open spec fn spec_run_args(c: CommandView, g: IsolateConfigView, id: usize) -> Seq<Seq<char>> {
    seq![
        "--box-id="@ + spec_digits(id as nat),
        "--meta="@ + spec_inner_dir(g.box_root, id) + "/meta"@,
    ] + spec_redirect_flags(c) + c.open_dirs.map_values(|d: Seq<char>| "--dir="@ + d)
        + spec_limit_flags(c, g) + seq!["--run"@, "--"@, c.program] + c.args
}

pub open spec fn strs_view(v: Seq<String>) -> Seq<Seq<char>> {
    v.map_values(|a: String| a@)
}

fn push_str(v: &mut Vec<String>, s: String)
    ensures
        strs_view(final(v)@) == strs_view(old(v)@).push(s@),
{
    v.push(s);
    proof {
        assert(strs_view(v@) =~= strs_view(old(v)@).push(s@));
    }
}

fn flag_kv(prefix: &str, value: &str) -> (r: String)
    ensures
        r@ == prefix@ + value@,
{
    let mut s = String::from_str(prefix);
    s.append(value);
    s
}

/// The redirection flags one command asks for, in order.
pub open spec fn spec_redirect_flags(c: CommandView) -> Seq<Seq<char>> {
    (match c.stdin {
        Some(p) => seq!["--stdin="@ + p],
        None => Seq::<Seq<char>>::empty(),
    }) + (match c.stdout {
        Some(p) => seq!["--stdout="@ + p],
        None => Seq::<Seq<char>>::empty(),
    }) + (match c.stderr {
        Some(p) => seq!["--stderr="@ + p],
        None => Seq::<Seq<char>>::empty(),
    })
}

fn redirect_args(target: &Command) -> (r: Vec<String>)
    ensures
        strs_view(r@) == spec_redirect_flags(target@),
{
    let mut v: Vec<String> = Vec::new();
    match &target.stdin {
        Some(p) => push_str(&mut v, flag_kv("--stdin=", p.as_str())),
        None => (),
    }
    match &target.stdout {
        Some(p) => push_str(&mut v, flag_kv("--stdout=", p.as_str())),
        None => (),
    }
    match &target.stderr {
        Some(p) => push_str(&mut v, flag_kv("--stderr=", p.as_str())),
        None => (),
    }
    proof {
        assert(strs_view(v@) =~= spec_redirect_flags(target@));
    }
    v
}

/// Builds the limit flags for one run, the command's own limits over the
/// defaults.
#[verifier::rlimit(100)]
#[verifier::spinoff_prover]
pub fn limit_args(cfg: &IsolateConfig, target: &Command) -> (r: Vec<String>)
    ensures
        strs_view(r@) == spec_limit_flags(target@, cfg@),
{
    let ghost c = target@;
    let ghost g = cfg@;
    let mut v: Vec<String> = Vec::new();
    match opt_or(&target.time_limit, &cfg.time_default_limit_ms) {
        MaybeLimited::Limited(t) => {
            let ts = sec_str(t);
            push_str(&mut v, flag_kv("--time=", ts.as_str()));
        },
        MaybeLimited::Unlimited => (),
    }
    let ghost p1 = spec_sec_flag("--time="@, eff_time(c, g));
    proof {
        assert(strs_view(v@) =~= p1);
    }
    match opt_or(&target.real_time_limit, &cfg.real_time_default_limit_ms) {
        MaybeLimited::Limited(t) => {
            let ts = sec_str(t);
            push_str(&mut v, flag_kv("--wall-time=", ts.as_str()));
        },
        MaybeLimited::Unlimited => (),
    }
    let ghost p2 = p1 + spec_sec_flag("--wall-time="@, eff_real_time(c, g));
    proof {
        assert(strs_view(v@) =~= p2);
    }
    match opt_or(&target.memory_limit, &cfg.memory_default_limit) {
        MaybeLimited::Limited(m) => {
            let ms = u64_to_string(m);
            push_str(&mut v, flag_kv("--mem=", ms.as_str()));
        },
        MaybeLimited::Unlimited => (),
    }
    let ghost p3 = p2 + spec_num_flag("--mem="@, eff_memory(c, g));
    proof {
        assert(strs_view(v@) =~= p3);
    }
    let extra = match &target.extra_time_limit {
        Some(e) => *e,
        None => cfg.extra_time_default_limit_ms,
    };
    let es = sec_str(extra);
    push_str(&mut v, flag_kv("--extra-time=", es.as_str()));
    let ghost p4 = p3 + seq!["--extra-time="@ + spec_sec_str(eff_extra_time(c, g))];
    proof {
        assert(strs_view(v@) =~= p4);
    }
    match opt_or(&target.stack_limit, &cfg.stack_default_limit) {
        MaybeLimited::Limited(m) => {
            let ms = u64_to_string(m);
            push_str(&mut v, flag_kv("--stack=", ms.as_str()));
        },
        MaybeLimited::Unlimited => (),
    }
    let ghost p5 = p4 + spec_num_flag("--stack="@, eff_stack(c, g));
    proof {
        assert(strs_view(v@) =~= p5);
    }
    match opt_or(&target.count_files_limit, &cfg.open_files_default_limit) {
        MaybeLimited::Limited(m) => {
            let ms = u64_to_string(m);
            push_str(&mut v, flag_kv("--open-files=", ms.as_str()));
        },
        MaybeLimited::Unlimited => (),
    }
    let ghost p6 = p5 + spec_num_flag("--open-files="@, eff_files(c, g));
    proof {
        assert(strs_view(v@) =~= p6);
    }
    match opt_or(&target.count_process_limit, &cfg.process_default_limit) {
        MaybeLimited::Limited(m) => {
            let ms = u64_to_string(m);
            push_str(&mut v, flag_kv("--processes=", ms.as_str()));
        },
        MaybeLimited::Unlimited => {
            push_str(&mut v, String::from_str("--processes"));
        },
    }
    let ghost p7 = p6 + (match eff_process(c, g) {
        MaybeLimited::Limited(m) => seq!["--processes="@ + spec_digits(m as nat)],
        MaybeLimited::Unlimited => seq!["--processes"@],
    });
    proof {
        assert(strs_view(v@) =~= p7);
    }
    if target.use_env {
        push_str(&mut v, String::from_str("--full-env"));
    }
    let ghost p8 = p7 + (if c.use_env {
        seq!["--full-env"@]
    } else {
        Seq::<Seq<char>>::empty()
    });
    proof {
        assert(strs_view(v@) =~= p8);
        assert(p8 =~= spec_limit_flags(c, g));
    }
    v
}

fn append_strs(v: &mut Vec<String>, other: Vec<String>)
    ensures
        strs_view(final(v)@) == strs_view(old(v)@) + strs_view(other@),
{
    let mut i: usize = 0;
    let n = other.len();
    proof {
        assert(strs_view(v@) =~= strs_view(old(v)@) + strs_view(other@).take(0));
    }
    while i < n
        invariant
            n == other@.len(),
            0 <= i <= n,
            strs_view(v@) == strs_view(old(v)@) + strs_view(other@).take(i as int),
        decreases n - i,
    {
        push_str(v, String::from_str(other[i].as_str()));
        proof {
            let m = strs_view(other@);
            assert(m.take(i + 1) =~= m.take(i as int).push(m[i as int]));
            assert((strs_view(old(v)@) + m.take(i as int)).push(m[i as int]) =~= strs_view(
                old(v)@,
            ) + m.take(i + 1));
        }
        i = i + 1;
    }
    proof {
        assert(strs_view(other@).take(n as int) =~= strs_view(other@));
    }
}

/// Builds the jail's argument list for one run of `target` in slot `id`.
pub fn run_args(cfg: &IsolateConfig, id: usize, target: &Command) -> (r: Vec<String>)
    ensures
        strs_view(r@) == spec_run_args(target@, cfg@, id),
{
    let ghost c = target@;
    let ghost g = cfg@;
    let mut v: Vec<String> = Vec::new();
    let ids = u64_to_string(id as u64);
    push_str(&mut v, flag_kv("--box-id=", ids.as_str()));
    let root = inner_dir(cfg.box_root.as_str(), id);
    let mut meta = flag_kv("--meta=", root.as_str());
    meta.append("/meta");
    push_str(&mut v, meta);
    let ghost part0 = seq![
        "--box-id="@ + spec_digits(id as nat),
        "--meta="@ + spec_inner_dir(g.box_root, id) + "/meta"@,
    ];
    proof {
        assert(strs_view(v@) =~= part0);
    }
    append_strs(&mut v, redirect_args(target));
    let ghost part3 = part0 + spec_redirect_flags(c);
    let ghost dirflags = c.open_dirs.map_values(|d: Seq<char>| "--dir="@ + d);
    let mut i: usize = 0;
    let ndirs = target.open_dirs.len();
    proof {
        assert(strs_view(v@) =~= part3 + dirflags.take(0));
    }
    while i < ndirs
        invariant
            ndirs == target.open_dirs@.len(),
            0 <= i <= ndirs,
            dirflags == target@.open_dirs.map_values(|d: Seq<char>| "--dir="@ + d),
            part3 == seq![
                "--box-id="@ + spec_digits(id as nat),
                "--meta="@ + spec_inner_dir(cfg@.box_root, id) + "/meta"@,
            ] + spec_redirect_flags(target@),
            strs_view(v@) == part3 + dirflags.take(i as int),
        decreases ndirs - i,
    {
        push_str(&mut v, flag_kv("--dir=", target.open_dirs[i].as_str()));
        proof {
            assert(dirflags[i as int] == "--dir="@ + target.open_dirs@[i as int]@);
            assert(dirflags.take(i + 1) =~= dirflags.take(i as int).push(dirflags[i as int]));
            assert((part3 + dirflags.take(i as int)).push(dirflags[i as int]) =~= part3
                + dirflags.take(i + 1));
        }
        i = i + 1;
    }
    let ghost part4 = part3 + dirflags;
    proof {
        assert(dirflags.take(ndirs as int) =~= dirflags);
    }
    append_strs(&mut v, limit_args(cfg, target));
    let ghost part12 = part4 + spec_limit_flags(c, g);
    push_str(&mut v, String::from_str("--run"));
    push_str(&mut v, String::from_str("--"));
    push_str(&mut v, String::from_str(target.program.as_str()));
    let ghost part13 = part12 + seq!["--run"@, "--"@, c.program];
    proof {
        assert(strs_view(v@) =~= part13);
    }
    let mut j: usize = 0;
    let nargs = target.args.len();
    proof {
        assert(strs_view(v@) =~= part13 + c.args.take(0));
    }
    while j < nargs
        invariant
            nargs == target.args@.len(),
            0 <= j <= nargs,
            c == target@,
            strs_view(v@) == part13 + c.args.take(j as int),
        decreases nargs - j,
    {
        push_str(&mut v, String::from_str(target.args[j].as_str()));
        proof {
            assert(c.args[j as int] == target.args@[j as int]@);
            assert(c.args.take(j + 1) =~= c.args.take(j as int).push(c.args[j as int]));
            assert((part13 + c.args.take(j as int)).push(c.args[j as int]) =~= part13 + c.args.take(
                j + 1,
            ));
        }
        j = j + 1;
    }
    proof {
        assert(c.args.take(nargs as int) =~= c.args);
        assert(strs_view(v@) =~= spec_run_args(c, g, id));
    }
    v
}

fn opt_or(field: &Option<MaybeLimited<u64>>, dflt: &MaybeLimited<u64>) -> (r: MaybeLimited<u64>)
    ensures
        r == (match *field {
            Some(l) => l,
            None => *dflt,
        }),
{
    match field {
        Some(l) => *l,
        None => *dflt,
    }
}

/// The arguments that set one slot up.
pub fn init_args(id: usize) -> (r: Vec<String>)
    ensures
        strs_view(r@) == seq!["--init"@, "--box-id="@ + spec_digits(id as nat)],
{
    let mut v: Vec<String> = Vec::new();
    push_str(&mut v, String::from_str("--init"));
    let ids = u64_to_string(id as u64);
    push_str(&mut v, flag_kv("--box-id=", ids.as_str()));
    proof {
        assert(strs_view(v@) =~= seq!["--init"@, "--box-id="@ + spec_digits(id as nat)]);
    }
    v
}

/// The argument that tears every slot down.
pub fn cleanup_args() -> (r: Vec<String>)
    ensures
        strs_view(r@) == seq!["--cleanup"@],
{
    let mut v: Vec<String> = Vec::new();
    push_str(&mut v, String::from_str("--cleanup"));
    proof {
        assert(strs_view(v@) =~= seq!["--cleanup"@]);
    }
    v
}

proof fn lemma_prefix_differs(s: Seq<char>, p: Seq<char>, j: int)
    requires
        0 <= j < p.len(),
        j < s.len(),
        s[j] != p[j],
    ensures
        !starts_with(s, p),
{
    if starts_with(s, p) {
        assert(s.take(p.len() as int)[j] == s[j]);
    }
}

/// An unlimited resource emits no flag of its own: no argument among the limit
/// flags begins with the corresponding `--name=`. The process count is the one
/// exception: unlimited processes emit the bare `--processes`.
pub proof fn lemma_unlimited_emits_no_flag(c: CommandView, g: IsolateConfigView)
    ensures
        eff_time(c, g) is Unlimited ==> forall|k: int|
            0 <= k < spec_limit_flags(c, g).len() ==> !starts_with(
                #[trigger] spec_limit_flags(c, g)[k],
                "--time="@,
            ),
        eff_real_time(c, g) is Unlimited ==> forall|k: int|
            0 <= k < spec_limit_flags(c, g).len() ==> !starts_with(
                #[trigger] spec_limit_flags(c, g)[k],
                "--wall-time="@,
            ),
        eff_memory(c, g) is Unlimited ==> forall|k: int|
            0 <= k < spec_limit_flags(c, g).len() ==> !starts_with(
                #[trigger] spec_limit_flags(c, g)[k],
                "--mem="@,
            ),
        eff_stack(c, g) is Unlimited ==> forall|k: int|
            0 <= k < spec_limit_flags(c, g).len() ==> !starts_with(
                #[trigger] spec_limit_flags(c, g)[k],
                "--stack="@,
            ),
        eff_files(c, g) is Unlimited ==> forall|k: int|
            0 <= k < spec_limit_flags(c, g).len() ==> !starts_with(
                #[trigger] spec_limit_flags(c, g)[k],
                "--open-files="@,
            ),
        eff_process(c, g) is Unlimited ==> spec_limit_flags(c, g).contains("--processes"@),
{
    reveal_strlit("--time=");
    reveal_strlit("--wall-time=");
    reveal_strlit("--mem=");
    reveal_strlit("--extra-time=");
    reveal_strlit("--stack=");
    reveal_strlit("--open-files=");
    reveal_strlit("--processes=");
    reveal_strlit("--processes");
    reveal_strlit("--full-env");
    let fl = spec_limit_flags(c, g);
    if eff_process(c, g) is Unlimited {
        let procpos = spec_sec_flag("--time="@, eff_time(c, g)).len() + spec_sec_flag(
            "--wall-time="@,
            eff_real_time(c, g),
        ).len() + spec_num_flag("--mem="@, eff_memory(c, g)).len() + 1 + spec_num_flag(
            "--stack="@,
            eff_stack(c, g),
        ).len() + spec_num_flag("--open-files="@, eff_files(c, g)).len();
        assert(fl[procpos as int] == "--processes"@);
        assert(fl.contains("--processes"@));
    }
    assert forall|k: int| 0 <= k < fl.len() implies flag_shapes(c, g, fl[k]) by {
        lemma_flag_shape(c, g, k);
    }
    if eff_time(c, g) is Unlimited {
        assert forall|k: int| 0 <= k < fl.len() implies !starts_with(fl[k], "--time="@) by {
            flag_not_time(c, g, fl[k]);
        }
    }
    if eff_real_time(c, g) is Unlimited {
        assert forall|k: int| 0 <= k < fl.len() implies !starts_with(fl[k], "--wall-time="@) by {
            flag_not_wall(c, g, fl[k]);
        }
    }
    if eff_memory(c, g) is Unlimited {
        assert forall|k: int| 0 <= k < fl.len() implies !starts_with(fl[k], "--mem="@) by {
            flag_not_mem(c, g, fl[k]);
        }
    }
    if eff_stack(c, g) is Unlimited {
        assert forall|k: int| 0 <= k < fl.len() implies !starts_with(fl[k], "--stack="@) by {
            flag_not_stack(c, g, fl[k]);
        }
    }
    if eff_files(c, g) is Unlimited {
        assert forall|k: int| 0 <= k < fl.len() implies !starts_with(fl[k], "--open-files="@) by {
            flag_not_files(c, g, fl[k]);
        }
    }
}

/// The shapes a limit flag can take.
spec fn flag_shapes(c: CommandView, g: IsolateConfigView, f: Seq<char>) -> bool {
    ||| (eff_time(c, g) matches MaybeLimited::Limited(v) && f == "--time="@ + spec_sec_str(v))
    ||| (eff_real_time(c, g) matches MaybeLimited::Limited(v) && f == "--wall-time="@
        + spec_sec_str(v))
    ||| (eff_memory(c, g) matches MaybeLimited::Limited(v) && f == "--mem="@ + spec_digits(
        v as nat,
    ))
    ||| f == "--extra-time="@ + spec_sec_str(eff_extra_time(c, g))
    ||| (eff_stack(c, g) matches MaybeLimited::Limited(v) && f == "--stack="@ + spec_digits(
        v as nat,
    ))
    ||| (eff_files(c, g) matches MaybeLimited::Limited(v) && f == "--open-files="@ + spec_digits(
        v as nat,
    ))
    ||| (eff_process(c, g) matches MaybeLimited::Limited(v) && f == "--processes="@ + spec_digits(
        v as nat,
    ))
    ||| f == "--processes"@
    ||| f == "--full-env"@
}

proof fn lemma_flag_shape(c: CommandView, g: IsolateConfigView, k: int)
    requires
        0 <= k < spec_limit_flags(c, g).len(),
    ensures
        flag_shapes(c, g, spec_limit_flags(c, g)[k]),
{
}

proof fn flag_not_time(c: CommandView, g: IsolateConfigView, f: Seq<char>)
    requires
        flag_shapes(c, g, f),
        eff_time(c, g) is Unlimited,
    ensures
        !starts_with(f, "--time="@),
{
    reveal_strlit("--time=");
    reveal_strlit("--wall-time=");
    reveal_strlit("--mem=");
    reveal_strlit("--extra-time=");
    reveal_strlit("--stack=");
    reveal_strlit("--open-files=");
    reveal_strlit("--processes=");
    reveal_strlit("--processes");
    reveal_strlit("--full-env");
    lemma_prefix_differs(f, "--time="@, 2);
}

proof fn flag_not_wall(c: CommandView, g: IsolateConfigView, f: Seq<char>)
    requires
        flag_shapes(c, g, f),
        eff_real_time(c, g) is Unlimited,
    ensures
        !starts_with(f, "--wall-time="@),
{
    reveal_strlit("--time=");
    reveal_strlit("--wall-time=");
    reveal_strlit("--mem=");
    reveal_strlit("--extra-time=");
    reveal_strlit("--stack=");
    reveal_strlit("--open-files=");
    reveal_strlit("--processes=");
    reveal_strlit("--processes");
    reveal_strlit("--full-env");
    lemma_prefix_differs(f, "--wall-time="@, 2);
}

proof fn flag_not_mem(c: CommandView, g: IsolateConfigView, f: Seq<char>)
    requires
        flag_shapes(c, g, f),
        eff_memory(c, g) is Unlimited,
    ensures
        !starts_with(f, "--mem="@),
{
    reveal_strlit("--time=");
    reveal_strlit("--wall-time=");
    reveal_strlit("--mem=");
    reveal_strlit("--extra-time=");
    reveal_strlit("--stack=");
    reveal_strlit("--open-files=");
    reveal_strlit("--processes=");
    reveal_strlit("--processes");
    reveal_strlit("--full-env");
    lemma_prefix_differs(f, "--mem="@, 2);
}

proof fn flag_not_stack(c: CommandView, g: IsolateConfigView, f: Seq<char>)
    requires
        flag_shapes(c, g, f),
        eff_stack(c, g) is Unlimited,
    ensures
        !starts_with(f, "--stack="@),
{
    reveal_strlit("--time=");
    reveal_strlit("--wall-time=");
    reveal_strlit("--mem=");
    reveal_strlit("--extra-time=");
    reveal_strlit("--stack=");
    reveal_strlit("--open-files=");
    reveal_strlit("--processes=");
    reveal_strlit("--processes");
    reveal_strlit("--full-env");
    lemma_prefix_differs(f, "--stack="@, 2);
}

proof fn flag_not_files(c: CommandView, g: IsolateConfigView, f: Seq<char>)
    requires
        flag_shapes(c, g, f),
        eff_files(c, g) is Unlimited,
    ensures
        !starts_with(f, "--open-files="@),
{
    reveal_strlit("--time=");
    reveal_strlit("--wall-time=");
    reveal_strlit("--mem=");
    reveal_strlit("--extra-time=");
    reveal_strlit("--stack=");
    reveal_strlit("--open-files=");
    reveal_strlit("--processes=");
    reveal_strlit("--processes");
    reveal_strlit("--full-env");
    lemma_prefix_differs(f, "--open-files="@, 2);
}

} // verus!
