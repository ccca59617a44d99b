use vstd::prelude::*;

use crate::judge::Lang;
use crate::numbers::{spec_digits, u64_to_string};
use crate::numbers::{
    all_digits, is_digit, lemma_digits_all_digits, lemma_digits_roundtrip,
    lemma_u64_string_roundtrip, parse_u64, parses_as_u64, spec_digits_val,
};
use crate::isolate::{sec_str, spec_sec_str, spec_pad3};
use crate::sandbox::{parse_ms, spec_frac_ms, spec_parse_ms};
use crate::text::{
    contains_char, is_space, lemma_split_join, lemma_starts_with_differs, lemma_trim_noop,
    spec_join, spec_split, spec_trim, split_char, starts_with, str_eq, trim,
};

verus! {

/// How a problem grades a test: against a checker, or talking to an
/// interactor.
#[derive(Debug, Clone, Copy, PartialEq, Eq, Structural)]
pub enum Type {
    Standard,
    Interactive,
}

/// The resource limits a submission runs under. Times are milliseconds,
/// sizes KiB.
#[derive(Debug, Clone, Copy)]
pub struct Limits {
    pub time_ms: u64,
    pub real_time_ms: u64,
    pub memory: u64,
    pub stack: Option<u64>,
}

/// First and last test of a group, 1-based and inclusive.
#[derive(Debug, Clone, Copy)]
pub struct TestsRange(pub usize, pub usize);

impl TestsRange {
    /// A range is meaningful when it starts at one or later and does not run
    /// backwards.
    pub open spec fn spec_valid(&self) -> bool {
        1 <= self.0 && self.0 <= self.1
    }

    /// The 0-based numbers of the tests this range covers, in order.
    pub open spec fn spec_tests(&self) -> Seq<usize> {
        Seq::new((self.1 - self.0 + 1) as nat, |i: int| (self.0 - 1 + i) as usize)
    }

    /// Enumerates the range's tests by their 0-based numbers.
    pub fn tests(&self) -> (r: Vec<usize>)
        requires
            self.spec_valid(),
        ensures
            r@ == self.spec_tests(),
    {
        let mut r: Vec<usize> = Vec::new();
        let mut t: usize = self.0 - 1;
        while t < self.1
            invariant
                self.spec_valid(),
                self.0 - 1 <= t <= self.1,
                r@ =~= self.spec_tests().take(t - (self.0 - 1)),
            decreases self.1 - t,
        {
            r.push(t);
            proof {
                let base = (self.0 - 1) as int;
                assert(self.spec_tests().take(t - base + 1) =~= self.spec_tests().take(
                    t - base,
                ).push(t));
            }
            t = t + 1;
        }
        proof {
            assert(self.spec_tests().take(self.1 - (self.0 - 1)) =~= self.spec_tests());
        }
        r
    }
}

/// A range that starts and ends at `k` covers exactly the one test numbered
/// `k`, that is the 0-based test `k - 1`.
pub proof fn lemma_single_test_range(k: usize)
    requires
        k >= 1,
    ensures
        TestsRange(k, k).spec_tests() =~= seq![(k - 1) as usize],
{
}

/// One scoring group: its dense id, its test range, the score the group is
/// worth, and the groups that must pass before it runs.
#[derive(Debug, Clone)]
pub struct Group {
    pub id: usize,
    pub range: TestsRange,
    pub cost: u64,
    pub depends: Vec<usize>,
}

/// Mathematical image of a `Group`.
pub ghost struct GroupView {
    pub id: usize,
    pub range: TestsRange,
    pub cost: u64,
    pub depends: Seq<usize>,
}

impl View for Group {
    type V = GroupView;

    open spec fn view(&self) -> GroupView {
        GroupView { id: self.id, range: self.range, cost: self.cost, depends: self.depends@ }
    }
}

/// The manifest of one submission: task shape, language, limits and groups.
#[derive(Debug, Clone)]
pub struct Problem {
    pub typ: Type,
    pub lang: Lang,
    pub limits: Limits,
    pub groups: Vec<Group>,
}

/// Mathematical image of a `Problem`.
pub ghost struct ProblemView {
    pub typ: Type,
    pub lang: Lang,
    pub limits: Limits,
    pub groups: Seq<GroupView>,
}

impl View for Problem {
    type V = ProblemView;

    open spec fn view(&self) -> ProblemView {
        ProblemView {
            typ: self.typ,
            lang: self.lang,
            limits: self.limits,
            groups: self.groups@.map_values(|g: Group| g@),
        }
    }
}

/// The running total of a sequence of scores.
pub open spec fn spec_sum(s: Seq<u64>) -> int
    decreases s.len(),
{
    if s.len() == 0 {
        0
    } else {
        spec_sum(s.drop_last()) + s.last()
    }
}

/// Group ids are their positions, every dependency names an existing group,
/// every range is meaningful, and the costs sum within range.
pub open spec fn spec_groups_wf(gs: Seq<GroupView>) -> bool {
    &&& forall|i: int| 0 <= i < gs.len() ==> (#[trigger] gs[i]).id == i
    &&& forall|i: int, j: int|
        0 <= i < gs.len() && 0 <= j < gs[i].depends.len() ==> (#[trigger] gs[i].depends[j])
            < gs.len()
    &&& forall|i: int| 0 <= i < gs.len() ==> (#[trigger] gs[i]).range.spec_valid()
    &&& spec_sum(gs.map_values(|g: GroupView| g.cost)) <= u64::MAX
}

pub proof fn lemma_sum_le(a: Seq<u64>, b: Seq<u64>)
    requires
        a.len() == b.len(),
        forall|i: int| 0 <= i < a.len() ==> a[i] <= b[i],
    ensures
        spec_sum(a) <= spec_sum(b),
    decreases a.len(),
{
    if a.len() > 0 {
        assert(forall|i: int|
            0 <= i < a.drop_last().len() ==> a.drop_last()[i] <= b.drop_last()[i]);
        lemma_sum_le(a.drop_last(), b.drop_last());
    }
}

pub proof fn lemma_sum_nonneg(a: Seq<u64>)
    ensures
        spec_sum(a) >= 0,
    decreases a.len(),
{
    if a.len() > 0 {
        lemma_sum_nonneg(a.drop_last());
    }
}

/// Checks the manifest's structural invariants: dense ids, resolvable
/// dependencies, meaningful ranges, and a score total that fits.
pub fn groups_wf(gs: &Vec<Group>) -> (r: bool)
    ensures
        r == spec_groups_wf(gs@.map_values(|g: Group| g@)),
{
    let ghost gv = gs@.map_values(|g: Group| g@);
    let n = gs.len();
    let mut i: usize = 0;
    let mut total: u64 = 0;
    proof {
        assert(gv.map_values(|g: GroupView| g.cost).take(0) =~= Seq::<u64>::empty());
    }
    while i < n
        invariant
            n == gs@.len(),
            gv == gs@.map_values(|g: Group| g@),
            0 <= i <= n,
            forall|k: int| 0 <= k < i ==> (#[trigger] gv[k]).id == k,
            forall|k: int, j: int|
                0 <= k < i && 0 <= j < gv[k].depends.len() ==> (#[trigger] gv[k].depends[j]) < n,
            forall|k: int| 0 <= k < i ==> (#[trigger] gv[k]).range.spec_valid(),
            total == spec_sum(gv.map_values(|g: GroupView| g.cost).take(i as int)),
        decreases n - i,
    {
        let g = &gs[i];
        proof {
            assert(gv[i as int] == gs@[i as int]@);
        }
        if g.id != i {
            return false;
        }
        if !(1 <= g.range.0 && g.range.0 <= g.range.1) {
            return false;
        }
        let mut j: usize = 0;
        let nd = g.depends.len();
        while j < nd
            invariant
                nd == g.depends@.len(),
                0 <= j <= nd,
                0 <= i < n,
                n == gs@.len(),
                gv == gs@.map_values(|g2: Group| g2@),
                g@ == gv[i as int],
                forall|l: int| 0 <= l < j ==> (#[trigger] g.depends@[l]) < n,
            decreases nd - j,
        {
            if g.depends[j] >= n {
                proof {
                    assert(gv[i as int].depends[j as int] == g.depends@[j as int]);
                    assert(!spec_groups_wf(gv));
                }
                return false;
            }
            j = j + 1;
        }
        let ghost costs = gv.map_values(|g2: GroupView| g2.cost);
        proof {
            assert(costs.take(i + 1).drop_last() =~= costs.take(i as int));
            assert(costs.take(i + 1).last() == gv[i as int].cost);
        }
        total = match total.checked_add(g.cost) {
            Some(t) => t,
            None => {
                proof {
                    lemma_sum_prefix_le(costs, i + 1);
                }
                return false;
            },
        };
        i = i + 1;
    }
    proof {
        let costs = gv.map_values(|g2: GroupView| g2.cost);
        assert(costs.take(n as int) =~= costs);
    }
    true
}

/// Sums never shrink as a score sequence is extended.
pub proof fn lemma_sum_prefix_le(s: Seq<u64>, i: int)
    requires
        0 <= i <= s.len(),
    ensures
        spec_sum(s.take(i)) <= spec_sum(s),
    decreases s.len() - i,
{
    if i < s.len() {
        let t = s.take(i + 1);
        assert(t.drop_last() =~= s.take(i));
        lemma_sum_prefix_le(s, i + 1);
        assert(s.take(s.len() as int) =~= s);
    } else {
        assert(s.take(i) =~= s);
    }
}

/// The `type` line of a manifest.
pub open spec fn spec_type_line(t: Type) -> Seq<char> {
    "type: "@ + (match t {
        Type::Standard => "standard"@,
        Type::Interactive => "interactive"@,
    })
}

/// The `lang` line of a manifest.
pub open spec fn spec_lang_line(l: Lang) -> Seq<char> {
    "lang: "@ + (match l {
        Lang::Gpp => "g++"@,
        Lang::Python => "python3"@,
    })
}

/// Decimal numerals joined with commas, no spaces.
pub open spec fn spec_num_list(xs: Seq<u64>) -> Seq<char> {
    if xs.len() == 0 {
        Seq::empty()
    } else {
        spec_join(xs.map_values(|x: u64| spec_digits(x as nat)), ',')
    }
}

/// The four lines of one group.
pub open spec fn spec_group_lines(g: GroupView) -> Seq<Seq<char>> {
    seq![
        "  - id: "@ + spec_digits(g.id as nat),
        "    range: ["@ + spec_digits(g.range.0 as nat) + ","@ + spec_digits(g.range.1 as nat)
            + "]"@,
        "    cost: "@ + spec_digits(g.cost as nat),
        "    depends: ["@ + spec_num_list(g.depends.map_values(|d: usize| d as u64)) + "]"@,
    ]
}

pub open spec fn spec_groups_lines(gs: Seq<GroupView>) -> Seq<Seq<char>>
    decreases gs.len(),
{
    if gs.len() == 0 {
        Seq::empty()
    } else {
        spec_group_lines(gs[0]) + spec_groups_lines(gs.skip(1))
    }
}

proof fn lemma_groups_lines_snoc(gs: Seq<GroupView>, g: GroupView)
    ensures
        spec_groups_lines(gs.push(g)) == spec_groups_lines(gs) + spec_group_lines(g),
    decreases gs.len(),
{
    if gs.len() == 0 {
        let one = gs.push(g);
        assert(one[0] == g);
        assert(one.skip(1) =~= Seq::<GroupView>::empty());
        assert(spec_groups_lines(one.skip(1)) =~= Seq::<Seq<char>>::empty());
        assert(spec_groups_lines(one) =~= spec_groups_lines(gs) + spec_group_lines(g));
    } else {
        assert(gs.push(g).skip(1) =~= gs.skip(1).push(g));
        lemma_groups_lines_snoc(gs.skip(1), g);
        assert(gs.push(g)[0] == gs[0]);
        assert(spec_groups_lines(gs.push(g)) =~= spec_groups_lines(gs) + spec_group_lines(g));
    }
}

/// Every line of a rendered manifest, in order.
pub open spec fn spec_render_lines(p: ProblemView) -> Seq<Seq<char>> {
    seq![
        spec_type_line(p.typ),
        spec_lang_line(p.lang),
        "limits:"@,
        "  time: "@ + spec_sec_str(p.limits.time_ms),
        "  real_time: "@ + spec_sec_str(p.limits.real_time_ms),
        "  memory: "@ + spec_digits(p.limits.memory as nat),
    ] + (match p.limits.stack {
        Some(s) => seq!["  stack: "@ + spec_digits(s as nat)],
        None => Seq::<Seq<char>>::empty(),
    }) + seq!["groups:"@] + spec_groups_lines(p.groups)
}

/// A rendered manifest: its lines joined with newlines, none trailing.
pub open spec fn spec_serialize(p: ProblemView) -> Seq<char> {
    spec_join(spec_render_lines(p), '\n')
}

proof fn lemma_join_snoc(ls: Seq<Seq<char>>, l: Seq<char>, sep: char)
    requires
        ls.len() >= 1,
    ensures
        spec_join(ls.push(l), sep) == spec_join(ls, sep) + seq![sep] + l,
    decreases ls.len(),
{
    if ls.len() == 1 {
        let two = ls.push(l);
        assert(two[0] == ls[0]);
        assert(two.skip(1) =~= seq![l]);
        assert(spec_join(two.skip(1), sep) == l);
        assert(spec_join(two, sep) =~= spec_join(ls, sep) + seq![sep] + l);
    } else {
        assert(ls.push(l).skip(1) =~= ls.skip(1).push(l));
        lemma_join_snoc(ls.skip(1), l, sep);
        assert(ls.push(l)[0] == ls[0]);
        assert(spec_join(ls.push(l), sep) =~= spec_join(ls, sep) + seq![sep] + l);
    }
}

/// Joins lines with newlines, none trailing.
fn join_lines(lines: &Vec<String>) -> (r: String)
    requires
        lines@.len() >= 1,
    ensures
        r@ == spec_join(lines@.map_values(|l: String| l@), '\n'),
{
    let ghost lv = lines@.map_values(|l: String| l@);
    let mut r = String::from_str(lines[0].as_str());
    let n = lines.len();
    let mut i: usize = 1;
    proof {
        reveal_strlit("\n");
        assert(lv.take(1) =~= seq![lv[0]]);
        assert(spec_join(lv.take(1), '\n') == lv[0]);
        assert(r@ == spec_join(lv.take(1), '\n'));
    }
    while i < n
        invariant
            n == lines@.len(),
            lv == lines@.map_values(|l: String| l@),
            1 <= i <= n,
            r@ == spec_join(lv.take(i as int), '\n'),
        decreases n - i,
    {
        proof {
            reveal_strlit("\n");
            assert("\n"@ =~= seq!['\n']);
            assert(lv[i as int] == lines@[i as int]@);
            assert(lv.take(i + 1) =~= lv.take(i as int).push(lv[i as int]));
            lemma_join_snoc(lv.take(i as int), lv[i as int], '\n');
        }
        r.append("\n");
        r.append(lines[i].as_str());
        proof {
            assert(r@ =~= spec_join(lv.take(i + 1), '\n'));
        }
        i = i + 1;
    }
    proof {
        assert(lv.take(n as int) =~= lv);
    }
    r
}

fn num_list(xs: &Vec<u64>) -> (r: String)
    ensures
        r@ == spec_num_list(xs@),
{
    if xs.len() == 0 {
        let r = String::new();
        proof {
            assert(r@ =~= spec_num_list(xs@));
        }
        return r;
    }
    let ghost dv = xs@.map_values(|x: u64| spec_digits(x as nat));
    let first = u64_to_string(xs[0]);
    let mut r = first;
    let n = xs.len();
    let mut i: usize = 1;
    proof {
        assert(dv[0] == spec_digits(xs@[0] as nat));
        assert(dv.take(1) =~= seq![dv[0]]);
        assert(spec_join(dv.take(1), ',') == dv[0]);
    }
    while i < n
        invariant
            n == xs@.len(),
            dv == xs@.map_values(|x: u64| spec_digits(x as nat)),
            1 <= i <= n,
            r@ == spec_join(dv.take(i as int), ','),
        decreases n - i,
    {
        proof {
            reveal_strlit(",");
            assert(","@ =~= seq![',']);
            assert(dv[i as int] == spec_digits(xs@[i as int] as nat));
            assert(dv.take(i + 1) =~= dv.take(i as int).push(dv[i as int]));
            lemma_join_snoc(dv.take(i as int), dv[i as int], ',');
        }
        r.append(",");
        let ds = u64_to_string(xs[i]);
        r.append(ds.as_str());
        proof {
            assert(r@ =~= spec_join(dv.take(i + 1), ','));
        }
        i = i + 1;
    }
    proof {
        assert(dv.take(n as int) =~= dv);
    }
    r
}

fn usize_list(xs: &Vec<usize>) -> (r: Vec<u64>)
    ensures
        r@ == xs@.map_values(|d: usize| d as u64),
{
    let mut r: Vec<u64> = Vec::new();
    let n = xs.len();
    let mut i: usize = 0;
    proof {
        assert(r@ =~= xs@.map_values(|d: usize| d as u64).take(0));
    }
    while i < n
        invariant
            n == xs@.len(),
            0 <= i <= n,
            r@ == xs@.map_values(|d: usize| d as u64).take(i as int),
        decreases n - i,
    {
        r.push(xs[i] as u64);
        proof {
            let m = xs@.map_values(|d: usize| d as u64);
            assert(m.take(i + 1) =~= m.take(i as int).push(m[i as int]));
        }
        i = i + 1;
    }
    proof {
        let m = xs@.map_values(|d: usize| d as u64);
        assert(m.take(n as int) =~= m);
    }
    r
}

fn group_lines(g: &Group) -> (r: Vec<String>)
    ensures
        r@.map_values(|l: String| l@) == spec_group_lines(g@),
{
    let mut lines: Vec<String> = Vec::new();
    let mut l0 = String::from_str("  - id: ");
    let ds = u64_to_string(g.id as u64);
    l0.append(ds.as_str());
    lines.push(l0);
    let mut l1 = String::from_str("    range: [");
    let f = u64_to_string(g.range.0 as u64);
    l1.append(f.as_str());
    l1.append(",");
    let la = u64_to_string(g.range.1 as u64);
    l1.append(la.as_str());
    l1.append("]");
    lines.push(l1);
    let mut l2 = String::from_str("    cost: ");
    let cs = u64_to_string(g.cost);
    l2.append(cs.as_str());
    lines.push(l2);
    let mut l3 = String::from_str("    depends: [");
    let dl = usize_list(&g.depends);
    let dls = num_list(&dl);
    l3.append(dls.as_str());
    l3.append("]");
    lines.push(l3);
    proof {
        assert(lines@.map_values(|l: String| l@) =~= spec_group_lines(g@));
    }
    lines
}

/// Renders a manifest in the library's canonical shape, one value per line,
/// groups as four-line records.
pub fn serialize(p: &Problem) -> (r: String)
    ensures
        r@ == spec_serialize(p@),
{
    let mut lines: Vec<String> = Vec::new();
    let mut tl = String::from_str("type: ");
    match p.typ {
        Type::Standard => tl.append("standard"),
        Type::Interactive => tl.append("interactive"),
    }
    lines.push(tl);
    let mut ll = String::from_str("lang: ");
    match p.lang {
        Lang::Gpp => ll.append("g++"),
        Lang::Python => ll.append("python3"),
    }
    lines.push(ll);
    lines.push(String::from_str("limits:"));
    let mut lt = String::from_str("  time: ");
    let ts = sec_str(p.limits.time_ms);
    lt.append(ts.as_str());
    lines.push(lt);
    let mut lr = String::from_str("  real_time: ");
    let rs = sec_str(p.limits.real_time_ms);
    lr.append(rs.as_str());
    lines.push(lr);
    let mut lm = String::from_str("  memory: ");
    let ms = u64_to_string(p.limits.memory);
    lm.append(ms.as_str());
    lines.push(lm);
    match p.limits.stack {
        Some(s) => {
            let mut lstk = String::from_str("  stack: ");
            let ss = u64_to_string(s);
            lstk.append(ss.as_str());
            lines.push(lstk);
        },
        None => (),
    }
    lines.push(String::from_str("groups:"));
    let ghost head = seq![
        spec_type_line(p@.typ),
        spec_lang_line(p@.lang),
        "limits:"@,
        "  time: "@ + spec_sec_str(p@.limits.time_ms),
        "  real_time: "@ + spec_sec_str(p@.limits.real_time_ms),
        "  memory: "@ + spec_digits(p@.limits.memory as nat),
    ] + (match p@.limits.stack {
        Some(s) => seq!["  stack: "@ + spec_digits(s as nat)],
        None => Seq::<Seq<char>>::empty(),
    }) + seq!["groups:"@];
    proof {
        assert(lines@.map_values(|l: String| l@) =~= head);
    }
    let ghost gv = p@.groups;
    let n = p.groups.len();
    let mut i: usize = 0;
    proof {
        assert(gv.take(0) =~= Seq::<GroupView>::empty());
        assert(spec_groups_lines(gv.take(0)) =~= Seq::<Seq<char>>::empty());
        assert(lines@.map_values(|l: String| l@) =~= head + spec_groups_lines(gv.take(0)));
    }
    while i < n
        invariant
            n == p.groups@.len(),
            gv == p@.groups,
            0 <= i <= n,
            lines@.map_values(|l: String| l@) == head + spec_groups_lines(gv.take(i as int)),
        decreases n - i,
    {
        let gl = group_lines(&p.groups[i]);
        proof {
            assert(gv[i as int] == p.groups@[i as int]@);
            assert(gv.take(i + 1) =~= gv.take(i as int).push(gv[i as int]));
            lemma_groups_lines_snoc(gv.take(i as int), gv[i as int]);
        }
        let m = gl.len();
        let mut j: usize = 0;
        while j < m
            invariant
                m == gl@.len(),
                0 <= j <= m,
                lines@.map_values(|l: String| l@) == head + spec_groups_lines(gv.take(i as int))
                    + gl@.map_values(|l: String| l@).take(j as int),
            decreases m - j,
        {
            let s = String::from_str(gl[j].as_str());
            proof {
                let glv = gl@.map_values(|l: String| l@);
                assert(glv[j as int] == gl@[j as int]@);
                assert(glv.take(j + 1) =~= glv.take(j as int).push(glv[j as int]));
                assert(lines@.push(s).map_values(|l: String| l@) =~= lines@.map_values(
                    |l: String| l@,
                ).push(s@));
                assert((head + spec_groups_lines(gv.take(i as int)) + glv.take(j as int)).push(
                    glv[j as int],
                ) =~= head + spec_groups_lines(gv.take(i as int)) + glv.take(j + 1));
            }
            lines.push(s);
            j = j + 1;
        }
        proof {
            let glv = gl@.map_values(|l: String| l@);
            assert(glv.take(m as int) =~= glv);
            assert(head + spec_groups_lines(gv.take(i as int)) + glv =~= head + spec_groups_lines(
                gv.take(i + 1),
            ));
        }
        i = i + 1;
    }
    proof {
        assert(gv.take(n as int) =~= gv);
        assert(lines@.map_values(|l: String| l@) =~= spec_render_lines(p@));
        assert(spec_render_lines(p@).len() >= 1);
    }
    join_lines(&lines)
}

/// The number named by `l` after the fixed `prefix`: the remainder, blanks at
/// either end allowed, must be a numeral.
pub open spec fn spec_prefix_num(l: Seq<char>, prefix: Seq<char>) -> Option<u64> {
    if starts_with(l, prefix) && parses_as_u64(spec_trim(l.skip(prefix.len() as int))) {
        Some(spec_digits_val(spec_trim(l.skip(prefix.len() as int))) as u64)
    } else {
        None
    }
}

/// The duration named by `l` after the fixed `prefix`: the remainder, blanks
/// at either end allowed, read as decimal seconds into milliseconds.
pub open spec fn spec_prefix_ms(l: Seq<char>, prefix: Seq<char>) -> Option<u64> {
    if starts_with(l, prefix) {
        spec_parse_ms(spec_trim(l.skip(prefix.len() as int)))
    } else {
        None
    }
}

/// The numbers named by `l` between the `prefix` (which ends with the opening
/// bracket) and a closing bracket, comma-separated, blanks around each number
/// allowed.
pub open spec fn spec_parse_list(l: Seq<char>, prefix: Seq<char>) -> Option<Seq<u64>> {
    if starts_with(l, prefix) && l.len() > prefix.len() && l.last() == ']' {
        let inner = l.subrange(prefix.len() as int, l.len() - 1);
        if inner.len() == 0 {
            Some(Seq::empty())
        } else {
            let pieces = spec_split(inner, ',').map_values(|q: Seq<char>| spec_trim(q));
            if forall|k: int| 0 <= k < pieces.len() ==> parses_as_u64(#[trigger] pieces[k]) {
                Some(pieces.map_values(|q: Seq<char>| spec_digits_val(q) as u64))
            } else {
                None
            }
        }
    } else {
        None
    }
}

pub open spec fn spec_parse_type(l: Seq<char>) -> Option<Type> {
    if l == spec_type_line(Type::Standard) {
        Some(Type::Standard)
    } else if l == spec_type_line(Type::Interactive) {
        Some(Type::Interactive)
    } else {
        None
    }
}

pub open spec fn spec_parse_lang(l: Seq<char>) -> Option<Lang> {
    if l == spec_lang_line(Lang::Gpp) {
        Some(Lang::Gpp)
    } else if l == spec_lang_line(Lang::Python) {
        Some(Lang::Python)
    } else {
        None
    }
}

/// The group named by one four-line record.
pub open spec fn spec_parse_group(
    l0: Seq<char>,
    l1: Seq<char>,
    l2: Seq<char>,
    l3: Seq<char>,
) -> Option<GroupView> {
    match (
        spec_prefix_num(l0, "  - id: "@),
        spec_parse_list(l1, "    range: ["@),
        spec_prefix_num(l2, "    cost: "@),
        spec_parse_list(l3, "    depends: ["@),
    ) {
        (Some(id), Some(rg), Some(cost), Some(dl)) => if id <= usize::MAX && rg.len() == 2
            && rg[0] <= usize::MAX && rg[1] <= usize::MAX && (forall|k: int|
            0 <= k < dl.len() ==> #[trigger] dl[k] <= usize::MAX) {
            Some(
                GroupView {
                    id: id as usize,
                    range: TestsRange(rg[0] as usize, rg[1] as usize),
                    cost,
                    depends: dl.map_values(|d: u64| d as usize),
                },
            )
        } else {
            None
        },
        _ => None,
    }
}

/// The groups named by a run of four-line records that uses up every line.
pub open spec fn spec_parse_groups(ls: Seq<Seq<char>>) -> Option<Seq<GroupView>>
    decreases ls.len(),
{
    if ls.len() == 0 {
        Some(Seq::empty())
    } else if ls.len() < 4 {
        None
    } else {
        match spec_parse_group(ls[0], ls[1], ls[2], ls[3]) {
            Some(g) => match spec_parse_groups(ls.skip(4)) {
                Some(rest) => Some(seq![g] + rest),
                None => None,
            },
            None => None,
        }
    }
}

/// Where the indented block that starts at line `i` ends: the first later
/// line that does not begin with two spaces.
pub open spec fn spec_limits_end(ls: Seq<Seq<char>>, i: int) -> int
    decreases ls.len() - i,
{
    if i < 0 || i >= ls.len() {
        i
    } else if starts_with(ls[i], "  "@) {
        spec_limits_end(ls, i + 1)
    } else {
        i
    }
}

/// Folds the limit lines between `i` and `end`, in any order, each naming one
/// of the four keys; a later line for the same key wins. Times are read as
/// decimal seconds, sizes as integers.
pub open spec fn spec_limits_fold(
    ls: Seq<Seq<char>>,
    i: int,
    end: int,
    tm: Option<u64>,
    rt: Option<u64>,
    mem: Option<u64>,
    stk: Option<u64>,
) -> Option<(Option<u64>, Option<u64>, Option<u64>, Option<u64>)>
    decreases end - i,
{
    if i >= end {
        Some((tm, rt, mem, stk))
    } else if !(0 <= i < ls.len()) {
        None
    } else if starts_with(ls[i], "  time: "@) {
        match spec_prefix_ms(ls[i], "  time: "@) {
            Some(v) => spec_limits_fold(ls, i + 1, end, Some(v), rt, mem, stk),
            None => None,
        }
    } else if starts_with(ls[i], "  real_time: "@) {
        match spec_prefix_ms(ls[i], "  real_time: "@) {
            Some(v) => spec_limits_fold(ls, i + 1, end, tm, Some(v), mem, stk),
            None => None,
        }
    } else if starts_with(ls[i], "  memory: "@) {
        match spec_prefix_num(ls[i], "  memory: "@) {
            Some(v) => spec_limits_fold(ls, i + 1, end, tm, rt, Some(v), stk),
            None => None,
        }
    } else if starts_with(ls[i], "  stack: "@) {
        match spec_prefix_num(ls[i], "  stack: "@) {
            Some(v) => spec_limits_fold(ls, i + 1, end, tm, rt, mem, Some(v)),
            None => None,
        }
    } else {
        None
    }
}

/// The manifest named by a run of lines: the type, the language, then a
/// `limits:` block whose keys may come in any order, then the groups; nothing
/// where a line is out of place, a number malformed, a required limit absent,
/// or the groups not well formed.
pub open spec fn spec_parse_lines(ls: Seq<Seq<char>>) -> Option<ProblemView> {
    if ls.len() < 3 {
        None
    } else {
        match (spec_parse_type(ls[0]), spec_parse_lang(ls[1])) {
            (Some(t), Some(lg)) => if ls[2] == "limits:"@ {
                let end = spec_limits_end(ls, 3);
                match spec_limits_fold(ls, 3, end, None, None, None, None) {
                    Some((Some(tm), Some(rt), Some(mem), stk)) => spec_parse_tail(
                        t,
                        lg,
                        tm,
                        rt,
                        mem,
                        stk,
                        ls,
                        end,
                    ),
                    _ => None,
                }
            } else {
                None
            },
            _ => None,
        }
    }
}

pub open spec fn spec_parse_tail(
    t: Type,
    lg: Lang,
    tm: u64,
    rt: u64,
    mem: u64,
    stack: Option<u64>,
    ls: Seq<Seq<char>>,
    gi: int,
) -> Option<ProblemView> {
    if gi < ls.len() && ls[gi] == "groups:"@ {
        match spec_parse_groups(ls.skip(gi + 1)) {
            Some(gs) => if spec_groups_wf(gs) {
                Some(
                    ProblemView {
                        typ: t,
                        lang: lg,
                        limits: Limits { time_ms: tm, real_time_ms: rt, memory: mem, stack },
                        groups: gs,
                    },
                )
            } else {
                None
            },
            None => None,
        }
    } else {
        None
    }
}

/// The manifest a document names: its lines, read in the canonical shape.
pub open spec fn spec_parse(s: Seq<char>) -> Option<ProblemView> {
    spec_parse_lines(spec_split(s, '\n'))
}

fn parse_prefix_num(line: &str, prefix: &str) -> (r: Option<u64>)
    ensures
        r == spec_prefix_num(line@, prefix@),
{
    let plen = prefix.unicode_len();
    let len = line.unicode_len();
    if len < plen {
        return None;
    }
    if !str_eq(line.substring_char(0, plen), prefix) {
        proof {
            assert(line@.subrange(0, plen as int) =~= line@.take(plen as int));
        }
        return None;
    }
    proof {
        assert(line@.subrange(0, plen as int) =~= line@.take(plen as int));
        assert(line@.subrange(plen as int, len as int) =~= line@.skip(plen as int));
    }
    let rest = trim(line.substring_char(plen, len));
    parse_u64(rest.as_str())
}

fn parse_prefix_ms(line: &str, prefix: &str) -> (r: Option<u64>)
    ensures
        r == spec_prefix_ms(line@, prefix@),
{
    let plen = prefix.unicode_len();
    let len = line.unicode_len();
    if len < plen {
        return None;
    }
    if !str_eq(line.substring_char(0, plen), prefix) {
        proof {
            assert(line@.subrange(0, plen as int) =~= line@.take(plen as int));
        }
        return None;
    }
    proof {
        assert(line@.subrange(0, plen as int) =~= line@.take(plen as int));
        assert(line@.subrange(plen as int, len as int) =~= line@.skip(plen as int));
    }
    let rest = trim(line.substring_char(plen, len));
    parse_ms(rest.as_str())
}

#[verifier::loop_isolation(false)]
fn parse_list(line: &str, prefix: &str) -> (r: Option<Vec<u64>>)
    ensures
        match r {
            Some(v) => spec_parse_list(line@, prefix@) == Some(v@),
            None => spec_parse_list(line@, prefix@) is None,
        },
{
    let plen = prefix.unicode_len();
    let len = line.unicode_len();
    if len <= plen {
        proof {
            if len == plen && starts_with(line@, prefix@) {
            }
        }
        return None;
    }
    if !str_eq(line.substring_char(0, plen), prefix) {
        proof {
            assert(line@.subrange(0, plen as int) =~= line@.take(plen as int));
        }
        return None;
    }
    proof {
        assert(line@.subrange(0, plen as int) =~= line@.take(plen as int));
    }
    if line.get_char(len - 1) != ']' {
        return None;
    }
    let inner = line.substring_char(plen, len - 1);
    proof {
        assert(line@.subrange(plen as int, len - 1) == line@.subrange(plen as int, line@.len() - 1));
    }
    if inner.unicode_len() == 0 {
        let v: Vec<u64> = Vec::new();
        proof {
            assert(v@ =~= Seq::<u64>::empty());
        }
        return Some(v);
    }
    let pieces = split_char(inner, ',');
    let ghost pv = pieces@.map_values(|p: String| spec_trim(p@));
    proof {
        assert(pv =~= spec_split(inner@, ',').map_values(|q: Seq<char>| spec_trim(q)));
    }
    let mut out: Vec<u64> = Vec::new();
    let n = pieces.len();
    let mut i: usize = 0;
    proof {
        assert(out@ =~= pv.take(0).map_values(|q: Seq<char>| spec_digits_val(q) as u64));
    }
    while i < n
        invariant
            n == pieces@.len(),
            pv == pieces@.map_values(|p: String| spec_trim(p@)),
            0 <= i <= n,
            forall|k: int| 0 <= k < i ==> parses_as_u64(#[trigger] pv[k]),
            out@ == pv.take(i as int).map_values(|q: Seq<char>| spec_digits_val(q) as u64),
        decreases n - i,
    {
        let tp = trim(pieces[i].as_str());
        proof {
            assert(pv[i as int] == spec_trim(pieces@[i as int]@));
            assert(tp@ == pv[i as int]);
        }
        match parse_u64(tp.as_str()) {
            Some(v) => {
                proof {
                    let m = pv.take(i + 1).map_values(|q: Seq<char>| spec_digits_val(q) as u64);
                    assert(pv.take(i + 1) =~= pv.take(i as int).push(pv[i as int]));
                    assert(m =~= pv.take(i as int).map_values(
                        |q: Seq<char>| spec_digits_val(q) as u64,
                    ).push(spec_digits_val(pv[i as int]) as u64));
                }
                out.push(v);
            },
            None => {
                proof {
                    assert(!parses_as_u64(pv[i as int]));
                }
                return None;
            },
        }
        i = i + 1;
    }
    proof {
        assert(pv.take(n as int) =~= pv);
        assert(out@ =~= pv.map_values(|q: Seq<char>| spec_digits_val(q) as u64));
    }
    Some(out)
}

fn line_starts_with(line: &str, prefix: &str) -> (r: bool)
    ensures
        r == starts_with(line@, prefix@),
{
    let plen = prefix.unicode_len();
    let len = line.unicode_len();
    if len < plen {
        return false;
    }
    proof {
        assert(line@.subrange(0, plen as int) =~= line@.take(plen as int));
    }
    str_eq(line.substring_char(0, plen), prefix)
}

fn u64s_to_usizes(xs: &Vec<u64>) -> (r: Option<Vec<usize>>)
    ensures
        match r {
            Some(v) => (forall|k: int| 0 <= k < xs@.len() ==> #[trigger] xs@[k] <= usize::MAX) && v@
                == xs@.map_values(|d: u64| d as usize),
            None => !(forall|k: int| 0 <= k < xs@.len() ==> #[trigger] xs@[k] <= usize::MAX),
        },
{
    let mut r: Vec<usize> = Vec::new();
    let n = xs.len();
    let mut i: usize = 0;
    proof {
        assert(r@ =~= xs@.map_values(|d: u64| d as usize).take(0));
    }
    while i < n
        invariant
            n == xs@.len(),
            0 <= i <= n,
            forall|k: int| 0 <= k < i ==> #[trigger] xs@[k] <= usize::MAX,
            r@ == xs@.map_values(|d: u64| d as usize).take(i as int),
        decreases n - i,
    {
        let x = xs[i];
        if x > usize::MAX as u64 {
            return None;
        }
        r.push(x as usize);
        proof {
            let m = xs@.map_values(|d: u64| d as usize);
            assert(m.take(i + 1) =~= m.take(i as int).push(m[i as int]));
        }
        i = i + 1;
    }
    proof {
        let m = xs@.map_values(|d: u64| d as usize);
        assert(m.take(n as int) =~= m);
    }
    Some(r)
}

fn parse_group_record(l0: &str, l1: &str, l2: &str, l3: &str) -> (r: Option<Group>)
    ensures
        match r {
            Some(g) => spec_parse_group(l0@, l1@, l2@, l3@) == Some(g@),
            None => spec_parse_group(l0@, l1@, l2@, l3@) is None,
        },
{
    let id64 = match parse_prefix_num(l0, "  - id: ") {
        Some(v) => v,
        None => {
            return None;
        },
    };
    let rg = match parse_list(l1, "    range: [") {
        Some(v) => v,
        None => {
            return None;
        },
    };
    let cost = match parse_prefix_num(l2, "    cost: ") {
        Some(v) => v,
        None => {
            return None;
        },
    };
    let dl = match parse_list(l3, "    depends: [") {
        Some(v) => v,
        None => {
            return None;
        },
    };
    if id64 > usize::MAX as u64 {
        return None;
    }
    if rg.len() != 2 {
        return None;
    }
    let first = rg[0];
    let last = rg[1];
    if first > usize::MAX as u64 || last > usize::MAX as u64 {
        return None;
    }
    let depends = match u64s_to_usizes(&dl) {
        Some(v) => v,
        None => {
            return None;
        },
    };
    let g = Group {
        id: id64 as usize,
        range: TestsRange(first as usize, last as usize),
        cost,
        depends,
    };
    proof {
        assert(g@.depends =~= dl@.map_values(|d: u64| d as usize));
    }
    Some(g)
}

/// Reads a manifest in the library's canonical shape. Returns the manifest
/// exactly where every line is in place, every number in range, and the
/// groups well formed; nothing otherwise.
/// Finds where the indented limits block ends.
fn limits_block_end(lines: &Vec<String>, start: usize) -> (r: usize)
    requires
        start <= lines@.len(),
    ensures
        r == spec_limits_end(lines@.map_values(|p: String| p@), start as int),
        start <= r <= lines@.len(),
{
    let ghost lv = lines@.map_values(|p: String| p@);
    let n = lines.len();
    let mut i: usize = start;
    loop
        invariant
            start <= i <= n,
            n == lines@.len(),
            lv == lines@.map_values(|p: String| p@),
            spec_limits_end(lv, start as int) == spec_limits_end(lv, i as int),
        ensures
            start <= i <= n,
            i == spec_limits_end(lv, start as int),
        decreases n - i,
    {
        if i >= n {
            proof {
                assert(spec_limits_end(lv, i as int) == i);
            }
            break;
        }
        proof {
            assert(lv[i as int] == lines@[i as int]@);
        }
        if !line_starts_with(lines[i].as_str(), "  ") {
            proof {
                assert(spec_limits_end(lv, i as int) == i);
            }
            break;
        }
        proof {
            assert(spec_limits_end(lv, i as int) == spec_limits_end(lv, i + 1));
        }
        i = i + 1;
    }
    i
}

#[verifier::loop_isolation(false)]
pub fn parse(s: &str) -> (r: Option<Problem>)
    ensures
        match r {
            Some(p) => spec_parse(s@) == Some(p@) && spec_groups_wf(p@.groups),
            None => spec_parse(s@) is None,
        },
{
    let lines = split_char(s, '\n');
    let ghost lv = lines@.map_values(|p: String| p@);
    let n = lines.len();
    if n < 3 {
        return None;
    }
    let mut tline = String::from_str("type: ");
    tline.append("standard");
    let mut iline = String::from_str("type: ");
    iline.append("interactive");
    let typ: Type = if str_eq(lines[0].as_str(), tline.as_str()) {
        Type::Standard
    } else if str_eq(lines[0].as_str(), iline.as_str()) {
        Type::Interactive
    } else {
        proof {
            assert(lv[0] == lines@[0 as int]@);
        }
        return None;
    };
    proof {
        assert(lv[0] == lines@[0 as int]@);
        assert(spec_parse_type(lv[0]) == Some(typ));
    }
    let mut gline = String::from_str("lang: ");
    gline.append("g++");
    let mut pline = String::from_str("lang: ");
    pline.append("python3");
    let lang: Lang = if str_eq(lines[1].as_str(), gline.as_str()) {
        Lang::Gpp
    } else if str_eq(lines[1].as_str(), pline.as_str()) {
        Lang::Python
    } else {
        proof {
            assert(lv[1] == lines@[1 as int]@);
        }
        return None;
    };
    proof {
        assert(lv[1] == lines@[1 as int]@);
        assert(spec_parse_lang(lv[1]) == Some(lang));
    }
    if !str_eq(lines[2].as_str(), "limits:") {
        proof {
            assert(lv[2] == lines@[2 as int]@);
        }
        return None;
    }
    proof {
        assert(lv[2] == lines@[2 as int]@);
    }
    let gi = limits_block_end(&lines, 3);
    let ghost end = gi as int;
    let mut tm_o: Option<u64> = None;
    let mut rt_o: Option<u64> = None;
    let mut mem_o: Option<u64> = None;
    let mut stk_o: Option<u64> = None;
    let mut i: usize = 3;
    while i < gi
        invariant
            3 <= i <= gi,
            spec_limits_fold(lv, 3, end, None, None, None, None) == spec_limits_fold(
                lv,
                i as int,
                end,
                tm_o,
                rt_o,
                mem_o,
                stk_o,
            ),
        decreases gi - i,
    {
        let l = lines[i].as_str();
        proof {
            assert(lv[i as int] == lines@[i as int]@);
        }
        if line_starts_with(l, "  time: ") {
            match parse_prefix_ms(l, "  time: ") {
                Some(v) => {
                    tm_o = Some(v);
                },
                None => {
                    return None;
                },
            }
        } else if line_starts_with(l, "  real_time: ") {
            match parse_prefix_ms(l, "  real_time: ") {
                Some(v) => {
                    rt_o = Some(v);
                },
                None => {
                    return None;
                },
            }
        } else if line_starts_with(l, "  memory: ") {
            match parse_prefix_num(l, "  memory: ") {
                Some(v) => {
                    mem_o = Some(v);
                },
                None => {
                    return None;
                },
            }
        } else if line_starts_with(l, "  stack: ") {
            match parse_prefix_num(l, "  stack: ") {
                Some(v) => {
                    stk_o = Some(v);
                },
                None => {
                    return None;
                },
            }
        } else {
            return None;
        }
        i = i + 1;
    }
    let time_ms = match tm_o {
        Some(v) => v,
        None => {
            return None;
        },
    };
    let real_time_ms = match rt_o {
        Some(v) => v,
        None => {
            return None;
        },
    };
    let memory = match mem_o {
        Some(v) => v,
        None => {
            return None;
        },
    };
    let stack: Option<u64> = stk_o;
    if gi >= n {
        return None;
    }
    proof {
        assert(lv[gi as int] == lines@[gi as int]@);
    }
    if !str_eq(lines[gi].as_str(), "groups:") {
        return None;
    }
    let mut groups: Vec<Group> = Vec::new();
    let mut pos: usize = gi + 1;
    proof {
        assert(spec_parse_groups(lv.skip(gi + 1)) == (match spec_parse_groups(lv.skip(pos as int)) {
            Some(rest) => Some(groups@.map_values(|g: Group| g@) + rest),
            None => None,
        })) by {
            assert(groups@.map_values(|g: Group| g@) =~= Seq::<GroupView>::empty());
            match spec_parse_groups(lv.skip(pos as int)) {
                Some(rest) => {
                    assert(Seq::<GroupView>::empty() + rest =~= rest);
                },
                None => {},
            }
        }
    }
    while pos < n
        invariant
            gi + 1 <= pos <= n,
            spec_parse_groups(lv.skip(gi + 1)) == (match spec_parse_groups(lv.skip(pos as int)) {
                Some(rest) => Some(groups@.map_values(|g: Group| g@) + rest),
                None => None,
            }),
        decreases n - pos,
    {
        if n - pos < 4 {
            proof {
                assert(lv.skip(pos as int).len() == n - pos);
                assert(spec_parse_groups(lv.skip(pos as int)) is None);
            }
            return None;
        }
        let ghost rem = lv.skip(pos as int);
        proof {
            assert(rem[0] == lv[pos as int]);
            assert(rem[1] == lv[pos + 1]);
            assert(rem[2] == lv[pos + 2]);
            assert(rem[3] == lv[pos + 3]);
            assert(lv[pos as int] == lines@[pos as int]@);
            assert(lv[pos + 1] == lines@[pos + 1]@);
            assert(lv[pos + 2] == lines@[pos + 2]@);
            assert(lv[pos + 3] == lines@[pos + 3]@);
        }
        let g = match parse_group_record(
            lines[pos].as_str(),
            lines[pos + 1].as_str(),
            lines[pos + 2].as_str(),
            lines[pos + 3].as_str(),
        ) {
            Some(g) => g,
            None => {
                proof {
                    assert(spec_parse_groups(rem) is None);
                }
                return None;
            },
        };
        proof {
            assert(rem.skip(4) =~= lv.skip(pos + 4));
            assert(spec_parse_groups(rem) == (match spec_parse_groups(lv.skip(pos + 4)) {
                Some(rest) => Some(seq![g@] + rest),
                None => None,
            }));
            match spec_parse_groups(lv.skip(pos + 4)) {
                Some(rest) => {
                    assert(groups@.push(g).map_values(|g2: Group| g2@) =~= groups@.map_values(
                        |g2: Group| g2@,
                    ).push(g@));
                    assert(groups@.map_values(|g2: Group| g2@) + (seq![g@] + rest)
                        =~= groups@.map_values(|g2: Group| g2@).push(g@) + rest);
                },
                None => {},
            }
        }
        groups.push(g);
        pos = pos + 4;
    }
    proof {
        assert(lv.skip(pos as int) =~= Seq::<Seq<char>>::empty());
        assert(spec_parse_groups(lv.skip(pos as int)) == Some(Seq::<GroupView>::empty()));
        assert(groups@.map_values(|g: Group| g@) + Seq::<GroupView>::empty() =~= groups@.map_values(
            |g: Group| g@,
        ));
        assert(spec_parse_groups(lv.skip(gi + 1)) == Some(groups@.map_values(|g: Group| g@)));
    }
    if !groups_wf(&groups) {
        return None;
    }
    let p = Problem {
        typ,
        lang,
        limits: Limits { time_ms, real_time_ms, memory, stack },
        groups,
    };
    proof {
        assert(spec_parse_lines(lv) == Some(p@));
    }
    Some(p)
}

pub open spec fn no_newline(s: Seq<char>) -> bool {
    !contains_char(s, '\n')
}

proof fn lemma_no_nl_concat(a: Seq<char>, b: Seq<char>)
    requires
        no_newline(a),
        no_newline(b),
    ensures
        no_newline(a + b),
{
    if contains_char(a + b, '\n') {
        let i = choose|i: int| 0 <= i < (a + b).len() && (a + b)[i] == '\n';
        if i < a.len() {
            assert(a[i] == '\n');
        } else {
            assert(b[i - a.len()] == '\n');
        }
    }
}

proof fn lemma_digits_no_nl(n: nat)
    ensures
        no_newline(spec_digits(n)),
        !contains_char(spec_digits(n), ','),
        !contains_char(spec_digits(n), ']'),
{
    lemma_digits_all_digits(n);
    let s = spec_digits(n);
    if contains_char(s, '\n') {
        let i = choose|i: int| 0 <= i < s.len() && s[i] == '\n';
        assert(is_digit(s[i]));
    }
    if contains_char(s, ',') {
        let i = choose|i: int| 0 <= i < s.len() && s[i] == ',';
        assert(is_digit(s[i]));
    }
    if contains_char(s, ']') {
        let i = choose|i: int| 0 <= i < s.len() && s[i] == ']';
        assert(is_digit(s[i]));
    }
}

proof fn lemma_lit_no_nl()
    ensures
        no_newline("type: "@),
        no_newline("standard"@),
        no_newline("interactive"@),
        no_newline("lang: "@),
        no_newline("g++"@),
        no_newline("python3"@),
        no_newline("limits:"@),
        no_newline("  time: "@),
        no_newline("  real_time: "@),
        no_newline("  memory: "@),
        no_newline("  stack: "@),
        no_newline("groups:"@),
        no_newline("  - id: "@),
        no_newline("    range: ["@),
        no_newline(","@),
        no_newline("]"@),
        no_newline("    cost: "@),
        no_newline("    depends: ["@),
{
    reveal_strlit("type: ");
    reveal_strlit("standard");
    reveal_strlit("interactive");
    reveal_strlit("lang: ");
    reveal_strlit("g++");
    reveal_strlit("python3");
    reveal_strlit("limits:");
    reveal_strlit("  time: ");
    reveal_strlit("  real_time: ");
    reveal_strlit("  memory: ");
    reveal_strlit("  stack: ");
    reveal_strlit("groups:");
    reveal_strlit("  - id: ");
    reveal_strlit("    range: [");
    reveal_strlit(",");
    reveal_strlit("]");
    reveal_strlit("    cost: ");
    reveal_strlit("    depends: [");
}

proof fn lemma_num_list_clean(xs: Seq<u64>)
    ensures
        no_newline(spec_num_list(xs)),
        !contains_char(spec_num_list(xs), ']'),
    decreases xs.len(),
{
    reveal_strlit(",");
    if xs.len() == 0 {
    } else if xs.len() == 1 {
        let dv = xs.map_values(|x: u64| spec_digits(x as nat));
        assert(spec_num_list(xs) == dv[0]);
        lemma_digits_no_nl(xs[0] as nat);
    } else {
        let dv = xs.map_values(|x: u64| spec_digits(x as nat));
        let rest = xs.skip(1);
        let dvrest = rest.map_values(|x: u64| spec_digits(x as nat));
        assert(dv.skip(1) =~= dvrest);
        assert(spec_num_list(xs) == dv[0] + seq![','] + spec_num_list(rest));
        lemma_digits_no_nl(xs[0] as nat);
        lemma_num_list_clean(rest);
        let s = spec_num_list(xs);
        if contains_char(s, '\n') {
            let i = choose|i: int| 0 <= i < s.len() && s[i] == '\n';
            let hl = dv[0].len() as int;
            if i < hl {
                assert(dv[0][i] == '\n');
            } else if i == hl {
            } else {
                assert(spec_num_list(rest)[i - hl - 1] == '\n');
            }
        }
        if contains_char(s, ']') {
            let i = choose|i: int| 0 <= i < s.len() && s[i] == ']';
            let hl = dv[0].len() as int;
            if i < hl {
                assert(dv[0][i] == ']');
            } else if i == hl {
            } else {
                assert(spec_num_list(rest)[i - hl - 1] == ']');
            }
        }
    }
}

proof fn lemma_render_lines_no_nl(p: ProblemView)
    ensures
        forall|k: int|
            0 <= k < spec_render_lines(p).len() ==> no_newline(#[trigger] spec_render_lines(p)[k]),
{
    lemma_lit_no_nl();
    let ls = spec_render_lines(p);
    assert forall|k: int| 0 <= k < ls.len() implies no_newline(#[trigger] ls[k]) by {
        lemma_render_line_no_nl(p, k);
    }
}

proof fn lemma_group_lines_no_nl(g: GroupView, j: int)
    requires
        0 <= j < 4,
    ensures
        no_newline(spec_group_lines(g)[j]),
{
    lemma_lit_no_nl();
    lemma_digits_no_nl(g.id as nat);
    lemma_digits_no_nl(g.range.0 as nat);
    lemma_digits_no_nl(g.range.1 as nat);
    lemma_digits_no_nl(g.cost as nat);
    lemma_num_list_clean(g.depends.map_values(|d: usize| d as u64));
    if j == 0 {
        lemma_no_nl_concat("  - id: "@, spec_digits(g.id as nat));
    } else if j == 1 {
        lemma_no_nl_concat("    range: ["@, spec_digits(g.range.0 as nat));
        lemma_no_nl_concat("    range: ["@ + spec_digits(g.range.0 as nat), ","@);
        lemma_no_nl_concat(
            "    range: ["@ + spec_digits(g.range.0 as nat) + ","@,
            spec_digits(g.range.1 as nat),
        );
        lemma_no_nl_concat(
            "    range: ["@ + spec_digits(g.range.0 as nat) + ","@ + spec_digits(
                g.range.1 as nat,
            ),
            "]"@,
        );
    } else if j == 2 {
        lemma_no_nl_concat("    cost: "@, spec_digits(g.cost as nat));
    } else {
        lemma_no_nl_concat(
            "    depends: ["@,
            spec_num_list(g.depends.map_values(|d: usize| d as u64)),
        );
        lemma_no_nl_concat(
            "    depends: ["@ + spec_num_list(g.depends.map_values(|d: usize| d as u64)),
            "]"@,
        );
    }
}

proof fn lemma_groups_lines_no_nl(gs: Seq<GroupView>, k: int)
    requires
        0 <= k < spec_groups_lines(gs).len(),
    ensures
        no_newline(spec_groups_lines(gs)[k]),
    decreases gs.len(),
{
    if gs.len() > 0 {
        let head = spec_group_lines(gs[0]);
        if k < head.len() {
            assert(spec_groups_lines(gs)[k] == head[k]);
            lemma_group_lines_no_nl(gs[0], k);
        } else {
            assert(spec_groups_lines(gs)[k] == spec_groups_lines(gs.skip(1))[k - head.len()]);
            lemma_groups_lines_no_nl(gs.skip(1), k - head.len());
        }
    }
}

proof fn lemma_render_line_no_nl(p: ProblemView, k: int)
    requires
        0 <= k < spec_render_lines(p).len(),
    ensures
        no_newline(spec_render_lines(p)[k]),
{
    lemma_lit_no_nl();
    let ls = spec_render_lines(p);
    let head6: Seq<Seq<char>> = seq![
        spec_type_line(p.typ),
        spec_lang_line(p.lang),
        "limits:"@,
        "  time: "@ + spec_sec_str(p.limits.time_ms),
        "  real_time: "@ + spec_sec_str(p.limits.real_time_ms),
        "  memory: "@ + spec_digits(p.limits.memory as nat),
    ];
    let stackpart: Seq<Seq<char>> = match p.limits.stack {
        Some(s) => seq!["  stack: "@ + spec_digits(s as nat)],
        None => Seq::<Seq<char>>::empty(),
    };
    let mid = head6 + stackpart + seq!["groups:"@];
    assert(ls == mid + spec_groups_lines(p.groups));
    if k < mid.len() {
        assert(ls[k] == mid[k]);
        lemma_sec_str_no_nl(p.limits.time_ms);
        lemma_sec_str_no_nl(p.limits.real_time_ms);
        lemma_digits_no_nl(p.limits.memory as nat);
        match p.typ {
            Type::Standard => lemma_no_nl_concat("type: "@, "standard"@),
            Type::Interactive => lemma_no_nl_concat("type: "@, "interactive"@),
        }
        match p.lang {
            Lang::Gpp => lemma_no_nl_concat("lang: "@, "g++"@),
            Lang::Python => lemma_no_nl_concat("lang: "@, "python3"@),
        }
        lemma_no_nl_concat("  time: "@, spec_sec_str(p.limits.time_ms));
        lemma_no_nl_concat("  real_time: "@, spec_sec_str(p.limits.real_time_ms));
        lemma_no_nl_concat("  memory: "@, spec_digits(p.limits.memory as nat));
        match p.limits.stack {
            Some(s) => {
                lemma_digits_no_nl(s as nat);
                lemma_no_nl_concat("  stack: "@, spec_digits(s as nat));
            },
            None => {},
        }
    } else {
        assert(ls[k] == spec_groups_lines(p.groups)[k - mid.len()]);
        lemma_groups_lines_no_nl(p.groups, k - mid.len());
    }
}

/// Digit strings carry no blanks, so trimming leaves them alone.
proof fn lemma_digits_trim(n: nat)
    ensures
        spec_trim(spec_digits(n)) == spec_digits(n),
{
    lemma_digits_all_digits(n);
    let s = spec_digits(n);
    assert(is_digit(s[0]) && !is_space(s[0]));
    assert(is_digit(s.last()) && !is_space(s.last()));
    lemma_trim_noop(s);
}

/// A seconds string has no newline in it.
proof fn lemma_sec_str_no_nl(ms: u64)
    ensures
        no_newline(spec_sec_str(ms)),
{
    lemma_digits_no_nl((ms / 1000) as nat);
    lemma_pad3_facts((ms % 1000) as nat);
    let s = spec_sec_str(ms);
    if contains_char(s, '\n') {
        let i = choose|i: int| 0 <= i < s.len() && s[i] == '\n';
        let hl = spec_digits((ms / 1000) as nat).len() as int;
        if i < hl {
            assert(spec_digits((ms / 1000) as nat)[i] == '\n');
        } else if i == hl {
        } else {
            assert(is_digit(spec_pad3((ms % 1000) as nat)[i - hl - 1]));
        }
    }
}

/// The three padded digits of a thousandth part: all digits, three of them,
/// reading back as the part both as a numeral and as a fraction.
proof fn lemma_pad3_facts(r: nat)
    requires
        r < 1000,
    ensures
        all_digits(spec_pad3(r)),
        spec_pad3(r).len() == 3,
        spec_digits_val(spec_pad3(r)) == r,
        spec_frac_ms(spec_pad3(r)) == r,
{
    lemma_digits_all_digits(r);
    lemma_digits_roundtrip(r);
    let d = spec_digits(r);
    let s = spec_pad3(r);
    if r < 10 {
        assert(s =~= seq!['0', '0'] + d);
        assert(d =~= seq![crate::numbers::digit_char(r as int)]);
        assert(s.len() == 3);
        assert forall|i: int| 0 <= i < s.len() implies is_digit(s[i]) by {
            if i >= 2 {
                assert(s[i] == d[i - 2]);
            }
        }
        assert(spec_frac_ms(s) == crate::numbers::digit_val(s[0]) * 100 + crate::numbers::digit_val(
            s[1],
        ) * 10 + crate::numbers::digit_val(s[2]));
        assert(spec_digits_val(d) == r);
        assert(crate::numbers::digit_val(s[2]) == r);
        lemma_val_after_zeros(s, d);
    } else if r < 100 {
        assert(d =~= spec_digits(r / 10) + seq![crate::numbers::digit_char((r % 10) as int)]);
        assert(spec_digits(r / 10) =~= seq![crate::numbers::digit_char((r / 10) as int)]);
        assert(s =~= seq!['0'] + d);
        assert(s.len() == 3);
        assert forall|i: int| 0 <= i < s.len() implies is_digit(s[i]) by {
            if i >= 1 {
                assert(s[i] == d[i - 1]);
            }
        }
        assert(crate::numbers::digit_val(s[1]) == r / 10);
        assert(crate::numbers::digit_val(s[2]) == r % 10);
        assert(spec_frac_ms(s) == 0 * 100 + (r / 10) * 10 + r % 10);
        assert((r / 10) * 10 + r % 10 == r) by (nonlinear_arith);
        lemma_val_after_zeros(s, d);
    } else {
        assert(d =~= spec_digits(r / 10) + seq![crate::numbers::digit_char((r % 10) as int)]);
        assert(spec_digits(r / 10) =~= spec_digits(r / 10 / 10) + seq![
            crate::numbers::digit_char(((r / 10) % 10) as int),
        ]);
        assert(r / 10 / 10 == r / 100) by (nonlinear_arith);
        assert(r / 100 < 10);
        assert(spec_digits(r / 100) =~= seq![crate::numbers::digit_char((r / 100) as int)]);
        assert(s == d);
        assert(s.len() == 3);
        assert(s[0] == crate::numbers::digit_char((r / 100) as int));
        assert(s[1] == crate::numbers::digit_char(((r / 10) % 10) as int));
        assert(s[2] == crate::numbers::digit_char((r % 10) as int));
        assert(spec_frac_ms(s) == (r / 100) * 100 + ((r / 10) % 10) * 10 + r % 10);
        assert((r / 100) * 100 + ((r / 10) % 10) * 10 + r % 10 == r) by (nonlinear_arith);
        assert(spec_digits_val(s) == r);
    }
}

/// Leading zeros leave a numeral's value alone.
proof fn lemma_val_after_zeros(s: Seq<char>, d: Seq<char>)
    requires
        s == seq!['0'] + d || s == seq!['0', '0'] + d,
        d.len() >= 1,
    ensures
        spec_digits_val(s) == spec_digits_val(d),
    decreases d.len(),
{
    assert(spec_digits_val(Seq::<char>::empty()) == 0);
    assert(spec_digits_val(seq!['0']) == 0) by {
        assert(seq!['0'].drop_last() =~= Seq::<char>::empty());
        assert(seq!['0'].last() == '0');
        assert(spec_digits_val(Seq::<char>::empty()) == 0);
    }
    assert(spec_digits_val(seq!['0', '0']) == 0) by {
        assert(seq!['0', '0'].drop_last() =~= seq!['0']);
        assert(seq!['0', '0'].last() == '0');
        assert(spec_digits_val(seq!['0']) == 0) by {
            assert(seq!['0'].drop_last() =~= Seq::<char>::empty());
            assert(seq!['0'].last() == '0');
            assert(spec_digits_val(Seq::<char>::empty()) == 0);
        }
    }
    if d.len() == 1 {
        if s == seq!['0'] + d {
            assert(s =~= seq!['0', d[0]]);
            assert(s.drop_last() =~= seq!['0']);
            assert(s.last() == d[0]);
        } else {
            assert(s =~= seq!['0', '0', d[0]]);
            assert(s.drop_last() =~= seq!['0', '0']);
            assert(s.last() == d[0]);
        }
        assert(d.drop_last() =~= Seq::<char>::empty());
    } else {
        if s == seq!['0'] + d {
            assert(s.drop_last() =~= seq!['0'] + d.drop_last());
            lemma_val_after_zeros(s.drop_last(), d.drop_last());
            assert(s.last() == d.last());
        } else {
            assert(s.drop_last() =~= seq!['0', '0'] + d.drop_last());
            lemma_val_after_zeros(s.drop_last(), d.drop_last());
            assert(s.last() == d.last());
        }
    }
}

/// A rendered seconds string reads back as its milliseconds.
proof fn lemma_sec_str_roundtrip(ms: u64)
    ensures
        spec_parse_ms(spec_sec_str(ms)) == Some(ms),
{
    let q = (ms / 1000) as nat;
    let r = (ms % 1000) as nat;
    let dq = spec_digits(q);
    let p3 = spec_pad3(r);
    let s = spec_sec_str(ms);
    lemma_digits_all_digits(q);
    lemma_digits_roundtrip(q);
    lemma_u64_string_roundtrip((ms / 1000) as u64);
    lemma_pad3_facts(r);
    assert(s == dq + seq!['.'] + p3);
    let hl = dq.len() as int;
    assert(s[hl] == '.');
    assert forall|j: int| 0 <= j < hl implies s[j] != '.' by {
        assert(s[j] == dq[j]);
        assert(is_digit(dq[j]));
    }
    crate::text::lemma_first_idx_is(s, '.', hl);
    assert(s.take(hl) =~= dq);
    assert(s.skip(hl + 1) =~= p3);
    assert(!contains_char(p3, '.')) by {
        if contains_char(p3, '.') {
            let i = choose|i: int| 0 <= i < p3.len() && p3[i] == '.';
            assert(is_digit(p3[i]));
        }
    }
    assert(parses_as_u64(p3)) by {
        assert(spec_digits_val(p3) == r);
    }
    assert(spec_digits_val(dq) == q);
    assert(spec_frac_ms(p3) == r);
    assert(q * 1000 + r == ms) by (nonlinear_arith)
        requires
            q == (ms / 1000) as nat,
            r == (ms % 1000) as nat,
    ;
    assert(spec_parse_ms(s) == Some(ms));
}

/// A fixed prefix followed by a numeral reads back as that number.
proof fn lemma_prefix_num_roundtrip(prefix: Seq<char>, n: u64)
    ensures
        spec_prefix_num(prefix + spec_digits(n as nat), prefix) == Some(n),
{
    let l = prefix + spec_digits(n as nat);
    assert(l.take(prefix.len() as int) =~= prefix);
    assert(l.skip(prefix.len() as int) =~= spec_digits(n as nat));
    lemma_digits_trim(n as nat);
    lemma_u64_string_roundtrip(n);
}

/// A fixed prefix followed by a seconds string reads back as the
/// milliseconds it was written from.
proof fn lemma_prefix_ms_roundtrip(prefix: Seq<char>, ms: u64)
    ensures
        spec_prefix_ms(prefix + spec_sec_str(ms), prefix) == Some(ms),
{
    let l = prefix + spec_sec_str(ms);
    assert(l.take(prefix.len() as int) =~= prefix);
    assert(l.skip(prefix.len() as int) =~= spec_sec_str(ms));
    let s = spec_sec_str(ms);
    lemma_digits_all_digits((ms / 1000) as nat);
    lemma_pad3_facts((ms % 1000) as nat);
    assert(s[0] == spec_digits((ms / 1000) as nat)[0]);
    assert(is_digit(s[0]) && !is_space(s[0]));
    assert(s.last() == spec_pad3((ms % 1000) as nat)[2]);
    assert(is_digit(s.last()) && !is_space(s.last()));
    lemma_trim_noop(s);
    lemma_sec_str_roundtrip(ms);
}

/// A bracketed numeral list reads back as the numbers it was written from.
proof fn lemma_parse_list_roundtrip(prefix: Seq<char>, xs: Seq<u64>)
    requires
        prefix.len() >= 1,
    ensures
        spec_parse_list(prefix + spec_num_list(xs) + "]"@, prefix) == Some(xs),
{
    reveal_strlit("]");
    reveal_strlit(",");
    let inner = spec_num_list(xs);
    let l = prefix + inner + "]"@;
    assert(l.take(prefix.len() as int) =~= prefix);
    assert(l.len() > prefix.len());
    assert(l.last() == ']');
    assert(l.subrange(prefix.len() as int, l.len() - 1) =~= inner);
    if xs.len() == 0 {
        assert(inner.len() == 0);
        assert(spec_parse_list(l, prefix) == Some(Seq::<u64>::empty()));
        assert(Seq::<u64>::empty() =~= xs);
    } else {
        let dv = xs.map_values(|x: u64| spec_digits(x as nat));
        assert(inner == spec_join(dv, ','));
        assert(dv.len() >= 1);
        assert forall|k: int| 0 <= k < dv.len() implies !contains_char(#[trigger] dv[k], ',') by {
            assert(dv[k] == spec_digits(xs[k] as nat));
            lemma_digits_no_nl(xs[k] as nat);
        }
        lemma_split_join(dv, ',');
        assert(spec_split(inner, ',') == dv);
        assert(inner.len() > 0) by {
            lemma_digits_all_digits(xs[0] as nat);
            if dv.len() == 1 {
                assert(inner == dv[0]);
            } else {
                assert(inner == dv[0] + seq![','] + spec_join(dv.skip(1), ','));
            }
        }
        let pieces = spec_split(inner, ',').map_values(|q: Seq<char>| spec_trim(q));
        assert forall|k: int| 0 <= k < pieces.len() implies #[trigger] pieces[k] == dv[k] by {
            lemma_digits_trim(xs[k] as nat);
        }
        assert forall|k: int| 0 <= k < pieces.len() implies parses_as_u64(#[trigger] pieces[k]) by {
            lemma_digits_trim(xs[k] as nat);
            lemma_u64_string_roundtrip(xs[k]);
        }
        let vals = pieces.map_values(|q: Seq<char>| spec_digits_val(q) as u64);
        assert forall|k: int| 0 <= k < vals.len() implies vals[k] == xs[k] by {
            lemma_digits_trim(xs[k] as nat);
            lemma_u64_string_roundtrip(xs[k]);
        }
        assert(vals =~= xs);
    }
}

/// One rendered group record reads back as the group it was written from.
proof fn lemma_parse_group_roundtrip(g: GroupView)
    ensures
        spec_parse_group(
            spec_group_lines(g)[0],
            spec_group_lines(g)[1],
            spec_group_lines(g)[2],
            spec_group_lines(g)[3],
        ) == Some(g),
{
    reveal_strlit(",");
    reveal_strlit("    range: [");
    reveal_strlit("    depends: [");
    lemma_lit_no_nl();
    lemma_prefix_num_roundtrip("  - id: "@, g.id as u64);
    lemma_prefix_num_roundtrip("    cost: "@, g.cost);
    let rangelist: Seq<u64> = seq![g.range.0 as u64, g.range.1 as u64];
    assert(spec_num_list(rangelist) == spec_digits(g.range.0 as nat) + ","@ + spec_digits(
        g.range.1 as nat,
    )) by {
        let dv = rangelist.map_values(|x: u64| spec_digits(x as nat));
        assert(dv.skip(1) =~= seq![spec_digits(g.range.1 as nat)]);
        assert(spec_join(dv, ',') == dv[0] + seq![','] + spec_join(dv.skip(1), ','));
        assert(spec_join(dv.skip(1), ',') == dv.skip(1)[0]);
        assert(","@ =~= seq![',']);
        assert(dv[0] + seq![','] + dv.skip(1)[0] =~= spec_digits(g.range.0 as nat) + ","@
            + spec_digits(g.range.1 as nat));
    }
    assert(spec_group_lines(g)[1] == "    range: ["@ + spec_num_list(rangelist) + "]"@);
    lemma_parse_list_roundtrip("    range: ["@, rangelist);
    let deplist = g.depends.map_values(|d: usize| d as u64);
    lemma_parse_list_roundtrip("    depends: ["@, deplist);
    assert(forall|k: int| 0 <= k < deplist.len() ==> #[trigger] deplist[k] <= usize::MAX);
    assert(deplist.map_values(|d: u64| d as usize) =~= g.depends);
    assert((g.id as u64) as usize == g.id);
    assert(TestsRange(rangelist[0] as usize, rangelist[1] as usize) == g.range);
}

proof fn lemma_parse_groups_roundtrip(gs: Seq<GroupView>)
    ensures
        spec_parse_groups(spec_groups_lines(gs)) == Some(gs),
    decreases gs.len(),
{
    if gs.len() == 0 {
        assert(spec_groups_lines(gs) =~= Seq::<Seq<char>>::empty());
        assert(Seq::<GroupView>::empty() =~= gs);
    } else {
        let ls = spec_groups_lines(gs);
        let head = spec_group_lines(gs[0]);
        let rest = spec_groups_lines(gs.skip(1));
        assert(ls == head + rest);
        assert(ls.len() >= 4);
        assert(ls[0] == head[0]);
        assert(ls[1] == head[1]);
        assert(ls[2] == head[2]);
        assert(ls[3] == head[3]);
        lemma_parse_group_roundtrip(gs[0]);
        assert(ls.skip(4) =~= rest);
        lemma_parse_groups_roundtrip(gs.skip(1));
        assert(seq![gs[0]] + gs.skip(1) =~= gs);
    }
}

/// Reading a rendered manifest back yields the manifest it was written from:
/// the parser inverts the serializer on every well-formed manifest.
pub proof fn lemma_parse_serialize_roundtrip(p: ProblemView)
    requires
        spec_groups_wf(p.groups),
    ensures
        spec_parse(spec_serialize(p)) == Some(p),
{
    reveal_strlit("type: ");
    reveal_strlit("standard");
    reveal_strlit("interactive");
    reveal_strlit("lang: ");
    reveal_strlit("g++");
    reveal_strlit("python3");
    reveal_strlit("limits:");
    reveal_strlit("  ");
    reveal_strlit("  time: ");
    reveal_strlit("  real_time: ");
    reveal_strlit("  memory: ");
    reveal_strlit("  stack: ");
    reveal_strlit("groups:");
    let ls = spec_render_lines(p);
    lemma_render_lines_no_nl(p);
    lemma_split_join(ls, '\n');
    assert(spec_split(spec_serialize(p), '\n') == ls);
    let tm = p.limits.time_ms;
    let rt = p.limits.real_time_ms;
    let mem = p.limits.memory;
    let tline = "  time: "@ + spec_sec_str(tm);
    let rline = "  real_time: "@ + spec_sec_str(rt);
    let mline = "  memory: "@ + spec_digits(mem as nat);
    let head6: Seq<Seq<char>> = seq![
        spec_type_line(p.typ),
        spec_lang_line(p.lang),
        "limits:"@,
        tline,
        rline,
        mline,
    ];
    let stackpart: Seq<Seq<char>> = match p.limits.stack {
        Some(s) => seq!["  stack: "@ + spec_digits(s as nat)],
        None => Seq::<Seq<char>>::empty(),
    };
    let mid = head6 + stackpart + seq!["groups:"@];
    assert(ls == mid + spec_groups_lines(p.groups));
    let e = mid.len() - 1;
    assert(ls.len() >= 7);
    assert(ls[0] == spec_type_line(p.typ));
    assert(ls[1] == spec_lang_line(p.lang));
    assert(ls[2] == "limits:"@);
    assert(ls[3] == tline);
    assert(ls[4] == rline);
    assert(ls[5] == mline);
    assert(ls[e] == "groups:"@);
    assert(spec_parse_type(ls[0]) == Some(p.typ)) by {
        assert(spec_type_line(Type::Standard).len() == 14);
        assert(spec_type_line(Type::Interactive).len() == 17);
    }
    assert(spec_parse_lang(ls[1]) == Some(p.lang)) by {
        assert(spec_lang_line(Lang::Gpp).len() == 9);
        assert(spec_lang_line(Lang::Python).len() == 13);
    }
    // the limits block: each line is indented, the groups line is not
    assert(starts_with(ls[3], "  "@)) by {
        assert(ls[3].take(2) =~= "  "@);
    }
    assert(starts_with(ls[4], "  "@)) by {
        assert(ls[4].take(2) =~= "  "@);
    }
    assert(starts_with(ls[5], "  "@)) by {
        assert(ls[5].take(2) =~= "  "@);
    }
    assert(!starts_with(ls[e], "  "@)) by {
        lemma_starts_with_differs(ls[e], "  "@, 0);
    }
    match p.limits.stack {
        Some(s) => {
            assert(ls[6] == "  stack: "@ + spec_digits(s as nat));
            assert(starts_with(ls[6], "  "@)) by {
                assert(ls[6].take(2) =~= "  "@);
            }
            assert(e == 7);
            assert(spec_limits_end(ls, 7) == 7);
            assert(spec_limits_end(ls, 6) == spec_limits_end(ls, 7));
            assert(spec_limits_end(ls, 5) == spec_limits_end(ls, 6));
            assert(spec_limits_end(ls, 4) == spec_limits_end(ls, 5));
            assert(spec_limits_end(ls, 3) == spec_limits_end(ls, 4));
            assert(spec_limits_end(ls, 3) == 7);
        },
        None => {
            assert(e == 6);
            assert(spec_limits_end(ls, 6) == 6);
            assert(spec_limits_end(ls, 5) == spec_limits_end(ls, 6));
            assert(spec_limits_end(ls, 4) == spec_limits_end(ls, 5));
            assert(spec_limits_end(ls, 3) == spec_limits_end(ls, 4));
            assert(spec_limits_end(ls, 3) == 6);
        },
    }
    // the fold reads each limit line back
    lemma_prefix_ms_roundtrip("  time: "@, tm);
    lemma_prefix_ms_roundtrip("  real_time: "@, rt);
    lemma_prefix_num_roundtrip("  memory: "@, mem);
    assert(starts_with(ls[3], "  time: "@)) by {
        assert(ls[3].take(8) =~= "  time: "@);
    }
    assert(starts_with(ls[4], "  real_time: "@)) by {
        assert(ls[4].take(13) =~= "  real_time: "@);
    }
    assert(!starts_with(ls[4], "  time: "@)) by {
        assert(ls[4][2] == 'r');
        lemma_starts_with_differs(ls[4], "  time: "@, 2);
    }
    assert(starts_with(ls[5], "  memory: "@)) by {
        assert(ls[5].take(10) =~= "  memory: "@);
    }
    assert(!starts_with(ls[5], "  time: "@)) by {
        assert(ls[5][2] == 'm');
        lemma_starts_with_differs(ls[5], "  time: "@, 2);
    }
    assert(!starts_with(ls[5], "  real_time: "@)) by {
        assert(ls[5][2] == 'm');
        lemma_starts_with_differs(ls[5], "  real_time: "@, 2);
    }
    assert(spec_limits_fold(ls, 3, e, None, None, None, None) == spec_limits_fold(
        ls,
        4,
        e,
        Some(tm),
        None,
        None,
        None,
    ));
    assert(spec_limits_fold(ls, 4, e, Some(tm), None, None, None) == spec_limits_fold(
        ls,
        5,
        e,
        Some(tm),
        Some(rt),
        None,
        None,
    ));
    assert(spec_limits_fold(ls, 5, e, Some(tm), Some(rt), None, None) == spec_limits_fold(
        ls,
        6,
        e,
        Some(tm),
        Some(rt),
        Some(mem),
        None,
    ));
    lemma_parse_groups_roundtrip(p.groups);
    match p.limits.stack {
        Some(s) => {
            assert(starts_with(ls[6], "  stack: "@)) by {
                assert(ls[6].take(9) =~= "  stack: "@);
            }
            assert(!starts_with(ls[6], "  time: "@)) by {
                assert(ls[6][2] == 's');
                lemma_starts_with_differs(ls[6], "  time: "@, 2);
            }
            assert(!starts_with(ls[6], "  real_time: "@)) by {
                assert(ls[6][2] == 's');
                lemma_starts_with_differs(ls[6], "  real_time: "@, 2);
            }
            assert(!starts_with(ls[6], "  memory: "@)) by {
                assert(ls[6][2] == 's');
                lemma_starts_with_differs(ls[6], "  memory: "@, 2);
            }
            lemma_prefix_num_roundtrip("  stack: "@, s);
            assert(spec_limits_fold(ls, 6, e, Some(tm), Some(rt), Some(mem), None)
                == spec_limits_fold(ls, 7, e, Some(tm), Some(rt), Some(mem), Some(s)));
            assert(spec_limits_fold(ls, 7, e, Some(tm), Some(rt), Some(mem), Some(s)) == Some(
                (Some(tm), Some(rt), Some(mem), Some(s)),
            ));
            assert(ls.skip(8) =~= spec_groups_lines(p.groups));
            assert(spec_parse_tail(p.typ, p.lang, tm, rt, mem, Some(s), ls, 7) == Some(p)) by {
                assert(p == (ProblemView {
                    typ: p.typ,
                    lang: p.lang,
                    limits: Limits { time_ms: tm, real_time_ms: rt, memory: mem, stack: Some(s) },
                    groups: p.groups,
                }));
            }
        },
        None => {
            assert(spec_limits_fold(ls, 6, e, Some(tm), Some(rt), Some(mem), None) == Some(
                (Some(tm), Some(rt), Some(mem), None::<u64>),
            ));
            assert(ls.skip(7) =~= spec_groups_lines(p.groups));
            assert(spec_parse_tail(p.typ, p.lang, tm, rt, mem, None, ls, 6) == Some(p)) by {
                assert(p == (ProblemView {
                    typ: p.typ,
                    lang: p.lang,
                    limits: Limits { time_ms: tm, real_time_ms: rt, memory: mem, stack: None },
                    groups: p.groups,
                }));
            }
        },
    }
}

} // verus!
