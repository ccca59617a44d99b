use vstd::prelude::*;

verus! {

/// A chain of key/value annotations carried along a log line.
#[derive(Debug, Clone)]
pub struct LogState {
    pub entries: Vec<(String, String)>,
}

pub open spec fn entries_view(es: Seq<(String, String)>) -> Seq<(Seq<char>, Seq<char>)> {
    es.map_values(|p: (String, String)| (p.0@, p.1@))
}

impl View for LogState {
    type V = Seq<(Seq<char>, Seq<char>)>;

    open spec fn view(&self) -> Seq<(Seq<char>, Seq<char>)> {
        entries_view(self.entries@)
    }
}

/// Every annotation as `key<value>`, oldest first, one space between
/// annotations and none before the first.
pub open spec fn spec_render(es: Seq<(Seq<char>, Seq<char>)>) -> Seq<char>
    decreases es.len(),
{
    if es.len() == 0 {
        Seq::empty()
    } else if es.len() == 1 {
        es[0].0 + "<"@ + es[0].1 + ">"@
    } else {
        spec_render(es.drop_last()) + " "@ + es.last().0 + "<"@ + es.last().1 + ">"@
    }
}

impl LogState {
    /// An empty chain.
    pub fn new() -> (r: LogState)
        ensures
            r@ == Seq::<(Seq<char>, Seq<char>)>::empty(),
    {
        let r = LogState { entries: Vec::new() };
        proof {
            assert(r@ =~= Seq::<(Seq<char>, Seq<char>)>::empty());
        }
        r
    }

    /// The chain extended by one annotation; the receiver is kept.
    pub fn push(&self, key: &str, value: &str) -> (r: LogState)
        ensures
            r@ == self@.push((key@, value@)),
    {
        let mut entries: Vec<(String, String)> = Vec::new();
        let n = self.entries.len();
        let mut i: usize = 0;
        while i < n
            invariant
                n == self.entries@.len(),
                0 <= i <= n,
                entries_view(entries@) =~= self@.take(i as int),
            decreases n - i,
        {
            let k = String::from_str(self.entries[i].0.as_str());
            let v = String::from_str(self.entries[i].1.as_str());
            proof {
                assert(self@[i as int] == (self.entries@[i as int].0@, self.entries@[i as int].1@));
                assert(self@.take(i + 1) =~= self@.take(i as int).push(self@[i as int]));
                assert(entries_view(entries@.push((k, v))) =~= entries_view(entries@).push(
                    (k@, v@),
                ));
            }
            entries.push((k, v));
            i = i + 1;
        }
        proof {
            assert(self@.take(n as int) =~= self@);
        }
        let mut entries = entries;
        let k = String::from_str(key);
        let v = String::from_str(value);
        proof {
            assert(entries_view(entries@.push((k, v))) =~= entries_view(entries@).push((k@, v@)));
        }
        entries.push((k, v));
        LogState { entries }
    }

    /// Renders the chain for a log line, `key<value>` per annotation, one
    /// space between annotations.
    pub fn render(&self) -> (r: String)
        ensures
            r@ == spec_render(self@),
    {
        let mut r = String::new();
        let n = self.entries.len();
        let mut i: usize = 0;
        proof {
            assert(self@.take(0) =~= Seq::<(Seq<char>, Seq<char>)>::empty());
            assert(r@ =~= spec_render(self@.take(0)));
        }
        while i < n
            invariant
                n == self.entries@.len(),
                0 <= i <= n,
                r@ == spec_render(self@.take(i as int)),
            decreases n - i,
        {
            proof {
                assert(self@[i as int] == (self.entries@[i as int].0@, self.entries@[i as int].1@));
                assert(self@.take(i + 1).drop_last() =~= self@.take(i as int));
                assert(self@.take(i + 1).last() == self@[i as int]);
                assert(self@.take(i + 1)[0] == self@[0]);
            }
            if i > 0 {
                r.append(" ");
            }
            r.append(self.entries[i].0.as_str());
            r.append("<");
            r.append(self.entries[i].1.as_str());
            r.append(">");
            proof {
                assert(r@ =~= spec_render(self@.take(i + 1)));
            }
            i = i + 1;
        }
        proof {
            assert(self@.take(n as int) =~= self@);
        }
        r
    }
}

/// The same annotation chain under the name its other users know.
#[derive(Debug, Clone)]
pub struct State {
    pub entries: Vec<(String, String)>,
}

impl View for State {
    type V = Seq<(Seq<char>, Seq<char>)>;

    open spec fn view(&self) -> Seq<(Seq<char>, Seq<char>)> {
        entries_view(self.entries@)
    }
}

impl State {
    /// An empty chain.
    pub fn new() -> (r: State)
        ensures
            r@ == Seq::<(Seq<char>, Seq<char>)>::empty(),
    {
        let r = State { entries: Vec::new() };
        proof {
            assert(r@ =~= Seq::<(Seq<char>, Seq<char>)>::empty());
        }
        r
    }

    /// The chain extended by one annotation; the receiver is kept.
    pub fn push(&self, key: &str, value: &str) -> (r: State)
        ensures
            r@ == self@.push((key@, value@)),
    {
        let inner = LogState { entries: clone_entries(&self.entries) };
        proof {
            assert(inner@ =~= self@);
        }
        let pushed = inner.push(key, value);
        State { entries: pushed.entries }
    }
}

fn clone_entries(es: &Vec<(String, String)>) -> (r: Vec<(String, String)>)
    ensures
        entries_view(r@) == entries_view(es@),
{
    let mut r: Vec<(String, String)> = Vec::new();
    let n = es.len();
    let mut i: usize = 0;
    proof {
        assert(entries_view(r@) =~= entries_view(es@).take(0));
    }
    while i < n
        invariant
            n == es@.len(),
            0 <= i <= n,
            entries_view(r@) =~= entries_view(es@).take(i as int),
        decreases n - i,
    {
        let k = String::from_str(es[i].0.as_str());
        let v = String::from_str(es[i].1.as_str());
        proof {
            assert(entries_view(es@)[i as int] == (es@[i as int].0@, es@[i as int].1@));
            assert(entries_view(es@).take(i + 1) =~= entries_view(es@).take(i as int).push(
                entries_view(es@)[i as int],
            ));
            assert(entries_view(r@.push((k, v))) =~= entries_view(r@).push((k@, v@)));
        }
        r.push((k, v));
        i = i + 1;
    }
    proof {
        assert(entries_view(es@).take(n as int) =~= entries_view(es@));
    }
    r
}

} // verus!
