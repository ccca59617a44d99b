use vstd::prelude::*;

verus! {

pub open spec fn contains_char(s: Seq<char>, c: char) -> bool {
    exists|i: int| 0 <= i < s.len() && s[i] == c
}

/// Index of the first occurrence of `c`; meaningful only when `contains_char` holds.
pub open spec fn first_idx(s: Seq<char>, c: char) -> int
    decreases s.len(),
{
    if s.len() == 0 {
        0
    } else if s[0] == c {
        0
    } else {
        1 + first_idx(s.skip(1), c)
    }
}

/// The first occurrence is wherever a witness occurrence with nothing before it stands.
pub proof fn lemma_first_idx_is(s: Seq<char>, c: char, k: int)
    requires
        0 <= k < s.len(),
        s[k] == c,
        forall|j: int| 0 <= j < k ==> s[j] != c,
    ensures
        contains_char(s, c),
        first_idx(s, c) == k,
    decreases s.len(),
{
    assert(contains_char(s, c));
    if s[0] == c {
    } else {
        let t = s.skip(1);
        assert(t[k - 1] == c);
        assert forall|j: int| 0 <= j < k - 1 implies t[j] != c by {
            assert(t[j] == s[j + 1]);
        }
        lemma_first_idx_is(t, c, k - 1);
    }
}

/// Pieces of `s` between occurrences of `sep`, in order.
pub open spec fn spec_split(s: Seq<char>, sep: char) -> Seq<Seq<char>>
    decreases s.len(),
{
    if !contains_char(s, sep) {
        seq![s]
    } else {
        let i = first_idx(s, sep);
        if 0 <= i < s.len() {
            seq![s.take(i)] + spec_split(s.skip(i + 1), sep)
        } else {
            seq![s]
        }
    }
}

/// The pieces joined back with `sep` between them.
pub open spec fn spec_join(ls: Seq<Seq<char>>, sep: char) -> Seq<char>
    decreases ls.len(),
{
    if ls.len() == 0 {
        Seq::empty()
    } else if ls.len() == 1 {
        ls[0]
    } else {
        ls[0] + seq![sep] + spec_join(ls.skip(1), sep)
    }
}

/// Splitting a join recovers the pieces, as long as no piece holds the separator.
pub proof fn lemma_split_join(ls: Seq<Seq<char>>, sep: char)
    requires
        ls.len() >= 1,
        forall|k: int| 0 <= k < ls.len() ==> !contains_char(#[trigger] ls[k], sep),
    ensures
        spec_split(spec_join(ls, sep), sep) == ls,
    decreases ls.len(),
{
    let s = spec_join(ls, sep);
    if ls.len() == 1 {
        assert(s == ls[0]);
        assert(!contains_char(s, sep));
        assert(spec_split(s, sep) =~= ls);
    } else {
        let head = ls[0];
        let rest = ls.skip(1);
        let tail = spec_join(rest, sep);
        assert(s == head + seq![sep] + tail);
        let hl = head.len() as int;
        assert(s[hl] == sep);
        assert forall|j: int| 0 <= j < hl implies s[j] != sep by {
            assert(s[j] == head[j]);
        }
        lemma_first_idx_is(s, sep, hl);
        assert(s.take(hl) =~= head);
        assert(s.skip(hl + 1) =~= tail);
        assert forall|k: int| 0 <= k < rest.len() implies !contains_char(#[trigger] rest[k], sep) by {
            assert(rest[k] == ls[k + 1]);
        }
        lemma_split_join(rest, sep);
        assert(spec_split(s, sep) =~= seq![head] + rest);
        assert(seq![head] + rest =~= ls);
    }
}

/// Finds the first occurrence of `c` in `s`.
pub fn find_char(s: &str, c: char) -> (r: Option<usize>)
    ensures
        r is Some <==> contains_char(s@, c),
        r matches Some(i) ==> i == first_idx(s@, c) && i < s@.len(),
{
    let len = s.unicode_len();
    let mut i: usize = 0;
    while i < len
        invariant
            len == s@.len(),
            0 <= i <= len,
            forall|j: int| 0 <= j < i ==> s@[j] != c,
        decreases len - i,
    {
        if s.get_char(i) == c {
            proof {
                lemma_first_idx_is(s@, c, i as int);
            }
            return Some(i);
        }
        i = i + 1;
    }
    None
}

/// Splits `s` at every occurrence of `sep`.
pub fn split_char(s: &str, sep: char) -> (r: Vec<String>)
    ensures
        r@.map_values(|p: String| p@) == spec_split(s@, sep),
{
    let mut pieces: Vec<String> = Vec::new();
    let len = s.unicode_len();
    let mut start: usize = 0;
    let mut i: usize = 0;
    proof {
        assert(s@.skip(0) =~= s@);
        assert(pieces@.map_values(|p: String| p@) =~= Seq::<Seq<char>>::empty());
        assert((Seq::<Seq<char>>::empty() + spec_split(s@, sep)) =~= spec_split(s@, sep));
    }
    while i < len
        invariant
            len == s@.len(),
            0 <= start <= i <= len,
            forall|j: int| start <= j < i ==> s@[j] != sep,
            spec_split(s@, sep) =~= pieces@.map_values(|p: String| p@) + spec_split(
                s@.skip(start as int),
                sep,
            ),
        decreases len - i,
    {
        if s.get_char(i) == sep {
            let piece = String::from_str(s.substring_char(start, i));
            proof {
                let rem = s@.skip(start as int);
                assert(rem[i - start] == sep);
                assert forall|j: int| 0 <= j < i - start implies rem[j] != sep by {
                    assert(rem[j] == s@[start + j]);
                }
                lemma_first_idx_is(rem, sep, i - start);
                assert(rem.take(i - start) =~= s@.subrange(start as int, i as int));
                assert(rem.skip(i - start + 1) =~= s@.skip(i + 1));
                assert((pieces@.map_values(|p: String| p@) + spec_split(rem, sep)) =~= (
                pieces@.map_values(|p: String| p@).push(s@.subrange(start as int, i as int))
                    + spec_split(s@.skip(i + 1), sep)));
                assert(pieces@.push(piece).map_values(|p: String| p@) =~= pieces@.map_values(
                    |p: String| p@,
                ).push(piece@));
            }
            pieces.push(piece);
            start = i + 1;
        }
        i = i + 1;
    }
    let last = String::from_str(s.substring_char(start, len));
    proof {
        let rem = s@.skip(start as int);
        assert forall|j: int| 0 <= j < rem.len() implies rem[j] != sep by {
            assert(rem[j] == s@[start + j]);
        }
        assert(!contains_char(rem, sep));
        assert(spec_split(rem, sep) =~= seq![rem]);
        assert(rem =~= s@.subrange(start as int, len as int));
        assert(pieces@.push(last).map_values(|p: String| p@) =~= pieces@.map_values(|p: String| p@)
            + seq![rem]);
    }
    pieces.push(last);
    pieces
}

pub open spec fn is_space(c: char) -> bool {
    c == ' ' || c == '\t' || c == '\r'
}

pub open spec fn spec_trim_start(s: Seq<char>) -> Seq<char>
    decreases s.len(),
{
    if s.len() > 0 && is_space(s[0]) {
        spec_trim_start(s.skip(1))
    } else {
        s
    }
}

pub open spec fn spec_trim_end(s: Seq<char>) -> Seq<char>
    decreases s.len(),
{
    if s.len() > 0 && is_space(s.last()) {
        spec_trim_end(s.drop_last())
    } else {
        s
    }
}

/// `s` without leading and trailing blanks.
pub open spec fn spec_trim(s: Seq<char>) -> Seq<char> {
    spec_trim_end(spec_trim_start(s))
}

proof fn lemma_trim_start_skip(s: Seq<char>, a: int)
    requires
        0 <= a <= s.len(),
        forall|j: int| 0 <= j < a ==> is_space(s[j]),
        a == s.len() || !is_space(s[a]),
    ensures
        spec_trim_start(s) == s.skip(a),
    decreases a,
{
    if a == 0 {
        assert(s.skip(0) =~= s);
    } else {
        let t = s.skip(1);
        assert forall|j: int| 0 <= j < a - 1 implies is_space(t[j]) by {
            assert(t[j] == s[j + 1]);
        }
        if a - 1 < t.len() {
            assert(t[a - 1] == s[a]);
        }
        lemma_trim_start_skip(t, a - 1);
        assert(t.skip(a - 1) =~= s.skip(a));
    }
}

proof fn lemma_trim_end_take(s: Seq<char>, b: int)
    requires
        0 <= b <= s.len(),
        forall|j: int| b <= j < s.len() ==> is_space(s[j]),
        b == 0 || !is_space(s[b - 1]),
    ensures
        spec_trim_end(s) == s.take(b),
    decreases s.len() - b,
{
    if b == s.len() {
        assert(s.take(b) =~= s);
    } else {
        let t = s.drop_last();
        assert forall|j: int| b <= j < t.len() implies is_space(t[j]) by {
            assert(t[j] == s[j]);
        }
        if b > 0 {
            assert(t[b - 1] == s[b - 1]);
        }
        lemma_trim_end_take(t, b);
        assert(t.take(b) =~= s.take(b));
    }
}

/// A string with no blank at either end is left unchanged by trimming.
pub proof fn lemma_trim_noop(s: Seq<char>)
    requires
        s.len() == 0 || (!is_space(s[0]) && !is_space(s.last())),
    ensures
        spec_trim(s) == s,
{
    lemma_trim_start_skip(s, 0);
    assert(s.skip(0) =~= s);
    lemma_trim_end_take(s, s.len() as int);
    assert(s.take(s.len() as int) =~= s);
}

/// Removes leading and trailing blanks.
pub fn trim(s: &str) -> (r: String)
    ensures
        r@ == spec_trim(s@),
{
    let len = s.unicode_len();
    let mut a: usize = 0;
    loop
        invariant
            len == s@.len(),
            0 <= a <= len,
            forall|j: int| 0 <= j < a ==> is_space(s@[j]),
        ensures
            0 <= a <= len,
            forall|j: int| 0 <= j < a ==> is_space(s@[j]),
            a == len || !is_space(s@[a as int]),
        decreases len - a,
    {
        if a >= len {
            break;
        }
        let c = s.get_char(a);
        if !(c == ' ' || c == '\t' || c == '\r') {
            break;
        }
        a = a + 1;
    }
    let mut b: usize = len;
    loop
        invariant
            len == s@.len(),
            a <= b <= len,
            forall|j: int| 0 <= j < a ==> is_space(s@[j]),
            a == len || !is_space(s@[a as int]),
            forall|j: int| b <= j < len ==> is_space(s@[j]),
        ensures
            a <= b <= len,
            forall|j: int| b <= j < len ==> is_space(s@[j]),
            b == a || !is_space(s@[b - 1]),
        decreases b,
    {
        if b <= a {
            break;
        }
        let c = s.get_char(b - 1);
        if !(c == ' ' || c == '\t' || c == '\r') {
            break;
        }
        b = b - 1;
    }
    let r = s.substring_char(a, b);
    proof {
        lemma_trim_start_skip(s@, a as int);
        let t = s@.skip(a as int);
        assert forall|j: int| (b - a) <= j < t.len() implies is_space(t[j]) by {
            assert(t[j] == s@[a + j]);
        }
        if b > a {
            assert(t[b - a - 1] == s@[b - 1]);
        } else {
            assert(t.len() == len - a);
            if a < len {
                assert(t[0] == s@[a as int]);
            }
        }
        lemma_trim_end_take(t, b - a as int);
        assert(t.take(b - a as int) =~= s@.subrange(a as int, b as int));
    }
    String::from_str(r)
}

/// Whether `s` begins with `p`.
pub open spec fn starts_with(s: Seq<char>, p: Seq<char>) -> bool {
    s.len() >= p.len() && s.take(p.len() as int) == p
}

/// A string differing from `p` inside `p`'s extent does not begin with `p`.
pub proof fn lemma_starts_with_differs(s: Seq<char>, p: Seq<char>, j: int)
    requires
        0 <= j < p.len(),
        j < s.len(),
        s[j] != p[j],
    ensures
        !starts_with(s, p),
{
    if starts_with(s, p) {
        assert(s.take(p.len() as int)[j] == s[j]);
    }
}

/// Character-for-character equality of two string slices.
pub fn str_eq(a: &str, b: &str) -> (r: bool)
    ensures
        r == (a@ == b@),
{
    let alen = a.unicode_len();
    let blen = b.unicode_len();
    if alen != blen {
        return false;
    }
    let mut i: usize = 0;
    while i < alen
        invariant
            alen == a@.len(),
            alen == b@.len(),
            0 <= i <= alen,
            forall|j: int| 0 <= j < i ==> a@[j] == b@[j],
        decreases alen - i,
    {
        if a.get_char(i) != b.get_char(i) {
            return false;
        }
        i = i + 1;
    }
    proof {
        assert(a@ =~= b@);
    }
    true
}

} // verus!
