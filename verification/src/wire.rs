use vstd::prelude::*;

use crate::isolate::{sec_str, spec_sec_str};
use crate::judge::{FullResult, Verdict, spec_verdict_code};
use crate::numbers::{spec_digits, u64_to_string};
use vstd::string::StringSliceAdditionalSpecFns;

verus! {

pub open spec fn contains_byte(s: Seq<u8>, b: u8) -> bool {
    exists|i: int| 0 <= i < s.len() && s[i] == b
}

/// Index of the first occurrence of `b`; meaningful only when `contains_byte`
/// holds.
pub open spec fn first_byte_idx(s: Seq<u8>, b: u8) -> int
    decreases s.len(),
{
    if s.len() == 0 {
        0
    } else if s[0] == b {
        0
    } else {
        1 + first_byte_idx(s.skip(1), b)
    }
}

proof fn lemma_first_byte_idx_is(s: Seq<u8>, b: u8, k: int)
    requires
        0 <= k < s.len(),
        s[k] == b,
        forall|j: int| 0 <= j < k ==> s[j] != b,
    ensures
        contains_byte(s, b),
        first_byte_idx(s, b) == k,
    decreases s.len(),
{
    assert(contains_byte(s, b));
    if s[0] == b {
    } else {
        let t = s.skip(1);
        assert(t[k - 1] == b);
        assert forall|j: int| 0 <= j < k - 1 implies t[j] != b by {
            assert(t[j] == s[j + 1]);
        }
        lemma_first_byte_idx_is(t, b, k - 1);
    }
}

/// Finds the first occurrence of `b` in `s`.
pub fn find_byte(s: &[u8], b: u8) -> (r: Option<usize>)
    ensures
        r is Some <==> contains_byte(s@, b),
        r matches Some(i) ==> i == first_byte_idx(s@, b) && i < s@.len(),
{
    let len = s.len();
    let mut i: usize = 0;
    while i < len
        invariant
            len == s@.len(),
            0 <= i <= len,
            forall|j: int| 0 <= j < i ==> s@[j] != b,
        decreases len - i,
    {
        if s[i] == b {
            proof {
                lemma_first_byte_idx_is(s@, b, i as int);
            }
            return Some(i);
        }
        i = i + 1;
    }
    None
}

pub open spec fn is_blank_byte(b: u8) -> bool {
    b == 32 || b == 9 || b == 13 || b == 10
}

pub open spec fn spec_trim_bytes_start(s: Seq<u8>) -> Seq<u8>
    decreases s.len(),
{
    if s.len() > 0 && is_blank_byte(s[0]) {
        spec_trim_bytes_start(s.skip(1))
    } else {
        s
    }
}

pub open spec fn spec_trim_bytes_end(s: Seq<u8>) -> Seq<u8>
    decreases s.len(),
{
    if s.len() > 0 && is_blank_byte(s.last()) {
        spec_trim_bytes_end(s.drop_last())
    } else {
        s
    }
}

/// `s` without leading and trailing blanks, newlines included.
pub open spec fn spec_trim_bytes(s: Seq<u8>) -> Seq<u8> {
    spec_trim_bytes_end(spec_trim_bytes_start(s))
}

proof fn lemma_trim_bytes_start_skip(s: Seq<u8>, a: int)
    requires
        0 <= a <= s.len(),
        forall|j: int| 0 <= j < a ==> is_blank_byte(s[j]),
        a == s.len() || !is_blank_byte(s[a]),
    ensures
        spec_trim_bytes_start(s) == s.skip(a),
    decreases a,
{
    if a == 0 {
        assert(s.skip(0) =~= s);
    } else {
        let t = s.skip(1);
        assert forall|j: int| 0 <= j < a - 1 implies is_blank_byte(t[j]) by {
            assert(t[j] == s[j + 1]);
        }
        if a - 1 < t.len() {
            assert(t[a - 1] == s[a]);
        }
        lemma_trim_bytes_start_skip(t, a - 1);
        assert(t.skip(a - 1) =~= s.skip(a));
    }
}

proof fn lemma_trim_bytes_end_take(s: Seq<u8>, b: int)
    requires
        0 <= b <= s.len(),
        forall|j: int| b <= j < s.len() ==> is_blank_byte(s[j]),
        b == 0 || !is_blank_byte(s[b - 1]),
    ensures
        spec_trim_bytes_end(s) == s.take(b),
    decreases s.len() - b,
{
    if b == s.len() {
        assert(s.take(b) =~= s);
    } else {
        let t = s.drop_last();
        assert forall|j: int| b <= j < t.len() implies is_blank_byte(t[j]) by {
            assert(t[j] == s[j]);
        }
        if b > 0 {
            assert(t[b - 1] == s[b - 1]);
        }
        lemma_trim_bytes_end_take(t, b);
        assert(t.take(b) =~= s.take(b));
    }
}

/// Removes leading and trailing blanks from a byte string.
pub fn trim_bytes(s: &[u8]) -> (r: Vec<u8>)
    ensures
        r@ == spec_trim_bytes(s@),
{
    let len = s.len();
    let mut a: usize = 0;
    loop
        invariant
            len == s@.len(),
            0 <= a <= len,
            forall|j: int| 0 <= j < a ==> is_blank_byte(s@[j]),
        ensures
            0 <= a <= len,
            forall|j: int| 0 <= j < a ==> is_blank_byte(s@[j]),
            a == len || !is_blank_byte(s@[a as int]),
        decreases len - a,
    {
        if a >= len {
            break;
        }
        let c = s[a];
        if !(c == 32 || c == 9 || c == 13 || c == 10) {
            break;
        }
        a = a + 1;
    }
    let mut b: usize = len;
    loop
        invariant
            len == s@.len(),
            a <= b <= len,
            forall|j: int| 0 <= j < a ==> is_blank_byte(s@[j]),
            a == len || !is_blank_byte(s@[a as int]),
            forall|j: int| b <= j < len ==> is_blank_byte(s@[j]),
        ensures
            a <= b <= len,
            forall|j: int| b <= j < len ==> is_blank_byte(s@[j]),
            b == a || !is_blank_byte(s@[b - 1]),
        decreases b,
    {
        if b <= a {
            break;
        }
        let c = s[b - 1];
        if !(c == 32 || c == 9 || c == 13 || c == 10) {
            break;
        }
        b = b - 1;
    }
    let r = vstd::slice::slice_to_vec(&s[a..b]);
    proof {
        lemma_trim_bytes_start_skip(s@, a as int);
        let t = s@.skip(a as int);
        assert forall|j: int| (b - a) <= j < t.len() implies is_blank_byte(t[j]) by {
            assert(t[j] == s@[a + j]);
        }
        if b > a {
            assert(t[b - a - 1] == s@[b - 1]);
        } else {
            if a < len {
                assert(t[0] == s@[a as int]);
            }
        }
        lemma_trim_bytes_end_take(t, b - a as int);
        assert(t.take(b - a as int) =~= s@.subrange(a as int, b as int));
    }
    r
}

/// The key and value of one header line: split at the first space, both sides
/// trimmed; a line without a space is all key.
pub open spec fn spec_line_kv(line: Seq<u8>) -> (Seq<u8>, Seq<u8>) {
    if contains_byte(line, 32) {
        let j = first_byte_idx(line, 32);
        (spec_trim_bytes(line.take(j)), spec_trim_bytes(line.skip(j + 1)))
    } else {
        (spec_trim_bytes(line), Seq::<u8>::empty())
    }
}

/// The bytes of `DATA`, the sentinel that ends a header.
pub open spec fn data_sentinel() -> Seq<u8> {
    seq![68u8, 65u8, 84u8, 65u8]
}

/// The header fields and the payload of one frame: `key value` lines up to a
/// bare `DATA` line, after which the rest of the frame is the payload.
pub open spec fn spec_deserialize(buf: Seq<u8>) -> (Seq<(Seq<u8>, Seq<u8>)>, Option<Seq<u8>>)
    decreases buf.len(),
{
    if !contains_byte(buf, 10) {
        (Seq::empty(), None)
    } else {
        let i = first_byte_idx(buf, 10);
        if 0 <= i < buf.len() {
            let kv = spec_line_kv(buf.take(i + 1));
            let rest = buf.skip(i + 1);
            if kv.0 == data_sentinel() {
                (Seq::empty(), Some(rest))
            } else {
                let tail = spec_deserialize(rest);
                (seq![kv] + tail.0, tail.1)
            }
        } else {
            (Seq::empty(), None)
        }
    }
}

pub open spec fn byte_pairs_view(ps: Seq<(Vec<u8>, Vec<u8>)>) -> Seq<(Seq<u8>, Seq<u8>)> {
    ps.map_values(|p: (Vec<u8>, Vec<u8>)| (p.0@, p.1@))
}

/// Reads a frame's header fields and payload. Each line up to the first `\n`
/// yields one `key value` pair; a bare `DATA` line ends the header and the
/// rest of the buffer is the payload. Total on every byte string.
pub fn deserialize_msg(buf: &[u8]) -> (r: (Vec<(Vec<u8>, Vec<u8>)>, Option<Vec<u8>>))
    ensures
        byte_pairs_view(r.0@) == spec_deserialize(buf@).0,
        match r.1 {
            Some(d) => spec_deserialize(buf@).1 == Some(d@),
            None => spec_deserialize(buf@).1 is None,
        },
{
    let mut pairs: Vec<(Vec<u8>, Vec<u8>)> = Vec::new();
    let mut pos: usize = 0;
    let len = buf.len();
    proof {
        assert(buf@.skip(0) =~= buf@);
        assert(byte_pairs_view(pairs@) =~= Seq::<(Seq<u8>, Seq<u8>)>::empty());
        assert(Seq::<(Seq<u8>, Seq<u8>)>::empty() + spec_deserialize(buf@).0 =~= spec_deserialize(
            buf@,
        ).0);
    }
    loop
        invariant
            len == buf@.len(),
            0 <= pos <= len,
            spec_deserialize(buf@).0 == byte_pairs_view(pairs@) + spec_deserialize(
                buf@.skip(pos as int),
            ).0,
            spec_deserialize(buf@).1 == spec_deserialize(buf@.skip(pos as int)).1,
        ensures
            byte_pairs_view(pairs@) == spec_deserialize(buf@).0,
            spec_deserialize(buf@.skip(pos as int)).1 is None,
            spec_deserialize(buf@).1 == spec_deserialize(buf@.skip(pos as int)).1,
        decreases len - pos,
    {
        let rem: &[u8] = &buf[pos..len];
        proof {
            assert(rem@ =~= buf@.skip(pos as int));
        }
        match find_byte(rem, 10) {
            None => {
                proof {
                    assert(spec_deserialize(rem@).0 =~= Seq::<(Seq<u8>, Seq<u8>)>::empty());
                    assert(byte_pairs_view(pairs@) + spec_deserialize(rem@).0 =~= byte_pairs_view(
                        pairs@,
                    ));
                }
                break;
            },
            Some(i) => {
                let line: &[u8] = &rem[0..i + 1];
                proof {
                    assert(line@ =~= rem@.take(i + 1));
                }
                let (key, value) = match find_byte(line, 32) {
                    Some(j) => {
                        let k = trim_bytes(&line[0..j]);
                        let v = trim_bytes(&line[j + 1..i + 1]);
                        proof {
                            assert(line@.subrange(0, j as int) =~= line@.take(j as int));
                            assert(line@.subrange(j + 1, i + 1) =~= line@.skip(j + 1));
                        }
                        (k, v)
                    },
                    None => {
                        let k = trim_bytes(line);
                        let v: Vec<u8> = Vec::new();
                        proof {
                            assert(v@ =~= Seq::<u8>::empty());
                        }
                        (k, v)
                    },
                };
                proof {
                    assert((key@, value@) == spec_line_kv(rem@.take(i + 1)));
                }
                let is_data = key.len() == 4 && key[0] == 68 && key[1] == 65 && key[2] == 84
                    && key[3] == 65;
                proof {
                    if is_data {
                        assert(key@ =~= data_sentinel());
                    } else {
                        assert(key@ != data_sentinel());
                    }
                }
                if is_data {
                    let rlen = rem.len();
                    let data = vstd::slice::slice_to_vec(&rem[i + 1..rlen]);
                    proof {
                        assert(data@ =~= rem@.skip(i + 1));
                        assert(spec_deserialize(rem@).0 =~= Seq::<(Seq<u8>, Seq<u8>)>::empty());
                        assert(byte_pairs_view(pairs@) + spec_deserialize(rem@).0
                            =~= byte_pairs_view(pairs@));
                        assert(spec_deserialize(rem@).1 == Some(data@));
                    }
                    return (pairs, Some(data));
                }
                proof {
                    let tail = spec_deserialize(rem@.skip(i + 1));
                    assert(spec_deserialize(rem@).0 =~= seq![(key@, value@)] + tail.0);
                    assert(spec_deserialize(rem@).1 == tail.1);
                    assert(byte_pairs_view(pairs@.push((key, value))) =~= byte_pairs_view(
                        pairs@,
                    ).push((key@, value@)));
                    assert(byte_pairs_view(pairs@) + (seq![(key@, value@)] + tail.0)
                        =~= byte_pairs_view(pairs@).push((key@, value@)) + tail.0);
                    assert(buf@.skip(pos + i + 1) =~= rem@.skip(i + 1));
                }
                pairs.push((key, value));
                pos = pos + i + 1;
            },
        }
    }
    (pairs, None)
}

/// The bytes of serialized header fields followed by the payload: each field
/// as `key value\n`, then, where a payload exists, `DATA\n` and the payload.
pub open spec fn spec_serialize(fields: Seq<(Seq<u8>, Seq<u8>)>, data: Option<Seq<u8>>) -> Seq<u8> {
    spec_fields_bytes(fields) + (match data {
        Some(d) => data_sentinel() + seq![10u8] + d,
        None => Seq::<u8>::empty(),
    })
}

pub open spec fn spec_fields_bytes(fields: Seq<(Seq<u8>, Seq<u8>)>) -> Seq<u8>
    decreases fields.len(),
{
    if fields.len() == 0 {
        Seq::empty()
    } else {
        (fields[0].0 + seq![32u8] + fields[0].1 + seq![10u8]) + spec_fields_bytes(fields.skip(1))
    }
}

proof fn lemma_fields_bytes_snoc(fields: Seq<(Seq<u8>, Seq<u8>)>, f: (Seq<u8>, Seq<u8>))
    ensures
        spec_fields_bytes(fields.push(f)) == spec_fields_bytes(fields) + (f.0 + seq![32u8] + f.1
            + seq![10u8]),
    decreases fields.len(),
{
    if fields.len() == 0 {
        let one = fields.push(f);
        assert(one[0] == f);
        assert(one.skip(1) =~= Seq::<(Seq<u8>, Seq<u8>)>::empty());
        assert(spec_fields_bytes(one.skip(1)) =~= Seq::<u8>::empty());
        assert(spec_fields_bytes(one) =~= spec_fields_bytes(fields) + (f.0 + seq![32u8] + f.1
            + seq![10u8]));
    } else {
        assert(fields.push(f).skip(1) =~= fields.skip(1).push(f));
        lemma_fields_bytes_snoc(fields.skip(1), f);
        assert(fields.push(f)[0] == fields[0]);
        assert(spec_fields_bytes(fields.push(f)) =~= spec_fields_bytes(fields) + (f.0 + seq![32u8]
            + f.1 + seq![10u8]));
    }
}

fn push_all(v: &mut Vec<u8>, s: &[u8])
    ensures
        final(v)@ == old(v)@ + s@,
{
    let mut i: usize = 0;
    let n = s.len();
    proof {
        assert(v@ =~= old(v)@ + s@.take(0));
    }
    while i < n
        invariant
            n == s@.len(),
            0 <= i <= n,
            v@ == old(v)@ + s@.take(i as int),
        decreases n - i,
    {
        v.push(s[i]);
        proof {
            assert(s@.take(i + 1) =~= s@.take(i as int).push(s@[i as int]));
            assert((old(v)@ + s@.take(i as int)).push(s@[i as int]) =~= old(v)@ + s@.take(i + 1));
        }
        i = i + 1;
    }
    proof {
        assert(s@.take(n as int) =~= s@);
    }
}

/// Writes header fields and payload as one frame: `key value\n` per field,
/// then `DATA\n` and the raw payload where one exists.
pub fn serialize_msg(fields: &Vec<(Vec<u8>, Vec<u8>)>, data: Option<Vec<u8>>) -> (r: Vec<u8>)
    ensures
        r@ == spec_serialize(byte_pairs_view(fields@), opt_bytes_view(data)),
{
    let ghost fv = byte_pairs_view(fields@);
    let mut r: Vec<u8> = Vec::new();
    let mut i: usize = 0;
    let n = fields.len();
    proof {
        assert(fv.take(0) =~= Seq::<(Seq<u8>, Seq<u8>)>::empty());
        assert(r@ =~= spec_fields_bytes(fv.take(0)));
    }
    while i < n
        invariant
            n == fields@.len(),
            fv == byte_pairs_view(fields@),
            0 <= i <= n,
            r@ == spec_fields_bytes(fv.take(i as int)),
        decreases n - i,
    {
        proof {
            assert(fv.take(i + 1) =~= fv.take(i as int).push(fv[i as int]));
            lemma_fields_bytes_snoc(fv.take(i as int), fv[i as int]);
            assert(fv[i as int] == (fields@[i as int].0@, fields@[i as int].1@));
        }
        push_all(&mut r, fields[i].0.as_slice());
        r.push(32);
        push_all(&mut r, fields[i].1.as_slice());
        r.push(10);
        proof {
            assert(r@ =~= spec_fields_bytes(fv.take(i + 1)));
        }
        i = i + 1;
    }
    proof {
        assert(fv.take(n as int) =~= fv);
    }
    match data {
        Some(d) => {
            r.push(68);
            r.push(65);
            r.push(84);
            r.push(65);
            r.push(10);
            push_all(&mut r, d.as_slice());
            proof {
                assert(r@ =~= spec_serialize(fv, Some(d@)));
            }
            r
        },
        None => {
            proof {
                assert(r@ =~= spec_serialize(fv, None));
            }
            r
        },
    }
}

pub open spec fn opt_bytes_view(o: Option<Vec<u8>>) -> Option<Seq<u8>> {
    match o {
        Some(d) => Some(d@),
        None => None,
    }
}

/// A byte string with no blank at either end is left alone by trimming.
proof fn lemma_trim_bytes_noop(s: Seq<u8>)
    requires
        s.len() == 0 || (!is_blank_byte(s[0]) && !is_blank_byte(s.last())),
    ensures
        spec_trim_bytes(s) == s,
{
    lemma_trim_bytes_start_skip(s, 0);
    assert(s.skip(0) =~= s);
    lemma_trim_bytes_end_take(s, s.len() as int);
    assert(s.take(s.len() as int) =~= s);
}

/// A header field a frame can carry without loss: a nonempty key free of
/// blanks that is not the payload sentinel, and a value with no newline and
/// no blank at either end.
pub open spec fn wire_field_wf(f: (Seq<u8>, Seq<u8>)) -> bool {
    &&& f.0.len() > 0
    &&& forall|i: int| 0 <= i < f.0.len() ==> !is_blank_byte(#[trigger] f.0[i])
    &&& f.0 != data_sentinel()
    &&& !contains_byte(f.1, 10)
    &&& f.1.len() == 0 || (!is_blank_byte(f.1[0]) && !is_blank_byte(f.1.last()))
}

/// Reading a written frame back recovers its fields and its payload, for
/// every field a frame can carry without loss.
pub proof fn lemma_deserialize_serialize(fields: Seq<(Seq<u8>, Seq<u8>)>, data: Option<Seq<u8>>)
    requires
        forall|k: int| 0 <= k < fields.len() ==> wire_field_wf(#[trigger] fields[k]),
    ensures
        spec_deserialize(spec_serialize(fields, data)) == (fields, data),
    decreases fields.len(),
{
    let buf = spec_serialize(fields, data);
    if fields.len() == 0 {
        assert(spec_fields_bytes(fields) =~= Seq::<u8>::empty());
        match data {
            None => {
                assert(buf =~= Seq::<u8>::empty());
                assert(!contains_byte(buf, 10));
                assert(spec_deserialize(buf) == (Seq::<(Seq<u8>, Seq<u8>)>::empty(), None::<
                    Seq<u8>,
                >));
                assert((Seq::<(Seq<u8>, Seq<u8>)>::empty(), None::<Seq<u8>>) == (fields, data));
            },
            Some(d) => {
                assert(buf =~= data_sentinel() + seq![10u8] + d);
                assert(buf[4] == 10);
                assert forall|j: int| 0 <= j < 4 implies buf[j] != 10 by {
                    assert(buf[j] == data_sentinel()[j]);
                }
                lemma_first_byte_idx_is(buf, 10, 4);
                let line = buf.take(5);
                assert(line =~= data_sentinel() + seq![10u8]);
                assert(!contains_byte(line, 32)) by {
                    if contains_byte(line, 32) {
                        let i = choose|i: int| 0 <= i < line.len() && line[i] == 32;
                    }
                }
                assert(spec_trim_bytes(line) == data_sentinel()) by {
                    lemma_trim_bytes_start_skip(line, 0);
                    assert(line.skip(0) =~= line);
                    lemma_trim_bytes_end_take(line, 4);
                    assert(line.take(4) =~= data_sentinel());
                }
                assert(spec_line_kv(line).0 == data_sentinel());
                assert(buf.skip(5) =~= d);
                assert(spec_deserialize(buf) == (Seq::<(Seq<u8>, Seq<u8>)>::empty(), Some(d)));
                assert((Seq::<(Seq<u8>, Seq<u8>)>::empty(), Some(d)) == (fields, data));
            },
        }
    } else {
        let key = fields[0].0;
        let value = fields[0].1;
        let line = key + seq![32u8] + value + seq![10u8];
        let rest = spec_serialize(fields.skip(1), data);
        assert(spec_fields_bytes(fields) == line + spec_fields_bytes(fields.skip(1)));
        assert(buf =~= line + rest);
        let nl = line.len() - 1;
        assert(buf[nl] == 10);
        assert forall|j: int| 0 <= j < nl implies buf[j] != 10 by {
            if j < key.len() {
                assert(buf[j] == key[j]);
                assert(!is_blank_byte(key[j]));
            } else if j == key.len() {
                assert(buf[j] == 32);
            } else {
                assert(buf[j] == value[j - key.len() - 1]);
                assert(!contains_byte(value, 10));
            }
        }
        lemma_first_byte_idx_is(buf, 10, nl);
        assert(buf.take(nl + 1) =~= line);
        assert(buf.skip(nl + 1) =~= rest);
        // the line splits at the space after the key
        assert(line[key.len() as int] == 32);
        assert forall|j: int| 0 <= j < key.len() implies line[j] != 32 by {
            assert(line[j] == key[j]);
            assert(!is_blank_byte(key[j]));
        }
        lemma_first_byte_idx_is(line, 32, key.len() as int);
        assert(line.take(key.len() as int) =~= key);
        assert(spec_trim_bytes(key) == key) by {
            lemma_trim_bytes_noop(key);
        }
        let vtail = line.skip(key.len() as int + 1);
        assert(vtail =~= value + seq![10u8]);
        assert(spec_trim_bytes(vtail) == value) by {
            if value.len() == 0 {
                assert(vtail =~= seq![10u8]);
                assert(vtail[0] == 10 && is_blank_byte(vtail[0]));
                assert(vtail.skip(1) =~= Seq::<u8>::empty());
                assert(spec_trim_bytes_start(Seq::<u8>::empty()) == Seq::<u8>::empty());
                assert(spec_trim_bytes_start(vtail) == spec_trim_bytes_start(vtail.skip(1)));
                assert(spec_trim_bytes_end(Seq::<u8>::empty()) == Seq::<u8>::empty());
                assert(spec_trim_bytes(vtail) =~= value);
            } else {
                assert(vtail[0] == value[0]);
                lemma_trim_bytes_start_skip(vtail, 0);
                assert(vtail.skip(0) =~= vtail);
                assert forall|j: int|
                    value.len() <= j < vtail.len() implies is_blank_byte(vtail[j]) by {
                    assert(vtail[j] == 10);
                }
                assert(vtail[value.len() - 1] == value.last());
                lemma_trim_bytes_end_take(vtail, value.len() as int);
                assert(vtail.take(value.len() as int) =~= value);
            }
        }
        assert(spec_line_kv(line) == (key, value));
        assert(key != data_sentinel());
        assert forall|k: int| 0 <= k < fields.skip(1).len() implies wire_field_wf(
            #[trigger] fields.skip(1)[k],
        ) by {
            assert(fields.skip(1)[k] == fields[k + 1]);
        }
        lemma_deserialize_serialize(fields.skip(1), data);
        assert(spec_deserialize(buf).0 =~= seq![(key, value)] + fields.skip(1));
        assert(seq![(key, value)] + fields.skip(1) =~= fields);
        assert(spec_deserialize(buf).1 == data);
    }
}

/// One outbound frame under construction: its type, its header fields, and an
/// optional binary payload.
#[derive(Debug)]
pub struct Body {
    pub typ: String,
    pub fields: Vec<(String, String)>,
    pub data: Option<Vec<u8>>,
}

/// Mathematical image of a `Body`.
pub ghost struct BodyView {
    pub typ: Seq<char>,
    pub fields: Seq<(Seq<char>, Seq<char>)>,
    pub data: Option<Seq<u8>>,
}

impl View for Body {
    type V = BodyView;

    open spec fn view(&self) -> BodyView {
        BodyView {
            typ: self.typ@,
            fields: self.fields@.map_values(|p: (String, String)| (p.0@, p.1@)),
            data: opt_bytes_view(self.data),
        }
    }
}

pub open spec fn spec_fields_text(fields: Seq<(Seq<char>, Seq<char>)>) -> Seq<char>
    decreases fields.len(),
{
    if fields.len() == 0 {
        Seq::empty()
    } else {
        (fields[0].0 + " "@ + fields[0].1 + "\n"@) + spec_fields_text(fields.skip(1))
    }
}

proof fn lemma_fields_text_snoc(fields: Seq<(Seq<char>, Seq<char>)>, f: (Seq<char>, Seq<char>))
    ensures
        spec_fields_text(fields.push(f)) == spec_fields_text(fields) + (f.0 + " "@ + f.1 + "\n"@),
    decreases fields.len(),
{
    if fields.len() == 0 {
        let one = fields.push(f);
        assert(one[0] == f);
        assert(one.skip(1) =~= Seq::<(Seq<char>, Seq<char>)>::empty());
        assert(spec_fields_text(one.skip(1)) =~= Seq::<char>::empty());
        assert(spec_fields_text(one) =~= spec_fields_text(fields) + (f.0 + " "@ + f.1 + "\n"@));
    } else {
        assert(fields.push(f).skip(1) =~= fields.skip(1).push(f));
        lemma_fields_text_snoc(fields.skip(1), f);
        assert(fields.push(f)[0] == fields[0]);
        assert(spec_fields_text(fields.push(f)) =~= spec_fields_text(fields) + (f.0 + " "@ + f.1
            + "\n"@));
    }
}

/// The header of one frame as text: the `TYPE` line, the field lines, and the
/// `DATA` line where a payload follows.
pub open spec fn spec_header_text(b: BodyView) -> Seq<char> {
    "TYPE "@ + b.typ + "\n"@ + spec_fields_text(b.fields) + (match b.data {
        Some(_) => "DATA\n"@,
        None => Seq::<char>::empty(),
    })
}

impl Body {
    /// An empty frame of the given type.
    pub fn new(typ: &str) -> (r: Body)
        ensures
            r@.typ == typ@,
            r@.fields == Seq::<(Seq<char>, Seq<char>)>::empty(),
            r@.data is None,
    {
        let r = Body { typ: String::from_str(typ), fields: Vec::new(), data: None };
        proof {
            assert(r@.fields =~= Seq::<(Seq<char>, Seq<char>)>::empty());
        }
        r
    }

    /// Appends one header field.
    pub fn add_field(&mut self, name: &str, value: &str)
        ensures
            final(self)@ == (BodyView {
                fields: old(self)@.fields.push((name@, value@)),
                ..old(self)@
            }),
    {
        self.fields.push((String::from_str(name), String::from_str(value)));
        proof {
            assert(self@.fields =~= old(self)@.fields.push((name@, value@)));
        }
    }

    /// Appends a batch of header fields, in order.
    pub fn add_fields(&mut self, fields: Vec<(String, String)>)
        ensures
            final(self)@ == (BodyView {
                fields: old(self)@.fields + fields@.map_values(
                    |p: (String, String)| (p.0@, p.1@),
                ),
                ..old(self)@
            }),
    {
        let n = fields.len();
        let mut i: usize = 0;
        let ghost fv = fields@.map_values(|p: (String, String)| (p.0@, p.1@));
        proof {
            assert(self@.fields =~= old(self)@.fields + fv.take(0));
        }
        while i < n
            invariant
                n == fields@.len(),
                fv == fields@.map_values(|p: (String, String)| (p.0@, p.1@)),
                0 <= i <= n,
                self@ == (BodyView { fields: old(self)@.fields + fv.take(i as int), ..old(self)@ }),
            decreases n - i,
        {
            self.add_field(fields[i].0.as_str(), fields[i].1.as_str());
            proof {
                assert(fv[i as int] == (fields@[i as int].0@, fields@[i as int].1@));
                assert(fv.take(i + 1) =~= fv.take(i as int).push(fv[i as int]));
                assert((old(self)@.fields + fv.take(i as int)).push(fv[i as int]) =~= old(
                    self,
                )@.fields + fv.take(i + 1));
            }
            i = i + 1;
        }
        proof {
            assert(fv.take(n as int) =~= fv);
        }
    }

    /// Attaches the binary payload.
    pub fn set_data(&mut self, data: Vec<u8>)
        ensures
            final(self)@ == (BodyView { data: Some(data@), ..old(self)@ }),
    {
        self.data = Some(data);
    }

    /// Renders the frame's header as text.
    pub fn header_text(&self) -> (r: String)
        ensures
            r@ == spec_header_text(self@),
    {
        let mut r = String::from_str("TYPE ");
        r.append(self.typ.as_str());
        r.append("\n");
        let n = self.fields.len();
        let mut i: usize = 0;
        let ghost fv = self@.fields;
        proof {
            assert(fv.take(0) =~= Seq::<(Seq<char>, Seq<char>)>::empty());
            assert(r@ =~= "TYPE "@ + self@.typ + "\n"@ + spec_fields_text(fv.take(0)));
        }
        while i < n
            invariant
                n == self.fields@.len(),
                fv == self@.fields,
                0 <= i <= n,
                r@ == "TYPE "@ + self@.typ + "\n"@ + spec_fields_text(fv.take(i as int)),
            decreases n - i,
        {
            proof {
                assert(fv[i as int] == (self.fields@[i as int].0@, self.fields@[i as int].1@));
                assert(fv.take(i + 1) =~= fv.take(i as int).push(fv[i as int]));
                lemma_fields_text_snoc(fv.take(i as int), fv[i as int]);
            }
            r.append(self.fields[i].0.as_str());
            r.append(" ");
            r.append(self.fields[i].1.as_str());
            r.append("\n");
            proof {
                assert(r@ =~= "TYPE "@ + self@.typ + "\n"@ + spec_fields_text(fv.take(i + 1)));
            }
            i = i + 1;
        }
        proof {
            assert(fv.take(n as int) =~= fv);
        }
        match &self.data {
            Some(_) => {
                r.append("DATA\n");
                proof {
                    assert(r@ =~= spec_header_text(self@));
                }
            },
            None => {
                proof {
                    assert(r@ =~= spec_header_text(self@));
                }
            },
        }
        r
    }

    /// The frame on the wire: the UTF-8 bytes of the header, then the raw
    /// payload.
    pub fn into_bytes(self) -> (r: Vec<u8>)
        ensures
            r@ == vstd::utf8::encode_utf8(spec_header_text(self@)) + (match self@.data {
                Some(d) => d,
                None => Seq::<u8>::empty(),
            }),
    {
        let header = self.header_text();
        let mut r: Vec<u8> = Vec::new();
        let hb = header.as_str().as_bytes();
        push_all(&mut r, hb);
        proof {
            assert(hb@ == vstd::utf8::encode_utf8(header@));
            assert(Seq::<u8>::empty() + hb@ =~= hb@);
        }
        match self.data {
            Some(d) => {
                push_all(&mut r, d.as_slice());
            },
            None => {
                proof {
                    assert(r@ =~= vstd::utf8::encode_utf8(spec_header_text(self@))
                        + Seq::<u8>::empty());
                }
            },
        }
        r
    }
}

/// The final word on one submission, as the transport frames it.
#[derive(Debug)]
pub enum FullVerdict {
    Scored { score: u64, groups_score: Vec<u64> },
    Ce(String),
    Te(String),
}

impl FullVerdict {
    /// The transport's shape of a judge result.
    pub fn of_result(r: &FullResult) -> (v: FullVerdict)
        ensures
            match (r, &v) {
                (
                    FullResult::Scored { score: a, groups_score: b },
                    FullVerdict::Scored { score: c, groups_score: d },
                ) => a == c && b@ == d@,
                (FullResult::Ce(a), FullVerdict::Ce(b)) => a@ == b@,
                (FullResult::Te(a), FullVerdict::Te(b)) => a@ == b@,
                _ => false,
            },
    {
        match r {
            FullResult::Scored { score, groups_score } => {
                let mut gs: Vec<u64> = Vec::new();
                let n = groups_score.len();
                let mut i: usize = 0;
                while i < n
                    invariant
                        n == groups_score@.len(),
                        0 <= i <= n,
                        gs@ =~= groups_score@.take(i as int),
                    decreases n - i,
                {
                    gs.push(groups_score[i]);
                    proof {
                        assert(groups_score@.take(i + 1) =~= groups_score@.take(i as int).push(
                            groups_score@[i as int],
                        ));
                    }
                    i = i + 1;
                }
                proof {
                    assert(groups_score@.take(n as int) =~= groups_score@);
                }
                FullVerdict::Scored { score: *score, groups_score: gs }
            },
            FullResult::Ce(m) => FullVerdict::Ce(String::from_str(m.as_str())),
            FullResult::Te(m) => FullVerdict::Te(String::from_str(m.as_str())),
        }
    }
}

/// The `GROUPS` field: every group's score in decimal, each followed by one
/// space.
pub open spec fn spec_groups_field(gs: Seq<u64>) -> Seq<char>
    decreases gs.len(),
{
    if gs.len() == 0 {
        Seq::empty()
    } else {
        (spec_digits(gs[0] as nat) + " "@) + spec_groups_field(gs.skip(1))
    }
}

proof fn lemma_groups_field_snoc(gs: Seq<u64>, g: u64)
    ensures
        spec_groups_field(gs.push(g)) == spec_groups_field(gs) + (spec_digits(g as nat) + " "@),
    decreases gs.len(),
{
    if gs.len() == 0 {
        let one = gs.push(g);
        assert(one[0] == g);
        assert(one.skip(1) =~= Seq::<u64>::empty());
        assert(spec_groups_field(one.skip(1)) =~= Seq::<char>::empty());
        assert(spec_groups_field(one) =~= spec_groups_field(gs) + (spec_digits(g as nat) + " "@));
    } else {
        assert(gs.push(g).skip(1) =~= gs.skip(1).push(g));
        lemma_groups_field_snoc(gs.skip(1), g);
        assert(gs.push(g)[0] == gs[0]);
        assert(spec_groups_field(gs.push(g)) =~= spec_groups_field(gs) + (spec_digits(g as nat)
            + " "@));
    }
}

fn groups_field(gs: &Vec<u64>) -> (r: String)
    ensures
        r@ == spec_groups_field(gs@),
{
    let mut r = String::new();
    let n = gs.len();
    let mut i: usize = 0;
    proof {
        assert(gs@.take(0) =~= Seq::<u64>::empty());
        assert(r@ =~= spec_groups_field(gs@.take(0)));
    }
    while i < n
        invariant
            n == gs@.len(),
            0 <= i <= n,
            r@ == spec_groups_field(gs@.take(i as int)),
        decreases n - i,
    {
        proof {
            assert(gs@.take(i + 1) =~= gs@.take(i as int).push(gs@[i as int]));
            lemma_groups_field_snoc(gs@.take(i as int), gs@[i as int]);
        }
        let ds = u64_to_string(gs[i]);
        r.append(ds.as_str());
        r.append(" ");
        proof {
            assert(r@ =~= spec_groups_field(gs@.take(i + 1)));
        }
        i = i + 1;
    }
    proof {
        assert(gs@.take(n as int) =~= gs@);
    }
    r
}

/// Frames the submission's final word. A score travels as `NAME OK` with
/// `SUM` and `GROUPS`; a compile or judge failure as `NAME CE` or `NAME TE`
/// with the diagnostic under `MESSAGE`.
pub fn encode_full_verdict(v: &FullVerdict) -> (r: Body)
    ensures
        r@.typ == "VERDICT"@,
        r@.data is None,
        match v {
            FullVerdict::Scored { score, groups_score } => r@.fields == seq![
                ("NAME"@, "OK"@),
                ("SUM"@, spec_digits(*score as nat)),
                ("GROUPS"@, spec_groups_field(groups_score@)),
            ],
            FullVerdict::Ce(m) => r@.fields == seq![("NAME"@, "CE"@), ("MESSAGE"@, m@)],
            FullVerdict::Te(m) => r@.fields == seq![("NAME"@, "TE"@), ("MESSAGE"@, m@)],
        },
{
    let mut body = Body::new("VERDICT");
    match v {
        FullVerdict::Scored { score, groups_score } => {
            body.add_field("NAME", "OK");
            let sum = u64_to_string(*score);
            body.add_field("SUM", sum.as_str());
            let gf = groups_field(groups_score);
            body.add_field("GROUPS", gf.as_str());
            proof {
                assert(body@.fields =~= seq![
                    ("NAME"@, "OK"@),
                    ("SUM"@, spec_digits(*score as nat)),
                    ("GROUPS"@, spec_groups_field(groups_score@)),
                ]);
            }
        },
        FullVerdict::Ce(m) => {
            body.add_field("NAME", "CE");
            body.add_field("MESSAGE", m.as_str());
            proof {
                assert(body@.fields =~= seq![("NAME"@, "CE"@), ("MESSAGE"@, m@)]);
            }
        },
        FullVerdict::Te(m) => {
            body.add_field("NAME", "TE");
            body.add_field("MESSAGE", m.as_str());
            proof {
                assert(body@.fields =~= seq![("NAME"@, "TE"@), ("MESSAGE"@, m@)]);
            }
        },
    }
    body
}

/// Frames one test's outcome. The frame carries the test number, the
/// two-letter code, seconds and KiB, and the packed output as the payload.
pub fn encode_test_verdict(
    test_id: u64,
    verdict: Verdict,
    time_ms: u64,
    memory: u64,
    data: Vec<u8>,
) -> (r: Body)
    ensures
        r@.typ == "TEST"@,
        r@.fields == seq![
            ("ID"@, spec_digits(test_id as nat)),
            ("VERDICT"@, spec_verdict_code(verdict)),
            ("TIME"@, spec_sec_str(time_ms)),
            ("MEMORY"@, spec_digits(memory as nat)),
        ],
        r@.data == Some(data@),
{
    let mut body = Body::new("TEST");
    let id = u64_to_string(test_id);
    body.add_field("ID", id.as_str());
    body.add_field("VERDICT", verdict.code());
    let t = sec_str(time_ms);
    body.add_field("TIME", t.as_str());
    let m = u64_to_string(memory);
    body.add_field("MEMORY", m.as_str());
    body.set_data(data);
    proof {
        assert(body@.fields =~= seq![
            ("ID"@, spec_digits(test_id as nat)),
            ("VERDICT"@, spec_verdict_code(verdict)),
            ("TIME"@, spec_sec_str(time_ms)),
            ("MEMORY"@, spec_digits(memory as nat)),
        ]);
    }
    body
}

/// Frames the worker's exit notice.
pub fn encode_exited(code: u64, data: &str) -> (r: Body)
    ensures
        r@.typ == "EXITED"@,
        r@.fields == seq![("CODE"@, spec_digits(code as nat)), ("MESSAGE"@, data@)],
        r@.data is None,
{
    let mut body = Body::new("EXITED");
    let c = u64_to_string(code);
    body.add_field("CODE", c.as_str());
    body.add_field("MESSAGE", data);
    proof {
        assert(body@.fields =~= seq![("CODE"@, spec_digits(code as nat)), ("MESSAGE"@, data@)]);
    }
    body
}

/// Frames a fatal judging error.
pub fn encode_error(msg: &str) -> (r: Body)
    ensures
        r@.typ == "ERROR"@,
        r@.fields == seq![("MESSAGE"@, msg@)],
        r@.data is None,
{
    let mut body = Body::new("ERROR");
    body.add_field("MESSAGE", msg);
    proof {
        assert(body@.fields =~= seq![("MESSAGE"@, msg@)]);
    }
    body
}

/// Frames an operational error.
pub fn encode_operror(msg: &str) -> (r: Body)
    ensures
        r@.typ == "OPERROR"@,
        r@.fields == seq![("MESSAGE"@, msg@)],
        r@.data is None,
{
    let mut body = Body::new("OPERROR");
    body.add_field("MESSAGE", msg);
    proof {
        assert(body@.fields =~= seq![("MESSAGE"@, msg@)]);
    }
    body
}

/// Frames the worker's self-introduction: its token and its key name.
pub fn encode_token(token: &str, name: &str) -> (r: Body)
    ensures
        r@.typ == "TOKEN"@,
        r@.fields == seq![("ID"@, token@), ("KEY"@, name@)],
        r@.data is None,
{
    let mut body = Body::new("TOKEN");
    body.add_field("ID", token);
    body.add_field("KEY", name);
    proof {
        assert(body@.fields =~= seq![("ID"@, token@), ("KEY"@, name@)]);
    }
    body
}

/// One inbound order from the orchestration server.
#[derive(Debug)]
pub enum InMsg {
    Start { data: Vec<u8> },
    Stop,
    Close,
}

/// Mathematical image of an `InMsg`.
pub ghost enum InMsgView {
    Start { data: Seq<u8> },
    Stop,
    Close,
}

impl View for InMsg {
    type V = InMsgView;

    open spec fn view(&self) -> InMsgView {
        match self {
            InMsg::Start { data } => InMsgView::Start { data: data@ },
            InMsg::Stop => InMsgView::Stop,
            InMsg::Close => InMsgView::Close,
        }
    }
}

/// The value at `k` among parsed byte fields, the last occurrence winning.
pub open spec fn spec_lookup_bytes(ps: Seq<(Seq<u8>, Seq<u8>)>, k: Seq<u8>) -> Option<Seq<u8>>
    decreases ps.len(),
{
    if ps.len() == 0 {
        None
    } else if ps.last().0 == k {
        Some(ps.last().1)
    } else {
        spec_lookup_bytes(ps.drop_last(), k)
    }
}

/// The bytes of `TYPE`.
pub open spec fn type_key() -> Seq<u8> {
    seq![84u8, 89u8, 80u8, 69u8]
}

/// The bytes of `START`.
pub open spec fn start_key() -> Seq<u8> {
    seq![83u8, 84u8, 65u8, 82u8, 84u8]
}

/// The bytes of `STOP`.
pub open spec fn stop_key() -> Seq<u8> {
    seq![83u8, 84u8, 79u8, 80u8]
}

/// The bytes of `CLOSE`.
pub open spec fn close_key() -> Seq<u8> {
    seq![67u8, 76u8, 79u8, 83u8, 69u8]
}

/// The order a parsed frame carries: `START` with its payload, `STOP`, or
/// `CLOSE`; nothing for a frame of any other or missing type.
pub open spec fn spec_decode(ps: Seq<(Seq<u8>, Seq<u8>)>, data: Option<Seq<u8>>) -> Option<
    InMsgView,
> {
    match spec_lookup_bytes(ps, type_key()) {
        None => None,
        Some(t) => if t == start_key() {
            match data {
                Some(d) => Some(InMsgView::Start { data: d }),
                None => None,
            }
        } else if t == stop_key() {
            Some(InMsgView::Stop)
        } else if t == close_key() {
            Some(InMsgView::Close)
        } else {
            None
        },
    }
}

fn bytes_eq(a: &[u8], b: &[u8]) -> (r: bool)
    ensures
        r == (a@ == b@),
{
    let alen = a.len();
    if alen != b.len() {
        return false;
    }
    let mut i: usize = 0;
    while i < alen
        invariant
            alen == a@.len(),
            alen == b@.len(),
            0 <= i <= alen,
            forall|j: int| 0 <= j < i ==> a@[j] == b@[j],
        decreases alen - i,
    {
        if a[i] != b[i] {
            return false;
        }
        i = i + 1;
    }
    proof {
        assert(a@ =~= b@);
    }
    true
}

fn lookup_bytes(ps: &Vec<(Vec<u8>, Vec<u8>)>, key: &[u8]) -> (r: Option<Vec<u8>>)
    ensures
        match r {
            Some(v) => spec_lookup_bytes(byte_pairs_view(ps@), key@) == Some(v@),
            None => spec_lookup_bytes(byte_pairs_view(ps@), key@) is None,
        },
{
    let mut i: usize = ps.len();
    proof {
        assert(byte_pairs_view(ps@).take(ps@.len() as int) =~= byte_pairs_view(ps@));
    }
    while i > 0
        invariant
            0 <= i <= ps@.len(),
            spec_lookup_bytes(byte_pairs_view(ps@), key@) == spec_lookup_bytes(
                byte_pairs_view(ps@).take(i as int),
                key@,
            ),
        decreases i,
    {
        i = i - 1;
        let ghost pv = byte_pairs_view(ps@);
        proof {
            assert(pv.take(i + 1).last() == pv[i as int]);
            assert(pv.take(i + 1).drop_last() =~= pv.take(i as int));
            assert(pv[i as int].0 == ps@[i as int].0@);
        }
        if bytes_eq(ps[i].0.as_slice(), key) {
            return Some(vstd::slice::slice_to_vec(ps[i].1.as_slice()));
        }
    }
    proof {
        assert(byte_pairs_view(ps@).take(0) =~= Seq::<(Seq<u8>, Seq<u8>)>::empty());
    }
    None
}

/// Reads the order out of a parsed frame: its `TYPE` field picks `START`
/// (payload required), `STOP` or `CLOSE`; anything else is no order.
pub fn decode_msg(ps: &Vec<(Vec<u8>, Vec<u8>)>, data: Option<Vec<u8>>) -> (r: Option<InMsg>)
    ensures
        match r {
            Some(m) => spec_decode(byte_pairs_view(ps@), opt_bytes_view(data)) == Some(m@),
            None => spec_decode(byte_pairs_view(ps@), opt_bytes_view(data)) is None,
        },
{
    let tkey: [u8; 4] = [84, 89, 80, 69];
    proof {
        assert(tkey@ =~= type_key());
    }
    let t = match lookup_bytes(ps, tkey.as_slice()) {
        Some(t) => t,
        None => {
            return None;
        },
    };
    let skey: [u8; 5] = [83, 84, 65, 82, 84];
    proof {
        assert(skey@ =~= start_key());
    }
    if bytes_eq(t.as_slice(), skey.as_slice()) {
        return match data {
            Some(d) => Some(InMsg::Start { data: d }),
            None => None,
        };
    }
    let pkey: [u8; 4] = [83, 84, 79, 80];
    proof {
        assert(pkey@ =~= stop_key());
    }
    if bytes_eq(t.as_slice(), pkey.as_slice()) {
        return Some(InMsg::Stop);
    }
    let ckey: [u8; 5] = [67, 76, 79, 83, 69];
    proof {
        assert(ckey@ =~= close_key());
    }
    if bytes_eq(t.as_slice(), ckey.as_slice()) {
        return Some(InMsg::Close);
    }
    None
}

} // verus!
