use vstd::prelude::*;

verus! {

/// The character standing for one decimal digit value.
pub open spec fn digit_char(d: int) -> char {
    if d == 0 {
        '0'
    } else if d == 1 {
        '1'
    } else if d == 2 {
        '2'
    } else if d == 3 {
        '3'
    } else if d == 4 {
        '4'
    } else if d == 5 {
        '5'
    } else if d == 6 {
        '6'
    } else if d == 7 {
        '7'
    } else if d == 8 {
        '8'
    } else {
        '9'
    }
}

pub open spec fn is_digit(c: char) -> bool {
    '0' <= c && c <= '9'
}

pub open spec fn digit_val(c: char) -> int {
    c as int - '0' as int
}

/// The decimal numeral of `n`, most significant digit first, no leading zeros.
pub open spec fn spec_digits(n: nat) -> Seq<char>
    decreases n,
{
    if n < 10 {
        seq![digit_char(n as int)]
    } else {
        spec_digits(n / 10) + seq![digit_char((n % 10) as int)]
    }
}

/// The value of a digit string, read left to right.
pub open spec fn spec_digits_val(s: Seq<char>) -> int
    decreases s.len(),
{
    if s.len() == 0 {
        0
    } else {
        spec_digits_val(s.drop_last()) * 10 + digit_val(s.last())
    }
}

pub open spec fn all_digits(s: Seq<char>) -> bool {
    forall|i: int| 0 <= i < s.len() ==> is_digit(s[i])
}

proof fn lemma_digit_char_val(d: int)
    requires
        0 <= d <= 9,
    ensures
        is_digit(digit_char(d)),
        digit_val(digit_char(d)) == d,
{
}

pub proof fn lemma_digits_all_digits(n: nat)
    ensures
        all_digits(spec_digits(n)),
        spec_digits(n).len() >= 1,
    decreases n,
{
    if n < 10 {
        lemma_digit_char_val(n as int);
        assert forall|i: int| 0 <= i < spec_digits(n).len() implies is_digit(spec_digits(n)[i]) by {
            assert(spec_digits(n)[i] == digit_char(n as int));
        }
    } else {
        lemma_digits_all_digits(n / 10);
        lemma_digit_char_val((n % 10) as int);
        let s = spec_digits(n);
        let p = spec_digits(n / 10);
        assert forall|i: int| 0 <= i < s.len() implies is_digit(s[i]) by {
            if i < p.len() {
                assert(s[i] == p[i]);
            } else {
                assert(s[i] == digit_char((n % 10) as int));
            }
        }
    }
}

/// Reading back the numeral of `n` yields `n`.
pub proof fn lemma_digits_roundtrip(n: nat)
    ensures
        spec_digits_val(spec_digits(n)) == n,
    decreases n,
{
    if n < 10 {
        let s = spec_digits(n);
        assert(s =~= seq![digit_char(n as int)]);
        assert(s.drop_last() =~= Seq::<char>::empty());
        assert(s.last() == digit_char(n as int));
        lemma_digit_char_val(n as int);
        assert(spec_digits_val(Seq::<char>::empty()) == 0);
        assert(spec_digits_val(s) == 0 * 10 + digit_val(digit_char(n as int)));
    } else {
        lemma_digits_roundtrip(n / 10);
        let s = spec_digits(n);
        let p = spec_digits(n / 10);
        assert(s =~= p + seq![digit_char((n % 10) as int)]);
        assert(s.drop_last() =~= p);
        assert(s.last() == digit_char((n % 10) as int));
        lemma_digit_char_val((n % 10) as int);
        assert(spec_digits_val(s) == spec_digits_val(p) * 10 + digit_val(s.last()));
        assert(spec_digits_val(s) == (n / 10) * 10 + n % 10);
        assert((n / 10) * 10 + n % 10 == n) by (nonlinear_arith);
    }
}

/// Appending one digit multiplies the value by ten and adds the digit.
proof fn lemma_digits_val_push(s: Seq<char>, c: char)
    ensures
        spec_digits_val(s.push(c)) == spec_digits_val(s) * 10 + digit_val(c),
{
    assert(s.push(c).drop_last() =~= s);
    assert(s.push(c).last() == c);
}

proof fn lemma_digits_val_nonneg(s: Seq<char>)
    requires
        all_digits(s),
    ensures
        spec_digits_val(s) >= 0,
    decreases s.len(),
{
    if s.len() > 0 {
        assert(all_digits(s.drop_last()));
        lemma_digits_val_nonneg(s.drop_last());
        assert(is_digit(s.last()));
    }
}

/// A digit string's value never shrinks as it is extended on the right.
proof fn lemma_digits_val_prefix_le(s: Seq<char>, i: int)
    requires
        all_digits(s),
        0 <= i <= s.len(),
    ensures
        spec_digits_val(s.take(i)) <= spec_digits_val(s),
    decreases s.len() - i,
{
    if i < s.len() {
        let t = s.take(i + 1);
        assert(t.drop_last() =~= s.take(i));
        assert(is_digit(s[i]));
        assert(all_digits(s.take(i)));
        lemma_digits_val_nonneg(s.take(i));
        assert(spec_digits_val(s.take(i)) <= spec_digits_val(t));
        lemma_digits_val_prefix_le(s, i + 1);
        assert(s.take(s.len() as int) =~= s);
    } else {
        assert(s.take(i) =~= s);
    }
}

/// Renders `n` in decimal, most significant digit first.
pub fn u64_to_string(n: u64) -> (r: String)
    ensures
        r@ == spec_digits(n as nat),
{
    let mut digits_rev: Vec<char> = Vec::new();
    let mut m: u64 = n;
    loop
        invariant_except_break
            spec_digits(n as nat) == spec_digits(m as nat) + digits_rev@.reverse(),
        invariant
            all_digits(digits_rev@),
        ensures
            spec_digits(n as nat) == digits_rev@.reverse(),
        decreases m,
    {
        let d: u64 = m % 10;
        let c = digit_of(d);
        proof {
            lemma_digit_char_val(d as int);
            assert(all_digits(digits_rev@.push(c)));
        }
        if m < 10 {
            proof {
                assert(spec_digits(m as nat) =~= seq![digit_char(m as int)]);
                assert((seq![c] + digits_rev@.reverse()) =~= digits_rev@.push(c).reverse());
            }
            digits_rev.push(c);
            break;
        }
        proof {
            assert(spec_digits(m as nat) =~= spec_digits((m as nat) / 10) + seq![
                digit_char((m % 10) as int),
            ]);
            assert((spec_digits((m as nat) / 10) + seq![c]) + digits_rev@.reverse()
                =~= spec_digits((m as nat) / 10) + digits_rev@.push(c).reverse());
        }
        digits_rev.push(c);
        m = m / 10;
    }
    let n_digits = digits_rev.len();
    let mut r = String::new();
    let mut i: usize = 0;
    while i < n_digits
        invariant
            n_digits == digits_rev@.len(),
            all_digits(digits_rev@),
            i <= n_digits,
            r@ =~= digits_rev@.reverse().take(i as int),
        decreases n_digits - i,
    {
        let c = digits_rev[n_digits - 1 - i];
        assert(is_digit(c)) by {
            assert(c == digits_rev@[n_digits - 1 - i]);
        }
        r.append(char_str(c));
        proof {
            assert(digits_rev@.reverse().take(i + 1) =~= digits_rev@.reverse().take(i as int).push(
                digits_rev@.reverse()[i as int],
            ));
        }
        i = i + 1;
    }
    proof {
        assert(digits_rev@.reverse().take(n_digits as int) =~= digits_rev@.reverse());
    }
    r
}

fn digit_of(d: u64) -> (c: char)
    requires
        d <= 9,
    ensures
        c == digit_char(d as int),
{
    match d {
        0 => '0',
        1 => '1',
        2 => '2',
        3 => '3',
        4 => '4',
        5 => '5',
        6 => '6',
        7 => '7',
        8 => '8',
        _ => '9',
    }
}

/// A one-character string slice for any decimal digit character.
fn char_str(c: char) -> (r: &'static str)
    requires
        is_digit(c),
    ensures
        r@ =~= seq![c],
{
    proof {
        reveal_strlit("0");
        reveal_strlit("1");
        reveal_strlit("2");
        reveal_strlit("3");
        reveal_strlit("4");
        reveal_strlit("5");
        reveal_strlit("6");
        reveal_strlit("7");
        reveal_strlit("8");
        reveal_strlit("9");
    }
    if c == '0' {
        "0"
    } else if c == '1' {
        "1"
    } else if c == '2' {
        "2"
    } else if c == '3' {
        "3"
    } else if c == '4' {
        "4"
    } else if c == '5' {
        "5"
    } else if c == '6' {
        "6"
    } else if c == '7' {
        "7"
    } else if c == '8' {
        "8"
    } else {
        "9"
    }
}

/// Whether a character sequence is a plain decimal numeral whose value fits in `u64`.
pub open spec fn parses_as_u64(s: Seq<char>) -> bool {
    s.len() > 0 && all_digits(s) && spec_digits_val(s) <= u64::MAX
}

/// Reads a decimal numeral. Returns the value exactly when the whole string is
/// made of digits and the value fits.
pub fn parse_u64(s: &str) -> (r: Option<u64>)
    ensures
        r is Some <==> parses_as_u64(s@),
        r matches Some(v) ==> v == spec_digits_val(s@),
{
    let len = s.unicode_len();
    if len == 0 {
        return None;
    }
    let mut acc: u64 = 0;
    let mut i: usize = 0;
    while i < len
        invariant
            len == s@.len(),
            0 <= i <= len,
            all_digits(s@.take(i as int)),
            acc == spec_digits_val(s@.take(i as int)),
        decreases len - i,
    {
        let c = s.get_char(i);
        if !(c >= '0' && c <= '9') {
            proof {
                assert(s@.take(len as int) =~= s@);
                assert(!is_digit(s@[i as int]));
            }
            return None;
        }
        let d: u64 = digit_value(c);
        proof {
            assert(s@.take(i + 1) =~= s@.take(i as int).push(s@[i as int]));
            lemma_digits_val_push(s@.take(i as int), s@[i as int]);
        }
        let shifted = match acc.checked_mul(10) {
            Some(x) => x,
            None => {
                proof {
                    overflow_means_no_parse(s@, i as int);
                }
                return None;
            },
        };
        acc = match shifted.checked_add(d) {
            Some(x) => x,
            None => {
                proof {
                    overflow_means_no_parse(s@, i as int);
                }
                return None;
            },
        };
        i = i + 1;
    }
    proof {
        assert(s@.take(len as int) =~= s@);
    }
    Some(acc)
}

proof fn overflow_means_no_parse(s: Seq<char>, i: int)
    requires
        0 <= i < s.len(),
        all_digits(s.take(i)),
        is_digit(s[i]),
        spec_digits_val(s.take(i)) * 10 + digit_val(s[i]) > u64::MAX,
    ensures
        !parses_as_u64(s),
{
    if all_digits(s) {
        assert(s.take(i + 1).drop_last() =~= s.take(i));
        assert(spec_digits_val(s.take(i + 1)) == spec_digits_val(s.take(i)) * 10 + digit_val(s[i]));
        lemma_digits_val_prefix_le(s, i + 1);
    }
}

fn digit_value(c: char) -> (d: u64)
    requires
        is_digit(c),
    ensures
        d == digit_val(c),
        d <= 9,
{
    (c as u32 - '0' as u32) as u64
}

/// The numeral of any value reads back as that value; stated of the executable pair.
pub proof fn lemma_u64_string_roundtrip(n: u64)
    ensures
        parses_as_u64(spec_digits(n as nat)),
        spec_digits_val(spec_digits(n as nat)) == n,
{
    lemma_digits_all_digits(n as nat);
    lemma_digits_roundtrip(n as nat);
}

} // verus!
