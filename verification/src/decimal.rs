//! Decimal text for `u32` values: the form in which a text store keeps the
//! best score, and the parse that reads it back (the grammar of `u32`'s
//! `FromStr`: an optional `+`, then one or more ASCII digits, within range).

use vstd::prelude::*;

verus! {

/// Whether `c` is one of the ASCII digits `0` to `9`.
pub open spec fn is_digit(c: char) -> bool {
    '0' <= c && c <= '9'
}

/// The value of an ASCII digit.
pub open spec fn digit_value(c: char) -> int {
    c as int - '0' as int
}

/// The ASCII digit that stands for `d` (for `d < 10`).
pub open spec fn digit_char(d: int) -> char {
    (d + '0' as int) as char
}

/// Whether every character of `s` is an ASCII digit.
pub open spec fn all_digits(s: Seq<char>) -> bool {
    forall|i: int| 0 <= i < s.len() ==> is_digit(#[trigger] s[i])
}

/// The number that a string of digits denotes in base ten.
pub open spec fn digits_value(s: Seq<char>) -> int
    decreases s.len(),
{
    if s.len() == 0 {
        0
    } else {
        digits_value(s.drop_last()) * 10 + digit_value(s.last())
    }
}

/// The digits of a text after an optional leading `+`.
pub open spec fn unsigned_body(s: Seq<char>) -> Seq<char> {
    if s.len() > 0 && s[0] == '+' {
        s.drop_first()
    } else {
        s
    }
}

/// What parsing `s` as a `u32` gives: the value when `s` is an optional `+`
/// followed by at least one ASCII digit and the value fits, else nothing.
pub open spec fn spec_parse_u32(s: Seq<char>) -> Option<u32> {
    let body = unsigned_body(s);
    if body.len() > 0 && all_digits(body) && digits_value(body) <= u32::MAX {
        Some(digits_value(body) as u32)
    } else {
        None
    }
}

/// The shortest decimal form of `n`: no sign, no leading zeros.
pub open spec fn spec_decimal(n: nat) -> Seq<char>
    decreases n,
{
    if n < 10 {
        seq![digit_char(n as int)]
    } else {
        spec_decimal(n / 10).push(digit_char((n % 10) as int))
    }
}

/// The decimal text of a `u32`.
pub open spec fn spec_u32_text(n: u32) -> Seq<char> {
    spec_decimal(n as nat)
}

proof fn lemma_digit_char(d: int)
    requires
        0 <= d < 10,
    ensures
        is_digit(digit_char(d)),
        digit_value(digit_char(d)) == d,
        digit_char(d) != '+',
{
}

/// The decimal form of `n` is a non-empty string of digits denoting `n`.
pub proof fn lemma_decimal(n: nat)
    ensures
        spec_decimal(n).len() > 0,
        all_digits(spec_decimal(n)),
        digits_value(spec_decimal(n)) == n,
    decreases n,
{
    if n < 10 {
        lemma_digit_char(n as int);
        let s = spec_decimal(n);
        assert(s.drop_last() =~= Seq::<char>::empty());
        assert(digits_value(s.drop_last()) == 0);
        assert(s.last() == digit_char(n as int));
    } else {
        lemma_decimal(n / 10);
        lemma_digit_char((n % 10) as int);
        let s = spec_decimal(n);
        assert(s.drop_last() =~= spec_decimal(n / 10));
        assert(s.last() == digit_char((n % 10) as int));
        assert((n / 10) * 10 + n % 10 == n);
        assert forall|i: int| 0 <= i < s.len() implies is_digit(#[trigger] s[i]) by {
            if i < s.len() - 1 {
                assert(s[i] == spec_decimal(n / 10)[i]);
            }
        }
    }
}

/// The first character of the decimal form of `n` is `0` only for `n == 0`.
proof fn lemma_decimal_first(n: nat)
    ensures
        spec_decimal(n)[0] == '0' <==> n == 0,
    decreases n,
{
    if n >= 10 {
        lemma_decimal_first(n / 10);
        lemma_decimal(n / 10);
        assert(spec_decimal(n)[0] == spec_decimal(n / 10)[0]);
    }
}

/// The text of a `u32` is its shortest decimal form: at least one
/// character, all of them ASCII digits (so no sign), denoting `n`, and
/// beginning with `0` only when `n` is zero.
pub proof fn lemma_u32_text_shape(n: u32)
    ensures
        spec_u32_text(n).len() > 0,
        forall|i: int| 0 <= i < spec_u32_text(n).len() ==> is_digit(#[trigger] spec_u32_text(n)[i]),
        digits_value(spec_u32_text(n)) == n,
        spec_u32_text(n)[0] == '0' <==> n == 0,
        n < 10 ==> spec_u32_text(n).len() == 1,
        n >= 10 ==> spec_u32_text(n) == spec_u32_text(n / 10).push(digit_char((n % 10) as int)),
{
    lemma_decimal(n as nat);
    lemma_decimal_first(n as nat);
}

/// Parsing the decimal text of a `u32` gives that `u32` back.
pub proof fn lemma_parse_text(n: u32)
    ensures
        spec_parse_u32(spec_u32_text(n)) == Some(n),
{
    lemma_decimal(n as nat);
    let s = spec_u32_text(n);
    assert(is_digit(s[0]));
    assert(unsigned_body(s) == s);
}

/// A string of digits denotes a natural number.
proof fn lemma_value_nonneg(s: Seq<char>)
    requires
        all_digits(s),
    ensures
        digits_value(s) >= 0,
    decreases s.len(),
{
    if s.len() > 0 {
        let t = s.drop_last();
        assert forall|i: int| 0 <= i < t.len() implies is_digit(#[trigger] t[i]) by {
            assert(t[i] == s[i]);
        }
        lemma_value_nonneg(t);
        assert(is_digit(s[s.len() - 1]));
    }
}

/// The parse, related across inputs: an empty text, a lone `+`, and any
/// text starting with `-` are refused; a `+` in front of the text of `n`, or
/// a `0` in front of it, still reads as `n`; appending a non-digit makes
/// any text refused; appending a digit `d` to the text of `n` reads as
/// `10 * n + d` when that fits in a `u32`, and is refused otherwise.
pub proof fn lemma_parse_relations(n: u32, s: Seq<char>, c: char, d: int)
    requires
        0 <= d < 10,
    ensures
        spec_parse_u32(Seq::<char>::empty()) is None,
        spec_parse_u32(seq!['+']) is None,
        spec_parse_u32(seq!['-'] + s) is None,
        spec_parse_u32(seq!['+'] + spec_u32_text(n)) == Some(n),
        spec_parse_u32(seq!['0'] + spec_u32_text(n)) == Some(n),
        !is_digit(c) ==> spec_parse_u32(s.push(c)) is None,
        10 * n + d <= u32::MAX ==> spec_parse_u32(spec_u32_text(n).push(digit_char(d)))
            == Some((10 * n + d) as u32),
        10 * n + d > u32::MAX ==> spec_parse_u32(spec_u32_text(n).push(digit_char(d))) is None,
{
    lemma_decimal(n as nat);
    lemma_digit_char(d);
    let t = spec_u32_text(n);
    assert(is_digit(t[0]));
    // A lone `+`.
    assert(unsigned_body(seq!['+']) =~= Seq::<char>::empty());
    // A leading `-`.
    let m = seq!['-'] + s;
    assert(m[0] == '-');
    assert(unsigned_body(m) == m);
    assert(!is_digit(m[0]));
    // A leading `+`.
    let pt = seq!['+'] + t;
    assert(pt[0] == '+');
    assert(pt.drop_first() =~= t);
    // A leading `0`.
    let zt = seq!['0'] + t;
    assert(zt[0] == '0');
    assert(unsigned_body(zt) == zt);
    lemma_leading_zero(t);
    assert(all_digits(zt)) by {
        assert forall|i: int| 0 <= i < zt.len() implies is_digit(#[trigger] zt[i]) by {
            if i > 0 {
                assert(zt[i] == t[i - 1]);
            }
        }
    }
    // A trailing non-digit.
    let sc = s.push(c);
    if !is_digit(c) {
        let b = unsigned_body(sc);
        if sc[0] == '+' {
            assert(b =~= sc.drop_first());
        } else {
            assert(b == sc);
        }
        if b.len() > 0 {
            assert(b[b.len() - 1] == c);
        }
    }
    // A trailing digit.
    let td = t.push(digit_char(d));
    assert(td[0] == t[0]);
    assert(unsigned_body(td) == td);
    assert(td.drop_last() =~= t);
    assert(all_digits(td)) by {
        assert forall|i: int| 0 <= i < td.len() implies is_digit(#[trigger] td[i]) by {
            if i < t.len() {
                assert(td[i] == t[i]);
            }
        }
    }
}

/// A leading zero does not change what a string of digits denotes.
proof fn lemma_leading_zero(t: Seq<char>)
    ensures
        digits_value(seq!['0'] + t) == digits_value(t),
    decreases t.len(),
{
    let z = seq!['0'] + t;
    if t.len() == 0 {
        assert(z.drop_last() =~= Seq::<char>::empty());
        assert(z.last() == '0');
        assert(digits_value(z.drop_last()) == 0);
    } else {
        lemma_leading_zero(t.drop_last());
        assert(z.drop_last() =~= seq!['0'] + t.drop_last());
        assert(z.last() == t.last());
    }
}

/// A prefix of a string never denotes more than the whole string.
proof fn lemma_prefix_value_le(s: Seq<char>, k: int)
    requires
        0 <= k <= s.len(),
        all_digits(s),
    ensures
        digits_value(s.subrange(0, k)) <= digits_value(s),
    decreases s.len() - k,
{
    if k < s.len() {
        let t = s.drop_last();
        assert(all_digits(t)) by {
            assert forall|i: int| 0 <= i < t.len() implies is_digit(#[trigger] t[i]) by {
                assert(t[i] == s[i]);
            }
        }
        assert(is_digit(s[s.len() - 1]));
        lemma_value_nonneg(t);
        if k < t.len() {
            lemma_prefix_value_le(t, k);
            assert(t.subrange(0, k) =~= s.subrange(0, k));
        } else {
            assert(t =~= s.subrange(0, k));
        }
        assert(digits_value(s) >= digits_value(t));
    } else {
        assert(s.subrange(0, k) =~= s);
    }
}

/// The text of one decimal digit.
fn digit_text(d: u32) -> (text: &'static str)
    requires
        d < 10,
    ensures
        text@ == seq![digit_char(d as int)],
{
    match d {
        0 => {
            proof {
                reveal_strlit("0");
            }
            "0"
        },
        1 => {
            proof {
                reveal_strlit("1");
            }
            "1"
        },
        2 => {
            proof {
                reveal_strlit("2");
            }
            "2"
        },
        3 => {
            proof {
                reveal_strlit("3");
            }
            "3"
        },
        4 => {
            proof {
                reveal_strlit("4");
            }
            "4"
        },
        5 => {
            proof {
                reveal_strlit("5");
            }
            "5"
        },
        6 => {
            proof {
                reveal_strlit("6");
            }
            "6"
        },
        7 => {
            proof {
                reveal_strlit("7");
            }
            "7"
        },
        8 => {
            proof {
                reveal_strlit("8");
            }
            "8"
        },
        _ => {
            proof {
                reveal_strlit("9");
            }
            "9"
        },
    }
}

/// Appends the decimal form of `n` to `out`.
fn push_decimal(n: u32, out: &mut String)
    ensures
        final(out)@ == old(out)@ + spec_decimal(n as nat),
    decreases n,
{
    let ghost start = out@;
    if n >= 10 {
        push_decimal(n / 10, out);
    }
    let ghost mid = out@;
    out.append(digit_text(n % 10));
    proof {
        if n >= 10 {
            assert(mid == start + spec_decimal((n / 10) as nat));
            assert(out@ =~= start + spec_decimal(n as nat));
        } else {
            assert(n % 10 == n);
            assert(out@ =~= start + spec_decimal(n as nat));
        }
    }
}

/// The decimal text of `n`, as `n.to_string()` writes it.
pub fn u32_text(n: u32) -> (text: String)
    ensures
        text@ == spec_u32_text(n),
{
    let mut out = String::new();
    push_decimal(n, &mut out);
    proof {
        assert(out@ =~= spec_u32_text(n));
    }
    out
}

/// Parses `text` as a `u32` by the rules of `u32`'s `FromStr`.
pub fn parse_u32(text: &str) -> (value: Option<u32>)
    ensures
        value == spec_parse_u32(text@),
{
    let n = text.unicode_len();
    let mut start: usize = 0;
    if n > 0 && text.get_char(0) == '+' {
        start = 1;
    }
    let ghost body = text@.subrange(start as int, n as int);
    assert(body =~= unsigned_body(text@));
    if start >= n {
        return None;
    }
    let mut i: usize = start;
    let mut value: u32 = 0;
    while i < n
        invariant
            start <= i <= n,
            n == text@.len(),
            body == text@.subrange(start as int, n as int),
            body == unsigned_body(text@),
            all_digits(body.subrange(0, i - start)),
            value == digits_value(body.subrange(0, i - start)),
        decreases n - i,
    {
        let c = text.get_char(i);
        let ghost k = i - start;
        assert(body[k] == c);
        if c < '0' || c > '9' {
            assert(!is_digit(body[k]));
            return None;
        }
        let ghost before = body.subrange(0, k);
        let ghost after = body.subrange(0, k + 1);
        assert(after.drop_last() =~= before);
        assert(all_digits(after)) by {
            assert forall|j: int| 0 <= j < after.len() implies is_digit(#[trigger] after[j]) by {
                if j < k {
                    assert(after[j] == before[j]);
                }
            }
        }
        let d: u32 = (c as u32) - 48;
        match value.checked_mul(10) {
            Some(tens) => match tens.checked_add(d) {
                Some(next) => {
                    value = next;
                },
                None => {
                    proof {
                        if all_digits(body) {
                            lemma_prefix_value_le(body, k + 1);
                        }
                    }
                    return None;
                },
            },
            None => {
                proof {
                    if all_digits(body) {
                        lemma_prefix_value_le(body, k + 1);
                    }
                }
                return None;
            },
        }
        i = i + 1;
    }
    assert(body.subrange(0, n - start) =~= body);
    Some(value)
}

} // verus!
