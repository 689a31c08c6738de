//! Text helpers: string equality and decimal numbers.
use vstd::prelude::*;
use vstd::string::StringSliceAdditionalSpecFns;

verus! {

broadcast use vstd::utf8::encode_utf8_decode_utf8;

/// Compares two string slices character by character.
pub fn str_eq(a: &str, b: &str) -> (r: bool)
    ensures
        r == (a@ == b@),
{
    let ab = a.as_bytes();
    let bb = b.as_bytes();
    if ab.len() != bb.len() {
        proof {
            if a@ == b@ {
                assert(a.spec_bytes() == b.spec_bytes());
            }
        }
        return false;
    }
    let n = ab.len();
    let mut i: usize = 0;
    while i < n
        invariant
            n == ab@.len(),
            n == bb@.len(),
            ab@ == a.spec_bytes(),
            bb@ == b.spec_bytes(),
            0 <= i <= n,
            forall|j: int| 0 <= j < i ==> ab@[j] == bb@[j],
        decreases n - i,
    {
        if ab[i] != bb[i] {
            proof {
                if a@ == b@ {
                    assert(a.spec_bytes() == b.spec_bytes());
                    assert(ab@[i as int] == bb@[i as int]);
                }
            }
            return false;
        }
        i = i + 1;
    }
    proof {
        assert(ab@ =~= bb@);
        assert(vstd::utf8::decode_utf8(a.spec_bytes()) == a@);
        assert(vstd::utf8::decode_utf8(b.spec_bytes()) == b@);
    }
    true
}

/// A decimal digit.
pub open spec fn is_digit(c: char) -> bool {
    '0' <= c && c <= '9'
}

/// The number that a sequence of decimal digits spells.
pub open spec fn digits_value(s: Seq<char>) -> nat
    decreases s.len(),
{
    if s.len() == 0 {
        0
    } else {
        digits_value(s.drop_last()) * 10 + (s.last() as nat - '0' as nat) as nat
    }
}

/// The text after an optional leading `+`.
pub open spec fn unsigned_digits(s: Seq<char>) -> Seq<char> {
    if s.len() > 0 && s[0] == '+' {
        s.drop_first()
    } else {
        s
    }
}

/// What `u64::from_str` accepts: an optional `+`, then one or more decimal
/// digits whose value fits in a `u64`.
pub open spec fn decimal_u64(s: Seq<char>) -> Option<u64> {
    let d = unsigned_digits(s);
    if d.len() > 0 && (forall|i: int| 0 <= i < d.len() ==> is_digit(#[trigger] d[i]))
        && digits_value(d) <= u64::MAX {
        Some(digits_value(d) as u64)
    } else {
        None
    }
}

/// Extending digits only makes the number larger.
proof fn lemma_digits_value_grows(d: Seq<char>, i: int)
    requires
        0 <= i <= d.len(),
        forall|j: int| 0 <= j < d.len() ==> is_digit(#[trigger] d[j]),
    ensures
        digits_value(d.take(i)) <= digits_value(d),
    decreases d.len() - i,
{
    if i < d.len() {
        lemma_digits_value_grows(d, i + 1);
        assert(d.take(i + 1).drop_last() =~= d.take(i));
    } else {
        assert(d.take(i) =~= d);
    }
}

/// Reads a decimal number as `u64::from_str` does.
pub fn parse_u64(s: &str) -> (r: Option<u64>)
    ensures
        r == decimal_u64(s@),
{
    broadcast use vstd::string::is_ascii_spec_bytes;

    if !s.is_ascii() {
        proof {
            let i = choose|i: int| 0 <= i < s@.len() && !('\0' <= #[trigger] s@[i] <= '\u{7f}');
            let d = unsigned_digits(s@);
            if s@.len() > 0 && s@[0] == '+' {
                assert(i != 0);
                assert(d[i - 1] == s@[i]);
                assert(!is_digit(d[i - 1]));
            } else {
                assert(!is_digit(d[i]));
            }
        }
        return None;
    }
    let b = s.as_bytes();
    let n = b.len();
    assert(b@.len() == s@.len());
    let mut start: usize = 0;
    if n > 0 && b[0] == 43u8 {
        start = 1;
    }
    let ghost d = unsigned_digits(s@);
    assert(d =~= s@.subrange(start as int, s@.len() as int));
    if start == n {
        return None;
    }
    let mut value: u64 = 0;
    let mut i: usize = start;
    while i < n
        invariant
            n == b@.len(),
            n == s@.len(),
            b@ == s.spec_bytes(),
            forall|j: int| 0 <= j < s@.len() ==> b@[j] == s@[j] as u8,
            vstd::string::is_ascii(s),
            d =~= s@.subrange(start as int, n as int),
            d == unsigned_digits(s@),
            start <= i <= n,
            forall|j: int| 0 <= j < i - start ==> is_digit(#[trigger] d[j]),
            value == digits_value(d.take(i - start)),
        decreases n - i,
    {
        let c = b[i];
        proof {
            assert(d[i - start] == s@[i as int]);
            assert('\0' <= s@[i as int] <= '\u{7f}');
        }
        if c < 48u8 || c > 57u8 {
            proof {
                assert(!is_digit(d[i - start]));
            }
            return None;
        }
        let digit: u64 = (c - 48u8) as u64;
        proof {
            assert(is_digit(d[i - start]));
            assert(d.take(i + 1 - start).drop_last() =~= d.take(i - start));
            assert(d.take(i + 1 - start).last() == d[i - start]);
        }
        if value > 1844674407370955161u64 || (value == 1844674407370955161u64 && digit > 5u64) {
            proof {
                assert(digits_value(d.take(i + 1 - start)) > u64::MAX);
                if forall|j: int| 0 <= j < d.len() ==> is_digit(#[trigger] d[j]) {
                    lemma_digits_value_grows(d, i + 1 - start);
                }
            }
            return None;
        }
        value = value * 10 + digit;
        i = i + 1;
    }
    proof {
        assert(d.take(n - start) =~= d);
    }
    Some(value)
}

/// The character of a decimal digit.
pub open spec fn digit_char(d: nat) -> char {
    ('0' as nat + d) as char
}

/// The decimal text of a number, as `u64`'s `Display` writes it.
pub open spec fn decimal_text(n: nat) -> Seq<char>
    decreases n,
{
    if n < 10 {
        seq![digit_char(n)]
    } else {
        decimal_text(n / 10).push(digit_char(n % 10))
    }
}

/// The decimal text of a number is made of digits, spells the number, and
/// starts with `0` only when the number is 0.
pub proof fn lemma_decimal_text_spells(n: nat)
    ensures
        decimal_text(n).len() > 0,
        forall|i: int| 0 <= i < decimal_text(n).len() ==> is_digit(#[trigger] decimal_text(n)[i]),
        digits_value(decimal_text(n)) == n,
        n > 0 ==> decimal_text(n)[0] != '0',
    decreases n,
{
    if n >= 10 {
        lemma_decimal_text_spells(n / 10);
        let p = decimal_text(n / 10);
        let d = (n % 10) as nat;
        assert(decimal_text(n) == p.push(digit_char(d)));
        assert(p.push(digit_char(d)).drop_last() =~= p);
        assert(digit_char(d) as nat == '0' as nat + d);
        assert(p.push(digit_char(d))[0] == p[0]);
        assert(p.push(digit_char(d)).last() == digit_char(d));
        assert(digits_value(decimal_text(n)) == digits_value(p) * 10 + d);
        assert((n / 10) * 10 + d == n);
    } else {
        assert(digit_char(n) as nat == '0' as nat + n);
        assert(seq![digit_char(n)].drop_last() =~= Seq::<char>::empty());
        assert(digits_value(Seq::<char>::empty()) == 0);
        assert(seq![digit_char(n)].last() == digit_char(n));
        assert(digits_value(seq![digit_char(n)]) == n);
    }
}

/// Reading the decimal text of a number back, as `u64::from_str` does,
/// gives the number.
pub proof fn lemma_decimal_text_reads_back(n: u64)
    ensures
        decimal_u64(decimal_text(n as nat)) == Some(n),
{
    lemma_decimal_text_spells(n as nat);
    let t = decimal_text(n as nat);
    assert(is_digit(t[0]));
    assert(unsigned_digits(t) == t);
}

fn digit_str(d: u64) -> (r: &'static str)
    requires
        d < 10,
    ensures
        r@ == seq![digit_char(d as nat)],
{
    proof {
        reveal_strlit("0");
        reveal_strlit("1");
        reveal_strlit("2");
        reveal_strlit("3");
        reveal_strlit("4");
        reveal_strlit("5");
        reveal_strlit("6");
        reveal_strlit("7");
        reveal_strlit("8");
        reveal_strlit("9");
    }
    if d == 0 {
        "0"
    } else if d == 1 {
        "1"
    } else if d == 2 {
        "2"
    } else if d == 3 {
        "3"
    } else if d == 4 {
        "4"
    } else if d == 5 {
        "5"
    } else if d == 6 {
        "6"
    } else if d == 7 {
        "7"
    } else if d == 8 {
        "8"
    } else {
        "9"
    }
}

/// Appends the decimal text of `n` to `out`.
pub fn push_decimal(out: &mut String, n: u64)
    ensures
        final(out)@ == old(out)@ + decimal_text(n as nat),
    decreases n,
{
    if n >= 10 {
        push_decimal(out, n / 10);
    }
    out.append(digit_str(n % 10));
    proof {
        if n >= 10 {
            assert(decimal_text(n as nat) == decimal_text((n / 10) as nat).push(digit_char((n % 10) as nat)));
        }
    }
    assert(out@ =~= old(out)@ + decimal_text(n as nat));
}

} // verus!
