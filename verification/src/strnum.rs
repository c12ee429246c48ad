//! Decimal strings: formatting counters and ports, parsing ports back.

use vstd::prelude::*;
use vstd::string::StringExecFns;
use vstd::string::StrSliceExecFns;

verus! {

pub open spec fn digit_char(d: nat) -> char {
    if d == 0 {
        '0'
    } else if d == 1 {
        '1'
    } else if d == 2 {
        '2'
    } else if d == 3 {
        '3'
    } else if d == 4 {
        '4'
    } else if d == 5 {
        '5'
    } else if d == 6 {
        '6'
    } else if d == 7 {
        '7'
    } else if d == 8 {
        '8'
    } else {
        '9'
    }
}

pub open spec fn char_digit(c: char) -> nat {
    if c == '0' {
        0
    } else if c == '1' {
        1
    } else if c == '2' {
        2
    } else if c == '3' {
        3
    } else if c == '4' {
        4
    } else if c == '5' {
        5
    } else if c == '6' {
        6
    } else if c == '7' {
        7
    } else if c == '8' {
        8
    } else {
        9
    }
}

pub open spec fn is_digit(c: char) -> bool {
    c == '0' || c == '1' || c == '2' || c == '3' || c == '4' || c == '5' || c == '6' || c == '7'
        || c == '8' || c == '9'
}

/// The decimal spelling of `n`, most significant digit first.
pub open spec fn dec_digits(n: nat) -> Seq<char>
    decreases n,
{
    if n < 10 {
        seq![digit_char(n)]
    } else {
        dec_digits(n / 10) + seq![digit_char(n % 10)]
    }
}

/// The value a digit string denotes.
pub open spec fn dec_val(s: Seq<char>) -> nat
    decreases s.len(),
{
    if s.len() == 0 {
        0
    } else {
        dec_val(s.drop_last()) * 10 + char_digit(s.last())
    }
}

pub open spec fn all_digits(s: Seq<char>) -> bool {
    forall|i: int| 0 <= i < s.len() ==> is_digit(#[trigger] s[i])
}

/// A decimal string is one or more digits.
pub open spec fn is_dec_string(s: Seq<char>) -> bool {
    s.len() > 0 && all_digits(s)
}

pub proof fn lemma_dec_digits_form(n: nat)
    ensures
        dec_digits(n).len() >= 1,
        all_digits(dec_digits(n)),
    decreases n,
{
    if n >= 10 {
        lemma_dec_digits_form(n / 10);
        let s = dec_digits(n);
        assert(forall|i: int|
            0 <= i < s.len() - 1 ==> s[i] == dec_digits(n / 10)[i]);
        assert(is_digit(s[s.len() - 1]));
    }
}

/// Parsing undoes formatting: the spelling of `n` denotes `n`.
pub proof fn lemma_dec_digits_val(n: nat)
    ensures
        dec_val(dec_digits(n)) == n,
    decreases n,
{
    if n < 10 {
        let s = dec_digits(n);
        assert(s == seq![digit_char(n)]);
        assert(s.drop_last() =~= Seq::<char>::empty());
        assert(dec_val(s.drop_last()) == 0);
        assert(s.last() == digit_char(n));
        assert(char_digit(digit_char(n)) == n);
        assert(dec_val(s) == 0 * 10 + char_digit(s.last()));
    } else {
        lemma_dec_digits_val(n / 10);
        let s = dec_digits(n);
        assert(s.drop_last() =~= dec_digits(n / 10));
        assert(char_digit(s.last()) == n % 10);
        assert(dec_val(s) == (n / 10) * 10 + n % 10);
        assert((n / 10) * 10 + n % 10 == n) by (nonlinear_arith);
    }
}

/// Two numbers with the same spelling are the same number.
pub proof fn lemma_dec_digits_injective(a: nat, b: nat)
    requires
        dec_digits(a) == dec_digits(b),
    ensures
        a == b,
{
    lemma_dec_digits_val(a);
    lemma_dec_digits_val(b);
}

fn digit_str(d: u8) -> (r: &'static str)
    requires
        d < 10,
    ensures
        r@ == seq![digit_char(d as nat)],
{
    proof {
        reveal_strlit("0");
        reveal_strlit("1");
        reveal_strlit("2");
        reveal_strlit("3");
        reveal_strlit("4");
        reveal_strlit("5");
        reveal_strlit("6");
        reveal_strlit("7");
        reveal_strlit("8");
        reveal_strlit("9");
    }
    let r = if d == 0 {
        "0"
    } else if d == 1 {
        "1"
    } else if d == 2 {
        "2"
    } else if d == 3 {
        "3"
    } else if d == 4 {
        "4"
    } else if d == 5 {
        "5"
    } else if d == 6 {
        "6"
    } else if d == 7 {
        "7"
    } else if d == 8 {
        "8"
    } else {
        "9"
    };
    proof {
        assert(r@ =~= seq![digit_char(d as nat)]);
    }
    r
}

/// Append the decimal spelling of `n` to `s`.
pub fn append_u64(s: &mut String, n: u64)
    ensures
        final(s)@ == old(s)@ + dec_digits(n as nat),
{
    // collect digits, least significant first
    let mut digits: Vec<u8> = Vec::new();
    let mut cur: u64 = n;
    loop
        invariant_except_break
            digits@.len() >= 1 ==> dec_digits(n as nat) =~= dec_digits(cur as nat)
                + digits@.reverse().map_values(|d: u8| digit_char(d as nat)),
            digits@.len() == 0 ==> cur == n,
            forall|i: int| 0 <= i < digits@.len() ==> digits@[i] < 10,
        ensures
            dec_digits(n as nat) =~= digits@.reverse().map_values(
                |d: u8| digit_char(d as nat),
            ),
            forall|i: int| 0 <= i < digits@.len() ==> digits@[i] < 10,
        decreases cur,
    {
        let d: u8 = (cur % 10) as u8;
        let ghost before = digits@;
        digits.push(d);
        proof {
            if before.len() == 0 {
                if cur < 10 {
                    assert(digits@.reverse() =~= seq![d]);
                    assert(dec_digits(n as nat) =~= digits@.reverse().map_values(
                        |d: u8| digit_char(d as nat),
                    ));
                } else {
                    assert(digits@.reverse() =~= seq![d]);
                    assert(dec_digits(cur as nat) =~= dec_digits((cur / 10) as nat) + seq![
                        digit_char((cur % 10) as nat),
                    ]);
                    assert(dec_digits(n as nat) =~= dec_digits((cur / 10) as nat) + digits@
                        .reverse().map_values(|d: u8| digit_char(d as nat)));
                }
            } else {
                assert(digits@.reverse() =~= seq![d] + before.reverse());
                if cur < 10 {
                    assert(dec_digits(cur as nat) =~= seq![digit_char(cur as nat)]);
                    assert(dec_digits(n as nat) =~= digits@.reverse().map_values(
                        |d: u8| digit_char(d as nat),
                    ));
                } else {
                    assert(dec_digits(cur as nat) =~= dec_digits((cur / 10) as nat) + seq![
                        digit_char((cur % 10) as nat),
                    ]);
                    assert(dec_digits(n as nat) =~= dec_digits((cur / 10) as nat) + digits@
                        .reverse().map_values(|d: u8| digit_char(d as nat)));
                }
            }
        }
        if cur < 10 {
            break;
        }
        cur = cur / 10;
    }
    // append them most significant first
    let ghost init = s@;
    let ghost target = digits@.reverse().map_values(|d: u8| digit_char(d as nat));
    let mut i: usize = digits.len();
    while i > 0
        invariant
            i <= digits@.len(),
            forall|j: int| 0 <= j < digits@.len() ==> digits@[j] < 10,
            target == digits@.reverse().map_values(|d: u8| digit_char(d as nat)),
            target.len() == digits@.len(),
            s@ == init + target.take((digits@.len() - i) as int),
        decreases i,
    {
        i = i - 1;
        let part = digit_str(digits[i]);
        s.append(part);
        proof {
            let k = (digits@.len() - i) as int;
            assert(target[k - 1] == digit_char(digits@[i as int] as nat));
            assert(target.take(k) =~= target.take(k - 1) + seq![target[k - 1]]);
            assert(s@ =~= init + target.take(k));
        }
    }
    proof {
        assert(target.take(target.len() as int) =~= target);
        assert(s@ =~= init + dec_digits(n as nat));
    }
}

/// The decimal spelling of `n` on its own.
pub fn u64_to_string(n: u64) -> (r: String)
    ensures
        r@ == dec_digits(n as nat),
{
    let mut s = String::new();
    append_u64(&mut s, n);
    proof {
        assert(Seq::<char>::empty() + dec_digits(n as nat) =~= dec_digits(n as nat));
    }
    s
}

pub proof fn lemma_dec_val_take_step(s: Seq<char>, i: int)
    requires
        0 <= i < s.len(),
    ensures
        dec_val(s.take(i + 1)) == dec_val(s.take(i)) * 10 + char_digit(s[i]),
{
    assert(s.take(i + 1).drop_last() =~= s.take(i));
}

pub proof fn lemma_dec_val_grows(s: Seq<char>, i: int, j: int)
    requires
        0 <= i <= j <= s.len(),
    ensures
        dec_val(s.take(i)) <= dec_val(s.take(j)),
    decreases j - i,
{
    if i < j {
        lemma_dec_val_grows(s, i, j - 1);
        lemma_dec_val_take_step(s, j - 1);
        assert(dec_val(s.take(j - 1)) * 10 >= dec_val(s.take(j - 1))) by (nonlinear_arith);
    }
}

/// Parse a decimal string into a `u32`: succeeds exactly on strings of
/// one or more digits whose value fits.
pub fn parse_u32(s: &String) -> (r: Option<u32>)
    ensures
        match r {
            Some(v) => is_dec_string(s@) && dec_val(s@) == v,
            None => !is_dec_string(s@) || dec_val(s@) > u32::MAX,
        },
{
    let sl = s.as_str();
    let n = sl.unicode_len();
    if n == 0 {
        return None;
    }
    let mut i: usize = 0;
    let mut acc: u32 = 0;
    while i < n
        invariant
            0 < n == s@.len(),
            i <= n,
            forall|j: int| 0 <= j < i ==> is_digit(#[trigger] s@[j]),
            acc == dec_val(s@.take(i as int)),
            sl@ == s@,
        decreases n - i,
    {
        let c = sl.get_char(i);
        let d: u32 = if c == '0' {
            0
        } else if c == '1' {
            1
        } else if c == '2' {
            2
        } else if c == '3' {
            3
        } else if c == '4' {
            4
        } else if c == '5' {
            5
        } else if c == '6' {
            6
        } else if c == '7' {
            7
        } else if c == '8' {
            8
        } else if c == '9' {
            9
        } else {
            return None;
        };
        proof {
            assert(is_digit(s@[i as int]));
            assert(char_digit(s@[i as int]) == d as nat);
            lemma_dec_val_take_step(s@, i as int);
        }
        if acc > (u32::MAX - d) / 10 {
            proof {
                assert(dec_val(s@.take(i as int + 1)) > u32::MAX) by (nonlinear_arith)
                    requires
                        dec_val(s@.take(i as int + 1)) == dec_val(s@.take(i as int)) * 10
                            + char_digit(s@[i as int]),
                        acc == dec_val(s@.take(i as int)),
                        acc > ((u32::MAX - d) as nat) / 10,
                        char_digit(s@[i as int]) == d as nat,
                        d <= 9,
                ;
                lemma_dec_val_grows(s@, i as int + 1, s@.len() as int);
                assert(s@.take(s@.len() as int) =~= s@);
            }
            return None;
        }
        acc = acc * 10 + d;
        i = i + 1;
    }
    proof {
        assert(s@.take(s@.len() as int) =~= s@);
    }
    Some(acc)
}

} // verus!
