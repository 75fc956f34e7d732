//! Canonical decimal numerals.
//!
//! Integer-valued document fields are carried in the JSON tree as their
//! decimal text. A numeral is canonical when it is nonempty, all digits,
//! and free of leading zeros; [`dec_str`] is the canonical numeral of a
//! number, and a canonical numeral is recovered, unchanged, from its value.

use vstd::prelude::*;

verus! {

/// The digit character of `n`, for `0 <= n <= 9`.
pub open spec fn digit_char(n: int) -> char {
    if n == 0 {
        '0'
    } else if n == 1 {
        '1'
    } else if n == 2 {
        '2'
    } else if n == 3 {
        '3'
    } else if n == 4 {
        '4'
    } else if n == 5 {
        '5'
    } else if n == 6 {
        '6'
    } else if n == 7 {
        '7'
    } else if n == 8 {
        '8'
    } else {
        '9'
    }
}

/// The value of a digit character, or `-1` for any other character.
pub open spec fn digit_val(c: char) -> int {
    if c == '0' {
        0
    } else if c == '1' {
        1
    } else if c == '2' {
        2
    } else if c == '3' {
        3
    } else if c == '4' {
        4
    } else if c == '5' {
        5
    } else if c == '6' {
        6
    } else if c == '7' {
        7
    } else if c == '8' {
        8
    } else if c == '9' {
        9
    } else {
        -1
    }
}

/// The canonical decimal numeral of `n`.
pub open spec fn dec_str(n: nat) -> Seq<char>
    decreases n,
{
    if n < 10 {
        seq![digit_char(n as int)]
    } else {
        dec_str(n / 10) + seq![digit_char((n % 10) as int)]
    }
}

/// Every character is a digit.
pub open spec fn all_digits(s: Seq<char>) -> bool {
    forall|i: int| 0 <= i < s.len() ==> digit_val(#[trigger] s[i]) >= 0
}

/// A canonical numeral: nonempty, all digits, no leading zero.
pub open spec fn is_canon_dec(s: Seq<char>) -> bool {
    s.len() > 0 && all_digits(s) && (s.len() > 1 ==> s[0] != '0')
}

/// The number a digit string denotes.
pub open spec fn dec_val(s: Seq<char>) -> int
    decreases s.len(),
{
    if s.len() == 0 {
        0
    } else {
        dec_val(s.drop_last()) * 10 + digit_val(s.last())
    }
}

/// The value of a one-character numeral.
pub proof fn lemma_dec_val_single(c: char)
    ensures
        dec_val(seq![c]) == digit_val(c),
{
    let s = seq![c];
    assert(s.drop_last() =~= Seq::<char>::empty());
    assert(dec_val(Seq::<char>::empty()) == 0);
    assert(s.last() == c);
}

/// A digit string denotes a nonnegative number.
pub proof fn lemma_dec_val_nonneg(s: Seq<char>)
    requires
        all_digits(s),
    ensures
        dec_val(s) >= 0,
    decreases s.len(),
{
    if s.len() > 0 {
        assert(all_digits(s.drop_last()));
        lemma_dec_val_nonneg(s.drop_last());
    }
}

/// A canonical numeral that does not start with `'0'` denotes a positive
/// number.
pub proof fn lemma_canon_pos(s: Seq<char>)
    requires
        s.len() > 0,
        all_digits(s),
        s[0] != '0',
    ensures
        dec_val(s) >= 1,
    decreases s.len(),
{
    if s.len() == 1 {
        assert(s =~= seq![s[0]]);
        lemma_dec_val_single(s[0]);
    } else {
        assert(all_digits(s.drop_last()));
        lemma_canon_pos(s.drop_last());
        assert(dec_val(s.drop_last()) * 10 >= 10) by (nonlinear_arith)
            requires
                dec_val(s.drop_last()) >= 1,
        ;
    }
}


/// A canonical numeral equals the canonical numeral of its value: decimal
/// text and number determine each other.
pub proof fn lemma_canon_unique(s: Seq<char>)
    requires
        is_canon_dec(s),
    ensures
        dec_val(s) >= 0,
        dec_str(dec_val(s) as nat) == s,
    decreases s.len(),
{
    lemma_dec_val_nonneg(s);
    if s.len() == 1 {
        let d = digit_val(s[0]);
        assert(s =~= seq![s[0]]);
        lemma_dec_val_single(s[0]);
        assert(digit_char(digit_val(s[0])) == s[0]);
        assert(dec_str(d as nat) =~= s);
    } else {
        let p = s.drop_last();
        assert(all_digits(p));
        assert(p[0] == s[0]);
        lemma_canon_pos(p);
        lemma_canon_unique(p);
        let d = digit_val(s.last());
        let v = dec_val(s);
        assert(v == dec_val(p) * 10 + d);
        assert(v >= 10) by {
            assert(dec_val(p) >= 1);
            assert(dec_val(p) * 10 >= 10) by (nonlinear_arith)
                requires
                    dec_val(p) >= 1,
            ;
        }
        assert(v / 10 == dec_val(p) && v % 10 == d) by (nonlinear_arith)
            requires
                v == dec_val(p) * 10 + d,
                0 <= d < 10,
                dec_val(p) >= 0,
        ;
        assert(dec_str(v as nat) == dec_str(dec_val(p) as nat) + seq![digit_char(d)]);
        assert(digit_char(digit_val(s.last())) == s.last());
        assert(dec_str(v as nat) =~= s);
    }
}

/// A longer digit prefix never denotes less.
proof fn lemma_dec_val_take_mono(s: Seq<char>, j: int)
    requires
        all_digits(s),
        0 <= j <= s.len(),
    ensures
        dec_val(s) >= dec_val(s.take(j)),
    decreases s.len() - j,
{
    assert(forall|i: int| 0 <= i < j ==> s.take(j)[i] == s[i]);
    assert(all_digits(s.take(j)));
    lemma_dec_val_nonneg(s.take(j));
    if j < s.len() {
        lemma_dec_val_take_mono(s, j + 1);
        assert(s.take(j + 1).drop_last() =~= s.take(j));
        assert(s.take(j + 1).last() == s[j]);
        assert(dec_val(s.take(j + 1)) == dec_val(s.take(j)) * 10 + digit_val(s[j]));
        assert(dec_val(s.take(j)) * 10 >= dec_val(s.take(j))) by (nonlinear_arith)
            requires
                dec_val(s.take(j)) >= 0,
        ;
    } else {
        assert(s.take(j) =~= s);
    }
}

/// Parse a canonical decimal numeral no greater than `max`.
#[verifier::loop_isolation(false)]
pub fn parse_dec_u64(s: &str, max: u64) -> (r: Option<u64>)
    ensures
        match r {
            Some(n) => is_canon_dec(s@) && dec_val(s@) == n as int && n <= max,
            None => !is_canon_dec(s@) || dec_val(s@) > max as int,
        },
{
    let n = s.unicode_len();
    if n == 0 {
        return None;
    }
    let mut acc: u64 = 0;
    let mut i: usize = 0;
    while i < n
        invariant
            0 < n == s@.len(),
            0 <= i <= n,
            all_digits(s@.take(i as int)),
            i > 0 ==> (n > 1 ==> s@[0] != '0'),
            acc as int == dec_val(s@.take(i as int)),
            acc <= max,
        decreases n - i,
    {
        let c = s.get_char(i);
        let d: u64 = match c {
            '0' => 0,
            '1' => 1,
            '2' => 2,
            '3' => 3,
            '4' => 4,
            '5' => 5,
            '6' => 6,
            '7' => 7,
            '8' => 8,
            '9' => 9,
            _ => {
                return None;
            },
        };
        if i == 0 && n > 1 && c == '0' {
            return None;
        }
        proof {
            assert(s@.take(i as int + 1).drop_last() =~= s@.take(i as int));
            assert(s@.take(i as int + 1).last() == s@[i as int]);
            assert(all_digits(s@.take(i as int + 1)));
        }
        if acc > max / 10 || (acc == max / 10 && d > max % 10) {
            proof {
                assert(dec_val(s@.take(i as int + 1)) > max as int) by (nonlinear_arith)
                    requires
                        dec_val(s@.take(i as int + 1)) == acc as int * 10 + d as int,
                        acc as int > max as int / 10 || (acc as int == max as int / 10
                            && d as int > max as int % 10),
                        0 <= d as int <= 9,
                        acc >= 0,
                        max >= 0,
                ;
                if is_canon_dec(s@) {
                    lemma_dec_val_take_mono(s@, i as int + 1);
                }
            }
            return None;
        }
        acc = acc * 10 + d;
        i += 1;
    }
    proof {
        assert(s@.take(n as int) =~= s@);
    }
    Some(acc)
}

/// Print the canonical decimal numeral of `n`.
pub fn print_dec_u64(n: u64) -> (r: String)
    ensures
        r@ == dec_str(n as nat),
    decreases n,
{
    let d: &str = match n % 10 {
        0 => "0",
        1 => "1",
        2 => "2",
        3 => "3",
        4 => "4",
        5 => "5",
        6 => "6",
        7 => "7",
        8 => "8",
        _ => "9",
    };
    proof {
        reveal_strlit("0");
        reveal_strlit("1");
        reveal_strlit("2");
        reveal_strlit("3");
        reveal_strlit("4");
        reveal_strlit("5");
        reveal_strlit("6");
        reveal_strlit("7");
        reveal_strlit("8");
        reveal_strlit("9");
        assert(d@ =~= seq![digit_char((n % 10) as int)]);
    }
    if n < 10 {
        d.to_owned()
    } else {
        let mut out = print_dec_u64(n / 10);
        out.append(d);
        proof {
            assert(out@ =~= dec_str(n as nat));
        }
        out
    }
}

} // verus!
