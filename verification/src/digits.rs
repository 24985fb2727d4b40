//! Decimal text of signed amounts, written and read back in verified code.

use vstd::prelude::*;

verus! {

/// The character for one decimal digit.
pub open spec fn digit_char(d: nat) -> char {
    if d == 0 {
        '0'
    } else if d == 1 {
        '1'
    } else if d == 2 {
        '2'
    } else if d == 3 {
        '3'
    } else if d == 4 {
        '4'
    } else if d == 5 {
        '5'
    } else if d == 6 {
        '6'
    } else if d == 7 {
        '7'
    } else if d == 8 {
        '8'
    } else {
        '9'
    }
}

/// The decimal digits of a non-negative number, most significant first,
/// with no leading zeros.
pub open spec fn dec_digits(n: nat) -> Seq<char>
    decreases n,
{
    if n < 10 {
        seq![digit_char(n)]
    } else {
        dec_digits(n / 10).push(digit_char(n % 10))
    }
}

/// The decimal text of a signed number: a minus sign for a negative value,
/// then its digits.
pub open spec fn dec_text(n: int) -> Seq<char> {
    if n < 0 {
        seq!['-'] + dec_digits((-n) as nat)
    } else {
        dec_digits(n as nat)
    }
}

/// Whether `c` is a decimal digit.
pub open spec fn is_digit(c: char) -> bool {
    '0' <= c && c <= '9'
}

/// The numeric value of a digit character.
pub open spec fn digit_val(c: char) -> int {
    c as int - '0' as int
}

/// The value of a digit string, most significant digit first.
pub open spec fn dec_val(s: Seq<char>) -> int
    decreases s.len(),
{
    if s.len() == 0 {
        0
    } else {
        dec_val(s.drop_last()) * 10 + digit_val(s.last())
    }
}

proof fn lemma_digit_char_val(d: nat)
    requires
        d < 10,
    ensures
        is_digit(digit_char(d)),
        digit_val(digit_char(d)) == d,
{
}

proof fn lemma_dec_digits_shape(n: nat)
    ensures
        dec_digits(n).len() >= 1,
        forall|i: int| 0 <= i < dec_digits(n).len() ==> is_digit(#[trigger] dec_digits(n)[i]),
    decreases n,
{
    if n < 10 {
        lemma_digit_char_val(n);
    } else {
        lemma_dec_digits_shape(n / 10);
        lemma_digit_char_val(n % 10);
    }
}

proof fn lemma_dec_val_of_digits(n: nat)
    ensures
        dec_val(dec_digits(n)) == n,
    decreases n,
{
    if n < 10 {
        lemma_digit_char_val(n);
        assert(dec_digits(n) == seq![digit_char(n)]);
        assert(seq![digit_char(n)].drop_last() =~= Seq::<char>::empty());
        assert(seq![digit_char(n)].last() == digit_char(n));
        assert(dec_val(seq![digit_char(n)]) == dec_val(Seq::<char>::empty()) * 10 + digit_val(
            digit_char(n),
        ));
        assert(dec_val(Seq::<char>::empty()) == 0);
    } else {
        lemma_dec_val_of_digits(n / 10);
        lemma_digit_char_val(n % 10);
        assert(dec_digits(n) == dec_digits(n / 10).push(digit_char(n % 10)));
        assert(dec_digits(n).drop_last() =~= dec_digits(n / 10));
        assert(dec_digits(n).last() == digit_char(n % 10));
        assert(dec_val(dec_digits(n)) == dec_val(dec_digits(n / 10)) * 10 + digit_val(
            digit_char(n % 10),
        ));
        vstd::arithmetic::div_mod::lemma_fundamental_div_mod(n as int, 10);
        assert(n == 10 * (n / 10) + n % 10);
    }
}

proof fn lemma_dec_digits_prefix_bound(n: nat, i: int)
    requires
        0 <= i <= dec_digits(n).len(),
    ensures
        0 <= dec_val(dec_digits(n).take(i)) <= n,
    decreases n,
{
    if i == dec_digits(n).len() {
        assert(dec_digits(n).take(i) =~= dec_digits(n));
        lemma_dec_val_of_digits(n);
    } else if n < 10 {
        assert(dec_digits(n).take(i) =~= Seq::<char>::empty());
    } else {
        assert(dec_digits(n).take(i) =~= dec_digits(n / 10).take(i));
        lemma_dec_digits_prefix_bound(n / 10, i);
        vstd::arithmetic::div_mod::lemma_fundamental_div_mod(n as int, 10);
    }
}

/// Every character of a decimal text is a minus sign or a digit.
pub proof fn lemma_dec_text_chars(n: int)
    ensures
        forall|i: int|
            #![trigger dec_text(n)[i]]
            0 <= i < dec_text(n).len() ==> (dec_text(n)[i] == '-' || is_digit(dec_text(n)[i])),
{
    let m = if n < 0 {
        (-n) as nat
    } else {
        n as nat
    };
    lemma_dec_digits_shape(m);
    assert forall|i: int| 0 <= i < dec_text(n).len() implies (dec_text(n)[i] == '-' || is_digit(
        dec_text(n)[i],
    )) by {
        if n < 0 {
            if i > 0 {
                assert(dec_text(n)[i] == dec_digits(m)[i - 1]);
            }
        } else {
            assert(dec_text(n)[i] == dec_digits(m)[i]);
        }
    }
}

fn push_digit_char(out: &mut Vec<char>, d: u64)
    requires
        d < 10,
    ensures
        final(out)@ == old(out)@.push(digit_char(d as nat)),
{
    let c: char = if d == 0 {
        '0'
    } else if d == 1 {
        '1'
    } else if d == 2 {
        '2'
    } else if d == 3 {
        '3'
    } else if d == 4 {
        '4'
    } else if d == 5 {
        '5'
    } else if d == 6 {
        '6'
    } else if d == 7 {
        '7'
    } else if d == 8 {
        '8'
    } else {
        '9'
    };
    out.push(c);
}

fn push_digits(out: &mut Vec<char>, n: u64)
    ensures
        final(out)@ == old(out)@ + dec_digits(n as nat),
    decreases n,
{
    if n < 10 {
        push_digit_char(out, n);
        proof {
            assert(old(out)@.push(digit_char(n as nat)) =~= old(out)@ + seq![
                digit_char(n as nat),
            ]);
        }
    } else {
        push_digits(out, n / 10);
        push_digit_char(out, n % 10);
        proof {
            assert((old(out)@ + dec_digits((n / 10) as nat)).push(digit_char((n % 10) as nat))
                =~= old(out)@ + dec_digits((n / 10) as nat).push(digit_char((n % 10) as nat)));
        }
    }
}

/// Appends the decimal text of `n` to `out`.
pub fn push_i64_text(out: &mut Vec<char>, n: i64)
    ensures
        final(out)@ == old(out)@ + dec_text(n as int),
{
    if n < 0 {
        out.push('-');
        let wide: i128 = -(n as i128);
        let mag: u64 = wide as u64;
        push_digits(out, mag);
        proof {
            assert(old(out)@.push('-') + dec_digits(mag as nat) =~= old(out)@ + (seq!['-']
                + dec_digits(mag as nat)));
        }
    } else {
        push_digits(out, n as u64);
    }
}

/// The decimal text of `n`, as characters.
pub fn format_i64(n: i64) -> (r: Vec<char>)
    ensures
        r@ == dec_text(n as int),
{
    let mut out: Vec<char> = Vec::new();
    push_i64_text(&mut out, n);
    proof {
        assert(Seq::<char>::empty() + dec_text(n as int) =~= dec_text(n as int));
    }
    out
}

/// Reads a signed 32-bit value back from its decimal text: on the canonical
/// text of any `i32` it returns exactly that value.
pub fn parse_i32(s: &Vec<char>) -> (r: Option<i32>)
    ensures
        forall|n: i32| s@ == dec_text(n as int) ==> r == Some(n),
{
    let len = s.len();
    if len == 0 {
        proof {
            assert forall|n: i32| s@ == dec_text(n as int) implies false by {
                lemma_dec_digits_shape(if n < 0 {
                    (-(n as int)) as nat
                } else {
                    n as nat
                });
            }
        }
        return None;
    }
    let negative = s[0] == '-';
    let start: usize = if negative {
        1
    } else {
        0
    };
    proof {
        assert forall|n: i32| s@ == dec_text(n as int) implies (negative <==> n < 0) by {
            lemma_dec_digits_shape(if n < 0 {
                (-(n as int)) as nat
            } else {
                n as nat
            });
            if n < 0 {
                assert(s@[0] == '-');
            } else {
                assert(is_digit(s@[0]));
            }
        }
    }
    if start == len {
        proof {
            assert forall|n: i32| s@ == dec_text(n as int) implies false by {
                lemma_dec_digits_shape(if n < 0 {
                    (-(n as int)) as nat
                } else {
                    n as nat
                });
            }
        }
        return None;
    }
    proof {
        assert forall|n: i32| s@ == dec_text(n as int) implies s@.subrange(
            start as int,
            len as int,
        ) == dec_digits(if n < 0 {
            (-(n as int)) as nat
        } else {
            n as nat
        }) by {
            let m = if n < 0 {
                (-(n as int)) as nat
            } else {
                n as nat
            };
            if n < 0 {
                assert(s@.subrange(1, len as int) =~= dec_digits(m));
            } else {
                assert(s@.subrange(0, len as int) =~= dec_digits(m));
            }
        }
    }
    let mut acc: i64 = 0;
    let mut i: usize = start;
    while i < len
        invariant
            start <= i <= len,
            len == s@.len(),
            start < len,
            0 <= acc <= 0x5_0000_0009,
            acc == dec_val(s@.subrange(start as int, i as int)),
            forall|n: i32| s@ == dec_text(n as int) ==> s@.subrange(start as int, len as int)
                == dec_digits(if n < 0 {
                (-(n as int)) as nat
            } else {
                n as nat
            }),
        decreases len - i,
    {
        let c = s[i];
        if !('0' <= c && c <= '9') {
            proof {
                assert forall|n: i32| s@ == dec_text(n as int) implies false by {
                    let m = if n < 0 {
                        (-(n as int)) as nat
                    } else {
                        n as nat
                    };
                    lemma_dec_digits_shape(m);
                    assert(dec_digits(m)[i - start] == s@[i as int]);
                }
            }
            return None;
        }
        if acc > 0x8000_0000 {
            proof {
                assert forall|n: i32| s@ == dec_text(n as int) implies false by {
                    let m = if n < 0 {
                        (-(n as int)) as nat
                    } else {
                        n as nat
                    };
                    assert(s@.subrange(start as int, i as int) =~= dec_digits(m).take(
                        i - start,
                    ));
                    lemma_dec_digits_prefix_bound(m, i - start);
                }
            }
            return None;
        }
        let d: i64 = (c as u32 as i64) - ('0' as u32 as i64);
        acc = acc * 10 + d;
        proof {
            assert(s@.subrange(start as int, i + 1).drop_last() =~= s@.subrange(
                start as int,
                i as int,
            ));
            assert(s@.subrange(start as int, i + 1).last() == s@[i as int]);
        }
        i = i + 1;
    }
    proof {
        assert forall|n: i32| s@ == dec_text(n as int) implies acc == (if n < 0 {
            -(n as int)
        } else {
            n as int
        }) by {
            let m = if n < 0 {
                (-(n as int)) as nat
            } else {
                n as nat
            };
            assert(s@.subrange(start as int, len as int) == dec_digits(m));
            lemma_dec_val_of_digits(m);
        }
    }
    if negative {
        if acc > 0x8000_0000 {
            return None;
        }
        let v: i64 = -acc;
        Some(v as i32)
    } else {
        if acc > 0x7FFF_FFFF {
            return None;
        }
        Some(acc as i32)
    }
}

} // verus!
