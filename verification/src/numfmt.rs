//! Decimal and hexadecimal rendering of integers into strings.
use vstd::prelude::*;

verus! {

/// The character of digit `d` (0-9, then lower-case a-f).
pub open spec fn digit_char(d: nat) -> char {
    if d < 10 {
        (48 + d) as char
    } else {
        (87 + d) as char
    }
}

/// The digits of `v` in `base`, most significant first, without leading
/// zeros ("0" for zero).
pub open spec fn digits(v: nat, base: nat) -> Seq<char>
    decreases v,
{
    if base < 2 || v < base {
        seq![digit_char(v)]
    } else {
        proof {
            assert(v / base < v) by (nonlinear_arith)
                requires
                    base >= 2,
                    v >= base,
            ;
        }
        digits(v / base, base).push(digit_char(v % base))
    }
}

fn digit_str(d: u64) -> (s: &'static str)
    requires
        d < 16,
    ensures
        s@ == seq![digit_char(d as nat)],
{
    match d {
        0 => {
            proof {
                reveal_strlit("0");
            }
            "0"
        },
        1 => {
            proof {
                reveal_strlit("1");
            }
            "1"
        },
        2 => {
            proof {
                reveal_strlit("2");
            }
            "2"
        },
        3 => {
            proof {
                reveal_strlit("3");
            }
            "3"
        },
        4 => {
            proof {
                reveal_strlit("4");
            }
            "4"
        },
        5 => {
            proof {
                reveal_strlit("5");
            }
            "5"
        },
        6 => {
            proof {
                reveal_strlit("6");
            }
            "6"
        },
        7 => {
            proof {
                reveal_strlit("7");
            }
            "7"
        },
        8 => {
            proof {
                reveal_strlit("8");
            }
            "8"
        },
        9 => {
            proof {
                reveal_strlit("9");
            }
            "9"
        },
        10 => {
            proof {
                reveal_strlit("a");
            }
            "a"
        },
        11 => {
            proof {
                reveal_strlit("b");
            }
            "b"
        },
        12 => {
            proof {
                reveal_strlit("c");
            }
            "c"
        },
        13 => {
            proof {
                reveal_strlit("d");
            }
            "d"
        },
        14 => {
            proof {
                reveal_strlit("e");
            }
            "e"
        },
        15 => {
            proof {
                reveal_strlit("f");
            }
            "f"
        },
        _ => {
            proof {
                reveal_strlit("f");
            }
            "f"
        },
    }
}

/// Append the digits of `v` in `base` (10 or 16) to `s`.
pub fn push_digits(s: &mut String, v: u64, base: u64)
    requires
        base == 10 || base == 16,
    ensures
        final(s)@ == old(s)@ + digits(v as nat, base as nat),
    decreases v,
{
    let ghost s0 = s@;
    if v >= base {
        push_digits(s, v / base, base);
    }
    s.append(digit_str(v % base));
    proof {
        if v >= base {
            assert(digits(v as nat, base as nat) == digits((v / base) as nat, base as nat).push(
                digit_char((v % base) as nat),
            ));
            assert(s@ =~= s0 + digits(v as nat, base as nat));
        } else {
            assert(v % base == v);
            assert(s@ =~= s0 + digits(v as nat, base as nat));
        }
    }
}

} // verus!
