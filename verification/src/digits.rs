//! Verified decimal formatting: chunk file names carry a block number
//! zero-padded to ten digits, and HTTP endpoints carry a port number in
//! plain decimal.

use vstd::prelude::*;
use vstd::string::StringExecFns;

verus! {

/// The character for one decimal digit.
pub open spec fn digit_char(d: nat) -> char {
    if d == 0 {
        '0'
    } else if d == 1 {
        '1'
    } else if d == 2 {
        '2'
    } else if d == 3 {
        '3'
    } else if d == 4 {
        '4'
    } else if d == 5 {
        '5'
    } else if d == 6 {
        '6'
    } else if d == 7 {
        '7'
    } else if d == 8 {
        '8'
    } else {
        '9'
    }
}

/// Ten to the power `k`.
pub open spec fn pow10(k: nat) -> nat
    decreases k,
{
    if k == 0 {
        1
    } else {
        10 * pow10((k - 1) as nat)
    }
}

/// The low `width` decimal digits of `n`, most significant first: for
/// `n < pow10(width)` this is `n` zero-padded to exactly `width` digits.
pub open spec fn padded_decimal(n: nat, width: nat) -> Seq<char>
    decreases width,
{
    if width == 0 {
        Seq::empty()
    } else {
        padded_decimal(n / 10, (width - 1) as nat).push(digit_char(n % 10))
    }
}

/// `n` in decimal with no leading zeros (`0` is written as one digit).
pub open spec fn plain_decimal(n: nat) -> Seq<char>
    decreases n,
{
    if n < 10 {
        seq![digit_char(n)]
    } else {
        plain_decimal(n / 10).push(digit_char(n % 10))
    }
}

pub proof fn lemma_pow10_pos(k: nat)
    ensures
        pow10(k) >= 1,
    decreases k,
{
    if k > 0 {
        lemma_pow10_pos((k - 1) as nat);
    }
}

pub proof fn lemma_pow10_values()
    ensures
        pow10(0) == 1,
        pow10(1) == 10,
        pow10(2) == 100,
        pow10(3) == 1000,
        pow10(4) == 10000,
        pow10(5) == 100000,
        pow10(6) == 1000000,
        pow10(7) == 10000000,
        pow10(8) == 100000000,
        pow10(9) == 1000000000,
        pow10(10) == 10000000000,
{
    assert(pow10(0) == 1);
    assert(pow10(1) == 10);
    assert(pow10(2) == 100);
    assert(pow10(3) == 1000);
    assert(pow10(4) == 10000);
    assert(pow10(5) == 100000);
    assert(pow10(6) == 1000000);
    assert(pow10(7) == 10000000);
    assert(pow10(8) == 100000000);
    assert(pow10(9) == 1000000000);
    assert(pow10(10) == 10000000000);
}

/// One decimal digit as a string slice.
pub fn digit_str(d: u64) -> (s: &'static str)
    requires
        d < 10,
    ensures
        s@ == seq![digit_char(d as nat)],
{
    proof {
        reveal_strlit("0");
        reveal_strlit("1");
        reveal_strlit("2");
        reveal_strlit("3");
        reveal_strlit("4");
        reveal_strlit("5");
        reveal_strlit("6");
        reveal_strlit("7");
        reveal_strlit("8");
        reveal_strlit("9");
    }
    let s: &'static str = if d == 0 {
        "0"
    } else if d == 1 {
        "1"
    } else if d == 2 {
        "2"
    } else if d == 3 {
        "3"
    } else if d == 4 {
        "4"
    } else if d == 5 {
        "5"
    } else if d == 6 {
        "6"
    } else if d == 7 {
        "7"
    } else if d == 8 {
        "8"
    } else {
        "9"
    };
    proof {
        assert(s@ =~= seq![digit_char(d as nat)]);
    }
    s
}

/// `n` zero-padded to ten decimal digits, as in a chunk file name.
pub fn padded_u64(n: u64) -> (s: String)
    requires
        n < 10000000000,
    ensures
        s@ == padded_decimal(n as nat, 10),
        s@.len() == 10,
{
    proof {
        lemma_pow10_values();
    }
    let mut s = String::new();
    let mut divisor: u64 = 1000000000;
    let mut k: usize = 0;
    while k < 10
        invariant
            k <= 10,
            n < 10000000000,
            k < 10 ==> divisor == pow10((9 - k) as nat),
            s@ == padded_decimal((n as nat) / pow10((10 - k) as nat), k as nat),
            s@.len() == k,
        decreases 10 - k,
    {
        proof {
            lemma_pow10_pos((9 - k) as nat);
        }
        let d: u64 = (n / divisor) % 10;
        let ghost m: nat = (n as nat) / pow10((9 - k) as nat);
        proof {
            assert(d as nat == m % 10);
            vstd::arithmetic::div_mod::lemma_div_denominator(n as int, pow10((9 - k) as nat) as int, 10);
            assert(pow10((10 - k) as nat) == 10 * pow10((9 - k) as nat));
            assert(m / 10 == (n as nat) / pow10((10 - k) as nat));
            assert(padded_decimal(m, (k + 1) as nat) == padded_decimal(m / 10, k as nat).push(
                digit_char(m % 10),
            ));
        }
        s.append(digit_str(d));
        if k < 9 {
            divisor = divisor / 10;
            proof {
                assert(pow10((9 - k) as nat) == 10 * pow10((8 - k) as nat));
            }
        }
        k = k + 1;
        proof {
            assert(s@ =~= padded_decimal((n as nat) / pow10((10 - k) as nat), k as nat));
        }
    }
    proof {
        assert(pow10(0) == 1);
        assert((n as nat) / pow10(0) == n as nat);
    }
    s
}

/// `n` in plain decimal, as in a port number.
pub fn plain_u16(n: u16) -> (s: String)
    ensures
        s@ == plain_decimal(n as nat),
    decreases n,
{
    if n < 10 {
        let s = digit_str(n as u64).to_owned();
        s
    } else {
        let mut s = plain_u16(n / 10);
        s.append(digit_str((n % 10) as u64));
        proof {
            assert(s@ =~= plain_decimal(n as nat));
        }
        s
    }
}

} // verus!
