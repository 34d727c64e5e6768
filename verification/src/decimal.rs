//! Decimal numerals.
use vstd::prelude::*;

verus! {

/// `n` in decimal.
pub open spec fn decimal(n: nat) -> Seq<char>
    decreases n,
{
    if n < 10 {
        seq![('0' as u8 + n) as u8 as char]
    } else {
        decimal(n / 10).push(('0' as u8 + n % 10) as u8 as char)
    }
}

/// A numeral is ASCII, and no longer than the number.
pub proof fn lemma_decimal_short(n: nat)
    ensures
        vstd::utf8::is_ascii_chars(decimal(n)),
        1 <= decimal(n).len() <= n + 1,
        vstd::utf8::encode_utf8(decimal(n)).len() == decimal(n).len(),
    decreases n,
{
    if n >= 10 {
        lemma_decimal_short(n / 10);
        assert(n / 10 + 2 <= n + 1);
    }
    vstd::utf8::is_ascii_chars_encode_utf8(decimal(n));
}

/// The number that a numeral stands for.
pub open spec fn number_of(s: Seq<char>) -> nat
    decreases s.len(),
{
    if s.len() == 0 {
        0
    } else {
        (number_of(s.drop_last()) * 10 + (s.last() as int - '0' as int)) as nat
    }
}

/// A numeral reads back as its number: two numbers never have one numeral.
pub proof fn law_decimal_read_back(n: nat)
    ensures
        number_of(decimal(n)) == n,
    decreases n,
{
    reveal_with_fuel(number_of, 2);
    if n >= 10 {
        law_decimal_read_back(n / 10);
        assert(decimal(n).drop_last() =~= decimal(n / 10));
    } else {
        assert(decimal(n).drop_last() =~= Seq::empty());
    }
}

/// A numeral is made of digits, and starts with 0 only where it is 0 alone.
pub proof fn law_decimal_digits(n: nat)
    ensures
        forall|i: int| 0 <= i < decimal(n).len() ==> '0' <= #[trigger] decimal(n)[i] <= '9',
        decimal(n).len() > 1 ==> decimal(n)[0] != '0',
        decimal(n).len() > 0,
    decreases n,
{
    if n >= 10 {
        law_decimal_digits(n / 10);
        law_decimal_read_back(n / 10);
        let front = decimal(n / 10);
        assert(decimal(n)[0] == front[0]);
        if front.len() == 1 && front[0] == '0' {
            reveal_with_fuel(number_of, 2);
            assert(front.drop_last() =~= Seq::empty());
        }
        assert forall|i: int| 0 <= i < decimal(n).len() implies '0' <= #[trigger] decimal(n)[i]
            <= '9' by {
            if i < front.len() {
                assert(decimal(n)[i] == front[i]);
            }
        }
    }
}

fn digit_str(d: usize) -> (r: &'static str)
    requires
        d < 10,
    ensures
        r@ == decimal(d as nat),
{
    proof {
        reveal_strlit("0");
        reveal_strlit("1");
        reveal_strlit("2");
        reveal_strlit("3");
        reveal_strlit("4");
        reveal_strlit("5");
        reveal_strlit("6");
        reveal_strlit("7");
        reveal_strlit("8");
        reveal_strlit("9");
    }
    let r = if d == 0 {
        "0"
    } else if d == 1 {
        "1"
    } else if d == 2 {
        "2"
    } else if d == 3 {
        "3"
    } else if d == 4 {
        "4"
    } else if d == 5 {
        "5"
    } else if d == 6 {
        "6"
    } else if d == 7 {
        "7"
    } else if d == 8 {
        "8"
    } else {
        "9"
    };
    assert(r@ =~= decimal(d as nat));
    r
}

/// `n` in decimal.
pub fn decimal_string(n: usize) -> (r: String)
    ensures
        r@ == decimal(n as nat),
    decreases n,
{
    if n < 10 {
        digit_str(n).to_owned()
    } else {
        let mut s = decimal_string(n / 10);
        let ghost lead = s@;
        s.append(digit_str(n % 10));
        proof {
            assert(s@ =~= lead.push(('0' as u8 + n % 10) as u8 as char));
        }
        s
    }
}

} // verus!
