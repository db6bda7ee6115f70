//! How a value is shown to users: a string in double quotes, an integer in decimal, and
//! `Nil` as `null`. Numbers and vectors are shown with float formatting, which this crate
//! leaves to its callers.

use vstd::prelude::*;
use crate::value::Value;

verus! {

/// The character of a decimal digit.
pub open spec fn digit_char(d: nat) -> char {
    ('0' as nat + d) as char
}

/// The decimal digits of a positive number, most significant first; none for zero.
pub open spec fn decimal_digits(n: nat) -> Seq<char>
    decreases n,
{
    if n == 0 {
        Seq::empty()
    } else {
        decimal_digits(n / 10).push(digit_char(n % 10))
    }
}

/// The decimal text of an integer, with a leading `-` when it is negative.
pub open spec fn decimal_text(n: int) -> Seq<char> {
    if n == 0 {
        seq!['0']
    } else if n < 0 {
        seq!['-'] + decimal_digits((-n) as nat)
    } else {
        decimal_digits(n as nat)
    }
}

/// How a value is shown, when it is a string, an integer or `Nil`.
pub open spec fn shown(v: Value) -> Option<Seq<char>> {
    match v {
        Value::String(s) => Some(seq!['"'] + s@ + seq!['"']),
        Value::Int(n) => Some(decimal_text(n as int)),
        Value::Nil => Some("null"@),
        _ => None,
    }
}

fn digit_str(d: u64) -> (s: &'static str)
    requires
        d < 10,
    ensures
        s@ == seq![digit_char(d as nat)],
{
    proof {
        reveal_strlit("0");
        reveal_strlit("1");
        reveal_strlit("2");
        reveal_strlit("3");
        reveal_strlit("4");
        reveal_strlit("5");
        reveal_strlit("6");
        reveal_strlit("7");
        reveal_strlit("8");
        reveal_strlit("9");
    }
    let s = if d == 0 {
        "0"
    } else if d == 1 {
        "1"
    } else if d == 2 {
        "2"
    } else if d == 3 {
        "3"
    } else if d == 4 {
        "4"
    } else if d == 5 {
        "5"
    } else if d == 6 {
        "6"
    } else if d == 7 {
        "7"
    } else if d == 8 {
        "8"
    } else {
        "9"
    };
    assert(s@ =~= seq![digit_char(d as nat)]);
    s
}

/// The decimal text of an integer.
pub fn decimal(n: i64) -> (s: String)
    ensures
        s@ == decimal_text(n as int),
{
    if n == 0 {
        proof {
            reveal_strlit("0");
        }
        let z = String::from_str("0");
        assert(z@ =~= seq!['0']);
        return z;
    }
    let magnitude: u64 = if n < 0 {
        (-(n as i128)) as u64
    } else {
        n as u64
    };
    let ghost mag: nat = magnitude as nat;
    let mut m: u64 = magnitude;
    let mut acc = String::new();
    assert(decimal_digits(mag) =~= decimal_digits(m as nat) + acc@);
    while m > 0
        invariant
            decimal_digits(mag) == decimal_digits(m as nat) + acc@,
        decreases m,
    {
        let d = m % 10;
        let q = m / 10;
        let digit = String::from_str(digit_str(d));
        let ghost old_acc = acc@;
        acc = digit.concat(acc.as_str());
        assert(decimal_digits(m as nat) == decimal_digits(q as nat).push(digit_char(d as nat)));
        assert(decimal_digits(mag) =~= decimal_digits(q as nat) + acc@);
        m = q;
    }
    assert(decimal_digits(0) =~= Seq::<char>::empty());
    assert(acc@ =~= decimal_digits(mag));
    if n < 0 {
        proof {
            reveal_strlit("-");
        }
        let r = String::from_str("-").concat(acc.as_str());
        assert(r@ =~= seq!['-'] + decimal_digits(mag));
        r
    } else {
        acc
    }
}

impl Value {
    /// How this value is shown (see [`shown`]), or `None` for a number or a vector.
    pub fn display_text(&self) -> (r: Option<String>)
        ensures
            match r {
                Some(s) => shown(*self) == Some(s@),
                None => shown(*self) is None,
            },
    {
        proof {
            reveal_strlit("\"");
            reveal_strlit("null");
        }
        match self {
            Value::String(x) => {
                let q = String::from_str("\"");
                let s = q.concat(x.as_str()).concat("\"");
                assert(s@ =~= seq!['"'] + x@ + seq!['"']);
                Some(s)
            },
            Value::Int(n) => Some(decimal(*n)),
            Value::Nil => Some(String::from_str("null")),
            _ => None,
        }
    }
}

} // verus!
