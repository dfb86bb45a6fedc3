//! Text helpers: decimal rendering of integers and string comparison.
use vstd::prelude::*;
use vstd::string::*;

verus! {

/// The character of a decimal digit.
pub open spec fn digit_char(d: nat) -> char {
    if d == 0 {
        '0'
    } else if d == 1 {
        '1'
    } else if d == 2 {
        '2'
    } else if d == 3 {
        '3'
    } else if d == 4 {
        '4'
    } else if d == 5 {
        '5'
    } else if d == 6 {
        '6'
    } else if d == 7 {
        '7'
    } else if d == 8 {
        '8'
    } else {
        '9'
    }
}

/// The decimal representation of `n`, without leading zeros.
pub open spec fn decimal(n: nat) -> Seq<char>
    decreases n,
{
    if n < 10 {
        seq![digit_char(n)]
    } else {
        decimal(n / 10).push(digit_char(n % 10))
    }
}

/// Render `n` in decimal.
pub fn u64_to_decimal(n: u64) -> (s: String)
    ensures
        s@ == decimal(n as nat),
{
    let digits = "0123456789";
    proof {
        reveal_strlit("0123456789");
    }
    let mut s = String::new();
    let mut m: u64 = n;
    loop
        invariant_except_break
            m > 0 || n == 0,
            m > 0 ==> decimal(n as nat) == decimal(m as nat) + s@,
            n == 0 ==> m == 0 && s@ == Seq::<char>::empty(),
        invariant
            digits@ == "0123456789"@,
        ensures
            s@ == decimal(n as nat),
        decreases m,
    {
        proof {
            reveal_strlit("0123456789");
        }
        let d: u64 = m % 10;
        let du: usize = if d == 0 {
            0
        } else if d == 1 {
            1
        } else if d == 2 {
            2
        } else if d == 3 {
            3
        } else if d == 4 {
            4
        } else if d == 5 {
            5
        } else if d == 6 {
            6
        } else if d == 7 {
            7
        } else if d == 8 {
            8
        } else {
            9
        };
        let ds = digits.substring_char(du, du + 1);
        assert(ds@ =~= seq![digit_char(d as nat)]);
        let mut t = String::from_str(ds);
        t.append(s.as_str());
        let ghost old_s = s@;
        s = t;
        assert(s@ =~= seq![digit_char(d as nat)] + old_s);
        if m < 10 {
            assert(decimal(n as nat) =~= s@);
            break;
        }
        assert(decimal(m as nat) == decimal((m / 10) as nat).push(digit_char(d as nat)));
        assert(decimal(n as nat) =~= decimal((m / 10) as nat) + s@);
        m = m / 10;
    }
    s
}

/// Whether two strings hold the same characters.
pub fn str_eq(a: &str, b: &str) -> (r: bool)
    ensures
        r == (a@ == b@),
{
    let x = String::from_str(a);
    let y = String::from_str(b);
    x == y
}


/// The character sequences of a sequence of strings.
pub open spec fn strs(v: Seq<String>) -> Seq<Seq<char>> {
    v.map_values(|s: String| s@)
}

/// Whether one of `v` holds the characters `s`.
pub open spec fn contains_str(v: Seq<String>, s: Seq<char>) -> bool {
    exists|i: int| 0 <= i < v.len() && (#[trigger] v[i])@ == s
}

/// Whether `v` holds a string equal to `s`.
pub fn vec_contains_str(v: &Vec<String>, s: &str) -> (b: bool)
    ensures
        b == contains_str(v@, s@),
{
    let mut i: usize = 0;
    while i < v.len()
        invariant
            i <= v@.len(),
            forall|j: int| 0 <= j < i ==> (#[trigger] v@[j])@ != s@,
        decreases v@.len() - i,
    {
        if str_eq(v[i].as_str(), s) {
            return true;
        }
        i = i + 1;
    }
    false
}

} // verus!
