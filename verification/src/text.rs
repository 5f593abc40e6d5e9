//! Decimal text for names and messages.

use vstd::prelude::*;
use vstd::string::*;

verus! {

/// The character of a decimal digit.
pub open spec fn digit_char(d: nat) -> char
    recommends
        d < 10,
{
    if d == 0 {
        '0'
    } else if d == 1 {
        '1'
    } else if d == 2 {
        '2'
    } else if d == 3 {
        '3'
    } else if d == 4 {
        '4'
    } else if d == 5 {
        '5'
    } else if d == 6 {
        '6'
    } else if d == 7 {
        '7'
    } else if d == 8 {
        '8'
    } else {
        '9'
    }
}

/// `n` in decimal, without leading zeros.
pub open spec fn decimal_text(n: nat) -> Seq<char>
    decreases n,
{
    if n < 10 {
        seq![digit_char(n)]
    } else {
        decimal_text(n / 10).push(digit_char(n % 10))
    }
}

/// The dimensions between square brackets, separated by a comma and a blank.
pub open spec fn list_text(s: Seq<usize>) -> Seq<char> {
    "["@ + items_text(s) + "]"@
}

/// The items of a list, separated by a comma and a blank.
pub open spec fn items_text(s: Seq<usize>) -> Seq<char>
    decreases s.len(),
{
    if s.len() == 0 {
        Seq::empty()
    } else if s.len() == 1 {
        decimal_text(s[0] as nat)
    } else {
        items_text(s.drop_last()) + ", "@ + decimal_text(s.last() as nat)
    }
}

fn digit(d: usize) -> (r: &'static str)
    requires
        d < 10,
    ensures
        r@ == seq![digit_char(d as nat)],
{
    proof {
        reveal_strlit("0");
        reveal_strlit("1");
        reveal_strlit("2");
        reveal_strlit("3");
        reveal_strlit("4");
        reveal_strlit("5");
        reveal_strlit("6");
        reveal_strlit("7");
        reveal_strlit("8");
        reveal_strlit("9");
    }
    let r: &'static str = match d {
        0 => "0",
        1 => "1",
        2 => "2",
        3 => "3",
        4 => "4",
        5 => "5",
        6 => "6",
        7 => "7",
        8 => "8",
        _ => "9",
    };
    assert(r@ =~= seq![digit_char(d as nat)]);
    r
}

/// Writes `n` in decimal.
pub fn decimal(n: usize) -> (r: String)
    ensures
        r@ == decimal_text(n as nat),
    decreases n,
{
    if n < 10 {
        let mut r: String = String::new();
        r.append(digit(n));
        assert(r@ =~= decimal_text(n as nat));
        r
    } else {
        let mut r: String = decimal(n / 10);
        r.append(digit(n % 10));
        assert(r@ =~= decimal_text(n as nat));
        r
    }
}

/// Writes a list of extents.
pub fn list(s: &[usize]) -> (r: String)
    ensures
        r@ == list_text(s@),
{
    let mut r: String = String::new();
    r.append("[");
    let mut i: usize = 0;
    assert(s@.take(0) =~= Seq::<usize>::empty());
    assert(r@ =~= "["@ + items_text(s@.take(0)));
    while i < s.len()
        invariant
            i <= s.len(),
            r@ == "["@ + items_text(s@.take(i as int)),
        decreases s.len() - i,
    {
        let ghost before = s@.take(i as int);
        let ghost after = s@.take(i as int + 1);
        assert(after.drop_last() =~= before);
        assert(after.last() == s[i as int]);
        if i > 0 {
            r.append(", ");
        } else {
            assert(after[0] == s[0]);
        }
        let item: String = decimal(s[i]);
        r.append(item.as_str());
        assert(r@ =~= "["@ + items_text(after));
        i = i + 1;
    }
    assert(s@.take(s.len() as int) =~= s@);
    r.append("]");
    r
}

/// Appends `n` in decimal.
pub fn push_decimal(text: &mut String, n: usize)
    ensures
        final(text)@ == old(text)@ + decimal_text(n as nat),
{
    text.append(decimal(n).as_str());
}

/// Whether two texts are the same.
pub fn same_text(a: &str, b: &str) -> (r: bool)
    ensures
        r == (a@ == b@),
{
    a.to_owned() == b.to_owned()
}

/// Joins two texts.
pub fn join(a: &str, b: &str) -> (r: String)
    ensures
        r@ == a@ + b@,
{
    let mut r: String = String::new();
    r.append(a);
    r.append(b);
    assert(r@ =~= a@ + b@);
    r
}

/// The number that digits stand for, the last one being the units.
pub open spec fn read_digits(s: Seq<char>) -> int
    decreases s.len(),
{
    if s.len() == 0 {
        0
    } else {
        read_digits(s.drop_last()) * 10 + (s.last() as int - '0' as int)
    }
}

/// Numbers are written in decimal digits, from which they can be read back, and without zeros in
/// front.
pub proof fn law_numbers_read_back(n: nat)
    ensures
        read_digits(decimal_text(n)) == n,
        decimal_text(n).len() >= 1,
        forall|i: int|
            0 <= i < decimal_text(n).len() ==> '0' <= #[trigger] decimal_text(n)[i] <= '9',
        n > 0 ==> decimal_text(n)[0] != '0',
    decreases n,
{
    reveal_with_fuel(read_digits, 2);
    let s = decimal_text(n);
    if n >= 10 {
        let t = decimal_text(n / 10);
        law_numbers_read_back(n / 10);
        assert(s.drop_last() =~= t);
        assert forall|i: int| 0 <= i < s.len() implies '0' <= #[trigger] s[i] <= '9' by {
            if i < t.len() {
                assert(s[i] == t[i]);
            }
        }
    } else {
        assert(s.drop_last() =~= Seq::<char>::empty());
    }
}

} // verus!
