//! Small string helpers with exact contracts over character sequences.

use vstd::prelude::*;

use crate::ir::texts;

verus! {

/// Compares an owned string with a literal.
pub fn text_is(s: &String, lit: &str) -> (r: bool)
    ensures
        r == (s@ == lit@),
{
    let owned: String = lit.to_owned();
    *s == owned
}

/// Compares two string slices.
pub fn same_text(a: &str, b: &str) -> (r: bool)
    ensures
        r == (a@ == b@),
{
    let left: String = a.to_owned();
    let right: String = b.to_owned();
    left == right
}

/// The concatenation of two texts.
pub fn join2(a: &str, b: &str) -> (r: String)
    ensures
        r@ == a@ + b@,
{
    let left: String = a.to_owned();
    left.concat(b)
}

/// The concatenation of three texts.
pub fn join3(a: &str, b: &str, c: &str) -> (r: String)
    ensures
        r@ == a@ + b@ + c@,
{
    join2(a, b.to_owned().as_str()).concat(c)
}

/// The character of a decimal digit.
pub open spec fn digit_char(d: nat) -> char {
    ('0' as u8 + d) as char
}

/// The decimal notation of a number.
pub open spec fn decimal_chars(n: nat) -> Seq<char>
    decreases n,
{
    if n < 10 {
        seq![digit_char(n)]
    } else {
        decimal_chars(n / 10).push(digit_char(n % 10))
    }
}

/// The number that decimal digits write.
pub open spec fn number_of(digits: Seq<char>) -> int
    decreases digits.len(),
{
    if digits.len() == 0 {
        0
    } else {
        10 * number_of(digits.drop_last()) + (digits.last() as int - '0' as int)
    }
}

/// Decimal notation reads back as the number, so no two numbers share one.
pub proof fn law_decimal_reads_back(n: nat)
    ensures
        number_of(decimal_chars(n)) == n,
        decimal_chars(n).len() > 0,
    decreases n,
{
    let d = n % 10;
    assert(digit_char(d) as int - '0' as int == d);
    if n < 10 {
        reveal_with_fuel(number_of, 2);
        assert(decimal_chars(n).drop_last() =~= Seq::empty());
    } else {
        law_decimal_reads_back(n / 10);
        assert(decimal_chars(n).drop_last() =~= decimal_chars(n / 10));
    }
}

fn digit_text(d: usize) -> (r: &'static str)
    requires
        d < 10,
    ensures
        r@ == seq![digit_char(d as nat)],
{
    proof {
        reveal_strlit("0");
        reveal_strlit("1");
        reveal_strlit("2");
        reveal_strlit("3");
        reveal_strlit("4");
        reveal_strlit("5");
        reveal_strlit("6");
        reveal_strlit("7");
        reveal_strlit("8");
        reveal_strlit("9");
    }
    let r: &'static str = match d {
        0 => "0",
        1 => "1",
        2 => "2",
        3 => "3",
        4 => "4",
        5 => "5",
        6 => "6",
        7 => "7",
        8 => "8",
        _ => "9",
    };
    assert(r@ =~= seq![digit_char(d as nat)]);
    r
}

/// Writes a number in decimal notation.
pub fn decimal(n: usize) -> (r: String)
    ensures
        r@ == decimal_chars(n as nat),
    decreases n,
{
    if n < 10 {
        digit_text(n).to_owned()
    } else {
        let head: String = decimal(n / 10);
        let r: String = head.concat(digit_text(n % 10));
        assert(r@ =~= decimal_chars(n as nat));
        r
    }
}

/// The lists hold the same texts.
pub fn same_texts(a: &Vec<String>, b: &Vec<String>) -> (r: bool)
    ensures
        r == (texts(a@) == texts(b@)),
{
    if a.len() != b.len() {
        assert(texts(a@).len() != texts(b@).len());
        return false;
    }
    let mut i: usize = 0;
    while i < a.len()
        invariant
            i <= a@.len(),
            a@.len() == b@.len(),
            forall|k: int| 0 <= k < i ==> (#[trigger] a@[k])@ == b@[k]@,
        decreases a@.len() - i,
    {
        if !same_text(a[i].as_str(), b[i].as_str()) {
            assert(texts(a@)[i as int] != texts(b@)[i as int]);
            return false;
        }
        i += 1;
    }
    assert(texts(a@) =~= texts(b@));
    true
}

/// The text in quotes, with escapes, as `Debug` of std writes it.
pub uninterp spec fn quoted_text(text: Seq<char>) -> Seq<char>;

/// `Debug` of a text of std, through `format!`: the text in quotes, with escapes
/// for quotes, backslashes and what cannot be printed. Which characters those are
/// is left to std; the result is named as a function of the text alone.
#[verifier::external_body]
pub(crate) fn quoted(text: &str) -> (r: String)
    ensures
        r@ == quoted_text(text@),
{
    format!("{:?}", text)
}

} // verus!
