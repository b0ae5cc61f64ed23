//! Small string and digit helpers shared by the tokenizers and the formatter.

use vstd::prelude::*;

verus! {

/// True when `c` is an ASCII decimal digit.
pub open spec fn is_digit_char(c: char) -> bool {
    '0' <= c && c <= '9'
}

/// Numeric value of a single digit character.
pub open spec fn digit_val(c: char) -> nat {
    (c as int - '0' as int) as nat
}

/// True when every character of `s` is a decimal digit.
pub open spec fn all_digits(s: Seq<char>) -> bool {
    forall|i: int| 0 <= i < s.len() ==> is_digit_char(#[trigger] s[i])
}

/// Value of a digit string, most significant digit first.
pub open spec fn digits_val(s: Seq<char>) -> nat
    decreases s.len(),
{
    if s.len() == 0 {
        0
    } else {
        digits_val(s.drop_last()) * 10 + digit_val(s.last())
    }
}

/// The digit character for a value below ten.
pub open spec fn digit_char(d: nat) -> char {
    ((d + 48) as u8) as char
}

/// Decimal rendering of a natural number, without leading zeroes.
pub open spec fn spec_dec(n: nat) -> Seq<char>
    decreases n,
{
    if n < 10 {
        seq![digit_char(n)]
    } else {
        spec_dec(n / 10).push(digit_char(n % 10))
    }
}

/// Relies on `String::push` from std: appends the given character to the
/// end of the string.
#[verifier::external_body]
pub(crate) fn push_char(s: &mut String, c: char)
    ensures
        final(s)@ == old(s)@.push(c),
{
    s.push(c)
}

fn digit_to_char(d: u8) -> (c: char)
    requires
        d < 10,
    ensures
        c == digit_char(d as nat),
{
    (d + 48) as char
}

/// Renders `n` in decimal.
pub fn u16_to_string(n: u16) -> (s: String)
    ensures
        s@ == spec_dec(n as nat),
    decreases n,
{
    let d = digit_to_char((n % 10) as u8);
    if n < 10 {
        let mut s = String::new();
        push_char(&mut s, d);
        assert(s@ =~= spec_dec(n as nat));
        s
    } else {
        let mut s = u16_to_string(n / 10);
        push_char(&mut s, d);
        s
    }
}

/// Decimal round trip: the rendering of `n` consists of digits alone, is
/// never empty, parses back to `n` itself, and starts with a zero only for
/// zero itself.
pub proof fn lemma_dec_round_trip(n: nat)
    ensures
        all_digits(spec_dec(n)),
        spec_dec(n).len() >= 1,
        digits_val(spec_dec(n)) == n,
        n > 0 ==> spec_dec(n)[0] != '0',
    decreases n,
{
    if n < 10 {
        assert(is_digit_char(digit_char(n)));
        assert(digit_val(digit_char(n)) == n);
        assert(spec_dec(n).drop_last() =~= Seq::<char>::empty());
        assert(digits_val(spec_dec(n)) == digits_val(Seq::<char>::empty()) * 10 + digit_val(
            digit_char(n),
        ));
    } else {
        lemma_dec_round_trip(n / 10);
        let d = spec_dec(n / 10);
        assert(spec_dec(n) == d.push(digit_char((n % 10) as nat)));
        assert(spec_dec(n).drop_last() =~= d);
        assert(is_digit_char(digit_char((n % 10) as nat)));
        assert(digit_val(digit_char((n % 10) as nat)) == n % 10);
        assert forall|i: int| 0 <= i < spec_dec(n).len() implies is_digit_char(
            #[trigger] spec_dec(n)[i],
        ) by {
            if i < d.len() {
                assert(spec_dec(n)[i] == d[i]);
            }
        }
        assert(digits_val(spec_dec(n)) == digits_val(d) * 10 + digit_val(
            digit_char((n % 10) as nat),
        ));
        assert(n / 10 * 10 + n % 10 == n);
        assert(spec_dec(n)[0] == d[0]);
    }
}

/// True exactly when two string slices hold the same characters.
pub fn str_eq(a: &str, b: &str) -> (r: bool)
    ensures
        r == (a@ == b@),
{
    let sa = a.to_owned();
    let sb = b.to_owned();
    sa == sb
}

} // verus!
