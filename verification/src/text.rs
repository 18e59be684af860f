//! Numbers as decimal text, and bytes as text.
use vstd::arithmetic::div_mod::{lemma_basic_div, lemma_div_denominator};
use vstd::arithmetic::power::{lemma_pow_positive, pow};
use vstd::prelude::*;
use vstd::utf8::{decode_utf8, valid_utf8};

verus! {

/// The character of a decimal digit.
pub open spec fn digit_char(d: nat) -> char {
    (48 + d) as char
}

/// The decimal digits of `n`, without leading zeros.
pub open spec fn decimal(n: nat) -> Seq<char>
    decreases n,
{
    if n < 10 {
        seq![digit_char(n)]
    } else {
        decimal(n / 10).push(digit_char(n % 10))
    }
}

/// The decimal digits of `n`, with a minus sign where `n` is negative.
pub open spec fn signed_decimal(n: int) -> Seq<char> {
    if n < 0 {
        seq!['-'] + decimal((-n) as nat)
    } else {
        decimal(n as nat)
    }
}

fn digit(d: u64) -> (s: &'static str)
    requires
        d < 10,
    ensures
        s@ == seq![digit_char(d as nat)],
{
    proof {
        reveal_strlit("0");
        reveal_strlit("1");
        reveal_strlit("2");
        reveal_strlit("3");
        reveal_strlit("4");
        reveal_strlit("5");
        reveal_strlit("6");
        reveal_strlit("7");
        reveal_strlit("8");
        reveal_strlit("9");
    }
    let s: &'static str = match d {
        0 => "0",
        1 => "1",
        2 => "2",
        3 => "3",
        4 => "4",
        5 => "5",
        6 => "6",
        7 => "7",
        8 => "8",
        _ => "9",
    };
    assert(s@ =~= seq![digit_char(d as nat)]);
    s
}

/// `n` in decimal.
pub fn decimal_string(n: u64) -> (s: String)
    ensures
        s@ == decimal(n as nat),
    decreases n,
{
    if n < 10 {
        digit(n).to_owned()
    } else {
        let mut s: String = decimal_string(n / 10);
        s.append(digit(n % 10));
        assert(s@ =~= decimal(n as nat));
        s
    }
}

/// `n` in decimal, with its sign.
pub fn signed_decimal_string(n: i32) -> (s: String)
    ensures
        s@ == signed_decimal(n as int),
{
    if n < 0 {
        let magnitude: u64 = (-(n as i64)) as u64;
        let mut s: String = "-".to_owned();
        s.append(decimal_string(magnitude).as_str());
        proof {
            reveal_strlit("-");
            assert(s@ =~= signed_decimal(n as int));
        }
        s
    } else {
        decimal_string(n as u64)
    }
}

/// `String::from_utf8`: the text that the bytes spell in UTF-8, or nothing
/// where they spell none.
#[verifier::external_body]
pub(crate) fn text_from_utf8(bytes: Vec<u8>) -> (text: Option<String>)
    ensures
        text is Some <==> valid_utf8(bytes@),
        text matches Some(s) ==> s@ == decode_utf8(bytes@),
{
    String::from_utf8(bytes).ok()
}

/// Whether `text` is the decimal numeral of `n`: digits only, each counting ten
/// times what the next one counts, and the first no zero unless it stands alone.
pub open spec fn is_numeral(text: Seq<char>, n: nat) -> bool {
    &&& text.len() > 0
    &&& n < pow(10, text.len())
    &&& text.len() > 1 ==> n >= pow(10, (text.len() - 1) as nat)
    &&& forall|i: int|
        0 <= i < text.len() ==> (#[trigger] text[i]) as int == 48 + (n as int / pow(
            10,
            (text.len() - 1 - i) as nat,
        )) % 10
}

/// The decimal digits of a number are its numeral.
pub proof fn law_decimal(n: nat)
    ensures
        is_numeral(decimal(n), n),
    decreases n,
{
    reveal(pow);
    let text = decimal(n);
    assert(pow(10, 0) == 1);
    assert(pow(10, 1) == 10 * pow(10, 0));
    if n >= 10 {
        law_decimal(n / 10);
        let front = decimal(n / 10);
        assert(pow(10, text.len()) == 10 * pow(10, front.len()));
        assert(pow(10, front.len()) == 10 * pow(10, (front.len() - 1) as nat));
        assert forall|i: int| 0 <= i < text.len() implies (#[trigger] text[i]) as int == 48 + (
        n as int / pow(10, (text.len() - 1 - i) as nat)) % 10 by {
            if i < front.len() {
                let rest = (front.len() - 1 - i) as nat;
                assert(text[i] == front[i]);
                lemma_pow_positive(10, rest);
                lemma_div_denominator(n as int, 10, pow(10, rest));
                assert(pow(10, (text.len() - 1 - i) as nat) == 10 * pow(10, rest));
            } else {
                assert(n as int / pow(10, 0) == n);
            }
        }
    } else {
        assert(text.len() == 1);
        assert(n as int / pow(10, 0) == n);
    }
}

/// A numeral stands for one number only.
pub proof fn law_numeral_is_unique(text: Seq<char>, a: nat, b: nat)
    requires
        is_numeral(text, a),
        is_numeral(text, b),
    ensures
        a == b,
{
    lemma_numeral_prefix(text, a, b, text.len() as int);
}

/// Two numbers with the same numeral agree on their first digits.
proof fn lemma_numeral_prefix(text: Seq<char>, a: nat, b: nat, k: int)
    requires
        is_numeral(text, a),
        is_numeral(text, b),
        0 <= k <= text.len(),
    ensures
        a as int / pow(10, (text.len() - k) as nat) == b as int / pow(10, (text.len() - k) as nat),
        k == text.len() ==> a == b,
    decreases k,
{
    reveal(pow);
    let width = (text.len() - k) as nat;
    lemma_pow_positive(10, width);
    if k == 0 {
        lemma_basic_div(a as int, pow(10, width));
        lemma_basic_div(b as int, pow(10, width));
    } else {
        lemma_numeral_prefix(text, a, b, k - 1);
        let p = pow(10, width);
        assert(pow(10, (width + 1) as nat) == 10 * p);
        lemma_div_denominator(a as int, p, 10);
        lemma_div_denominator(b as int, p, 10);
        assert(p * 10 == 10 * p);
        assert(text[k - 1] as int == 48 + (a as int / p) % 10);
        assert(text[k - 1] as int == 48 + (b as int / p) % 10);
        assert((text.len() - 1 - (k - 1)) as nat == width);
    }
    if k == text.len() {
        assert(pow(10, 0) == 1);
    }
}

/// A negative number is a minus sign and the numeral of its magnitude, any other
/// its numeral.
pub proof fn law_signed_decimal(n: int)
    ensures
        n >= 0 ==> is_numeral(signed_decimal(n), n as nat),
        n < 0 ==> signed_decimal(n)[0] == '-' && is_numeral(signed_decimal(n).skip(1), (-n) as nat),
{
    if n < 0 {
        law_decimal((-n) as nat);
        assert(signed_decimal(n).skip(1) =~= decimal((-n) as nat));
    } else {
        law_decimal(n as nat);
    }
}

} // verus!
