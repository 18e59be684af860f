//! Bytes and text as parts of a URL.
use percent_encoding::NON_ALPHANUMERIC;
use serde_urlencoded::ser::Error as FormFault;
use vstd::prelude::*;
use vstd::utf8::encode_utf8;

verus! {

/// Declares `serde_urlencoded::ser::Error`.
#[verifier::external_type_specification]
#[verifier::external_body]
pub struct ExUrlEncodeError(FormFault);

/// The upper case hexadecimal digit of `n`.
pub open spec fn hex_digit(n: int) -> char {
    if n < 10 {
        (48 + n) as char
    } else {
        (55 + n) as char
    }
}

/// A byte as a percent sign and two hexadecimal digits.
pub open spec fn percent_byte(b: u8) -> Seq<char> {
    seq!['%', hex_digit(b as int / 16), hex_digit(b as int % 16)]
}

/// Whether a byte is an ASCII letter or digit.
pub open spec fn is_alphanumeric(b: u8) -> bool {
    48 <= b <= 57 || 65 <= b <= 90 || 97 <= b <= 122
}

/// The ASCII letters and digits.
pub open spec fn alphanumeric() -> spec_fn(u8) -> bool {
    |b: u8| is_alphanumeric(b)
}

/// The bytes that stand for themselves anywhere in a URL: letters, digits,
/// and `-`, `.`, `_` and `~`.
pub open spec fn unreserved() -> spec_fn(u8) -> bool {
    |b: u8| is_alphanumeric(b) || b == 45 || b == 46 || b == 95 || b == 126
}

/// `bytes` with each byte that is not in `kept` as a percent sign and digits.
pub open spec fn percent_encoded(bytes: Seq<u8>, kept: spec_fn(u8) -> bool) -> Seq<char>
    decreases bytes.len(),
{
    if bytes.len() == 0 {
        Seq::empty()
    } else {
        percent_item(bytes[0], kept) + percent_encoded(bytes.drop_first(), kept)
    }
}

/// One byte of `percent_encoded`.
pub open spec fn percent_item(b: u8, kept: spec_fn(u8) -> bool) -> Seq<char> {
    if kept(b) {
        seq![b as char]
    } else {
        percent_byte(b)
    }
}

/// `percent_encoding::percent_encode` with the set `NON_ALPHANUMERIC`: every
/// byte but the ASCII letters and digits as a percent sign and two upper case
/// hexadecimal digits.
#[verifier::external_body]
pub(crate) fn encode_non_alphanumeric(bytes: &[u8]) -> (s: String)
    ensures
        s@ == percent_encoded(bytes@, alphanumeric()),
{
    percent_encoding::percent_encode(bytes, NON_ALPHANUMERIC).to_string()
}

/// Every byte of `bytes` but the unreserved ones as a percent sign and digits.
pub fn percent_encode(bytes: &[u8]) -> (s: String)
    ensures
        s@ == percent_encoded(bytes@, unreserved()),
{
    let mut s: String = String::new();
    let mut i: usize = 0;
    assert(bytes@.skip(0) =~= bytes@);
    assert(s@ + percent_encoded(bytes@, unreserved()) =~= percent_encoded(bytes@, unreserved()));
    while i < bytes.len()
        invariant
            i <= bytes@.len(),
            s@ + percent_encoded(bytes@.skip(i as int), unreserved()) == percent_encoded(
                bytes@,
                unreserved(),
            ),
        decreases bytes@.len() - i,
    {
        let ghost before = s@;
        let b: u8 = bytes[i];
        proof {
            reveal_strlit("-");
            reveal_strlit(".");
            reveal_strlit("_");
            reveal_strlit("~");
        }
        if b == 45 {
            s.append("-");
        } else if b == 46 {
            s.append(".");
        } else if b == 95 {
            s.append("_");
        } else if b == 126 {
            s.append("~");
        } else {
            let one: [u8; 1] = [b];
            s.append(encode_non_alphanumeric(one.as_slice()).as_str());
            proof {
                assert(one@ =~= seq![b]);
                assert(one@.drop_first() =~= Seq::<u8>::empty());
                reveal_with_fuel(percent_encoded, 2);
                assert(percent_encoded(one@, alphanumeric()) =~= percent_item(b, alphanumeric()));
            }
        }
        proof {
            assert(s@ =~= before + percent_item(b, unreserved()));
            assert(bytes@.skip(i as int).drop_first() =~= bytes@.skip(i + 1));
            assert(before + (percent_item(b, unreserved()) + percent_encoded(
                bytes@.skip(i + 1),
                unreserved(),
            )) =~= s@ + percent_encoded(bytes@.skip(i + 1), unreserved()));
        }
        i = i + 1;
    }
    assert(bytes@.skip(i as int) =~= Seq::empty());
    assert(s@ =~= s@ + percent_encoded(bytes@.skip(i as int), unreserved()));
    s
}

/// Different bytes are encoded differently.
pub proof fn law_percent_encoding_is_injective(a: Seq<u8>, b: Seq<u8>)
    requires
        percent_encoded(a, unreserved()) == percent_encoded(b, unreserved()),
    ensures
        a == b,
    decreases a.len(),
{
    let ea = percent_encoded(a, unreserved());
    let eb = percent_encoded(b, unreserved());
    if a.len() == 0 || b.len() == 0 {
        assert(ea.len() == 0);
        assert(a =~= b);
    } else {
        let ra = percent_encoded(a.drop_first(), unreserved());
        let rb = percent_encoded(b.drop_first(), unreserved());
        let ia = percent_item(a[0], unreserved());
        let ib = percent_item(b[0], unreserved());
        assert(ea == ia + ra && eb == ib + rb);
        assert(ea[0] == ia[0] && eb[0] == ib[0]);
        assert(unreserved()(a[0]) == unreserved()(b[0]));
        if !unreserved()(a[0]) {
            assert(ea[1] == ia[1] && eb[1] == ib[1]);
            assert(ea[2] == ia[2] && eb[2] == ib[2]);
        }
        assert(a[0] == b[0]);
        assert(ra =~= ea.skip(ia.len() as int));
        assert(rb =~= eb.skip(ib.len() as int));
        law_percent_encoding_is_injective(a.drop_first(), b.drop_first());
        assert(a =~= seq![a[0]] + a.drop_first());
        assert(b =~= seq![b[0]] + b.drop_first());
    }
}

/// One byte of form encoded text: a letter, a digit, or one of `*`, `-`, `.`
/// and `_` as it is, a space as a plus sign, any other byte with a percent sign.
pub open spec fn form_item(b: u8) -> Seq<char> {
    if is_alphanumeric(b) || b == 42 || b == 45 || b == 46 || b == 95 {
        seq![b as char]
    } else if b == 32 {
        seq!['+']
    } else {
        percent_byte(b)
    }
}

/// Bytes, form encoded.
pub open spec fn form_encoded(bytes: Seq<u8>) -> Seq<char>
    decreases bytes.len(),
{
    if bytes.len() == 0 {
        Seq::empty()
    } else {
        form_item(bytes[0]) + form_encoded(bytes.drop_first())
    }
}

/// Names with their values, form encoded, in order.
pub open spec fn form_pairs(pairs: Seq<(Seq<char>, Seq<char>)>) -> Seq<char>
    decreases pairs.len(),
{
    if pairs.len() == 0 {
        Seq::empty()
    } else {
        let before = form_pairs(pairs.drop_last());
        let pair = form_encoded(encode_utf8(pairs.last().0)) + seq!['='] + form_encoded(
            encode_utf8(pairs.last().1),
        );
        if pairs.len() == 1 {
            pair
        } else {
            before + seq!['&'] + pair
        }
    }
}

/// The text of names and values.
pub open spec fn pairs_view(pairs: Seq<(String, String)>) -> Seq<(Seq<char>, Seq<char>)> {
    pairs.map_values(|pair: (String, String)| (pair.0@, pair.1@))
}

/// `serde_urlencoded::to_string` on pairs of texts: each name and its value,
/// form encoded, with an equals sign between them, and ampersands between the
/// pairs. Text is always encoded.
#[verifier::external_body]
pub(crate) fn encode_pairs(pairs: &Vec<(String, String)>) -> (s: Result<String, FormFault>)
    ensures
        s is Ok,
        s->Ok_0@ == form_pairs(pairs_view(pairs@)),
{
    serde_urlencoded::to_string(pairs)
}

/// The hexadecimal digits in order.
pub open spec fn digits16() -> Seq<char> {
    seq!['0', '1', '2', '3', '4', '5', '6', '7', '8', '9', 'A', 'B', 'C', 'D', 'E', 'F']
}

/// A byte in a URL: an ASCII letter or digit or one of `-`, `.`, `_` and `~` as
/// itself, any other as a percent sign and two hexadecimal digits, the one that
/// counts sixteen first.
pub proof fn law_percent_byte(b: u8)
    ensures
        ({
            let c = b as char;
            let kept = ('0' <= c <= '9') || ('A' <= c <= 'Z') || ('a' <= c <= 'z') || c == '-' || c
                == '.' || c == '_' || c == '~';
            percent_encoded(seq![b], unreserved()) == if kept {
                seq![c]
            } else {
                seq!['%', digits16()[b as int / 16], digits16()[b as int % 16]]
            }
        }),
{
    reveal_with_fuel(percent_encoded, 2);
    assert(seq![b].drop_first() =~= Seq::<u8>::empty());
    assert(percent_encoded(seq![b], unreserved()) =~= percent_item(b, unreserved()));
    lemma_hex_digit(b as int / 16);
    lemma_hex_digit(b as int % 16);
}

proof fn lemma_hex_digit(n: int)
    requires
        0 <= n < 16,
    ensures
        hex_digit(n) == digits16()[n],
{
    assert(n == 0 || n == 1 || n == 2 || n == 3 || n == 4 || n == 5 || n == 6 || n == 7 || n == 8 || n
        == 9 || n == 10 || n == 11 || n == 12 || n == 13 || n == 14 || n == 15);
}

/// Bytes are encoded one by one, in their order.
pub proof fn law_percent_concat(a: Seq<u8>, b: Seq<u8>)
    ensures
        percent_encoded(a + b, unreserved()) == percent_encoded(a, unreserved()) + percent_encoded(
            b,
            unreserved(),
        ),
    decreases a.len(),
{
    if a.len() == 0 {
        assert(a + b =~= b);
        assert(percent_encoded(a, unreserved()) + percent_encoded(b, unreserved())
            =~= percent_encoded(b, unreserved()));
    } else {
        law_percent_concat(a.drop_first(), b);
        assert((a + b).drop_first() =~= a.drop_first() + b);
        assert((a + b)[0] == a[0]);
        assert(percent_encoded(a + b, unreserved()) =~= percent_encoded(a, unreserved())
            + percent_encoded(b, unreserved()));
    }
}

/// A byte in a form: an ASCII letter or digit or one of `*`, `-`, `.` and `_` as
/// itself, a space as a plus sign, any other as a percent sign and two digits.
pub proof fn law_form_byte(b: u8)
    ensures
        ({
            let c = b as char;
            let kept = ('0' <= c <= '9') || ('A' <= c <= 'Z') || ('a' <= c <= 'z') || c == '*' || c
                == '-' || c == '.' || c == '_';
            form_encoded(seq![b]) == if kept {
                seq![c]
            } else if c == ' ' {
                seq!['+']
            } else {
                seq!['%', digits16()[b as int / 16], digits16()[b as int % 16]]
            }
        }),
{
    reveal_with_fuel(form_encoded, 2);
    assert(seq![b].drop_first() =~= Seq::<u8>::empty());
    assert(form_encoded(seq![b]) =~= form_item(b));
    lemma_hex_digit(b as int / 16);
    lemma_hex_digit(b as int % 16);
}

/// Bytes of a form are encoded one by one, in their order.
pub proof fn law_form_concat(a: Seq<u8>, b: Seq<u8>)
    ensures
        form_encoded(a + b) == form_encoded(a) + form_encoded(b),
    decreases a.len(),
{
    if a.len() == 0 {
        assert(a + b =~= b);
        assert(form_encoded(a) + form_encoded(b) =~= form_encoded(b));
    } else {
        law_form_concat(a.drop_first(), b);
        assert((a + b).drop_first() =~= a.drop_first() + b);
        assert((a + b)[0] == a[0]);
        assert(form_encoded(a + b) =~= form_encoded(a) + form_encoded(b));
    }
}

/// A pair more in a form: an ampersand where others go before, the name, an
/// equals sign, and the value.
pub proof fn law_form_pair(pairs: Seq<(Seq<char>, Seq<char>)>, name: Seq<char>, value: Seq<char>)
    ensures
        form_pairs(Seq::empty()).len() == 0,
        form_pairs(pairs.push((name, value))) == (if pairs.len() == 0 {
            Seq::empty()
        } else {
            form_pairs(pairs).push('&')
        }) + form_encoded(encode_utf8(name)) + seq!['='] + form_encoded(encode_utf8(value)),
{
    let more = pairs.push((name, value));
    assert(more.drop_last() =~= pairs);
    assert(more.last() == (name, value));
    assert(form_pairs(more) =~= (if pairs.len() == 0 {
        Seq::empty()
    } else {
        form_pairs(pairs).push('&')
    }) + form_encoded(encode_utf8(name)) + seq!['='] + form_encoded(encode_utf8(value)));
}

/// The text of pairs is that of their parts, in their order.
pub proof fn law_pairs_view(pairs: Seq<(String, String)>)
    ensures
        pairs_view(pairs).len() == pairs.len(),
        forall|i: int|
            0 <= i < pairs.len() ==> (#[trigger] pairs_view(pairs)[i]).0 == pairs[i].0@ && pairs_view(
                pairs,
            )[i].1 == pairs[i].1@,
{
}

/// No ampersand and no equals sign stands in encoded bytes.
proof fn lemma_form_has_no_separator(bytes: Seq<u8>)
    ensures
        !form_encoded(bytes).contains('&'),
        !form_encoded(bytes).contains('='),
    decreases bytes.len(),
{
    if bytes.len() > 0 {
        lemma_form_has_no_separator(bytes.drop_first());
        let item = form_item(bytes[0]);
        let rest = form_encoded(bytes.drop_first());
        lemma_hex_digit(bytes[0] as int / 16);
        lemma_hex_digit(bytes[0] as int % 16);
        assert forall|i: int| 0 <= i < (item + rest).len() implies (item + rest)[i] != '&' && (item
            + rest)[i] != '=' by {
            if i >= item.len() {
                assert((item + rest)[i] == rest[i - item.len()]);
                assert(rest.contains(rest[i - item.len()]));
            }
        }
    }
}

/// No ampersand stands in encoded bytes.
pub proof fn lemma_percent_has_no_separator(bytes: Seq<u8>)
    ensures
        !percent_encoded(bytes, unreserved()).contains('&'),
    decreases bytes.len(),
{
    if bytes.len() > 0 {
        lemma_percent_has_no_separator(bytes.drop_first());
        let item = percent_item(bytes[0], unreserved());
        let rest = percent_encoded(bytes.drop_first(), unreserved());
        lemma_hex_digit(bytes[0] as int / 16);
        lemma_hex_digit(bytes[0] as int % 16);
        assert forall|i: int| 0 <= i < (item + rest).len() implies (item + rest)[i] != '&' by {
            if i >= item.len() {
                assert((item + rest)[i] == rest[i - item.len()]);
                assert(rest.contains(rest[i - item.len()]));
            }
        }
    }
}

/// Different bytes are form encoded differently.
pub proof fn law_form_encoding_is_injective(a: Seq<u8>, b: Seq<u8>)
    requires
        form_encoded(a) == form_encoded(b),
    ensures
        a == b,
    decreases a.len(),
{
    let ea = form_encoded(a);
    let eb = form_encoded(b);
    if a.len() == 0 || b.len() == 0 {
        assert(ea.len() == 0);
        assert(a =~= b);
    } else {
        let ra = form_encoded(a.drop_first());
        let rb = form_encoded(b.drop_first());
        let ia = form_item(a[0]);
        let ib = form_item(b[0]);
        assert(ea == ia + ra && eb == ib + rb);
        assert(ea[0] == ia[0] && eb[0] == ib[0]);
        assert(ia.len() == 3 <==> ia[0] == '%');
        assert(ib.len() == 3 <==> ib[0] == '%');
        if ia.len() == 3 {
            assert(ea[1] == ia[1] && eb[1] == ib[1]);
            assert(ea[2] == ia[2] && eb[2] == ib[2]);
        }
        assert(a[0] == b[0]);
        assert(ra =~= ea.skip(ia.len() as int));
        assert(rb =~= eb.skip(ib.len() as int));
        law_form_encoding_is_injective(a.drop_first(), b.drop_first());
        assert(a =~= seq![a[0]] + a.drop_first());
        assert(b =~= seq![b[0]] + b.drop_first());
    }
}

/// Texts are cut at a last separator in one way only.
proof fn lemma_last_separator<A>(a: Seq<A>, x: Seq<A>, b: Seq<A>, y: Seq<A>, c: A)
    requires
        a + seq![c] + x == b + seq![c] + y,
        !x.contains(c),
        !y.contains(c),
    ensures
        a == b,
        x == y,
{
    let s = a + seq![c] + x;
    let t = b + seq![c] + y;
    assert(s.len() == a.len() + 1 + x.len());
    assert(t.len() == b.len() + 1 + y.len());
    assert(s[a.len() as int] == c);
    assert(t[b.len() as int] == c);
    if a.len() < b.len() {
        assert(s[b.len() as int] == x[b.len() - a.len() - 1]);
        assert(x.contains(c));
    }
    if b.len() < a.len() {
        assert(t[a.len() as int] == y[a.len() - b.len() - 1]);
        assert(y.contains(c));
    }
    assert(a =~= s.take(a.len() as int));
    assert(b =~= t.take(b.len() as int));
    assert(x =~= s.skip(a.len() as int + 1));
    assert(y =~= t.skip(b.len() as int + 1));
}

/// Texts are cut at a first separator in one way only.
pub proof fn lemma_first_separator<A>(a: Seq<A>, x: Seq<A>, b: Seq<A>, y: Seq<A>, c: A)
    requires
        a + seq![c] + x == b + seq![c] + y,
        !a.contains(c),
        !b.contains(c),
    ensures
        a == b,
        x == y,
{
    let s = a + seq![c] + x;
    let t = b + seq![c] + y;
    assert(s.len() == a.len() + 1 + x.len());
    assert(t.len() == b.len() + 1 + y.len());
    assert(s[a.len() as int] == c);
    assert(t[b.len() as int] == c);
    if a.len() < b.len() {
        assert(t[a.len() as int] == b[a.len() as int]);
        assert(b.contains(c));
    }
    if b.len() < a.len() {
        assert(s[b.len() as int] == a[b.len() as int]);
        assert(a.contains(c));
    }
    assert(a =~= s.take(a.len() as int));
    assert(b =~= t.take(b.len() as int));
    assert(x =~= s.skip(a.len() as int + 1));
    assert(y =~= t.skip(b.len() as int + 1));
}

/// Different pairs give different forms.
pub proof fn law_form_pairs_are_injective(
    a: Seq<(Seq<char>, Seq<char>)>,
    b: Seq<(Seq<char>, Seq<char>)>,
)
    requires
        form_pairs(a) == form_pairs(b),
    ensures
        a == b,
    decreases a.len(),
{
    if a.len() == 0 || b.len() == 0 {
        if a.len() > 0 {
            lemma_form_pairs_end(a);
        }
        if b.len() > 0 {
            lemma_form_pairs_end(b);
        }
        assert(a =~= b);
    } else {
        lemma_form_pairs_end(a);
        lemma_form_pairs_end(b);
        let na = form_encoded(encode_utf8(a.last().0));
        let nb = form_encoded(encode_utf8(b.last().0));
        let va = form_encoded(encode_utf8(a.last().1));
        let vb = form_encoded(encode_utf8(b.last().1));
        lemma_form_has_no_separator(encode_utf8(a.last().0));
        lemma_form_has_no_separator(encode_utf8(b.last().0));
        lemma_form_has_no_separator(encode_utf8(a.last().1));
        lemma_form_has_no_separator(encode_utf8(b.last().1));
        let ha = form_head(a);
        let hb = form_head(b);
        lemma_last_separator(ha + na, va, hb + nb, vb, '=');
        if a.len() == 1 && b.len() > 1 {
            assert((hb + nb)[hb.len() - 1] == '&');
            assert(ha + na =~= na);
            assert(na.contains('&'));
        }
        if b.len() == 1 && a.len() > 1 {
            assert((ha + na)[ha.len() - 1] == '&');
            assert(hb + nb =~= nb);
            assert(nb.contains('&'));
        }
        if a.len() > 1 {
            let fa = form_pairs(a.drop_last());
            let fb = form_pairs(b.drop_last());
            assert(ha + na =~= fa + seq!['&'] + na);
            assert(hb + nb =~= fb + seq!['&'] + nb);
            lemma_last_separator(fa, na, fb, nb, '&');
            law_form_pairs_are_injective(a.drop_last(), b.drop_last());
        } else {
            assert(ha + na =~= na);
            assert(hb + nb =~= nb);
            assert(a.drop_last() =~= b.drop_last());
        }
        law_form_encoding_is_injective(encode_utf8(a.last().0), encode_utf8(b.last().0));
        law_form_encoding_is_injective(encode_utf8(a.last().1), encode_utf8(b.last().1));
        vstd::utf8::encode_utf8_decode_utf8(a.last().0);
        vstd::utf8::encode_utf8_decode_utf8(b.last().0);
        vstd::utf8::encode_utf8_decode_utf8(a.last().1);
        vstd::utf8::encode_utf8_decode_utf8(b.last().1);
        assert(a =~= a.drop_last().push(a.last()));
        assert(b =~= b.drop_last().push(b.last()));
    }
}

/// What goes before the last pair of a form.
spec fn form_head(pairs: Seq<(Seq<char>, Seq<char>)>) -> Seq<char> {
    if pairs.len() <= 1 {
        Seq::empty()
    } else {
        form_pairs(pairs.drop_last()) + seq!['&']
    }
}

proof fn lemma_form_pairs_end(pairs: Seq<(Seq<char>, Seq<char>)>)
    requires
        pairs.len() > 0,
    ensures
        form_pairs(pairs) == (form_head(pairs) + form_encoded(encode_utf8(pairs.last().0))) + seq!['=']
            + form_encoded(encode_utf8(pairs.last().1)),
        form_pairs(pairs).len() > 0,
{
    assert(form_pairs(pairs) =~= (form_head(pairs) + form_encoded(encode_utf8(pairs.last().0)))
        + seq!['='] + form_encoded(encode_utf8(pairs.last().1)));
}

} // verus!
