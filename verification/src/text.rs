//! Text helpers: the order in which identity keys are sorted, and small string builders.

use vstd::prelude::*;
use vstd::string::*;
use vstd::utf8::*;

verus! {

/// `a` and `b` agree on their first `i` bytes, and at position `i` either `a` has ended while
/// `b` goes on, or `a` holds the smaller byte.
pub open spec fn bytes_precede_at(a: Seq<u8>, b: Seq<u8>, i: int) -> bool {
    &&& 0 <= i <= a.len()
    &&& i < b.len()
    &&& forall|j: int| 0 <= j < i ==> a[j] == b[j]
    &&& (i == a.len() || a[i] < b[i])
}

/// Strict lexicographic order on byte strings.
pub open spec fn bytes_lt(a: Seq<u8>, b: Seq<u8>) -> bool {
    exists|i: int| bytes_precede_at(a, b, i)
}

/// Strict order on texts: the lexicographic order of their UTF-8 encodings. This is the order
/// in which identity keys are reported.
pub open spec fn text_lt(a: Seq<char>, b: Seq<char>) -> bool {
    bytes_lt(encode_utf8(a), encode_utf8(b))
}

/// How one text stands to another in the order `text_lt`.
#[derive(Clone, Copy, Debug, PartialEq, Eq, Structural)]
pub enum TextOrder {
    Before,
    Same,
    After,
}

/// No text comes before itself.
pub proof fn lemma_text_lt_irreflexive(a: Seq<char>)
    ensures
        !text_lt(a, a),
{
}

/// Of two texts at most one comes before the other.
pub proof fn lemma_text_lt_asymmetric(a: Seq<char>, b: Seq<char>)
    requires
        text_lt(a, b),
    ensures
        !text_lt(b, a),
{
    let x = encode_utf8(a);
    let y = encode_utf8(b);
    let i = choose|i: int| bytes_precede_at(x, y, i);
    if bytes_lt(y, x) {
        let j = choose|j: int| bytes_precede_at(y, x, j);
        if i < j {
            assert(y[i] == x[i]);
        } else if j < i {
            assert(x[j] == y[j]);
        }
    }
}

/// The order is transitive.
pub proof fn lemma_text_lt_transitive(a: Seq<char>, b: Seq<char>, c: Seq<char>)
    requires
        text_lt(a, b),
        text_lt(b, c),
    ensures
        text_lt(a, c),
{
    let x = encode_utf8(a);
    let y = encode_utf8(b);
    let z = encode_utf8(c);
    let i = choose|i: int| bytes_precede_at(x, y, i);
    let j = choose|j: int| bytes_precede_at(y, z, j);
    let k = if i <= j { i } else { j };
    assert forall|n: int| 0 <= n < k implies x[n] == z[n] by {
        assert(x[n] == y[n]);
        assert(y[n] == z[n]);
    }
    assert(bytes_precede_at(x, z, k));
}

/// Two texts with the same UTF-8 encoding are the same text.
pub proof fn lemma_same_bytes_same_text(a: Seq<char>, b: Seq<char>)
    requires
        encode_utf8(a) == encode_utf8(b),
    ensures
        a == b,
{
    encode_utf8_decode_utf8(a);
    encode_utf8_decode_utf8(b);
}

/// Compares two texts in the order `text_lt`.
pub fn text_order(a: &str, b: &str) -> (r: TextOrder)
    ensures
        r == TextOrder::Before <==> text_lt(a@, b@),
        r == TextOrder::Same <==> a@ == b@,
        r == TextOrder::After <==> text_lt(b@, a@),
{
    let x = a.as_bytes();
    let y = b.as_bytes();
    let n = x.len();
    let m = y.len();
    let mut i: usize = 0;
    while i < n && i < m && x[i] == y[i]
        invariant
            n == x@.len(),
            m == y@.len(),
            i <= n,
            i <= m,
            forall|j: int| 0 <= j < i ==> x@[j] == y@[j],
        decreases n - i,
    {
        i += 1;
    }
    proof {
        lemma_text_lt_irreflexive(a@);
        if text_lt(a@, b@) {
            lemma_text_lt_asymmetric(a@, b@);
        }
    }
    if i == n && i == m {
        proof {
            assert(x@ =~= y@);
            lemma_same_bytes_same_text(a@, b@);
        }
        TextOrder::Same
    } else if i == n {
        proof {
            assert(bytes_precede_at(x@, y@, i as int));
            assert(a@ != b@);
        }
        TextOrder::Before
    } else if i == m {
        proof {
            assert(bytes_precede_at(y@, x@, i as int));
            lemma_text_lt_asymmetric(b@, a@);
            assert(a@ != b@);
        }
        TextOrder::After
    } else if x[i] < y[i] {
        proof {
            assert(bytes_precede_at(x@, y@, i as int));
            assert(a@ != b@);
        }
        TextOrder::Before
    } else {
        proof {
            assert(bytes_precede_at(y@, x@, i as int));
            lemma_text_lt_asymmetric(b@, a@);
            assert(a@ != b@);
        }
        TextOrder::After
    }
}

/// The character that stands for the digit `d`.
pub open spec fn digit_char(d: int) -> char {
    if d == 0 {
        '0'
    } else if d == 1 {
        '1'
    } else if d == 2 {
        '2'
    } else if d == 3 {
        '3'
    } else if d == 4 {
        '4'
    } else if d == 5 {
        '5'
    } else if d == 6 {
        '6'
    } else if d == 7 {
        '7'
    } else if d == 8 {
        '8'
    } else {
        '9'
    }
}

/// The decimal digits of a natural number, without leading zeros.
pub open spec fn decimal_digits(n: nat) -> Seq<char>
    decreases n,
{
    if n < 10 {
        seq![digit_char(n as int)]
    } else {
        decimal_digits(n / 10).push(digit_char((n % 10) as int))
    }
}

/// An integer in decimal notation: a minus sign where it is negative, then its digits.
pub open spec fn decimal_text(n: int) -> Seq<char> {
    if n < 0 {
        seq!['-'] + decimal_digits((-n) as nat)
    } else {
        decimal_digits(n as nat)
    }
}

/// The text of one digit.
fn digit_text(d: u64) -> (text: &'static str)
    requires
        d < 10,
    ensures
        text@ == seq![digit_char(d as int)],
{
    proof {
        reveal_strlit("0");
        reveal_strlit("1");
        reveal_strlit("2");
        reveal_strlit("3");
        reveal_strlit("4");
        reveal_strlit("5");
        reveal_strlit("6");
        reveal_strlit("7");
        reveal_strlit("8");
        reveal_strlit("9");
    }
    let text = if d == 0 {
        "0"
    } else if d == 1 {
        "1"
    } else if d == 2 {
        "2"
    } else if d == 3 {
        "3"
    } else if d == 4 {
        "4"
    } else if d == 5 {
        "5"
    } else if d == 6 {
        "6"
    } else if d == 7 {
        "7"
    } else if d == 8 {
        "8"
    } else {
        "9"
    };
    assert(text@ =~= seq![digit_char(d as int)]);
    text
}

/// Writes a natural number in decimal notation.
fn digits_text(n: u64) -> (text: String)
    ensures
        text@ == decimal_digits(n as nat),
{
    let mut text = String::from_str(digit_text(n % 10));
    let mut rest: u64 = n / 10;
    while rest > 0
        invariant
            rest > 0 ==> decimal_digits(n as nat) == decimal_digits(rest as nat) + text@,
            rest == 0 ==> text@ == decimal_digits(n as nat),
        decreases rest,
    {
        let ghost before = text@;
        let ghost d = seq![digit_char((rest % 10) as int)];
        text = String::from_str(digit_text(rest % 10)).concat(text.as_str());
        proof {
            assert(text@ == d + before);
            if rest >= 10 {
                assert(decimal_digits(rest as nat) + before =~= decimal_digits((rest / 10) as nat)
                    + (d + before));
            } else {
                assert(decimal_digits(rest as nat) + before =~= d + before);
            }
        }
        rest = rest / 10;
    }
    text
}

/// Writes an integer in decimal notation.
pub fn number_text(n: i64) -> (text: String)
    ensures
        text@ == decimal_text(n as int),
{
    if n < 0 {
        proof {
            reveal_strlit("-");
        }
        let magnitude: u64 = (-(n as i128)) as u64;
        let digits = digits_text(magnitude);
        let text = String::from_str("-").concat(digits.as_str());
        assert(text@ =~= decimal_text(n as int));
        text
    } else {
        digits_text(n as u64)
    }
}

/// The texts of a sequence of strings.
pub open spec fn texts(strings: Seq<String>) -> Seq<Seq<char>> {
    strings.map_values(|s: String| s@)
}

} // verus!
