use vstd::prelude::*;
use vstd::string::{StrSliceExecFns, StringExecFns};
use vstd::utf8::{encode_utf8, encode_utf8_decode_utf8};

verus! {

/// Whether two strings hold the same characters.
pub fn str_eq(a: &str, b: &str) -> (r: bool)
    ensures
        r == (a@ == b@),
{
    let x = a.as_bytes();
    let y = b.as_bytes();
    proof {
        encode_utf8_decode_utf8(a@);
        encode_utf8_decode_utf8(b@);
    }
    if x.len() != y.len() {
        return false;
    }
    let mut i: usize = 0;
    while i < x.len()
        invariant
            i <= x.len(),
            x.len() == y.len(),
            x@ == encode_utf8(a@),
            y@ == encode_utf8(b@),
            forall|j: int| 0 <= j < i ==> x@[j] == y@[j],
        decreases x.len() - i,
    {
        if x[i] != y[i] {
            return false;
        }
        i += 1;
    }
    assert(x@ =~= y@);
    true
}

} // verus!

verus! {

/// The value of a decimal digit.
pub open spec fn digit_value(c: char) -> int {
    c as int - '0' as int
}

/// Whether every character of `s` is a decimal digit.
pub open spec fn all_digits(s: Seq<char>) -> bool {
    forall|i: int| 0 <= i < s.len() ==> '0' <= #[trigger] s[i] <= '9'
}

/// The number that a sequence of decimal digits spells, most significant
/// digit first; 0 for no digits.
pub open spec fn decimal_value(s: Seq<char>) -> int
    decreases s.len(),
{
    if s.len() == 0 {
        0
    } else {
        decimal_value(s.drop_last()) * 10 + digit_value(s.last())
    }
}

/// The 64-bit integer that `s` spells: `s` is one or more decimal digits and
/// their value is at most `i64::MAX`.
pub open spec fn integer_value(s: Seq<char>) -> Option<i64> {
    if s.len() > 0 && all_digits(s) && decimal_value(s) <= i64::MAX {
        Some(decimal_value(s) as i64)
    } else {
        None
    }
}

} // verus!

verus! {

/// The value of a sequence of digits is no less than that of any of its
/// prefixes.
pub proof fn lemma_decimal_value_grows(s: Seq<char>, k: int)
    requires
        all_digits(s),
        0 <= k <= s.len(),
    ensures
        0 <= decimal_value(s.take(k)) <= decimal_value(s),
    decreases s.len() - k,
{
    lemma_decimal_value_nonnegative(s.take(k));
    if k < s.len() {
        lemma_decimal_value_grows(s, k + 1);
        assert(s.take(k + 1).drop_last() =~= s.take(k));
        assert(s.take(k + 1).last() == s[k]);
    } else {
        assert(s.take(k) =~= s);
    }
}

/// The value of a sequence of digits is not negative.
pub proof fn lemma_decimal_value_nonnegative(s: Seq<char>)
    requires
        all_digits(s),
    ensures
        0 <= decimal_value(s),
    decreases s.len(),
{
    if s.len() > 0 {
        lemma_decimal_value_nonnegative(s.drop_last());
    }
}

/// The 64-bit integer that a string of decimal digits spells, if it spells
/// one.
pub fn parse_integer(s: &str) -> (r: Option<i64>)
    ensures
        r == integer_value(s@),
{
    if !s.is_ascii() {
        assert(!all_digits(s@)) by {
            if all_digits(s@) {
                assert forall|i: int| 0 <= i < s@.len() implies (s@[i] as nat) < 128 by {
                    assert('0' <= s@[i] <= '9');
                }
            }
        }
        return None;
    }
    let n = s.unicode_len();
    if n == 0 {
        return None;
    }
    let mut value: i64 = 0;
    let mut i: usize = 0;
    while i < n
        invariant
            s.is_ascii(),
            n == s@.len(),
            i <= n,
            all_digits(s@.take(i as int)),
            value == decimal_value(s@.take(i as int)),
            0 <= value,
        decreases n - i,
    {
        let b = s.get_ascii(i);
        if b < 48 || b > 57 {
            assert(!('0' <= s@[i as int] <= '9'));
            return None;
        }
        let d: i64 = (b - 48) as i64;
        proof {
            assert(s@.take(i + 1).drop_last() =~= s@.take(i as int));
            assert(s@.take(i + 1).last() == s@[i as int]);
            assert(digit_value(s@[i as int]) == d);
            assert(all_digits(s@.take(i + 1)));
        }
        let next = match value.checked_mul(10) {
            Some(v) => v.checked_add(d),
            None => None,
        };
        match next {
            Some(v) => {
                value = v;
            },
            None => {
                proof {
                    assert(decimal_value(s@.take(i + 1)) > i64::MAX);
                    if all_digits(s@) {
                        lemma_decimal_value_grows(s@, i + 1);
                    }
                }
                return None;
            },
        }
        i += 1;
    }
    proof {
        assert(s@.take(n as int) =~= s@);
    }
    Some(value)
}

} // verus!

verus! {

/// Whether `a` comes before `b` in lexicographic order: at the first place
/// where they differ `a` has the lesser item, or `a` ends first.
pub open spec fn precedes(a: Seq<u8>, b: Seq<u8>) -> bool
    decreases a.len(),
{
    if b.len() == 0 {
        false
    } else if a.len() == 0 {
        true
    } else if a[0] != b[0] {
        a[0] < b[0]
    } else {
        precedes(a.skip(1), b.skip(1))
    }
}

/// Whether `a` comes before `b` in the order of their UTF-8 encodings.
pub fn str_lt(a: &str, b: &str) -> (r: bool)
    ensures
        r == precedes(encode_utf8(a@), encode_utf8(b@)),
{
    let x = a.as_bytes();
    let y = b.as_bytes();
    let mut i: usize = 0;
    proof {
        assert(x@.skip(0) =~= x@);
        assert(y@.skip(0) =~= y@);
    }
    while i < x.len() && i < y.len()
        invariant
            i <= x.len(),
            i <= y.len(),
            x@ == encode_utf8(a@),
            y@ == encode_utf8(b@),
            precedes(x@, y@) == precedes(x@.skip(i as int), y@.skip(i as int)),
        decreases x.len() - i,
    {
        proof {
            assert(x@.skip(i as int).skip(1) =~= x@.skip(i + 1));
            assert(y@.skip(i as int).skip(1) =~= y@.skip(i + 1));
        }
        if x[i] != y[i] {
            return x[i] < y[i];
        }
        i += 1;
    }
    i < y.len()
}

} // verus!

verus! {

/// The character for a decimal digit.
pub open spec fn digit_char(d: int) -> char {
    if d == 0 {
        '0'
    } else if d == 1 {
        '1'
    } else if d == 2 {
        '2'
    } else if d == 3 {
        '3'
    } else if d == 4 {
        '4'
    } else if d == 5 {
        '5'
    } else if d == 6 {
        '6'
    } else if d == 7 {
        '7'
    } else if d == 8 {
        '8'
    } else {
        '9'
    }
}

/// The decimal digits of a natural number, most significant first, without
/// leading zeros.
pub open spec fn digits(n: nat) -> Seq<char>
    decreases n,
{
    if n < 10 {
        seq![digit_char(n as int)]
    } else {
        digits(n / 10).push(digit_char((n % 10) as int))
    }
}

/// An integer in decimal notation, with a minus sign where it is negative.
pub open spec fn decimal(i: int) -> Seq<char> {
    if i < 0 {
        seq!['-'] + digits((-i) as nat)
    } else {
        digits(i as nat)
    }
}

/// The one-character string for a decimal digit.
fn digit_str(d: u64) -> (s: &'static str)
    requires
        d < 10,
    ensures
        s@ == seq![digit_char(d as int)],
{
    proof {
        reveal_strlit("0");
        reveal_strlit("1");
        reveal_strlit("2");
        reveal_strlit("3");
        reveal_strlit("4");
        reveal_strlit("5");
        reveal_strlit("6");
        reveal_strlit("7");
        reveal_strlit("8");
        reveal_strlit("9");
    }
    let s = if d == 0 {
        "0"
    } else if d == 1 {
        "1"
    } else if d == 2 {
        "2"
    } else if d == 3 {
        "3"
    } else if d == 4 {
        "4"
    } else if d == 5 {
        "5"
    } else if d == 6 {
        "6"
    } else if d == 7 {
        "7"
    } else if d == 8 {
        "8"
    } else {
        "9"
    };
    assert(s@ =~= seq![digit_char(d as int)]);
    s
}

/// A natural number in decimal notation.
pub fn natural_to_string(n: u64) -> (s: String)
    ensures
        s@ == digits(n as nat),
    decreases n,
{
    if n < 10 {
        digit_str(n).to_owned()
    } else {
        let mut s = natural_to_string(n / 10);
        s.append(digit_str(n % 10));
        assert(s@ =~= digits(n as nat));
        s
    }
}

/// An integer in decimal notation.
pub fn integer_to_string(i: i64) -> (s: String)
    ensures
        s@ == decimal(i as int),
{
    if i < 0 {
        let magnitude: u64 = (-(i as i128)) as u64;
        proof {
            reveal_strlit("-");
        }
        let mut s = "-".to_owned();
        s.append(natural_to_string(magnitude).as_str());
        assert(s@ =~= decimal(i as int));
        s
    } else {
        natural_to_string(i as u64)
    }
}

/// A text with two spaces after each of its line breaks.
pub open spec fn indent(s: Seq<char>) -> Seq<char>
    decreases s.len(),
{
    if s.len() == 0 {
        s
    } else if s.last() == '\n' {
        indent(s.drop_last()) + seq!['\n', ' ', ' ']
    } else {
        indent(s.drop_last()).push(s.last())
    }
}

/// Puts two spaces after each line break of a text.
pub fn indented(s: &str) -> (r: String)
    ensures
        r@ == indent(s@),
{
    let n = s.unicode_len();
    let mut out = String::new();
    let mut i: usize = 0;
    proof {
        assert(s@.take(0) =~= Seq::empty());
    }
    while i < n
        invariant
            n == s@.len(),
            i <= n,
            out@ == indent(s@.take(i as int)),
        decreases n - i,
    {
        proof {
            assert(s@.take(i + 1).drop_last() =~= s@.take(i as int));
            assert(s@.take(i + 1).last() == s@[i as int]);
        }
        if s.get_char(i) == '\n' {
            out.append("\n  ");
            proof {
                reveal_strlit("\n  ");
            }
            assert("\n  "@ =~= seq!['\n', ' ', ' ']);
            assert(out@ =~= indent(s@.take(i + 1)));
        } else {
            out.append(s.substring_char(i, i + 1));
            assert(s@.subrange(i as int, i + 1) =~= seq![s@[i as int]]);
            assert(out@ =~= indent(s@.take(i + 1)));
        }
        i += 1;
    }
    assert(s@.take(n as int) =~= s@);
    out
}

/// A text without its last `n` characters, or without any where it has
/// fewer.
pub open spec fn without_last(s: Seq<char>, n: nat) -> Seq<char> {
    if n <= s.len() {
        s.take(s.len() - n)
    } else {
        Seq::empty()
    }
}

/// A copy of a text without its last `n` characters.
pub fn chopped(s: &str, n: usize) -> (r: String)
    ensures
        r@ == without_last(s@, n as nat),
{
    let len = s.unicode_len();
    if n <= len {
        s.substring_char(0, len - n).to_owned()
    } else {
        String::new()
    }
}

} // verus!

verus! {

/// The decimal digits of a number are digits, and spell the number.
pub proof fn lemma_digits_spell(n: nat)
    ensures
        digits(n).len() > 0,
        all_digits(digits(n)),
        decimal_value(digits(n)) == n,
    decreases n,
{
    if n < 10 {
        let s = digits(n);
        assert(s.drop_last() =~= Seq::<char>::empty());
        assert(decimal_value(s.drop_last()) == 0);
        assert(s.last() == digit_char(n as int));
    } else {
        lemma_digits_spell(n / 10);
        let s = digits(n);
        assert(s.drop_last() =~= digits(n / 10));
        assert(s.last() == digit_char((n % 10) as int));
        assert forall|i: int| 0 <= i < s.len() implies '0' <= #[trigger] s[i] <= '9' by {
            if i < s.len() - 1 {
                assert(s[i] == digits(n / 10)[i]);
            }
        }
    }
}

} // verus!

verus! {

/// A text indented `k` times over.
pub open spec fn shift(s: Seq<char>, k: nat) -> Seq<char>
    decreases k,
{
    if k == 0 {
        s
    } else {
        indent(shift(s, (k - 1) as nat))
    }
}

/// Whether a text holds no line break.
pub open spec fn one_line(s: Seq<char>) -> bool {
    forall|i: int| 0 <= i < s.len() ==> #[trigger] s[i] != '\n'
}

/// Indenting a text indents its parts.
pub proof fn lemma_indent_concat(a: Seq<char>, b: Seq<char>)
    ensures
        indent(a + b) == indent(a) + indent(b),
    decreases b.len(),
{
    if b.len() == 0 {
        assert(a + b =~= a);
        assert(indent(a) + indent(b) =~= indent(a));
    } else {
        assert((a + b).drop_last() =~= a + b.drop_last());
        assert((a + b).last() == b.last());
        lemma_indent_concat(a, b.drop_last());
        if b.last() == '\n' {
            assert(indent(a + b) =~= indent(a) + indent(b));
        } else {
            assert(indent(a + b) =~= indent(a) + indent(b));
        }
    }
}

/// Indenting a text over and over indents its parts.
pub proof fn lemma_shift_concat(a: Seq<char>, b: Seq<char>, k: nat)
    ensures
        shift(a + b, k) == shift(a, k) + shift(b, k),
    decreases k,
{
    if k > 0 {
        lemma_shift_concat(a, b, (k - 1) as nat);
        lemma_indent_concat(shift(a, (k - 1) as nat), shift(b, (k - 1) as nat));
    }
}

/// A text without line breaks stays as it is when it is indented.
pub proof fn lemma_indent_one_line(s: Seq<char>)
    requires
        one_line(s),
    ensures
        indent(s) == s,
    decreases s.len(),
{
    if s.len() > 0 {
        assert(s.last() == s[s.len() - 1]);
        assert(one_line(s.drop_last())) by {
            assert forall|i: int| 0 <= i < s.drop_last().len() implies #[trigger] s.drop_last()[i]
                != '\n' by {
                assert(s.drop_last()[i] == s[i]);
            }
        }
        lemma_indent_one_line(s.drop_last());
        assert(s.drop_last().push(s.last()) =~= s);
    }
}

/// A text without line breaks stays as it is however often it is indented.
pub proof fn lemma_shift_one_line(s: Seq<char>, k: nat)
    requires
        one_line(s),
    ensures
        shift(s, k) == s,
    decreases k,
{
    if k > 0 {
        lemma_shift_one_line(s, (k - 1) as nat);
        lemma_indent_one_line(s);
    }
}

/// Indenting an indented text `k` times is indenting the text once more.
pub proof fn lemma_shift_indent(s: Seq<char>, k: nat)
    ensures
        shift(indent(s), k) == shift(s, k + 1),
    decreases k,
{
    if k > 0 {
        lemma_shift_indent(s, (k - 1) as nat);
        assert(shift(indent(s), k) == indent(shift(indent(s), (k - 1) as nat)));
        assert(shift(s, k + 1) == indent(shift(s, k)));
    } else {
        assert(shift(s, 1) == indent(shift(s, 0)));
    }
}

/// Indenting keeps the first character of a text.
pub proof fn lemma_shift_first(s: Seq<char>, k: nat)
    requires
        s.len() > 0,
    ensures
        shift(s, k).len() > 0,
        shift(s, k)[0] == s[0],
    decreases k,
{
    if k > 0 {
        lemma_shift_first(s, (k - 1) as nat);
        lemma_indent_first(shift(s, (k - 1) as nat));
    }
}

/// Indenting once keeps the first character of a text.
pub proof fn lemma_indent_first(s: Seq<char>)
    requires
        s.len() > 0,
    ensures
        indent(s).len() > 0,
        indent(s)[0] == s[0],
    decreases s.len(),
{
    let front = indent(s.drop_last());
    if s.len() > 1 {
        lemma_indent_first(s.drop_last());
        assert(s.drop_last()[0] == s[0]);
        if s.last() == '\n' {
            assert((front + seq!['\n', ' ', ' '])[0] == front[0]);
        } else {
            assert(front.push(s.last())[0] == front[0]);
        }
    } else {
        assert(s.drop_last() =~= Seq::<char>::empty());
        assert(front.len() == 0);
        assert(s.last() == s[0]);
        if s.last() == '\n' {
            assert((front + seq!['\n', ' ', ' '])[0] == '\n');
        } else {
            assert(front.push(s.last())[0] == s.last());
        }
    }
}

} // verus!
