//! Text helpers: decimal numerals, lexicographic order and character access.

use vstd::prelude::*;

verus! {

broadcast use vstd::string::group_string_axioms;

/// `String::push` of the standard library: the text gains the character at
/// its end and is otherwise unchanged.
pub assume_specification[ String::push ](s: &mut String, c: char)
    ensures
        final(s)@ == old(s)@.push(c),
;

/// The character that stands for a decimal digit.
pub open spec fn digit(d: nat) -> char {
    if d == 0 {
        '0'
    } else if d == 1 {
        '1'
    } else if d == 2 {
        '2'
    } else if d == 3 {
        '3'
    } else if d == 4 {
        '4'
    } else if d == 5 {
        '5'
    } else if d == 6 {
        '6'
    } else if d == 7 {
        '7'
    } else if d == 8 {
        '8'
    } else {
        '9'
    }
}

/// The decimal numeral of a number, without leading zeros.
pub open spec fn decimal(n: nat) -> Seq<char>
    decreases n,
{
    if n < 10 {
        seq![digit(n)]
    } else {
        decimal(n / 10).push(digit(n % 10))
    }
}

/// The decimal numeral of a number that may be negative.
pub open spec fn signed_decimal(n: int) -> Seq<char> {
    if n < 0 {
        seq!['-'] + decimal((-n) as nat)
    } else {
        decimal(n as nat)
    }
}

fn digit_char(d: u64) -> (c: char)
    requires
        d < 10,
    ensures
        c == digit(d as nat),
{
    match d {
        0 => '0',
        1 => '1',
        2 => '2',
        3 => '3',
        4 => '4',
        5 => '5',
        6 => '6',
        7 => '7',
        8 => '8',
        _ => '9',
    }
}

/// Appends the decimal numeral of `n`.
pub fn push_decimal(out: &mut String, n: u64)
    ensures
        final(out)@ == old(out)@ + decimal(n as nat),
    decreases n,
{
    if n < 10 {
        out.push(digit_char(n));
    } else {
        push_decimal(out, n / 10);
        out.push(digit_char(n % 10));
    }
    assert(out@ =~= old(out)@ + decimal(n as nat));
}

/// Appends the decimal numeral of `n`, with a sign where it is negative.
pub fn push_signed(out: &mut String, n: i64)
    ensures
        final(out)@ == old(out)@ + signed_decimal(n as int),
{
    if n == i64::MIN {
        out.push('-');
        push_decimal(out, 9223372036854775808);
    } else if n < 0 {
        out.push('-');
        push_decimal(out, (-n) as u64);
    } else {
        push_decimal(out, n as u64);
    }
    assert(out@ =~= old(out)@ + signed_decimal(n as int));
}

/// Strict lexicographic order of two texts by code point.
pub open spec fn lex_lt(a: Seq<char>, b: Seq<char>) -> bool
    decreases a.len(),
{
    if b.len() == 0 {
        false
    } else if a.len() == 0 {
        true
    } else if a[0] != b[0] {
        (a[0] as int) < (b[0] as int)
    } else {
        lex_lt(a.drop_first(), b.drop_first())
    }
}

/// No text precedes itself.
pub proof fn lemma_lex_irreflexive(a: Seq<char>)
    ensures
        !lex_lt(a, a),
    decreases a.len(),
{
    if a.len() > 0 {
        lemma_lex_irreflexive(a.drop_first());
    }
}

/// The lexicographic order is transitive.
pub proof fn lemma_lex_transitive(a: Seq<char>, b: Seq<char>, c: Seq<char>)
    requires
        lex_lt(a, b),
        lex_lt(b, c),
    ensures
        lex_lt(a, c),
    decreases a.len(),
{
    if a.len() > 0 && a[0] == b[0] && b[0] == c[0] {
        lemma_lex_transitive(a.drop_first(), b.drop_first(), c.drop_first());
    }
}

/// Of two different texts one precedes the other.
pub proof fn lemma_lex_total(a: Seq<char>, b: Seq<char>)
    ensures
        a == b || lex_lt(a, b) || lex_lt(b, a),
    decreases a.len(),
{
    if a.len() == 0 {
        if b.len() == 0 {
            assert(a =~= b);
        }
    } else if b.len() > 0 && a[0] == b[0] {
        lemma_lex_total(a.drop_first(), b.drop_first());
        if a.drop_first() == b.drop_first() {
            assert(a =~= seq![a[0]] + a.drop_first());
            assert(b =~= seq![b[0]] + b.drop_first());
            assert(a == b);
        }
    }
}

/// Whether `a` precedes `b` in lexicographic order.
pub fn str_lt(a: &str, b: &str) -> (r: bool)
    ensures
        r == lex_lt(a@, b@),
{
    let mut left = a.chars();
    let mut right = b.chars();
    loop
        invariant
            lex_lt(a@, b@) == lex_lt(vstd::std_specs::iter::IteratorSpec::remaining(&left), vstd::std_specs::iter::IteratorSpec::remaining(&right)),
            vstd::std_specs::iter::IteratorSpec::obeys_prophetic_iter_laws(&left),
            vstd::std_specs::iter::IteratorSpec::decrease(&left) is Some,
            vstd::std_specs::iter::IteratorSpec::obeys_prophetic_iter_laws(&right),
            vstd::std_specs::iter::IteratorSpec::decrease(&right) is Some,
        decreases vstd::std_specs::iter::IteratorSpec::decrease(&left)->0,
    {
        let l = left.next();
        let r = right.next();
        match r {
            None => {
                return false;
            },
            Some(d) => match l {
                None => {
                    return true;
                },
                Some(c) => {
                    if c != d {
                        proof {
                            vstd::utf8::char_u32_cast(c, c as u32);
                            vstd::utf8::char_u32_cast(d, d as u32);
                        }
                        return (c as u32) < (d as u32);
                    }
                },
            },
        }
    }
}

/// Whether two texts are equal.
pub fn str_eq(a: &str, b: &str) -> (r: bool)
    ensures
        r == (a@ == b@),
{
    proof {
        lemma_lex_total(a@, b@);
        lemma_lex_irreflexive(a@);
    }
    !str_lt(a, b) && !str_lt(b, a)
}

/// The characters of a text, in order.
pub fn chars_of(text: &str) -> (r: Vec<char>)
    ensures
        r@ == text@,
{
    let mut out: Vec<char> = Vec::new();
    let mut rest = text.chars();
    loop
        invariant
            out@ + vstd::std_specs::iter::IteratorSpec::remaining(&rest) == text@,
            vstd::std_specs::iter::IteratorSpec::obeys_prophetic_iter_laws(&rest),
            vstd::std_specs::iter::IteratorSpec::decrease(&rest) is Some,
        decreases vstd::std_specs::iter::IteratorSpec::decrease(&rest)->0,
    {
        match rest.next() {
            None => {
                assert(out@ =~= text@);
                return out;
            },
            Some(c) => {
                out.push(c);
            },
        }
    }
}

/// The text of the characters from `from` up to `to`.
pub fn text_between(chars: &Vec<char>, from: usize, to: usize) -> (r: String)
    requires
        from <= to <= chars@.len(),
    ensures
        r@ == chars@.subrange(from as int, to as int),
{
    let mut out = String::new();
    let mut i: usize = from;
    while i < to
        invariant
            from <= i <= to <= chars@.len(),
            out@ == chars@.subrange(from as int, i as int),
        decreases to - i,
    {
        out.push(chars[i]);
        i += 1;
        assert(out@ =~= chars@.subrange(from as int, i as int));
    }
    out
}

/// An owned copy of a text followed by another.
pub fn joined(a: &str, b: &str) -> (r: String)
    ensures
        r@ == a@ + b@,
{
    let mut out = String::new();
    out.append(a);
    out.append(b);
    assert(out@ =~= a@ + b@);
    out
}

/// The number that a row of decimal digits stands for.
pub open spec fn digits_value(text: Seq<char>) -> int
    decreases text.len(),
{
    if text.len() == 0 {
        0
    } else {
        10 * digits_value(text.drop_last()) + (text.last() as int - '0' as int)
    }
}

/// Whether a text is the numeral of a number as it is usually written: digits
/// that stand for the number, without zeros in front.
pub open spec fn is_numeral(text: Seq<char>, n: int) -> bool {
    &&& text.len() > 0
    &&& forall|k: int| 0 <= k < text.len() ==> '0' as int <= #[trigger] text[k] as int <= '9' as int
    &&& digits_value(text) == n
    &&& text.len() > 1 ==> text[0] != '0'
}

pub(crate) proof fn lemma_decimal(n: nat)
    ensures
        is_numeral(decimal(n), n as int),
        n > 0 ==> decimal(n)[0] != '0',
    decreases n,
{
    reveal_with_fuel(digits_value, 2);
    if n < 10 {
        assert(decimal(n).drop_last() =~= Seq::<char>::empty());
    } else {
        lemma_decimal(n / 10);
        let front = decimal(n / 10);
        let all = decimal(n);
        assert(all.drop_last() =~= front);
        assert(all.last() as int - '0' as int == n % 10);
        assert forall|k: int| 0 <= k < all.len() implies '0' as int <= #[trigger] all[k] as int
            <= '9' as int by {
            if k < front.len() {
                assert(all[k] == front[k]);
            }
        }
        assert(all[0] == front[0]);
    }
}

/// The numeral that is appended stands for the number, and what was there before
/// stays in front of it.
pub proof fn law_numeral_appended(out: &mut String, n: u64)
    requires
        call_ensures(push_decimal, (out, n), ()),
    ensures
        final(out)@.len() > old(out)@.len(),
        final(out)@.take(old(out)@.len() as int) == old(out)@,
        is_numeral(final(out)@.skip(old(out)@.len() as int), n as int),
        is_numeral(decimal(n as nat), n as int),
{
    lemma_decimal(n as nat);
    let before = old(out)@;
    assert(final(out)@.take(before.len() as int) =~= before);
    assert(final(out)@.skip(before.len() as int) =~= decimal(n as nat));
}

/// Different numbers have different numerals.
pub proof fn law_numerals_differ(a: nat, b: nat)
    requires
        a != b,
    ensures
        decimal(a) != decimal(b),
        is_numeral(decimal(a), a as int),
        is_numeral(decimal(b), b as int),
{
    lemma_decimal(a);
    lemma_decimal(b);
}

/// A negative number is written as a minus sign and the numeral of its opposite,
/// every other one as its numeral.
pub proof fn law_signed_numeral_appended(out: &mut String, n: i64)
    requires
        call_ensures(push_signed, (out, n), ()),
    ensures
        final(out)@.take(old(out)@.len() as int) == old(out)@,
        is_signed_numeral(final(out)@.skip(old(out)@.len() as int), n as int),
{
    let before = old(out)@;
    assert(final(out)@.take(before.len() as int) =~= before);
    assert(final(out)@.skip(before.len() as int) =~= signed_decimal(n as int));
    lemma_signed_decimal(n as int);
}

/// Whether a text is the numeral of a number that may be negative.
pub open spec fn is_signed_numeral(text: Seq<char>, n: int) -> bool {
    if n < 0 {
        text.len() > 1 && text[0] == '-' && is_numeral(text.skip(1), -n)
    } else {
        is_numeral(text, n)
    }
}

pub(crate) proof fn lemma_signed_decimal(n: int)
    ensures
        is_signed_numeral(signed_decimal(n), n),
{
    if n < 0 {
        lemma_decimal((-n) as nat);
        assert(signed_decimal(n).skip(1) =~= decimal((-n) as nat));
    } else {
        lemma_decimal(n as nat);
    }
}

proof fn lemma_lex_at(a: Seq<char>, b: Seq<char>, k: int)
    requires
        0 <= k <= a.len(),
        k <= b.len(),
        forall|i: int| 0 <= i < k ==> a[i] == b[i],
        k < a.len() && k < b.len() ==> a[k] != b[k],
    ensures
        lex_lt(a, b) == (k < b.len() && (k == a.len() || (k < a.len() && (a[k] as int) < (
        b[k] as int)))),
    decreases k,
{
    if k > 0 {
        assert(a[0] == b[0]);
        let x = a.drop_first();
        let y = b.drop_first();
        assert forall|i: int| 0 <= i < k - 1 implies x[i] == y[i] by {
            assert(a[i + 1] == b[i + 1]);
        }
        lemma_lex_at(x, y, k - 1);
    }
}

/// Of two texts the first place at which they differ decides which one precedes
/// the other: the one with the lower code point there, or the one that has ended.
pub proof fn law_first_difference_decides(a: &str, b: &str, k: int, r: bool)
    requires
        call_ensures(str_lt, (a, b), r),
        0 <= k <= a@.len(),
        k <= b@.len(),
        forall|i: int| 0 <= i < k ==> a@[i] == b@[i],
        k < a@.len() && k < b@.len() ==> a@[k] != b@[k],
    ensures
        r == (k < b@.len() && (k == a@.len() || (a@[k] as int) < (b@[k] as int))),
        lex_lt(a@, b@) == r,
{
    lemma_lex_at(a@, b@, k);
}

} // verus!
