use vstd::prelude::*;

verus! {

/// One of the ten ASCII digits.
pub open spec fn is_digit(c: char) -> bool {
    '0' <= c && c <= '9'
}

/// The number that a digit stands for.
pub open spec fn digit_value(c: char) -> nat {
    (c as int - '0' as int) as nat
}

/// The digit that stands for a number below ten.
pub open spec fn digit_char(d: nat) -> char {
    ('0' as int + d) as char
}

/// The number that a run of digits denotes in base ten.
pub open spec fn decimal_value(text: Seq<char>) -> nat
    decreases text.len(),
{
    if text.len() == 0 {
        0
    } else {
        decimal_value(text.drop_last()) * 10 + digit_value(text.last())
    }
}

/// A number in base ten, without leading zeros.
pub open spec fn decimal_text(n: nat) -> Seq<char>
    decreases n,
{
    if n < 10 {
        seq![digit_char(n)]
    } else {
        decimal_text(n / 10).push(digit_char(n % 10))
    }
}

/// A non-empty run of digits that does not start with a needless zero.
pub open spec fn is_canonical_decimal(text: Seq<char>) -> bool {
    &&& text.len() > 0
    &&& forall|i: int| 0 <= i < text.len() ==> is_digit(#[trigger] text[i])
    &&& (text.len() > 1 ==> text[0] != '0')
}

/// The number that `text` denotes, where `text` is a canonical decimal
/// numeral of a number that fits in 64 bits.
pub open spec fn index_of_text(text: Seq<char>) -> Option<u64> {
    if is_canonical_decimal(text) && decimal_value(text) <= u64::MAX {
        Some(decimal_value(text) as u64)
    } else {
        None
    }
}

proof fn decimal_value_grows(text: Seq<char>, k: int)
    requires
        0 <= k <= text.len(),
    ensures
        decimal_value(text.take(k)) <= decimal_value(text),
    decreases text.len(),
{
    if k == text.len() {
        assert(text.take(k) == text);
    } else {
        assert(text.drop_last().take(k) == text.take(k));
        decimal_value_grows(text.drop_last(), k);
        assert(decimal_value(text.drop_last()) * 10 >= decimal_value(text.drop_last()))
            by (nonlinear_arith);
    }
}

/// Reads a canonical decimal numeral; anything else, and a number too large
/// for 64 bits, gives `None`.
pub fn parse_index(text: &Vec<char>) -> (index: Option<u64>)
    ensures
        index == index_of_text(text@),
{
    let n = text.len();
    if n == 0 {
        return None;
    }
    if n > 1 && text[0] == '0' {
        return None;
    }
    let mut value: u64 = 0;
    let mut i: usize = 0;
    assert(text@.take(0).len() == 0);
    while i < n
        invariant
            n == text.len(),
            i <= n,
            value == decimal_value(text@.take(i as int)),
            forall|j: int| 0 <= j < i ==> is_digit(#[trigger] text@[j]),
        decreases n - i,
    {
        let c = text[i];
        if c < '0' || c > '9' {
            return None;
        }
        let digit: u64 = (c as u32 - '0' as u32) as u64;
        proof {
            let next = text@.take(i + 1);
            assert(next.drop_last() == text@.take(i as int));
            assert(next.last() == c);
            assert(decimal_value(next) == value * 10 + digit);
            decimal_value_grows(text@, i + 1);
        }
        let scaled = match value.checked_mul(10) {
            Some(scaled) => scaled,
            None => { return None; },
        };
        value = match scaled.checked_add(digit) {
            Some(sum) => sum,
            None => { return None; },
        };
        i = i + 1;
    }
    assert(text@.take(n as int) == text@);
    Some(value)
}

/// Appends the canonical decimal numeral of `n` to `out`.
fn push_decimal(out: &mut Vec<char>, n: u64)
    ensures
        final(out)@ == old(out)@ + decimal_text(n as nat),
    decreases n,
{
    if n >= 10 {
        push_decimal(out, n / 10);
    }
    let digit: u8 = (n % 10) as u8;
    let c = (48u8 + digit) as char;
    assert(c == digit_char((n % 10) as nat));
    out.push(c);
    proof {
        if n < 10 {
            assert(old(out)@.push(c) == old(out)@ + seq![c]);
        } else {
            assert((old(out)@ + decimal_text((n / 10) as nat)).push(c) == old(out)@ + decimal_text(
                (n / 10) as nat,
            ).push(c));
        }
    }
}

/// The canonical decimal numeral of `n`.
pub fn index_text(n: u64) -> (text: Vec<char>)
    ensures
        text@ == decimal_text(n as nat),
{
    let mut text: Vec<char> = Vec::new();
    push_decimal(&mut text, n);
    assert(Seq::<char>::empty() + decimal_text(n as nat) == decimal_text(n as nat));
    text
}

/// Writing a number and reading it back gives the number.
pub proof fn decimal_text_reads_back(n: nat)
    ensures
        is_canonical_decimal(decimal_text(n)),
        decimal_value(decimal_text(n)) == n,
    decreases n,
{
    if n < 10 {
        let text = decimal_text(n);
        assert(text.drop_last().len() == 0);
        assert(decimal_value(text.drop_last()) == 0);
    } else {
        decimal_text_reads_back(n / 10);
        let init = decimal_text(n / 10);
        let text = init.push(digit_char(n % 10));
        assert(text.drop_last() == init);
        assert(text[0] == init[0]);
        if init[0] == '0' {
            assert(init.len() == 1);
            assert(init.drop_last().len() == 0);
            assert(decimal_value(init.drop_last()) == 0);
            assert(false);
        }
    }
}

/// A canonical decimal numeral is the one way to write its number.
pub proof fn decimal_value_writes_back(text: Seq<char>)
    requires
        is_canonical_decimal(text),
    ensures
        decimal_text(decimal_value(text)) == text,
    decreases text.len(),
{
    let init = text.drop_last();
    let d = digit_value(text.last());
    assert(is_digit(text.last()));
    assert(digit_char(d) == text.last());
    if text.len() == 1 {
        assert(init.len() == 0);
        assert(decimal_value(init) == 0);
        assert(seq![text.last()] == text);
    } else {
        assert(init[0] == text[0]);
        decimal_value_writes_back(init);
        let v = decimal_value(init);
        assert(v >= 1) by {
            leading_digit_counts(init);
        }
        assert((v * 10 + d) / 10 == v && (v * 10 + d) % 10 == d);
        assert(init.push(text.last()) == text);
    }
}

proof fn leading_digit_counts(text: Seq<char>)
    requires
        text.len() > 0,
        forall|i: int| 0 <= i < text.len() ==> is_digit(#[trigger] text[i]),
        text[0] != '0',
    ensures
        decimal_value(text) >= 1,
    decreases text.len(),
{
    if text.len() == 1 {
        assert(text.drop_last().len() == 0);
        assert(decimal_value(text.drop_last()) == 0);
        assert(is_digit(text[0]));
    } else {
        assert(text.drop_last()[0] == text[0]);
        leading_digit_counts(text.drop_last());
    }
}

} // verus!
