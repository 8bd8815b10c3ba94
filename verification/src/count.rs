//! Reading the number of identities that the user typed.
use crate::error::{CountError, SetupError};
use crate::text;
use crate::text::trimmed;
use vstd::prelude::*;

verus! {

/// `c` is a decimal digit.
pub open spec fn digit(c: char) -> bool {
    '0' <= c <= '9'
}

/// The number that a sequence of decimal digits stands for.
pub open spec fn decimal(s: Seq<char>) -> int
    decreases s.len(),
{
    if s.len() == 0 {
        0
    } else {
        decimal(s.drop_last()) * 10 + (s.last() as int - '0' as int)
    }
}

/// How many decimal digits `s` starts with.
pub open spec fn digit_run(s: Seq<char>) -> int
    decreases s.len(),
{
    if s.len() > 0 && digit(s[0]) {
        1 + digit_run(s.skip(1))
    } else {
        0
    }
}

/// `s` without a plus sign in front.
pub open spec fn unsigned(s: Seq<char>) -> Seq<char> {
    if s.len() > 0 && s[0] == '+' {
        s.skip(1)
    } else {
        s
    }
}

/// `s` read as a count: decimal digits, with or without a plus sign in front.
/// A number that grows too large is reported as such before anything behind it is read.
pub open spec fn count_in(s: Seq<char>) -> Result<usize, CountError> {
    let digits = unsigned(s);
    let run = digits.take(digit_run(digits));
    if s.len() == 0 {
        Err(CountError::Empty)
    } else if decimal(run) > usize::MAX {
        Err(CountError::TooLarge)
    } else if run.len() == 0 || run.len() < digits.len() {
        Err(CountError::InvalidDigit)
    } else {
        Ok(decimal(run) as usize)
    }
}

proof fn lemma_digit_run_is(s: Seq<char>, i: int)
    requires
        0 <= i <= s.len(),
        forall|j: int| 0 <= j < i ==> digit(#[trigger] s[j]),
        i < s.len() ==> !digit(s[i]),
    ensures
        digit_run(s) == i,
    decreases i,
{
    if i > 0 {
        assert(digit(s[0]));
        lemma_digit_run_is(s.skip(1), i - 1);
    }
}

/// Digits behind `i` leave the number no smaller.
proof fn lemma_decimal_grows(s: Seq<char>, i: int)
    requires
        0 <= i <= s.len(),
        forall|j: int| 0 <= j < s.len() ==> digit(#[trigger] s[j]),
    ensures
        0 <= decimal(s.take(i)) <= decimal(s),
    decreases s.len(),
{
    if i < s.len() {
        lemma_decimal_grows(s.drop_last(), i);
        assert(s.drop_last().take(i) =~= s.take(i));
        assert(digit(s.last()));
    } else {
        assert(s.take(i) =~= s);
        if s.len() > 0 {
            lemma_decimal_grows(s.drop_last(), i - 1);
            assert(s.drop_last().take(i - 1) =~= s.drop_last());
            assert(digit(s.last()));
        }
    }
}

proof fn lemma_digit_run(s: Seq<char>)
    ensures
        0 <= digit_run(s) <= s.len(),
        forall|j: int| 0 <= j < digit_run(s) ==> digit(#[trigger] s[j]),
        digit_run(s) < s.len() ==> !digit(s[digit_run(s)]),
    decreases s.len(),
{
    if s.len() > 0 && digit(s[0]) {
        let rest = s.skip(1);
        lemma_digit_run(rest);
        assert forall|j: int| 0 <= j < digit_run(s) implies digit(#[trigger] s[j]) by {
            if j > 0 {
                assert(s[j] == rest[j - 1]);
            }
        }
    }
}

/// Reads a count.
pub fn parse_count(s: &str) -> (count: Result<usize, CountError>)
    ensures
        count == count_in(s@),
{
    let cs = text::chars(s);
    if cs.len() == 0 {
        return Err(CountError::Empty);
    }
    let start: usize = if cs[0] == '+' {
        1
    } else {
        0
    };
    let ghost digits = unsigned(s@);
    proof {
        assert(digits =~= s@.skip(start as int));
        lemma_digit_run(digits);
    }
    let mut i: usize = start;
    let mut total: usize = 0;
    proof {
        assert(digits.take(0) =~= seq![]);
    }
    while i < cs.len() && '0' <= cs[i] && cs[i] <= '9'
        invariant
            cs@ == s@,
            cs.len() > 0,
            start <= 1,
            start <= i <= cs.len(),
            digits == unsigned(s@),
            digits == s@.skip(start as int),
            digits.len() + start == cs.len(),
            forall|j: int| 0 <= j < i - start ==> digit(#[trigger] digits[j]),
            total == decimal(digits.take(i - start)),
        decreases cs.len() - i,
    {
        let value: usize = cs[i] as usize - '0' as usize;
        proof {
            let k = i - start;
            let run = digits.take(digit_run(digits));
            lemma_digit_run(digits);
            assert(digits[k] == s@[i as int]);
            if digit_run(digits) <= k {
                assert(!digit(digits[digit_run(digits)]));
            }
            assert(digits.take(k + 1).drop_last() =~= digits.take(k));
            assert(run.take(k + 1) =~= digits.take(k + 1));
            lemma_decimal_grows(run, k + 1);
        }
        if total > (usize::MAX - value) / 10 {
            return Err(CountError::TooLarge);
        }
        total = total * 10 + value;
        i += 1;
    }
    proof {
        let k = i - start;
        assert(k < digits.len() ==> digits[k] == s@[i as int]);
        lemma_digit_run_is(digits, k);
        assert(k == digits.len() ==> digits.take(k) =~= digits);
    }
    if i == start || i < cs.len() {
        return Err(CountError::InvalidDigit);
    }
    Ok(total)
}

/// Reads the number of identities from what the user typed.
pub fn parse_identity_count(answer: &str) -> (count: Result<usize, SetupError>)
    ensures
        match count {
            Ok(n) => count_in(trimmed(answer@)) == Ok::<usize, CountError>(n),
            Err(e) => e matches SetupError::Count(cause) && count_in(trimmed(answer@)) == Err::<
                usize,
                CountError,
            >(cause),
        },
{
    match parse_count(text::trim(answer)) {
        Ok(n) => Ok(n),
        Err(cause) => Err(SetupError::Count(cause)),
    }
}

/// How many digits a text starts with once a character was put behind it.
proof fn lemma_digit_run_push(s: Seq<char>, c: char)
    ensures
        digit_run(s.push(c)) == if digit_run(s) == s.len() && digit(c) {
            s.len() as int + 1
        } else {
            digit_run(s)
        },
{
    let t = s.push(c);
    let k = digit_run(s);
    lemma_digit_run(s);
    assert forall|j: int| 0 <= j < k implies digit(#[trigger] t[j]) by {
        assert(t[j] == s[j]);
    }
    if k == s.len() && digit(c) {
        assert forall|j: int| 0 <= j < k + 1 implies digit(#[trigger] t[j]) by {
            if j < k {
                assert(t[j] == s[j]);
            }
        }
        lemma_digit_run_is(t, k + 1);
    } else {
        if k < s.len() {
            assert(t[k] == s[k]);
        }
        lemma_digit_run_is(t, k);
    }
}

/// A count is read digit by digit, from the left, in base ten: a digit behind a number makes
/// ten times that number and the digit, as long as it fits; anything else behind it makes
/// the text no count; and what is no count, or too large, stays so whatever is put behind
/// it. A plus sign in front is passed over once, but is no count by itself.
pub proof fn law_count_is_read_digit_by_digit(s: Seq<char>, c: char)
    ensures
        count_in(Seq::<char>::empty()) == Err::<usize, CountError>(CountError::Empty),
        count_in(seq![c]) == if 48 <= c as u32 && c as u32 <= 57 {
            Ok::<usize, CountError>((c as u32 - 48) as usize)
        } else {
            Err(CountError::InvalidDigit)
        },
        count_in(seq!['+', c]) == count_in(seq![c]),
        count_in(s) matches Ok(n) ==> count_in(s.push(c)) == if !(48 <= c as u32 && c as u32
            <= 57) {
            Err::<usize, CountError>(CountError::InvalidDigit)
        } else if n * 10 + (c as u32 - 48) > usize::MAX {
            Err(CountError::TooLarge)
        } else {
            Ok((n * 10 + (c as u32 - 48)) as usize)
        },
        count_in(s) == Err::<usize, CountError>(CountError::TooLarge) ==> count_in(s.push(c))
            == Err::<usize, CountError>(CountError::TooLarge),
        count_in(s) == Err::<usize, CountError>(CountError::InvalidDigit) && s != seq!['+']
            ==> count_in(s.push(c)) == Err::<usize, CountError>(CountError::InvalidDigit),
{
    let none = Seq::<char>::empty();
    let one = seq![c];
    let plus = seq!['+', c];
    reveal_with_fuel(decimal, 2);
    assert(none.push(c) =~= one);
    assert(none.take(0) =~= none);
    lemma_digit_run_push(none, c);
    assert(one.drop_last() =~= none);
    assert(one.take(0) =~= none);
    assert(one.take(1) =~= one);
    assert(plus.skip(1) =~= one);
    assert(seq!['+'].skip(1) =~= none);
    if c == '+' {
        assert(one =~= seq!['+']);
    }
    if s.len() > 0 {
        let d = unsigned(s);
        let t = s.push(c);
        let e = d.push(c);
        assert(unsigned(t) =~= e);
        lemma_digit_run(d);
        lemma_digit_run(e);
        lemma_digit_run_push(d, c);
        let k = digit_run(d);
        assert(e.take(k) =~= d.take(k));
        if k == d.len() {
            assert(d.take(k) =~= d);
            assert(e.drop_last() =~= d);
            assert(e.take(k + 1) =~= e);
            if digit(c) {
                lemma_decimal_grows(e, k);
            }
        }
        if d.len() == 0 {
            assert(s =~= seq!['+']);
        }
    }
}

} // verus!
