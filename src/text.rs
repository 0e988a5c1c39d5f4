//! Reading unsigned decimal numbers from text, as `u32`'s `FromStr` does.

use vstd::prelude::*;

verus! {

pub open spec fn is_digit(c: char) -> bool {
    '0' <= c <= '9'
}

pub open spec fn digit_value(c: char) -> int {
    c as u32 - '0' as u32
}

/// The number written by the decimal digits `d`.
pub open spec fn digits_value(d: Seq<char>) -> int
    decreases d.len(),
{
    if d.len() == 0 {
        0
    } else {
        digits_value(d.drop_last()) * 10 + digit_value(d.last())
    }
}

/// The digits of `s`, after an optional leading plus sign.
pub open spec fn digits_part(s: Seq<char>) -> Seq<char> {
    if s.len() > 0 && s[0] == '+' {
        s.drop_first()
    } else {
        s
    }
}

/// `s` is an optional `+` followed by at least one digit, and the number fits
/// in a `u32`.
pub open spec fn is_u32_text(s: Seq<char>) -> bool {
    let d = digits_part(s);
    &&& d.len() > 0
    &&& forall|i: int| 0 <= i < d.len() ==> is_digit(#[trigger] d[i])
    &&& digits_value(d) <= u32::MAX
}

proof fn lemma_digits_value_grows(d: Seq<char>, i: int, j: int)
    requires
        0 <= i <= j <= d.len(),
        forall|k: int| 0 <= k < d.len() ==> is_digit(#[trigger] d[k]),
    ensures
        digits_value(d.take(i)) <= digits_value(d.take(j)),
    decreases j - i,
{
    if i < j {
        lemma_digits_value_grows(d, i, j - 1);
        assert(d.take(j).drop_last() =~= d.take(j - 1));
        assert(is_digit(d[j - 1]));
        assert(digits_value(d.take(j - 1)) >= 0) by {
            lemma_digits_value_nonneg(d.take(j - 1));
        }
    }
}

proof fn lemma_digits_value_nonneg(d: Seq<char>)
    requires
        forall|k: int| 0 <= k < d.len() ==> is_digit(#[trigger] d[k]),
    ensures
        digits_value(d) >= 0,
    decreases d.len(),
{
    if d.len() > 0 {
        lemma_digits_value_nonneg(d.drop_last());
    }
}

/// Parses `s` as `u32`'s `FromStr` does: an optional `+`, then one or more
/// decimal digits whose value fits; anything else is `None`.
pub fn parse_u32(s: &str) -> (r: Option<u32>)
    ensures
        r.is_some() <==> is_u32_text(s@),
        r matches Some(v) ==> v == digits_value(digits_part(s@)),
{
    broadcast use vstd::string::axiom_spec_iter;

    let ghost t = s@;
    let ghost start: int = if t.len() > 0 && t[0] == '+' { 1 } else { 0 };
    let ghost d = digits_part(t);
    assert(d =~= t.subrange(start, t.len() as int));
    let mut acc: u64 = 0;
    let mut ok: bool = true;
    let mut first: bool = true;
    let mut any: bool = false;
    let ghost mut count: int = 0;
    for c in it: s.chars()
        invariant
            first == (it.index() == 0),
            it.seq() == t,
            d =~= t.subrange(start, t.len() as int),
            d == digits_part(t),
            start == (if t.len() > 0 && t[0] == '+' { 1int } else { 0int }),
            count == (if it.index() > start { it.index() - start } else { 0 }),
            any == (count > 0),
            ok ==> (forall|k: int| 0 <= k < count ==> is_digit(#[trigger] d[k])),
            ok ==> acc == digits_value(d.take(count)),
            ok ==> acc <= u32::MAX,
            !ok ==> !is_u32_text(t),
    {
        assert(c == t[it.index() as int]);
        if first && c == '+' {
        } else {
            if ok {
                assert(d[count] == c);
                if '0' <= c && c <= '9' {
                    let v: u64 = acc * 10 + (c as u32 - '0' as u32) as u64;
                    assert(d.take(count + 1).drop_last() =~= d.take(count));
                    proof {
                        count = count + 1;
                    }
                    acc = v;
                    assert(d.take(count).last() == c);
                    assert(acc == digits_value(d.take(count)));
                    if acc > u32::MAX as u64 {
                        ok = false;
                        proof {
                            if forall|m: int| 0 <= m < d.len() ==> is_digit(#[trigger] d[m]) {
                                lemma_digits_value_grows(d, count, d.len() as int);
                                assert(d.take(d.len() as int) =~= d);
                            }
                        }
                    }
                } else {
                    ok = false;
                    assert(!is_digit(d[count]));
                    proof {
                        count = count + 1;
                    }
                }
            } else {
                proof {
                    count = count + 1;
                }
            }
            any = true;
        }
        first = false;
    }
    if ok && any {
        assert(d.take(count) =~= d);
        Some(acc as u32)
    } else {
        assert(count == d.len());
        None
    }
}

} // verus!
