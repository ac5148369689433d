use vstd::prelude::*;
use vstd::string::{StrSliceExecFns, StringExecFns};

verus! {

/// The decimal digit `d`.
pub open spec fn digit_char(d: int) -> char {
    if d <= 0 {
        '0'
    } else if d == 1 {
        '1'
    } else if d == 2 {
        '2'
    } else if d == 3 {
        '3'
    } else if d == 4 {
        '4'
    } else if d == 5 {
        '5'
    } else if d == 6 {
        '6'
    } else if d == 7 {
        '7'
    } else if d == 8 {
        '8'
    } else {
        '9'
    }
}

/// `n` in decimal, without leading zeros.
pub open spec fn decimal(n: nat) -> Seq<char>
    decreases n,
{
    if n < 10 {
        seq![digit_char(n as int)]
    } else {
        decimal(n / 10).push(digit_char((n % 10) as int))
    }
}

/// `n` in decimal, padded with a zero to at least two digits.
pub open spec fn two_digits(n: nat) -> Seq<char> {
    if n < 10 {
        seq!['0', digit_char(n as int)]
    } else {
        decimal(n)
    }
}

/// A count of seconds as a clock: `M:SS` with minutes padded to two digits,
/// preceded by the hours and a colon where there is at least one hour.
pub open spec fn clock_text(secs: nat) -> Seq<char> {
    let hours = secs / 3600;
    let minutes = (secs / 60) % 60;
    let seconds = secs % 60;
    (if hours != 0 {
        decimal(hours).push(':')
    } else {
        Seq::empty()
    }) + two_digits(minutes).push(':') + two_digits(seconds)
}

fn digit_str(d: u64) -> (r: &'static str)
    requires
        d < 10,
    ensures
        r@ == seq![digit_char(d as int)],
{
    proof {
        reveal_strlit("0");
        reveal_strlit("1");
        reveal_strlit("2");
        reveal_strlit("3");
        reveal_strlit("4");
        reveal_strlit("5");
        reveal_strlit("6");
        reveal_strlit("7");
        reveal_strlit("8");
        reveal_strlit("9");
    }
    if d == 0 {
        "0"
    } else if d == 1 {
        "1"
    } else if d == 2 {
        "2"
    } else if d == 3 {
        "3"
    } else if d == 4 {
        "4"
    } else if d == 5 {
        "5"
    } else if d == 6 {
        "6"
    } else if d == 7 {
        "7"
    } else if d == 8 {
        "8"
    } else {
        "9"
    }
}

fn push_decimal(out: &mut String, n: u64)
    ensures
        final(out)@ == old(out)@ + decimal(n as nat),
    decreases n,
{
    if n >= 10 {
        push_decimal(out, n / 10);
    }
    out.append(digit_str(n % 10));
    assert(final(out)@ =~= old(out)@ + decimal(n as nat));
}

fn push_two_digits(out: &mut String, n: u64)
    ensures
        final(out)@ == old(out)@ + two_digits(n as nat),
{
    if n < 10 {
        out.append(digit_str(0));
        out.append(digit_str(n));
        assert(final(out)@ =~= old(out)@ + two_digits(n as nat));
    } else {
        push_decimal(out, n);
    }
}

/// Formats a count of seconds as a clock (see [`clock_text`]).
pub fn secs_to_string(duration: u64) -> (r: String)
    ensures
        r@ == clock_text(duration as nat),
{
    let seconds = duration % 60;
    let minutes = (duration / 60) % 60;
    let total_hours = duration / 60 / 60;
    assert(duration / 60 / 60 == duration / 3600) by (nonlinear_arith);
    let mut out = String::new();
    proof {
        reveal_strlit(":");
    }
    if total_hours != 0 {
        push_decimal(&mut out, total_hours);
        out.append(":");
    }
    push_two_digits(&mut out, minutes);
    out.append(":");
    push_two_digits(&mut out, seconds);
    assert(out@ =~= clock_text(duration as nat));
    out
}

pub open spec fn is_digit(c: char) -> bool {
    '0' <= c && c <= '9'
}

pub open spec fn digit_value(c: char) -> nat {
    (c as u32 - '0' as u32) as nat
}

/// The value of a string of decimal digits.
pub open spec fn digits_value(s: Seq<char>) -> nat
    decreases s.len(),
{
    if s.len() == 0 {
        0
    } else {
        digits_value(s.drop_last()) * 10 + digit_value(s.last())
    }
}

pub open spec fn all_digits(s: Seq<char>) -> bool {
    forall|i: int| 0 <= i < s.len() ==> is_digit(#[trigger] s[i])
}

/// A field without the one `+` it may begin with.
pub open spec fn unsigned_body(field: Seq<char>) -> Seq<char> {
    if field.len() > 0 && field[0] == '+' {
        field.drop_first()
    } else {
        field
    }
}

/// The unsigned integer a field holds, as `u64` parsing reads it: an optional
/// `+`, then one digit or more, of a value that fits in `u64`.
pub open spec fn field_value(field: Seq<char>) -> Option<nat> {
    let body = unsigned_body(field);
    if body.len() > 0 && all_digits(body) && digits_value(body) <= u64::MAX {
        Some(digits_value(body))
    } else {
        None
    }
}

/// `s` cut at each colon.
pub open spec fn split_colon(s: Seq<char>) -> Seq<Seq<char>>
    decreases s.len(),
{
    if s.len() == 0 {
        seq![Seq::empty()]
    } else {
        let init = split_colon(s.drop_last());
        if s.last() == ':' {
            init.push(Seq::empty())
        } else {
            init.update(init.len() - 1, init.last().push(s.last()))
        }
    }
}

/// Fields read as digits in base 60, the last the least significant; `None`
/// where a field is not a number.
pub open spec fn sexagesimal(fields: Seq<Seq<char>>) -> Option<nat>
    decreases fields.len(),
{
    if fields.len() == 0 {
        Some(0)
    } else {
        match (sexagesimal(fields.drop_last()), field_value(fields.last())) {
            (Some(high), Some(low)) => Some(high * 60 + low),
            _ => None,
        }
    }
}

/// The seconds a clock text such as `1:02:03` stands for: its colon-separated
/// fields read in base 60. `None` where a field is not an unsigned number or
/// the total does not fit in `u64`.
pub open spec fn clock_value(s: Seq<char>) -> Option<u64> {
    match sexagesimal(split_colon(s)) {
        Some(v) => if v <= u64::MAX {
            Some(v as u64)
        } else {
            None
        },
        None => None,
    }
}

proof fn lemma_body_push(cur: Seq<char>, c: char)
    ensures
        cur.len() == 0 && c == '+' ==> unsigned_body(cur.push(c)) == Seq::<char>::empty(),
        !(cur.len() == 0 && c == '+') ==> unsigned_body(cur.push(c)) == unsigned_body(cur).push(c),
{
    if cur.len() == 0 && c == '+' {
        assert(unsigned_body(cur.push(c)) =~= Seq::<char>::empty());
    } else if cur.len() > 0 && cur[0] == '+' {
        assert(cur.push(c).drop_first() =~= cur.drop_first().push(c));
    } else {
        assert(cur.push(c)[0] != '+');
    }
}

proof fn lemma_digits_push(b: Seq<char>, c: char)
    ensures
        digits_value(b.push(c)) == digits_value(b) * 10 + digit_value(c),
        all_digits(b.push(c)) == (all_digits(b) && is_digit(c)),
{
    assert(b.push(c).drop_last() =~= b);
    if all_digits(b) && is_digit(c) {
        assert forall|i: int| 0 <= i < b.push(c).len() implies is_digit(#[trigger] b.push(c)[i]) by {
            if i < b.len() {
                assert(b.push(c)[i] == b[i]);
            }
        }
    }
    if !all_digits(b) {
        let i = choose|i: int| 0 <= i < b.len() && !is_digit(#[trigger] b[i]);
        assert(b.push(c)[i] == b[i]);
    }
    if !is_digit(c) {
        assert(b.push(c)[b.len() as int] == c);
    }
}

/// The next base-60 place: `high * 60 + low`, or `None` where that does not fit.
fn shift_in(high: u64, low: u64) -> (r: Option<u64>)
    ensures
        r == (if high * 60 + low <= u64::MAX {
            Some((high * 60 + low) as u64)
        } else {
            None::<u64>
        }),
{
    if high > (u64::MAX - low) / 60 {
        assert(high * 60 + low > u64::MAX) by (nonlinear_arith)
            requires
                high > (u64::MAX - low) / 60,
                low <= u64::MAX,
        ;
        None
    } else {
        assert(high * 60 + low <= u64::MAX) by (nonlinear_arith)
            requires
                high <= (u64::MAX - low) / 60,
                low <= u64::MAX,
        ;
        Some(high * 60 + low)
    }
}

/// Reads a clock text (see [`clock_value`]) back into seconds.
pub fn string_to_secs(string: &str) -> (r: Option<u64>)
    ensures
        r == clock_value(string@),
{
    let n = string.unicode_len();
    // The fields before the current one, read so far; `None` once they cannot
    // give a result.
    let mut done: Option<u64> = Some(0);
    // The current field: whether it is empty, whether it began with `+`,
    // whether it holds nothing past that sign, and the value of its digits,
    // `None` once a character is not a digit or the value does not fit.
    let mut empty = true;
    let mut signed = false;
    let mut bare = true;
    let mut value: Option<u64> = Some(0);
    let mut i: usize = 0;
    proof {
        assert(string@.subrange(0, 0) =~= Seq::<char>::empty());
        assert(unsigned_body(Seq::<char>::empty()) =~= Seq::<char>::empty());
        assert(split_colon(Seq::<char>::empty()).drop_last() =~= Seq::<Seq<char>>::empty());
    }
    while i < n
        invariant
            i <= n,
            n == string@.len(),
            split_colon(string@.subrange(0, i as int)).len() >= 1,
            ({
                let fields = split_colon(string@.subrange(0, i as int));
                let cur = fields.last();
                let body = unsigned_body(cur);
                &&& empty == (cur.len() == 0)
                &&& signed == (cur.len() > 0 && cur[0] == '+')
                &&& bare == (body.len() == 0)
                &&& (value matches Some(v) ==> all_digits(body) && digits_value(body) == v)
                &&& (value is None ==> !all_digits(body) || digits_value(body) > u64::MAX)
                &&& (done matches Some(d) ==> sexagesimal(fields.drop_last()) == Some(d as nat))
                &&& (done is None ==> match sexagesimal(fields.drop_last()) {
                    Some(v) => v > u64::MAX,
                    None => true,
                })
            }),
        decreases n - i,
    {
        let c = string.get_char(i);
        let ghost p = string@.subrange(0, i as int);
        let ghost q = string@.subrange(0, i + 1);
        let ghost fields = split_colon(p);
        let ghost cur = fields.last();
        let ghost body = unsigned_body(cur);
        proof {
            assert(q.drop_last() =~= p);
            assert(q.last() == c);
        }
        if c == ':' {
            let low = if bare {
                None
            } else {
                value
            };
            proof {
                assert(split_colon(q) == fields.push(Seq::<char>::empty()));
                assert(split_colon(q).drop_last() =~= fields);
                assert(fields.drop_last().push(cur) =~= fields);
                assert(low matches Some(l) ==> field_value(cur) == Some(l as nat));
                assert(low is None ==> field_value(cur) is None);
                match sexagesimal(fields.drop_last()) {
                    Some(v) => {
                        if v > u64::MAX {
                            match field_value(cur) {
                                Some(l) => {
                                    assert(v * 60 + l > u64::MAX) by (nonlinear_arith)
                                        requires v > u64::MAX, l >= 0;
                                },
                                None => {},
                            }
                        }
                    },
                    None => {},
                }
                assert(unsigned_body(Seq::<char>::empty()) =~= Seq::<char>::empty());
            }
            done = match (done, low) {
                (Some(high), Some(low)) => shift_in(high, low),
                _ => None,
            };
            empty = true;
            signed = false;
            bare = true;
            value = Some(0);
        } else {
            proof {
                assert(split_colon(q) == fields.update(fields.len() - 1, cur.push(c)));
                assert(split_colon(q).drop_last() =~= fields.drop_last());
                assert(split_colon(q).last() == cur.push(c));
                lemma_body_push(cur, c);
                lemma_digits_push(body, c);
                if cur.len() > 0 {
                    assert(cur.push(c)[0] == cur[0]);
                }
            }
            if empty && c == '+' {
                signed = true;
            } else {
                bare = false;
                if '0' <= c && c <= '9' {
                    let d = (c as u32 - '0' as u32) as u64;
                    assert(d == digit_value(c));
                    value = match value {
                        Some(v) => if v > (u64::MAX - d) / 10 {
                            assert(v * 10 + d > u64::MAX) by (nonlinear_arith)
                                requires v > (u64::MAX - d) / 10, d <= u64::MAX;
                            None
                        } else {
                            assert(v * 10 + d <= u64::MAX) by (nonlinear_arith)
                                requires v <= (u64::MAX - d) / 10, d <= u64::MAX;
                            Some(v * 10 + d)
                        },
                        None => {
                            assert(all_digits(body) ==> digits_value(body) * 10 + d > u64::MAX) by (nonlinear_arith)
                                requires all_digits(body) ==> digits_value(body) > u64::MAX;
                            None
                        },
                    };
                } else {
                    value = None;
                }
            }
            empty = false;
        }
        i = i + 1;
    }
    proof {
        assert(string@.subrange(0, n as int) =~= string@);
        let fields = split_colon(string@);
        assert(fields.drop_last().push(fields.last()) =~= fields);
    }
    let low = if bare {
        None
    } else {
        value
    };
    proof {
        let fields = split_colon(string@);
        let cur = fields.last();
        match sexagesimal(fields.drop_last()) {
            Some(v) => {
                if v > u64::MAX {
                    match field_value(cur) {
                        Some(l) => {
                            assert(v * 60 + l > u64::MAX) by (nonlinear_arith)
                                requires v > u64::MAX, l >= 0;
                        },
                        None => {},
                    }
                }
            },
            None => {},
        }
    }
    match (done, low) {
        (Some(high), Some(low)) => shift_in(high, low),
        _ => None,
    }
}

} // verus!
