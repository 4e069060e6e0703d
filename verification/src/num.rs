//! Decimal integers: the exact meaning of the digit strings the tool accepts
//! (the syntax of Rust's integer parse: an optional sign, then digits), and
//! canonical decimal output, as `serde_json` prints numbers.
use vstd::prelude::*;

verus! {

pub open spec fn is_digit(c: char) -> bool {
    48 <= c as u32 <= 57
}

pub open spec fn digit_val(c: char) -> nat {
    (c as u32 - 48) as nat
}

pub open spec fn all_digits(s: Seq<char>) -> bool {
    forall|i: int| 0 <= i < s.len() ==> is_digit(#[trigger] s[i])
}

/// Numeric value of a digit string, most significant digit first.
pub open spec fn dec_val(s: Seq<char>) -> nat
    decreases s.len(),
{
    if s.len() == 0 {
        0
    } else {
        dec_val(s.drop_last()) * 10 + digit_val(s.last())
    }
}

/// The digit body of an unsigned decimal literal: everything after one
/// optional leading `+`, as `str::parse::<u64>` accepts it.
pub open spec fn unsigned_body(s: Seq<char>) -> Seq<char> {
    if s.len() > 0 && s[0] == '+' {
        s.skip(1)
    } else {
        s
    }
}

/// Whether `s` parses as a `u64` the way `str::parse::<u64>` decides it.
pub open spec fn u64_parses(s: Seq<char>) -> bool {
    let b = unsigned_body(s);
    b.len() > 0 && all_digits(b) && dec_val(b) <= u64::MAX
}

pub open spec fn u64_value(s: Seq<char>) -> nat {
    dec_val(unsigned_body(s))
}

/// Sign and digit body of a signed decimal literal, as `str::parse::<i64>`
/// accepts it: one optional leading `+` or `-`, then digits.
pub open spec fn signed_negative(s: Seq<char>) -> bool {
    s.len() > 0 && s[0] == '-'
}

pub open spec fn signed_body(s: Seq<char>) -> Seq<char> {
    if s.len() > 0 && (s[0] == '+' || s[0] == '-') {
        s.skip(1)
    } else {
        s
    }
}

/// Whether `s` parses as an `i64` the way `str::parse::<i64>` decides it.
pub open spec fn i64_parses(s: Seq<char>) -> bool {
    let b = signed_body(s);
    b.len() > 0 && all_digits(b) && (if signed_negative(s) {
        dec_val(b) <= 0x8000_0000_0000_0000
    } else {
        dec_val(b) <= i64::MAX
    })
}

pub open spec fn i64_value(s: Seq<char>) -> int {
    if signed_negative(s) {
        -(dec_val(signed_body(s)) as int)
    } else {
        dec_val(signed_body(s)) as int
    }
}

proof fn lemma_dec_val_grows(s: Seq<char>, c: char)
    requires
        dec_val(s) > u64::MAX,
    ensures
        dec_val(s.push(c)) > u64::MAX,
{
    assert(s.push(c).drop_last() =~= s);
    assert(s.push(c).last() == c);
    assert(dec_val(s.push(c)) == dec_val(s) * 10 + digit_val(c));
    assert(dec_val(s) * 10 >= dec_val(s)) by (nonlinear_arith)
        requires
            dec_val(s) >= 0,
    ;
}

/// Parse the digits of `cs` from position `start` on as a `u64`.
/// Yields the value exactly when the digit string is well formed and fits.
pub fn parse_digits(cs: &Vec<char>, start: usize) -> (r: Option<u64>)
    requires
        start <= cs@.len(),
    ensures
        ({
            let b = cs@.skip(start as int);
            &&& (r is Some <==> b.len() > 0 && all_digits(b) && dec_val(b) <= u64::MAX)
            &&& (r matches Some(v) ==> v == dec_val(b))
        }),
{
    let ghost b = cs@.skip(start as int);
    if start == cs.len() {
        return None;
    }
    let mut acc: u64 = 0;
    let mut over: bool = false;
    let mut i: usize = start;
    while i < cs.len()
        invariant
            start <= i <= cs@.len(),
            b == cs@.skip(start as int),
            all_digits(cs@.subrange(start as int, i as int)),
            !over ==> acc == dec_val(cs@.subrange(start as int, i as int)),
            over ==> dec_val(cs@.subrange(start as int, i as int)) > u64::MAX,
        decreases cs@.len() - i,
    {
        let ghost pre = cs@.subrange(start as int, i as int);
        let c = cs[i];
        let u = c as u32;
        if !(48 <= u && u <= 57) {
            proof {
                assert(b[i - start] == cs@[i as int]);
                assert(!is_digit(b[i - start]));
            }
            return None;
        }
        let d: u64 = (u - 48) as u64;
        proof {
            let nxt = cs@.subrange(start as int, i + 1 as int);
            assert(nxt =~= pre.push(cs@[i as int]));
            assert(nxt.drop_last() =~= pre);
            assert(nxt.last() == cs@[i as int]);
            assert(dec_val(nxt) == dec_val(pre) * 10 + digit_val(cs@[i as int]));
            assert(is_digit(cs@[i as int]));
            assert(digit_val(cs@[i as int]) == d);
            assert(all_digits(nxt));
        }
        if over {
            proof {
                lemma_dec_val_grows(pre, cs@[i as int]);
                assert(cs@.subrange(start as int, i + 1 as int) =~= pre.push(cs@[i as int]));
            }
        } else {
            if acc > (u64::MAX - d) / 10 {
                proof {
                    assert(acc * 10 + d > u64::MAX) by (nonlinear_arith)
                        requires
                            acc > (u64::MAX - d) / 10,
                            d <= 9,
                    ;
                }
                over = true;
            } else {
                proof {
                    assert(acc * 10 + d <= u64::MAX) by (nonlinear_arith)
                        requires
                            acc <= (u64::MAX - d) / 10,
                            d <= 9,
                    ;
                }
                acc = acc * 10 + d;
            }
        }
        i = i + 1;
    }
    proof {
        assert(cs@.subrange(start as int, cs@.len() as int) =~= b);
    }
    if over {
        None
    } else {
        Some(acc)
    }
}

/// Parse `cs` as `str::parse::<u64>` would: optional `+`, then digits.
pub fn parse_u64_chars(cs: &Vec<char>) -> (r: Option<u64>)
    ensures
        r is Some <==> u64_parses(cs@),
        r matches Some(v) ==> v == u64_value(cs@),
{
    proof {
        assert(cs@.skip(0) =~= cs@);
    }
    if cs.len() > 0 && cs[0] == '+' {
        parse_digits(cs, 1)
    } else {
        parse_digits(cs, 0)
    }
}

/// Parse `cs` as `str::parse::<i64>` would: optional sign, then digits.
pub fn parse_i64_chars(cs: &Vec<char>) -> (r: Option<i64>)
    ensures
        r is Some <==> i64_parses(cs@),
        r matches Some(v) ==> v == i64_value(cs@),
{
    proof {
        assert(cs@.skip(0) =~= cs@);
    }
    let neg = cs.len() > 0 && cs[0] == '-';
    let mag: Option<u64> = if cs.len() > 0 && (cs[0] == '+' || cs[0] == '-') {
        parse_digits(cs, 1)
    } else {
        parse_digits(cs, 0)
    };
    match mag {
        None => None,
        Some(m) => {
            if neg {
                if m > 0x8000_0000_0000_0000u64 {
                    None
                } else if m == 0x8000_0000_0000_0000u64 {
                    Some(i64::MIN)
                } else {
                    Some(-(m as i64))
                }
            } else {
                if m > i64::MAX as u64 {
                    None
                } else {
                    Some(m as i64)
                }
            }
        },
    }
}

pub open spec fn digit_char(d: nat) -> char {
    if d == 0 {
        '0'
    } else if d == 1 {
        '1'
    } else if d == 2 {
        '2'
    } else if d == 3 {
        '3'
    } else if d == 4 {
        '4'
    } else if d == 5 {
        '5'
    } else if d == 6 {
        '6'
    } else if d == 7 {
        '7'
    } else if d == 8 {
        '8'
    } else {
        '9'
    }
}

/// Canonical decimal text of `n`: no sign, no leading zeros (except `0`).
pub open spec fn dec_str_of(n: nat) -> Seq<char>
    decreases n,
{
    if n < 10 {
        seq![digit_char(n)]
    } else {
        dec_str_of(n / 10).push(digit_char(n % 10))
    }
}

/// Canonical decimal text of a signed integer, `-` before the magnitude.
pub open spec fn dec_str_signed(n: int) -> Seq<char> {
    if n < 0 {
        seq!['-'].add(dec_str_of((-n) as nat))
    } else {
        dec_str_of(n as nat)
    }
}

fn push_digit(d: u64, out: &mut String)
    requires
        d < 10,
    ensures
        final(out)@ == old(out)@.push(digit_char(d as nat)),
{
    if d == 0 {
        out.push('0');
    } else if d == 1 {
        out.push('1');
    } else if d == 2 {
        out.push('2');
    } else if d == 3 {
        out.push('3');
    } else if d == 4 {
        out.push('4');
    } else if d == 5 {
        out.push('5');
    } else if d == 6 {
        out.push('6');
    } else if d == 7 {
        out.push('7');
    } else if d == 8 {
        out.push('8');
    } else {
        out.push('9');
    }
}

/// Append the canonical decimal text of `n` to `out`.
pub fn push_u64_text(n: u64, out: &mut String)
    ensures
        final(out)@ == old(out)@ + dec_str_of(n as nat),
    decreases n,
{
    if n >= 10 {
        proof {
            assert(n / 10 < n) by (nonlinear_arith)
                requires
                    n >= 10,
            ;
        }
        push_u64_text(n / 10, out);
        push_digit(n % 10, out);
        proof {
            assert(old(out)@ + dec_str_of(n as nat) =~= (old(out)@ + dec_str_of((n / 10) as nat))
                .push(digit_char((n % 10) as nat)));
        }
    } else {
        push_digit(n, out);
        proof {
            assert(old(out)@ + dec_str_of(n as nat) =~= old(out)@.push(digit_char(n as nat)));
        }
    }
}

/// Append the canonical decimal text of signed `n` to `out`.
pub fn push_i64_text(n: i64, out: &mut String)
    ensures
        final(out)@ == old(out)@ + dec_str_signed(n as int),
{
    if n < 0 {
        out.push('-');
        let mag: u64 = if n == i64::MIN {
            0x8000_0000_0000_0000u64
        } else {
            (-n) as u64
        };
        push_u64_text(mag, out);
        proof {
            assert(old(out)@ + dec_str_signed(n as int) =~= old(out)@.push('-') + dec_str_of(
                mag as nat,
            ));
        }
    } else {
        push_u64_text(n as u64, out);
    }
}

} // verus!
