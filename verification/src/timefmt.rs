use vstd::prelude::*;
use vstd::string::StringExecFns;
use crate::devices::digit_char;
use crate::strutil::string_push_char;

verus! {

/// Two decimal digits, zero-padded, of a value below 100.
pub open spec fn dec2(n: int) -> Seq<char> {
    seq![digit_char(n / 10), digit_char(n % 10)]
}

/// The decimal digits of a nonnegative value, most significant first.
pub open spec fn dec_chars(n: int) -> Seq<char>
    decreases n,
{
    if n < 10 {
        seq![digit_char(n)]
    } else {
        dec_chars(n / 10) + seq![digit_char(n % 10)]
    }
}

/// A value of `d` digits has at least `d` characters.
proof fn lemma_dec_chars_len(n: int)
    requires
        n >= 0,
    ensures
        dec_chars(n).len() >= 1,
        n >= 10 ==> dec_chars(n).len() >= 2,
        n >= 100 ==> dec_chars(n).len() >= 3,
    decreases n,
{
    if n >= 10 {
        lemma_dec_chars_len(n / 10);
    }
}

/// The front of a nanosecond count: its first three decimal digits, however
/// many digits it has beyond them.
pub open spec fn spec_cut_nanosecond(ns: int) -> Seq<char> {
    dec_chars(ns).take(3)
}

/// The reversed digits collected so far, read back as characters.
spec fn rev_digit_chars(v: Seq<u8>) -> Seq<char> {
    Seq::new(v.len(), |i: int| digit_char(v[v.len() - 1 - i] as int))
}

/// Cut a nanosecond count down to its first three decimal digits. Counts
/// below 100 have fewer than three digits and are not accepted.
pub fn cut_nanosecond(nanosecond: u32) -> (r: String)
    requires
        nanosecond >= 100,
    ensures
        r@ == spec_cut_nanosecond(nanosecond as int),
{
    let mut rev: Vec<u8> = Vec::new();
    let mut cur = nanosecond;
    while cur >= 10
        invariant
            dec_chars(nanosecond as int) =~= dec_chars(cur as int) + rev_digit_chars(rev@),
            forall|i: int| 0 <= i < rev@.len() ==> (#[trigger] rev@[i]) < 10,
        decreases cur,
    {
        let d = (cur % 10) as u8;
        proof {
            assert(rev_digit_chars(rev@.push(d)) =~= seq![digit_char(d as int)]
                + rev_digit_chars(rev@));
            assert(dec_chars(cur as int) =~= dec_chars(cur as int / 10) + seq![
                digit_char(cur as int % 10),
            ]);
        }
        rev.push(d);
        cur = cur / 10;
    }
    let d = cur as u8;
    proof {
        assert(rev_digit_chars(rev@.push(d)) =~= seq![digit_char(d as int)] + rev_digit_chars(
            rev@,
        ));
        assert(dec_chars(cur as int) =~= seq![digit_char(cur as int)]);
    }
    rev.push(d);
    proof {
        assert(dec_chars(nanosecond as int) =~= rev_digit_chars(rev@));
        lemma_dec_chars_len(nanosecond as int);
    }
    let len = rev.len();
    let mut s = String::new();
    string_push_char(&mut s, digit_in_char(rev[len - 1]));
    string_push_char(&mut s, digit_in_char(rev[len - 2]));
    string_push_char(&mut s, digit_in_char(rev[len - 3]));
    proof {
        assert(s@ =~= spec_cut_nanosecond(nanosecond as int));
    }
    s
}

/// The character of one decimal digit value.
fn digit_in_char(d: u8) -> (r: char)
    requires
        d < 10,
    ensures
        r == digit_char(d as int),
{
    (48 + d) as char
}

/// One timestamp line prefix: hours, minutes and seconds as two zero-padded
/// decimal digits each, separated by colons, then a dot and the first three
/// digits of the nanosecond count.
pub open spec fn timestamp_chars(hour: int, minute: int, second: int, nanosecond: int) -> Seq<
    char,
> {
    dec2(hour) + seq![':'] + dec2(minute) + seq![':'] + dec2(second) + seq!['.']
        + spec_cut_nanosecond(nanosecond)
}

/// Render a clock reading for display beside a received line.
pub fn timestamp_string(hour: u32, minute: u32, second: u32, nanosecond: u32) -> (r: String)
    requires
        hour < 24,
        minute < 60,
        second < 60,
        nanosecond >= 100,
    ensures
        r@ == timestamp_chars(hour as int, minute as int, second as int, nanosecond as int),
{
    let mut s = String::new();
    string_push_char(&mut s, digit_in_char((hour / 10) as u8));
    string_push_char(&mut s, digit_in_char((hour % 10) as u8));
    string_push_char(&mut s, ':');
    string_push_char(&mut s, digit_in_char((minute / 10) as u8));
    string_push_char(&mut s, digit_in_char((minute % 10) as u8));
    string_push_char(&mut s, ':');
    string_push_char(&mut s, digit_in_char((second / 10) as u8));
    string_push_char(&mut s, digit_in_char((second % 10) as u8));
    string_push_char(&mut s, '.');
    let tail = cut_nanosecond(nanosecond);
    let mut out = s;
    out.append(tail.as_str());
    proof {
        assert(out@ =~= timestamp_chars(
            hour as int,
            minute as int,
            second as int,
            nanosecond as int,
        ));
    }
    out
}

} // verus!
