//! Plain-text building blocks of the renderer: decimal numbers, repeated
//! fill characters and left padding, all over sequences of characters.

use vstd::prelude::*;
use vstd::string::StrSliceExecFns;

verus! {

/// The character of one decimal digit.
pub open spec fn spec_digit(d: int) -> char {
    if d == 0 {
        '0'
    } else if d == 1 {
        '1'
    } else if d == 2 {
        '2'
    } else if d == 3 {
        '3'
    } else if d == 4 {
        '4'
    } else if d == 5 {
        '5'
    } else if d == 6 {
        '6'
    } else if d == 7 {
        '7'
    } else if d == 8 {
        '8'
    } else {
        '9'
    }
}

/// The decimal digits of a nonnegative number, most significant first.
pub open spec fn spec_decimal(n: int) -> Seq<char>
    decreases n,
{
    if n < 10 {
        seq![spec_digit(n)]
    } else {
        spec_decimal(n / 10).push(spec_digit(n % 10))
    }
}

fn digit_char(d: u64) -> (r: char)
    requires
        d < 10,
    ensures
        r == spec_digit(d as int),
{
    match d {
        0 => '0',
        1 => '1',
        2 => '2',
        3 => '3',
        4 => '4',
        5 => '5',
        6 => '6',
        7 => '7',
        8 => '8',
        _ => '9',
    }
}

/// Render `n` in decimal, most significant digit first.
pub fn decimal_chars(n: u64) -> (r: Vec<char>)
    ensures
        r@ == spec_decimal(n as int),
{
    let mut rev: Vec<char> = Vec::new();
    let mut m = n;
    let d = digit_char(m % 10);
    rev.push(d);
    proof {
        assert(rev@.reverse() =~= seq![spec_digit(n as int % 10)]);
    }
    m = m / 10;
    while m > 0
        invariant
            m > 0 ==> spec_decimal(n as int) == spec_decimal(m as int) + rev@.reverse(),
            m == 0 ==> spec_decimal(n as int) == rev@.reverse(),
        decreases m,
    {
        let ghost prev = rev@;
        let d = digit_char(m % 10);
        rev.push(d);
        proof {
            assert(rev@.reverse() =~= seq![spec_digit(m as int % 10)] + prev.reverse());
            if m >= 10 {
                assert(spec_decimal(m as int) + prev.reverse() =~= spec_decimal(m as int / 10) + (
                seq![spec_digit(m as int % 10)] + prev.reverse()));
            }
        }
        m = m / 10;
    }
    let mut out: Vec<char> = Vec::new();
    let mut i = rev.len();
    while i > 0
        invariant
            i <= rev@.len(),
            out@.len() == rev@.len() - i,
            forall|j: int| 0 <= j < out@.len() ==> out@[j] == rev@[rev@.len() - 1 - j],
        decreases i,
    {
        i = i - 1;
        let c = rev[i];
        out.push(c);
    }
    proof {
        assert(out@ =~= rev@.reverse());
    }
    out
}

/// `count` copies of `c`; a nonpositive count gives the empty sequence.
pub open spec fn spec_repeat(c: char, count: int) -> Seq<char> {
    if count <= 0 {
        Seq::empty()
    } else {
        Seq::new(count as nat, |i| c)
    }
}

/// A run of `count` copies of `c`.
pub fn repeat_char(c: char, count: u16) -> (r: Vec<char>)
    ensures
        r@ == spec_repeat(c, count as int),
{
    let mut out: Vec<char> = Vec::new();
    let mut i: u16 = 0;
    while i < count
        invariant
            i <= count,
            out@ =~= spec_repeat(c, i as int),
        decreases count - i,
    {
        out.push(c);
        i = i + 1;
        proof {
            assert(out@ =~= spec_repeat(c, i as int));
        }
    }
    out
}

/// `s` right-justified in a field of `width`: space-padded on the left and
/// never truncated.
pub open spec fn spec_pad_left(s: Seq<char>, width: int) -> Seq<char> {
    spec_repeat(' ', width - s.len()) + s
}

/// Append a copy of every character of `src` to `dst`.
pub fn push_all(dst: &mut Vec<char>, src: &[char])
    ensures
        final(dst)@ == old(dst)@ + src@,
{
    let mut i: usize = 0;
    while i < src.len()
        invariant
            i <= src@.len(),
            dst@ == old(dst)@ + src@.subrange(0, i as int),
        decreases src@.len() - i,
    {
        let c = src[i];
        dst.push(c);
        i = i + 1;
        proof {
            assert(old(dst)@ + src@.subrange(0, i as int) =~= (old(dst)@ + src@.subrange(
                0,
                i as int - 1,
            )).push(src@[i as int - 1]));
        }
    }
    proof {
        assert(src@.subrange(0, src@.len() as int) =~= src@);
    }
}

/// The characters of a string slice, in order.
pub fn chars_vec(s: &str) -> (r: Vec<char>)
    ensures
        r@ == s@,
{
    let n = s.unicode_len();
    let mut out: Vec<char> = Vec::new();
    let mut i: usize = 0;
    while i < n
        invariant
            i <= n,
            n as nat == s@.len(),
            out@ =~= s@.subrange(0, i as int),
        decreases n - i,
    {
        let c = s.get_char(i);
        out.push(c);
        i = i + 1;
        proof {
            assert(out@ =~= s@.subrange(0, i as int));
        }
    }
    proof {
        assert(out@ =~= s@);
    }
    out
}

/// The first `k` characters of `v`.
pub fn take_chars(v: &[char], k: usize) -> (r: Vec<char>)
    requires
        k <= v@.len(),
    ensures
        r@ == v@.subrange(0, k as int),
{
    let mut out: Vec<char> = Vec::new();
    let mut i: usize = 0;
    while i < k
        invariant
            i <= k <= v@.len(),
            out@ =~= v@.subrange(0, i as int),
        decreases k - i,
    {
        let c = v[i];
        out.push(c);
        i = i + 1;
        proof {
            assert(out@ =~= v@.subrange(0, i as int));
        }
    }
    out
}

/// All but the first `k` characters of `v`.
pub fn skip_chars(v: &[char], k: usize) -> (r: Vec<char>)
    requires
        k <= v@.len(),
    ensures
        r@ == v@.subrange(k as int, v@.len() as int),
{
    let mut out: Vec<char> = Vec::new();
    let mut i: usize = k;
    while i < v.len()
        invariant
            k <= i <= v@.len(),
            out@ =~= v@.subrange(k as int, i as int),
        decreases v@.len() - i,
    {
        let c = v[i];
        out.push(c);
        i = i + 1;
        proof {
            assert(out@ =~= v@.subrange(k as int, i as int));
        }
    }
    out
}

/// `v` right-justified in a field of `width`.
pub fn pad_left(v: &[char], width: u16) -> (r: Vec<char>)
    ensures
        r@ == spec_pad_left(v@, width as int),
{
    let pad_len: u16 = if (v.len() as u64) < (width as u64) {
        width - (v.len() as u16)
    } else {
        0
    };
    let mut out = repeat_char(' ', pad_len);
    push_all(&mut out, v);
    out
}

} // verus!
