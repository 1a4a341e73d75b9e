//! Durations written in source text (`250ms`, `2s`, `40us`, `100ns`, or a
//! bare number of milliseconds), read as whole milliseconds.

use vstd::prelude::*;

verus! {

/// `c` is white space: a character with the Unicode `White_Space` property.
pub open spec fn is_space(c: char) -> bool {
    let n = c as u32;
    ||| 9 <= n <= 13
    ||| n == 32
    ||| n == 0x85
    ||| n == 0xa0
    ||| n == 0x1680
    ||| 0x2000 <= n <= 0x200a
    ||| n == 0x2028
    ||| n == 0x2029
    ||| n == 0x202f
    ||| n == 0x205f
    ||| n == 0x3000
}

fn space_char(c: char) -> (b: bool)
    ensures
        b == is_space(c),
{
    let n = c as u32;
    (9 <= n && n <= 13) || n == 32 || n == 0x85 || n == 0xa0 || n == 0x1680 || (0x2000 <= n && n <= 0x200a)
        || n == 0x2028 || n == 0x2029 || n == 0x202f || n == 0x205f || n == 0x3000
}

/// `s` without its leading white space.
pub open spec fn trim_start(s: Seq<char>) -> Seq<char>
    decreases s.len(),
{
    if s.len() > 0 && is_space(s[0]) {
        trim_start(s.drop_first())
    } else {
        s
    }
}

/// `s` without its trailing white space.
pub open spec fn trim_end(s: Seq<char>) -> Seq<char>
    decreases s.len(),
{
    if s.len() > 0 && is_space(s.last()) {
        trim_end(s.drop_last())
    } else {
        s
    }
}

/// `s` ends with `t`.
pub open spec fn ends_with(s: Seq<char>, t: Seq<char>) -> bool {
    t.len() <= s.len() && s.subrange(s.len() - t.len(), s.len() as int) == t
}

/// `s` with every trailing repetition of the non-empty `t` removed.
pub open spec fn strip_suffixes(s: Seq<char>, t: Seq<char>) -> Seq<char>
    decreases s.len(),
{
    if t.len() > 0 && ends_with(s, t) {
        strip_suffixes(s.subrange(0, s.len() - t.len()), t)
    } else {
        s
    }
}

pub open spec fn is_digit(c: char) -> bool {
    '0' <= c && c <= '9'
}

/// The number that the decimal digits `s` write.
pub open spec fn digits_value(s: Seq<char>) -> nat
    decreases s.len(),
{
    if s.len() == 0 {
        0
    } else {
        digits_value(s.drop_last()) * 10 + ((s.last() as u32) - 48) as nat
    }
}

/// `s` without a leading `+`.
pub open spec fn unsigned_part(s: Seq<char>) -> Seq<char> {
    if s.len() > 0 && s[0] == '+' { s.drop_first() } else { s }
}

/// Every character of `t` is a decimal digit.
pub open spec fn all_digits(t: Seq<char>) -> bool {
    forall|i: int| 0 <= i < t.len() ==> #[trigger] is_digit(t[i])
}

/// What reading `s` as a `u64` gives: an optional `+`, then one or more
/// decimal digits whose value fits.
pub open spec fn parsed_u64(s: Seq<char>) -> Option<u64> {
    let t = unsigned_part(s);
    if t.len() > 0 && all_digits(t) && digits_value(t) <= u64::MAX {
        Some(digits_value(t) as u64)
    } else {
        None
    }
}

pub open spec fn or_zero(o: Option<u64>) -> nat {
    match o {
        Some(v) => v as nat,
        None => 0,
    }
}

/// The milliseconds that duration text `text` writes, with white space
/// round it ignored: nanoseconds (`ns`) and microseconds (`us`) rounded
/// down, milliseconds (`ms`), seconds (`s`), or a bare number of
/// milliseconds; 0 where the number cannot be read.
pub open spec fn duration_ms(text: Seq<char>) -> nat {
    let t = trim_end(trim_start(text));
    if ends_with(t, seq!['n', 's']) {
        or_zero(parsed_u64(strip_suffixes(t, seq!['n', 's']))) / 1_000_000
    } else if ends_with(t, seq!['u', 's']) {
        or_zero(parsed_u64(strip_suffixes(t, seq!['u', 's']))) / 1000
    } else if ends_with(t, seq!['m', 's']) {
        or_zero(parsed_u64(strip_suffixes(t, seq!['m', 's'])))
    } else if ends_with(t, seq!['s']) {
        or_zero(parsed_u64(strip_suffixes(t, seq!['s']))) * 1000
    } else {
        or_zero(parsed_u64(t))
    }
}

proof fn lemma_digits_prefix(s: Seq<char>, k: int)
    requires
        0 <= k <= s.len(),
    ensures
        digits_value(s.take(k)) <= digits_value(s),
    decreases s.len() - k,
{
    if k < s.len() {
        lemma_digits_prefix(s, k + 1);
        assert(s.take(k + 1).drop_last() =~= s.take(k));
    } else {
        assert(s.take(k) =~= s);
    }
}

/// Reads `v[from..to]` as a `u64`.
fn parse_u64_range(v: &Vec<char>, from: usize, to: usize) -> (r: Option<u64>)
    requires
        from <= to <= v@.len(),
    ensures
        r == parsed_u64(v@.subrange(from as int, to as int)),
{
    let ghost s = v@.subrange(from as int, to as int);
    let plus = from < to && v[from] == '+';
    let mut i = if plus { from + 1 } else { from };
    let ghost t = v@.subrange(i as int, to as int);
    proof {
        if from < to {
            assert(s[0] == v@[from as int]);
        }
        assert(plus == (s.len() > 0 && s[0] == '+'));
        if plus {
            assert(t =~= s.drop_first());
        } else {
            assert(t =~= s);
        }
    }
    if i == to {
        return None;
    }
    let start = i;
    let mut acc: u64 = 0;
    while i < to
        invariant
            from <= start <= i <= to <= v@.len(),
            t == v@.subrange(start as int, to as int),
            s == v@.subrange(from as int, to as int),
            t == unsigned_part(s),
            t.len() > 0,
            forall|q: int| 0 <= q < i - start ==> #[trigger] is_digit(t[q]),
            acc == digits_value(t.take(i - start)),
        decreases to - i,
    {
        let c = v[i];
        if !('0' <= c && c <= '9') {
            proof {
                assert(!is_digit(t[i - start]));
                assert(!all_digits(t));
                assert(parsed_u64(s) is None);
            }
            return None;
        }
        let d = (c as u32 - 48) as u64;
        proof {
            assert(t.take(i - start + 1).drop_last() =~= t.take(i - start));
            assert(t.take(i - start + 1).last() == c);
            assert(t[i - start] == c);
            assert(digits_value(t.take(i - start + 1)) == acc * 10 + d);
            lemma_digits_prefix(t, i - start + 1);
        }
        match acc.checked_mul(10) {
            Some(x) => match x.checked_add(d) {
                Some(y) => {
                    acc = y;
                },
                None => {
                    proof {
                        lemma_digits_prefix(t, i - start + 1);
                    }
                    return None;
                },
            },
            None => {
                proof {
                    lemma_digits_prefix(t, i - start + 1);
                }
                return None;
            },
        }
        i = i + 1;
    }
    assert(t.take(t.len() as int) =~= t);
    Some(acc)
}

/// Whether `v[..end]` ends with `t`.
fn ends_with_range(v: &Vec<char>, end: usize, t: &Vec<char>) -> (r: bool)
    requires
        end <= v@.len(),
    ensures
        r == ends_with(v@.subrange(0, end as int), t@),
{
    let ghost s = v@.subrange(0, end as int);
    if t.len() > end {
        return false;
    }
    let off = end - t.len();
    let mut k: usize = 0;
    while k < t.len()
        invariant
            s == v@.subrange(0, end as int),
            off + t@.len() == end,
            end <= v@.len(),
            k <= t@.len(),
            forall|q: int| 0 <= q < k ==> v@[off + q] == t@[q],
        decreases t@.len() - k,
    {
        if v[off + k] != t[k] {
            assert(s.subrange(s.len() - t@.len(), s.len() as int)[k as int] == v@[off + k]);
            return false;
        }
        k = k + 1;
    }
    assert(s.subrange(s.len() - t@.len(), s.len() as int) =~= t@);
    true
}

/// The end of `v[..end]` once every trailing repetition of `t` is removed.
fn strip_end(v: &Vec<char>, end: usize, t: &Vec<char>) -> (e: usize)
    requires
        end <= v@.len(),
        t@.len() > 0,
    ensures
        e <= end,
        v@.subrange(0, e as int) == strip_suffixes(v@.subrange(0, end as int), t@),
{
    let mut e = end;
    while ends_with_range(v, e, t)
        invariant
            e <= end <= v@.len(),
            t@.len() > 0,
            strip_suffixes(v@.subrange(0, end as int), t@) == strip_suffixes(v@.subrange(0, e as int), t@),
        decreases e,
    {
        proof {
            assert(v@.subrange(0, e as int).subrange(0, e - t@.len()) =~= v@.subrange(0, e - t@.len()));
        }
        e = e - t.len();
    }
    e
}

fn chars2(a: char, b: char) -> (v: Vec<char>)
    ensures
        v@ == seq![a, b],
{
    let mut v: Vec<char> = Vec::new();
    v.push(a);
    v.push(b);
    assert(v@ =~= seq![a, b]);
    v
}

/// A number of seconds in `text` (see `duration_ms`) has its milliseconds
/// fit in a `u64`; text in the other units always fits.
pub open spec fn duration_fits(text: Seq<char>) -> bool {
    let t = trim_end(trim_start(text));
    !ends_with(t, seq!['n', 's']) && !ends_with(t, seq!['u', 's']) && !ends_with(t, seq!['m', 's']) && ends_with(t, seq!['s'])
        ==> or_zero(parsed_u64(strip_suffixes(t, seq!['s']))) * 1000 <= u64::MAX
}

/// Reads a duration as whole milliseconds (see `duration_ms`). A number of
/// seconds whose milliseconds do not fit in a `u64` is not accepted.
pub fn parse_duration_to_ms(str_val: &str) -> (ms: u64)
    requires
        duration_fits(str_val@),
    ensures
        ms == duration_ms(str_val@),
{
    let ghost s = str_val@;
    let n = str_val.unicode_len();
    let mut a: usize = 0;
    assert(s.subrange(0, n as int) =~= s);
    while a < n && space_char(str_val.get_char(a))
        invariant
            s == str_val@,
            n == s.len(),
            a <= n,
            trim_start(s) == trim_start(s.subrange(a as int, n as int)),
        decreases n - a,
    {
        proof {
            assert(s.subrange(a as int, n as int).drop_first() =~= s.subrange(a + 1, n as int));
        }
        a = a + 1;
    }
    proof {
        let u = s.subrange(a as int, n as int);
        if a < n {
            assert(u[0] == s[a as int]);
        }
        assert(trim_start(u) == u);
    }
    let mut b: usize = n;
    while b > a && space_char(str_val.get_char(b - 1))
        invariant
            s == str_val@,
            n == s.len(),
            a <= b <= n,
            trim_end(trim_start(s)) == trim_end(s.subrange(a as int, b as int)),
        decreases b,
    {
        proof {
            assert(s.subrange(a as int, b as int).drop_last() =~= s.subrange(a as int, b - 1));
            assert(s.subrange(a as int, b as int).last() == s[b - 1]);
        }
        b = b - 1;
    }
    proof {
        let u = s.subrange(a as int, b as int);
        if a < b {
            assert(u.last() == s[b - 1]);
        }
        assert(trim_end(u) == u);
    }
    let mut v: Vec<char> = Vec::new();
    let mut i = a;
    while i < b
        invariant
            s == str_val@,
            n == s.len(),
            a <= i <= b <= n,
            v@ == s.subrange(a as int, i as int),
        decreases b - i,
    {
        v.push(str_val.get_char(i));
        i = i + 1;
        assert(v@ =~= s.subrange(a as int, i as int));
    }
    let ghost t = v@;
    assert(t == trim_end(trim_start(s)));
    let len = v.len();
    assert(v@.subrange(0, len as int) =~= t);
    let ns = chars2('n', 's');
    let us = chars2('u', 's');
    let ms = chars2('m', 's');
    let mut sec: Vec<char> = Vec::new();
    sec.push('s');
    assert(sec@ =~= seq!['s']);
    if ends_with_range(&v, len, &ns) {
        let e = strip_end(&v, len, &ns);
        match parse_u64_range(&v, 0, e) {
            Some(x) => x / 1_000_000,
            None => 0,
        }
    } else if ends_with_range(&v, len, &us) {
        let e = strip_end(&v, len, &us);
        match parse_u64_range(&v, 0, e) {
            Some(x) => x / 1000,
            None => 0,
        }
    } else if ends_with_range(&v, len, &ms) {
        let e = strip_end(&v, len, &ms);
        match parse_u64_range(&v, 0, e) {
            Some(x) => x,
            None => 0,
        }
    } else if ends_with_range(&v, len, &sec) {
        let e = strip_end(&v, len, &sec);
        match parse_u64_range(&v, 0, e) {
            Some(x) => x * 1000,
            None => 0,
        }
    } else {
        match parse_u64_range(&v, 0, len) {
            Some(x) => x,
            None => 0,
        }
    }
}

} // verus!
