//! Names of chunk save files: `"{x}_{y}_{z}.cff"` with the chunk location's
//! coordinates in decimal.
use vstd::prelude::*;
use crate::geometry::ChunkLocation;

verus! {

/// The character of decimal digit `d`.
pub open spec fn digit_char(d: int) -> char {
    ((48 + d) as u32) as char
}

/// Whether `c` is an ASCII decimal digit.
pub open spec fn is_digit(c: char) -> bool {
    48 <= (c as int) <= 57
}

/// The decimal digits of `n`, most significant first, without leading zeros.
pub open spec fn decimal(n: nat) -> Seq<char>
    decreases n,
{
    if n < 10 {
        seq![digit_char(n as int)]
    } else {
        decimal(n / 10).push(digit_char((n % 10) as int))
    }
}

/// `v` written in decimal, with a `-` in front when negative: what
/// `format!("{}", v)` writes for an `i32`.
pub open spec fn fmt_i32(v: i32) -> Seq<char> {
    if v < 0 {
        seq!['-'] + decimal((-(v as int)) as nat)
    } else {
        decimal(v as nat)
    }
}

/// The extension of save files, after the dot.
pub open spec fn save_extension() -> Seq<char> {
    seq!['c', 'f', 'f']
}

/// The name of the save file of the chunk at `l`.
pub open spec fn file_name_of(l: ChunkLocation) -> Seq<char> {
    fmt_i32(l.x) + seq!['_'] + fmt_i32(l.y) + seq!['_'] + fmt_i32(l.z) + seq!['.'] + save_extension()
}

/// The value of a string of decimal digits.
pub open spec fn digits_value(s: Seq<char>) -> nat
    decreases s.len(),
{
    if s.len() == 0 {
        0
    } else {
        digits_value(s.drop_last()) * 10 + ((s.last() as int) - 48) as nat
    }
}

/// Whether every character of `s` is a decimal digit.
pub open spec fn all_digits(s: Seq<char>) -> bool {
    forall|i: int| 0 <= i < s.len() ==> is_digit(#[trigger] s[i])
}

/// The `i32` that `s` writes, as `str::parse::<i32>` reads it: an optional
/// `+` or `-` followed by at least one decimal digit, within the range of `i32`.
pub open spec fn parse_i32(s: Seq<char>) -> Option<i32> {
    if s.len() == 0 {
        None
    } else {
        let neg = s[0] == '-';
        let digits = if s[0] == '-' || s[0] == '+' {
            s.drop_first()
        } else {
            s
        };
        let v: int = if neg {
            -(digits_value(digits) as int)
        } else {
            digits_value(digits) as int
        };
        if digits.len() == 0 || !all_digits(digits) || v < i32::MIN || v > i32::MAX {
            None
        } else {
            Some(v as i32)
        }
    }
}

/// The pieces of `s` between underscores, as `str::split('_')` yields them.
pub open spec fn split_underscores(s: Seq<char>) -> Seq<Seq<char>>
    decreases s.len(),
{
    if s.len() == 0 {
        seq![Seq::empty()]
    } else {
        let prev = split_underscores(s.drop_last());
        if s.last() == '_' {
            prev.push(Seq::empty())
        } else {
            prev.update(prev.len() - 1, prev.last().push(s.last()))
        }
    }
}

/// Index of the last `.` in `s`, or `-1`.
pub open spec fn last_dot(s: Seq<char>) -> int
    decreases s.len(),
{
    if s.len() == 0 {
        -1
    } else if s.last() == '.' {
        s.len() - 1
    } else {
        last_dot(s.drop_last())
    }
}

/// The chunk location a save file name stands for: the name must have the
/// extension `cff`, and its stem must be three `i32`s separated by
/// underscores.
pub open spec fn parse_file_name(name: Seq<char>) -> Option<ChunkLocation> {
    let d = last_dot(name);
    if d <= 0 || name.subrange(d + 1, name.len() as int) != save_extension() {
        None
    } else {
        let parts = split_underscores(name.subrange(0, d));
        if parts.len() != 3 {
            None
        } else {
            match (parse_i32(parts[0]), parse_i32(parts[1]), parse_i32(parts[2])) {
                (Some(x), Some(y), Some(z)) => Some(ChunkLocation { x, y, z }),
                _ => None,
            }
        }
    }
}

/// The characters of `s`.
pub(crate) fn chars_of(s: &str) -> (r: Vec<char>)
    ensures
        r@ == s@,
{
    let n = s.unicode_len();
    let mut out: Vec<char> = Vec::new();
    let mut i: usize = 0;
    while i < n
        invariant
            n == s@.len(),
            i <= n,
            out@ == s@.subrange(0, i as int),
        decreases n - i,
    {
        out.push(s.get_char(i));
        proof {
            assert(out@ =~= s@.subrange(0, i + 1));
        }
        i = i + 1;
    }
    assert(out@ =~= s@);
    out
}

/// `String::from_iter`: the string of the characters of `v`.
#[verifier::external_body]
pub(crate) fn string_of(v: &Vec<char>) -> (r: String)
    ensures
        r@ == v@,
{
    v.iter().collect()
}

/// The character of decimal digit `d`.
fn digit_to_char(d: u64) -> (c: char)
    requires
        d < 10,
    ensures
        c == digit_char(d as int),
{
    let c = match d {
        0 => '0',
        1 => '1',
        2 => '2',
        3 => '3',
        4 => '4',
        5 => '5',
        6 => '6',
        7 => '7',
        8 => '8',
        _ => '9',
    };
    assert(c == digit_char(d as int)) by {
        assert(('0' as int) == 48);
        assert(('9' as int) == 57);
    }
    c
}

/// The value of decimal digit `c`, if it is one.
fn digit_value(c: char) -> (r: Option<u64>)
    ensures
        r is Some <==> is_digit(c),
        r matches Some(d) ==> d == (c as int) - 48,
{
    assert(('0' as int) == 48 && ('1' as int) == 49 && ('2' as int) == 50 && ('3' as int) == 51);
    assert(('4' as int) == 52 && ('5' as int) == 53 && ('6' as int) == 54 && ('7' as int) == 55);
    assert(('8' as int) == 56 && ('9' as int) == 57);
    match c {
        '0' => Some(0),
        '1' => Some(1),
        '2' => Some(2),
        '3' => Some(3),
        '4' => Some(4),
        '5' => Some(5),
        '6' => Some(6),
        '7' => Some(7),
        '8' => Some(8),
        '9' => Some(9),
        _ => None,
    }
}

/// Appends the decimal digits of `n`.
fn push_decimal(out: &mut Vec<char>, n: u64)
    ensures
        final(out)@ == old(out)@ + decimal(n as nat),
    decreases n,
{
    if n >= 10 {
        push_decimal(out, n / 10);
    }
    out.push(digit_to_char(n % 10));
    proof {
        if n >= 10 {
            assert(old(out)@ + decimal(n as nat) =~= old(out)@ + decimal((n / 10) as nat) + seq![
                digit_char((n % 10) as int),
            ]);
        } else {
            assert(old(out)@ + decimal(n as nat) =~= old(out)@ + seq![digit_char(n as int)]);
        }
    }
}

/// Appends `v` in decimal.
fn push_i32(out: &mut Vec<char>, v: i32)
    ensures
        final(out)@ == old(out)@ + fmt_i32(v),
{
    if v < 0 {
        out.push('-');
        let m: u64 = (-(v as i64)) as u64;
        push_decimal(out, m);
        assert(out@ =~= old(out)@ + fmt_i32(v));
    } else {
        push_decimal(out, v as u64);
    }
}

/// The name of the save file of the chunk at `loc`.
pub fn loc_to_file_name(loc: &ChunkLocation) -> (r: String)
    ensures
        r@ == file_name_of(*loc),
{
    let mut v: Vec<char> = Vec::new();
    push_i32(&mut v, loc.x);
    v.push('_');
    push_i32(&mut v, loc.y);
    v.push('_');
    push_i32(&mut v, loc.z);
    v.push('.');
    v.push('c');
    v.push('f');
    v.push('f');
    assert(v@ =~= file_name_of(*loc));
    string_of(&v)
}

/// The limit at which digit values stop growing while being read.
pub open spec fn value_cap() -> int {
    2147483649
}

/// Reads an `i32` from `s` as `str::parse::<i32>` does.
fn parse_i32_chars(s: &[char]) -> (r: Option<i32>)
    ensures
        r == parse_i32(s@),
{
    if s.len() == 0 {
        return None;
    }
    let neg = s[0] == '-';
    let start: usize = if s[0] == '-' || s[0] == '+' {
        1
    } else {
        0
    };
    let ghost digits = if s@[0] == '-' || s@[0] == '+' {
        s@.drop_first()
    } else {
        s@
    };
    assert(digits =~= s@.subrange(start as int, s@.len() as int));
    if start == s.len() {
        return None;
    }
    let mut acc: u64 = 0;
    let mut i: usize = start;
    while i < s.len()
        invariant
            start <= i <= s@.len(),
            s@.len() > 0,
            neg == (s@[0] == '-'),
            digits == (if s@[0] == '-' || s@[0] == '+' { s@.drop_first() } else { s@ }),
            digits == s@.subrange(start as int, s@.len() as int),
            all_digits(s@.subrange(start as int, i as int)),
            acc as int == if digits_value(s@.subrange(start as int, i as int)) < value_cap() {
                digits_value(s@.subrange(start as int, i as int)) as int
            } else {
                value_cap()
            },
        decreases s@.len() - i,
    {
        let c = s[i];
        let dv = match digit_value(c) {
            Some(dv) => dv,
            None => {
                assert(!all_digits(digits)) by {
                    assert(digits[i - start] == c);
                }
                return None;
            },
        };
        let next = acc * 10 + dv;
        proof {
            let pre = s@.subrange(start as int, i as int);
            let post = s@.subrange(start as int, i + 1);
            assert(post.drop_last() =~= pre);
            assert(post.last() == c);
            assert(all_digits(post)) by {
                assert forall|j: int| 0 <= j < post.len() implies is_digit(#[trigger] post[j]) by {
                    if j < pre.len() {
                        assert(post[j] == pre[j]);
                    }
                }
            }
        }
        acc = if next < 2147483649 {
            next
        } else {
            2147483649
        };
        i = i + 1;
    }
    assert(s@.subrange(start as int, s@.len() as int) =~= digits);
    if neg {
        if acc <= 2147483648 {
            let v: i64 = -(acc as i64);
            Some(v as i32)
        } else {
            None
        }
    } else {
        if acc <= 2147483647 {
            Some(acc as i32)
        } else {
            None
        }
    }
}

/// Splits `s` at its underscores, as `str::split('_')` does.
fn split_at_underscores(s: &Vec<char>) -> (r: Vec<Vec<char>>)
    ensures
        r@.len() == split_underscores(s@).len(),
        forall|j: int| 0 <= j < r@.len() ==> (#[trigger] r@[j])@ == split_underscores(s@)[j],
{
    let mut parts: Vec<Vec<char>> = Vec::new();
    parts.push(Vec::new());
    let mut i: usize = 0;
    proof {
        assert(s@.take(0) =~= Seq::<char>::empty());
    }
    while i < s.len()
        invariant
            i <= s@.len(),
            parts@.len() == split_underscores(s@.take(i as int)).len(),
            parts@.len() >= 1,
            forall|j: int| 0 <= j < parts@.len() ==> (#[trigger] parts@[j])@ == split_underscores(s@.take(i as int))[j],
        decreases s@.len() - i,
    {
        let c = s[i];
        let ghost before = split_underscores(s@.take(i as int));
        proof {
            assert(s@.take(i + 1).drop_last() =~= s@.take(i as int));
            assert(s@.take(i + 1).last() == c);
        }
        if c == '_' {
            parts.push(Vec::new());
        } else {
            let n = parts.len();
            let mut last = parts.pop().unwrap();
            last.push(c);
            parts.push(last);
            proof {
                assert(parts@[n - 1]@ == before[n - 1].push(c));
            }
        }
        proof {
            let after = split_underscores(s@.take(i + 1));
            assert forall|j: int| 0 <= j < parts@.len() implies (#[trigger] parts@[j])@ == after[j] by {}
        }
        i = i + 1;
    }
    proof {
        assert(s@.take(s@.len() as int) =~= s@);
    }
    parts
}

/// The chunk location a save file name stands for, if it names one.
pub fn parse_chunk_file_name(name: &str) -> (r: Option<ChunkLocation>)
    ensures
        r == parse_file_name(name@),
{
    let chars = chars_of(name);
    let n = chars.len();
    let mut d: usize = n;
    let mut found = false;
    assert(chars@.take(n as int) =~= chars@);
    while d > 0 && !found
        invariant
            d <= n,
            n == chars@.len(),
            found ==> d < n && chars@[d as int] == '.' && last_dot(chars@) == d,
            !found ==> last_dot(chars@) == last_dot(chars@.take(d as int)),
        decreases d + (if found { 0int } else { 1int }),
    {
        if chars[d - 1] == '.' {
            proof {
                assert(chars@.take(d as int).last() == '.');
            }
            d = d - 1;
            found = true;
        } else {
            proof {
                assert(chars@.take(d as int).drop_last() =~= chars@.take(d - 1));
            }
            d = d - 1;
        }
    }
    if !found {
        proof {
            assert(chars@.take(0) =~= Seq::<char>::empty());
        }
        return None;
    }
    if d == 0 {
        return None;
    }
    if n - d != 4 || chars[d + 1] != 'c' || chars[d + 2] != 'f' || chars[d + 3] != 'f' {
        proof {
            if n - d == 4 {
                assert(chars@.subrange(d + 1, n as int) != save_extension()) by {
                    let e = chars@.subrange(d + 1, n as int);
                    assert(e[0] == chars@[d + 1]);
                    assert(e[1] == chars@[d + 2]);
                    assert(e[2] == chars@[d + 3]);
                }
            } else {
                assert(chars@.subrange(d + 1, n as int).len() != 3);
            }
        }
        return None;
    }
    assert(chars@.subrange(d + 1, n as int) =~= save_extension());
    let mut stem: Vec<char> = Vec::new();
    let mut i: usize = 0;
    while i < d
        invariant
            i <= d,
            d < n,
            n == chars@.len(),
            stem@ == chars@.subrange(0, i as int),
        decreases d - i,
    {
        stem.push(chars[i]);
        proof {
            assert(chars@.subrange(0, i + 1) =~= chars@.subrange(0, i as int).push(chars@[i as int]));
        }
        i = i + 1;
    }
    let parts = split_at_underscores(&stem);
    if parts.len() != 3 {
        return None;
    }
    let x = parse_i32_chars(parts[0].as_slice());
    let y = parse_i32_chars(parts[1].as_slice());
    let z = parse_i32_chars(parts[2].as_slice());
    match (x, y, z) {
        (Some(x), Some(y), Some(z)) => Some(ChunkLocation { x, y, z }),
        _ => None,
    }
}

/// The chunk location of a save file found in the save directory. A name
/// that reads as a location must be the name written for that location.
pub fn file_name_to_loc(name: &str) -> (r: Option<ChunkLocation>)
    requires
        parse_file_name(name@) matches Some(l) ==> file_name_of(l) == name@,
    ensures
        r == parse_file_name(name@),
        r matches Some(l) ==> file_name_of(l) == name@,
{
    parse_chunk_file_name(name)
}

/// The decimal digits of `n` are digits, at least one, and read back as `n`.
pub proof fn lemma_decimal(n: nat)
    ensures
        decimal(n).len() >= 1,
        all_digits(decimal(n)),
        digits_value(decimal(n)) == n,
    decreases n,
{
    let d = (n % 10) as int;
    assert(digit_char(d) as int == 48 + d);
    if n >= 10 {
        lemma_decimal(n / 10);
        let p = decimal(n / 10);
        let s = decimal(n);
        assert(s == p.push(digit_char(d)));
        assert(s.drop_last() =~= p);
        assert(s.last() == digit_char(d));
        assert(n == (n / 10) * 10 + d);
        assert(digits_value(s) == digits_value(p) * 10 + d);
        assert forall|i: int| 0 <= i < s.len() implies is_digit(#[trigger] s[i]) by {
            if i < p.len() {
                assert(s[i] == p[i]);
            }
        }
    } else {
        let s = decimal(n);
        assert(s.drop_last() =~= Seq::<char>::empty());
        assert(s.last() == digit_char(d));
        assert(digits_value(s.drop_last()) == 0);
        assert(digits_value(s) == d);
    }
}

/// Reading an `i32` written in decimal gives it back.
pub proof fn lemma_parse_fmt(v: i32)
    ensures
        parse_i32(fmt_i32(v)) == Some(v),
        fmt_i32(v).len() >= 1,
        forall|i: int| 0 <= i < fmt_i32(v).len() ==> #[trigger] fmt_i32(v)[i] != '_' && fmt_i32(v)[i] != '.',
{
    let s = fmt_i32(v);
    if v < 0 {
        let m = (-(v as int)) as nat;
        lemma_decimal(m);
        assert(s.drop_first() =~= decimal(m));
        assert(s[0] == '-');
        assert forall|i: int| 0 <= i < s.len() implies #[trigger] s[i] != '_' && s[i] != '.' by {
            if i > 0 {
                assert(s[i] == decimal(m)[i - 1]);
                assert(is_digit(decimal(m)[i - 1]));
            }
        }
    } else {
        lemma_decimal(v as nat);
        assert(is_digit(s[0]));
        assert forall|i: int| 0 <= i < s.len() implies #[trigger] s[i] != '_' && s[i] != '.' by {
            assert(is_digit(s[i]));
        }
    }
}

/// Splitting always yields at least one piece.
pub proof fn lemma_split_nonempty(s: Seq<char>)
    ensures
        split_underscores(s).len() >= 1,
    decreases s.len(),
{
    if s.len() > 0 {
        lemma_split_nonempty(s.drop_last());
    }
}

/// Appending text without underscores extends the last piece.
pub proof fn lemma_split_append(s: Seq<char>, t: Seq<char>)
    requires
        forall|i: int| 0 <= i < t.len() ==> #[trigger] t[i] != '_',
    ensures
        split_underscores(s + t) == split_underscores(s).update(
            split_underscores(s).len() - 1,
            split_underscores(s).last() + t,
        ),
    decreases t.len(),
{
    lemma_split_nonempty(s);
    if t.len() == 0 {
        assert(s + t =~= s);
        assert(split_underscores(s).last() + t =~= split_underscores(s).last());
        assert(split_underscores(s).update(split_underscores(s).len() - 1, split_underscores(s).last())
            =~= split_underscores(s));
    } else {
        let t1 = t.drop_last();
        assert forall|i: int| 0 <= i < t1.len() implies #[trigger] t1[i] != '_' by {
            assert(t1[i] == t[i]);
        }
        lemma_split_append(s, t1);
        assert((s + t).drop_last() =~= s + t1);
        assert((s + t).last() == t.last());
        assert(t.last() == t[t.len() - 1]);
        assert(t.last() != '_');
        let prev = split_underscores(s + t1);
        let base = split_underscores(s);
        assert(prev.len() == base.len());
        assert(prev.last() == base.last() + t1);
        assert(split_underscores(s + t) == prev.update(prev.len() - 1, prev.last().push(t.last())));
        let x = (base.last() + t1).push(t.last());
        assert(x =~= base.last() + t);
        assert(prev.update(prev.len() - 1, x) =~= base.update(base.len() - 1, x));
        assert(split_underscores(s).last() + t1 + seq![t.last()] =~= split_underscores(s).last() + t);
        assert(split_underscores(s + t) =~= split_underscores(s).update(
            split_underscores(s).len() - 1,
            split_underscores(s).last() + t,
        ));
    }
}

/// Three pieces without underscores, joined by underscores, split back into
/// the three pieces.
pub proof fn lemma_split_three(a: Seq<char>, b: Seq<char>, c: Seq<char>)
    requires
        forall|i: int| 0 <= i < a.len() ==> #[trigger] a[i] != '_',
        forall|i: int| 0 <= i < b.len() ==> #[trigger] b[i] != '_',
        forall|i: int| 0 <= i < c.len() ==> #[trigger] c[i] != '_',
    ensures
        split_underscores(a + seq!['_'] + b + seq!['_'] + c) == seq![a, b, c],
{
    let e = Seq::<char>::empty();
    lemma_split_append(e, a);
    assert(e + a =~= a);
    assert(split_underscores(e) == seq![e]);
    assert(split_underscores(a) =~= seq![a]) by {
        assert(e + a =~= a);
    }
    let a1 = a + seq!['_'];
    assert(a1.drop_last() =~= a);
    assert(split_underscores(a1) =~= seq![a, e]);
    lemma_split_append(a1, b);
    assert(split_underscores(a1 + b) =~= seq![a, b]) by {
        assert(e + b =~= b);
    }
    let b1 = a1 + b + seq!['_'];
    assert(b1.drop_last() =~= a1 + b);
    assert(split_underscores(b1) =~= seq![a, b, e]);
    lemma_split_append(b1, c);
    assert(split_underscores(b1 + c) =~= seq![a, b, c]) by {
        assert(e + c =~= c);
    }
    assert(a + seq!['_'] + b + seq!['_'] + c =~= b1 + c);
}

/// The name written for a chunk location reads back as that location.
pub proof fn lemma_file_name_round_trip(l: ChunkLocation)
    ensures
        parse_file_name(file_name_of(l)) == Some(l),
{
    lemma_parse_fmt(l.x);
    lemma_parse_fmt(l.y);
    lemma_parse_fmt(l.z);
    let fx = fmt_i32(l.x);
    let fy = fmt_i32(l.y);
    let fz = fmt_i32(l.z);
    let stem = fx + seq!['_'] + fy + seq!['_'] + fz;
    let name = file_name_of(l);
    assert(name =~= stem + seq!['.', 'c', 'f', 'f']);
    let d = stem.len() as int;
    assert(name.drop_last().drop_last().drop_last() =~= stem.push('.'));
    assert(last_dot(stem.push('.')) == d);
    assert(last_dot(name.drop_last().drop_last()) == d);
    assert(last_dot(name.drop_last()) == d);
    assert(last_dot(name) == d);
    assert(name.subrange(d + 1, name.len() as int) =~= save_extension());
    assert(name.subrange(0, d) =~= stem);
    assert forall|i: int| 0 <= i < fx.len() implies #[trigger] fx[i] != '_' by {}
    assert forall|i: int| 0 <= i < fy.len() implies #[trigger] fy[i] != '_' by {}
    assert forall|i: int| 0 <= i < fz.len() implies #[trigger] fz[i] != '_' by {}
    lemma_split_three(fx, fy, fz);
}

} // verus!
