//! Character- and string-level helpers shared by the parsers: ASCII case
//! folding, Unicode whitespace trimming and unsigned number parsing.

use vstd::prelude::*;

verus! {

/// Whether `c` has the Unicode `White_Space` property: the 25 code points
/// U+0009 to U+000D, U+0020, U+0085, U+00A0, U+1680, U+2000 to U+200A,
/// U+2028, U+2029, U+202F, U+205F and U+3000.
pub open spec fn unicode_white_space(c: char) -> bool {
    let v = c as u32;
    ||| 0x09 <= v <= 0x0D
    ||| v == 0x20
    ||| v == 0x85
    ||| v == 0xA0
    ||| v == 0x1680
    ||| 0x2000 <= v <= 0x200A
    ||| v == 0x2028
    ||| v == 0x2029
    ||| v == 0x202F
    ||| v == 0x205F
    ||| v == 0x3000
}

/// Whether `c` is whitespace, as `char::is_whitespace` decides: the
/// characters with the Unicode `White_Space` property.
pub fn is_whitespace(c: char) -> (b: bool)
    ensures
        b == unicode_white_space(c),
{
    let v = c as u32;
    (0x09 <= v && v <= 0x0D) || v == 0x20 || v == 0x85 || v == 0xA0 || v == 0x1680 || (0x2000 <= v && v
        <= 0x200A) || v == 0x2028 || v == 0x2029 || v == 0x202F || v == 0x205F || v == 0x3000
}

/// Calls `String::push`: the character is appended at the end.
#[verifier::external_body]
pub(crate) fn push_char(s: &mut String, c: char)
    ensures
        final(s)@ == old(s)@.push(c),
{
    s.push(c)
}

/// ASCII lowercase of a single character; every other character is kept.
pub open spec fn lower_char(c: char) -> char {
    if 'A' <= c && c <= 'Z' {
        ((c as u32) + 32) as char
    } else {
        c
    }
}

pub open spec fn lower_seq(s: Seq<char>) -> Seq<char> {
    s.map_values(|c: char| lower_char(c))
}

pub fn ascii_lower(c: char) -> (r: char)
    ensures
        r == lower_char(c),
{
    if 'A' <= c && c <= 'Z' {
        let v: u32 = (c as u32) + 32;
        proof {
            assert(0x61 <= v <= 0x7a);
        }
        char_from_ascii(v)
    } else {
        c
    }
}

/// Builds a character from an ASCII code point.
fn char_from_ascii(v: u32) -> (c: char)
    requires
        v < 128,
    ensures
        c == v as char,
{
    let b: u8 = v as u8;
    b as char
}

/// `s` with every ASCII capital letter replaced by its lowercase form.
pub fn to_ascii_lowercase(s: &str) -> (r: String)
    ensures
        r@ == lower_seq(s@),
{
    let n = s.unicode_len();
    let mut out = String::new();
    let mut i: usize = 0;
    while i < n
        invariant
            n == s@.len(),
            i <= n,
            out@ == lower_seq(s@.subrange(0, i as int)),
        decreases n - i,
    {
        let c = s.get_char(i);
        push_char(&mut out, ascii_lower(c));
        assert(s@.subrange(0, i + 1) == s@.subrange(0, i as int).push(c));
        i += 1;
    }
    assert(s@.subrange(0, n as int) == s@);
    out
}

/// `s` without its leading and trailing whitespace.
pub open spec fn trimmed(s: Seq<char>) -> Seq<char>
    decreases s.len(),
{
    if s.len() > 0 && unicode_white_space(s[0]) {
        trimmed(s.drop_first())
    } else if s.len() > 0 && unicode_white_space(s.last()) {
        trimmed(s.drop_last())
    } else {
        s
    }
}

/// Copies the characters `s[lo..hi]` into a new string.
pub fn substring(s: &str, lo: usize, hi: usize) -> (r: String)
    requires
        lo <= hi <= s@.len(),
    ensures
        r@ == s@.subrange(lo as int, hi as int),
{
    let mut out = String::new();
    let mut i = lo;
    while i < hi
        invariant
            lo <= i <= hi <= s@.len(),
            out@ == s@.subrange(lo as int, i as int),
        decreases hi - i,
    {
        let c = s.get_char(i);
        push_char(&mut out, c);
        assert(s@.subrange(lo as int, i + 1) == s@.subrange(lo as int, i as int).push(c));
        i += 1;
    }
    out
}

/// `s` with leading and trailing whitespace removed, as `str::trim` does.
pub fn trim(s: &str) -> (r: String)
    ensures
        r@ == trimmed(s@),
{
    let n = s.unicode_len();
    let mut i: usize = 0;
    assert(s@.subrange(0, n as int) == s@);
    while i < n && is_whitespace(s.get_char(i))
        invariant
            n == s@.len(),
            i <= n,
            trimmed(s@) == trimmed(s@.subrange(i as int, n as int)),
        decreases n - i,
    {
        assert(s@.subrange(i as int, n as int).drop_first() == s@.subrange(i + 1, n as int));
        i += 1;
    }
    let mut j: usize = n;
    while j > i && is_whitespace(s.get_char(j - 1))
        invariant
            n == s@.len(),
            i <= j <= n,
            i < n ==> !unicode_white_space(s@[i as int]),
            trimmed(s@) == trimmed(s@.subrange(i as int, j as int)),
        decreases j - i,
    {
        let ghost t = s@.subrange(i as int, j as int);
        assert(t[0] == s@[i as int]);
        assert(t.last() == s@[j - 1]);
        assert(t.drop_last() == s@.subrange(i as int, j - 1));
        j -= 1;
    }
    proof {
        let t = s@.subrange(i as int, j as int);
        if t.len() > 0 {
            assert(t[0] == s@[i as int]);
            assert(t.last() == s@[j - 1]);
        }
    }
    substring(s, i, j)
}

/// The value of a decimal digit character, if it is one.
pub open spec fn digit_value(c: char, radix: u32) -> Option<int> {
    if '0' <= c && c <= '9' && (c as int) - ('0' as int) < radix {
        Some((c as int) - ('0' as int))
    } else if radix > 10 && 'a' <= c && c <= 'z' && (c as int) - ('a' as int) + 10 < radix {
        Some((c as int) - ('a' as int) + 10)
    } else if radix > 10 && 'A' <= c && c <= 'Z' && (c as int) - ('A' as int) + 10 < radix {
        Some((c as int) - ('A' as int) + 10)
    } else {
        None
    }
}

pub open spec fn all_digits(s: Seq<char>, radix: u32) -> bool {
    forall|i: int| 0 <= i < s.len() ==> (#[trigger] digit_value(s[i], radix)) is Some
}

/// The number that the digit string `s` writes in base `radix`.
pub open spec fn digits_value(s: Seq<char>, radix: u32) -> int
    decreases s.len(),
{
    if s.len() == 0 {
        0
    } else {
        digits_value(s.drop_last(), radix) * radix + digit_value(s.last(), radix).unwrap()
    }
}

/// What `from_str_radix` gives for an unsigned type whose largest value is
/// `max`: an optional `+`, then at least one digit, and no overflow.
pub open spec fn unsigned_value(s: Seq<char>, radix: u32, max: int) -> Option<int> {
    let d = if s.len() > 0 && s[0] == '+' { s.drop_first() } else { s };
    if d.len() == 0 || !all_digits(d, radix) || digits_value(d, radix) > max {
        None
    } else {
        Some(digits_value(d, radix))
    }
}

fn digit_of(c: char, radix: u32) -> (r: Option<u32>)
    requires
        2 <= radix <= 36,
    ensures
        r matches Some(v) ==> digit_value(c, radix) == Some(v as int),
        r is None ==> digit_value(c, radix) is None,
{
    if '0' <= c && c <= '9' && (c as u32) - ('0' as u32) < radix {
        Some((c as u32) - ('0' as u32))
    } else if radix > 10 && 'a' <= c && c <= 'z' && (c as u32) - ('a' as u32) + 10 < radix {
        Some((c as u32) - ('a' as u32) + 10)
    } else if radix > 10 && 'A' <= c && c <= 'Z' && (c as u32) - ('A' as u32) + 10 < radix {
        Some((c as u32) - ('A' as u32) + 10)
    } else {
        None
    }
}

proof fn lemma_digits_value_nonneg(s: Seq<char>, radix: u32)
    requires
        all_digits(s, radix),
        radix >= 2,
    ensures
        digits_value(s, radix) >= 0,
    decreases s.len(),
{
    if s.len() > 0 {
        assert(digit_value(s[s.len() - 1], radix) is Some);
        lemma_digits_value_nonneg(s.drop_last(), radix);
        assert(digits_value(s.drop_last(), radix) * radix >= 0) by (nonlinear_arith)
            requires digits_value(s.drop_last(), radix) >= 0, radix >= 2;
    }
}

proof fn lemma_digits_value_grows(s: Seq<char>, radix: u32)
    requires
        all_digits(s, radix),
        s.len() > 0,
        radix >= 2,
    ensures
        digits_value(s, radix) >= digits_value(s.drop_last(), radix),
{
    assert(digit_value(s[s.len() - 1], radix) is Some);
    lemma_digits_value_nonneg(s.drop_last(), radix);
    assert(digits_value(s.drop_last(), radix) * radix >= digits_value(s.drop_last(), radix))
        by (nonlinear_arith)
        requires digits_value(s.drop_last(), radix) >= 0, radix >= 2;
}

/// Once a prefix of digits exceeds `max`, every longer digit string does too.
proof fn lemma_digits_value_prefix(s: Seq<char>, k: int, radix: u32)
    requires
        all_digits(s, radix),
        0 <= k <= s.len(),
        radix >= 2,
    ensures
        digits_value(s, radix) >= digits_value(s.subrange(0, k), radix),
    decreases s.len() - k,
{
    if k < s.len() {
        lemma_digits_value_prefix(s, k + 1, radix);
        let p = s.subrange(0, k + 1);
        assert(p.drop_last() == s.subrange(0, k));
        assert(all_digits(p, radix));
        lemma_digits_value_grows(p, radix);
    } else {
        assert(s.subrange(0, k) == s);
    }
}

/// Parses `s` as `u64::from_str_radix` would for a type whose largest value is `max`.
pub fn parse_unsigned(s: &str, radix: u32, max: u64) -> (r: Option<u64>)
    requires
        2 <= radix <= 36,
        max <= u32::MAX,
    ensures
        r matches Some(v) ==> unsigned_value(s@, radix, max as int) == Some(v as int),
        r is None ==> unsigned_value(s@, radix, max as int) is None,
{
    let n = s.unicode_len();
    let mut start: usize = 0;
    if n > 0 && s.get_char(0) == '+' {
        start = 1;
    }
    let ghost d = if s@.len() > 0 && s@[0] == '+' { s@.drop_first() } else { s@ };
    assert(d == s@.subrange(start as int, n as int));
    if start == n {
        return None;
    }
    let mut acc: u64 = 0;
    let mut i: usize = start;
    while i < n
        invariant
            n == s@.len(),
            start <= i <= n,
            2 <= radix <= 36,
            max <= u32::MAX,
            d == s@.subrange(start as int, n as int),
            d == (if s@.len() > 0 && s@[0] == '+' { s@.drop_first() } else { s@ }),
            all_digits(d.subrange(0, i - start), radix),
            acc as int == digits_value(d.subrange(0, i - start), radix),
            acc <= max,
        decreases n - i,
    {
        let c = s.get_char(i);
        let ghost p = d.subrange(0, i + 1 - start);
        assert(p.drop_last() == d.subrange(0, i - start));
        assert(p.last() == c);
        match digit_of(c, radix) {
            None => {
                assert(d[i - start] == c);
                assert(digit_value(d[i - start], radix) is None);
                assert(!all_digits(d, radix));
                return None;
            },
            Some(v) => {
                assert(all_digits(p, radix)) by {
                    assert forall|k: int| 0 <= k < p.len() implies (#[trigger] digit_value(p[k], radix)) is Some by {
                        if k < p.len() - 1 {
                            assert(p[k] == d.subrange(0, i - start)[k]);
                        }
                    }
                }
                assert(acc * radix + v <= u32::MAX as int * 36 + 36) by (nonlinear_arith)
                    requires acc <= u32::MAX, radix <= 36, v < 36;
                let next: u64 = acc * (radix as u64) + (v as u64);
                assert(digits_value(p, radix) == next);
                if next > max {
                    proof {
                        if all_digits(d, radix) {
                            lemma_digits_value_prefix(d, i + 1 - start, radix);
                        }
                    }
                    return None;
                }
                acc = next;
            },
        }
        i += 1;
    }
    assert(d.subrange(0, n - start) == d);
    Some(acc)
}

/// Whether two strings hold the same characters.
pub fn str_eq(a: &str, b: &str) -> (r: bool)
    ensures
        r == (a@ == b@),
{
    let n = a.unicode_len();
    let m = b.unicode_len();
    if n != m {
        return false;
    }
    let mut i: usize = 0;
    while i < n
        invariant
            n == a@.len(),
            m == b@.len(),
            n == m,
            i <= n,
            forall|k: int| 0 <= k < i ==> a@[k] == b@[k],
        decreases n - i,
    {
        if a.get_char(i) != b.get_char(i) {
            return false;
        }
        i += 1;
    }
    assert(a@ == b@);
    true
}

/// The index of the first `c` in `s` at or after `from`, or `s.len()` when
/// there is none.
pub open spec fn index_from(s: Seq<char>, c: char, from: int) -> int
    decreases s.len() - from,
{
    if from < 0 || from >= s.len() {
        s.len() as int
    } else if s[from] == c {
        from
    } else {
        index_from(s, c, from + 1)
    }
}

pub fn find_char(s: &str, c: char, from: usize) -> (r: usize)
    requires
        from <= s@.len(),
    ensures
        r as int == index_from(s@, c, from as int),
        from <= r <= s@.len(),
{
    let n = s.unicode_len();
    let mut i = from;
    while i < n
        invariant
            n == s@.len(),
            from <= i <= n,
            index_from(s@, c, from as int) == index_from(s@, c, i as int),
        decreases n - i,
    {
        if s.get_char(i) == c {
            return i;
        }
        i += 1;
    }
    i
}

/// Appends all of `t` to `s`.
pub fn push_str(s: &mut String, t: &str)
    ensures
        final(s)@ == old(s)@ + t@,
{
    s.append(t);
}

/// A string of `n` copies of `c`.
pub fn repeat_char(c: char, n: usize) -> (r: String)
    ensures
        r@ == Seq::new(n as nat, |i: int| c),
{
    let mut out = String::new();
    let mut i: usize = 0;
    while i < n
        invariant
            i <= n,
            out@ == Seq::new(i as nat, |k: int| c),
        decreases n - i,
    {
        push_char(&mut out, c);
        assert(out@ == Seq::new((i + 1) as nat, |k: int| c));
        i += 1;
    }
    out
}


/// The characters of `s`, in order.
pub fn chars_of(s: &str) -> (v: Vec<char>)
    ensures
        v@ == s@,
{
    broadcast use vstd::string::axiom_spec_iter;
    let mut v: Vec<char> = Vec::new();
    for c in it: s.chars()
        invariant
            it.seq() == s@,
            v@ == it.seq().take(it.index() as int),
    {
        v.push(c);
    }
    v
}


/// Trimming leaves no whitespace at either end.
pub proof fn lemma_trimmed_ends(s: Seq<char>)
    ensures
        trimmed(s).len() > 0 ==> !unicode_white_space(trimmed(s)[0]) && !unicode_white_space(
            trimmed(s).last(),
        ),
    decreases s.len(),
{
    if s.len() > 0 && unicode_white_space(s[0]) {
        lemma_trimmed_ends(s.drop_first());
    } else if s.len() > 0 && unicode_white_space(s.last()) {
        lemma_trimmed_ends(s.drop_last());
    }
}

/// Text with no whitespace at its ends is its own trimming.
pub proof fn lemma_trim_fixed(t: Seq<char>)
    requires
        t.len() > 0 ==> !unicode_white_space(t[0]) && !unicode_white_space(t.last()),
    ensures
        trimmed(t) == t,
{
}

/// Lowercasing and trimming, done once, need not be done again.
pub proof fn lemma_normalised_fixed(s: Seq<char>)
    ensures
        lower_seq(trimmed(lower_seq(trimmed(s)))) == lower_seq(trimmed(s)),
{
    let t = trimmed(s);
    lemma_trimmed_ends(s);
    let l = lower_seq(t);
    if l.len() > 0 {
        assert(l[0] == lower_char(t[0]));
        assert(l.last() == lower_char(t.last()));
    }
    lemma_trim_fixed(l);
    assert(lower_seq(l) =~= l);
}

} // verus!
