//! Verified text handling: characters of a string, equality, and the
//! splitting, trimming and number parsing that the metric parsers need.
//!
//! The spec functions here follow the documented behaviour of the standard
//! string methods they stand for (`str::lines`, `str::split_whitespace`,
//! `str::trim`, `u64::from_str`, ...); the executable functions work on a
//! character vector and half-open index ranges into it.
use vstd::prelude::*;

verus! {

broadcast use vstd::string::group_string_axioms;

/// The characters of `s`, in order.
pub fn chars_of(s: &str) -> (v: Vec<char>)
    ensures
        v@ == s@,
{
    let mut v: Vec<char> = Vec::new();
    for c in it: s.chars()
        invariant
            v@ == it.seq().take(it.index() as int),
    {
        v.push(c);
    }
    v
}

/// The text of an optional string.
pub open spec fn opt_string(o: Option<String>) -> Option<Seq<char>> {
    match o {
        Some(s) => Some(s@),
        None => None,
    }
}

/// The texts of a sequence of strings.
pub open spec fn texts(v: Seq<String>) -> Seq<Seq<char>> {
    v.map_values(|s: String| s@)
}

/// `String::push`: appends one character.
#[verifier::external_body]
fn push_char(s: &mut String, c: char)
    ensures
        final(s)@ == old(s)@.push(c),
{
    s.push(c);
}

/// The string made of `cs[lo..hi]`.
pub fn string_of(cs: &Vec<char>, lo: usize, hi: usize) -> (s: String)
    requires
        lo <= hi <= cs@.len(),
    ensures
        s@ == cs@.subrange(lo as int, hi as int),
{
    let mut s = String::new();
    let mut i = lo;
    while i < hi
        invariant
            lo <= i <= hi <= cs@.len(),
            s@ == cs@.subrange(lo as int, i as int),
        decreases hi - i,
    {
        push_char(&mut s, cs[i]);
        assert(cs@.subrange(lo as int, i + 1) == cs@.subrange(lo as int, i as int).push(cs@[i as int]));
        i = i + 1;
    }
    s
}

/// `s` followed by the characters of `t`.
pub fn push_str(s: &mut String, t: &str)
    ensures
        final(s)@ == old(s)@ + t@,
{
    let cs = chars_of(t);
    let mut i: usize = 0;
    while i < cs.len()
        invariant
            0 <= i <= cs@.len(),
            cs@ == t@,
            s@ == old(s)@ + cs@.take(i as int),
        decreases cs.len() - i,
    {
        push_char(s, cs[i]);
        assert(cs@.take(i + 1) == cs@.take(i as int).push(cs@[i as int]));
        i = i + 1;
    }
    assert(cs@.take(cs@.len() as int) == cs@);
}

/// Whether two character ranges hold the same text.
pub fn range_eq(a: &Vec<char>, alo: usize, ahi: usize, b: &Vec<char>, blo: usize, bhi: usize) -> (r: bool)
    requires
        alo <= ahi <= a@.len(),
        blo <= bhi <= b@.len(),
    ensures
        r == (a@.subrange(alo as int, ahi as int) == b@.subrange(blo as int, bhi as int)),
{
    if ahi - alo != bhi - blo {
        assert(a@.subrange(alo as int, ahi as int).len() != b@.subrange(blo as int, bhi as int).len());
        return false;
    }
    let n = ahi - alo;
    let mut k: usize = 0;
    while k < n
        invariant
            n == ahi - alo == bhi - blo,
            alo <= ahi <= a@.len(),
            blo <= bhi <= b@.len(),
            0 <= k <= n,
            a@.subrange(alo as int, alo + k) == b@.subrange(blo as int, blo + k),
        decreases n - k,
    {
        if a[alo + k] != b[blo + k] {
            assert(a@.subrange(alo as int, ahi as int)[k as int] != b@.subrange(blo as int, bhi as int)[k as int]);
            return false;
        }
        assert(a@.subrange(alo as int, alo + k + 1) == a@.subrange(alo as int, alo + k).push(a@[alo + k]));
        assert(b@.subrange(blo as int, blo + k + 1) == b@.subrange(blo as int, blo + k).push(b@[blo + k]));
        k = k + 1;
    }
    assert(a@.subrange(alo as int, ahi as int) =~= b@.subrange(blo as int, bhi as int));
    true
}

/// Whether two strings are equal.
pub fn str_eq(a: &str, b: &str) -> (r: bool)
    ensures
        r == (a@ == b@),
{
    let ac = chars_of(a);
    let bc = chars_of(b);
    let r = range_eq(&ac, 0, ac.len(), &bc, 0, bc.len());
    assert(ac@.subrange(0, ac@.len() as int) == ac@);
    assert(bc@.subrange(0, bc@.len() as int) == bc@);
    r
}

} // verus!

verus! {

/// `char::is_whitespace`: the characters with the Unicode `White_Space`
/// property.
pub open spec fn is_ws(c: char) -> bool {
    let n = c as u32;
    (0x9 <= n <= 0xd) || n == 0x20 || n == 0x85 || n == 0xa0 || n == 0x1680 || (0x2000 <= n
        <= 0x200a) || n == 0x2028 || n == 0x2029 || n == 0x202f || n == 0x205f || n == 0x3000
}

pub fn is_whitespace(c: char) -> (r: bool)
    ensures
        r == is_ws(c),
{
    let n = c as u32;
    (0x9 <= n && n <= 0xd) || n == 0x20 || n == 0x85 || n == 0xa0 || n == 0x1680 || (0x2000 <= n
        && n <= 0x200a) || n == 0x2028 || n == 0x2029 || n == 0x202f || n == 0x205f || n == 0x3000
}

/// Number of leading characters of `s` that are not whitespace.
pub open spec fn word_len(s: Seq<char>) -> nat
    decreases s.len(),
{
    if s.len() == 0 || is_ws(s[0]) {
        0
    } else {
        1 + word_len(s.drop_first())
    }
}

pub proof fn lemma_word_len_bound(s: Seq<char>)
    ensures
        word_len(s) <= s.len(),
        s.len() > 0 && !is_ws(s[0]) ==> word_len(s) >= 1,
    decreases s.len(),
{
    if s.len() > 0 && !is_ws(s[0]) {
        lemma_word_len_bound(s.drop_first());
    }
}

/// `str::split_whitespace`: the maximal runs of non-whitespace characters.
pub open spec fn words(s: Seq<char>) -> Seq<Seq<char>>
    decreases s.len(),
{
    if s.len() == 0 {
        seq![]
    } else if is_ws(s[0]) {
        words(s.drop_first())
    } else {
        let n = word_len(s);
        proof {
            lemma_word_len_bound(s);
        }
        seq![s.take(n as int)] + words(s.skip(n as int))
    }
}

/// Index of the first `'\n'` in `s`, or its length when there is none.
pub open spec fn nl_index(s: Seq<char>) -> nat
    decreases s.len(),
{
    if s.len() == 0 || s[0] == '\n' {
        0
    } else {
        1 + nl_index(s.drop_first())
    }
}

pub proof fn lemma_nl_index_bound(s: Seq<char>)
    ensures
        nl_index(s) <= s.len(),
        nl_index(s) < s.len() ==> s[nl_index(s) as int] == '\n',
        forall|k: int| 0 <= k < nl_index(s) ==> s[k] != '\n',
    decreases s.len(),
{
    if s.len() > 0 && s[0] != '\n' {
        lemma_nl_index_bound(s.drop_first());
        assert forall|k: int| 0 <= k < nl_index(s) implies s[k] != '\n' by {
            if k > 0 {
                assert(s[k] == s.drop_first()[k - 1]);
            }
        }
    }
}

/// A line without its `'\r'` terminator, if it has one.
pub open spec fn strip_cr(l: Seq<char>) -> Seq<char> {
    if l.len() > 0 && l.last() == '\r' {
        l.drop_last()
    } else {
        l
    }
}

/// `str::lines`: lines end at `"\n"` or `"\r\n"`, the terminator is not part
/// of the line, and a final line ending is optional.
pub open spec fn lines(s: Seq<char>) -> Seq<Seq<char>>
    decreases s.len(),
{
    if s.len() == 0 {
        seq![]
    } else {
        let n = nl_index(s);
        proof {
            lemma_nl_index_bound(s);
        }
        if n == s.len() {
            seq![s]
        } else {
            seq![strip_cr(s.take(n as int))] + lines(s.skip(n + 1int))
        }
    }
}

/// The text of each half-open range of `cs`.
pub open spec fn range_texts(cs: Seq<char>, r: Seq<(usize, usize)>) -> Seq<Seq<char>> {
    r.map_values(|p: (usize, usize)| cs.subrange(p.0 as int, p.1 as int))
}

/// Every range of `r` lies within `lo..hi`.
pub open spec fn ranges_within(r: Seq<(usize, usize)>, lo: int, hi: int) -> bool {
    forall|i: int| 0 <= i < r.len() ==> lo <= #[trigger] r[i].0 <= r[i].1 <= hi
}

proof fn lemma_word_len_is(s: Seq<char>, n: int)
    requires
        0 <= n <= s.len(),
        forall|k: int| 0 <= k < n ==> !is_ws(#[trigger] s[k]),
        n == s.len() || is_ws(s[n]),
    ensures
        word_len(s) == n,
    decreases n,
{
    if n > 0 {
        let t = s.drop_first();
        assert forall|k: int| 0 <= k < n - 1 implies !is_ws(#[trigger] t[k]) by {
            assert(t[k] == s[k + 1]);
        }
        if n < s.len() {
            assert(t[n - 1] == s[n]);
        }
        lemma_word_len_is(t, n - 1);
        assert(!is_ws(s[0]));
    }
}

/// The ranges of the whitespace-separated words of `cs[lo..hi]`.
pub fn words_in(cs: &Vec<char>, lo: usize, hi: usize) -> (r: Vec<(usize, usize)>)
    requires
        lo <= hi <= cs@.len(),
    ensures
        ranges_within(r@, lo as int, hi as int),
        range_texts(cs@, r@) == words(cs@.subrange(lo as int, hi as int)),
{
    let mut r: Vec<(usize, usize)> = Vec::new();
    let mut i = lo;
    while i < hi
        invariant
            lo <= i <= hi <= cs@.len(),
            ranges_within(r@, lo as int, i as int),
            words(cs@.subrange(lo as int, hi as int)) == range_texts(cs@, r@) + words(
                cs@.subrange(i as int, hi as int),
            ),
        decreases hi - i,
    {
        let ghost rest = cs@.subrange(i as int, hi as int);
        if is_whitespace(cs[i]) {
            assert(rest.drop_first() == cs@.subrange(i + 1, hi as int));
            i = i + 1;
        } else {
            let mut j = i + 1;
            while j < hi && !is_whitespace(cs[j])
                invariant
                    i < j <= hi <= cs@.len(),
                    forall|k: int| i <= k < j ==> !is_ws(#[trigger] cs@[k]),
                decreases hi - j,
            {
                j = j + 1;
            }
            proof {
                assert forall|k: int| 0 <= k < j - i implies !is_ws(#[trigger] rest[k]) by {
                    assert(rest[k] == cs@[i + k]);
                }
                if j < hi {
                    assert(rest[j - i] == cs@[j as int]);
                }
                lemma_word_len_is(rest, j - i);
                assert(rest.take(j - i) == cs@.subrange(i as int, j as int));
                assert(rest.skip(j - i) == cs@.subrange(j as int, hi as int));
            }
            let ghost old_r = r@;
            r.push((i, j));
            assert(range_texts(cs@, r@) == range_texts(cs@, old_r) + seq![cs@.subrange(i as int, j as int)]);
            i = j;
        }
    }
    assert(words(cs@.subrange(hi as int, hi as int)) == Seq::<Seq<char>>::empty());
    assert(range_texts(cs@, r@) + Seq::<Seq<char>>::empty() == range_texts(cs@, r@));
    r
}

} // verus!

verus! {

proof fn lemma_nl_index_is(s: Seq<char>, n: int)
    requires
        0 <= n <= s.len(),
        forall|k: int| 0 <= k < n ==> #[trigger] s[k] != '\n',
        n == s.len() || s[n] == '\n',
    ensures
        nl_index(s) == n,
    decreases n,
{
    if n > 0 {
        let t = s.drop_first();
        assert forall|k: int| 0 <= k < n - 1 implies #[trigger] t[k] != '\n' by {
            assert(t[k] == s[k + 1]);
        }
        if n < s.len() {
            assert(t[n - 1] == s[n]);
        }
        lemma_nl_index_is(t, n - 1);
        assert(s[0] != '\n');
    }
}

/// The ranges of the lines of `cs`, as `str::lines` yields them.
pub fn lines_in(cs: &Vec<char>) -> (r: Vec<(usize, usize)>)
    ensures
        ranges_within(r@, 0, cs@.len() as int),
        range_texts(cs@, r@) == lines(cs@),
{
    let mut r: Vec<(usize, usize)> = Vec::new();
    let hi = cs.len();
    let mut i: usize = 0;
    assert(cs@.subrange(0, hi as int) == cs@);
    while i < hi
        invariant
            0 <= i <= hi == cs@.len(),
            ranges_within(r@, 0, i as int),
            lines(cs@) == range_texts(cs@, r@) + lines(cs@.subrange(i as int, hi as int)),
        decreases hi - i,
    {
        let ghost rest = cs@.subrange(i as int, hi as int);
        let mut j = i;
        while j < hi && cs[j] != '\n'
            invariant
                i <= j <= hi == cs@.len(),
                forall|k: int| i <= k < j ==> #[trigger] cs@[k] != '\n',
            decreases hi - j,
        {
            j = j + 1;
        }
        proof {
            assert forall|k: int| 0 <= k < j - i implies #[trigger] rest[k] != '\n' by {
                assert(rest[k] == cs@[i + k]);
            }
            if j < hi {
                assert(rest[j - i] == cs@[j as int]);
            }
            lemma_nl_index_is(rest, j - i);
        }
        let ghost old_r = r@;
        if j == hi {
            r.push((i, j));
            assert(range_texts(cs@, r@) == range_texts(cs@, old_r) + seq![rest]);
            assert(lines(cs@.subrange(hi as int, hi as int)) == Seq::<Seq<char>>::empty());
            assert(range_texts(cs@, r@) + Seq::<Seq<char>>::empty() == range_texts(cs@, r@));
            i = j;
        } else {
            let e = if j > i && cs[j - 1] == '\r' {
                j - 1
            } else {
                j
            };
            proof {
                assert(rest.take(j - i) == cs@.subrange(i as int, j as int));
                assert(rest.skip(j - i + 1) == cs@.subrange(j + 1, hi as int));
                assert(strip_cr(cs@.subrange(i as int, j as int)) == cs@.subrange(i as int, e as int));
            }
            r.push((i, e));
            assert(range_texts(cs@, r@) == range_texts(cs@, old_r) + seq![cs@.subrange(i as int, e as int)]);
            i = j + 1;
        }
    }
    assert(lines(cs@.subrange(hi as int, hi as int)) == Seq::<Seq<char>>::empty());
    assert(range_texts(cs@, r@) + Seq::<Seq<char>>::empty() == range_texts(cs@, r@));
    r
}

/// `str::trim_start`: `s` without its leading whitespace.
pub open spec fn trim_start(s: Seq<char>) -> Seq<char>
    decreases s.len(),
{
    if s.len() > 0 && is_ws(s[0]) {
        trim_start(s.drop_first())
    } else {
        s
    }
}

/// `str::trim_end`: `s` without its trailing whitespace.
pub open spec fn trim_end(s: Seq<char>) -> Seq<char>
    decreases s.len(),
{
    if s.len() > 0 && is_ws(s.last()) {
        trim_end(s.drop_last())
    } else {
        s
    }
}

/// `str::trim`.
pub open spec fn trim(s: Seq<char>) -> Seq<char> {
    trim_end(trim_start(s))
}

/// `str::trim_start_matches(c)` for one character.
pub open spec fn trim_start_char(s: Seq<char>, c: char) -> Seq<char>
    decreases s.len(),
{
    if s.len() > 0 && s[0] == c {
        trim_start_char(s.drop_first(), c)
    } else {
        s
    }
}

/// `str::trim_end_matches(c)` for one character.
pub open spec fn trim_end_char(s: Seq<char>, c: char) -> Seq<char>
    decreases s.len(),
{
    if s.len() > 0 && s.last() == c {
        trim_end_char(s.drop_last(), c)
    } else {
        s
    }
}

/// `str::trim_matches(c)` for one character.
pub open spec fn trim_char(s: Seq<char>, c: char) -> Seq<char> {
    trim_end_char(trim_start_char(s, c), c)
}

/// The range of `trim(cs[lo..hi])`.
pub fn trim_in(cs: &Vec<char>, lo: usize, hi: usize) -> (r: (usize, usize))
    requires
        lo <= hi <= cs@.len(),
    ensures
        lo <= r.0 <= r.1 <= hi,
        cs@.subrange(r.0 as int, r.1 as int) == trim(cs@.subrange(lo as int, hi as int)),
{
    let mut a = lo;
    while a < hi && is_whitespace(cs[a])
        invariant
            lo <= a <= hi <= cs@.len(),
            trim_start(cs@.subrange(lo as int, hi as int)) == trim_start(
                cs@.subrange(a as int, hi as int),
            ),
        decreases hi - a,
    {
        assert(cs@.subrange(a as int, hi as int).drop_first() == cs@.subrange(a + 1, hi as int));
        a = a + 1;
    }
    let mut b = hi;
    while b > a && is_whitespace(cs[b - 1])
        invariant
            lo <= a <= b <= hi <= cs@.len(),
            trim_end(cs@.subrange(a as int, hi as int)) == trim_end(cs@.subrange(a as int, b as int)),
        decreases b - a,
    {
        assert(cs@.subrange(a as int, b as int).drop_last() == cs@.subrange(a as int, b - 1));
        b = b - 1;
    }
    (a, b)
}

/// The range of `trim_char(cs[lo..hi], c)`.
pub fn trim_char_in(cs: &Vec<char>, lo: usize, hi: usize, c: char) -> (r: (usize, usize))
    requires
        lo <= hi <= cs@.len(),
    ensures
        lo <= r.0 <= r.1 <= hi,
        cs@.subrange(r.0 as int, r.1 as int) == trim_char(cs@.subrange(lo as int, hi as int), c),
{
    let mut a = lo;
    while a < hi && cs[a] == c
        invariant
            lo <= a <= hi <= cs@.len(),
            trim_start_char(cs@.subrange(lo as int, hi as int), c) == trim_start_char(
                cs@.subrange(a as int, hi as int),
                c,
            ),
        decreases hi - a,
    {
        assert(cs@.subrange(a as int, hi as int).drop_first() == cs@.subrange(a + 1, hi as int));
        a = a + 1;
    }
    let mut b = hi;
    while b > a && cs[b - 1] == c
        invariant
            lo <= a <= b <= hi <= cs@.len(),
            trim_end_char(cs@.subrange(a as int, hi as int), c) == trim_end_char(
                cs@.subrange(a as int, b as int),
                c,
            ),
        decreases b - a,
    {
        assert(cs@.subrange(a as int, b as int).drop_last() == cs@.subrange(a as int, b - 1));
        b = b - 1;
    }
    (a, b)
}

/// Whether `cs[lo..hi]` starts with `p`.
pub fn starts_with_in(cs: &Vec<char>, lo: usize, hi: usize, p: &Vec<char>) -> (r: bool)
    requires
        lo <= hi <= cs@.len(),
    ensures
        r == (p@.len() <= hi - lo && cs@.subrange(lo as int, lo + p@.len()) == p@),
{
    if p.len() > hi - lo {
        return false;
    }
    let r = range_eq(cs, lo, lo + p.len(), p, 0, p.len());
    assert(p@.subrange(0, p@.len() as int) == p@);
    r
}

} // verus!

verus! {

/// `char::to_digit(radix)` for radix up to 36.
pub open spec fn digit_value(c: char, radix: nat) -> Option<nat> {
    let n = c as u32;
    if 0x30 <= n <= 0x39 && (n - 0x30) < radix {
        Some((n - 0x30) as nat)
    } else if 0x61 <= n <= 0x7a && (n - 0x61 + 10) < radix {
        Some((n - 0x61 + 10) as nat)
    } else if 0x41 <= n <= 0x5a && (n - 0x41 + 10) < radix {
        Some((n - 0x41 + 10) as nat)
    } else {
        None
    }
}

pub fn to_digit(c: char, radix: u32) -> (r: Option<u32>)
    requires
        2 <= radix <= 36,
    ensures
        r matches Some(d) ==> digit_value(c, radix as nat) == Some(d as nat),
        r is None ==> digit_value(c, radix as nat) is None,
{
    let n = c as u32;
    if 0x30 <= n && n <= 0x39 && n - 0x30 < radix {
        Some(n - 0x30)
    } else if 0x61 <= n && n <= 0x7a && n - 0x61 + 10 < radix {
        Some(n - 0x61 + 10)
    } else if 0x41 <= n && n <= 0x5a && n - 0x41 + 10 < radix {
        Some(n - 0x41 + 10)
    } else {
        None
    }
}

/// Every character of `s` is a digit in `radix`.
pub open spec fn all_digits(s: Seq<char>, radix: nat) -> bool {
    forall|i: int| 0 <= i < s.len() ==> (#[trigger] digit_value(s[i], radix)) is Some
}

/// The number that the digits `s` write in `radix`, most significant first.
pub open spec fn digits_value(s: Seq<char>, radix: nat) -> nat
    decreases s.len(),
{
    if s.len() == 0 {
        0
    } else {
        digits_value(s.drop_last(), radix) * radix + match digit_value(s.last(), radix) {
            Some(d) => d,
            None => 0,
        }
    }
}

/// The value of a non-empty run of digits; no sign is accepted.
pub open spec fn magnitude(d: Seq<char>, radix: nat) -> Option<nat> {
    if d.len() > 0 && all_digits(d, radix) {
        Some(digits_value(d, radix))
    } else {
        None
    }
}

/// `s` without one leading `'+'`.
pub open spec fn drop_plus(s: Seq<char>) -> Seq<char> {
    if s.len() > 0 && s[0] == '+' {
        s.drop_first()
    } else {
        s
    }
}

/// `u64::from_str_radix(s, radix).ok()`: an optional `'+'`, then at least one
/// digit, and a value that fits.
pub open spec fn parse_u64_radix(s: Seq<char>, radix: nat) -> Option<u64> {
    match magnitude(drop_plus(s), radix) {
        Some(v) => if v <= u64::MAX {
            Some(v as u64)
        } else {
            None
        },
        None => None,
    }
}

/// `s.parse::<u64>().ok()`.
pub open spec fn parse_u64(s: Seq<char>) -> Option<u64> {
    parse_u64_radix(s, 10)
}

/// `s.parse::<i64>().ok()`: an optional `'+'` or `'-'`, then at least one
/// digit, and a value within the range of `i64`.
pub open spec fn parse_i64(s: Seq<char>) -> Option<i64> {
    if s.len() > 0 && s[0] == '-' {
        match magnitude(s.drop_first(), 10) {
            Some(v) => if v <= 0x8000_0000_0000_0000 {
                Some((-v) as i64)
            } else {
                None
            },
            None => None,
        }
    } else {
        match magnitude(drop_plus(s), 10) {
            Some(v) => if v <= i64::MAX {
                Some(v as i64)
            } else {
                None
            },
            None => None,
        }
    }
}

proof fn lemma_digits_value_prefix(s: Seq<char>, radix: nat, k: int)
    requires
        radix >= 1,
        0 <= k <= s.len(),
    ensures
        digits_value(s.take(k), radix) <= digits_value(s, radix),
    decreases s.len(),
{
    if k < s.len() {
        let t = s.drop_last();
        assert(t.take(k) == s.take(k));
        lemma_digits_value_prefix(t, radix, k);
        assert(digits_value(t, radix) * radix >= digits_value(t, radix)) by (nonlinear_arith)
            requires
                radix >= 1,
        ;
    } else {
        assert(s.take(k) == s);
    }
}

/// `magnitude(cs[lo..hi], radix)` when it fits in a `u64`, `None` otherwise.
pub fn magnitude_in(cs: &Vec<char>, lo: usize, hi: usize, radix: u32) -> (r: Option<u64>)
    requires
        lo <= hi <= cs@.len(),
        2 <= radix <= 36,
    ensures
        r == (match magnitude(cs@.subrange(lo as int, hi as int), radix as nat) {
            Some(v) => if v <= u64::MAX {
                Some(v as u64)
            } else {
                None
            },
            None => None,
        }),
{
    let ghost s = cs@.subrange(lo as int, hi as int);
    if lo == hi {
        return None;
    }
    let mut acc: u64 = 0;
    let mut i = lo;
    assert(s.take(0) == Seq::<char>::empty());
    while i < hi
        invariant
            lo <= i <= hi <= cs@.len(),
            lo < hi,
            2 <= radix <= 36,
            s == cs@.subrange(lo as int, hi as int),
            all_digits(s.take(i - lo), radix as nat),
            acc as nat == digits_value(s.take(i - lo), radix as nat),
        decreases hi - i,
    {
        let ghost p = s.take(i - lo);
        let ghost q = s.take(i - lo + 1);
        assert(q.drop_last() == p);
        assert(q.last() == cs@[i as int]);
        match to_digit(cs[i], radix) {
            None => {
                assert(digit_value(s[i - lo], radix as nat) is None);
                return None;
            },
            Some(d) => {
                let next = match acc.checked_mul(radix as u64) {
                    Some(m) => m.checked_add(d as u64),
                    None => None,
                };
                match next {
                    None => {
                        proof {
                            assert(digits_value(q, radix as nat) == acc * radix + d);
                            lemma_digits_value_prefix(s, radix as nat, i - lo + 1);
                            if all_digits(s, radix as nat) {
                                assert(digits_value(s, radix as nat) > u64::MAX);
                            }
                        }
                        return None;
                    },
                    Some(v) => {
                        assert forall|j: int| 0 <= j < q.len() implies (#[trigger] digit_value(
                            q[j],
                            radix as nat,
                        )) is Some by {
                            if j < p.len() {
                                assert(q[j] == p[j]);
                            }
                        }
                        acc = v;
                    },
                }
            },
        }
        i = i + 1;
    }
    assert(s.take(hi - lo) == s);
    Some(acc)
}

/// `u64::from_str_radix(cs[lo..hi], radix).ok()`.
pub fn parse_u64_radix_in(cs: &Vec<char>, lo: usize, hi: usize, radix: u32) -> (r: Option<u64>)
    requires
        lo <= hi <= cs@.len(),
        2 <= radix <= 36,
    ensures
        r == parse_u64_radix(cs@.subrange(lo as int, hi as int), radix as nat),
{
    let ghost s = cs@.subrange(lo as int, hi as int);
    if lo < hi && cs[lo] == '+' {
        assert(drop_plus(s) == cs@.subrange(lo + 1, hi as int));
        magnitude_in(cs, lo + 1, hi, radix)
    } else {
        magnitude_in(cs, lo, hi, radix)
    }
}

/// `cs[lo..hi].parse::<u64>().ok()`.
pub fn parse_u64_in(cs: &Vec<char>, lo: usize, hi: usize) -> (r: Option<u64>)
    requires
        lo <= hi <= cs@.len(),
    ensures
        r == parse_u64(cs@.subrange(lo as int, hi as int)),
{
    parse_u64_radix_in(cs, lo, hi, 10)
}

/// `cs[lo..hi].parse::<i64>().ok()`.
pub fn parse_i64_in(cs: &Vec<char>, lo: usize, hi: usize) -> (r: Option<i64>)
    requires
        lo <= hi <= cs@.len(),
    ensures
        r == parse_i64(cs@.subrange(lo as int, hi as int)),
{
    let ghost s = cs@.subrange(lo as int, hi as int);
    if lo < hi && cs[lo] == '-' {
        assert(s.drop_first() == cs@.subrange(lo + 1, hi as int));
        match magnitude_in(cs, lo + 1, hi, 10) {
            Some(v) => {
                if v <= 0x8000_0000_0000_0000 {
                    if v == 0x8000_0000_0000_0000 {
                        Some(i64::MIN)
                    } else {
                        Some(-(v as i64))
                    }
                } else {
                    None
                }
            },
            None => None,
        }
    } else {
        let start = if lo < hi && cs[lo] == '+' {
            lo + 1
        } else {
            lo
        };
        assert(drop_plus(s) == cs@.subrange(start as int, hi as int));
        match magnitude_in(cs, start, hi, 10) {
            Some(v) => {
                if v <= 0x7fff_ffff_ffff_ffff {
                    Some(v as i64)
                } else {
                    None
                }
            },
            None => None,
        }
    }
}

} // verus!

verus! {

/// Index of the first `c` in `s`, or its length when there is none.
pub open spec fn find_char(s: Seq<char>, c: char) -> nat
    decreases s.len(),
{
    if s.len() == 0 || s[0] == c {
        0
    } else {
        1 + find_char(s.drop_first(), c)
    }
}

proof fn lemma_find_char_is(s: Seq<char>, c: char, n: int)
    requires
        0 <= n <= s.len(),
        forall|k: int| 0 <= k < n ==> #[trigger] s[k] != c,
        n == s.len() || s[n] == c,
    ensures
        find_char(s, c) == n,
    decreases n,
{
    if n > 0 {
        let t = s.drop_first();
        assert forall|k: int| 0 <= k < n - 1 implies #[trigger] t[k] != c by {
            assert(t[k] == s[k + 1]);
        }
        if n < s.len() {
            assert(t[n - 1] == s[n]);
        }
        lemma_find_char_is(t, c, n - 1);
        assert(s[0] != c);
    }
}

/// The position of the first `c` in `cs[lo..hi]`, relative to `lo`.
pub fn find_in(cs: &Vec<char>, lo: usize, hi: usize, c: char) -> (r: usize)
    requires
        lo <= hi <= cs@.len(),
    ensures
        r == find_char(cs@.subrange(lo as int, hi as int), c),
        r <= hi - lo,
{
    let ghost s = cs@.subrange(lo as int, hi as int);
    let mut j = lo;
    while j < hi && cs[j] != c
        invariant
            lo <= j <= hi <= cs@.len(),
            forall|k: int| lo <= k < j ==> #[trigger] cs@[k] != c,
        decreases hi - j,
    {
        j = j + 1;
    }
    proof {
        assert forall|k: int| 0 <= k < j - lo implies #[trigger] s[k] != c by {
            assert(s[k] == cs@[lo + k]);
        }
        if j < hi {
            assert(s[j - lo] == cs@[j as int]);
        }
        lemma_find_char_is(s, c, j - lo);
    }
    j - lo
}

} // verus!

verus! {

/// `a < b` in the order of `str::cmp`: lexicographic by character. (UTF-8
/// keeps the order of code points, so this is also the byte order.)
pub open spec fn lex_lt(a: Seq<char>, b: Seq<char>) -> bool
    decreases a.len(),
{
    if a.len() == 0 {
        b.len() > 0
    } else if b.len() == 0 {
        false
    } else if a[0] != b[0] {
        (a[0] as int) < (b[0] as int)
    } else {
        lex_lt(a.drop_first(), b.drop_first())
    }
}

pub proof fn lemma_lex_transitive(a: Seq<char>, b: Seq<char>, c: Seq<char>)
    requires
        lex_lt(a, b),
        lex_lt(b, c),
    ensures
        lex_lt(a, c),
    decreases a.len(),
{
    if a.len() > 0 && b.len() > 0 && c.len() > 0 && a[0] == b[0] && b[0] == c[0] {
        lemma_lex_transitive(a.drop_first(), b.drop_first(), c.drop_first());
    }
}

pub proof fn lemma_lex_total(a: Seq<char>, b: Seq<char>)
    requires
        a != b,
    ensures
        lex_lt(a, b) || lex_lt(b, a),
    decreases a.len(),
{
    if a.len() == 0 && b.len() == 0 {
        assert(a =~= b);
    }
    if a.len() > 0 && b.len() > 0 && a[0] == b[0] {
        if a.drop_first() == b.drop_first() {
            assert(a =~= seq![a[0]] + a.drop_first());
            assert(b =~= seq![b[0]] + b.drop_first());
        }
        lemma_lex_total(a.drop_first(), b.drop_first());
    }
}

/// Whether `a` orders before `b` (`a < b` on `&str`).
pub fn str_lt(a: &str, b: &str) -> (r: bool)
    ensures
        r == lex_lt(a@, b@),
{
    let ac = chars_of(a);
    let bc = chars_of(b);
    let mut i: usize = 0;
    assert(ac@.skip(0) =~= ac@);
    assert(bc@.skip(0) =~= bc@);
    while i < ac.len() && i < bc.len()
        invariant
            0 <= i <= ac@.len(),
            i <= bc@.len(),
            ac@ == a@,
            bc@ == b@,
            ac@.take(i as int) == bc@.take(i as int),
            lex_lt(a@, b@) == lex_lt(ac@.skip(i as int), bc@.skip(i as int)),
        decreases ac@.len() - i,
    {
        let x = ac[i];
        let y = bc[i];
        assert(ac@.skip(i as int)[0] == x && bc@.skip(i as int)[0] == y);
        if x != y {
            return x < y;
        }
        assert(ac@.skip(i as int).drop_first() =~= ac@.skip(i + 1));
        assert(bc@.skip(i as int).drop_first() =~= bc@.skip(i + 1));
        assert(ac@.take(i + 1) =~= ac@.take(i as int).push(x));
        assert(bc@.take(i + 1) =~= bc@.take(i as int).push(y));
        i = i + 1;
    }
    i < bc.len()
}

/// Whether the texts are in strictly increasing order.
pub open spec fn strictly_sorted(s: Seq<Seq<char>>) -> bool {
    forall|i: int, j: int| 0 <= i < j < s.len() ==> lex_lt(#[trigger] s[i], #[trigger] s[j])
}

/// A sequence in which each text orders before the next is strictly
/// sorted.
pub proof fn lemma_sorted_from_adjacent(s: Seq<Seq<char>>)
    requires
        forall|k: int| 0 <= k < s.len() - 1 ==> lex_lt(#[trigger] s[k], s[k + 1]),
    ensures
        strictly_sorted(s),
    decreases s.len(),
{
    if s.len() > 1 {
        let t = s.drop_last();
        assert forall|k: int| 0 <= k < t.len() - 1 implies lex_lt(#[trigger] t[k], t[k + 1]) by {
            assert(t[k] == s[k] && t[k + 1] == s[k + 1]);
        }
        lemma_sorted_from_adjacent(t);
        assert forall|i: int, j: int| 0 <= i < j < s.len() implies lex_lt(#[trigger] s[i], #[trigger] s[j]) by {
            if j < s.len() - 1 {
                assert(t[i] == s[i] && t[j] == s[j]);
            } else if i < j - 1 {
                assert(t[i] == s[i] && t[j - 1] == s[j - 1]);
                assert(lex_lt(s[j - 1], s[j]));
                lemma_lex_transitive(s[i], s[j - 1], s[j]);
            }
        }
    }
}

/// Whether no text occurs twice.
pub open spec fn no_duplicates(s: Seq<Seq<char>>) -> bool {
    forall|i: int, j: int| 0 <= i < j < s.len() ==> #[trigger] s[i] != #[trigger] s[j]
}

/// The strings of `v` (no two equal) in increasing order.
pub fn sort_strings(v: Vec<String>) -> (r: Vec<String>)
    requires
        no_duplicates(texts(v@)),
    ensures
        r@.len() == v@.len(),
        strictly_sorted(texts(r@)),
        forall|k: Seq<char>| texts(r@).contains(k) <==> texts(v@).contains(k),
{
    let ghost tv = texts(v@);
    let mut r: Vec<String> = Vec::new();
    let mut i: usize = 0;
    while i < v.len()
        invariant
            0 <= i <= v@.len(),
            tv == texts(v@),
            no_duplicates(tv),
            r@.len() == i,
            strictly_sorted(texts(r@)),
            forall|k: Seq<char>| texts(r@).contains(k) <==> tv.take(i as int).contains(k),
        decreases v@.len() - i,
    {
        let s = v[i].clone();
        let ghost t = s@;
        assert(t == tv[i as int]);
        assert(!tv.take(i as int).contains(t)) by {
            if tv.take(i as int).contains(t) {
                let j = choose|j: int| 0 <= j < i && tv.take(i as int)[j] == t;
                assert(tv[j] == tv[i as int]);
            }
        }
        let ghost tr = texts(r@);
        let mut p: usize = 0;
        while p < r.len() && str_lt(r[p].as_str(), s.as_str())
            invariant
                0 <= p <= r@.len(),
                tr == texts(r@),
                t == s@,
                forall|q: int| 0 <= q < p ==> lex_lt(#[trigger] tr[q], t),
            decreases r@.len() - p,
        {
            p = p + 1;
        }
        proof {
            if p < r@.len() {
                assert(!lex_lt(tr[p as int], t));
                assert(tr.contains(tr[p as int]));
                assert(tr[p as int] != t);
                lemma_lex_total(tr[p as int], t);
            }
        }
        r.insert(p, s);
        proof {
            let nr = texts(r@);
            assert(nr =~= tr.insert(p as int, t));
            assert forall|a: int, b: int| 0 <= a < b < nr.len() implies lex_lt(#[trigger] nr[a], #[trigger] nr[b]) by {
                if b < p {
                    assert(nr[a] == tr[a] && nr[b] == tr[b]);
                } else if b == p {
                    assert(nr[a] == tr[a]);
                } else if a == p {
                    assert(nr[b] == tr[b - 1]);
                    if b - 1 > p {
                        lemma_lex_transitive(t, tr[p as int], tr[b - 1]);
                    }
                } else if a < p {
                    assert(nr[a] == tr[a] && nr[b] == tr[b - 1]);
                } else {
                    assert(nr[a] == tr[a - 1] && nr[b] == tr[b - 1]);
                }
            }
            let ti = tv.take(i as int);
            let tn = tv.take(i + 1);
            assert(tn =~= ti.push(t));
            assert forall|k: Seq<char>| nr.contains(k) <==> tn.contains(k) by {
                if nr.contains(k) {
                    let a = choose|a: int| 0 <= a < nr.len() && nr[a] == k;
                    if a == p {
                        assert(tn[i as int] == k);
                    } else {
                        let b = if a < p { a } else { a - 1 };
                        assert(tr[b] == k);
                        assert(tr.contains(k));
                        assert(ti.contains(k));
                        let j = choose|j: int| 0 <= j < ti.len() && ti[j] == k;
                        assert(tn[j] == k);
                    }
                }
                if tn.contains(k) {
                    let j = choose|j: int| 0 <= j < tn.len() && tn[j] == k;
                    if j < i {
                        assert(ti[j] == k);
                        assert(ti.contains(k));
                    }
                    if k == t {
                        assert(nr[p as int] == t);
                    } else {
                        assert(tv.take(i as int).contains(k));
                        assert(tr.contains(k));
                        let a = choose|a: int| 0 <= a < tr.len() && tr[a] == k;
                        if a < p {
                            assert(nr[a] == k);
                        } else {
                            assert(nr[a + 1] == k);
                        }
                    }
                }
            }
        }
        i = i + 1;
    }
    assert(tv.take(v@.len() as int) =~= tv);
    r
}

} // verus!
