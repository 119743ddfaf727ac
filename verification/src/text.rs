//! Character-level text helpers: UTF-8 byte lengths, prefix and substring
//! tests, padding and decimal rendering of integers.

use vstd::prelude::*;
use vstd::string::*;
use vstd::utf8::*;

verus! {

/// Number of bytes of the UTF-8 encoding of `c`.
pub open spec fn char_width(c: char) -> nat {
    if (c as u32) < 0x80 {
        1
    } else if (c as u32) < 0x800 {
        2
    } else if (c as u32) < 0x10000 {
        3
    } else {
        4
    }
}

/// Number of bytes of the UTF-8 encoding of `s` (what `str::len` returns).
pub open spec fn byte_len(s: Seq<char>) -> nat
    decreases s.len(),
{
    if s.len() == 0 {
        0
    } else {
        char_width(s[0]) + byte_len(s.drop_first())
    }
}

/// `byte_len` agrees with the length of vstd's UTF-8 encoding.
pub proof fn lemma_byte_len_is_encoded_len(s: Seq<char>)
    ensures
        byte_len(s) == encode_utf8(s).len(),
    decreases s.len(),
{
    if s.len() > 0 {
        char_is_scalar(s[0]);
        lemma_byte_len_is_encoded_len(s.drop_first());
    }
}

/// Appending one character adds its width to the byte length.
pub proof fn lemma_byte_len_push(s: Seq<char>, c: char)
    ensures
        byte_len(s.push(c)) == byte_len(s) + char_width(c),
    decreases s.len(),
{
    if s.len() == 0 {
        assert(s.push(c).drop_first() =~= s);
    } else {
        assert(s.push(c).drop_first() =~= s.drop_first().push(c));
        lemma_byte_len_push(s.drop_first(), c);
    }
}

/// Digit character for `d` in `0..10`.
pub open spec fn digit_char(d: int) -> char {
    ((d + 48) as u32) as char
}

/// Decimal representation of `n`, most significant digit first, no leading zeros.
pub open spec fn decimal(n: nat) -> Seq<char>
    decreases n,
{
    if n < 10 {
        seq![digit_char(n as int)]
    } else {
        decimal(n / 10).push(digit_char((n % 10) as int))
    }
}

/// The value of a string of ASCII digits read in base ten, most
/// significant digit first.
pub open spec fn digits_value(s: Seq<char>) -> int
    decreases s.len(),
{
    if s.len() == 0 {
        0
    } else {
        digits_value(s.drop_last()) * 10 + (s.last() as int - '0' as int)
    }
}

/// True when `s` is a non-empty string of ASCII digits whose value is `n`.
pub open spec fn reads_as(s: Seq<char>, n: nat) -> bool {
    &&& s.len() > 0
    &&& forall|i: int| 0 <= i < s.len() ==> '0' <= #[trigger] s[i] <= '9'
    &&& digits_value(s) == n
}

/// Decimal text reads back as the number it was made from.
pub proof fn law_decimal_reads_back(n: nat)
    ensures
        reads_as(decimal(n), n),
    decreases n,
{
    if n < 10 {
        assert('0' as int == 48);
        assert(digit_char(n as int) as int == n + 48);
        assert(decimal(n).drop_last() =~= Seq::<char>::empty());
        assert(digits_value(decimal(n)) == digits_value(Seq::<char>::empty()) * 10 + n);
        assert(decimal(n)[0] == digit_char(n as int));
    } else {
        law_decimal_reads_back(n / 10);
        let d = decimal(n);
        let h = decimal(n / 10);
        assert(d.drop_last() =~= h);
        assert('0' as int == 48);
        assert(digit_char((n % 10) as int) as int == n % 10 + 48);
        assert(d.last() == digit_char((n % 10) as int));
        assert(digits_value(d) == digits_value(h) * 10 + n % 10);
        assert((n / 10) * 10 + n % 10 == n);
        assert forall|i: int| 0 <= i < d.len() implies '0' <= #[trigger] d[i] <= '9' by {
            if i < h.len() {
                assert(d[i] == h[i]);
            }
        }
    }
}

/// Appends one character to a `String` (std's `String::push`).
#[verifier::external_body]
pub(crate) fn push_char(s: &mut String, c: char)
    ensures
        final(s)@ == old(s)@.push(c),
{
    s.push(c);
}

fn digit(d: u64) -> (c: char)
    requires
        d < 10,
    ensures
        c == digit_char(d as int),
{
    let b: u8 = d as u8 + 48;
    b as char
}

/// Decimal text of `n`, as `format!("{}", n)` writes it.
pub fn decimal_string(n: u64) -> (s: String)
    ensures
        s@ == decimal(n as nat),
    decreases n,
{
    if n < 10 {
        let mut s = String::new();
        push_char(&mut s, digit(n));
        s
    } else {
        let mut s = decimal_string(n / 10);
        push_char(&mut s, digit(n % 10));
        s
    }
}


/// True when `p` is a prefix of `s`.
pub open spec fn has_prefix(s: Seq<char>, p: Seq<char>) -> bool {
    p.len() <= s.len() && s.subrange(0, p.len() as int) == p
}

/// True when `p` is a suffix of `s`.
pub open spec fn has_suffix(s: Seq<char>, p: Seq<char>) -> bool {
    p.len() <= s.len() && s.subrange(s.len() - p.len(), s.len() as int) == p
}

/// True when `p` occurs somewhere in `s` (the empty pattern occurs everywhere).
pub open spec fn has_infix(s: Seq<char>, p: Seq<char>) -> bool {
    exists|i: int| 0 <= i && i + p.len() <= s.len() && #[trigger] s.subrange(i, i + p.len()) == p
}

/// A pattern is found wherever it stands: at the start, at the end, or
/// anywhere in between.
pub proof fn law_pattern_found_anywhere(a: Seq<char>, p: Seq<char>, b: Seq<char>)
    ensures
        has_prefix(p + b, p),
        has_suffix(a + p, p),
        has_infix(a + p + b, p),
{
    assert((p + b).subrange(0, p.len() as int) =~= p);
    assert((a + p).subrange((a + p).len() - p.len(), (a + p).len() as int) =~= p);
    assert((a + p + b).subrange(a.len() as int, (a.len() + p.len()) as int) =~= p);
}

/// `n` copies of `c`.
pub open spec fn repeat(c: char, n: nat) -> Seq<char> {
    Seq::new(n, |i: int| c)
}

/// `s` padded with spaces on the right to at least `w` characters (`{:<w}`).
pub open spec fn pad_end(s: Seq<char>, w: nat) -> Seq<char> {
    if s.len() < w {
        s + repeat(' ', (w - s.len()) as nat)
    } else {
        s
    }
}

/// Left-aligned padding keeps the text and adds spaces after it up to `w`
/// characters; text already that wide is unchanged.
pub proof fn law_pad_end(s: Seq<char>, w: nat)
    ensures
        pad_end(s, w).len() == if s.len() < w { w } else { s.len() },
        pad_end(s, w).subrange(0, s.len() as int) == s,
        forall|i: int| s.len() <= i < pad_end(s, w).len() ==> #[trigger] pad_end(s, w)[i] == ' ',
{
    assert(pad_end(s, w).subrange(0, s.len() as int) =~= s);
}

/// `s` padded with spaces on the left to at least `w` characters (`{:>w}`).
pub open spec fn pad_start(s: Seq<char>, w: nat) -> Seq<char> {
    if s.len() < w {
        repeat(' ', (w - s.len()) as nat) + s
    } else {
        s
    }
}

/// Right-aligned padding adds spaces before the text up to `w` characters;
/// text already that wide is unchanged.
pub proof fn law_pad_start(s: Seq<char>, w: nat)
    ensures
        pad_start(s, w).len() == if s.len() < w { w } else { s.len() },
        pad_start(s, w).subrange(pad_start(s, w).len() - s.len(), pad_start(s, w).len() as int) == s,
        forall|i: int| 0 <= i < pad_start(s, w).len() - s.len() ==> #[trigger] pad_start(s, w)[i] == ' ',
{
    assert(pad_start(s, w).subrange(pad_start(s, w).len() - s.len(), pad_start(s, w).len() as int)
        =~= s);
}

/// The longest prefix of `s` whose UTF-8 encoding takes at most `n` bytes.
pub open spec fn byte_prefix(s: Seq<char>, n: int) -> Seq<char>
    decreases s.len(),
{
    if s.len() == 0 || n < char_width(s[0]) {
        Seq::empty()
    } else {
        seq![s[0]] + byte_prefix(s.drop_first(), n - char_width(s[0]))
    }
}

/// True when byte offset `n` of the UTF-8 encoding of `s` starts a character
/// (or is its end), so that `&s[..n]` does not panic.
pub open spec fn is_byte_boundary(s: Seq<char>, n: int) -> bool {
    0 <= n <= byte_len(s) && byte_len(byte_prefix(s, n)) == n
}

/// The characters of `s` before the first occurrence of `c` (all of `s` when `c` is absent).
pub open spec fn take_until(s: Seq<char>, c: char) -> Seq<char>
    decreases s.len(),
{
    if s.len() == 0 || s[0] == c {
        Seq::empty()
    } else {
        seq![s[0]] + take_until(s.drop_first(), c)
    }
}

/// True for the ASCII digits `0` to `9`.
pub open spec fn is_ascii_digit(c: char) -> bool {
    '0' <= c && c <= '9'
}

/// The longest prefix of `s` made of ASCII digits.
pub open spec fn leading_digits(s: Seq<char>) -> Seq<char>
    decreases s.len(),
{
    if s.len() == 0 || !is_ascii_digit(s[0]) {
        Seq::empty()
    } else {
        seq![s[0]] + leading_digits(s.drop_first())
    }
}

/// Byte length is additive over concatenation.
pub proof fn lemma_byte_len_concat(a: Seq<char>, b: Seq<char>)
    ensures
        byte_len(a + b) == byte_len(a) + byte_len(b),
    decreases a.len(),
{
    if a.len() == 0 {
        assert(a + b =~= b);
    } else {
        assert((a + b).drop_first() =~= a.drop_first() + b);
        lemma_byte_len_concat(a.drop_first(), b);
    }
}

/// The prefix kept within `n` bytes takes at most `n` bytes.
pub proof fn lemma_byte_prefix_len(s: Seq<char>, n: int)
    requires
        n >= 0,
    ensures
        byte_len(byte_prefix(s, n)) <= n,
    decreases s.len(),
{
    if s.len() > 0 && n >= char_width(s[0]) {
        lemma_byte_prefix_len(s.drop_first(), n - char_width(s[0]));
        let rest = byte_prefix(s.drop_first(), n - char_width(s[0]));
        assert((seq![s[0]] + rest).drop_first() =~= rest);
    }
}

/// `byte_prefix(s, n)` is the longest prefix of `s` that fits in `n`
/// bytes: it is a prefix of `s`, fits, and the next character would not.
pub proof fn law_byte_prefix_longest_fit(s: Seq<char>, n: int)
    requires
        n >= 0,
    ensures
        byte_prefix(s, n).len() <= s.len(),
        byte_prefix(s, n) == s.subrange(0, byte_prefix(s, n).len() as int),
        byte_len(byte_prefix(s, n)) <= n,
        byte_prefix(s, n).len() < s.len() ==> byte_len(byte_prefix(s, n)) + char_width(
            s[byte_prefix(s, n).len() as int],
        ) > n,
    decreases s.len(),
{
    lemma_byte_prefix_len(s, n);
    if s.len() > 0 && n >= char_width(s[0]) {
        let t = s.drop_first();
        let m = n - char_width(s[0]);
        law_byte_prefix_longest_fit(t, m);
        let r = byte_prefix(t, m);
        assert((seq![s[0]] + r).drop_first() =~= r);
        assert(byte_prefix(s, n) =~= s.subrange(0, byte_prefix(s, n).len() as int)) by {
            assert forall|i: int| 0 <= i < byte_prefix(s, n).len() implies byte_prefix(s, n)[i]
                == s[i] by {
                if i > 0 {
                    assert(byte_prefix(s, n)[i] == r[i - 1]);
                    assert(r[i - 1] == t.subrange(0, r.len() as int)[i - 1]);
                }
            }
        }
        if byte_prefix(s, n).len() < s.len() {
            assert(s[byte_prefix(s, n).len() as int] == t[r.len() as int]);
        }
    } else {
        assert(byte_prefix(s, n) =~= s.subrange(0, 0));
    }
}

/// `n` copies of `c` take `n` times its width in bytes.
pub proof fn lemma_byte_len_repeat(c: char, n: nat)
    ensures
        byte_len(repeat(c, n)) == n * char_width(c),
    decreases n,
{
    if n > 0 {
        lemma_byte_len_repeat(c, (n - 1) as nat);
        assert(repeat(c, n) =~= repeat(c, (n - 1) as nat).push(c));
        lemma_byte_len_push(repeat(c, (n - 1) as nat), c);
        assert((n - 1) * char_width(c) + char_width(c) == n * char_width(c)) by (nonlinear_arith);
    }
}

/// Splitting `byte_prefix` after `i` characters that all fit.
proof fn lemma_byte_prefix_step(s: Seq<char>, n: int, i: int)
    requires
        0 <= i < s.len(),
        byte_len(s.take(i + 1)) <= n,
    ensures
        byte_prefix(s.skip(i), n - byte_len(s.take(i))) == seq![s[i]] + byte_prefix(
            s.skip(i + 1),
            n - byte_len(s.take(i + 1)),
        ),
{
    assert(s.take(i + 1) =~= s.take(i).push(s[i]));
    lemma_byte_len_push(s.take(i), s[i]);
    assert(s.skip(i).drop_first() =~= s.skip(i + 1));
    assert(s.skip(i)[0] == s[i]);
}

/// The characters of a string slice, as a vector.
pub fn chars_of(s: &str) -> (v: Vec<char>)
    ensures
        v@ == s@,
{
    let n = s.unicode_len();
    let mut v: Vec<char> = Vec::new();
    let mut i: usize = 0;
    while i < n
        invariant
            n == s@.len(),
            i <= n,
            v@ == s@.take(i as int),
        decreases n - i,
    {
        let c = s.get_char(i);
        v.push(c);
        i = i + 1;
        assert(v@ =~= s@.take(i as int));
    }
    assert(s@.take(n as int) =~= s@);
    v
}

/// A `String` holding the given characters.
pub fn string_of(v: &Vec<char>) -> (s: String)
    ensures
        s@ == v@,
{
    let mut s = String::new();
    let mut i: usize = 0;
    while i < v.len()
        invariant
            i <= v.len(),
            s@ == v@.take(i as int),
        decreases v.len() - i,
    {
        push_char(&mut s, v[i]);
        i = i + 1;
        assert(s@ =~= v@.take(i as int));
    }
    assert(v@.take(v.len() as int) =~= v@);
    s
}

/// Whether `p` is a prefix of `s`.
pub fn starts_with(s: &Vec<char>, p: &Vec<char>) -> (b: bool)
    ensures
        b == has_prefix(s@, p@),
{
    if p.len() > s.len() {
        return false;
    }
    let mut i: usize = 0;
    while i < p.len()
        invariant
            p.len() <= s.len(),
            i <= p.len(),
            forall|k: int| 0 <= k < i ==> s@[k] == p@[k],
        decreases p.len() - i,
    {
        if s[i] != p[i] {
            assert(s@.subrange(0, p.len() as int)[i as int] != p@[i as int]);
            return false;
        }
        i = i + 1;
    }
    assert(s@.subrange(0, p.len() as int) =~= p@);
    true
}

/// Whether `p` is a suffix of `s`.
pub fn ends_with(s: &Vec<char>, p: &Vec<char>) -> (b: bool)
    ensures
        b == has_suffix(s@, p@),
{
    if p.len() > s.len() {
        return false;
    }
    let off = s.len() - p.len();
    let mut i: usize = 0;
    while i < p.len()
        invariant
            p.len() <= s.len(),
            off == s.len() - p.len(),
            i <= p.len(),
            forall|k: int| 0 <= k < i ==> s@[off + k] == p@[k],
        decreases p.len() - i,
    {
        if s[off + i] != p[i] {
            assert(s@.subrange(off as int, s.len() as int)[i as int] != p@[i as int]);
            return false;
        }
        i = i + 1;
    }
    assert(s@.subrange(off as int, s.len() as int) =~= p@);
    true
}

/// Whether `p` occurs in `s` at character offset `at`.
fn occurs_at(s: &Vec<char>, p: &Vec<char>, at: usize) -> (b: bool)
    requires
        at + p.len() <= s.len(),
    ensures
        b == (s@.subrange(at as int, at + p.len()) == p@),
{
    let mut i: usize = 0;
    while i < p.len()
        invariant
            at + p.len() <= s.len(),
            i <= p.len(),
            forall|k: int| 0 <= k < i ==> s@[at + k] == p@[k],
        decreases p.len() - i,
    {
        if s[at + i] != p[i] {
            assert(s@.subrange(at as int, at + p.len())[i as int] != p@[i as int]);
            return false;
        }
        i = i + 1;
    }
    assert(s@.subrange(at as int, at + p.len()) =~= p@);
    true
}

/// Whether `p` occurs anywhere in `s`.
pub fn contains(s: &Vec<char>, p: &Vec<char>) -> (b: bool)
    ensures
        b == has_infix(s@, p@),
{
    if p.len() > s.len() {
        return false;
    }
    let last = s.len() - p.len();
    let mut at: usize = 0;
    while at < last
        invariant
            p.len() <= s.len(),
            last == s.len() - p.len(),
            at <= last,
            forall|k: int| 0 <= k < at ==> #[trigger] s@.subrange(k, k + p.len()) != p@,
        decreases last - at,
    {
        if occurs_at(s, p, at) {
            return true;
        }
        at = at + 1;
    }
    occurs_at(s, p, last)
}

/// Whether the text `s` contains the pattern `p`.
pub fn str_contains(s: &Vec<char>, p: &str) -> (b: bool)
    ensures
        b == has_infix(s@, p@),
{
    let pv = chars_of(p);
    contains(s, &pv)
}

/// Whether the text `s` is exactly `p`.
pub fn str_equals(s: &Vec<char>, p: &str) -> (b: bool)
    ensures
        b == (s@ == p@),
{
    let pv = chars_of(p);
    let pre = starts_with(s, &pv);
    if pre && s.len() == pv.len() {
        assert(s@ =~= s@.subrange(0, pv.len() as int));
        true
    } else {
        assert(s@ == p@ ==> s@.subrange(0, s@.len() as int) =~= s@);
        false
    }
}

/// Whether the text `s` starts with the pattern `p`.
pub fn str_starts_with(s: &Vec<char>, p: &str) -> (b: bool)
    ensures
        b == has_prefix(s@, p@),
{
    let pv = chars_of(p);
    starts_with(s, &pv)
}

/// Number of bytes UTF-8 uses for `c`.
pub fn utf8_width(c: char) -> (n: usize)
    ensures
        n == char_width(c),
{
    let v = c as u32;
    if v < 0x80 {
        1
    } else if v < 0x800 {
        2
    } else if v < 0x10000 {
        3
    } else {
        4
    }
}

/// Byte length of the UTF-8 encoding of `s`.
pub fn utf8_len(s: &Vec<char>) -> (n: usize)
    requires
        byte_len(s@) <= usize::MAX,
    ensures
        n == byte_len(s@),
{
    let mut n: usize = 0;
    let mut i: usize = 0;
    while i < s.len()
        invariant
            i <= s.len(),
            n == byte_len(s@.take(i as int)),
            byte_len(s@) <= usize::MAX,
        decreases s.len() - i,
    {
        proof {
            assert(s@.take(i + 1) =~= s@.take(i as int).push(s@[i as int]));
            lemma_byte_len_push(s@.take(i as int), s@[i as int]);
            assert(s@ =~= s@.take(i + 1) + s@.skip(i + 1));
            lemma_byte_len_concat(s@.take(i + 1), s@.skip(i + 1));
        }
        n = n + utf8_width(s[i]);
        i = i + 1;
    }
    assert(s@.take(s.len() as int) =~= s@);
    n
}

/// The longest prefix of `s` whose UTF-8 encoding takes at most `n` bytes.
pub fn prefix_within_bytes(s: &Vec<char>, n: usize) -> (r: Vec<char>)
    ensures
        r@ == byte_prefix(s@, n as int),
{
    let mut r: Vec<char> = Vec::new();
    let mut used: usize = 0;
    let mut i: usize = 0;
    assert(s@.skip(0) =~= s@);
    while i < s.len()
        invariant
            i <= s.len(),
            r@ == s@.take(i as int),
            used == byte_len(s@.take(i as int)),
            used <= n,
            byte_prefix(s@, n as int) == r@ + byte_prefix(s@.skip(i as int), n - used),
        decreases s.len() - i,
    {
        let w = utf8_width(s[i]);
        if w > n - used {
            assert(s@.skip(i as int)[0] == s@[i as int]);
            assert(byte_prefix(s@.skip(i as int), n - used) =~= Seq::<char>::empty());
            assert(r@ + Seq::<char>::empty() =~= r@);
            return r;
        }
        proof {
            assert(s@.take(i + 1) =~= s@.take(i as int).push(s@[i as int]));
            lemma_byte_len_push(s@.take(i as int), s@[i as int]);
            lemma_byte_prefix_step(s@, n as int, i as int);
            assert(r@.push(s@[i as int]) + byte_prefix(s@.skip(i + 1), n - (used + w)) =~= r@
                + (seq![s@[i as int]] + byte_prefix(s@.skip(i + 1), n - (used + w))));
        }
        r.push(s[i]);
        used = used + w;
        i = i + 1;
    }
    assert(s@.skip(i as int) =~= Seq::<char>::empty());
    assert(r@ + Seq::<char>::empty() =~= r@);
    assert(s@.take(i as int) =~= s@);
    r
}


/// Appends the characters of `s` to `v`.
pub fn push_str(v: &mut Vec<char>, s: &str)
    ensures
        final(v)@ == old(v)@ + s@,
{
    let cs = chars_of(s);
    push_all(v, &cs);
}

/// Appends the characters of `s` to `v`.
pub fn push_all(v: &mut Vec<char>, s: &Vec<char>)
    ensures
        final(v)@ == old(v)@ + s@,
{
    let ghost start = v@;
    let mut i: usize = 0;
    while i < s.len()
        invariant
            i <= s.len(),
            v@ == start + s@.take(i as int),
        decreases s.len() - i,
    {
        v.push(s[i]);
        i = i + 1;
        assert(v@ =~= start + s@.take(i as int));
    }
    assert(s@.take(s.len() as int) =~= s@);
}

/// Appends `n` copies of `c` to `v`.
pub fn push_repeat(v: &mut Vec<char>, c: char, n: usize)
    ensures
        final(v)@ == old(v)@ + repeat(c, n as nat),
{
    let ghost start = v@;
    let mut i: usize = 0;
    while i < n
        invariant
            i <= n,
            v@ == start + repeat(c, i as nat),
        decreases n - i,
    {
        v.push(c);
        i = i + 1;
        assert(v@ =~= start + repeat(c, i as nat));
    }
}

/// `s` padded with spaces on the right to at least `w` characters.
pub fn padded_end(s: &Vec<char>, w: usize) -> (r: Vec<char>)
    ensures
        r@ == pad_end(s@, w as nat),
{
    let mut r: Vec<char> = Vec::new();
    push_all(&mut r, s);
    if s.len() < w {
        push_repeat(&mut r, ' ', w - s.len());
    }
    assert(Seq::<char>::empty() + s@ =~= s@);
    r
}

/// `s` padded with spaces on the left to at least `w` characters.
pub fn padded_start(s: &Vec<char>, w: usize) -> (r: Vec<char>)
    ensures
        r@ == pad_start(s@, w as nat),
{
    let mut r: Vec<char> = Vec::new();
    if s.len() < w {
        push_repeat(&mut r, ' ', w - s.len());
    }
    push_all(&mut r, s);
    assert(Seq::<char>::empty() + repeat(' ', (w - s.len()) as nat) =~= repeat(' ', (w - s.len()) as nat));
    assert(Seq::<char>::empty() + s@ =~= s@);
    r
}

/// The characters of `s` before the first `c`.
pub fn prefix_until(s: &Vec<char>, c: char) -> (r: Vec<char>)
    ensures
        r@ == take_until(s@, c),
{
    let mut r: Vec<char> = Vec::new();
    let mut i: usize = 0;
    assert(s@.skip(0) =~= s@);
    while i < s.len()
        invariant
            i <= s.len(),
            r@ == s@.take(i as int),
            take_until(s@, c) == r@ + take_until(s@.skip(i as int), c),
        decreases s.len() - i,
    {
        assert(s@.skip(i as int)[0] == s@[i as int]);
        if s[i] == c {
            assert(take_until(s@.skip(i as int), c) =~= Seq::<char>::empty());
            assert(r@ + Seq::<char>::empty() =~= r@);
            return r;
        }
        proof {
            assert(s@.skip(i as int).drop_first() =~= s@.skip(i + 1));
            assert(r@.push(s@[i as int]) + take_until(s@.skip(i + 1), c) =~= r@ + (seq![s@[i as int]]
                + take_until(s@.skip(i + 1), c)));
        }
        r.push(s[i]);
        i = i + 1;
        assert(r@ =~= s@.take(i as int));
    }
    assert(s@.skip(i as int) =~= Seq::<char>::empty());
    assert(r@ + Seq::<char>::empty() =~= r@);
    r
}

/// The ASCII digits at the start of `s`.
pub fn prefix_digits(s: &Vec<char>) -> (r: Vec<char>)
    ensures
        r@ == leading_digits(s@),
{
    let mut r: Vec<char> = Vec::new();
    let mut i: usize = 0;
    assert(s@.skip(0) =~= s@);
    while i < s.len()
        invariant
            i <= s.len(),
            r@ == s@.take(i as int),
            leading_digits(s@) == r@ + leading_digits(s@.skip(i as int)),
        decreases s.len() - i,
    {
        assert(s@.skip(i as int)[0] == s@[i as int]);
        if !('0' <= s[i] && s[i] <= '9') {
            assert(leading_digits(s@.skip(i as int)) =~= Seq::<char>::empty());
            assert(r@ + Seq::<char>::empty() =~= r@);
            return r;
        }
        proof {
            assert(s@.skip(i as int).drop_first() =~= s@.skip(i + 1));
            assert(r@.push(s@[i as int]) + leading_digits(s@.skip(i + 1)) =~= r@ + (seq![s@[i as int]]
                + leading_digits(s@.skip(i + 1))));
        }
        r.push(s[i]);
        i = i + 1;
        assert(r@ =~= s@.take(i as int));
    }
    assert(s@.skip(i as int) =~= Seq::<char>::empty());
    assert(r@ + Seq::<char>::empty() =~= r@);
    r
}

/// What `str::to_lowercase` returns for a string whose characters are `s`.
pub uninterp spec fn lowercase(s: Seq<char>) -> Seq<char>;

/// std's `str::to_lowercase`. Claimed: the result's characters are
/// `lowercase` of the argument's characters, a function of the argument
/// alone (the Unicode case tables of the standard library); nothing more is
/// claimed about which characters change.
#[verifier::external_body]
pub(crate) fn to_lowercase(s: &str) -> (r: String)
    ensures
        r@ == lowercase(s@),
{
    s.to_lowercase()
}

/// What `char::is_alphanumeric` returns for `c`.
pub uninterp spec fn alphanumeric(c: char) -> bool;

/// std's `char::is_alphanumeric`. Claimed: the answer is `alphanumeric(c)`, a
/// function of `c` alone (the Unicode Alphabetic and Numeric properties);
/// which characters qualify is not stated.
#[verifier::external_body]
pub(crate) fn is_alphanumeric(c: char) -> (b: bool)
    ensures
        b == alphanumeric(c),
{
    c.is_alphanumeric()
}


/// The first `n` characters of `s`, or all of `s` when it is shorter.
pub open spec fn first_chars(s: Seq<char>, n: nat) -> Seq<char> {
    if s.len() <= n {
        s
    } else {
        s.take(n as int)
    }
}

/// The characters of `s` from offset `k` on.
pub fn chars_from(s: &Vec<char>, k: usize) -> (r: Vec<char>)
    requires
        k <= s.len(),
    ensures
        r@ == s@.skip(k as int),
{
    let mut r: Vec<char> = Vec::new();
    let mut i: usize = k;
    while i < s.len()
        invariant
            k <= i <= s.len(),
            r@ == s@.subrange(k as int, i as int),
        decreases s.len() - i,
    {
        r.push(s[i]);
        i = i + 1;
        assert(r@ =~= s@.subrange(k as int, i as int));
    }
    assert(r@ =~= s@.skip(k as int));
    r
}

/// The first `n` characters of `s` (all of them when it is shorter).
pub fn chars_upto(s: &Vec<char>, n: usize) -> (r: Vec<char>)
    ensures
        r@ == first_chars(s@, n as nat),
{
    let mut r: Vec<char> = Vec::new();
    let mut i: usize = 0;
    while i < s.len() && i < n
        invariant
            i <= s.len(),
            i <= n,
            r@ == s@.take(i as int),
        decreases s.len() - i,
    {
        r.push(s[i]);
        i = i + 1;
        assert(r@ =~= s@.take(i as int));
    }
    assert(s.len() <= n ==> s@.take(i as int) =~= s@);
    r
}

/// Byte length of the UTF-8 encoding of `s`, as `str::len` returns it.
pub fn byte_length(s: &str) -> (n: usize)
    ensures
        n == byte_len(s@),
{
    let bytes = s.as_bytes();
    proof {
        lemma_byte_len_is_encoded_len(s@);
    }
    bytes.len()
}

/// Whether the UTF-8 encoding of `s` takes more than `limit` bytes.
pub fn byte_len_exceeds(s: &Vec<char>, limit: usize) -> (b: bool)
    requires
        limit <= usize::MAX - 4,
    ensures
        b == (byte_len(s@) > limit),
{
    let mut n: usize = 0;
    let mut i: usize = 0;
    while i < s.len()
        invariant
            i <= s.len(),
            limit <= usize::MAX - 4,
            n == byte_len(s@.take(i as int)),
            n <= limit,
        decreases s.len() - i,
    {
        proof {
            assert(s@.take(i + 1) =~= s@.take(i as int).push(s@[i as int]));
            lemma_byte_len_push(s@.take(i as int), s@[i as int]);
        }
        n = n + utf8_width(s[i]);
        i = i + 1;
        if n > limit {
            proof {
                assert(s@ =~= s@.take(i as int) + s@.skip(i as int));
                lemma_byte_len_concat(s@.take(i as int), s@.skip(i as int));
            }
            return true;
        }
    }
    assert(s@.take(s.len() as int) =~= s@);
    false
}

/// A prefix of the pattern is in particular an occurrence of it.
pub proof fn lemma_prefix_is_infix(s: Seq<char>, p: Seq<char>)
    requires
        has_prefix(s, p),
    ensures
        has_infix(s, p),
{
    assert(s.subrange(0, 0 + p.len() as int) == p);
}

} // verus!
