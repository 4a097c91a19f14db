//! Character-level string operations with their mathematical meaning.
//!
//! Every function here states its result over `Seq<char>`, the view of
//! `String` and `&str`, so that the rest of the library can reason about the
//! text it builds.
use vstd::prelude::*;

verus! {

/// `char::is_whitespace`: the Unicode `White_Space` property.
pub open spec fn is_ws(c: char) -> bool {
    ('\u{9}' <= c && c <= '\u{d}') || c == ' ' || c == '\u{85}' || c == '\u{a0}' || c == '\u{1680}'
        || ('\u{2000}' <= c && c <= '\u{200a}') || c == '\u{2028}' || c == '\u{2029}' || c
        == '\u{202f}' || c == '\u{205f}' || c == '\u{3000}'
}

/// The text without its leading white space.
pub open spec fn trim_start_spec(s: Seq<char>) -> Seq<char>
    decreases s.len(),
{
    if s.len() > 0 && is_ws(s[0]) {
        trim_start_spec(s.drop_first())
    } else {
        s
    }
}

/// The text without its trailing white space.
pub open spec fn trim_end_spec(s: Seq<char>) -> Seq<char>
    decreases s.len(),
{
    if s.len() > 0 && is_ws(s.last()) {
        trim_end_spec(s.drop_last())
    } else {
        s
    }
}

/// `str::trim`: the text without leading and trailing white space.
pub open spec fn trim_spec(s: Seq<char>) -> Seq<char> {
    trim_end_spec(trim_start_spec(s))
}

/// The first `n` characters, or all of them when there are fewer.
pub open spec fn take_chars_spec(s: Seq<char>, n: nat) -> Seq<char> {
    if s.len() <= n {
        s
    } else {
        s.take(n as int)
    }
}

/// `sub` occurs in `s` at position `i`.
pub open spec fn occurs_at(s: Seq<char>, sub: Seq<char>, i: int) -> bool {
    0 <= i && i + sub.len() <= s.len() && s.subrange(i, i + sub.len()) == sub
}

/// `str::contains` with a string pattern.
pub open spec fn contains_spec(s: Seq<char>, sub: Seq<char>) -> bool {
    exists|i: int| occurs_at(s, sub, i)
}

/// `str::starts_with` with a string pattern.
pub open spec fn starts_with_spec(s: Seq<char>, prefix: Seq<char>) -> bool {
    prefix.len() <= s.len() && s.take(prefix.len() as int) == prefix
}

/// `parts` joined with `sep` between neighbours (`[T]::join`).
pub open spec fn join_spec(parts: Seq<Seq<char>>, sep: Seq<char>) -> Seq<char>
    decreases parts.len(),
{
    if parts.len() == 0 {
        Seq::empty()
    } else if parts.len() == 1 {
        parts[0]
    } else {
        join_spec(parts.drop_last(), sep) + sep + parts.last()
    }
}

/// The views of a vector of strings.
pub open spec fn views(v: Seq<String>) -> Seq<Seq<char>> {
    v.map_values(|s: String| s@)
}

/// The decimal digit character for `d < 10`.
pub open spec fn digit_char(d: nat) -> char {
    (48 + d) as char
}

/// The lower-case hexadecimal digit character for `d < 16`.
pub open spec fn hex_char(d: nat) -> char {
    if d < 10 {
        (48 + d) as char
    } else {
        (87 + d) as char
    }
}

/// The decimal representation of `n`, as `Display` writes an unsigned integer.
pub open spec fn decimal(n: nat) -> Seq<char>
    decreases n,
{
    if n < 10 {
        seq![digit_char(n)]
    } else {
        decimal(n / 10).push(digit_char(n % 10))
    }
}

/// The lower-case hexadecimal representation of `n` (`{:x}`).
pub open spec fn hexadecimal(n: nat) -> Seq<char>
    decreases n,
{
    if n < 16 {
        seq![hex_char(n)]
    } else {
        hexadecimal(n / 16).push(hex_char(n % 16))
    }
}

/// `s` padded on the left with `'0'` to at least `width` characters.
pub open spec fn zero_pad(s: Seq<char>, width: nat) -> Seq<char> {
    if s.len() >= width {
        s
    } else {
        Seq::new((width - s.len()) as nat, |_i: int| '0') + s
    }
}

/// `{:08x}`: lower-case hexadecimal padded with zeros to eight characters.
pub open spec fn hex08(n: nat) -> Seq<char> {
    zero_pad(hexadecimal(n), 8)
}

/// The value of a lower-case hexadecimal digit character.
pub open spec fn hex_char_value(c: char) -> int {
    if c <= '9' {
        c as int - 48
    } else {
        c as int - 87
    }
}

/// The value of a run of lower-case hexadecimal digits (0 for none).
pub open spec fn hex_value(s: Seq<char>) -> int
    decreases s.len(),
{
    if s.len() == 0 {
        0
    } else {
        hex_value(s.drop_last()) * 16 + hex_char_value(s.last())
    }
}

/// `hexadecimal` reads back as the number it was made from.
pub proof fn lemma_hex_value_hexadecimal(n: nat)
    ensures
        hex_value(hexadecimal(n)) == n,
    decreases n,
{
    if n < 16 {
        let s = seq![hex_char(n)];
        assert(s.drop_last() =~= Seq::<char>::empty());
        assert(hex_value(s.drop_last()) == 0);
        assert(s.last() == hex_char(n));
        assert(hex_char_value(hex_char(n)) == n);
        assert(hexadecimal(n) == s);
    } else {
        lemma_hex_value_hexadecimal(n / 16);
        let s = hexadecimal(n / 16).push(hex_char(n % 16));
        assert(s.drop_last() =~= hexadecimal(n / 16));
        assert(s.last() == hex_char(n % 16));
        assert(hex_char_value(hex_char(n % 16)) == n % 16);
        assert(hexadecimal(n) == s);
        assert((n / 16) * 16 + n % 16 == n);
    }
}

proof fn lemma_hex_value_leading_zeros(z: Seq<char>, s: Seq<char>)
    requires
        forall|i: int| 0 <= i < z.len() ==> z[i] == '0',
    ensures
        hex_value(z + s) == hex_value(s),
    decreases z.len() + s.len(),
{
    if s.len() == 0 {
        assert(z + s =~= z);
        if z.len() > 0 {
            lemma_hex_value_leading_zeros(z.drop_last(), s);
            assert(z.drop_last() + s =~= z.drop_last());
            assert(z.last() == '0');
        }
    } else {
        lemma_hex_value_leading_zeros(z, s.drop_last());
        assert((z + s).drop_last() =~= z + s.drop_last());
        assert((z + s).last() == s.last());
    }
}

/// `{:08x}` reads back as the number it was made from.
pub proof fn lemma_hex_value_hex08(n: nat)
    ensures
        hex_value(hex08(n)) == n,
{
    lemma_hex_value_hexadecimal(n);
    let h = hexadecimal(n);
    if h.len() < 8 {
        let z = Seq::new((8 - h.len()) as nat, |_i: int| '0');
        lemma_hex_value_leading_zeros(z, h);
    }
}

pub open spec fn is_digit(c: char) -> bool {
    '0' <= c && c <= '9'
}

/// The value of a non-empty run of decimal digits.
pub open spec fn digits_value(s: Seq<char>) -> nat
    decreases s.len(),
{
    if s.len() == 0 {
        0
    } else {
        digits_value(s.drop_last()) * 10 + ((s.last() as nat) - 48) as nat
    }
}

/// The text after an optional leading `+`.
pub open spec fn unsigned_part(s: Seq<char>) -> Seq<char> {
    if s.len() > 0 && s[0] == '+' {
        s.drop_first()
    } else {
        s
    }
}

pub open spec fn all_digits(s: Seq<char>) -> bool {
    forall|i: int| 0 <= i < s.len() ==> is_digit(#[trigger] s[i])
}

/// `str::parse::<u32>`: an optional `+`, then one or more ASCII digits whose
/// value fits in 32 bits.
pub open spec fn parse_u32_spec(s: Seq<char>) -> Option<u32> {
    let digits = unsigned_part(s);
    if digits.len() > 0 && all_digits(digits) && digits_value(digits) <= u32::MAX {
        Some(digits_value(digits) as u32)
    } else {
        None
    }
}

/// `String::push`, which appends one character.
#[verifier::external_body]
pub fn push_char(s: &mut String, c: char)
    ensures
        final(s)@ == old(s)@.push(c),
{
    s.push(c);
}

/// The characters of `s`, in order.
pub fn chars_of(s: &str) -> (v: Vec<char>)
    ensures
        v@ == s@,
{
    let mut v: Vec<char> = Vec::new();
    for c in it: s.chars()
        invariant
            v@ == it.seq().take(it.index() as int),
            it.seq() == s@,
    {
        v.push(c);
    }
    v
}

/// The string made of the characters `v[from..to]`.
pub fn string_of_range(v: &Vec<char>, from: usize, to: usize) -> (s: String)
    requires
        from <= to <= v.len(),
    ensures
        s@ == v@.subrange(from as int, to as int),
{
    let mut s = String::new();
    let mut i = from;
    while i < to
        invariant
            from <= i <= to <= v.len(),
            s@ == v@.subrange(from as int, i as int),
        decreases to - i,
    {
        push_char(&mut s, v[i]);
        assert(v@.subrange(from as int, i + 1) == v@.subrange(from as int, i as int).push(
            v@[i as int],
        ));
        i = i + 1;
    }
    s
}

/// The string made of the characters of `v`.
pub fn string_of(v: &Vec<char>) -> (s: String)
    ensures
        s@ == v@,
{
    let s = string_of_range(v, 0, v.len());
    assert(v@.subrange(0, v.len() as int) == v@);
    s
}

/// An owned copy of `s`.
pub fn owned(s: &str) -> (r: String)
    ensures
        r@ == s@,
{
    let mut r = String::new();
    r.append(s);
    assert(r@ == s@);
    r
}

/// `a` followed by `b`.
pub fn concat(a: String, b: &str) -> (r: String)
    ensures
        r@ == a@ + b@,
{
    let mut a = a;
    a.append(b);
    a
}

/// Whether two strings hold the same characters.
pub fn str_eq(a: &str, b: &str) -> (r: bool)
    ensures
        r == (a@ == b@),
{
    let va = chars_of(a);
    let vb = chars_of(b);
    if va.len() != vb.len() {
        return false;
    }
    let mut i: usize = 0;
    while i < va.len()
        invariant
            va@ == a@,
            vb@ == b@,
            va.len() == vb.len(),
            i <= va.len(),
            forall|j: int| 0 <= j < i ==> va@[j] == vb@[j],
        decreases va.len() - i,
    {
        if va[i] != vb[i] {
            assert(va@[i as int] != vb@[i as int]);
            return false;
        }
        i = i + 1;
    }
    assert(va@ =~= vb@);
    true
}

/// `char::is_whitespace`.
pub fn is_whitespace(c: char) -> (b: bool)
    ensures
        b == is_ws(c),
{
    ('\u{9}' <= c && c <= '\u{d}') || c == ' ' || c == '\u{85}' || c == '\u{a0}' || c == '\u{1680}'
        || ('\u{2000}' <= c && c <= '\u{200a}') || c == '\u{2028}' || c == '\u{2029}' || c
        == '\u{202f}' || c == '\u{205f}' || c == '\u{3000}'
}

proof fn lemma_trim_start(s: Seq<char>, k: int)
    requires
        0 <= k <= s.len(),
        forall|i: int| 0 <= i < k ==> is_ws(#[trigger] s[i]),
        k == s.len() || !is_ws(s[k]),
    ensures
        trim_start_spec(s) == s.subrange(k, s.len() as int),
    decreases k,
{
    if k == 0 {
        assert(s.subrange(0, s.len() as int) == s);
    } else {
        let t = s.drop_first();
        assert forall|i: int| 0 <= i < k - 1 implies is_ws(#[trigger] t[i]) by {
            assert(t[i] == s[i + 1]);
        }
        lemma_trim_start(t, k - 1);
        assert(t.subrange(k - 1, t.len() as int) == s.subrange(k, s.len() as int));
    }
}

proof fn lemma_trim_end(s: Seq<char>, k: int)
    requires
        0 <= k <= s.len(),
        forall|i: int| k <= i < s.len() ==> is_ws(#[trigger] s[i]),
        k == 0 || !is_ws(s[k - 1]),
    ensures
        trim_end_spec(s) == s.take(k),
    decreases s.len() - k,
{
    if k == s.len() {
        assert(s.take(k) == s);
    } else {
        let t = s.drop_last();
        assert forall|i: int| k <= i < t.len() implies is_ws(#[trigger] t[i]) by {
            assert(t[i] == s[i]);
        }
        lemma_trim_end(t, k);
        assert(t.take(k) == s.take(k));
    }
}

/// The bounds `[start, end)` of `v` once leading and trailing white space is
/// dropped.
pub fn trim_bounds(v: &Vec<char>) -> (r: (usize, usize))
    ensures
        r.0 <= r.1 <= v.len(),
        v@.subrange(r.0 as int, r.1 as int) == trim_spec(v@),
{
    let mut start: usize = 0;
    while start < v.len() && is_whitespace(v[start])
        invariant
            start <= v.len(),
            forall|i: int| 0 <= i < start ==> is_ws(#[trigger] v@[i]),
        decreases v.len() - start,
    {
        start = start + 1;
    }
    proof {
        lemma_trim_start(v@, start as int);
    }
    let mut end: usize = v.len();
    while end > start && is_whitespace(v[end - 1])
        invariant
            start <= end <= v.len(),
            forall|i: int| end <= i < v.len() ==> is_ws(#[trigger] v@[i]),
        decreases end - start,
    {
        end = end - 1;
    }
    proof {
        let t = v@.subrange(start as int, v.len() as int);
        let k = end - start;
        assert forall|i: int| k <= i < t.len() implies is_ws(#[trigger] t[i]) by {
            assert(t[i] == v@[start + i]);
        }
        if k > 0 {
            assert(t[k - 1] == v@[end - 1]);
        }
        lemma_trim_end(t, k as int);
        assert(t.take(k as int) == v@.subrange(start as int, end as int));
    }
    (start, end)
}

/// `str::trim`, as an owned string.
pub fn trim(s: &str) -> (r: String)
    ensures
        r@ == trim_spec(s@),
{
    let v = chars_of(s);
    let (a, b) = trim_bounds(&v);
    string_of_range(&v, a, b)
}

/// The first `n` characters of `s` (`s.chars().take(n).collect()`).
pub fn take_chars(s: &str, n: usize) -> (r: String)
    ensures
        r@ == take_chars_spec(s@, n as nat),
{
    let v = chars_of(s);
    if v.len() <= n {
        string_of(&v)
    } else {
        let r = string_of_range(&v, 0, n);
        assert(v@.subrange(0, n as int) == v@.take(n as int));
        r
    }
}

/// The number of characters of `s` (`s.chars().count()`).
pub fn char_count(s: &str) -> (n: usize)
    ensures
        n == s@.len(),
{
    let v = chars_of(s);
    v.len()
}

/// Whether `sub` occurs in `v` at position `i`.
pub fn occurs_at_exec(v: &Vec<char>, sub: &Vec<char>, i: usize) -> (r: bool)
    ensures
        r == occurs_at(v@, sub@, i as int),
{
    if i > v.len() || sub.len() > v.len() - i {
        return false;
    }
    let mut j: usize = 0;
    while j < sub.len()
        invariant
            i + sub.len() <= v.len(),
            j <= sub.len(),
            forall|k: int| 0 <= k < j ==> v@[i + k] == sub@[k],
        decreases sub.len() - j,
    {
        if v[i + j] != sub[j] {
            assert(v@.subrange(i as int, i + sub.len())[j as int] != sub@[j as int]);
            return false;
        }
        j = j + 1;
    }
    assert(v@.subrange(i as int, i + sub.len()) =~= sub@);
    true
}

/// Whether `sub` occurs anywhere in `v`.
pub fn contains_chars(v: &Vec<char>, sub: &Vec<char>) -> (r: bool)
    ensures
        r == contains_spec(v@, sub@),
{
    if sub.len() > v.len() {
        assert forall|i: int| !occurs_at(v@, sub@, i) by {}
        return false;
    }
    let last = v.len() - sub.len();
    let mut i: usize = 0;
    loop
        invariant
            sub.len() <= v.len(),
            last == v.len() - sub.len(),
            i <= last,
            forall|k: int| 0 <= k < i ==> !occurs_at(v@, sub@, k),
        ensures
            forall|k: int| 0 <= k <= last ==> !occurs_at(v@, sub@, k),
        decreases last - i,
    {
        if occurs_at_exec(v, sub, i) {
            return true;
        }
        if i == last {
            break;
        }
        i = i + 1;
    }
    false
}

/// `str::contains` with a string pattern.
pub fn contains(s: &str, sub: &str) -> (r: bool)
    ensures
        r == contains_spec(s@, sub@),
{
    let v = chars_of(s);
    let w = chars_of(sub);
    contains_chars(&v, &w)
}

/// `str::starts_with` with a string pattern.
pub fn starts_with(s: &str, prefix: &str) -> (r: bool)
    ensures
        r == starts_with_spec(s@, prefix@),
{
    let v = chars_of(s);
    let p = chars_of(prefix);
    let r = occurs_at_exec(&v, &p, 0);
    assert(v@.subrange(0, p@.len() as int) == v@.take(p@.len() as int));
    r
}

proof fn lemma_join_push(parts: Seq<Seq<char>>, sep: Seq<char>, p: Seq<char>)
    ensures
        join_spec(parts.push(p), sep) == if parts.len() == 0 {
            p
        } else {
            join_spec(parts, sep) + sep + p
        },
{
    assert(parts.push(p).drop_last() == parts);
}

/// `parts.join(sep)`.
pub fn join(parts: &Vec<String>, sep: &str) -> (r: String)
    ensures
        r@ == join_spec(views(parts@), sep@),
{
    let mut r = String::new();
    let mut i: usize = 0;
    while i < parts.len()
        invariant
            i <= parts.len(),
            r@ == join_spec(views(parts@.take(i as int)), sep@),
        decreases parts.len() - i,
    {
        proof {
            assert(views(parts@.take(i + 1)) == views(parts@.take(i as int)).push(parts@[i as int]@));
            lemma_join_push(views(parts@.take(i as int)), sep@, parts@[i as int]@);
        }
        if i > 0 {
            r.append(sep);
        }
        r.append(parts[i].as_str());
        i = i + 1;
    }
    assert(parts@.take(parts.len() as int) == parts@);
    r
}

proof fn lemma_digit_char(d: nat)
    requires
        d < 10,
    ensures
        d == 0 ==> digit_char(d) == '0',
        d == 1 ==> digit_char(d) == '1',
        d == 2 ==> digit_char(d) == '2',
        d == 3 ==> digit_char(d) == '3',
        d == 4 ==> digit_char(d) == '4',
        d == 5 ==> digit_char(d) == '5',
        d == 6 ==> digit_char(d) == '6',
        d == 7 ==> digit_char(d) == '7',
        d == 8 ==> digit_char(d) == '8',
        d == 9 ==> digit_char(d) == '9',
{
}

fn hex_digit(d: u64) -> (c: char)
    requires
        d < 16,
    ensures
        c == hex_char(d as nat),
{
    if d < 10 {
        match d {
            0 => '0',
            1 => '1',
            2 => '2',
            3 => '3',
            4 => '4',
            5 => '5',
            6 => '6',
            7 => '7',
            8 => '8',
            _ => '9',
        }
    } else {
        match d {
            10 => 'a',
            11 => 'b',
            12 => 'c',
            13 => 'd',
            14 => 'e',
            _ => 'f',
        }
    }
}

/// The digits of `n` in the given base, most significant first.
fn digits_in_base(n: u64, base: u64) -> (v: Vec<char>)
    requires
        base == 10 || base == 16,
    ensures
        base == 10 ==> v@ == decimal(n as nat),
        base == 16 ==> v@ == hexadecimal(n as nat),
    decreases n,
{
    if n < base {
        let mut v = Vec::new();
        v.push(hex_digit(n));
        proof {
            if base == 10 {
                lemma_digit_char(n as nat);
                reveal_with_fuel(decimal, 1);
            }
        }
        v
    } else {
        let mut v = digits_in_base(n / base, base);
        v.push(hex_digit(n % base));
        v
    }
}

/// `n.to_string()` for an unsigned 64-bit integer.
pub fn u64_to_decimal(n: u64) -> (s: String)
    ensures
        s@ == decimal(n as nat),
{
    let v = digits_in_base(n, 10);
    string_of(&v)
}

/// `n.to_string()` for a `usize`.
pub fn usize_to_decimal(n: usize) -> (s: String)
    ensures
        s@ == decimal(n as nat),
{
    u64_to_decimal(n as u64)
}

/// `format!("{:08x}", n)`.
pub fn hex08_of(n: u64) -> (s: String)
    ensures
        s@ == hex08(n as nat),
{
    let digits = digits_in_base(n, 16);
    let mut v: Vec<char> = Vec::new();
    let mut k: usize = digits.len();
    while k < 8
        invariant
            digits.len() <= k <= 8 || (k == digits.len() && k >= 8),
            v@ == Seq::new((k - digits.len()) as nat, |_i: int| '0'),
        decreases 8 - k,
    {
        v.push('0');
        k = k + 1;
        assert(v@ =~= Seq::new((k - digits.len()) as nat, |_i: int| '0'));
    }
    let mut i: usize = 0;
    let ghost pad = v@;
    while i < digits.len()
        invariant
            i <= digits.len(),
            v@ == pad + digits@.take(i as int),
        decreases digits.len() - i,
    {
        v.push(digits[i]);
        assert(digits@.take(i + 1) == digits@.take(i as int).push(digits@[i as int]));
        i = i + 1;
    }
    assert(digits@.take(digits.len() as int) == digits@);
    proof {
        if digits.len() >= 8 {
            assert(pad =~= Seq::<char>::empty());
            assert(v@ =~= digits@);
        }
    }
    string_of(&v)
}

/// `s.parse::<u32>()`, with `None` for any parse error.
pub fn parse_u32(s: &str) -> (r: Option<u32>)
    ensures
        r == parse_u32_spec(s@),
{
    let v = chars_of(s);
    let start: usize = if v.len() > 0 && v[0] == '+' {
        1
    } else {
        0
    };
    let ghost digits = unsigned_part(s@);
    assert(digits == v@.subrange(start as int, v.len() as int));
    if start >= v.len() {
        assert(digits.len() == 0);
        return None;
    }
    let mut value: u64 = 0;
    let mut i: usize = start;
    while i < v.len()
        invariant
            start < v.len(),
            start <= i <= v.len(),
            v@ == s@,
            digits == unsigned_part(s@),
            digits == v@.subrange(start as int, v.len() as int),
            forall|k: int| start <= k < i ==> is_digit(#[trigger] v@[k]),
            value == digits_value(v@.subrange(start as int, i as int)),
            value <= u32::MAX,
        decreases v.len() - i,
    {
        let c = v[i];
        if !('0' <= c && c <= '9') {
            assert(digits[i - start] == c);
            assert(!is_digit(digits[i - start]));
            return None;
        }
        let d = (c as u32 - 48) as u64;
        proof {
            let pre = v@.subrange(start as int, i + 1);
            assert(pre.drop_last() == v@.subrange(start as int, i as int));
            assert(pre.last() == c);
        }
        if value > (u32::MAX as u64 - d) / 10 {
            proof {
                assert(value * 10 + d > u32::MAX) by (nonlinear_arith)
                    requires
                        value > (u32::MAX as u64 - d) / 10,
                        d <= 9,
                ;
                assert(d == (c as nat) - 48);
                // Every longer prefix only grows, so the whole run overflows.
                lemma_digits_value_monotone(digits, (i - start + 1) as int);
                assert(digits.take((i - start + 1) as int) == v@.subrange(start as int, i + 1));
            }
            return None;
        }
        value = value * 10 + d;
        i = i + 1;
    }
    proof {
        assert(v@.subrange(start as int, v.len() as int) == digits);
        assert forall|k: int| 0 <= k < digits.len() implies is_digit(#[trigger] digits[k]) by {
            assert(digits[k] == v@[start + k]);
        }
    }
    Some(value as u32)
}

proof fn lemma_digits_value_monotone(s: Seq<char>, k: int)
    requires
        0 <= k <= s.len(),
    ensures
        digits_value(s.take(k)) <= digits_value(s),
    decreases s.len() - k,
{
    if k < s.len() {
        lemma_digits_value_monotone(s, k + 1);
        let t = s.take(k + 1);
        assert(t.drop_last() == s.take(k));
        assert(digits_value(t) >= digits_value(t.drop_last()) * 10) by (nonlinear_arith)
            requires
                digits_value(t) == digits_value(t.drop_last()) * 10 + ((t.last() as nat) - 48) as nat,
        ;
        assert(digits_value(t.drop_last()) * 10 >= digits_value(t.drop_last())) by (nonlinear_arith);
    } else {
        assert(s.take(k) == s);
    }
}

// ---------------------------------------------------------------------------
// Ordering of strings
// ---------------------------------------------------------------------------

/// `a < b` in the order of `String`: lexicographic by character.
pub open spec fn lex_lt(a: Seq<char>, b: Seq<char>) -> bool
    decreases a.len(),
{
    if a.len() == 0 {
        b.len() > 0
    } else if b.len() == 0 {
        false
    } else if a[0] != b[0] {
        a[0] < b[0]
    } else {
        lex_lt(a.drop_first(), b.drop_first())
    }
}

/// `s` in increasing order, each element strictly below the next.
pub open spec fn strictly_sorted(s: Seq<Seq<char>>) -> bool {
    forall|i: int, j: int| 0 <= i < j < s.len() ==> lex_lt(#[trigger] s[i], #[trigger] s[j])
}

/// `x` inserted into `s` before the first element that is not below it.
pub open spec fn insert_sorted(s: Seq<Seq<char>>, x: Seq<char>) -> Seq<Seq<char>>
    decreases s.len(),
{
    if s.len() == 0 {
        seq![x]
    } else if lex_lt(s[0], x) {
        seq![s[0]] + insert_sorted(s.drop_first(), x)
    } else {
        seq![x] + s
    }
}

/// `s` sorted by insertion, in the order of `lex_lt`.
pub open spec fn sort_seq(s: Seq<Seq<char>>) -> Seq<Seq<char>>
    decreases s.len(),
{
    if s.len() == 0 {
        Seq::empty()
    } else {
        insert_sorted(sort_seq(s.drop_last()), s.last())
    }
}

pub proof fn lemma_lex_lt_irreflexive(a: Seq<char>)
    ensures
        !lex_lt(a, a),
    decreases a.len(),
{
    if a.len() > 0 {
        lemma_lex_lt_irreflexive(a.drop_first());
    }
}

pub proof fn lemma_lex_lt_transitive(a: Seq<char>, b: Seq<char>, c: Seq<char>)
    requires
        lex_lt(a, b),
        lex_lt(b, c),
    ensures
        lex_lt(a, c),
    decreases a.len(),
{
    if a.len() > 0 && b.len() > 0 && c.len() > 0 && a[0] == b[0] && b[0] == c[0] {
        lemma_lex_lt_transitive(a.drop_first(), b.drop_first(), c.drop_first());
    }
}

pub proof fn lemma_lex_lt_total(a: Seq<char>, b: Seq<char>)
    requires
        a != b,
    ensures
        lex_lt(a, b) || lex_lt(b, a),
    decreases a.len(),
{
    if a.len() > 0 && b.len() > 0 && a[0] == b[0] {
        if a.drop_first() == b.drop_first() {
            assert(a =~= seq![a[0]] + a.drop_first());
            assert(b =~= seq![b[0]] + b.drop_first());
        }
        lemma_lex_lt_total(a.drop_first(), b.drop_first());
    } else if a.len() == 0 && b.len() == 0 {
        assert(a =~= b);
    }
}


/// `a < b` in the order of `String`.
pub fn str_lt(a: &str, b: &str) -> (r: bool)
    ensures
        r == lex_lt(a@, b@),
{
    let va = chars_of(a);
    let vb = chars_of(b);
    let mut i: usize = 0;
    assert(a@.skip(0) =~= a@);
    assert(b@.skip(0) =~= b@);
    while i < va.len() && i < vb.len() && va[i] == vb[i]
        invariant
            va@ == a@,
            vb@ == b@,
            i <= va.len(),
            i <= vb.len(),
            lex_lt(a@, b@) == lex_lt(a@.skip(i as int), b@.skip(i as int)),
        decreases va.len() - i,
    {
        proof {
            let sa = a@.skip(i as int);
            let sb = b@.skip(i as int);
            assert(sa.drop_first() =~= a@.skip(i + 1));
            assert(sb.drop_first() =~= b@.skip(i + 1));
        }
        i = i + 1;
    }
    let ghost sa = a@.skip(i as int);
    let ghost sb = b@.skip(i as int);
    if i == va.len() {
        assert(sa.len() == 0);
        i < vb.len()
    } else if i == vb.len() {
        assert(sb.len() == 0);
        false
    } else {
        assert(sa[0] == va@[i as int] && sb[0] == vb@[i as int]);
        va[i] < vb[i]
    }
}

proof fn lemma_insert_sorted_at(s: Seq<Seq<char>>, x: Seq<char>, k: int)
    requires
        0 <= k <= s.len(),
        forall|i: int| 0 <= i < k ==> lex_lt(#[trigger] s[i], x),
        k == s.len() || !lex_lt(s[k], x),
    ensures
        insert_sorted(s, x) == s.take(k) + seq![x] + s.skip(k),
    decreases k,
{
    if k == 0 {
        if s.len() == 0 {
            assert(s.take(0) + seq![x] + s.skip(0) =~= seq![x]);
        } else {
            assert(s.take(0) + seq![x] + s.skip(0) =~= seq![x] + s);
        }
    } else {
        let t = s.drop_first();
        assert forall|i: int| 0 <= i < k - 1 implies lex_lt(#[trigger] t[i], x) by {
            assert(t[i] == s[i + 1]);
        }
        if k - 1 < t.len() {
            assert(t[k - 1] == s[k]);
        }
        lemma_insert_sorted_at(t, x, k - 1);
        assert(seq![s[0]] + (t.take(k - 1) + seq![x] + t.skip(k - 1)) =~= s.take(k) + seq![x] + s.skip(k));
    }
}

proof fn lemma_insert_sorted_elements(s: Seq<Seq<char>>, x: Seq<char>)
    ensures
        insert_sorted(s, x).len() == s.len() + 1,
        forall|y: Seq<char>| #[trigger] insert_sorted(s, x).contains(y) <==> (s.contains(y) || y == x),
    decreases s.len(),
{
    if s.len() == 0 {
        assert(insert_sorted(s, x)[0] == x);
    } else {
        let t = s.drop_first();
        assert(s =~= seq![s[0]] + t);
        if lex_lt(s[0], x) {
            lemma_insert_sorted_elements(t, x);
            let r = insert_sorted(t, x);
            let full = seq![s[0]] + r;
            assert forall|y: Seq<char>| #[trigger] full.contains(y) <==> (s.contains(y) || y == x) by {
                if full.contains(y) {
                    let k = choose|k: int| 0 <= k < full.len() && full[k] == y;
                    if k > 0 {
                        assert(r[k - 1] == y);
                        assert(r.contains(y));
                        if t.contains(y) {
                            let m = choose|m: int| 0 <= m < t.len() && t[m] == y;
                            assert(s[m + 1] == y);
                        }
                    } else {
                        assert(s[0] == y);
                    }
                }
                if s.contains(y) {
                    let k = choose|k: int| 0 <= k < s.len() && s[k] == y;
                    if k == 0 {
                        assert(full[0] == y);
                    } else {
                        assert(t[k - 1] == y);
                        assert(r.contains(y));
                        let m = choose|m: int| 0 <= m < r.len() && r[m] == y;
                        assert(full[m + 1] == y);
                    }
                }
                if y == x {
                    assert(r.contains(x));
                    let m = choose|m: int| 0 <= m < r.len() && r[m] == x;
                    assert(full[m + 1] == x);
                }
            }
        } else {
            let full = seq![x] + s;
            assert forall|y: Seq<char>| #[trigger] full.contains(y) <==> (s.contains(y) || y == x) by {
                if full.contains(y) {
                    let k = choose|k: int| 0 <= k < full.len() && full[k] == y;
                    if k > 0 {
                        assert(s[k - 1] == y);
                    }
                }
                if s.contains(y) {
                    let k = choose|k: int| 0 <= k < s.len() && s[k] == y;
                    assert(full[k + 1] == y);
                }
                if y == x {
                    assert(full[0] == x);
                }
            }
        }
    }
}

proof fn lemma_insert_sorted_sorted(s: Seq<Seq<char>>, x: Seq<char>)
    requires
        strictly_sorted(s),
        !s.contains(x),
    ensures
        strictly_sorted(insert_sorted(s, x)),
    decreases s.len(),
{
    lemma_insert_sorted_elements(s, x);
    if s.len() > 0 {
        let t = s.drop_first();
        assert forall|i: int, j: int| 0 <= i < j < t.len() implies lex_lt(#[trigger] t[i], #[trigger] t[j]) by {
            assert(t[i] == s[i + 1] && t[j] == s[j + 1]);
        }
        if lex_lt(s[0], x) {
            assert(!t.contains(x)) by {
                if t.contains(x) {
                    let k = choose|k: int| 0 <= k < t.len() && t[k] == x;
                    assert(s[k + 1] == x);
                }
            }
            lemma_insert_sorted_sorted(t, x);
            lemma_insert_sorted_elements(t, x);
            let r = insert_sorted(t, x);
            let full = seq![s[0]] + r;
            assert forall|a: int, b: int| 0 <= a < b < full.len() implies lex_lt(#[trigger] full[a], #[trigger] full[b]) by {
                if a == 0 {
                    assert(full[b] == r[b - 1]);
                    assert(r.contains(r[b - 1]));
                    if r[b - 1] != x {
                        assert(t.contains(r[b - 1]));
                        let k = choose|k: int| 0 <= k < t.len() && t[k] == r[b - 1];
                        assert(s[k + 1] == t[k]);
                    }
                } else {
                    assert(full[a] == r[a - 1] && full[b] == r[b - 1]);
                }
            }
        } else {
            assert(s[0] != x);
            lemma_lex_lt_total(s[0], x);
            let full = seq![x] + s;
            assert forall|a: int, b: int| 0 <= a < b < full.len() implies lex_lt(#[trigger] full[a], #[trigger] full[b]) by {
                if a == 0 {
                    if b > 1 {
                        assert(lex_lt(s[0], s[b - 1]));
                        lemma_lex_lt_transitive(x, s[0], s[b - 1]);
                    }
                } else {
                    assert(full[a] == s[a - 1] && full[b] == s[b - 1]);
                }
            }
        }
    }
}

/// Sorting keeps the elements and the length, and a sequence without repeated
/// elements comes out strictly increasing.
pub proof fn lemma_sort_seq(s: Seq<Seq<char>>)
    ensures
        sort_seq(s).len() == s.len(),
        forall|y: Seq<char>| #[trigger] sort_seq(s).contains(y) <==> s.contains(y),
        s.no_duplicates() ==> strictly_sorted(sort_seq(s)),
    decreases s.len(),
{
    if s.len() > 0 {
        let p = s.drop_last();
        lemma_sort_seq(p);
        let sp = sort_seq(p);
        lemma_insert_sorted_elements(sp, s.last());
        assert(s =~= p.push(s.last()));
        assert forall|y: Seq<char>| #[trigger] sort_seq(s).contains(y) <==> s.contains(y) by {
            if s.contains(y) && y != s.last() {
                let k = choose|k: int| 0 <= k < s.len() && s[k] == y;
                assert(p[k] == y);
            }
            if p.contains(y) {
                let k = choose|k: int| 0 <= k < p.len() && p[k] == y;
                assert(s[k] == y);
            }
            if y == s.last() {
                assert(s[s.len() - 1] == y);
            }
        }
        if s.no_duplicates() {
            assert(p.no_duplicates());
            assert(!sp.contains(s.last())) by {
                if sp.contains(s.last()) {
                    assert(p.contains(s.last()));
                    let k = choose|k: int| 0 <= k < p.len() && p[k] == s.last();
                    assert(s[k] == s[s.len() - 1]);
                }
            }
            lemma_insert_sorted_sorted(sp, s.last());
        }
    }
}

/// Inserts `x` into the increasing vector `v` before the first element that
/// is not below it.
pub fn insert_sorted_exec(v: &mut Vec<String>, x: String)
    ensures
        views(final(v)@) == insert_sorted(views(old(v)@), x@),
{
    let mut k: usize = 0;
    while k < v.len() && str_lt(v[k].as_str(), x.as_str())
        invariant
            k <= v.len(),
            forall|i: int| 0 <= i < k ==> lex_lt(#[trigger] views(v@)[i], x@),
        decreases v.len() - k,
    {
        k = k + 1;
    }
    proof {
        lemma_insert_sorted_at(views(v@), x@, k as int);
    }
    let ghost before = v@;
    v.insert(k, x);
    assert(views(v@) =~= views(before).take(k as int) + seq![x@] + views(before).skip(k as int));
}

/// `v` sorted, as `sort_seq` orders it.
pub fn sort_strings(v: &Vec<String>) -> (r: Vec<String>)
    ensures
        views(r@) == sort_seq(views(v@)),
{
    let mut r: Vec<String> = Vec::new();
    let mut i: usize = 0;
    while i < v.len()
        invariant
            i <= v.len(),
            views(r@) == sort_seq(views(v@.take(i as int))),
        decreases v.len() - i,
    {
        assert(views(v@.take(i + 1)).drop_last() =~= views(v@.take(i as int)));
        assert(views(v@.take(i + 1)).last() == v@[i as int]@);
        insert_sorted_exec(&mut r, v[i].clone());
        i = i + 1;
    }
    assert(v@.take(v.len() as int) == v@);
    r
}

/// The first whitespace-separated word of `s`, if any.
pub open spec fn first_word(s: Seq<char>) -> Option<Seq<char>> {
    let t = trim_start_spec(s);
    if t.len() == 0 {
        None
    } else {
        Some(t.take(word_len(t, 0)))
    }
}

/// The length of the run of non-white-space characters of `t` from `k` on,
/// counted from the start.
pub open spec fn word_len(t: Seq<char>, k: int) -> int
    decreases t.len() - k,
{
    if k >= t.len() || k < 0 {
        t.len() as int
    } else if is_ws(t[k]) {
        k
    } else {
        word_len(t, k + 1)
    }
}

pub proof fn lemma_trim_start_skip(s: Seq<char>, k: int)
    requires
        0 <= k <= s.len(),
        forall|i: int| 0 <= i < k ==> is_ws(#[trigger] s[i]),
        k == s.len() || !is_ws(s[k]),
    ensures
        trim_start_spec(s) == s.skip(k),
    decreases k,
{
    if k == 0 {
        assert(s.skip(0) == s);
    } else {
        let t = s.drop_first();
        assert forall|i: int| 0 <= i < k - 1 implies is_ws(#[trigger] t[i]) by {
            assert(t[i] == s[i + 1]);
        }
        lemma_trim_start_skip(t, k - 1);
        assert(t.skip(k - 1) == s.skip(k));
    }
}

pub proof fn lemma_word_len(t: Seq<char>, k: int, e: int)
    requires
        0 <= k <= e <= t.len(),
        forall|i: int| k <= i < e ==> !is_ws(#[trigger] t[i]),
        e == t.len() || is_ws(t[e]),
    ensures
        word_len(t, k) == e,
    decreases e - k,
{
    if k < e {
        lemma_word_len(t, k + 1, e);
    }
}

/// The first whitespace-separated word of `s` (`split_whitespace().next()`).
pub fn first_word_exec(s: &str) -> (r: Option<String>)
    ensures
        match r {
            Some(w) => first_word(s@) == Some(w@),
            None => first_word(s@) is None,
        },
{
    let v = chars_of(s);
    let mut a: usize = 0;
    while a < v.len() && is_whitespace(v[a])
        invariant
            a <= v.len(),
            forall|i: int| 0 <= i < a ==> is_ws(#[trigger] v@[i]),
        decreases v.len() - a,
    {
        a = a + 1;
    }
    proof {
        lemma_trim_start_skip(v@, a as int);
    }
    if a == v.len() {
        return None;
    }
    let mut b: usize = a;
    while b < v.len() && !is_whitespace(v[b])
        invariant
            a <= b <= v.len(),
            forall|i: int| a <= i < b ==> !is_ws(#[trigger] v@[i]),
        decreases v.len() - b,
    {
        b = b + 1;
    }
    proof {
        let t = v@.skip(a as int);
        assert forall|i: int| 0 <= i < b - a implies !is_ws(#[trigger] t[i]) by {
            assert(t[i] == v@[a + i]);
        }
        if b < v.len() {
            assert(t[b - a] == v@[b as int]);
        }
        lemma_word_len(t, 0, (b - a) as int);
        assert(t.take((b - a) as int) =~= v@.subrange(a as int, b as int));
    }
    Some(string_of_range(&v, a, b))
}


/// The words of `s` (maximal runs without white space) joined by single
/// spaces, computed left to right; the flag says that white space followed
/// the last word.
pub open spec fn squeeze_ws(s: Seq<char>) -> (Seq<char>, bool)
    decreases s.len(),
{
    if s.len() == 0 {
        (Seq::empty(), false)
    } else {
        let (r, gap) = squeeze_ws(s.drop_last());
        let c = s.last();
        if is_ws(c) {
            (r, r.len() > 0)
        } else if gap {
            (r + seq![' ', c], false)
        } else {
            (r.push(c), false)
        }
    }
}

/// `s.split_whitespace().collect::<Vec<_>>().join(" ")`.
pub fn collapse_whitespace(s: &str) -> (r: String)
    ensures
        r@ == squeeze_ws(s@).0,
{
    let v = chars_of(s);
    let mut out: Vec<char> = Vec::new();
    let mut gap = false;
    let mut i: usize = 0;
    while i < v.len()
        invariant
            i <= v.len(),
            v@ == s@,
            (out@, gap) == squeeze_ws(v@.take(i as int)),
        decreases v.len() - i,
    {
        assert(v@.take(i + 1).drop_last() =~= v@.take(i as int));
        assert(v@.take(i + 1).last() == v@[i as int]);
        let c = v[i];
        if is_whitespace(c) {
            gap = out.len() > 0;
        } else if gap {
            let ghost before = out@;
            out.push(' ');
            out.push(c);
            assert(out@ =~= before + seq![' ', c]);
            gap = false;
        } else {
            out.push(c);
        }
        i = i + 1;
    }
    assert(v@.take(i as int) =~= v@);
    string_of(&out)
}


/// Whether `s` ends in `/`.
pub fn ends_with_slash(s: &str) -> (r: bool)
    ensures
        r == (s@.len() > 0 && s@.last() == '/'),
{
    let v = chars_of(s);
    v.len() > 0 && v[v.len() - 1] == '/'
}


/// The words of `s` (`split_whitespace`), computed left to right; the flag
/// says that the last character was part of a word.
pub open spec fn words_state(s: Seq<char>) -> (Seq<Seq<char>>, bool)
    decreases s.len(),
{
    if s.len() == 0 {
        (Seq::empty(), false)
    } else {
        let (ws, in_word) = words_state(s.drop_last());
        let c = s.last();
        if is_ws(c) {
            (ws, false)
        } else if in_word {
            (ws.update(ws.len() - 1, ws.last().push(c)), true)
        } else {
            (ws.push(seq![c]), true)
        }
    }
}

/// The words of `s`.
pub open spec fn words(s: Seq<char>) -> Seq<Seq<char>> {
    words_state(s).0
}

proof fn lemma_words_state(s: Seq<char>)
    ensures
        words_state(s).1 ==> words_state(s).0.len() > 0,
    decreases s.len(),
{
    if s.len() > 0 {
        lemma_words_state(s.drop_last());
    }
}

/// `s.split_whitespace().collect::<Vec<_>>()`.
pub fn split_whitespace(s: &str) -> (r: Vec<String>)
    ensures
        views(r@) == words(s@),
{
    let v = chars_of(s);
    let mut done: Vec<Vec<char>> = Vec::new();
    let mut in_word = false;
    let mut i: usize = 0;
    while i < v.len()
        invariant
            i <= v.len(),
            v@ == s@,
            (done@.map_values(|w: Vec<char>| w@), in_word) == words_state(v@.take(i as int)),
        decreases v.len() - i,
    {
        assert(v@.take(i + 1).drop_last() =~= v@.take(i as int));
        assert(v@.take(i + 1).last() == v@[i as int]);
        proof {
            lemma_words_state(v@.take(i as int));
        }
        let c = v[i];
        let ghost before = done@.map_values(|w: Vec<char>| w@);
        if is_whitespace(c) {
            in_word = false;
        } else if in_word {
            let last = done.len() - 1;
            let mut w: Vec<char> = Vec::new();
            std::mem::swap(&mut w, &mut done[last]);
            w.push(c);
            done.set(last, w);
            assert(done@.map_values(|w: Vec<char>| w@) =~= before.update(before.len() - 1, before.last().push(c)));
        } else {
            let mut w: Vec<char> = Vec::new();
            w.push(c);
            done.push(w);
            assert(done@.map_values(|w: Vec<char>| w@) =~= before.push(seq![c]));
            in_word = true;
        }
        i = i + 1;
    }
    assert(v@.take(i as int) =~= v@);
    let ghost ws = done@.map_values(|w: Vec<char>| w@);
    let mut r: Vec<String> = Vec::new();
    let mut j: usize = 0;
    while j < done.len()
        invariant
            j <= done.len(),
            ws == done@.map_values(|w: Vec<char>| w@),
            views(r@) == ws.take(j as int),
        decreases done.len() - j,
    {
        let ghost before = views(r@);
        r.push(string_of(&done[j]));
        assert(views(r@) =~= before.push(ws[j as int]));
        assert(ws.take(j + 1) =~= ws.take(j as int).push(ws[j as int]));
        j = j + 1;
    }
    assert(ws.take(j as int) =~= ws);
    r
}

} // verus!
