use vstd::prelude::*;
use vstd::arithmetic::div_mod::lemma_fundamental_div_mod;

verus! {

/// The characters of `s`, in order.
pub fn chars_of(s: &str) -> (res: Vec<char>)
    ensures
        res@ == s@,
{
    let mut res: Vec<char> = Vec::new();
    for c in it: s.chars()
        invariant
            res@ == it.seq().take(it.index() as int),
            it.seq() == s@,
    {
        res.push(c);
    }
    res
}

/// Appends one character: `String::push`.
#[verifier::external_body]
pub fn push_char(s: &mut String, c: char)
    ensures
        final(s)@ == old(s)@.push(c),
{
    s.push(c);
}

/// Appends the characters of `t` to `s`.
pub fn push_str(s: &mut String, t: &str)
    ensures
        final(s)@ == old(s)@ + t@,
{
    s.append(t);
}

/// Appends every character of `cs` to `s`.
pub fn push_chars(s: &mut String, cs: &Vec<char>)
    ensures
        final(s)@ == old(s)@ + cs@,
{
    let ghost start = s@;
    let mut i: usize = 0;
    while i < cs.len()
        invariant
            i <= cs.len(),
            s@ == start + cs@.take(i as int),
        decreases cs.len() - i,
    {
        push_char(s, cs[i]);
        assert(cs@.take(i + 1) =~= cs@.take(i as int).push(cs@[i as int]));
        i = i + 1;
    }
    assert(cs@.take(cs.len() as int) =~= cs@);
}

/// A string made of the characters of `cs`.
pub fn string_of_chars(cs: &Vec<char>) -> (res: String)
    ensures
        res@ == cs@,
{
    let mut s = String::new();
    push_chars(&mut s, cs);
    s
}

/// The decimal digit for `d < 10`.
pub open spec fn digit_char(d: nat) -> char {
    if d == 0 { '0' }
    else if d == 1 { '1' }
    else if d == 2 { '2' }
    else if d == 3 { '3' }
    else if d == 4 { '4' }
    else if d == 5 { '5' }
    else if d == 6 { '6' }
    else if d == 7 { '7' }
    else if d == 8 { '8' }
    else { '9' }
}

/// The decimal notation of `n`, without sign or leading zeros.
pub open spec fn decimal(n: nat) -> Seq<char>
    decreases n,
{
    if n < 10 {
        seq![digit_char(n)]
    } else {
        decimal(n / 10) + seq![digit_char(n % 10)]
    }
}

fn digit(d: u64) -> (c: char)
    requires
        d < 10,
    ensures
        c == digit_char(d as nat),
{
    if d == 0 { '0' }
    else if d == 1 { '1' }
    else if d == 2 { '2' }
    else if d == 3 { '3' }
    else if d == 4 { '4' }
    else if d == 5 { '5' }
    else if d == 6 { '6' }
    else if d == 7 { '7' }
    else if d == 8 { '8' }
    else { '9' }
}

/// Appends the decimal notation of `n`.
pub fn push_decimal(s: &mut String, n: u64)
    ensures
        final(s)@ == old(s)@ + decimal(n as nat),
    decreases n,
{
    if n >= 10 {
        push_decimal(s, n / 10);
    }
    push_char(s, digit(n % 10));
}

/// The decimal notation of `n`.
pub fn decimal_string(n: u64) -> (res: String)
    ensures
        res@ == decimal(n as nat),
{
    let mut s = String::new();
    push_decimal(&mut s, n);
    s
}

/// Whether `c` has the Unicode `White_Space` property, which `char::is_whitespace` and
/// `str::trim` go by.
pub open spec fn is_white_space(c: char) -> bool {
    let v = c as u32;
    ||| 0x9 <= v <= 0xD
    ||| v == 0x20
    ||| v == 0x85
    ||| v == 0xA0
    ||| v == 0x1680
    ||| 0x2000 <= v <= 0x200A
    ||| v == 0x2028
    ||| v == 0x2029
    ||| v == 0x202F
    ||| v == 0x205F
    ||| v == 0x3000
}

/// `char::is_whitespace`.
pub fn white_space(c: char) -> (res: bool)
    ensures
        res == is_white_space(c),
{
    let v = c as u32;
    (0x9 <= v && v <= 0xD) || v == 0x20 || v == 0x85 || v == 0xA0 || v == 0x1680 || (0x2000 <= v
        && v <= 0x200A) || v == 0x2028 || v == 0x2029 || v == 0x202F || v == 0x205F || v == 0x3000
}

/// `s` without its leading white space.
pub open spec fn trim_start(s: Seq<char>) -> Seq<char>
    decreases s.len(),
{
    if s.len() > 0 && is_white_space(s[0]) {
        trim_start(s.drop_first())
    } else {
        s
    }
}

/// `s` without its trailing white space.
pub open spec fn trim_end(s: Seq<char>) -> Seq<char>
    decreases s.len(),
{
    if s.len() > 0 && is_white_space(s.last()) {
        trim_end(s.drop_last())
    } else {
        s
    }
}

/// `str::trim`: `s` without leading and trailing white space.
pub open spec fn trim(s: Seq<char>) -> Seq<char> {
    trim_end(trim_start(s))
}

/// `s` without all its leading occurrences of `c` (`str::trim_start_matches` with a `char`).
pub open spec fn strip_leading(s: Seq<char>, c: char) -> Seq<char>
    decreases s.len(),
{
    if s.len() > 0 && s[0] == c {
        strip_leading(s.drop_first(), c)
    } else {
        s
    }
}

/// The number of leading characters of `cs[from..]` that are `c`, or white space
/// when `c` is `None`.
fn leading_run(cs: &Vec<char>, from: usize, c: Option<char>) -> (res: usize)
    requires
        from <= cs@.len(),
    ensures
        from <= res <= cs@.len(),
        c is None ==> trim_start(cs@.skip(from as int)) == cs@.skip(res as int),
        c matches Some(ch) ==> strip_leading(cs@.skip(from as int), ch) == cs@.skip(res as int),
{
    let mut i = from;
    while i < cs.len() && run_char(cs[i], c)
        invariant
            from <= i <= cs@.len(),
            c is None ==> trim_start(cs@.skip(from as int)) == trim_start(cs@.skip(i as int)),
            c matches Some(ch) ==> strip_leading(cs@.skip(from as int), ch) == strip_leading(
                cs@.skip(i as int),
                ch,
            ),
        decreases cs@.len() - i,
    {
        assert(cs@.skip(i as int).drop_first() =~= cs@.skip(i + 1));
        i = i + 1;
    }
    if i < cs.len() {
        assert(cs@.skip(i as int)[0] == cs@[i as int]);
    } else {
        assert(cs@.skip(i as int).len() == 0);
    }
    i
}

/// Whether `x` continues a run of `c`, or of white space when `c` is `None`.
fn run_char(x: char, c: Option<char>) -> (res: bool)
    ensures
        c is None ==> res == is_white_space(x),
        c matches Some(ch) ==> res == (x == ch),
{
    match c {
        None => white_space(x),
        Some(ch) => x == ch,
    }
}

/// The length of `cs[..to]` without its trailing white space.
fn trimmed_end(cs: &Vec<char>, from: usize, to: usize) -> (res: usize)
    requires
        from <= to <= cs@.len(),
    ensures
        from <= res <= to,
        trim_end(cs@.subrange(from as int, to as int)) == cs@.subrange(from as int, res as int),
{
    let mut j = to;
    while j > from && white_space(cs[j - 1])
        invariant
            from <= j <= to,
            to <= cs@.len(),
            trim_end(cs@.subrange(from as int, to as int)) == trim_end(
                cs@.subrange(from as int, j as int),
            ),
        decreases j,
    {
        assert(cs@.subrange(from as int, j as int).drop_last() =~= cs@.subrange(
            from as int,
            j - 1,
        ));
        j = j - 1;
    }
    if j > from {
        assert(cs@.subrange(from as int, j as int).last() == cs@[j - 1]);
    } else {
        assert(cs@.subrange(from as int, j as int).len() == 0);
    }
    j
}

/// `str::trim` on characters.
pub fn trim_chars(cs: &Vec<char>) -> (res: Vec<char>)
    ensures
        res@ == trim(cs@),
{
    let a = leading_run(cs, 0, None);
    assert(cs@.skip(0) =~= cs@);
    assert(cs@.skip(a as int) =~= cs@.subrange(a as int, cs@.len() as int));
    let b = trimmed_end(cs, a, cs.len());
    let mut res: Vec<char> = Vec::new();
    let mut k = a;
    while k < b
        invariant
            a <= k <= b,
            b <= cs@.len(),
            res@ == cs@.subrange(a as int, k as int),
        decreases b - k,
    {
        res.push(cs[k]);
        assert(cs@.subrange(a as int, k + 1) =~= cs@.subrange(a as int, k as int).push(cs@[k as int]));
        k = k + 1;
    }
    res
}

/// `str::trim_start_matches(c)` on characters.
pub fn strip_leading_chars(cs: &Vec<char>, c: char) -> (res: Vec<char>)
    ensures
        res@ == strip_leading(cs@, c),
{
    let a = leading_run(cs, 0, Some(c));
    assert(cs@.skip(0) =~= cs@);
    let mut res: Vec<char> = Vec::new();
    let mut k = a;
    while k < cs.len()
        invariant
            a <= k <= cs@.len(),
            res@ == cs@.subrange(a as int, k as int),
        decreases cs@.len() - k,
    {
        res.push(cs[k]);
        assert(cs@.subrange(a as int, k + 1) =~= cs@.subrange(a as int, k as int).push(cs@[k as int]));
        k = k + 1;
    }
    assert(res@ =~= cs@.skip(a as int));
    res
}

/// The number of bytes `c` takes in UTF-8.
pub open spec fn utf8_width(c: char) -> nat {
    if (c as u32) < 0x80 {
        1
    } else if (c as u32) < 0x800 {
        2
    } else if (c as u32) < 0x1_0000 {
        3
    } else {
        4
    }
}

/// The number of bytes `s` takes in UTF-8 (`str::len`).
pub open spec fn utf8_len(s: Seq<char>) -> nat
    decreases s.len(),
{
    if s.len() == 0 {
        0
    } else {
        utf8_len(s.drop_last()) + utf8_width(s.last())
    }
}

/// `utf8_width` on a machine word.
pub fn char_utf8_width(c: char) -> (res: u32)
    ensures
        res == utf8_width(c),
{
    let v = c as u32;
    if v < 0x80 {
        1
    } else if v < 0x800 {
        2
    } else if v < 0x1_0000 {
        3
    } else {
        4
    }
}

/// Whether `p` occurs in `s` at index `i`.
pub open spec fn occurs_at(s: Seq<char>, p: Seq<char>, i: int) -> bool {
    0 <= i && i + p.len() <= s.len() && s.subrange(i, i + p.len()) == p
}

/// The first index at or after `from` where `p` occurs in `s`.
pub open spec fn find_from(s: Seq<char>, p: Seq<char>, from: nat) -> Option<nat>
    decreases s.len() + 1 - from,
{
    if from + p.len() > s.len() {
        None
    } else if occurs_at(s, p, from as int) {
        Some(from)
    } else {
        find_from(s, p, from + 1)
    }
}

/// Whether `p` occurs in `s` at index `i`.
pub fn occurs_at_index(s: &Vec<char>, p: &Vec<char>, i: usize) -> (res: bool)
    ensures
        res == occurs_at(s@, p@, i as int),
{
    if i > s.len() || p.len() > s.len() - i {
        return false;
    }
    let n = s.len();
    let mut j: usize = 0;
    while j < p.len()
        invariant
            n == s@.len(),
            j <= p@.len(),
            i + p@.len() <= s@.len(),
            forall|k: int| 0 <= k < j ==> s@[i + k] == p@[k],
        decreases p@.len() - j,
    {
        assert(i + j < s@.len());
        if s[i + j] != p[j] {
            assert(s@.subrange(i as int, i + p@.len())[j as int] != p@[j as int]);
            return false;
        }
        j = j + 1;
    }
    assert(s@.subrange(i as int, i + p@.len()) =~= p@);
    true
}

/// `str::find` from character `from` on: the first occurrence of `p` there.
pub fn find_chars(s: &Vec<char>, p: &Vec<char>, from: usize) -> (res: Option<usize>)
    requires
        p@.len() > 0,
    ensures
        res matches Some(i) ==> from <= i && find_from(s@, p@, from as nat) == Some(i as nat) && occurs_at(
            s@,
            p@,
            i as int,
        ),
        res is None ==> find_from(s@, p@, from as nat) is None,
{
    let mut i = from;
    while i <= s.len() && p.len() <= s.len() - i
        invariant
            from <= i,
            p@.len() > 0,
            find_from(s@, p@, from as nat) == find_from(s@, p@, i as nat),
        decreases s@.len() + 1 - i,
    {
        if occurs_at_index(s, p, i) {
            return Some(i);
        }
        i = i + 1;
    }
    None
}

/// The ASCII lower-case form of `c`.
pub open spec fn ascii_lower(c: char) -> char {
    if 'A' <= c <= 'Z' {
        ((c as u32) + 32) as char
    } else {
        c
    }
}

/// `str::to_ascii_lowercase` on the characters of `cs[from..]`.
pub fn ascii_lowercase_from(cs: &Vec<char>, from: usize) -> (res: String)
    requires
        from <= cs@.len(),
    ensures
        res@ == cs@.skip(from as int).map_values(|c: char| ascii_lower(c)),
{
    let mut s = String::new();
    let mut i = from;
    while i < cs.len()
        invariant
            from <= i <= cs@.len(),
            s@ == cs@.subrange(from as int, i as int).map_values(|c: char| ascii_lower(c)),
        decreases cs@.len() - i,
    {
        let c = cs[i];
        let lower = if 'A' <= c && c <= 'Z' {
            ((c as u8) + 32) as char
        } else {
            c
        };
        push_char(&mut s, lower);
        assert(cs@.subrange(from as int, i + 1).map_values(|c: char| ascii_lower(c)) =~= cs@.subrange(
            from as int,
            i as int,
        ).map_values(|c: char| ascii_lower(c)).push(ascii_lower(c)));
        i = i + 1;
    }
    assert(cs@.subrange(from as int, cs@.len() as int) =~= cs@.skip(from as int));
    s
}

/// The characters `cs[from..to]` as a string.
pub fn string_of_range(cs: &Vec<char>, from: usize, to: usize) -> (res: String)
    requires
        from <= to <= cs@.len(),
    ensures
        res@ == cs@.subrange(from as int, to as int),
{
    let mut s = String::new();
    let mut i = from;
    while i < to
        invariant
            from <= i <= to,
            to <= cs@.len(),
            s@ == cs@.subrange(from as int, i as int),
        decreases to - i,
    {
        push_char(&mut s, cs[i]);
        assert(cs@.subrange(from as int, i + 1) =~= cs@.subrange(from as int, i as int).push(cs@[i as int]));
        i = i + 1;
    }
    s
}

/// The UTF-16 code units of `c`: one below `U+10000`, else a surrogate pair.
pub open spec fn utf16_units(c: char) -> Seq<u16> {
    let v = c as u32;
    if v < 0x1_0000 {
        seq![v as u16]
    } else {
        seq![(0xD800 + (v - 0x1_0000) / 0x400) as u16, (0xDC00 + (v - 0x1_0000) % 0x400) as u16]
    }
}

/// `str::encode_utf16`: the UTF-16 code units of `s`.
pub open spec fn utf16(s: Seq<char>) -> Seq<u16>
    decreases s.len(),
{
    if s.len() == 0 {
        seq![]
    } else {
        utf16(s.drop_last()) + utf16_units(s.last())
    }
}

/// The UTF-16 code units of `value`, followed by a terminating zero.
pub fn to_wide(value: &str) -> (res: Vec<u16>)
    ensures
        res@ == utf16(value@).push(0u16),
{
    let cs = chars_of(value);
    let mut res: Vec<u16> = Vec::new();
    let mut i: usize = 0;
    assert(cs@.take(0) =~= Seq::<char>::empty());
    while i < cs.len()
        invariant
            i <= cs@.len(),
            res@ == utf16(cs@.take(i as int)),
        decreases cs@.len() - i,
    {
        let v = cs[i] as u32;
        assert(cs@.take(i + 1).drop_last() =~= cs@.take(i as int));
        assert(cs@.take(i + 1).last() == cs@[i as int]);
        if v < 0x1_0000 {
            res.push(v as u16);
        } else {
            res.push((0xD800 + (v - 0x1_0000) / 0x400) as u16);
            res.push((0xDC00 + (v - 0x1_0000) % 0x400) as u16);
        }
        assert(res@ =~= utf16(cs@.take(i + 1)));
        i = i + 1;
    }
    assert(cs@.take(cs@.len() as int) =~= cs@);
    res.push(0u16);
    res
}

/// The number a string of decimal digits spells.
pub open spec fn digits_value(s: Seq<char>) -> int
    decreases s.len(),
{
    if s.len() == 0 {
        0
    } else {
        10 * digits_value(s.drop_last()) + (s.last() as u32 - 48)
    }
}

/// `decimal(n)` is made of decimal digits, spells `n`, and has no leading zero.
pub proof fn lemma_decimal_spells(n: nat)
    ensures
        forall|i: int| 0 <= i < decimal(n).len() ==> '0' <= #[trigger] decimal(n)[i] <= '9',
        digits_value(decimal(n)) == n,
        decimal(n).len() > 1 ==> decimal(n)[0] != '0',
        decimal(n).len() >= 1,
        n >= 10 ==> decimal(n).len() >= 2,
    decreases n,
{
    lemma_digit_char_value(n % 10);
    if n >= 10 {
        lemma_decimal_spells(n / 10);
        let d = decimal(n);
        let head = decimal(n / 10);
        assert(d.drop_last() =~= head);
        assert(d.last() == digit_char(n % 10));
        assert(d[0] == head[0]);
        if head.len() == 1 {
            lemma_digit_char_value(n / 10);
            assert(head[0] == digit_char(n / 10));
        }
        assert(n == 10 * (n / 10) + n % 10);
        assert(digits_value(d) == 10 * digits_value(d.drop_last()) + (d.last() as u32 - 48));
        assert forall|i: int| 0 <= i < d.len() implies '0' <= #[trigger] d[i] <= '9' by {
            if i < d.len() - 1 {
                assert(d[i] == head[i]);
            }
        }
    } else {
        let d = decimal(n);
        assert(d.drop_last().len() == 0);
        assert(d.last() == digit_char(n));
        assert(digits_value(d) == 10 * digits_value(d.drop_last()) + (d.last() as u32 - 48));
    }
}

proof fn lemma_digit_char_value(d: nat)
    requires
        d < 10,
    ensures
        digit_char(d) as u32 == 48 + d,
{
}

/// A string without white space at either end, cut out of `s` with only white space
/// around it: `trim(s)` is `s[a..b]` for some `a <= b`, everything before `a` and after
/// `b` is white space, and `trim(s)` neither starts nor ends with white space.
pub proof fn lemma_trim_cuts(s: Seq<char>)
    ensures
        exists|a: int, b: int|
            0 <= a <= b <= s.len() && trim(s) == s.subrange(a, b) && (forall|i: int|
                0 <= i < a ==> is_white_space(#[trigger] s[i])) && (forall|i: int|
                b <= i < s.len() ==> is_white_space(#[trigger] s[i])),
        trim(s).len() > 0 ==> !is_white_space(trim(s)[0]) && !is_white_space(trim(s).last()),
{
    let a = lemma_trim_start_cut(s);
    let t = s.skip(a);
    let b = lemma_trim_end_cut(t);
    if trim(s).len() > 0 {
        lemma_trim_start_cut(t);
    }
    assert(trim(s) == s.subrange(a, a + b)) by {
        assert(t.subrange(0, b) =~= s.subrange(a, a + b));
    }
    assert forall|i: int| a + b <= i < s.len() implies is_white_space(#[trigger] s[i]) by {
        assert(s[i] == t[i - a]);
    }
    lemma_trim_start_of_trimmed_end(t, b);
}

proof fn lemma_trim_start_cut(s: Seq<char>) -> (a: int)
    ensures
        0 <= a <= s.len(),
        trim_start(s) == s.skip(a),
        forall|i: int| 0 <= i < a ==> is_white_space(#[trigger] s[i]),
        a < s.len() ==> !is_white_space(s[a]),
    decreases s.len(),
{
    if s.len() > 0 && is_white_space(s[0]) {
        let a = lemma_trim_start_cut(s.drop_first());
        assert(s.drop_first().skip(a) =~= s.skip(a + 1));
        assert forall|i: int| 0 <= i < a + 1 implies is_white_space(#[trigger] s[i]) by {
            if i > 0 {
                assert(s[i] == s.drop_first()[i - 1]);
            }
        }
        if a + 1 < s.len() {
            assert(s[a + 1] == s.drop_first()[a]);
        }
        a + 1
    } else {
        assert(s.skip(0) =~= s);
        0
    }
}

proof fn lemma_trim_end_cut(s: Seq<char>) -> (b: int)
    ensures
        0 <= b <= s.len(),
        trim_end(s) == s.subrange(0, b),
        forall|i: int| b <= i < s.len() ==> is_white_space(#[trigger] s[i]),
        b > 0 ==> !is_white_space(s[b - 1]),
    decreases s.len(),
{
    if s.len() > 0 && is_white_space(s.last()) {
        let b = lemma_trim_end_cut(s.drop_last());
        assert(s.drop_last().subrange(0, b) =~= s.subrange(0, b));
        assert forall|i: int| b <= i < s.len() implies is_white_space(#[trigger] s[i]) by {
            if i < s.len() - 1 {
                assert(s[i] == s.drop_last()[i]);
            }
        }
        if b > 0 {
            assert(s[b - 1] == s.drop_last()[b - 1]);
        }
        b
    } else {
        assert(s.subrange(0, s.len() as int) =~= s);
        s.len() as int
    }
}

proof fn lemma_trim_start_of_trimmed_end(t: Seq<char>, b: int)
    requires
        0 <= b <= t.len(),
        trim_end(t) == t.subrange(0, b),
        b > 0 ==> !is_white_space(t[b - 1]),
        t.len() > 0 ==> !is_white_space(t[0]),
    ensures
        trim_end(t).len() > 0 ==> !is_white_space(trim_end(t)[0]) && !is_white_space(
            trim_end(t).last(),
        ),
{
}

/// Each character becomes one UTF-16 code unit equal to it below `U+10000`, and above
/// that a surrogate pair: a high surrogate then a low surrogate that together give the
/// character back.
pub proof fn lemma_utf16_units_decode(c: char)
    ensures
        (c as u32) < 0x1_0000 ==> utf16_units(c).len() == 1 && utf16_units(c)[0] == c as u32,
        (c as u32) >= 0x1_0000 ==> {
            let u = utf16_units(c);
            &&& u.len() == 2
            &&& 0xD800 <= u[0] <= 0xDBFF
            &&& 0xDC00 <= u[1] <= 0xDFFF
            &&& 0x1_0000 + (u[0] - 0xD800) * 0x400 + (u[1] - 0xDC00) == c as u32
        },
{
    let v = c as u32;
    if v >= 0x1_0000 {
        assert(v <= 0x10_FFFF);
        let w = (v - 0x1_0000) as int;
        assert(w == (w / 0x400) * 0x400 + w % 0x400) by {
            lemma_fundamental_div_mod(w, 0x400);
        }
    }
}

/// `find_from` gives the first occurrence at or after `from`: `p` occurs there and at no
/// index in between; when it gives nothing, `p` occurs nowhere from `from` on.
pub proof fn lemma_find_from_first(s: Seq<char>, p: Seq<char>, from: nat)
    ensures
        find_from(s, p, from) matches Some(i) ==> from <= i && occurs_at(s, p, i as int) && forall|j: int|
            from <= j < i ==> !#[trigger] occurs_at(s, p, j),
        find_from(s, p, from) is None ==> forall|j: int| from <= j ==> !#[trigger] occurs_at(s, p, j),
    decreases s.len() + 1 - from,
{
    if from + p.len() <= s.len() && !occurs_at(s, p, from as int) {
        lemma_find_from_first(s, p, from + 1);
    }
}

} // verus!
