//! Text helpers: searching, trimming, joining and number rendering, each
//! stated over the sequence of characters that a string holds.

use vstd::prelude::*;

use crate::outside::{is_white_space, white_space};

verus! {

// ---------------------------------------------------------------------------
// Conversions and equality
// ---------------------------------------------------------------------------

/// The characters of `s`.
pub fn chars_of(s: &str) -> (r: Vec<char>)
    ensures
        r@ == s@,
{
    let mut out: Vec<char> = Vec::new();
    for c in it: s.chars()
        invariant
            out@ == it.seq().take(it.index()),
            it.seq() == s@,
    {
        out.push(c);
    }
    out
}

/// The text of `chars[from..to]`.
pub fn text_of(chars: &Vec<char>, from: usize, to: usize) -> (r: String)
    requires
        from <= to <= chars.len(),
    ensures
        r@ == chars@.subrange(from as int, to as int),
{
    let mut out = String::new();
    let mut i: usize = from;
    while i < to
        invariant
            from <= i <= to <= chars.len(),
            out@ == chars@.subrange(from as int, i as int),
        decreases to - i,
    {
        out.push(chars[i]);
        assert(chars@.subrange(from as int, i + 1) =~= chars@.subrange(from as int, i as int).push(chars@[i as int]));
        i += 1;
    }
    out
}

/// The text of an optional string.
pub open spec fn opt_text(v: Option<String>) -> Option<Seq<char>> {
    match v {
        Some(x) => Some(x@),
        None => None,
    }
}

/// The texts of an optional list of strings.
pub open spec fn opt_texts(v: Option<Vec<String>>) -> Option<Seq<Seq<char>>> {
    match v {
        Some(x) => Some(views(x@)),
        None => None,
    }
}

/// The texts of a list of pairs of strings.
pub open spec fn pair_views(s: Seq<(String, String)>) -> Seq<(Seq<char>, Seq<char>)> {
    s.map_values(|p: (String, String)| (p.0@, p.1@))
}

/// Text equality.
pub fn same(a: &str, b: &str) -> (r: bool)
    ensures
        r == (a@ == b@),
{
    *a == *b
}

/// `a` followed by `b`.
pub fn cat2(a: &str, b: &str) -> (r: String)
    ensures
        r@ == a@ + b@,
{
    let mut s = a.to_owned();
    s.append(b);
    s
}

/// `a`, `b` and `c` in a row.
pub fn cat3(a: &str, b: &str, c: &str) -> (r: String)
    ensures
        r@ == a@ + b@ + c@,
{
    let mut s = a.to_owned();
    s.append(b);
    s.append(c);
    s
}

// ---------------------------------------------------------------------------
// Searching
// ---------------------------------------------------------------------------

/// Whether `p` stands in `s` at position `i`.
pub open spec fn stands_at(s: Seq<char>, p: Seq<char>, i: int) -> bool {
    0 <= i && i + p.len() <= s.len() && s.subrange(i, i + p.len()) == p
}

/// The first position from `i` on at which `p` stands in `s`.
pub open spec fn find_from(s: Seq<char>, p: Seq<char>, i: int) -> Option<int>
    decreases s.len() + 1 - i,
{
    if i < 0 || i > s.len() {
        None
    } else if stands_at(s, p, i) {
        Some(i)
    } else {
        find_from(s, p, i + 1)
    }
}

/// The first position at which `p` stands in `s`.
pub open spec fn find(s: Seq<char>, p: Seq<char>) -> Option<int> {
    find_from(s, p, 0)
}

/// Whether `p` stands somewhere in `s`.
pub open spec fn has_part(s: Seq<char>, p: Seq<char>) -> bool {
    find(s, p) is Some
}

pub open spec fn starts_with(s: Seq<char>, p: Seq<char>) -> bool {
    stands_at(s, p, 0)
}

pub open spec fn ends_with(s: Seq<char>, p: Seq<char>) -> bool {
    stands_at(s, p, s.len() - p.len())
}

/// Whether `p` stands in `s` at position `i`.
pub fn stands_at_exec(s: &Vec<char>, p: &Vec<char>, i: usize) -> (r: bool)
    ensures
        r == stands_at(s@, p@, i as int),
{
    if i > s.len() || p.len() > s.len() - i {
        return false;
    }
    let mut j: usize = 0;
    while j < p.len()
        invariant
            j <= p.len(),
            i + p.len() <= s.len(),
            forall|k: int| 0 <= k < j ==> s@[i + k] == p@[k],
        decreases p.len() - j,
    {
        if s[i + j] != p[j] {
            assert(s@.subrange(i as int, i + p@.len())[j as int] != p@[j as int]);
            return false;
        }
        j += 1;
    }
    assert(s@.subrange(i as int, i + p@.len()) =~= p@);
    true
}

/// The first position from `from` on at which `p` stands in `s`.
pub fn find_chars(s: &Vec<char>, p: &Vec<char>, from: usize) -> (r: Option<usize>)
    ensures
        r is Some <==> find_from(s@, p@, from as int) is Some,
        r matches Some(i) ==> find_from(s@, p@, from as int) == Some(i as int) && i + p.len() <= s.len()
            && from <= i,
{
    if from > s.len() {
        return None;
    }
    let mut i: usize = from;
    while i < s.len()
        invariant
            from <= i <= s.len(),
            find_from(s@, p@, from as int) == find_from(s@, p@, i as int),
        decreases s.len() - i,
    {
        if stands_at_exec(s, p, i) {
            return Some(i);
        }
        i += 1;
    }
    if p.len() == 0 {
        assert(stands_at(s@, p@, i as int)) by {
            assert(s@.subrange(i as int, i as int) =~= p@);
        }
        return Some(i);
    }
    assert(find_from(s@, p@, i + 1) is None);
    None
}

/// Whether `p` stands somewhere in `s`.
pub fn contains_text(s: &str, p: &str) -> (r: bool)
    ensures
        r == has_part(s@, p@),
{
    find_chars(&chars_of(s), &chars_of(p), 0).is_some()
}

/// Whether `s` starts with `p`.
pub fn has_prefix(s: &str, p: &str) -> (r: bool)
    ensures
        r == starts_with(s@, p@),
{
    stands_at_exec(&chars_of(s), &chars_of(p), 0)
}

/// Whether `s` ends with `p`.
pub fn has_suffix(s: &str, p: &str) -> (r: bool)
    ensures
        r == ends_with(s@, p@),
{
    let a = chars_of(s);
    let b = chars_of(p);
    if b.len() > a.len() {
        return false;
    }
    stands_at_exec(&a, &b, a.len() - b.len())
}

/// The last position before `n` at which `c` stands in `s`.
pub open spec fn last_before(s: Seq<char>, c: char, n: int) -> Option<int>
    decreases n,
{
    if n <= 0 || n > s.len() {
        None
    } else if s[n - 1] == c {
        Some(n - 1)
    } else {
        last_before(s, c, n - 1)
    }
}

/// The last position at which `c` stands in `s`.
pub open spec fn last_of(s: Seq<char>, c: char) -> Option<int> {
    last_before(s, c, s.len() as int)
}

/// The last position at which `c` stands in `s`.
pub fn last_of_exec(s: &Vec<char>, c: char) -> (r: Option<usize>)
    ensures
        r is Some <==> last_of(s@, c) is Some,
        r matches Some(i) ==> last_of(s@, c) == Some(i as int) && i < s.len() && s@[i as int] == c,
{
    let mut n: usize = s.len();
    while n > 0
        invariant
            n <= s.len(),
            last_of(s@, c) == last_before(s@, c, n as int),
        decreases n,
    {
        if s[n - 1] == c {
            return Some(n - 1);
        }
        n -= 1;
    }
    None
}

// ---------------------------------------------------------------------------
// Character classes
// ---------------------------------------------------------------------------

pub open spec fn ascii_digit(c: char) -> bool {
    '0' <= c <= '9'
}

pub open spec fn ascii_letter(c: char) -> bool {
    'a' <= c <= 'z' || 'A' <= c <= 'Z'
}

pub open spec fn ascii_alnum(c: char) -> bool {
    ascii_digit(c) || ascii_letter(c)
}

pub fn is_ascii_digit(c: char) -> (r: bool)
    ensures
        r == ascii_digit(c),
{
    '0' <= c && c <= '9'
}

pub fn is_ascii_letter(c: char) -> (r: bool)
    ensures
        r == ascii_letter(c),
{
    ('a' <= c && c <= 'z') || ('A' <= c && c <= 'Z')
}

pub fn is_ascii_alnum(c: char) -> (r: bool)
    ensures
        r == ascii_alnum(c),
{
    is_ascii_digit(c) || is_ascii_letter(c)
}

/// Whether `s` is not empty and holds ASCII letters and digits alone.
pub open spec fn alnum_word(s: Seq<char>) -> bool {
    s.len() > 0 && forall|i: int| 0 <= i < s.len() ==> ascii_alnum(#[trigger] s[i])
}

/// Whether `s` is not empty and holds ASCII letters and digits alone.
pub fn is_alnum_word(s: &str) -> (r: bool)
    ensures
        r == alnum_word(s@),
{
    let v = chars_of(s);
    let mut i: usize = 0;
    while i < v.len()
        invariant
            i <= v.len(),
            v@ == s@,
            forall|j: int| 0 <= j < i ==> ascii_alnum(#[trigger] s@[j]),
        decreases v.len() - i,
    {
        if !is_ascii_alnum(v[i]) {
            assert(!ascii_alnum(s@[i as int]));
            return false;
        }
        i += 1;
    }
    v.len() > 0
}

/// Whether the characters of `s` from `from` on are ASCII digits.
pub open spec fn digits_from(s: Seq<char>, from: int) -> bool {
    forall|i: int| from <= i < s.len() ==> ascii_digit(#[trigger] s[i])
}

/// Whether the characters of `v` from `from` on are ASCII digits.
pub fn are_digits_from(v: &Vec<char>, from: usize) -> (r: bool)
    ensures
        r == digits_from(v@, from as int),
{
    let mut i: usize = from;
    while i < v.len()
        invariant
            from <= i,
            forall|j: int| from <= j < i && j < v.len() ==> ascii_digit(#[trigger] v@[j]),
        decreases v.len() - i,
    {
        if !is_ascii_digit(v[i]) {
            assert(!ascii_digit(v@[i as int]));
            return false;
        }
        i += 1;
    }
    true
}

// ---------------------------------------------------------------------------
// Trimming
// ---------------------------------------------------------------------------

/// How many white-space characters `s` starts with.
pub open spec fn lead(s: Seq<char>) -> nat
    decreases s.len(),
{
    if s.len() > 0 && white_space(s[0]) {
        1 + lead(s.skip(1))
    } else {
        0
    }
}

/// The position after the last character of `s` that is not white space.
pub open spec fn core_end(s: Seq<char>) -> nat
    decreases s.len(),
{
    if s.len() > 0 && white_space(s.last()) {
        core_end(s.drop_last())
    } else {
        s.len()
    }
}

/// `s` without the white space at its two ends.
pub open spec fn trimmed(s: Seq<char>) -> Seq<char> {
    if core_end(s) <= lead(s) {
        Seq::empty()
    } else {
        s.subrange(lead(s) as int, core_end(s) as int)
    }
}

pub proof fn lemma_lead_bound(s: Seq<char>)
    ensures
        lead(s) <= s.len(),
        forall|i: int| 0 <= i < lead(s) ==> white_space(#[trigger] s[i]),
        lead(s) < s.len() ==> !white_space(s[lead(s) as int]),
    decreases s.len(),
{
    if s.len() > 0 && white_space(s[0]) {
        lemma_lead_bound(s.skip(1));
        assert forall|i: int| 0 <= i < lead(s) implies white_space(#[trigger] s[i]) by {
            if i > 0 {
                assert(s.skip(1)[i - 1] == s[i]);
            }
        }
        if lead(s) < s.len() {
            assert(s.skip(1)[lead(s) - 1] == s[lead(s) as int]);
        }
    }
}

pub proof fn lemma_core_end_bound(s: Seq<char>)
    ensures
        core_end(s) <= s.len(),
        forall|i: int| core_end(s) <= i < s.len() ==> white_space(#[trigger] s[i]),
        core_end(s) > 0 ==> !white_space(s[core_end(s) - 1]),
    decreases s.len(),
{
    if s.len() > 0 && white_space(s.last()) {
        lemma_core_end_bound(s.drop_last());
        assert forall|i: int| core_end(s) <= i < s.len() implies white_space(#[trigger] s[i]) by {
            if i < s.len() - 1 {
                assert(s.drop_last()[i] == s[i]);
            }
        }
    }
}

/// How many white-space characters `v` starts with.
pub fn lead_of(v: &Vec<char>) -> (r: usize)
    ensures
        r == lead(v@),
        r <= v.len(),
{
    let mut i: usize = 0;
    assert(v@.skip(0) =~= v@);
    while i < v.len()
        invariant
            i <= v.len(),
            lead(v@) == i + lead(v@.skip(i as int)),
        decreases v.len() - i,
    {
        if !is_white_space(v[i]) {
            assert(v@.skip(i as int)[0] == v@[i as int]);
            return i;
        }
        assert(v@.skip(i as int)[0] == v@[i as int]);
        assert(v@.skip(i as int).skip(1) =~= v@.skip(i + 1));
        i += 1;
    }
    i
}

/// The position after the last character of `v` that is not white space.
pub fn core_end_of(v: &Vec<char>) -> (r: usize)
    ensures
        r == core_end(v@),
        r <= v.len(),
{
    let mut n: usize = v.len();
    assert(v@.take(n as int) =~= v@);
    while n > 0
        invariant
            n <= v.len(),
            core_end(v@) == core_end(v@.take(n as int)),
        decreases n,
    {
        if !is_white_space(v[n - 1]) {
            assert(v@.take(n as int).last() == v@[n - 1]);
            return n;
        }
        assert(v@.take(n as int).last() == v@[n - 1]);
        assert(v@.take(n as int).drop_last() =~= v@.take(n - 1));
        n -= 1;
    }
    n
}

/// `s` without the white space at its two ends.
pub fn trim_text(s: &str) -> (r: String)
    ensures
        r@ == trimmed(s@),
{
    let v = chars_of(s);
    let a = lead_of(&v);
    let b = core_end_of(&v);
    if b <= a {
        String::new()
    } else {
        text_of(&v, a, b)
    }
}

// ---------------------------------------------------------------------------
// Replacing, joining, repeating
// ---------------------------------------------------------------------------

/// `s` with every `from` turned into `to`.
pub open spec fn replaced(s: Seq<char>, from: char, to: char) -> Seq<char> {
    s.map_values(|c: char| if c == from { to } else { c })
}

/// `s` with every `from` turned into `to`.
pub fn replace_char(s: &str, from: char, to: char) -> (r: String)
    ensures
        r@ == replaced(s@, from, to),
{
    let v = chars_of(s);
    let mut out = String::new();
    let mut i: usize = 0;
    while i < v.len()
        invariant
            i <= v.len(),
            v@ == s@,
            out@ == replaced(s@.take(i as int), from, to),
        decreases v.len() - i,
    {
        let c = v[i];
        out.push(if c == from { to } else { c });
        assert(replaced(s@.take(i + 1), from, to) =~= replaced(s@.take(i as int), from, to).push(
            if c == from { to } else { c },
        ));
        i += 1;
    }
    assert(s@.take(i as int) =~= s@);
    out
}

/// The views of a list of strings.
pub open spec fn views(s: Seq<String>) -> Seq<Seq<char>> {
    s.map_values(|t: String| t@)
}

/// The parts in a row with `sep` between neighbours.
pub open spec fn joined(parts: Seq<Seq<char>>, sep: Seq<char>) -> Seq<char>
    decreases parts.len(),
{
    if parts.len() == 0 {
        Seq::empty()
    } else if parts.len() == 1 {
        parts[0]
    } else {
        joined(parts.drop_last(), sep) + sep + parts.last()
    }
}

/// The first part stands in front of the others.
pub proof fn lemma_joined_cons(names: Seq<Seq<char>>, sep: Seq<char>)
    requires
        names.len() >= 2,
    ensures
        joined(names, sep) == names[0] + sep + joined(names.skip(1), sep),
    decreases names.len(),
{
    let tail = names.skip(1);
    if names.len() == 2 {
        assert(names.drop_last().len() == 1);
        assert(tail.len() == 1 && tail[0] == names[1]);
        assert(joined(names.drop_last(), sep) == names[0]);
    } else {
        lemma_joined_cons(names.drop_last(), sep);
        assert(names.drop_last().skip(1) =~= tail.drop_last());
        assert(tail.last() == names.last());
        assert(names.drop_last()[0] == names[0]);
        assert(names[0] + sep + joined(tail.drop_last(), sep) + sep + names.last() =~= names[0] + sep + (joined(
            tail.drop_last(),
            sep,
        ) + sep + names.last()));
    }
}

/// The parts in a row with `sep` between neighbours.
pub fn join(parts: &Vec<String>, sep: &str) -> (r: String)
    ensures
        r@ == joined(views(parts@), sep@),
{
    if parts.len() == 0 {
        return String::new();
    }
    let mut out = parts[0].clone();
    let mut i: usize = 1;
    assert(views(parts@).take(1) =~= seq![parts@[0]@]);
    while i < parts.len()
        invariant
            1 <= i <= parts.len(),
            out@ == joined(views(parts@).take(i as int), sep@),
        decreases parts.len() - i,
    {
        out.append(sep);
        out.append(parts[i].as_str());
        assert(views(parts@).take(i + 1).drop_last() =~= views(parts@).take(i as int));
        i += 1;
    }
    assert(views(parts@).take(i as int) =~= views(parts@));
    out
}

/// `n` copies of `s` in a row.
pub open spec fn repeated(s: Seq<char>, n: nat) -> Seq<char>
    decreases n,
{
    if n == 0 {
        Seq::empty()
    } else {
        repeated(s, (n - 1) as nat) + s
    }
}

// ---------------------------------------------------------------------------
// Numbers as text
// ---------------------------------------------------------------------------

/// The decimal digit of `d`.
pub open spec fn digit_char(d: nat) -> char {
    (('0' as u32) + d) as char
}

/// `n` in decimal.
pub open spec fn decimal(n: nat) -> Seq<char>
    decreases n,
{
    if n < 10 {
        seq![digit_char(n)]
    } else {
        decimal(n / 10).push(digit_char(n % 10))
    }
}

/// Numbers that differ have different digits.
pub proof fn decimals_tell_numbers_apart(m: nat, n: nat)
    requires
        decimal(m) == decimal(n),
    ensures
        m == n,
    decreases m,
{
    lemma_decimal_length(m);
    lemma_decimal_length(n);
    assert(decimal(m).last() == digit_char(m % 10));
    assert(decimal(n).last() == digit_char(n % 10));
    if m >= 10 && n >= 10 {
        assert(decimal(m).drop_last() =~= decimal(m / 10));
        assert(decimal(n).drop_last() =~= decimal(n / 10));
        decimals_tell_numbers_apart(m / 10, n / 10);
    }
}

proof fn lemma_decimal_length(n: nat)
    ensures
        n < 10 ==> decimal(n).len() == 1,
        n >= 10 ==> decimal(n).len() >= 2,
        decimal(n).len() >= 1,
    decreases n,
{
    if n >= 10 {
        lemma_decimal_length(n / 10);
    }
}

/// The decimal digit of `d`.
pub fn digit_char_of(d: u8) -> (r: char)
    requires
        d < 10,
    ensures
        r == digit_char(d as nat),
{
    (48u8 + d) as char
}

/// `n` in decimal.
pub fn decimal_of(n: u128) -> (r: String)
    ensures
        r@ == decimal(n as nat),
    decreases n,
{
    if n < 10 {
        let mut s = String::new();
        s.push(digit_char_of(n as u8));
        assert(s@ =~= seq![digit_char(n as nat)]);
        s
    } else {
        let mut s = decimal_of(n / 10);
        s.push(digit_char_of((n % 10) as u8));
        s
    }
}

/// `n` in decimal, with a minus sign when negative.
pub open spec fn signed_decimal(n: int) -> Seq<char> {
    if n < 0 {
        "-"@ + decimal((-n) as nat)
    } else {
        decimal(n as nat)
    }
}

/// `n` in decimal, with a minus sign when negative.
pub fn signed_decimal_of(n: i64) -> (r: String)
    ensures
        r@ == signed_decimal(n as int),
{
    if n < 0 {
        let m: i128 = -(n as i128);
        cat2("-", decimal_of(m as u128).as_str())
    } else {
        decimal_of(n as u128)
    }
}

/// The hexadecimal digit of `d`, in lower or upper case.
pub open spec fn hex_char(d: nat, upper: bool) -> char {
    if d < 10 {
        digit_char(d)
    } else if upper {
        (('A' as u32) + (d - 10)) as char
    } else {
        (('a' as u32) + (d - 10)) as char
    }
}

/// The hexadecimal digit of `d`, in lower or upper case.
pub fn hex_char_of(d: u8, upper: bool) -> (r: char)
    requires
        d < 16,
    ensures
        r == hex_char(d as nat, upper),
{
    if d < 10 {
        digit_char_of(d)
    } else if upper {
        (65u8 + (d - 10)) as char
    } else {
        (97u8 + (d - 10)) as char
    }
}

/// A byte as two hexadecimal digits.
pub open spec fn hex_byte(b: u8, upper: bool) -> Seq<char> {
    seq![hex_char((b / 16) as nat, upper), hex_char((b % 16) as nat, upper)]
}

/// Appends a byte as two hexadecimal digits.
pub fn push_hex(s: &mut String, b: u8, upper: bool)
    ensures
        final(s)@ == old(s)@ + hex_byte(b, upper),
{
    let ghost before = s@;
    s.push(hex_char_of(b / 16, upper));
    s.push(hex_char_of(b % 16, upper));
    assert(s@ =~= before + hex_byte(b, upper));
}

/// `n` in lower-case hexadecimal without leading zeros.
pub open spec fn hexadecimal(n: nat) -> Seq<char>
    decreases n,
{
    if n < 16 {
        seq![hex_char(n, false)]
    } else {
        hexadecimal(n / 16).push(hex_char(n % 16, false))
    }
}

/// `n` in lower-case hexadecimal without leading zeros.
pub fn hexadecimal_of(n: u32) -> (r: String)
    ensures
        r@ == hexadecimal(n as nat),
    decreases n,
{
    if n < 16 {
        let mut s = String::new();
        s.push(hex_char_of(n as u8, false));
        assert(s@ =~= seq![hex_char(n as nat, false)]);
        s
    } else {
        let mut s = hexadecimal_of(n / 16);
        s.push(hex_char_of((n % 16) as u8, false));
        s
    }
}

// ---------------------------------------------------------------------------
// UTF-8
// ---------------------------------------------------------------------------

/// The UTF-8 bytes of a character.
pub open spec fn utf8(c: char) -> Seq<u8> {
    let n = c as u32;
    if n <= 0x7f {
        seq![n as u8]
    } else if n <= 0x7ff {
        seq![(0xc0 + n / 0x40) as u8, (0x80 + n % 0x40) as u8]
    } else if n <= 0xffff {
        seq![(0xe0 + n / 0x1000) as u8, (0x80 + n / 0x40 % 0x40) as u8, (0x80 + n % 0x40) as u8]
    } else {
        seq![
            (0xf0 + n / 0x4_0000) as u8,
            (0x80 + n / 0x1000 % 0x40) as u8,
            (0x80 + n / 0x40 % 0x40) as u8,
            (0x80 + n % 0x40) as u8,
        ]
    }
}

/// The UTF-8 bytes of a text.
pub open spec fn utf8_text(s: Seq<char>) -> Seq<u8>
    decreases s.len(),
{
    if s.len() == 0 {
        Seq::empty()
    } else {
        utf8(s[0]) + utf8_text(s.skip(1))
    }
}

proof fn lemma_utf8_apart(a: char, b: char, x: Seq<u8>, y: Seq<u8>)
    requires
        utf8(a) + x == utf8(b) + y,
    ensures
        a == b,
        x == y,
{
    let (p, q) = (utf8(a), utf8(b));
    let (l, r) = (p + x, q + y);
    assert(p.len() >= 1 && q.len() >= 1);
    assert(l[0] == p[0] && r[0] == q[0]);
    assert(p.len() == q.len());
    assert forall|i: int| 0 <= i < p.len() implies p[i] == q[i] by {
        assert(l[i] == p[i] && r[i] == q[i]);
    }
    let (m, n) = (a as u32, b as u32);
    assert(m == n);
    assert(x =~= l.skip(p.len() as int));
    assert(y =~= r.skip(q.len() as int));
}

/// Texts with the same UTF-8 bytes are the same.
pub proof fn utf8_tells_texts_apart(s: Seq<char>, t: Seq<char>)
    requires
        utf8_text(s) == utf8_text(t),
    ensures
        s == t,
    decreases s.len(),
{
    if s.len() == 0 {
        if t.len() > 0 {
            assert(utf8_text(t).len() >= utf8(t[0]).len());
            assert(false);
        }
        assert(s =~= t);
    } else if t.len() == 0 {
        assert(utf8_text(s).len() >= utf8(s[0]).len());
        assert(false);
    } else {
        lemma_utf8_apart(s[0], t[0], utf8_text(s.skip(1)), utf8_text(t.skip(1)));
        utf8_tells_texts_apart(s.skip(1), t.skip(1));
        assert(s =~= seq![s[0]] + s.skip(1));
        assert(t =~= seq![t[0]] + t.skip(1));
    }
}

} // verus!
