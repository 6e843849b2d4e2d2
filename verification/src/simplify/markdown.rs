//! Markdown: escaping, link targets and the markers of a run of text.

use vstd::prelude::*;

use crate::outside::{is_white_space, white_space};
use crate::strings::{
    cat3, chars_of, core_end, core_end_of, hex_byte, lead, lead_of, lemma_core_end_bound, lemma_lead_bound, opt_text,
    push_hex, text_of, utf8, utf8_text,
};

verus! {

// ---------------------------------------------------------------------------
// Escaping
// ---------------------------------------------------------------------------

/// Whether a character ends a line.
pub open spec fn line_break(c: char) -> bool {
    c == '\n' || c == '\u{2029}'
}

pub fn is_line_break(c: char) -> (r: bool)
    ensures
        r == line_break(c),
{
    c == '\n' || c == '\u{2029}'
}

/// Whether a character has a meaning in the markdown of a design.
pub open spec fn special(c: char) -> bool {
    c == '\\' || c == '*' || c == '_' || c == '~' || c == '[' || c == ']' || c == '(' || c == ')' || c == '{' || c
        == '}'
}

fn is_special(c: char) -> (r: bool)
    ensures
        r == special(c),
{
    c == '\\' || c == '*' || c == '_' || c == '~' || c == '[' || c == ']' || c == '(' || c == ')' || c == '{' || c
        == '}'
}

/// One character, escaped.
pub open spec fn escaped_char(c: char) -> Seq<char> {
    if special(c) {
        seq!['\\', c]
    } else if line_break(c) {
        seq!['\\', 'n']
    } else {
        seq![c]
    }
}

/// A text with its special characters escaped and its line breaks spelled out.
pub open spec fn escaped(s: Seq<char>) -> Seq<char>
    decreases s.len(),
{
    if s.len() == 0 {
        Seq::empty()
    } else {
        escaped(s.drop_last()) + escaped_char(s.last())
    }
}

/// Escapes the special characters of a text and spells out its line breaks.
pub fn escape_markdown(text: &str) -> (r: String)
    ensures
        r@ == escaped(text@),
{
    let chars = chars_of(text);
    let mut out = String::new();
    let mut i: usize = 0;
    assert(out@ =~= escaped(chars@.take(0)));
    while i < chars.len()
        invariant
            i <= chars.len(),
            out@ == escaped(chars@.take(i as int)),
        decreases chars.len() - i,
    {
        let c = chars[i];
        let ghost before = out@;
        if is_special(c) {
            out.push('\\');
            out.push(c);
        } else if is_line_break(c) {
            out.push('\\');
            out.push('n');
        } else {
            out.push(c);
        }
        proof {
            let s = chars@.take(i + 1);
            assert(s.drop_last() =~= chars@.take(i as int));
            assert(s.last() == c);
            assert(out@ =~= before + escaped_char(c));
        }
        i += 1;
    }
    assert(chars@.take(chars.len() as int) =~= chars@);
    out
}

/// A text read back from its escaped form, when it is one.
pub open spec fn unescaped(s: Seq<char>) -> Seq<char>
    decreases s.len(),
{
    if s.len() == 0 {
        Seq::empty()
    } else if s[0] == '\\' && s.len() >= 2 {
        seq![
            if s[1] == 'n' {
                '\n'
            } else {
                s[1]
            },
        ] + unescaped(s.skip(2))
    } else {
        seq![s[0]] + unescaped(s.skip(1))
    }
}

/// A text with each line break as a newline.
pub open spec fn newlines(s: Seq<char>) -> Seq<char> {
    s.map_values(
        |c: char|
            if line_break(c) {
                '\n'
            } else {
                c
            },
    )
}

/// Whether each special character stands behind a backslash, and no line break
/// occurs, from position `i` on.
pub open spec fn safe_from(s: Seq<char>, i: int) -> bool
    decreases s.len() - i,
{
    if i < 0 || i >= s.len() {
        true
    } else if s[i] == '\\' {
        i + 1 < s.len() && (special(s[i + 1]) || s[i + 1] == 'n') && safe_from(s, i + 2)
    } else {
        !special(s[i]) && !line_break(s[i]) && safe_from(s, i + 1)
    }
}

proof fn lemma_escaped_cons(s: Seq<char>)
    requires
        s.len() > 0,
    ensures
        escaped(s) == escaped_char(s[0]) + escaped(s.skip(1)),
    decreases s.len(),
{
    let t = s.skip(1);
    if s.len() == 1 {
        assert(s.drop_last() =~= Seq::<char>::empty());
        assert(t =~= Seq::<char>::empty());
        assert(escaped(s.drop_last()) =~= Seq::<char>::empty());
        assert(escaped(s) =~= escaped_char(s[0]) + escaped(t));
    } else {
        lemma_escaped_cons(s.drop_last());
        assert(s.drop_last().skip(1) =~= t.drop_last());
        assert(s.drop_last()[0] == s[0]);
        assert(t.last() == s.last());
        assert(escaped_char(s[0]) + escaped(t.drop_last()) + escaped_char(s.last()) =~= escaped_char(s[0]) + (escaped(
            t.drop_last(),
        ) + escaped_char(s.last())));
    }
}

proof fn lemma_safe_tail(s: Seq<char>, k: int, i: int)
    requires
        0 <= k <= i,
        i <= s.len(),
        safe_from(s.skip(k), i - k),
    ensures
        safe_from(s, i),
    decreases s.len() - i,
{
    let t = s.skip(k);
    if i < s.len() {
        assert(t[i - k] == s[i]);
        if s[i] == '\\' {
            assert(t[i - k + 1] == s[i + 1]);
            lemma_safe_tail(s, k, i + 2);
        } else {
            lemma_safe_tail(s, k, i + 1);
        }
    }
}

/// Escaping can be undone, up to the kind of line break, and leaves no special
/// character bare and no line break.
pub proof fn escaping_is_faithful(s: Seq<char>)
    ensures
        unescaped(escaped(s)) == newlines(s),
        safe_from(escaped(s), 0),
    decreases s.len(),
{
    if s.len() == 0 {
        assert(newlines(s) =~= Seq::<char>::empty());
    } else {
        let t = s.skip(1);
        let c = s[0];
        let e = escaped(s);
        let rest = escaped(t);
        lemma_escaped_cons(s);
        escaping_is_faithful(t);
        let k = escaped_char(c).len() as int;
        assert(e.skip(k) =~= rest);
        assert(e[0] == escaped_char(c)[0]);
        if k == 2 {
            assert(e[1] == escaped_char(c)[1]);
        }
        assert(newlines(s) =~= seq![
            if line_break(c) {
                '\n'
            } else {
                c
            },
        ] + newlines(t));
        lemma_safe_tail(e, k, k);
    }
}

// ---------------------------------------------------------------------------
// Edges
// ---------------------------------------------------------------------------

/// A text in three parts: the white space before it, the text, and the white
/// space after it. A blank text is all in the first part.
pub open spec fn edges(s: Seq<char>) -> (Seq<char>, Seq<char>, Seq<char>) {
    let (a, b) = (lead(s) as int, core_end(s) as int);
    if b <= a {
        (s, Seq::empty(), Seq::empty())
    } else {
        (s.subrange(0, a), s.subrange(a, b), s.subrange(b, s.len() as int))
    }
}

/// Splits the white space off the two ends of a text.
pub fn split_edge_whitespace(text: &str) -> (r: (String, String, String))
    ensures
        (r.0@, r.1@, r.2@) == edges(text@),
{
    let chars = chars_of(text);
    let a = lead_of(&chars);
    let b = core_end_of(&chars);
    if b <= a {
        let none = String::new();
        let nil = String::new();
        assert(none@ =~= Seq::<char>::empty() && nil@ =~= Seq::<char>::empty());
        (text.to_owned(), none, nil)
    } else {
        (text_of(&chars, 0, a), text_of(&chars, a, b), text_of(&chars, b, chars.len()))
    }
}

/// The three parts make up the text; the outer ones are white space, and the
/// middle one neither starts nor ends with any.
pub proof fn edges_make_up_the_text(s: Seq<char>)
    ensures
        edges(s).0 + edges(s).1 + edges(s).2 == s,
        forall|i: int| 0 <= i < edges(s).0.len() ==> white_space(#[trigger] edges(s).0[i]),
        forall|i: int| 0 <= i < edges(s).2.len() ==> white_space(#[trigger] edges(s).2[i]),
        edges(s).1.len() > 0 ==> !white_space(edges(s).1[0]) && !white_space(edges(s).1.last()),
{
    lemma_lead_bound(s);
    lemma_core_end_bound(s);
    let (a, b) = (lead(s) as int, core_end(s) as int);
    assert(edges(s).0 + edges(s).1 + edges(s).2 =~= s);
    assert forall|i: int| 0 <= i < edges(s).0.len() implies white_space(#[trigger] edges(s).0[i]) by {
        assert(edges(s).0[i] == s[i]);
    }
    assert forall|i: int| 0 <= i < edges(s).2.len() implies white_space(#[trigger] edges(s).2[i]) by {
        assert(edges(s).2[i] == s[b + i]);
    }
}

// ---------------------------------------------------------------------------
// Links
// ---------------------------------------------------------------------------

/// Bytes as percent escapes.
pub open spec fn percent_escapes(b: Seq<u8>) -> Seq<char>
    decreases b.len(),
{
    if b.len() == 0 {
        Seq::empty()
    } else {
        percent_escapes(b.drop_last()) + seq!['%'] + hex_byte(b.last(), true)
    }
}

/// One character of a link target.
pub open spec fn link_char(c: char) -> Seq<char> {
    if c == '(' || c == ')' || white_space(c) {
        percent_escapes(utf8(c))
    } else {
        seq![c]
    }
}

/// A link target without parentheses and white space.
pub open spec fn link_target(s: Seq<char>) -> Seq<char>
    decreases s.len(),
{
    if s.len() == 0 {
        Seq::empty()
    } else {
        link_target(s.drop_last()) + link_char(s.last())
    }
}

fn push_percent(out: &mut String, b: u8)
    ensures
        final(out)@ == old(out)@ + seq!['%'] + hex_byte(b, true),
{
    let ghost before = out@;
    out.push('%');
    assert(out@ =~= before + seq!['%']);
    push_hex(out, b, true);
}

fn utf8_of(c: char) -> (r: Vec<u8>)
    ensures
        r@ == utf8(c),
{
    let n = c as u32;
    let mut out: Vec<u8> = Vec::new();
    if n <= 0x7f {
        out.push(n as u8);
    } else if n <= 0x7ff {
        out.push((0xc0 + n / 0x40) as u8);
        out.push((0x80 + n % 0x40) as u8);
    } else if n <= 0xffff {
        out.push((0xe0 + n / 0x1000) as u8);
        out.push((0x80 + n / 0x40 % 0x40) as u8);
        out.push((0x80 + n % 0x40) as u8);
    } else {
        out.push((0xf0 + n / 0x4_0000) as u8);
        out.push((0x80 + n / 0x1000 % 0x40) as u8);
        out.push((0x80 + n / 0x40 % 0x40) as u8);
        out.push((0x80 + n % 0x40) as u8);
    }
    assert(out@ =~= utf8(c));
    out
}

fn push_link_char(out: &mut String, c: char)
    ensures
        final(out)@ == old(out)@ + link_char(c),
{
    let ghost before = out@;
    if c == '(' || c == ')' || is_white_space(c) {
        let bytes = utf8_of(c);
        let mut i: usize = 0;
        assert(before =~= before + percent_escapes(bytes@.take(0)));
        while i < bytes.len()
            invariant
                i <= bytes.len(),
                out@ == before + percent_escapes(bytes@.take(i as int)),
            decreases bytes.len() - i,
        {
            push_percent(out, bytes[i]);
            proof {
                let s = bytes@.take(i + 1);
                assert(s.drop_last() =~= bytes@.take(i as int));
                assert(out@ =~= before + percent_escapes(s));
            }
            i += 1;
        }
        assert(bytes@.take(bytes.len() as int) =~= bytes@);
    } else {
        out.push(c);
        assert(out@ =~= before + link_char(c));
    }
}

/// Writes a link target without parentheses and white space.
pub fn escape_link_url(url: &str) -> (r: String)
    ensures
        r@ == link_target(url@),
{
    let chars = chars_of(url);
    let mut out = String::new();
    let mut i: usize = 0;
    assert(out@ =~= link_target(chars@.take(0)));
    while i < chars.len()
        invariant
            i <= chars.len(),
            out@ == link_target(chars@.take(i as int)),
        decreases chars.len() - i,
    {
        push_link_char(&mut out, chars[i]);
        proof {
            let s = chars@.take(i + 1);
            assert(s.drop_last() =~= chars@.take(i as int));
            assert(s.last() == chars@[i as int]);
        }
        i += 1;
    }
    assert(chars@.take(chars.len() as int) =~= chars@);
    out
}

/// Whether a character stands for itself in a link target.
pub open spec fn link_safe(c: char) -> bool {
    c != '(' && c != ')' && !white_space(c)
}

/// A link target cannot close the link that it stands in: it has no
/// parenthesis and no white space.
pub proof fn link_targets_close_nothing(s: Seq<char>)
    ensures
        forall|i: int| 0 <= i < link_target(s).len() ==> link_safe(#[trigger] link_target(s)[i]),
    decreases s.len(),
{
    if s.len() > 0 {
        link_targets_close_nothing(s.drop_last());
        let c = s.last();
        if !link_safe(c) {
            lemma_percent_escapes(utf8(c));
        }
        let (head, tail) = (link_target(s.drop_last()), link_char(c));
        assert forall|i: int| 0 <= i < (head + tail).len() implies link_safe(#[trigger] (head + tail)[i]) by {
            if i >= head.len() {
                assert(tail[i - head.len()] == (head + tail)[i]);
            }
        }
    }
}

proof fn lemma_percent_escapes(b: Seq<u8>)
    ensures
        forall|i: int| 0 <= i < percent_escapes(b).len() ==> link_safe(#[trigger] percent_escapes(b)[i]),
    decreases b.len(),
{
    if b.len() > 0 {
        lemma_percent_escapes(b.drop_last());
        let head = percent_escapes(b.drop_last());
        let x = hex_byte(b.last(), true);
        let p = percent_escapes(b);
        assert forall|i: int| 0 <= i < p.len() implies link_safe(#[trigger] p[i]) by {
            if i < head.len() {
                assert(p[i] == head[i]);
            } else if i == head.len() {
                assert(p[i] == '%');
            } else {
                assert(p[i] == x[i - head.len() - 1]);
            }
        }
    }
}

proof fn lemma_safe_target(s: Seq<char>)
    requires
        forall|i: int| 0 <= i < s.len() ==> link_safe(#[trigger] s[i]),
    ensures
        link_target(s) == s,
    decreases s.len(),
{
    if s.len() > 0 {
        assert forall|i: int| 0 <= i < s.drop_last().len() implies link_safe(#[trigger] s.drop_last()[i]) by {
            assert(s.drop_last()[i] == s[i]);
        }
        lemma_safe_target(s.drop_last());
        assert(link_safe(s[s.len() - 1]));
        assert(link_target(s) =~= s);
    }
}

/// A link target is written once: writing it again changes nothing.
pub proof fn link_targets_are_settled(s: Seq<char>)
    ensures
        link_target(link_target(s)) == link_target(s),
{
    link_targets_close_nothing(s);
    lemma_safe_target(link_target(s));
}

/// The value of a hexadecimal digit.
pub open spec fn hex_value(c: char) -> Option<nat> {
    let n = c as u32;
    if 48 <= n <= 57 {
        Some((n - 48) as nat)
    } else if 65 <= n <= 70 {
        Some((n - 55) as nat)
    } else if 97 <= n <= 102 {
        Some((n - 87) as nat)
    } else {
        None
    }
}

/// The byte of the percent escape that a text starts with.
pub open spec fn escape_at(s: Seq<char>) -> Option<u8> {
    if s.len() >= 3 && s[0] == '%' {
        match (hex_value(s[1]), hex_value(s[2])) {
            (Some(a), Some(b)) => Some((16 * a + b) as u8),
            _ => None,
        }
    } else {
        None
    }
}

/// The bytes that a text with percent escapes stands for.
pub open spec fn percent_decoded(s: Seq<char>) -> Seq<u8>
    decreases s.len(),
{
    if s.len() == 0 {
        Seq::empty()
    } else {
        match escape_at(s) {
            Some(b) => seq![b] + percent_decoded(s.skip(3)),
            None => utf8(s[0]) + percent_decoded(s.skip(1)),
        }
    }
}

proof fn lemma_target_front(s: Seq<char>)
    requires
        s.len() > 0,
    ensures
        link_target(s) == link_char(s[0]) + link_target(s.skip(1)),
    decreases s.len(),
{
    let tail = s.skip(1);
    if s.len() == 1 {
        assert(s.drop_last() =~= Seq::<char>::empty());
        assert(tail =~= Seq::<char>::empty());
        assert(link_target(s) =~= link_char(s[0]) + link_target(tail));
    } else {
        lemma_target_front(s.drop_last());
        assert(s.drop_last()[0] == s[0]);
        assert(s.drop_last().skip(1) =~= tail.drop_last());
        assert(tail.last() == s.last());
        assert(link_target(s) =~= link_char(s[0]) + link_target(tail));
    }
}

proof fn lemma_escapes_front(b: Seq<u8>)
    requires
        b.len() > 0,
    ensures
        percent_escapes(b) == seq!['%'] + hex_byte(b[0], true) + percent_escapes(b.skip(1)),
    decreases b.len(),
{
    let tail = b.skip(1);
    if b.len() == 1 {
        assert(b.drop_last() =~= Seq::<u8>::empty());
        assert(tail =~= Seq::<u8>::empty());
        assert(percent_escapes(b) =~= seq!['%'] + hex_byte(b[0], true) + percent_escapes(tail));
    } else {
        lemma_escapes_front(b.drop_last());
        assert(b.drop_last()[0] == b[0]);
        assert(b.drop_last().skip(1) =~= tail.drop_last());
        assert(tail.last() == b.last());
        assert(percent_escapes(b) =~= seq!['%'] + hex_byte(b[0], true) + percent_escapes(tail));
    }
}

proof fn lemma_escape_byte(b: u8)
    ensures
        hex_value(hex_byte(b, true)[0]) == Some((b / 16) as nat),
        hex_value(hex_byte(b, true)[1]) == Some((b % 16) as nat),
{
}

proof fn lemma_escapes_decode(b: Seq<u8>, rest: Seq<char>)
    ensures
        percent_decoded(percent_escapes(b) + rest) == b + percent_decoded(rest),
    decreases b.len(),
{
    let all = percent_escapes(b) + rest;
    if b.len() == 0 {
        assert(all =~= rest);
        assert(b + percent_decoded(rest) =~= percent_decoded(rest));
    } else {
        lemma_escapes_front(b);
        lemma_escape_byte(b[0]);
        let tail = b.skip(1);
        assert(all =~= seq!['%'] + hex_byte(b[0], true) + (percent_escapes(tail) + rest));
        assert(all[0] == '%');
        assert(all[1] == hex_byte(b[0], true)[0]);
        assert(all[2] == hex_byte(b[0], true)[1]);
        assert(escape_at(all) == Some(b[0]));
        assert(all.skip(3) =~= percent_escapes(tail) + rest);
        lemma_escapes_decode(tail, rest);
        assert(seq![b[0]] + (tail + percent_decoded(rest)) =~= b + percent_decoded(rest));
    }
}

/// A link target stands for the URL that it was made of: without a percent sign
/// in the URL, the bytes that the target stands for are those of the URL.
pub proof fn link_targets_stand_for_the_url(s: Seq<char>)
    requires
        !s.contains('%'),
    ensures
        percent_decoded(link_target(s)) == utf8_text(s),
    decreases s.len(),
{
    if s.len() > 0 {
        let tail = s.skip(1);
        let rest = link_target(tail);
        assert(s.contains(s[0]));
        assert forall|i: int| 0 <= i < tail.len() implies tail[i] != '%' by {
            assert(s.contains(s[i + 1]));
        }
        link_targets_stand_for_the_url(tail);
        lemma_target_front(s);
        if link_safe(s[0]) {
            let all = link_target(s);
            assert(all[0] == s[0]);
            assert(all.skip(1) =~= rest);
        } else {
            lemma_escapes_decode(utf8(s[0]), rest);
        }
    }
}

// ---------------------------------------------------------------------------
// Markers
// ---------------------------------------------------------------------------

/// The markers of a run.
pub struct Marks {
    pub bold: bool,
    pub italic: bool,
    pub strike: bool,
    pub url: Option<Seq<char>>,
}

/// A text between markers.
pub open spec fn marked_core(core: Seq<char>, m: Marks) -> Seq<char> {
    let a = escaped(core);
    let b = if m.italic {
        "*"@ + a + "*"@
    } else {
        a
    };
    let c = if m.bold {
        "**"@ + b + "**"@
    } else {
        b
    };
    let d = if m.strike {
        "~~"@ + c + "~~"@
    } else {
        c
    };
    match m.url {
        Some(u) => "["@ + d + "]("@ + link_target(u) + ")"@,
        None => d,
    }
}

/// A run in markdown: the markers hug the text, and the white space at its ends
/// stays outside of them.
pub open spec fn marked(raw: Seq<char>, m: Marks) -> Seq<char> {
    if m.bold || m.italic || m.strike || m.url is Some {
        let (before, core, after) = edges(raw);
        escaped(before) + marked_core(core, m) + escaped(after)
    } else {
        escaped(raw)
    }
}

fn write_core(core: &str, bold: bool, italic: bool, strike: bool, url: &Option<String>) -> (r: String)
    ensures
        r@ == marked_core(core@, (Marks { bold, italic, strike, url: opt_text(*url) })),
{
    let mut inner = escape_markdown(core);
    if italic {
        inner = cat3("*", inner.as_str(), "*");
    }
    if bold {
        inner = cat3("**", inner.as_str(), "**");
    }
    if strike {
        inner = cat3("~~", inner.as_str(), "~~");
    }
    match url {
        Some(u) => {
            let head = cat3("[", inner.as_str(), "](");
            cat3(head.as_str(), escape_link_url(u.as_str()).as_str(), ")")
        },
        None => inner,
    }
}

/// Writes a run in markdown.
pub fn write_marked(raw: &str, bold: bool, italic: bool, strike: bool, url: &Option<String>) -> (r: String)
    ensures
        r@ == marked(raw@, (Marks { bold, italic, strike, url: opt_text(*url) })),
{
    if bold || italic || strike || url.is_some() {
        let (before, core, after) = split_edge_whitespace(raw);
        let inner = write_core(core.as_str(), bold, italic, strike, url);
        cat3(escape_markdown(before.as_str()).as_str(), inner.as_str(), escape_markdown(after.as_str()).as_str())
    } else {
        escape_markdown(raw)
    }
}

} // verus!
