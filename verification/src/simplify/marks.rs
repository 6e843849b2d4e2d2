//! What the markers of a run tell of its style.

use vstd::prelude::*;

use crate::json::{as_bool, as_str, get, str_field, Fields, Json, Num};
use crate::simplify::markdown::{edges, escaped, link_target, marked, marked_core, Marks};
use crate::simplify::registry::{inline_id, inline_registered_once, State};
use crate::simplify::rich_text::{after_run, referenced, run_text};
use crate::simplify::runs::{class, class_upto, class_with, Basis, RunModel};
use crate::strings::decimal;

verus! {

/// What opens the markers of a text: a link around a strike around bold around
/// italic.
pub open spec fn opening(m: Marks) -> Seq<char> {
    (if m.url is Some {
        "["@
    } else {
        Seq::empty()
    }) + (if m.strike {
        "~~"@
    } else {
        Seq::empty()
    }) + (if m.bold {
        "**"@
    } else {
        Seq::empty()
    }) + (if m.italic {
        "*"@
    } else {
        Seq::empty()
    })
}

/// What closes the markers of a text, the other way round.
pub open spec fn closing(m: Marks) -> Seq<char> {
    (if m.italic {
        "*"@
    } else {
        Seq::empty()
    }) + (if m.bold {
        "**"@
    } else {
        Seq::empty()
    }) + (if m.strike {
        "~~"@
    } else {
        Seq::empty()
    }) + (match m.url {
        Some(u) => "]("@ + link_target(u) + ")"@,
        None => Seq::empty(),
    })
}

proof fn lemma_nested(
    ou: Seq<char>,
    os: Seq<char>,
    ob: Seq<char>,
    oi: Seq<char>,
    a: Seq<char>,
    ci: Seq<char>,
    cb: Seq<char>,
    cs: Seq<char>,
    cu: Seq<char>,
)
    ensures
        ou + (os + (ob + (oi + a + ci) + cb) + cs) + cu == (ou + os + ob + oi) + a + (ci + cb + cs + cu),
{
    assert(ou + (os + (ob + (oi + a + ci) + cb) + cs) + cu =~= (ou + os + ob + oi) + a + (ci + cb + cs + cu));
}

proof fn lemma_core(core: Seq<char>, m: Marks)
    ensures
        marked_core(core, m) == opening(m) + escaped(core) + closing(m),
{
    let none = Seq::<char>::empty();
    let a = escaped(core);
    let oi = if m.italic {
        "*"@
    } else {
        none
    };
    let ob = if m.bold {
        "**"@
    } else {
        none
    };
    let os = if m.strike {
        "~~"@
    } else {
        none
    };
    let ou = if m.url is Some {
        "["@
    } else {
        none
    };
    let cu = match m.url {
        Some(u) => "]("@ + link_target(u) + ")"@,
        None => none,
    };
    let x = oi + a + oi;
    let y = ob + x + ob;
    let z = os + y + os;
    assert(!m.italic ==> x =~= a);
    assert(!m.bold ==> y =~= x);
    assert(!m.strike ==> z =~= y);
    if let Some(u) = m.url {
        assert(marked_core(core, m) =~= ou + z + cu);
    } else {
        assert(ou + z + cu =~= z);
    }
    lemma_nested(ou, os, ob, oi, a, oi, ob, os, cu);
}

/// A text with markers is its core between what opens and what closes them, with
/// the white space at its ends outside; a text without any is only escaped.
pub proof fn markers_wrap_the_core(raw: Seq<char>, m: Marks)
    ensures
        opening(m).len() > 0 ==> marked(raw, m) == escaped(edges(raw).0) + (opening(m) + escaped(edges(raw).1) + closing(m))
            + escaped(edges(raw).2),
        opening(m).len() == 0 ==> marked(raw, m) == escaped(raw),
{
    reveal_strlit("[");
    reveal_strlit("~~");
    reveal_strlit("**");
    reveal_strlit("*");
    lemma_core(edges(raw).1, m);
}

proof fn lemma_field_words()
    ensures
        "fontWeight"@ != "italic"@,
        "fontWeight"@ != "textDecoration"@,
        "fontWeight"@ != "hyperlink"@,
        "fontWeight"@ != "fills"@,
        "fontWeight"@ != "fontFamily"@,
        "fontWeight"@ != "fontStyle"@,
        "fontWeight"@ != "fontSize"@,
        "fontWeight"@ != "textCase"@,
        "fontWeight"@ != "textAlignHorizontal"@,
        "fontWeight"@ != "textAlignVertical"@,
        "fontWeight"@ != "letterSpacing"@,
        "fontWeight"@ != "lineHeightPx"@,
        "fontWeight"@ != "lineHeightUnit"@,
        "fontWeight"@ != "lineHeightPercent"@,
        "fontWeight"@ != "lineHeightPercentFontSize"@,
        "fontWeight"@ != "opentypeFlags"@,
        "fontWeight"@ != "paragraphSpacing"@,
        "fontWeight"@ != "paragraphIndent"@,
        "fontWeight"@ != "listSpacing"@,
        "italic"@ != "textDecoration"@,
        "italic"@ != "hyperlink"@,
        "italic"@ != "fills"@,
        "italic"@ != "fontFamily"@,
        "italic"@ != "fontStyle"@,
        "italic"@ != "fontSize"@,
        "italic"@ != "textCase"@,
        "italic"@ != "textAlignHorizontal"@,
        "italic"@ != "textAlignVertical"@,
        "italic"@ != "letterSpacing"@,
        "italic"@ != "lineHeightPx"@,
        "italic"@ != "lineHeightUnit"@,
        "italic"@ != "lineHeightPercent"@,
        "italic"@ != "lineHeightPercentFontSize"@,
        "italic"@ != "opentypeFlags"@,
        "italic"@ != "paragraphSpacing"@,
        "italic"@ != "paragraphIndent"@,
        "italic"@ != "listSpacing"@,
        "textDecoration"@ != "hyperlink"@,
        "textDecoration"@ != "fills"@,
        "textDecoration"@ != "fontFamily"@,
        "textDecoration"@ != "fontStyle"@,
        "textDecoration"@ != "fontSize"@,
        "textDecoration"@ != "textCase"@,
        "textDecoration"@ != "textAlignHorizontal"@,
        "textDecoration"@ != "textAlignVertical"@,
        "textDecoration"@ != "letterSpacing"@,
        "textDecoration"@ != "lineHeightPx"@,
        "textDecoration"@ != "lineHeightUnit"@,
        "textDecoration"@ != "lineHeightPercent"@,
        "textDecoration"@ != "lineHeightPercentFontSize"@,
        "textDecoration"@ != "opentypeFlags"@,
        "textDecoration"@ != "paragraphSpacing"@,
        "textDecoration"@ != "paragraphIndent"@,
        "textDecoration"@ != "listSpacing"@,
        "hyperlink"@ != "fills"@,
        "hyperlink"@ != "fontFamily"@,
        "hyperlink"@ != "fontStyle"@,
        "hyperlink"@ != "fontSize"@,
        "hyperlink"@ != "textCase"@,
        "hyperlink"@ != "textAlignHorizontal"@,
        "hyperlink"@ != "textAlignVertical"@,
        "hyperlink"@ != "letterSpacing"@,
        "hyperlink"@ != "lineHeightPx"@,
        "hyperlink"@ != "lineHeightUnit"@,
        "hyperlink"@ != "lineHeightPercent"@,
        "hyperlink"@ != "lineHeightPercentFontSize"@,
        "hyperlink"@ != "opentypeFlags"@,
        "hyperlink"@ != "paragraphSpacing"@,
        "hyperlink"@ != "paragraphIndent"@,
        "hyperlink"@ != "listSpacing"@,
{
    reveal_strlit("fontWeight");
    reveal_strlit("italic");
    reveal_strlit("textDecoration");
    reveal_strlit("hyperlink");
    reveal_strlit("fills");
    reveal_strlit("fontFamily");
    reveal_strlit("fontStyle");
    reveal_strlit("fontSize");
    reveal_strlit("textCase");
    reveal_strlit("textAlignHorizontal");
    reveal_strlit("textAlignVertical");
    reveal_strlit("letterSpacing");
    reveal_strlit("lineHeightPx");
    reveal_strlit("lineHeightUnit");
    reveal_strlit("lineHeightPercent");
    reveal_strlit("lineHeightPercentFontSize");
    reveal_strlit("opentypeFlags");
    reveal_strlit("paragraphSpacing");
    reveal_strlit("paragraphIndent");
    reveal_strlit("listSpacing");
    assert("fontWeight"@.len() == 10 && "italic"@.len() == 6 && "textDecoration"@.len() == 14);
    assert("hyperlink"@.len() == 9 && "fills"@.len() == 5 && "fontFamily"@.len() == 10);
    assert("fontStyle"@.len() == 9 && "fontSize"@.len() == 8 && "textCase"@.len() == 8);
    assert("textAlignHorizontal"@.len() == 19 && "textAlignVertical"@.len() == 17 && "letterSpacing"@.len() == 13);
    assert("lineHeightPx"@.len() == 12 && "lineHeightUnit"@.len() == 14 && "lineHeightPercent"@.len() == 17);
    assert("lineHeightPercentFontSize"@.len() == 25 && "opentypeFlags"@.len() == 13 && "paragraphSpacing"@.len() == 16);
    assert("paragraphIndent"@.len() == 15 && "listSpacing"@.len() == 11 && "fontFamily"@[4] == 'F');
    assert("fontStyle"@[0] == 'f' && "fontWeight"@[4] == 'W' && "hyperlink"@[0] == 'h');
    assert("lineHeightUnit"@[0] == 'l' && "textDecoration"@[0] == 't');
}

/// Whether a field sets a heavier weight than that of the text.
pub open spec fn heavier(e: (Seq<char>, Json), base: int) -> bool {
    e.0 == "fontWeight"@ && (e.1 matches Json::Num(Num::Int(w)) && w > base)
}

/// Whether a field links to a URL.
pub open spec fn links_to(e: (Seq<char>, Json), url: Seq<char>) -> bool {
    e.0 == "hyperlink"@ && str_field(e.1, "type"@) == Some("URL"@) && str_field(e.1, "url"@) == Some(url) && url.len() > 0
}

proof fn lemma_class(d: Fields, b: Basis, base: int, n: nat)
    requires
        n <= d.len(),
        get(b.base, "fontWeight"@) == Some(Json::Num(Num::Int(base))),
        base >= 0,
    ensures
        (exists|i: int| 0 <= i < n && heavier(#[trigger] d[i], base)) ==> class_upto(d, b, n).marks.bold,
        class_upto(d, b, n).marks.bold ==> exists|i: int| 0 <= i < n && (#[trigger] d[i]).0 == "fontWeight"@,
        as_bool(get(b.base, "italic"@)) != Some(true) ==> (class_upto(d, b, n).marks.italic <==> exists|i: int|
            0 <= i < n && #[trigger] d[i] == ("italic"@, Json::Bool(true))),
        class_upto(d, b, n).marks.strike <==> exists|i: int|
            0 <= i < n && #[trigger] d[i] == ("textDecoration"@, Json::Str("STRIKETHROUGH"@)),
        class_upto(d, b, n).marks.url matches Some(u) ==> exists|i: int| 0 <= i < n && links_to(#[trigger] d[i], u),
        forall|i: int, u: Seq<char>|
            0 <= i < n && #[trigger] links_to(d[i], u) ==> class_upto(d, b, n).marks.url is Some,
    decreases n,
{
    if n > 0 {
        lemma_class(d, b, base, (n - 1) as nat);
        lemma_field_words();
        reveal_strlit("");
        let before = class_upto(d, b, (n - 1) as nat);
        let e = d[n - 1];
        let after = class_upto(d, b, n);
        assert(after == class_with(before, e.0, e.1, d, b));
        if e.0 == "fontWeight"@ {
            assert(heavier(e, base) ==> after.marks.bold);
            assert(before.marks.bold ==> after.marks.bold);
        } else {
            assert(after.marks.bold == before.marks.bold);
        }
        if e.0 == "italic"@ {
            assert(e.1 == Json::Bool(true) <==> as_bool(Some(e.1)) == Some(true));
        } else {
            assert(after.marks.italic == before.marks.italic);
        }
        if e.0 == "textDecoration"@ {
            assert(as_str(Some(e.1)) == Some("STRIKETHROUGH"@) <==> e.1 == Json::Str("STRIKETHROUGH"@));
        } else {
            assert(after.marks.strike == before.marks.strike);
        }
        if e.0 == "hyperlink"@ {
            assert(forall|u: Seq<char>| u == ""@ ==> u.len() == 0);
            assert(forall|u: Seq<char>| u.len() == 0 ==> u =~= ""@);
            if let Some(u) = str_field(e.1, "url"@) {
                if str_field(e.1, "type"@) == Some("URL"@) && u != ""@ {
                    assert(u.len() > 0) by {
                        if u.len() == 0 {
                            assert(u =~= ""@);
                        }
                    }
                    assert(links_to(d[n - 1], u));
                }
            }
        } else {
            assert(after.marks.url == before.marks.url);
        }
        assert forall|i: int, u: Seq<char>| 0 <= i < n && #[trigger] links_to(d[i], u) implies after.marks.url is Some by {
            if i == n - 1 {
                assert(str_field(e.1, "url"@) == Some(u));
            }
        }
    }
}

/// The markers of a run tell what sets it apart from its text: bold where it is
/// heavier, italic where it is slanted, a strike where it is struck through, and a
/// link where it leads to a URL.
pub proof fn markers_tell_the_style(d: Fields, b: Basis, base: int)
    requires
        get(b.base, "fontWeight"@) == Some(Json::Num(Num::Int(base))),
        base >= 0,
    ensures
        (exists|i: int| 0 <= i < d.len() && heavier(#[trigger] d[i], base)) ==> class(d, b).marks.bold,
        class(d, b).marks.bold ==> exists|i: int| 0 <= i < d.len() && (#[trigger] d[i]).0 == "fontWeight"@,
        as_bool(get(b.base, "italic"@)) != Some(true) ==> (class(d, b).marks.italic <==> exists|i: int|
            0 <= i < d.len() && #[trigger] d[i] == ("italic"@, Json::Bool(true))),
        class(d, b).marks.strike <==> exists|i: int|
            0 <= i < d.len() && #[trigger] d[i] == ("textDecoration"@, Json::Str("STRIKETHROUGH"@)),
        class(d, b).marks.url matches Some(u) ==> exists|i: int| 0 <= i < d.len() && links_to(#[trigger] d[i], u),
        forall|i: int, u: Seq<char>|
            0 <= i < d.len() && #[trigger] links_to(d[i], u) ==> class(d, b).marks.url is Some,
{
    lemma_class(d, b, base, d.len());
}

/// A run that markers do not tell whole stands between references to the rest of
/// its style, and that is registered; another run stands as it is.
pub proof fn other_styles_are_referenced(run: RunModel, b: Basis, s: State)
    ensures
        ({
            let c = class(run.1, b);
            let text = marked(run.0, c.marks);
            &&& c.rest.len() == 0 ==> run_text(run, b, s) == text && after_run(run, b, s) == s
            &&& c.rest.len() > 0 ==> exists|id: Seq<char>|
                {
                    &&& run_text(run, b, s) == #[trigger] referenced(id, text)
                    &&& run_text(run, b, after_run(run, b, s)) == run_text(run, b, s)
                    &&& s.inline.len() == 0 ==> id == "ts1"@ && get(after_run(run, b, s).styles, id) == Some(
                        Json::Obj(c.rest),
                    )
                }
        }),
{
    let c = class(run.1, b);
    if c.rest.len() > 0 {
        let text = marked(run.0, c.marks);
        inline_registered_once(s, Json::Obj(c.rest));
        let id = inline_id(s, Json::Obj(c.rest));
        assert(run_text(run, b, s) == referenced(id, text));
        if s.inline.len() == 0 {
            reveal_strlit("ts");
            reveal_strlit("ts1");
            assert(decimal(1) == seq!['1']);
            assert("ts"@ + decimal(1) =~= "ts1"@);
        }
    }
}

} // verus!
