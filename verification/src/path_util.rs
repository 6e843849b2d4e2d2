//! Where downloads may go: a path is resolved against the image directory, and
//! one that leads out of it is refused. Paths are taken as they are written;
//! links in the file system are not followed.

use vstd::prelude::*;

use crate::json::opt_str;
use crate::outside::{debug_quote, debug_quoted};
use crate::strings::{
    ascii_letter, cat2, cat3, chars_of, is_ascii_letter, join, joined, lemma_joined_cons, opt_text, replace_char,
    replaced, same, text_of, views,
};

verus! {

// ---------------------------------------------------------------------------
// Components
// ---------------------------------------------------------------------------

/// A component of a path.
pub enum Part {
    Root,
    Here,
    Up,
    Name(Seq<char>),
}

/// The first slash from `i` on, or the end.
pub open spec fn next_slash(s: Seq<char>, i: int) -> int
    decreases s.len() - i,
{
    if 0 <= i < s.len() && s[i] != '/' {
        next_slash(s, i + 1)
    } else {
        i
    }
}

pub proof fn lemma_next_slash(s: Seq<char>, i: int)
    requires
        0 <= i <= s.len(),
    ensures
        i <= next_slash(s, i) <= s.len(),
        forall|k: int| i <= k < next_slash(s, i) ==> #[trigger] s[k] != '/',
        next_slash(s, i) < s.len() ==> s[next_slash(s, i)] == '/',
    decreases s.len() - i,
{
    if i < s.len() && s[i] != '/' {
        lemma_next_slash(s, i + 1);
    }
}

/// Whether a path starts at the root.
pub open spec fn is_absolute(s: Seq<char>) -> bool {
    s.len() > 0 && s[0] == '/'
}

/// The components that a piece between slashes is: nothing and a dot are none,
/// but a dot at the start of a relative path is one.
pub open spec fn piece(s: Seq<char>, first: bool) -> Seq<Part> {
    if s == ""@ {
        Seq::empty()
    } else if s == "."@ {
        if first {
            seq![Part::Here]
        } else {
            Seq::empty()
        }
    } else if s == ".."@ {
        seq![Part::Up]
    } else {
        seq![Part::Name(s)]
    }
}

/// The components of a path from `start` on.
pub open spec fn parts_from(s: Seq<char>, start: int) -> Seq<Part>
    decreases s.len() + 1 - start,
{
    if start < 0 || start > s.len() {
        Seq::empty()
    } else {
        proof {
            lemma_next_slash(s, start);
        }
        piece(s.subrange(start, next_slash(s, start)), start == 0) + parts_from(s, next_slash(s, start) + 1)
    }
}

/// The components of a path.
pub open spec fn components(s: Seq<char>) -> Seq<Part> {
    if is_absolute(s) {
        seq![Part::Root] + parts_from(s, 1)
    } else {
        parts_from(s, 0)
    }
}

/// A component of a path.
#[derive(Debug)]
pub enum PathPart {
    Root,
    Here,
    Up,
    Name(String),
}

impl View for PathPart {
    type V = Part;

    open spec fn view(&self) -> Part {
        match *self {
            PathPart::Root => Part::Root,
            PathPart::Here => Part::Here,
            PathPart::Up => Part::Up,
            PathPart::Name(s) => Part::Name(s@),
        }
    }
}

/// The models of a list of components.
pub open spec fn part_views(s: Seq<PathPart>) -> Seq<Part> {
    s.map_values(|p: PathPart| p@)
}

fn starts_at_root(s: &str) -> (r: bool)
    ensures
        r == is_absolute(s@),
{
    let chars = chars_of(s);
    chars.len() > 0 && chars[0] == '/'
}

fn split_path(s: &str) -> (r: Vec<PathPart>)
    ensures
        part_views(r@) == components(s@),
{
    let chars = chars_of(s);
    let ghost all = components(s@);
    let mut out: Vec<PathPart> = Vec::new();
    let mut start: usize = 0;
    if chars.len() > 0 && chars[0] == '/' {
        out.push(PathPart::Root);
        start = 1;
        assert(part_views(out@) =~= seq![Part::Root]);
    } else {
        assert(part_views(out@) + all =~= all);
    }
    let mut done = false;
    while !done
        invariant
            start <= chars.len(),
            chars@ == s@,
            !done ==> all == part_views(out@) + parts_from(s@, start as int),
            done ==> all == part_views(out@),
        decreases (if done { 0 } else { chars.len() + 1 - start }),
    {
        let mut end: usize = start;
        while end < chars.len() && chars[end] != '/'
            invariant
                start <= end <= chars.len(),
                chars@ == s@,
                next_slash(s@, start as int) == next_slash(s@, end as int),
            decreases chars.len() - end,
        {
            end += 1;
        }
        let ghost before = part_views(out@);
        let ghost rest = parts_from(s@, end + 1);
        let text = text_of(&chars, start, end);
        assert(text@ == s@.subrange(start as int, next_slash(s@, start as int)));
        if same(text.as_str(), "") {
            assert(part_views(out@) =~= before + piece(text@, start == 0));
        } else if same(text.as_str(), ".") {
            if start == 0 {
                out.push(PathPart::Here);
            }
            assert(part_views(out@) =~= before + piece(text@, start == 0));
        } else if same(text.as_str(), "..") {
            out.push(PathPart::Up);
            assert(part_views(out@) =~= before + piece(text@, start == 0));
        } else {
            out.push(PathPart::Name(text));
            assert(part_views(out@) =~= before + piece(text@, start == 0));
        }
        assert(before + (piece(text@, start == 0) + rest) =~= part_views(out@) + rest);
        if end < chars.len() {
            start = end + 1;
        } else {
            assert(rest =~= Seq::empty());
            assert(part_views(out@) + rest =~= part_views(out@));
            done = true;
        }
    }
    out
}

// ---------------------------------------------------------------------------
// Normal form
// ---------------------------------------------------------------------------

/// The names that are left of the first `n` components: going up takes the
/// last one back.
pub open spec fn names_upto(parts: Seq<Part>, n: nat) -> Seq<Seq<char>>
    decreases n,
{
    if n == 0 {
        Seq::empty()
    } else {
        let before = names_upto(parts, (n - 1) as nat);
        match parts[n - 1] {
            Part::Name(s) => before.push(s),
            Part::Up => if before.len() > 0 {
                before.drop_last()
            } else {
                before
            },
            _ => before,
        }
    }
}

/// The names that are left of a path.
pub open spec fn names_of(s: Seq<char>) -> Seq<Seq<char>> {
    names_upto(components(s), components(s).len())
}

/// A path in its normal form.
pub open spec fn normal(s: Seq<char>) -> Seq<char> {
    let names = names_of(s);
    if is_absolute(s) {
        "/"@ + joined(names, "/"@)
    } else if names.len() == 0 {
        "."@
    } else {
        joined(names, "/"@)
    }
}

/// Brings a path into its normal form.
pub fn normalize(s: &str) -> (r: String)
    ensures
        r@ == normal(s@),
{
    let parts = split_path(s);
    let ghost m = part_views(parts@);
    let mut names: Vec<String> = Vec::new();
    let mut i: usize = 0;
    assert(views(names@) =~= Seq::empty());
    while i < parts.len()
        invariant
            i <= parts.len(),
            m == part_views(parts@),
            views(names@) == names_upto(m, i as nat),
        decreases parts.len() - i,
    {
        let ghost before = views(names@);
        assert(m[i as int] == parts@[i as int]@);
        match &parts[i] {
            PathPart::Name(n) => {
                names.push(n.clone());
                assert(views(names@) =~= before.push(n@));
            },
            PathPart::Up => {
                if names.len() > 0 {
                    names.pop();
                    assert(views(names@) =~= before.drop_last());
                }
            },
            _ => {},
        }
        i += 1;
    }
    if starts_at_root(s) {
        cat2("/", join(&names, "/").as_str())
    } else if names.len() == 0 {
        ".".to_owned()
    } else {
        join(&names, "/")
    }
}

/// The name that a path ends with.
pub open spec fn last_name(s: Seq<char>) -> Option<Seq<char>> {
    let parts = components(s);
    if parts.len() > 0 {
        match parts.last() {
            Part::Name(n) => Some(n),
            _ => None,
        }
    } else {
        None
    }
}

/// The name that a path ends with.
pub fn last_name_of(s: &str) -> (r: Option<String>)
    ensures
        opt_text(r) == last_name(s@),
{
    let parts = split_path(s);
    let ghost m = part_views(parts@);
    let n = parts.len();
    if n > 0 {
        assert(m.last() == parts@[n - 1]@);
        match &parts[n - 1] {
            PathPart::Name(x) => Some(x.clone()),
            _ => None,
        }
    } else {
        None
    }
}

/// A path below another one; an absolute path stands alone.
pub open spec fn below(base: Seq<char>, s: Seq<char>) -> Seq<char> {
    if is_absolute(s) || base.len() == 0 {
        s
    } else if base.last() == '/' {
        base + s
    } else {
        base + "/"@ + s
    }
}

fn put_below(base: &str, s: &str) -> (r: String)
    ensures
        r@ == below(base@, s@),
{
    let chars = chars_of(base);
    if starts_at_root(s) || chars.len() == 0 {
        s.to_owned()
    } else if chars[chars.len() - 1] == '/' {
        cat2(base, s)
    } else {
        cat3(base, "/", s)
    }
}

/// Whether the components of a path start with those of another one.
pub open spec fn within(base: Seq<char>, s: Seq<char>) -> bool {
    let (b, c) = (components(base), components(s));
    b.len() <= c.len() && c.subrange(0, b.len() as int) == b
}

fn same_part(a: &PathPart, b: &PathPart) -> (r: bool)
    ensures
        r == (a@ == b@),
{
    match (a, b) {
        (PathPart::Root, PathPart::Root) => true,
        (PathPart::Here, PathPart::Here) => true,
        (PathPart::Up, PathPart::Up) => true,
        (PathPart::Name(x), PathPart::Name(y)) => same(x.as_str(), y.as_str()),
        _ => false,
    }
}

fn is_within(base: &str, s: &str) -> (r: bool)
    ensures
        r == within(base@, s@),
{
    let b = split_path(base);
    let c = split_path(s);
    let ghost p = part_views(b@);
    let ghost q = part_views(c@);
    if b.len() > c.len() {
        return false;
    }
    let mut i: usize = 0;
    while i < b.len()
        invariant
            i <= b.len() <= c.len(),
            p == part_views(b@),
            q == part_views(c@),
            p == components(base@),
            q == components(s@),
            forall|k: int| 0 <= k < i ==> #[trigger] p[k] == q[k],
        decreases b.len() - i,
    {
        assert(p[i as int] == b@[i as int]@ && q[i as int] == c@[i as int]@);
        if !same_part(&b[i], &c[i]) {
            assert(q.subrange(0, p.len() as int)[i as int] == q[i as int]);
            return false;
        }
        i += 1;
    }
    assert(q.subrange(0, p.len() as int) =~= p);
    true
}

// ---------------------------------------------------------------------------
// Resolution
// ---------------------------------------------------------------------------

/// Whether a path starts with a Windows drive letter.
pub open spec fn has_drive(s: Seq<char>) -> bool {
    s.len() >= 2 && ascii_letter(s[0]) && s[1] == ':'
}

/// The base directory from the root on, where the current directory is known.
pub open spec fn from_root(base: Seq<char>, cwd: Option<Seq<char>>) -> Seq<char> {
    if is_absolute(base) {
        normal(base)
    } else {
        match cwd {
            Some(c) => normal(below(c, base)),
            None => base,
        }
    }
}

/// The number of slashes that a path starts with.
pub open spec fn leading_slashes(s: Seq<char>, i: int) -> int
    decreases s.len() - i,
{
    if 0 <= i < s.len() && s[i] == '/' {
        leading_slashes(s, i + 1)
    } else {
        i
    }
}

/// The message for a path that leads out of the base directory.
pub open spec fn outside_message(raw: Seq<char>, path: Seq<char>) -> Seq<char> {
    let hint = if is_absolute(path) {
        " If you meant a directory inside the image directory, drop the leading slash (e.g. "@ + debug_quoted(
            path.subrange(leading_slashes(path, 0), path.len() as int),
        ) + ")."@
    } else {
        ""@
    };
    "path "@ + debug_quoted(raw) + " resolves outside the image directory."@ + hint
}

/// Where a path leads, from a base directory.
pub open spec fn resolved(raw: Seq<char>, base: Seq<char>, cwd: Option<Seq<char>>) -> Result<Seq<char>, Seq<char>> {
    let path = replaced(raw, '\\', '/');
    let dir = from_root(base, cwd);
    let target = normal(below(dir, path));
    if has_drive(raw) {
        Err(
            "path "@ + debug_quoted(raw) + " starts with a Windows drive letter, but this host is POSIX"@,
        )
    } else if within(dir, target) {
        Ok(target)
    } else {
        Err(outside_message(raw, path))
    }
}

/// The model of the outcome of a resolution.
pub open spec fn resolved_view(r: Result<String, String>) -> Result<Seq<char>, Seq<char>> {
    match r {
        Ok(p) => Ok(p@),
        Err(e) => Err(e@),
    }
}

fn write_outside(raw: &str, path: &str) -> (r: String)
    ensures
        r@ == outside_message(raw@, path@),
{
    let hint = if starts_at_root(path) {
        let chars = chars_of(path);
        let mut i: usize = 0;
        while i < chars.len() && chars[i] == '/'
            invariant
                i <= chars.len(),
                chars@ == path@,
                leading_slashes(path@, 0) == leading_slashes(path@, i as int),
            decreases chars.len() - i,
        {
            i += 1;
        }
        assert(i == leading_slashes(path@, 0));
        cat3(
            " If you meant a directory inside the image directory, drop the leading slash (e.g. ",
            debug_quote(text_of(&chars, i, chars.len()).as_str()).as_str(),
            ").",
        )
    } else {
        "".to_owned()
    };
    let start = cat3("path ", debug_quote(raw).as_str(), " resolves outside the image directory.");
    cat2(start.as_str(), hint.as_str())
}

/// Resolves a path against a base directory. Either slash separates names. The
/// result lies inside the base directory; a path that does not is an error.
/// `cwd` is the current directory, where it is known.
pub fn resolve_local_path(raw: &str, base: &str, cwd: Option<&str>) -> (r: Result<String, String>)
    ensures
        resolved_view(r) == resolved(raw@, base@, opt_str(cwd)),
{
    let chars = chars_of(raw);
    if chars.len() >= 2 && is_ascii_letter(chars[0]) && chars[1] == ':' {
        return Err(
            cat3("path ", debug_quote(raw).as_str(), " starts with a Windows drive letter, but this host is POSIX"),
        );
    }
    let path = replace_char(raw, '\\', '/');
    let dir = if starts_at_root(base) {
        normalize(base)
    } else {
        match cwd {
            Some(c) => normalize(put_below(c, base).as_str()),
            None => base.to_owned(),
        }
    };
    let target = normalize(put_below(dir.as_str(), path.as_str()).as_str());
    if is_within(dir.as_str(), target.as_str()) {
        Ok(target)
    } else {
        Err(write_outside(raw, path.as_str()))
    }
}

// ---------------------------------------------------------------------------
// Laws
// ---------------------------------------------------------------------------

/// Whether a text can be the name of a file or a directory.
pub open spec fn good_name(n: Seq<char>) -> bool {
    n != ""@ && n != "."@ && n != ".."@ && !n.contains('/')
}

/// Names as components.
pub open spec fn as_parts(names: Seq<Seq<char>>) -> Seq<Part> {
    names.map_values(|n: Seq<char>| Part::Name(n))
}

proof fn lemma_good_parts(s: Seq<char>, start: int)
    requires
        0 <= start,
    ensures
        forall|i: int|
            0 <= i < parts_from(s, start).len() ==> (#[trigger] parts_from(s, start)[i] matches Part::Name(n)
                ==> good_name(n)),
        start > 0 ==> (forall|i: int|
            0 <= i < parts_from(s, start).len() ==> #[trigger] parts_from(s, start)[i] !is Here),
        forall|i: int| 0 <= i < parts_from(s, start).len() ==> #[trigger] parts_from(s, start)[i] !is Root,
    decreases s.len() + 1 - start,
{
    if start <= s.len() {
        lemma_next_slash(s, start);
        let end = next_slash(s, start);
        let text = s.subrange(start, end);
        let head = piece(text, start == 0);
        let rest = parts_from(s, end + 1);
        lemma_good_parts(s, end + 1);
        assert(!text.contains('/')) by {
            assert forall|k: int| 0 <= k < text.len() implies text[k] != '/' by {
                assert(text[k] == s[start + k]);
            }
        }
        let all = parts_from(s, start);
        assert(all == head + rest);
        assert forall|i: int| 0 <= i < all.len() implies (#[trigger] all[i] matches Part::Name(n) ==> good_name(n)) && (
        start > 0 ==> all[i] !is Here) && all[i] !is Root by {
            if i >= head.len() {
                assert(all[i] == rest[i - head.len()]);
            } else {
                assert(all[i] == head[i]);
            }
        }
    }
}

proof fn lemma_good_names(parts: Seq<Part>, n: nat)
    requires
        n <= parts.len(),
        forall|i: int| 0 <= i < parts.len() ==> (#[trigger] parts[i] matches Part::Name(x) ==> good_name(x)),
    ensures
        forall|i: int| 0 <= i < names_upto(parts, n).len() ==> good_name(#[trigger] names_upto(parts, n)[i]),
    decreases n,
{
    if n > 0 {
        lemma_good_names(parts, (n - 1) as nat);
        let before = names_upto(parts, (n - 1) as nat);
        assert(parts[n - 1] matches Part::Name(x) ==> good_name(x));
        assert forall|i: int| 0 <= i < names_upto(parts, n).len() implies good_name(
            #[trigger] names_upto(parts, n)[i],
        ) by {
            if i < before.len() {
                assert(good_name(before[i]));
            }
        }
    }
}

proof fn lemma_slash_found(s: Seq<char>, i: int, end: int)
    requires
        0 <= i <= end <= s.len(),
        forall|k: int| i <= k < end ==> #[trigger] s[k] != '/',
        end < s.len() ==> s[end] == '/',
    ensures
        next_slash(s, i) == end,
    decreases end - i,
{
    if i < end {
        lemma_slash_found(s, i + 1, end);
    }
}

/// Reading names back from a joined text that ends a path.
proof fn lemma_joined_parts(s: Seq<char>, start: int, names: Seq<Seq<char>>)
    requires
        0 <= start <= s.len(),
        names.len() > 0,
        s.subrange(start, s.len() as int) == joined(names, "/"@),
        forall|i: int| 0 <= i < names.len() ==> good_name(#[trigger] names[i]),
    ensures
        parts_from(s, start) == as_parts(names),
    decreases names.len(),
{
    reveal_strlit("/");
    let text = s.subrange(start, s.len() as int);
    let name = names[0];
    let end = start + name.len();
    assert(good_name(name));
    if names.len() >= 2 {
        lemma_joined_cons(names, "/"@);
        let rest = joined(names.skip(1), "/"@);
        assert(text == name + "/"@ + rest);
        assert(end < s.len());
        assert(s[end] == text[name.len() as int]);
        assert(text[name.len() as int] == '/');
        let after = s.subrange(end + 1, s.len() as int);
        assert(after.len() == rest.len());
        assert forall|k: int| 0 <= k < rest.len() implies after[k] == rest[k] by {
            assert(after[k] == text[name.len() + 1 + k]);
        }
        assert(after =~= rest);
        assert forall|i: int| 0 <= i < names.skip(1).len() implies good_name(#[trigger] names.skip(1)[i]) by {
            assert(names.skip(1)[i] == names[i + 1]);
        }
        lemma_joined_parts(s, end + 1, names.skip(1));
    } else {
        assert(text == name);
        assert(end == s.len());
    }
    assert(s.subrange(start, end) =~= name) by {
        assert forall|k: int| 0 <= k < name.len() implies s.subrange(start, end)[k] == name[k] by {
            assert(s[start + k] == text[k]);
        }
    }
    assert forall|k: int| start <= k < end implies #[trigger] s[k] != '/' by {
        assert(s[k] == name[k - start]);
        assert(name.contains(name[k - start]));
    }
    lemma_slash_found(s, start, end);
    let tail = parts_from(s, end + 1);
    if names.len() >= 2 {
        assert(as_parts(names) =~= seq![Part::Name(name)] + as_parts(names.skip(1)));
    } else {
        assert(tail =~= Seq::empty());
        assert(as_parts(names) =~= seq![Part::Name(name)] + tail);
    }
}

/// The normal form of a path is never empty, and it is absolute where the path
/// is. Its components are the names that are left of the path, from the root on
/// where it is absolute; nothing in it leads up, and a dot stands only for a
/// relative path of which no name is left.
pub proof fn normal_has_names_only(s: Seq<char>)
    ensures
        is_absolute(normal(s)) == is_absolute(s),
        normal(s).len() > 0,
        forall|i: int| 0 <= i < names_of(s).len() ==> good_name(#[trigger] names_of(s)[i]),
        is_absolute(s) ==> components(normal(s)) == seq![Part::Root] + as_parts(names_of(s)),
        !is_absolute(s) && names_of(s).len() > 0 ==> components(normal(s)) == as_parts(names_of(s)),
        !is_absolute(s) && names_of(s).len() == 0 ==> normal(s) == "."@ && components(normal(s)) == seq![Part::Here],
{
    reveal_strlit("/");
    reveal_strlit(".");
    reveal_strlit("");
    let parts = components(s);
    let names = names_of(s);
    let n = normal(s);
    let j = joined(names, "/"@);
    if is_absolute(s) {
        lemma_good_parts(s, 1);
        let body = parts_from(s, 1);
        assert(parts == seq![Part::Root] + body);
        assert forall|i: int| 0 <= i < parts.len() implies (#[trigger] parts[i] matches Part::Name(x) ==> good_name(
            x,
        )) by {
            if i > 0 {
                assert(parts[i] == body[i - 1]);
            }
        }
        lemma_good_names(parts, parts.len());
        assert(n == "/"@ + j);
        assert(n[0] == '/');
        assert(n.subrange(1, n.len() as int) =~= j);
        if names.len() > 0 {
            lemma_joined_parts(n, 1, names);
        } else {
            assert(n.subrange(1, 1) =~= ""@);
            lemma_slash_found(n, 1, 1);
            assert(parts_from(n, 2) =~= Seq::empty());
            assert(parts_from(n, 1) =~= Seq::empty());
            assert(as_parts(names) =~= Seq::empty());
        }
    } else {
        lemma_good_parts(s, 0);
        lemma_good_names(parts, parts.len());
        if names.len() > 0 {
            assert(good_name(names[0]));
            assert(names[0].len() > 0) by {
                if names[0].len() == 0 {
                    assert(names[0] =~= ""@);
                }
            }
            assert(names[0].contains(names[0][0]));
            if names.len() >= 2 {
                lemma_joined_cons(names, "/"@);
            }
            assert(n[0] == names[0][0]);
            assert(n.subrange(0, n.len() as int) =~= j);
            lemma_joined_parts(n, 0, names);
        } else {
            assert(n == "."@);
            assert(n.subrange(0, 1) =~= "."@);
            lemma_slash_found(n, 0, 1);
            assert(parts_from(n, 2) =~= Seq::empty());
            assert(parts_from(n, 0) =~= seq![Part::Here]);
        }
    }
}

proof fn lemma_names_stay(parts: Seq<Part>, names: Seq<Seq<char>>, from: nat, n: nat)
    requires
        n <= names.len(),
        parts.len() == from + names.len(),
        forall|i: int| 0 <= i < names.len() ==> #[trigger] parts[from + i] == Part::Name(names[i]),
        names_upto(parts, from) == Seq::<Seq<char>>::empty(),
    ensures
        names_upto(parts, from + n) == names.take(n as int),
    decreases n,
{
    if n > 0 {
        lemma_names_stay(parts, names, from, (n - 1) as nat);
        assert(parts[from + (n - 1)] == Part::Name(names[n - 1]));
        assert(names.take(n as int) =~= names.take(n - 1).push(names[n - 1]));
    } else {
        assert(names.take(0) =~= Seq::empty());
    }
}

/// A path in its normal form is its own normal form.
pub proof fn normal_is_settled(s: Seq<char>)
    ensures
        normal(normal(s)) == normal(s),
{
    normal_has_names_only(s);
    let n = normal(s);
    let names = names_of(s);
    let parts = components(n);
    assert(names.take(names.len() as int) =~= names);
    reveal_with_fuel(names_upto, 2);
    if is_absolute(s) {
        assert(parts[0] == Part::Root);
        assert(names_upto(parts, 1) =~= Seq::<Seq<char>>::empty());
        assert forall|i: int| 0 <= i < names.len() implies #[trigger] parts[1 + i] == Part::Name(names[i]) by {
            assert(parts[1 + i] == as_parts(names)[i]);
        }
        lemma_names_stay(parts, names, 1, names.len());
    } else if names.len() > 0 {
        assert forall|i: int| 0 <= i < names.len() implies #[trigger] parts[0 + i] == Part::Name(names[i]) by {
            assert(parts[i] == as_parts(names)[i]);
        }
        lemma_names_stay(parts, names, 0, names.len());
    } else {
        assert(parts[0] == Part::Here);
        assert(names_upto(parts, 1) =~= Seq::<Seq<char>>::empty());
    }
}

proof fn lemma_below_absolute(base: Seq<char>, s: Seq<char>)
    requires
        is_absolute(base),
    ensures
        is_absolute(below(base, s)),
{
    if !is_absolute(s) {
        if base.last() == '/' {
            assert((base + s)[0] == base[0]);
        } else {
            assert((base + "/"@ + s)[0] == base[0]);
        }
    }
}

/// A path that is accepted stays inside the base directory: its components
/// start with those of the base directory, and after the root there are only
/// names, so nothing in it leads up again. It holds wherever the base
/// directory, or the current one, is absolute.
pub proof fn accepted_path_stays_inside(raw: Seq<char>, base: Seq<char>, cwd: Option<Seq<char>>)
    requires
        is_absolute(base) || (cwd matches Some(c) && is_absolute(c)),
    ensures
        resolved(raw, base, cwd) matches Ok(target) ==> {
            &&& within(from_root(base, cwd), target)
            &&& is_absolute(target)
            &&& components(target)[0] is Root
            &&& forall|i: int|
                1 <= i < components(target).len() ==> (#[trigger] components(target)[i] matches Part::Name(n)
                    && good_name(n))
        },
{
    let dir = from_root(base, cwd);
    if is_absolute(base) {
        normal_has_names_only(base);
    } else {
        let c = cwd->0;
        lemma_below_absolute(c, base);
        normal_has_names_only(below(c, base));
    }
    assert(is_absolute(dir));
    let path = replaced(raw, '\\', '/');
    lemma_below_absolute(dir, path);
    normal_has_names_only(below(dir, path));
    let all = below(dir, path);
    let names = names_of(all);
    let target = normal(all);
    assert forall|i: int| 1 <= i < components(target).len() implies (#[trigger] components(target)[i] matches Part::Name(
        n,
    ) && good_name(n)) by {
        assert(components(target)[i] == as_parts(names)[i - 1]);
        assert(good_name(names[i - 1]));
    }
}

/// A path that leads out of the base directory, or one with a drive letter, is
/// refused; no other is.
pub proof fn escaping_path_is_refused(raw: Seq<char>, base: Seq<char>, cwd: Option<Seq<char>>)
    ensures
        resolved(raw, base, cwd) is Err <==> has_drive(raw) || !within(
            from_root(base, cwd),
            normal(below(from_root(base, cwd), replaced(raw, '\\', '/'))),
        ),
{
}

} // verus!
