//! The tag grammar, stated over the characters of a text.
//!
//! ```text
//! ${{ <ws>* DIRECTIVE <ws>* ( <ws>* KEY (<ws>* :- <ws>* DEFAULT)? <ws>* ) <ws>* }}
//! ```
//!
//! A tag is described by a [`TagLayout`]: the character positions at which
//! each of its parts begins and ends. [`is_tag`] says when a layout describes
//! a tag of a text; the scanner reports the tag that starts leftmost.
use vstd::prelude::*;

verus! {

/// Whitespace as Unicode's `White_Space` property defines it.
pub open spec fn is_space_char(c: char) -> bool {
    let u = c as u32;
    ||| 0x09 <= u <= 0x0D
    ||| u == 0x20
    ||| u == 0x85
    ||| u == 0xA0
    ||| u == 0x1680
    ||| 0x2000 <= u <= 0x200A
    ||| u == 0x2028
    ||| u == 0x2029
    ||| u == 0x202F
    ||| u == 0x205F
    ||| u == 0x3000
}

/// An ASCII letter or digit.
pub open spec fn is_alnum_char(c: char) -> bool {
    let u = c as u32;
    ||| 0x30 <= u <= 0x39
    ||| 0x41 <= u <= 0x5A
    ||| 0x61 <= u <= 0x7A
}

/// A character that may stand in a key.
pub open spec fn is_key_char(c: char) -> bool {
    is_alnum_char(c) || c == '_' || c == '-'
}

/// A character that may stand between the quotes of a quoted default:
/// anything but a double quote or an ASCII control character.
pub open spec fn is_quoted_char(c: char) -> bool {
    let u = c as u32;
    c != '"' && u > 0x1F && u != 0x7F
}

/// The classes of characters that make up the runs of a tag.
#[derive(Clone, Copy, Debug)]
pub enum CharClass {
    Space,
    Alnum,
    Key,
    Quoted,
}

pub open spec fn in_class(c: char, k: CharClass) -> bool {
    match k {
        CharClass::Space => is_space_char(c),
        CharClass::Alnum => is_alnum_char(c),
        CharClass::Key => is_key_char(c),
        CharClass::Quoted => is_quoted_char(c),
    }
}

/// Positions `a..b` lie within `t`, and every character there is of class `k`.
pub open spec fn all_in(t: Seq<char>, a: int, b: int, k: CharClass) -> bool {
    &&& 0 <= a <= b <= t.len()
    &&& forall|i: int| a <= i < b ==> #[trigger] in_class(t[i], k)
}

/// `t[a..b]` is a default value: a run of letters and digits, or a
/// double-quoted run of quotable characters (quotes included).
pub open spec fn is_default_value(t: Seq<char>, a: int, b: int) -> bool {
    ||| a < b && all_in(t, a, b, CharClass::Alnum)
    ||| 0 <= a && a + 2 < b <= t.len() && t[a] == '"' && t[b - 1] == '"' && all_in(
        t,
        a + 1,
        b - 1,
        CharClass::Quoted,
    )
}

/// Where the default part of a tag lies: `colon` is the position of `:-`,
/// the value occupies `start..end`.
#[derive(Clone, Copy, Debug)]
pub struct DefaultSpan {
    pub colon: usize,
    pub start: usize,
    pub end: usize,
}

/// Where the parts of one tag lie in a text, as character positions.
/// The tag occupies `start..end`; `open` and `close` are its parentheses.
#[derive(Clone, Copy, Debug)]
pub struct TagLayout {
    pub start: usize,
    pub dir_start: usize,
    pub dir_end: usize,
    pub open: usize,
    pub key_start: usize,
    pub key_end: usize,
    pub default: Option<DefaultSpan>,
    pub close: usize,
    pub end: usize,
}

/// `g` describes a well-formed tag of `t`.
pub open spec fn is_tag(t: Seq<char>, g: TagLayout) -> bool {
    &&& g.start + 3 <= t.len()
    &&& t[g.start as int] == '$' && t[g.start + 1] == '{' && t[g.start + 2] == '{'
    &&& all_in(t, g.start + 3, g.dir_start as int, CharClass::Space)
    &&& g.dir_start < g.dir_end
    &&& all_in(t, g.dir_start as int, g.dir_end as int, CharClass::Alnum)
    &&& all_in(t, g.dir_end as int, g.open as int, CharClass::Space)
    &&& g.open < t.len() && t[g.open as int] == '('
    &&& all_in(t, g.open + 1, g.key_start as int, CharClass::Space)
    &&& g.key_start < g.key_end
    &&& all_in(t, g.key_start as int, g.key_end as int, CharClass::Key)
    &&& match g.default {
        None => all_in(t, g.key_end as int, g.close as int, CharClass::Space),
        Some(d) => {
            &&& all_in(t, g.key_end as int, d.colon as int, CharClass::Space)
            &&& d.colon + 1 < t.len() && t[d.colon as int] == ':' && t[d.colon + 1] == '-'
            &&& all_in(t, d.colon + 2, d.start as int, CharClass::Space)
            &&& is_default_value(t, d.start as int, d.end as int)
            &&& all_in(t, d.end as int, g.close as int, CharClass::Space)
        },
    }
    &&& g.close < t.len() && t[g.close as int] == ')'
    &&& g.close + 3 <= g.end <= t.len()
    &&& all_in(t, g.close + 1, g.end - 2, CharClass::Space)
    &&& t[g.end - 2] == '}' && t[g.end - 1] == '}'
}

/// The directive of tag `g` of `t`.
pub open spec fn directive_of(t: Seq<char>, g: TagLayout) -> Seq<char> {
    t.subrange(g.dir_start as int, g.dir_end as int)
}

/// The key of tag `g` of `t`.
pub open spec fn key_of(t: Seq<char>, g: TagLayout) -> Seq<char> {
    t.subrange(g.key_start as int, g.key_end as int)
}

/// The default of tag `g` of `t`, quotes included.
pub open spec fn default_of(t: Seq<char>, g: TagLayout) -> Option<Seq<char>> {
    match g.default {
        Some(d) => Some(t.subrange(d.start as int, d.end as int)),
        None => None,
    }
}

/// `g` is a tag of `t` that starts at or after `from`, and no tag of `t`
/// that starts at or after `from` starts before it.
pub open spec fn is_first_tag_from(t: Seq<char>, from: int, g: TagLayout) -> bool {
    &&& is_tag(t, g)
    &&& from <= g.start
    &&& forall|h: TagLayout| is_tag(t, h) && from <= h.start ==> g.start <= h.start
}

/// The leftmost tag of `t` at or after position `from`, if there is one.
pub open spec fn first_tag_from(t: Seq<char>, from: int) -> Option<TagLayout> {
    if exists|g: TagLayout| is_first_tag_from(t, from, g) {
        Some(choose|g: TagLayout| is_first_tag_from(t, from, g))
    } else {
        None
    }
}

/// The leftmost tag of `t`, if there is one.
pub open spec fn first_tag(t: Seq<char>) -> Option<TagLayout> {
    first_tag_from(t, 0)
}

/// Two runs of class `k` from `a` that both end before a character outside
/// the class (or, for the second, at the end of `t`) end at one place.
pub proof fn lemma_run_end_unique(t: Seq<char>, a: int, x: int, y: int, k: CharClass)
    requires
        all_in(t, a, x, k),
        all_in(t, a, y, k),
        x < t.len(),
        !in_class(t[x], k),
        y == t.len() || !in_class(t[y], k),
    ensures
        x == y,
{
    if y < x {
        assert(in_class(t[y], k));
    } else if x < y {
        assert(in_class(t[x], k));
    }
}

/// A text determines each of its tags by the tag's start: two layouts of tags
/// of `t` that start at one position are equal.
pub proof fn lemma_tag_unique(t: Seq<char>, g: TagLayout, h: TagLayout)
    requires
        is_tag(t, g),
        is_tag(t, h),
        g.start == h.start,
    ensures
        g == h,
{
    let s = g.start as int;
    assert(in_class(t[g.dir_start as int], CharClass::Alnum));
    assert(in_class(t[h.dir_start as int], CharClass::Alnum));
    lemma_run_end_unique(t, s + 3, g.dir_start as int, h.dir_start as int, CharClass::Space);
    lemma_after_run(t, g.dir_end as int, g.open as int, CharClass::Alnum);
    lemma_after_run(t, h.dir_end as int, h.open as int, CharClass::Alnum);
    lemma_run_end_unique(t, g.dir_start as int, g.dir_end as int, h.dir_end as int, CharClass::Alnum);
    lemma_run_end_unique(t, g.dir_end as int, g.open as int, h.open as int, CharClass::Space);
    assert(in_class(t[g.key_start as int], CharClass::Key));
    assert(in_class(t[h.key_start as int], CharClass::Key));
    lemma_run_end_unique(t, g.open + 1, g.key_start as int, h.key_start as int, CharClass::Space);
    let pg = match g.default {
        Some(d) => d.colon as int,
        None => g.close as int,
    };
    let ph = match h.default {
        Some(d) => d.colon as int,
        None => h.close as int,
    };
    lemma_after_run(t, g.key_end as int, pg, CharClass::Key);
    lemma_after_run(t, h.key_end as int, ph, CharClass::Key);
    lemma_run_end_unique(t, g.key_start as int, g.key_end as int, h.key_end as int, CharClass::Key);
    lemma_run_end_unique(t, g.key_end as int, pg, ph, CharClass::Space);
    match (g.default, h.default) {
        (Some(dg), Some(dh)) => {
            let c = dg.colon as int;
            assert(t[dg.start as int] == '"' || in_class(t[dg.start as int], CharClass::Alnum));
            assert(t[dh.start as int] == '"' || in_class(t[dh.start as int], CharClass::Alnum));
            assert(!in_class(t[dg.start as int], CharClass::Space));
            assert(!in_class(t[dh.start as int], CharClass::Space));
            lemma_run_end_unique(t, c + 2, dg.start as int, dh.start as int, CharClass::Space);
            let a = dg.start as int;
            if t[a] == '"' {
                assert(!in_class(t[a], CharClass::Alnum));
                assert(t[dg.end - 1] == '"' && t[dh.end - 1] == '"');
                assert(!in_class(t[dg.end - 1], CharClass::Quoted));
                assert(!in_class(t[dh.end - 1], CharClass::Quoted));
                lemma_run_end_unique(t, a + 1, dg.end - 1, dh.end - 1, CharClass::Quoted);
            } else {
                assert(in_class(t[a], CharClass::Alnum));
                lemma_after_run(t, dg.end as int, g.close as int, CharClass::Alnum);
                lemma_after_run(t, dh.end as int, h.close as int, CharClass::Alnum);
                lemma_run_end_unique(t, a, dg.end as int, dh.end as int, CharClass::Alnum);
            }
            lemma_run_end_unique(t, dg.end as int, g.close as int, h.close as int, CharClass::Space);
            assert(dg == dh);
        },
        (None, None) => {},
        _ => {
            assert(t[pg] == ':' || t[pg] == ')');
        },
    }
    lemma_run_end_unique(t, g.close + 1, g.end - 2, h.end - 2, CharClass::Space);
}

/// A run of spaces `x..y` that ends at `(`, `)` or `:` starts with no
/// letter, digit or key character at `x`.
pub proof fn lemma_after_run(t: Seq<char>, x: int, y: int, k: CharClass)
    requires
        all_in(t, x, y, CharClass::Space),
        y < t.len(),
        t[y] == '(' || t[y] == ')' || t[y] == ':',
        k == CharClass::Alnum || k == CharClass::Key,
    ensures
        !in_class(t[x], k),
{
    if x < y {
        assert(in_class(t[x], CharClass::Space));
    }
}

/// Where a tag starts at or after `from`, a leftmost such tag exists.
pub proof fn lemma_first_tag_exists(t: Seq<char>, from: int, g: TagLayout)
    requires
        is_tag(t, g),
        from <= g.start,
    ensures
        exists|h: TagLayout| is_first_tag_from(t, from, h),
    decreases g.start,
{
    if exists|h: TagLayout| is_tag(t, h) && from <= h.start && h.start < g.start {
        let h = choose|h: TagLayout| is_tag(t, h) && from <= h.start && h.start < g.start;
        lemma_first_tag_exists(t, from, h);
    } else {
        assert(is_first_tag_from(t, from, g));
    }
}

/// A leftmost tag at or after `from` is the one that `first_tag_from` names.
pub proof fn lemma_first_tag_from_is(t: Seq<char>, from: int, g: TagLayout)
    requires
        is_first_tag_from(t, from, g),
    ensures
        first_tag_from(t, from) == Some(g),
{
    let h = choose|h: TagLayout| is_first_tag_from(t, from, h);
    assert(is_first_tag_from(t, from, h));
    lemma_tag_unique(t, g, h);
}

/// `g` moved by `d` positions.
pub open spec fn shift(g: TagLayout, d: int) -> TagLayout {
    TagLayout {
        start: (g.start + d) as usize,
        dir_start: (g.dir_start + d) as usize,
        dir_end: (g.dir_end + d) as usize,
        open: (g.open + d) as usize,
        key_start: (g.key_start + d) as usize,
        key_end: (g.key_end + d) as usize,
        default: match g.default {
            Some(x) => Some(
                DefaultSpan {
                    colon: (x.colon + d) as usize,
                    start: (x.start + d) as usize,
                    end: (x.end + d) as usize,
                },
            ),
            None => None,
        },
        close: (g.close + d) as usize,
        end: (g.end + d) as usize,
    }
}

/// Each position of `g` lies exactly `d` after the same position of `h`.
pub open spec fn shifted_by(h: TagLayout, g: TagLayout, d: int) -> bool {
    &&& g.start == h.start + d
    &&& g.dir_start == h.dir_start + d
    &&& g.dir_end == h.dir_end + d
    &&& g.open == h.open + d
    &&& g.key_start == h.key_start + d
    &&& g.key_end == h.key_end + d
    &&& g.close == h.close + d
    &&& g.end == h.end + d
    &&& match (h.default, g.default) {
        (Some(x), Some(y)) => y.colon == x.colon + d && y.start == x.start + d && y.end == x.end
            + d,
        (None, None) => true,
        _ => false,
    }
}

proof fn lemma_all_in_skip(t: Seq<char>, e: int, a: int, b: int, k: CharClass)
    requires
        0 <= e <= t.len(),
        0 <= a,
    ensures
        all_in(t.skip(e), a, b, k) <==> all_in(t, a + e, b + e, k),
{
    if all_in(t.skip(e), a, b, k) {
        assert forall|i: int| a + e <= i < b + e implies in_class(t[i], k) by {
            assert(t.skip(e)[i - e] == t[i]);
        }
    }
    if all_in(t, a + e, b + e, k) {
        assert forall|i: int| a <= i < b implies in_class(t.skip(e)[i], k) by {
            assert(t.skip(e)[i] == t[i + e]);
        }
    }
}

proof fn lemma_default_value_skip(t: Seq<char>, e: int, a: int, b: int)
    requires
        0 <= e <= t.len(),
        0 <= a,
    ensures
        is_default_value(t.skip(e), a, b) <==> is_default_value(t, a + e, b + e),
{
    lemma_all_in_skip(t, e, a, b, CharClass::Alnum);
    lemma_all_in_skip(t, e, a + 1, b - 1, CharClass::Quoted);
    if a < t.len() - e {
        assert(t.skip(e)[a] == t[a + e]);
    }
    if 0 < b <= t.len() - e {
        assert(t.skip(e)[b - 1] == t[b - 1 + e]);
    }
}

/// Whether a layout is a tag depends on the characters it covers alone:
/// `h` is a tag of `t.skip(e)` exactly when its shift by `e` is a tag of `t`.
proof fn lemma_tag_skip(t: Seq<char>, e: int, h: TagLayout, g: TagLayout)
    requires
        0 <= e <= t.len(),
        shifted_by(h, g, e),
    ensures
        is_tag(t.skip(e), h) <==> is_tag(t, g),
{
    let u = t.skip(e);
    lemma_all_in_skip(t, e, h.start + 3, h.dir_start as int, CharClass::Space);
    lemma_all_in_skip(t, e, h.dir_start as int, h.dir_end as int, CharClass::Alnum);
    lemma_all_in_skip(t, e, h.dir_end as int, h.open as int, CharClass::Space);
    lemma_all_in_skip(t, e, h.open + 1, h.key_start as int, CharClass::Space);
    lemma_all_in_skip(t, e, h.key_start as int, h.key_end as int, CharClass::Key);
    lemma_all_in_skip(t, e, h.close + 1, h.end - 2, CharClass::Space);
    match (h.default, g.default) {
        (Some(x), Some(_)) => {
            lemma_all_in_skip(t, e, h.key_end as int, x.colon as int, CharClass::Space);
            lemma_all_in_skip(t, e, x.colon + 2, x.start as int, CharClass::Space);
            lemma_default_value_skip(t, e, x.start as int, x.end as int);
            lemma_all_in_skip(t, e, x.end as int, h.close as int, CharClass::Space);
            if x.colon + 1 < u.len() {
                assert(u[x.colon as int] == t[x.colon + e]);
                assert(u[x.colon + 1] == t[x.colon + 1 + e]);
            }
        },
        _ => {
            lemma_all_in_skip(t, e, h.key_end as int, h.close as int, CharClass::Space);
        },
    }
    if h.start + 3 <= u.len() {
        assert(u[h.start as int] == t[h.start + e]);
        assert(u[h.start + 1] == t[h.start + 1 + e]);
        assert(u[h.start + 2] == t[h.start + 2 + e]);
    }
    if h.open < u.len() {
        assert(u[h.open as int] == t[h.open + e]);
    }
    if h.close < u.len() {
        assert(u[h.close as int] == t[h.close + e]);
    }
    if 2 <= h.end <= u.len() {
        assert(u[h.end - 2] == t[h.end - 2 + e]);
        assert(u[h.end - 1] == t[h.end - 1 + e]);
    }
}

/// Scanning the remainder of a text after position `e` finds the leftmost tag
/// of the text that starts at or after `e`, at its position in the remainder.
/// In particular, after the leftmost tag of a text, scanning the rest of the
/// text from that tag's end finds the next tag.
pub proof fn lemma_scan_remainder(t: Seq<char>, e: int)
    requires
        0 <= e <= t.len(),
        t.len() <= usize::MAX,
    ensures
        first_tag(t.skip(e)) == match first_tag_from(t, e) {
            Some(g) => Some(shift(g, -e)),
            None => None,
        },
{
    let u = t.skip(e);
    assert forall|h: TagLayout| is_tag(u, h) implies is_tag(t, shift(h, e)) && shift(h, e).start
        >= e by {
        lemma_tag_skip(t, e, h, shift(h, e));
    }
    match first_tag_from(t, e) {
        Some(g) => {
            lemma_first_tag_exists_if_some(t, e);
            let h = shift(g, -e);
            lemma_tag_skip(t, e, h, g);
            assert forall|k: TagLayout| is_tag(u, k) implies h.start <= k.start by {
                lemma_tag_skip(t, e, k, shift(k, e));
            }
            lemma_first_tag_from_is(u, 0, h);
        },
        None => {
            assert forall|h: TagLayout| !is_tag(u, h) by {
                if is_tag(u, h) {
                    lemma_tag_skip(t, e, h, shift(h, e));
                    lemma_first_tag_exists(t, e, shift(h, e));
                }
            }
        },
    }
}

/// The text `${{ENV(k:-"q")}}`.
pub open spec fn env_tag_text(k: Seq<char>, q: Seq<char>) -> Seq<char> {
    seq!['$', '{', '{', 'E', 'N', 'V', '('] + k + seq![':', '-', '"'] + q + seq!['"', ')', '}', '}']
}

/// A quoted default may hold any non-empty run of characters other than
/// double quotes and ASCII control characters, non-ASCII characters and
/// punctuation included: `${{ENV(k:-"q")}}` is a tag, with key `k` and
/// default `"q"`, quotes included.
pub proof fn lemma_quoted_default(k: Seq<char>, q: Seq<char>)
    requires
        k.len() > 0,
        forall|i: int| 0 <= i < k.len() ==> is_key_char(#[trigger] k[i]),
        q.len() > 0,
        forall|i: int| 0 <= i < q.len() ==> is_quoted_char(#[trigger] q[i]),
        k.len() + q.len() + 14 <= usize::MAX,
    ensures
        first_tag(env_tag_text(k, q)) matches Some(g) && {
            let t = env_tag_text(k, q);
            &&& directive_of(t, g) == seq!['E', 'N', 'V']
            &&& key_of(t, g) == k
            &&& default_of(t, g) == Some(seq!['"'] + q + seq!['"'])
            &&& g.start == 0
            &&& g.end == t.len()
        },
{
    let t = env_tag_text(k, q);
    let kl = k.len() as int;
    let ql = q.len() as int;
    let head = seq!['$', '{', '{', 'E', 'N', 'V', '('];
    let tail = seq!['"', ')', '}', '}'];
    assert(t.len() == 14 + kl + ql);
    assert forall|i: int| 0 <= i < 7 implies t[i] == head[i] by {}
    assert forall|i: int| 7 <= i < 7 + kl implies t[i] == k[i - 7] by {}
    assert(t[7 + kl] == ':' && t[8 + kl] == '-' && t[9 + kl] == '"');
    assert forall|i: int| 10 + kl <= i < 10 + kl + ql implies t[i] == q[i - 10 - kl] by {}
    assert forall|i: int| 0 <= i < 4 implies t[10 + kl + ql + i] == tail[i] by {}
    let g = TagLayout {
        start: 0,
        dir_start: 3,
        dir_end: 6,
        open: 6,
        key_start: 7,
        key_end: (7 + kl) as usize,
        default: Some(
            DefaultSpan {
                colon: (7 + kl) as usize,
                start: (9 + kl) as usize,
                end: (11 + kl + ql) as usize,
            },
        ),
        close: (11 + kl + ql) as usize,
        end: (14 + kl + ql) as usize,
    };
    assert(all_in(t, 3, 6, CharClass::Alnum)) by {
        assert(t[3] == 'E' && t[4] == 'N' && t[5] == 'V');
    }
    assert(all_in(t, 7, 7 + kl, CharClass::Key)) by {
        assert forall|i: int| 7 <= i < 7 + kl implies in_class(t[i], CharClass::Key) by {
            assert(t[i] == k[i - 7]);
        }
    }
    assert(all_in(t, 10 + kl, 10 + kl + ql, CharClass::Quoted)) by {
        assert forall|i: int| 10 + kl <= i < 10 + kl + ql implies in_class(
            t[i],
            CharClass::Quoted,
        ) by {
            assert(t[i] == q[i - 10 - kl]);
        }
    }
    assert(is_tag(t, g));
    assert forall|h: TagLayout| is_tag(t, h) && 0 <= h.start implies g.start <= h.start by {}
    lemma_first_tag_from_is(t, 0, g);
    assert(directive_of(t, g) =~= seq!['E', 'N', 'V']);
    assert(key_of(t, g) =~= k);
    assert(t.subrange(9 + kl, 11 + kl + ql) =~= seq!['"'] + q + seq!['"']);
}

/// Where `first_tag_from` names a tag, that tag is leftmost.
proof fn lemma_first_tag_exists_if_some(t: Seq<char>, from: int)
    requires
        first_tag_from(t, from) is Some,
    ensures
        is_first_tag_from(t, from, first_tag_from(t, from)->Some_0),
{
}

} // verus!
