//! Finding the leftmost tag of a text.
use vstd::prelude::*;
use vstd::string::{StrSliceExecFns, StringSliceAdditionalSpecFns};
use crate::grammar::{
    all_in, default_of, directive_of, first_tag, first_tag_from, in_class, is_default_value,
    is_tag, key_of, lemma_after_run, lemma_first_tag_from_is, lemma_run_end_unique, CharClass,
    DefaultSpan, TagLayout,
};
use crate::text::{chars_of, utf8_len, utf8_offset};

verus! {

/// Whether `c` is of class `k`.
pub fn class_contains(k: CharClass, c: char) -> (r: bool)
    ensures
        r == in_class(c, k),
{
    let u = c as u32;
    match k {
        CharClass::Space => {
            (0x09 <= u && u <= 0x0D) || u == 0x20 || u == 0x85 || u == 0xA0 || u == 0x1680 || (
            0x2000 <= u && u <= 0x200A) || u == 0x2028 || u == 0x2029 || u == 0x202F || u
                == 0x205F || u == 0x3000
        },
        CharClass::Alnum => (0x30 <= u && u <= 0x39) || (0x41 <= u && u <= 0x5A) || (0x61 <= u
            && u <= 0x7A),
        CharClass::Key => (0x30 <= u && u <= 0x39) || (0x41 <= u && u <= 0x5A) || (0x61 <= u
            && u <= 0x7A) || c == '_' || c == '-',
        CharClass::Quoted => c != '"' && u > 0x1F && u != 0x7F,
    }
}

/// The end of the longest run of class `k` that starts at `from`.
pub fn run_end(t: &Vec<char>, from: usize, k: CharClass) -> (e: usize)
    requires
        from <= t.len(),
    ensures
        all_in(t@, from as int, e as int, k),
        e == t.len() || !in_class(t@[e as int], k),
{
    let mut e = from;
    while e < t.len() && class_contains(k, t[e])
        invariant
            from <= e <= t.len(),
            all_in(t@, from as int, e as int, k),
        decreases t.len() - e,
    {
        e = e + 1;
    }
    e
}

/// `t[a..e]` is a default value, and where it is unquoted, no letter or
/// digit follows it.
spec fn is_whole_value(t: Seq<char>, a: int, e: int) -> bool {
    &&& is_default_value(t, a, e)
    &&& e < t.len() && t[e - 1] != '"' ==> !in_class(t[e], CharClass::Alnum)
}

/// The end of the default value that starts at `from`, if one starts there.
fn default_value_end(t: &Vec<char>, from: usize) -> (r: Option<usize>)
    requires
        from <= t.len(),
    ensures
        r matches Some(e) ==> is_whole_value(t@, from as int, e as int),
        forall|e: int| is_whole_value(t@, from as int, e) ==> r == Some(e as usize),
{
    let n = t.len();
    if from < n && class_contains(CharClass::Alnum, t[from]) {
        let e = run_end(t, from, CharClass::Alnum);
        proof {
            assert forall|x: int| is_whole_value(t@, from as int, x) implies x == e by {
                lemma_value_start(t@, from as int, x);
                assert(in_class(t@[x - 1], CharClass::Alnum));
                if e < n {
                    lemma_run_end_unique(t@, from as int, e as int, x, CharClass::Alnum);
                } else if x < e {
                    assert(in_class(t@[x], CharClass::Alnum));
                }
            }
        }
        Some(e)
    } else if from < n && t[from] == '"' {
        let q = run_end(t, from + 1, CharClass::Quoted);
        if q > from + 1 && q < n && t[q] == '"' {
            proof {
                assert forall|x: int| is_default_value(t@, from as int, x) implies x == q + 1 by {
                    lemma_quoted_value_end(t@, from as int, x, q as int);
                }
            }
            Some(q + 1)
        } else {
            proof {
                assert forall|x: int| is_default_value(t@, from as int, x) implies false by {
                    lemma_quoted_value_end(t@, from as int, x, q as int);
                }
            }
            None
        }
    } else {
        proof {
            assert forall|x: int| is_default_value(t@, from as int, x) implies false by {
                if from < n {
                    assert(in_class(t@[from as int], CharClass::Alnum) || t@[from as int] == '"');
                }
            }
        }
        None
    }
}

/// The tag that starts at position `i` of `t`, if one does.
pub fn tag_at(t: &Vec<char>, i: usize) -> (r: Option<TagLayout>)
    requires
        i <= t.len(),
    ensures
        r matches Some(g) ==> is_tag(t@, g) && g.start == i,
        r is None ==> forall|g: TagLayout| is_tag(t@, g) ==> g.start != i,
{
    let n = t.len();
    if i >= n || n - i < 3 || t[i] != '$' || t[i + 1] != '{' || t[i + 2] != '{' {
        return None;
    }
    let ds = run_end(t, i + 3, CharClass::Space);
    proof {
        assert forall|g: TagLayout| is_tag(t@, g) && g.start == i implies g.dir_start == ds by {
            assert(in_class(t@[g.dir_start as int], CharClass::Alnum));
            lemma_run_end_unique(t@, i + 3, g.dir_start as int, ds as int, CharClass::Space);
        }
    }
    let de = run_end(t, ds, CharClass::Alnum);
    if de == ds {
        proof {
            assert forall|g: TagLayout| is_tag(t@, g) implies g.start != i by {
                if g.start == i {
                    assert(in_class(t@[g.dir_start as int], CharClass::Alnum));
                }
            }
        }
        return None;
    }
    proof {
        assert forall|g: TagLayout| is_tag(t@, g) && g.start == i implies g.dir_end == de by {
            lemma_after_run(t@, g.dir_end as int, g.open as int, CharClass::Alnum);
            lemma_run_end_unique(t@, ds as int, g.dir_end as int, de as int, CharClass::Alnum);
        }
    }
    let op = run_end(t, de, CharClass::Space);
    proof {
        assert forall|g: TagLayout| is_tag(t@, g) && g.start == i implies g.open == op by {
            lemma_run_end_unique(t@, de as int, g.open as int, op as int, CharClass::Space);
        }
    }
    if op >= n || t[op] != '(' {
        return None;
    }
    let ks = run_end(t, op + 1, CharClass::Space);
    proof {
        assert forall|g: TagLayout| is_tag(t@, g) && g.start == i implies g.key_start == ks by {
            assert(in_class(t@[g.key_start as int], CharClass::Key));
            lemma_run_end_unique(t@, op + 1, g.key_start as int, ks as int, CharClass::Space);
        }
    }
    let ke = run_end(t, ks, CharClass::Key);
    if ke == ks {
        proof {
            assert forall|g: TagLayout| is_tag(t@, g) implies g.start != i by {
                if g.start == i {
                    assert(in_class(t@[g.key_start as int], CharClass::Key));
                }
            }
        }
        return None;
    }
    proof {
        assert forall|g: TagLayout| is_tag(t@, g) && g.start == i implies g.key_end == ke by {
            lemma_after_run(t@, g.key_end as int, after_key(g), CharClass::Key);
            lemma_run_end_unique(t@, ks as int, g.key_end as int, ke as int, CharClass::Key);
        }
    }
    let p = run_end(t, ke, CharClass::Space);
    proof {
        assert forall|g: TagLayout| is_tag(t@, g) && g.start == i implies after_key(g) == p by {
            lemma_run_end_unique(t@, ke as int, after_key(g), p as int, CharClass::Space);
        }
    }
    let default;
    let cl;
    if n - p >= 2 && t[p] == ':' && t[p + 1] == '-' {
        let vs = run_end(t, p + 2, CharClass::Space);
        proof {
            assert forall|g: TagLayout| is_tag(t@, g) && g.start == i implies g.default is Some
                && g.default->Some_0.start == vs by {
                assert(after_key(g) == p);
                if g.default is None {
                    assert(t@[g.close as int] == ')');
                }
                let d = g.default->Some_0;
                lemma_value_start(t@, d.start as int, d.end as int);
                lemma_run_end_unique(t@, p + 2, d.start as int, vs as int, CharClass::Space);
            }
        }
        let ve = match default_value_end(t, vs) {
            Some(e) => e,
            None => {
                proof {
                    assert forall|g: TagLayout| is_tag(t@, g) implies g.start != i by {
                        if g.start == i {
                            lemma_value_end(t@, g);
                        }
                    }
                }
                return None;
            },
        };
        proof {
            assert forall|g: TagLayout| is_tag(t@, g) && g.start == i implies g.default->Some_0.end
                == ve by {
                lemma_value_end(t@, g);
            }
        }
        default = Some(DefaultSpan { colon: p, start: vs, end: ve });
        cl = run_end(t, ve, CharClass::Space);
        proof {
            assert forall|g: TagLayout| is_tag(t@, g) && g.start == i implies g.close == cl by {
                lemma_run_end_unique(t@, ve as int, g.close as int, cl as int, CharClass::Space);
            }
        }
    } else {
        default = None;
        cl = p;
        proof {
            assert forall|g: TagLayout| is_tag(t@, g) && g.start == i implies g.default is None
                && g.close == cl by {
                assert(after_key(g) == p);
                if g.default is Some {
                    let c = g.default->Some_0.colon;
                    assert(c == p && t@[c as int] == ':' && t@[c + 1] == '-' && c + 1 < n);
                }
            }
        }
    }
    if cl >= n || t[cl] != ')' {
        return None;
    }
    let q = run_end(t, cl + 1, CharClass::Space);
    if n - q < 2 || t[q] != '}' || t[q + 1] != '}' {
        proof {
            assert forall|g: TagLayout| is_tag(t@, g) implies g.start != i by {
                if g.start == i {
                    assert(g.close == cl);
                    assert(t@[g.end - 2] == '}');
                    lemma_run_end_unique(t@, cl + 1, g.end - 2, q as int, CharClass::Space);
                }
            }
        }
        return None;
    }
    Some(
        TagLayout {
            start: i,
            dir_start: ds,
            dir_end: de,
            open: op,
            key_start: ks,
            key_end: ke,
            default,
            close: cl,
            end: q + 2,
        },
    )
}

/// The position of the first character after a tag's key and the spaces
/// that follow it: the `:` of its default, or its closing parenthesis.
spec fn after_key(g: TagLayout) -> int {
    match g.default {
        Some(d) => d.colon as int,
        None => g.close as int,
    }
}

/// The value of a tag's default is followed by a character that ends it.
proof fn lemma_value_end(t: Seq<char>, g: TagLayout)
    requires
        is_tag(t, g),
        g.default is Some,
    ensures
        is_whole_value(t, g.default->Some_0.start as int, g.default->Some_0.end as int),
{
    let d = g.default->Some_0;
    lemma_after_run(t, d.end as int, g.close as int, CharClass::Alnum);
}

/// A default value begins with a letter, a digit or a double quote, and is
/// quoted exactly when it begins with a double quote.
proof fn lemma_value_start(t: Seq<char>, a: int, b: int)
    requires
        is_default_value(t, a, b),
    ensures
        0 <= a < t.len(),
        !in_class(t[a], CharClass::Space),
        t[a] == '"' || in_class(t[a], CharClass::Alnum),
        t[a] == '"' ==> a + 2 < b && t[b - 1] == '"' && all_in(t, a + 1, b - 1, CharClass::Quoted),
        t[a] != '"' ==> all_in(t, a, b, CharClass::Alnum),
{
    if a < b && all_in(t, a, b, CharClass::Alnum) {
        assert(in_class(t[a], CharClass::Alnum));
    }
}

/// A quoted default value that starts at `from` ends just after the run of
/// quotable characters that follows its opening quote.
proof fn lemma_quoted_value_end(t: Seq<char>, from: int, x: int, q: int)
    requires
        0 <= from < t.len(),
        t[from] == '"',
        is_default_value(t, from, x),
        all_in(t, from + 1, q, CharClass::Quoted),
        q == t.len() || !in_class(t[q], CharClass::Quoted),
    ensures
        x == q + 1,
        q < t.len(),
        t[q] == '"',
{
    lemma_value_start(t, from, x);
    assert(t[x - 1] == '"');
    lemma_run_end_unique(t, from + 1, x - 1, q, CharClass::Quoted);
}

/// The leftmost tag of `t` that starts at or after `from`.
pub fn find_tag(t: &Vec<char>, from: usize) -> (r: Option<TagLayout>)
    requires
        from <= t.len(),
    ensures
        r == first_tag_from(t@, from as int),
{
    let mut i = from;
    while i < t.len()
        invariant
            from <= i <= t.len(),
            forall|g: TagLayout| is_tag(t@, g) && from <= g.start ==> i <= g.start,
        decreases t.len() - i,
    {
        match tag_at(t, i) {
            Some(g) => {
                proof {
                    lemma_first_tag_from_is(t@, from as int, g);
                }
                return Some(g);
            },
            None => {},
        }
        i = i + 1;
    }
    None
}

/// What a scan of a text found.
#[derive(Debug, PartialEq, Eq)]
pub enum ParseResult {
    /// The leftmost tag: its directive, key and default (quotes included),
    /// and the byte offsets at which it starts and ends.
    Found {
        directive: String,
        key: String,
        default: Option<String>,
        start: usize,
        end: usize,
    },
    /// The text holds no tag.
    Nothing,
}

/// Finds the leftmost tag of `source`.
pub fn try_consume(source: &str) -> (r: ParseResult)
    ensures
        match first_tag(source@) {
            None => r is Nothing,
            Some(g) => r matches ParseResult::Found { directive, key, default, start, end } && {
                &&& directive@ == directive_of(source@, g)
                &&& key@ == key_of(source@, g)
                &&& default.deep_view() == default_of(source@, g)
                &&& start == utf8_len(source@.subrange(0, g.start as int))
                &&& end == utf8_len(source@.subrange(0, g.end as int))
            },
        },
{
    let t = chars_of(source);
    let byte_len = source.as_bytes().len();
    assert(byte_len == utf8_len(source@));
    match find_tag(&t, 0) {
        None => ParseResult::Nothing,
        Some(g) => {
            let directive = source.substring_char(g.dir_start, g.dir_end).to_owned();
            let key = source.substring_char(g.key_start, g.key_end).to_owned();
            let default = match g.default {
                Some(d) => Some(source.substring_char(d.start, d.end).to_owned()),
                None => None,
            };
            let start = utf8_offset(&t, g.start);
            let end = utf8_offset(&t, g.end);
            ParseResult::Found { directive, key, default, start, end }
        },
    }
}

} // verus!
