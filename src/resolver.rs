//! Replacing the tags of a text by the values their directives name.
use vstd::prelude::*;
use vstd::string::{StrSliceExecFns, StringExecFns};
use crate::grammar::{
    default_of, directive_of, env_tag_text, first_tag, first_tag_from, is_key_char, is_quoted_char,
    is_tag, key_of, lemma_quoted_default, TagLayout,
};
use crate::registry::{Environment, NameRegistry};
use crate::scanner::find_tag;
use crate::text::chars_of;

verus! {

/// Why a tag could not be replaced.
#[derive(Debug, PartialEq, Eq)]
pub enum ResolveError {
    /// The tag's directive is neither `ENV` nor `REF`; holds the directive.
    UnsupportedDirective(String),
    /// An `ENV` tag without a default names an unset variable; holds the key.
    MissingEnvironmentVariable(String),
    /// A `REF` tag names a label that the registry lacks; holds the key.
    UnresolvedReference(String),
}

/// A [`ResolveError`] as a mathematical value.
pub enum ResolveFault {
    UnsupportedDirective(Seq<char>),
    MissingEnvironmentVariable(Seq<char>),
    UnresolvedReference(Seq<char>),
}

impl View for ResolveError {
    type V = ResolveFault;

    open spec fn view(&self) -> ResolveFault {
        match self {
            ResolveError::UnsupportedDirective(s) => ResolveFault::UnsupportedDirective(s@),
            ResolveError::MissingEnvironmentVariable(s) => ResolveFault::MissingEnvironmentVariable(
                s@,
            ),
            ResolveError::UnresolvedReference(s) => ResolveFault::UnresolvedReference(s@),
        }
    }
}

/// The outcome of a resolution as a mathematical value.
pub open spec fn outcome(r: Result<String, ResolveError>) -> Result<Seq<char>, ResolveFault> {
    match r {
        Ok(s) => Ok(s@),
        Err(e) => Err(e@),
    }
}

/// What `ENV(key)` with an optional default stands for.
pub open spec fn env_value(key: Seq<char>, default: Option<Seq<char>>, env: Map<
    Seq<char>,
    Seq<char>,
>) -> Result<Seq<char>, ResolveFault> {
    if env.contains_key(key) {
        Ok(env[key])
    } else {
        match default {
            Some(d) => Ok(d),
            None => Err(ResolveFault::MissingEnvironmentVariable(key)),
        }
    }
}

/// What `REF(key)` stands for.
pub open spec fn ref_value(key: Seq<char>, registry: Map<Seq<char>, Seq<char>>) -> Result<
    Seq<char>,
    ResolveFault,
> {
    if registry.contains_key(key) {
        Ok(registry[key])
    } else {
        Err(ResolveFault::UnresolvedReference(key))
    }
}

/// What a tag with the given directive, key and default stands for.
/// A default serves `ENV` only.
pub open spec fn directive_value(
    directive: Seq<char>,
    key: Seq<char>,
    default: Option<Seq<char>>,
    registry: Map<Seq<char>, Seq<char>>,
    env: Map<Seq<char>, Seq<char>>,
) -> Result<Seq<char>, ResolveFault> {
    if directive == seq!['E', 'N', 'V'] {
        env_value(key, default, env)
    } else if directive == seq!['R', 'E', 'F'] {
        ref_value(key, registry)
    } else {
        Err(ResolveFault::UnsupportedDirective(directive))
    }
}

/// What tag `g` of `t` stands for.
pub open spec fn tag_value(
    t: Seq<char>,
    g: TagLayout,
    registry: Map<Seq<char>, Seq<char>>,
    env: Map<Seq<char>, Seq<char>>,
) -> Result<Seq<char>, ResolveFault> {
    directive_value(directive_of(t, g), key_of(t, g), default_of(t, g), registry, env)
}

/// `prefix` followed by the text of `r`, or the error of `r`.
pub open spec fn after(prefix: Seq<char>, r: Result<Seq<char>, ResolveFault>) -> Result<
    Seq<char>,
    ResolveFault,
> {
    match r {
        Ok(s) => Ok(prefix + s),
        Err(e) => Err(e),
    }
}

/// The text `t[from..]` with each tag replaced, left to right; the error of
/// the first tag that cannot be replaced, if one cannot.
pub open spec fn substitute_from(
    t: Seq<char>,
    from: int,
    registry: Map<Seq<char>, Seq<char>>,
    env: Map<Seq<char>, Seq<char>>,
) -> Result<Seq<char>, ResolveFault>
    decreases t.len() - from,
{
    match first_tag_from(t, from) {
        None => Ok(t.subrange(from, t.len() as int)),
        Some(g) => match tag_value(t, g, registry, env) {
            Ok(v) => after(
                t.subrange(from, g.start as int) + v,
                substitute_from(t, g.end as int, registry, env),
            ),
            Err(e) => Err(e),
        },
    }
}

/// The text `t` with each tag replaced, or the error of the first tag that
/// cannot be replaced.
pub open spec fn substitute(
    t: Seq<char>,
    registry: Map<Seq<char>, Seq<char>>,
    env: Map<Seq<char>, Seq<char>>,
) -> Result<Seq<char>, ResolveFault> {
    substitute_from(t, 0, registry, env)
}

/// A text that holds no tag is its own substitution, whatever the registry
/// and the environment.
pub proof fn lemma_untagged_text_unchanged(
    t: Seq<char>,
    registry: Map<Seq<char>, Seq<char>>,
    env: Map<Seq<char>, Seq<char>>,
)
    requires
        forall|g: TagLayout| !is_tag(t, g),
    ensures
        substitute(t, registry, env) == Ok::<Seq<char>, ResolveFault>(t),
{
    assert(first_tag_from(t, 0) is None);
    assert(t.subrange(0, t.len() as int) =~= t);
}

/// Registering a label twice keeps the later identifier: a `REF` to the
/// label yields it, and every text substitutes as if only the later
/// registration had been made.
pub proof fn lemma_latest_registration_wins(
    registry: Map<Seq<char>, Seq<char>>,
    label: Seq<char>,
    first: Seq<char>,
    second: Seq<char>,
    env: Map<Seq<char>, Seq<char>>,
    t: Seq<char>,
)
    ensures
        ref_value(label, registry.insert(label, first).insert(label, second)) == Ok::<
            Seq<char>,
            ResolveFault,
        >(second),
        substitute(t, registry.insert(label, first).insert(label, second), env) == substitute(
            t,
            registry.insert(label, second),
            env,
        ),
{
    assert(registry.insert(label, first).insert(label, second) =~= registry.insert(label, second));
}

/// The text `${{ENV(k:-"q")}}` becomes the value of variable `k` where `k` is
/// set, whatever the default, and the default `"q"` (quotes included) where
/// it is not.
pub proof fn lemma_env_tag_text(
    k: Seq<char>,
    q: Seq<char>,
    registry: Map<Seq<char>, Seq<char>>,
    env: Map<Seq<char>, Seq<char>>,
)
    requires
        k.len() > 0,
        forall|i: int| 0 <= i < k.len() ==> is_key_char(#[trigger] k[i]),
        q.len() > 0,
        forall|i: int| 0 <= i < q.len() ==> is_quoted_char(#[trigger] q[i]),
        k.len() + q.len() + 14 <= usize::MAX,
    ensures
        substitute(env_tag_text(k, q), registry, env) == if env.contains_key(k) {
            Ok::<Seq<char>, ResolveFault>(env[k])
        } else {
            Ok(seq!['"'] + q + seq!['"'])
        },
{
    let t = env_tag_text(k, q);
    lemma_quoted_default(k, q);
    let g = first_tag(t)->Some_0;
    assert(first_tag_from(t, g.end as int) is None);
    let dq = seq!['"'] + q + seq!['"'];
    let v = if env.contains_key(k) {
        env[k]
    } else {
        dq
    };
    assert(tag_value(t, g, registry, env) == Ok::<Seq<char>, ResolveFault>(v));
    assert(substitute_from(t, g.end as int, registry, env) == Ok::<Seq<char>, ResolveFault>(
        Seq::<char>::empty(),
    )) by {
        assert(t.subrange(t.len() as int, t.len() as int) =~= Seq::<char>::empty());
    }
    assert(t.subrange(0, 0) + v + Seq::<char>::empty() =~= v);
}

/// Whether `s` is the word `a b c`.
fn is_word(s: &str, a: char, b: char, c: char) -> (r: bool)
    ensures
        r == (s@ == seq![a, b, c]),
{
    let v = chars_of(s);
    let r = v.len() == 3 && v[0] == a && v[1] == b && v[2] == c;
    if r {
        assert(v@ =~= seq![a, b, c]);
    }
    r
}

/// The value of environment variable `key`, or `default` where it is unset.
pub fn resolve_env(key: &str, default: Option<String>, env: &Environment) -> (r: Result<
    String,
    ResolveError,
>)
    ensures
        outcome(r) == env_value(key@, default.deep_view(), env@),
{
    match env.get(key) {
        Some(v) => Ok(v.clone()),
        None => match default {
            Some(d) => Ok(d),
            None => Err(ResolveError::MissingEnvironmentVariable(key.to_owned())),
        },
    }
}

/// The identifier that `key` is registered under.
pub fn resolve_ref(key: &str, dict: &NameRegistry) -> (r: Result<String, ResolveError>)
    ensures
        outcome(r) == ref_value(key@, dict@),
{
    match dict.get(key) {
        Some(v) => Ok(v.clone()),
        None => Err(ResolveError::UnresolvedReference(key.to_owned())),
    }
}

/// The value of a tag with the given directive, key and default.
pub fn resolve_directive(
    directive: &str,
    key: &str,
    default: Option<String>,
    dict: &NameRegistry,
    env: &Environment,
) -> (r: Result<String, ResolveError>)
    ensures
        outcome(r) == directive_value(directive@, key@, default.deep_view(), dict@, env@),
{
    if is_word(directive, 'E', 'N', 'V') {
        resolve_env(key, default, env)
    } else if is_word(directive, 'R', 'E', 'F') {
        resolve_ref(key, dict)
    } else {
        Err(ResolveError::UnsupportedDirective(directive.to_owned()))
    }
}

/// Replaces every tag of `raw_text`, left to right, by its value: `ENV` tags
/// from `env`, `REF` tags from `dict`. Fails with the error of the first tag
/// that cannot be replaced, and then yields no text.
pub fn resolve_tags(raw_text: &str, dict: &NameRegistry, env: &Environment) -> (r: Result<
    String,
    ResolveError,
>)
    ensures
        outcome(r) == substitute(raw_text@, dict@, env@),
{
    let t = chars_of(raw_text);
    let mut out = String::new();
    let mut c: usize = 0;
    loop
        invariant
            t@ == raw_text@,
            c <= t.len(),
            substitute(t@, dict@, env@) == after(out@, substitute_from(t@, c as int, dict@, env@)),
        decreases t.len() - c,
    {
        match find_tag(&t, c) {
            None => {
                out.append(raw_text.substring_char(c, t.len()));
                return Ok(out);
            },
            Some(g) => {
                proof {
                    crate::grammar::lemma_first_tag_from_is(t@, c as int, g);
                }
                let directive = raw_text.substring_char(g.dir_start, g.dir_end).to_owned();
                let key = raw_text.substring_char(g.key_start, g.key_end).to_owned();
                let default = match g.default {
                    Some(d) => Some(raw_text.substring_char(d.start, d.end).to_owned()),
                    None => None,
                };
                let ghost dv = default.deep_view();
                let value = match resolve_directive(
                    directive.as_str(),
                    key.as_str(),
                    default,
                    dict,
                    env,
                ) {
                    Ok(v) => v,
                    Err(e) => return Err(e),
                };
                let ghost before = out@;
                out.append(raw_text.substring_char(c, g.start));
                out.append(value.as_str());
                proof {
                    let x = t@.subrange(c as int, g.start as int);
                    assert(out@ =~= before + (x + value@));
                    assert(directive@ == directive_of(t@, g));
                    assert(key@ == key_of(t@, g));
                    assert(dv == default_of(t@, g));
                    let rest = substitute_from(t@, g.end as int, dict@, env@);
                    assert(substitute_from(t@, c as int, dict@, env@) == after(x + value@, rest));
                    if rest is Ok {
                        assert(before + ((x + value@) + rest->Ok_0) =~= out@ + rest->Ok_0);
                    }
                }
                c = g.end;
            },
        }
    }
}

} // verus!
