use vstd::prelude::*;

use crate::text::{chars_of, push_chars};

verus! {

/// The proxy's configuration, as read from its TOML file.
pub struct AppConfig {
    pub providers: Vec<ProviderConfig>,
    pub routes: Vec<RouteRule>,
    pub default_provider: String,
    pub pricing: Vec<ModelPricing>,
}

/// Prices of one model, in millionths of a dollar per million tokens (a
/// negative price is held as it is and counts as a credit).
pub struct ModelPricing {
    pub model: String,
    pub input_per_m_micros: i64,
    pub output_per_m_micros: i64,
}

/// One upstream provider.  `provider_type` is `"anthropic"` for a provider
/// that speaks Anthropic's message format; any other value (the default is
/// empty) means an OpenAI-compatible provider.
pub struct ProviderConfig {
    pub name: String,
    pub endpoint: String,
    pub api_key: String,
    pub models: Vec<String>,
    pub provider_type: String,
}

/// Requests for `model` (an exact name or a prefix) go to `provider`.
pub struct RouteRule {
    pub model: String,
    pub provider: String,
}

/// `path` with a leading `~` replaced by the home directory, where both are there.
pub open spec fn expanded_path(path: Seq<char>, home: Option<Seq<char>>) -> Seq<char> {
    if path.len() > 0 && path[0] == '~' && home is Some {
        home->0 + path.subrange(1, path.len() as int)
    } else {
        path
    }
}

/// Expands a leading `~` in `path` to `home`, the home directory where it is
/// known.
pub fn expand_path(path: &str, home: Option<&str>) -> (r: String)
    ensures
        r@ == expanded_path(
            path@,
            match home {
                Some(h) => Some(h@),
                None => None,
            },
        ),
{
    let cs = chars_of(path);
    if cs.len() > 0 && cs[0] == '~' {
        match home {
            Some(h) => {
                let mut r = h.to_owned();
                push_chars(&mut r, &cs, 1, cs.len());
                return r;
            },
            None => {},
        }
    }
    path.to_owned()
}

/// Whether the text `${` starts at `i` in `s`.
pub open spec fn opens_at(s: Seq<char>, i: int) -> bool {
    0 <= i && i + 1 < s.len() && s[i] == '$' && s[i + 1] == '{'
}

/// Where `${` first occurs in `s` at or after `i`.
pub open spec fn first_open_from(s: Seq<char>, i: int) -> Option<int>
    decreases s.len() - i,
{
    if i < 0 || i + 1 >= s.len() {
        None
    } else if opens_at(s, i) {
        Some(i)
    } else {
        first_open_from(s, i + 1)
    }
}

/// Where `c` first occurs in `s` at or after `i`.
pub open spec fn first_char_from(s: Seq<char>, c: char, i: int) -> Option<int>
    decreases s.len() - i,
{
    if i < 0 || i >= s.len() {
        None
    } else if s[i] == c {
        Some(i)
    } else {
        first_char_from(s, c, i + 1)
    }
}

/// The environment as (name, value) pairs of character sequences.
pub open spec fn env_view(env: Seq<(String, String)>) -> Seq<(Seq<char>, Seq<char>)> {
    env.map_values(|p: (String, String)| (p.0@, p.1@))
}

/// The value of variable `name` in `env`; empty where it is not set.
pub open spec fn env_value(env: Seq<(Seq<char>, Seq<char>)>, name: Seq<char>) -> Seq<char>
    decreases env.len(),
{
    if env.len() == 0 {
        Seq::empty()
    } else if env[0].0 == name {
        env[0].1
    } else {
        env_value(env.drop_first(), name)
    }
}

/// One expansion step: the first `${NAME}` in `s` replaced by the value of
/// `NAME`; `None` where `s` holds no `${` followed later by `}`.
pub open spec fn expand_step(s: Seq<char>, env: Seq<(Seq<char>, Seq<char>)>) -> Option<Seq<char>> {
    match first_open_from(s, 0) {
        None => None,
        Some(start) => match first_char_from(s, '}', start) {
            None => None,
            Some(end) => Some(
                s.subrange(0, start) + env_value(env, s.subrange(start + 2, end)) + s.subrange(
                    end + 1,
                    s.len() as int,
                ),
            ),
        },
    }
}

/// `s` after at most `n` expansion steps.
pub open spec fn expand_iter(s: Seq<char>, env: Seq<(Seq<char>, Seq<char>)>, n: nat) -> Seq<char>
    decreases n,
{
    if n == 0 {
        s
    } else {
        match expand_step(s, env) {
            None => s,
            Some(t) => expand_iter(t, env, (n - 1) as nat),
        }
    }
}

/// Whether expanding `s` comes to an end within `n` steps.
pub open spec fn expansion_done_within(
    s: Seq<char>,
    env: Seq<(Seq<char>, Seq<char>)>,
    n: nat,
) -> bool {
    expand_step(expand_iter(s, env, n), env) is None
}

/// Whether expanding `s` comes to an end.
pub open spec fn expansion_terminates(s: Seq<char>, env: Seq<(Seq<char>, Seq<char>)>) -> bool {
    exists|n: nat| expansion_done_within(s, env, n)
}

/// The number of steps after which expansion of `s` has come to an end.
pub open spec fn expansion_steps(s: Seq<char>, env: Seq<(Seq<char>, Seq<char>)>) -> nat {
    choose|n: nat| expansion_done_within(s, env, n)
}

/// `s` with its `${NAME}` references expanded until none is left.
pub open spec fn expanded_env(s: Seq<char>, env: Seq<(Seq<char>, Seq<char>)>) -> Seq<char> {
    expand_iter(s, env, expansion_steps(s, env))
}

/// Once expansion has come to an end, further steps change nothing.
pub proof fn lemma_expansion_stays_done(
    s: Seq<char>,
    env: Seq<(Seq<char>, Seq<char>)>,
    n: nat,
    m: nat,
)
    requires
        expansion_done_within(s, env, n),
        n <= m,
    ensures
        expand_iter(s, env, m) == expand_iter(s, env, n),
        expansion_done_within(s, env, m),
    decreases n,
{
    if n == 0 {
        lemma_iter_fixed(s, env, m);
    } else {
        match expand_step(s, env) {
            None => {
                lemma_iter_fixed(s, env, m);
                lemma_iter_fixed(s, env, n);
            },
            Some(t) => {
                lemma_expansion_stays_done(t, env, (n - 1) as nat, (m - 1) as nat);
            },
        }
    }
}

/// Expansion leaves a text with nothing left to expand unchanged.
proof fn lemma_iter_fixed(s: Seq<char>, env: Seq<(Seq<char>, Seq<char>)>, m: nat)
    requires
        expand_step(s, env) is None,
    ensures
        expand_iter(s, env, m) == s,
    decreases m,
{
}

/// One more step of expansion.
proof fn lemma_iter_next(s: Seq<char>, env: Seq<(Seq<char>, Seq<char>)>, k: nat)
    ensures
        expand_iter(s, env, k + 1) == match expand_step(expand_iter(s, env, k), env) {
            None => expand_iter(s, env, k),
            Some(t) => t,
        },
    decreases k,
{
    if k > 0 {
        match expand_step(s, env) {
            None => {
                lemma_iter_fixed(s, env, k);
                lemma_iter_fixed(s, env, k + 1);
            },
            Some(t) => {
                lemma_iter_next(t, env, (k - 1) as nat);
            },
        }
    } else {
        reveal_with_fuel(expand_iter, 2);
    }
}

/// The value of variable `name` in `env`; empty where it is not set.
fn lookup_env(env: &Vec<(String, String)>, name: &String) -> (r: String)
    ensures
        r@ == env_value(env_view(env@), name@),
{
    let ghost ev = env_view(env@);
    let mut i: usize = 0;
    assert(ev.subrange(0, ev.len() as int) =~= ev);
    while i < env.len()
        invariant
            ev == env_view(env@),
            i <= env.len(),
            env_value(ev, name@) == env_value(ev.subrange(i as int, ev.len() as int), name@),
        decreases env.len() - i,
    {
        assert(ev.subrange(i as int, ev.len() as int).drop_first() =~= ev.subrange(
            i + 1,
            ev.len() as int,
        ));
        if env[i].0 == *name {
            return env[i].1.clone();
        }
        i = i + 1;
    }
    String::new()
}

/// One step of expansion of `s`.
fn expand_once(s: &String, env: &Vec<(String, String)>) -> (r: Option<String>)
    ensures
        match r {
            Some(t) => expand_step(s@, env_view(env@)) == Some(t@),
            None => expand_step(s@, env_view(env@)) is None,
        },
{
    let cs = chars_of(s.as_str());
    let n = cs.len();
    let mut start: usize = 0;
    while start < n && !(start + 1 < n && cs[start] == '$' && cs[start + 1] == '{')
        invariant
            start <= n,
            n == cs.len(),
            cs@ == s@,
            first_open_from(s@, 0) == first_open_from(s@, start as int),
        decreases n - start,
    {
        start = start + 1;
    }
    if start >= n || start + 1 >= n {
        return None;
    }
    let mut end: usize = start;
    while end < n && cs[end] != '}'
        invariant
            n == cs.len(),
            cs@ == s@,
            start <= end,
            first_char_from(s@, '}', start as int) == first_char_from(s@, '}', end as int),
        decreases n - end,
    {
        end = end + 1;
    }
    if end >= n {
        return None;
    }
    let mut name = String::new();
    push_chars(&mut name, &cs, start + 2, end);
    let value = lookup_env(env, &name);
    let mut r = String::new();
    push_chars(&mut r, &cs, 0, start);
    r.append(value.as_str());
    push_chars(&mut r, &cs, end + 1, n);
    Some(r)
}

/// Expands the `${NAME}` references in `val` with the variables `env`, one at a
/// time and from the start again after each, until none is left.  A name that
/// `env` does not hold expands to nothing.
pub fn expand_env(val: &str, env: &Vec<(String, String)>) -> (r: String)
    requires
        expansion_terminates(val@, env_view(env@)),
    ensures
        r@ == expanded_env(val@, env_view(env@)),
{
    let ghost ev = env_view(env@);
    let ghost c = expansion_steps(val@, ev);
    let mut cur = val.to_owned();
    let ghost mut k: nat = 0;
    loop
        invariant
            ev == env_view(env@),
            c == expansion_steps(val@, ev),
            expansion_done_within(val@, ev, c),
            k <= c,
            cur@ == expand_iter(val@, ev, k),
        decreases c - k,
    {
        match expand_once(&cur, env) {
            None => {
                proof {
                    lemma_expansion_stays_done(val@, ev, k, c);
                }
                return cur;
            },
            Some(next) => {
                proof {
                    lemma_iter_next(val@, ev, k);
                    if k == c {
                        assert(false);
                    }
                    k = k + 1;
                }
                cur = next;
            },
        }
    }
}

/// Expands `val` as [`expand_env`] does where that takes at most `max_steps`
/// steps, and gives `None` where it takes more.
pub fn expand_env_within(val: &str, env: &Vec<(String, String)>, max_steps: u64) -> (r: Option<
    String,
>)
    ensures
        match r {
            Some(t) => expansion_done_within(val@, env_view(env@), max_steps as nat) && t@
                == expanded_env(val@, env_view(env@)),
            None => !expansion_done_within(val@, env_view(env@), max_steps as nat),
        },
{
    let ghost ev = env_view(env@);
    let mut cur = val.to_owned();
    let mut k: u64 = 0;
    loop
        invariant
            ev == env_view(env@),
            k <= max_steps,
            cur@ == expand_iter(val@, ev, k as nat),
        decreases max_steps - k,
    {
        match expand_once(&cur, env) {
            None => {
                proof {
                    let c = expansion_steps(val@, ev);
                    assert(expansion_done_within(val@, ev, k as nat));
                    assert(expansion_terminates(val@, ev));
                    if c <= k {
                        lemma_expansion_stays_done(val@, ev, c, k as nat);
                    } else {
                        lemma_expansion_stays_done(val@, ev, k as nat, c);
                    }
                    lemma_expansion_stays_done(val@, ev, k as nat, max_steps as nat);
                }
                return Some(cur);
            },
            Some(next) => {
                proof {
                    lemma_iter_next(val@, ev, k as nat);
                }
                if k == max_steps {
                    return None;
                }
                k = k + 1;
                cur = next;
            },
        }
    }
}


/// A text without `${` comes out of expansion as it went in.
pub proof fn lemma_no_reference_unchanged(s: Seq<char>, env: Seq<(Seq<char>, Seq<char>)>)
    requires
        first_open_from(s, 0) is None,
    ensures
        expansion_terminates(s, env),
        expanded_env(s, env) == s,
{
    assert(expansion_done_within(s, env, 0));
    let c = expansion_steps(s, env);
    lemma_iter_fixed(s, env, c);
}

/// A path that does not start with `~` is used as it is.
pub proof fn lemma_plain_path_unchanged(path: Seq<char>, home: Option<Seq<char>>)
    requires
        path.len() == 0 || path[0] != '~',
    ensures
        expanded_path(path, home) == path,
{
}

} // verus!
