use vstd::prelude::*;

use crate::config::{AppConfig, ProviderConfig, RouteRule};
use crate::provider::anthropic::AnthropicProvider;
use crate::provider::openai::OpenAiProvider;
use crate::text::{is_prefix, starts_with, string_views};

verus! {

/// The upstream that serves a provider's requests.
pub enum Backend {
    OpenAi(OpenAiProvider),
    Anthropic(AnthropicProvider),
}

/// What the router knows of one provider.
pub struct ProviderV {
    pub name: Seq<char>,
    pub anthropic: bool,
    pub endpoint: Seq<char>,
    pub api_key: Seq<char>,
    pub models: Seq<Seq<char>>,
}

/// What a router holds: its providers (one per name), its routes as
/// (model pattern, provider name) pairs, and its default provider.
pub struct RouterV {
    pub providers: Seq<ProviderV>,
    pub routes: Seq<(Seq<char>, Seq<char>)>,
    pub default_provider: Seq<char>,
}

/// Sends each request to a provider chosen by the requested model.  It holds
/// one provider per name, and its default provider is one of them.
pub struct Router {
    providers: Vec<(String, Backend)>,
    routes: Vec<(String, String)>,
    default_provider: String,
}

/// Why a configuration gives no router.
#[derive(Debug, PartialEq)]
pub enum RouterError {
    /// The default provider is not among the configured providers.
    UnknownDefaultProvider,
}

/// The provider named `name` served by `b`.
pub open spec fn provider_view(name: Seq<char>, b: Backend) -> ProviderV {
    match b {
        Backend::OpenAi(p) => ProviderV {
            name,
            anthropic: false,
            endpoint: p.endpoint@,
            api_key: p.api_key@,
            models: string_views(p.model_list@),
        },
        Backend::Anthropic(a) => ProviderV {
            name,
            anthropic: true,
            endpoint: a.upstream().endpoint@,
            api_key: a.upstream().api_key@,
            models: string_views(a.upstream().model_list@),
        },
    }
}

/// The providers a router holds.
pub open spec fn provider_views(s: Seq<(String, Backend)>) -> Seq<ProviderV> {
    Seq::new(s.len(), |i: int| provider_view(s[i].0@, s[i].1))
}

/// The routes a router holds.
pub open spec fn route_views(s: Seq<(String, String)>) -> Seq<(Seq<char>, Seq<char>)> {
    Seq::new(s.len(), |i: int| (s[i].0@, s[i].1@))
}

/// The configured routes as (model pattern, provider name) pairs.
pub open spec fn rule_views(s: Seq<RouteRule>) -> Seq<(Seq<char>, Seq<char>)> {
    Seq::new(s.len(), |i: int| (s[i].model@, s[i].provider@))
}

/// The names of providers, in order.
pub open spec fn names(ps: Seq<ProviderV>) -> Seq<Seq<char>> {
    Seq::new(ps.len(), |i: int| ps[i].name)
}

/// The provider that a configuration entry describes.
pub open spec fn config_provider(p: ProviderConfig) -> ProviderV {
    ProviderV {
        name: p.name@,
        anthropic: p.provider_type@ == "anthropic"@,
        endpoint: p.endpoint@,
        api_key: p.api_key@,
        models: string_views(p.models@),
    }
}

/// Where a provider named `name` first occurs in `ps` (`ps.len()` when none does).
pub open spec fn name_position(ps: Seq<ProviderV>, name: Seq<char>) -> int
    decreases ps.len(),
{
    if ps.len() == 0 {
        0
    } else if ps[0].name == name {
        0
    } else {
        1 + name_position(ps.drop_first(), name)
    }
}

/// `name_position` is the first position of the name, if any.
pub proof fn lemma_name_position(ps: Seq<ProviderV>, name: Seq<char>)
    ensures
        0 <= name_position(ps, name) <= ps.len(),
        forall|j: int| 0 <= j < name_position(ps, name) ==> ps[j].name != name,
        name_position(ps, name) < ps.len() ==> ps[name_position(ps, name)].name == name,
    decreases ps.len(),
{
    if ps.len() > 0 && ps[0].name != name {
        lemma_name_position(ps.drop_first(), name);
        assert forall|j: int| 0 <= j < name_position(ps, name) implies ps[j].name != name by {
            if j > 0 {
                assert(ps[j] == ps.drop_first()[j - 1]);
            }
        }
    }
}

/// `ps` with provider `p` put in: it replaces the provider of the same name,
/// or comes last where there is none.
pub open spec fn put_provider(ps: Seq<ProviderV>, p: ProviderV) -> Seq<ProviderV> {
    let i = name_position(ps, p.name);
    if i < ps.len() {
        ps.update(i, p)
    } else {
        ps.push(p)
    }
}

/// The providers of a configuration, each name once, holding the last entry
/// for that name.
pub open spec fn registered(ps: Seq<ProviderConfig>) -> Seq<ProviderV>
    decreases ps.len(),
{
    if ps.len() == 0 {
        Seq::empty()
    } else {
        put_provider(registered(ps.drop_last()), config_provider(ps.last()))
    }
}

/// The provider of the first route that matches `model` (exactly where
/// `exact`, as a prefix otherwise) and names a known provider.
pub open spec fn first_route(
    routes: Seq<(Seq<char>, Seq<char>)>,
    known: Seq<Seq<char>>,
    model: Seq<char>,
    exact: bool,
) -> Option<Seq<char>>
    decreases routes.len(),
{
    if routes.len() == 0 {
        None
    } else if (if exact {
        routes[0].0 == model
    } else {
        is_prefix(routes[0].0, model)
    }) && known.contains(routes[0].1) {
        Some(routes[0].1)
    } else {
        first_route(routes.drop_first(), known, model, exact)
    }
}

/// The provider for `model`: the first route whose pattern is the model
/// itself, else the first whose pattern is a prefix of it, counting only
/// routes to known providers; else the default.
pub open spec fn routed(
    routes: Seq<(Seq<char>, Seq<char>)>,
    known: Seq<Seq<char>>,
    default: Seq<char>,
    model: Seq<char>,
) -> Seq<char> {
    match first_route(routes, known, model, true) {
        Some(n) => n,
        None => match first_route(routes, known, model, false) {
            Some(n) => n,
            None => default,
        },
    }
}

/// All models of the providers, in the order of the providers.
pub open spec fn all_models_of(ps: Seq<ProviderV>) -> Seq<Seq<char>>
    decreases ps.len(),
{
    if ps.len() == 0 {
        Seq::empty()
    } else {
        all_models_of(ps.drop_last()) + ps.last().models
    }
}

impl View for Router {
    type V = RouterV;

    closed spec fn view(&self) -> RouterV {
        RouterV {
            providers: provider_views(self.providers@),
            routes: route_views(self.routes@),
            default_provider: self.default_provider@,
        }
    }
}

impl Backend {
    /// The models this backend serves.
    pub fn models(&self) -> (r: Vec<String>)
        ensures
            string_views(r@) == provider_view(Seq::empty(), *self).models,
    {
        match self {
            Backend::OpenAi(p) => p.models(),
            Backend::Anthropic(a) => a.models(),
        }
    }
}

/// Whether a provider named `name` is among `providers`.
fn has_provider(providers: &Vec<(String, Backend)>, name: &String) -> (r: bool)
    ensures
        r == names(provider_views(providers@)).contains(name@),
{
    let ghost ns = names(provider_views(providers@));
    let mut i: usize = 0;
    while i < providers.len()
        invariant
            ns == names(provider_views(providers@)),
            ns.len() == providers.len(),
            i <= providers.len(),
            forall|j: int| 0 <= j < i ==> ns[j] != name@,
        decreases providers.len() - i,
    {
        if providers[i].0 == *name {
            assert(ns[i as int] == name@);
            return true;
        }
        i = i + 1;
    }
    false
}

/// The provider of the first route matching `model` (exactly or as a prefix)
/// whose provider is among `providers`.
fn find_route(
    routes: &Vec<(String, String)>,
    providers: &Vec<(String, Backend)>,
    model: &str,
    exact: bool,
) -> (r: Option<String>)
    ensures
        match r {
            Some(n) => first_route(
                route_views(routes@),
                names(provider_views(providers@)),
                model@,
                exact,
            ) == Some(n@),
            None => first_route(
                route_views(routes@),
                names(provider_views(providers@)),
                model@,
                exact,
            ) is None,
        },
{
    let ghost rv = route_views(routes@);
    let ghost known = names(provider_views(providers@));
    let model_string = model.to_owned();
    let mut i: usize = 0;
    assert(rv.subrange(0, rv.len() as int) =~= rv);
    while i < routes.len()
        invariant
            rv == route_views(routes@),
            known == names(provider_views(providers@)),
            model_string@ == model@,
            i <= routes.len(),
            first_route(rv, known, model@, exact) == first_route(
                rv.subrange(i as int, rv.len() as int),
                known,
                model@,
                exact,
            ),
        decreases routes.len() - i,
    {
        let ghost rest = rv.subrange(i as int, rv.len() as int);
        assert(rest.drop_first() =~= rv.subrange(i + 1, rv.len() as int));
        assert(rest[0] == (routes@[i as int].0@, routes@[i as int].1@));
        let matches = if exact {
            routes[i].0 == model_string
        } else {
            starts_with(model, routes[i].0.as_str())
        };
        if matches && has_provider(providers, &routes[i].1) {
            return Some(routes[i].1.clone());
        }
        i = i + 1;
    }
    None
}

/// `providers` with `name` served by `backend`: the backend replaces the one
/// of that name, or comes last where there is none.
fn put(providers: &mut Vec<(String, Backend)>, name: String, backend: Backend)
    ensures
        provider_views(final(providers)@) == put_provider(
            provider_views(old(providers)@),
            provider_view(name@, backend),
        ),
{
    let ghost ps = provider_views(providers@);
    let ghost p = provider_view(name@, backend);
    let mut i: usize = 0;
    while i < providers.len()
        invariant
            ps == provider_views(providers@),
            ps == provider_views(old(providers)@),
            p == provider_view(name@, backend),
            i <= providers.len(),
            forall|j: int| 0 <= j < i ==> ps[j].name != name@,
        decreases providers.len() - i,
    {
        if providers[i].0 == name {
            proof {
                lemma_name_position(ps, name@);
                assert(ps[i as int].name == name@);
                let k = name_position(ps, name@);
                if k < i {
                    assert(ps[k].name != name@);
                }
            }
            providers.set(i, (name, backend));
            assert(provider_views(providers@) =~= put_provider(ps, p));
            return;
        }
        i = i + 1;
    }
    proof {
        lemma_name_position(ps, name@);
    }
    providers.push((name, backend));
    assert(provider_views(providers@) =~= put_provider(ps, p));
}

impl Router {
    #[verifier::type_invariant]
    spec fn wf(self) -> bool {
        &&& names(provider_views(self.providers@)).no_duplicates()
        &&& names(provider_views(self.providers@)).contains(self.default_provider@)
    }

    /// Builds the router of a configuration: a provider for each configured
    /// name (the last entry of a name wins), the configured routes, and the
    /// default provider, which must be one of the providers.
    pub fn from_config(config: &AppConfig) -> (r: Result<Router, RouterError>)
        ensures
            match r {
                Ok(router) => {
                    &&& router@.providers == registered(config.providers@)
                    &&& router@.routes == rule_views(config.routes@)
                    &&& router@.default_provider == config.default_provider@
                    &&& names(router@.providers).contains(router@.default_provider)
                    &&& names(router@.providers).no_duplicates()
                },
                Err(_) => !names(registered(config.providers@)).contains(
                    config.default_provider@,
                ),
            },
    {
        let mut providers: Vec<(String, Backend)> = Vec::new();
        let ghost cps = config.providers@;
        let mut i: usize = 0;
        assert(provider_views(providers@) =~= Seq::empty());
        while i < config.providers.len()
            invariant
                cps == config.providers@,
                i <= cps.len(),
                provider_views(providers@) == registered(cps.subrange(0, i as int)),
            decreases cps.len() - i,
        {
            let p = &config.providers[i];
            let ghost prefix = cps.subrange(0, i + 1);
            assert(prefix.drop_last() =~= cps.subrange(0, i as int));
            let models = crate::text::clone_strings(&p.models);
            let backend = if p.provider_type == "anthropic".to_owned() {
                Backend::Anthropic(
                    AnthropicProvider::new(p.endpoint.clone(), p.api_key.clone(), models),
                )
            } else {
                Backend::OpenAi(OpenAiProvider::new(p.endpoint.clone(), p.api_key.clone(), models))
            };
            proof {
                assert(provider_view(p.name@, backend) == config_provider(cps[i as int]));
            }
            put(&mut providers, p.name.clone(), backend);
            i = i + 1;
        }
        assert(cps.subrange(0, i as int) =~= cps);
        let mut routes: Vec<(String, String)> = Vec::new();
        let mut j: usize = 0;
        while j < config.routes.len()
            invariant
                j <= config.routes.len(),
                routes.len() == j,
                forall|k: int|
                    0 <= k < j ==> routes@[k].0@ == config.routes@[k].model@ && routes@[k].1@
                        == config.routes@[k].provider@,
            decreases config.routes.len() - j,
        {
            let rule = &config.routes[j];
            routes.push((rule.model.clone(), rule.provider.clone()));
            j = j + 1;
        }
        proof {
            lemma_registered_names(cps);
        }
        if !has_provider(&providers, &config.default_provider) {
            return Err(RouterError::UnknownDefaultProvider);
        }
        let router = Router { providers, routes, default_provider: config.default_provider.clone() };
        assert(router@.routes =~= rule_views(config.routes@));
        Ok(router)
    }

    /// The name of the provider for `model_name`: that of the first route
    /// whose pattern equals the model name, else of the first whose pattern is
    /// a prefix of it (routes to unknown providers are passed over), else the
    /// default provider.
    pub fn route_model(&self, model_name: &str) -> (r: String)
        ensures
            r@ == routed(self@.routes, names(self@.providers), self@.default_provider, model_name@),
            names(self@.providers).contains(r@),
    {
        proof {
            use_type_invariant(self);
            lemma_routed_is_known(
                self@.routes,
                names(self@.providers),
                self@.default_provider,
                model_name@,
            );
        }
        match find_route(&self.routes, &self.providers, model_name, true) {
            Some(n) => n,
            None => match find_route(&self.routes, &self.providers, model_name, false) {
                Some(n) => n,
                None => self.default_provider.clone(),
            },
        }
    }

    /// The models of all providers, provider after provider.
    pub fn all_models(&self) -> (r: Vec<String>)
        ensures
            string_views(r@) == all_models_of(self@.providers),
    {
        let ghost ps = self@.providers;
        let mut out: Vec<String> = Vec::new();
        let mut i: usize = 0;
        assert(string_views(out@) =~= Seq::empty());
        while i < self.providers.len()
            invariant
                ps == self@.providers,
                ps == provider_views(self.providers@),
                i <= self.providers.len(),
                string_views(out@) == all_models_of(ps.subrange(0, i as int)),
            decreases self.providers.len() - i,
        {
            let ghost prefix = ps.subrange(0, i + 1);
            assert(prefix.drop_last() =~= ps.subrange(0, i as int));
            let models = self.providers[i].1.models();
            let mut k: usize = 0;
            let ghost start = string_views(out@);
            while k < models.len()
                invariant
                    k <= models.len(),
                    string_views(out@) == start + string_views(models@).subrange(0, k as int),
                decreases models.len() - k,
            {
                let ghost before = out@;
                out.push(models[k].clone());
                assert(string_views(out@) =~= string_views(before).push(models@[k as int]@));
                k = k + 1;
                assert(string_views(out@) =~= start + string_views(models@).subrange(0, k as int));
            }
            assert(string_views(models@).subrange(0, k as int) =~= string_views(models@));
            i = i + 1;
        }
        assert(ps.subrange(0, i as int) =~= ps);
        out
    }

    /// The name of the default provider.
    pub fn default_provider(&self) -> (r: &String)
        ensures
            r@ == self@.default_provider,
    {
        &self.default_provider
    }

    /// The providers, each with its name.
    pub fn providers(&self) -> (r: &Vec<(String, Backend)>)
        ensures
            provider_views(r@) == self@.providers,
            names(self@.providers).no_duplicates(),
    {
        proof {
            use_type_invariant(self);
        }
        &self.providers
    }
}

/// Routing always ends at a known provider where the default is one.
pub proof fn lemma_routed_is_known(
    routes: Seq<(Seq<char>, Seq<char>)>,
    known: Seq<Seq<char>>,
    default: Seq<char>,
    model: Seq<char>,
)
    requires
        known.contains(default),
    ensures
        known.contains(routed(routes, known, default, model)),
{
    lemma_first_route_is_known(routes, known, model, true);
    lemma_first_route_is_known(routes, known, model, false);
}

proof fn lemma_first_route_is_known(
    routes: Seq<(Seq<char>, Seq<char>)>,
    known: Seq<Seq<char>>,
    model: Seq<char>,
    exact: bool,
)
    ensures
        first_route(routes, known, model, exact) matches Some(n) ==> known.contains(n),
    decreases routes.len(),
{
    if routes.len() > 0 {
        lemma_first_route_is_known(routes.drop_first(), known, model, exact);
    }
}


/// Whether route `r` matches `model` (exactly where `exact`, as a prefix
/// otherwise) and names a known provider.
pub open spec fn route_applies(
    r: (Seq<char>, Seq<char>),
    known: Seq<Seq<char>>,
    model: Seq<char>,
    exact: bool,
) -> bool {
    (if exact {
        r.0 == model
    } else {
        is_prefix(r.0, model)
    }) && known.contains(r.1)
}

/// The first applying route decides.
proof fn lemma_first_route_at(
    routes: Seq<(Seq<char>, Seq<char>)>,
    known: Seq<Seq<char>>,
    model: Seq<char>,
    exact: bool,
    i: int,
)
    requires
        0 <= i < routes.len(),
        route_applies(routes[i], known, model, exact),
        forall|j: int| 0 <= j < i ==> !route_applies(#[trigger] routes[j], known, model, exact),
    ensures
        first_route(routes, known, model, exact) == Some(routes[i].1),
    decreases i,
{
    if i > 0 {
        assert(!route_applies(routes[0], known, model, exact));
        assert forall|j: int| 0 <= j < i - 1 implies !route_applies(
            #[trigger] routes.drop_first()[j],
            known,
            model,
            exact,
        ) by {
            assert(routes.drop_first()[j] == routes[j + 1]);
        }
        lemma_first_route_at(routes.drop_first(), known, model, exact, i - 1);
    }
}

/// Where no route applies, none is found.
proof fn lemma_first_route_none(
    routes: Seq<(Seq<char>, Seq<char>)>,
    known: Seq<Seq<char>>,
    model: Seq<char>,
    exact: bool,
)
    requires
        forall|j: int| 0 <= j < routes.len() ==> !route_applies(#[trigger] routes[j], known, model, exact),
    ensures
        first_route(routes, known, model, exact) is None,
    decreases routes.len(),
{
    if routes.len() > 0 {
        assert(!route_applies(routes[0], known, model, exact));
        assert forall|j: int| 0 <= j < routes.len() - 1 implies !route_applies(
            #[trigger] routes.drop_first()[j],
            known,
            model,
            exact,
        ) by {
            assert(routes.drop_first()[j] == routes[j + 1]);
        }
        lemma_first_route_none(routes.drop_first(), known, model, exact);
    }
}

/// An exact match wins: the first route whose pattern is the model itself
/// and whose provider is known gives the provider, whatever prefix routes
/// come before it.
pub proof fn lemma_exact_route_wins(
    routes: Seq<(Seq<char>, Seq<char>)>,
    known: Seq<Seq<char>>,
    default: Seq<char>,
    model: Seq<char>,
    i: int,
)
    requires
        0 <= i < routes.len(),
        routes[i].0 == model,
        known.contains(routes[i].1),
        forall|j: int|
            0 <= j < i ==> !(#[trigger] routes[j].0 == model && known.contains(routes[j].1)),
    ensures
        routed(routes, known, default, model) == routes[i].1,
{
    assert forall|j: int| 0 <= j < i implies !route_applies(#[trigger] routes[j], known, model, true) by {
        assert(!(routes[j].0 == model && known.contains(routes[j].1)));
    }
    lemma_first_route_at(routes, known, model, true, i);
}

/// Without an exact match, the first route whose pattern is a prefix of the
/// model and whose provider is known gives the provider.
pub proof fn lemma_prefix_route_wins(
    routes: Seq<(Seq<char>, Seq<char>)>,
    known: Seq<Seq<char>>,
    default: Seq<char>,
    model: Seq<char>,
    i: int,
)
    requires
        forall|j: int|
            0 <= j < routes.len() ==> !(#[trigger] routes[j].0 == model && known.contains(
                routes[j].1,
            )),
        0 <= i < routes.len(),
        is_prefix(routes[i].0, model),
        known.contains(routes[i].1),
        forall|j: int|
            0 <= j < i ==> !(is_prefix(#[trigger] routes[j].0, model) && known.contains(
                routes[j].1,
            )),
    ensures
        routed(routes, known, default, model) == routes[i].1,
{
    assert forall|j: int| 0 <= j < routes.len() implies !route_applies(
        #[trigger] routes[j],
        known,
        model,
        true,
    ) by {
        assert(!(routes[j].0 == model && known.contains(routes[j].1)));
    }
    lemma_first_route_none(routes, known, model, true);
    assert forall|j: int| 0 <= j < i implies !route_applies(#[trigger] routes[j], known, model, false) by {
        assert(!(is_prefix(routes[j].0, model) && known.contains(routes[j].1)));
    }
    lemma_first_route_at(routes, known, model, false, i);
}

/// Where no route to a known provider matches the model, exactly or as a
/// prefix, the default provider gets the request.
pub proof fn lemma_default_route(
    routes: Seq<(Seq<char>, Seq<char>)>,
    known: Seq<Seq<char>>,
    default: Seq<char>,
    model: Seq<char>,
)
    requires
        forall|j: int|
            0 <= j < routes.len() ==> !known.contains(#[trigger] routes[j].1) || (routes[j].0
                != model && !is_prefix(routes[j].0, model)),
    ensures
        routed(routes, known, default, model) == default,
{
    assert forall|j: int| 0 <= j < routes.len() implies !route_applies(
        #[trigger] routes[j],
        known,
        model,
        true,
    ) by {}
    assert forall|j: int| 0 <= j < routes.len() implies !route_applies(
        #[trigger] routes[j],
        known,
        model,
        false,
    ) by {}
    lemma_first_route_none(routes, known, model, true);
    lemma_first_route_none(routes, known, model, false);
}

/// The providers of a configuration are named exactly by the names it
/// configures, each once.
pub proof fn lemma_registered_names(ps: Seq<ProviderConfig>)
    ensures
        names(registered(ps)).no_duplicates(),
        forall|n: Seq<char>|
            names(registered(ps)).contains(n) <==> exists|i: int|
                0 <= i < ps.len() && #[trigger] ps[i].name@ == n,
    decreases ps.len(),
{
    if ps.len() > 0 {
        let prev = registered(ps.drop_last());
        let p = config_provider(ps.last());
        lemma_registered_names(ps.drop_last());
        lemma_name_position(prev, p.name);
        let k = name_position(prev, p.name);
        let now = registered(ps);
        assert forall|n: Seq<char>| names(now).contains(n) <==> exists|i: int|
            0 <= i < ps.len() && #[trigger] ps[i].name@ == n by {
            if names(now).contains(n) {
                let j = choose|j: int| 0 <= j < names(now).len() && names(now)[j] == n;
                if k < prev.len() {
                    if j == k {
                        assert(ps[ps.len() - 1].name@ == n);
                    } else {
                        assert(now[j] == prev[j]);
                        assert(names(prev)[j] == n);
                        assert(names(prev).contains(n));
                        let i = choose|i: int|
                            0 <= i < ps.drop_last().len() && #[trigger] ps.drop_last()[i].name@ == n;
                        assert(ps[i].name@ == n);
                    }
                } else {
                    if j == prev.len() {
                        assert(ps[ps.len() - 1].name@ == n);
                    } else {
                        assert(now[j] == prev[j]);
                        assert(names(prev)[j] == n);
                        assert(names(prev).contains(n));
                        let i = choose|i: int|
                            0 <= i < ps.drop_last().len() && #[trigger] ps.drop_last()[i].name@ == n;
                        assert(ps[i].name@ == n);
                    }
                }
            }
            if exists|i: int| 0 <= i < ps.len() && #[trigger] ps[i].name@ == n {
                let i = choose|i: int| 0 <= i < ps.len() && #[trigger] ps[i].name@ == n;
                if i == ps.len() - 1 {
                    if k < prev.len() {
                        assert(names(now)[k] == n);
                    } else {
                        assert(names(now)[prev.len() as int] == n);
                    }
                } else {
                    assert(ps.drop_last()[i].name@ == n);
                    assert(names(prev).contains(n));
                    let j = choose|j: int| 0 <= j < names(prev).len() && names(prev)[j] == n;
                    if k < prev.len() && j == k {
                        assert(names(now)[k] == n);
                    } else {
                        assert(names(now)[j] == n);
                    }
                }
            }
        }
        assert forall|a: int, b: int|
            0 <= a < names(now).len() && 0 <= b < names(now).len() && a != b implies names(now)[a]
            != names(now)[b] by {
            if k < prev.len() {
                if a == k {
                    assert(names(prev)[b] != names(prev)[k]);
                } else if b == k {
                    assert(names(prev)[a] != names(prev)[k]);
                } else {
                    assert(names(prev)[a] != names(prev)[b]);
                }
            } else {
                if a == prev.len() {
                    assert(prev[b].name != p.name);
                } else if b == prev.len() {
                    assert(prev[a].name != p.name);
                } else {
                    assert(names(prev)[a] != names(prev)[b]);
                }
            }
        }
    }
}

/// A router is built exactly when the default provider is one of the
/// configured names.
pub proof fn lemma_default_must_be_configured(ps: Seq<ProviderConfig>, default: Seq<char>)
    ensures
        names(registered(ps)).contains(default) <==> exists|i: int|
            0 <= i < ps.len() && #[trigger] ps[i].name@ == default,
{
    lemma_registered_names(ps);
}

/// The provider kept for a name is the one described by the last entry of
/// that name.
pub proof fn lemma_last_entry_wins(ps: Seq<ProviderConfig>, i: int)
    requires
        0 <= i < ps.len(),
        forall|j: int| i < j < ps.len() ==> #[trigger] ps[j].name@ != ps[i].name@,
    ensures
        registered(ps).contains(config_provider(ps[i])),
    decreases ps.len(),
{
    let prev = registered(ps.drop_last());
    let p = config_provider(ps.last());
    lemma_name_position(prev, p.name);
    let k = name_position(prev, p.name);
    if i == ps.len() - 1 {
        if k < prev.len() {
            assert(registered(ps)[k] == p);
        } else {
            assert(registered(ps)[prev.len() as int] == p);
        }
    } else {
        assert forall|j: int| i < j < ps.drop_last().len() implies #[trigger] ps.drop_last()[j].name@
            != ps.drop_last()[i].name@ by {
            assert(ps[j].name@ != ps[i].name@);
        }
        lemma_last_entry_wins(ps.drop_last(), i);
        assert(ps.drop_last()[i] == ps[i]);
        let q = config_provider(ps[i]);
        let m = choose|m: int| 0 <= m < prev.len() && prev[m] == q;
        assert(ps[ps.len() - 1].name@ != ps[i].name@);
        if k < prev.len() {
            assert(m != k);
            assert(registered(ps)[m] == q);
        } else {
            assert(registered(ps)[m] == q);
        }
    }
}

/// Every model of every provider is in the model list.
pub proof fn lemma_all_models_complete(ps: Seq<ProviderV>, i: int, j: int)
    requires
        0 <= i < ps.len(),
        0 <= j < ps[i].models.len(),
    ensures
        all_models_of(ps).contains(ps[i].models[j]),
    decreases ps.len(),
{
    let prev = all_models_of(ps.drop_last());
    if i == ps.len() - 1 {
        assert(all_models_of(ps)[prev.len() + j] == ps[i].models[j]);
    } else {
        assert(ps.drop_last()[i] == ps[i]);
        lemma_all_models_complete(ps.drop_last(), i, j);
        let k = choose|k: int| 0 <= k < prev.len() && prev[k] == ps[i].models[j];
        assert(all_models_of(ps)[k] == ps[i].models[j]);
    }
}

/// The provider that a router holds for a configured name is set up exactly as
/// the last configuration entry of that name says: its endpoint, its API key
/// and its models are those of the entry, whatever its type, and it speaks
/// Anthropic's format exactly when the entry's type is `anthropic`.
pub proof fn lemma_provider_keeps_its_settings(ps: Seq<ProviderConfig>, i: int)
    requires
        0 <= i < ps.len(),
        forall|j: int| i < j < ps.len() ==> #[trigger] ps[j].name@ != ps[i].name@,
    ensures
        exists|k: int|
            0 <= k < registered(ps).len() && {
                let p = #[trigger] registered(ps)[k];
                &&& p.name == ps[i].name@
                &&& p.endpoint == ps[i].endpoint@
                &&& p.api_key == ps[i].api_key@
                &&& p.models == Seq::new(ps[i].models@.len(), |m: int| ps[i].models@[m]@)
                &&& p.anthropic == (ps[i].provider_type@ == "anthropic"@)
            },
{
    lemma_last_entry_wins(ps, i);
    let k = choose|k: int| 0 <= k < registered(ps).len() && registered(ps)[k] == config_provider(ps[i]);
    assert(registered(ps)[k].models =~= Seq::new(ps[i].models@.len(), |m: int| ps[i].models@[m]@));
}

} // verus!
