use vstd::prelude::*;

use vstd::string::*;

use crate::error::ProviderError;
use crate::types::{Brightness, Light, LightId, LightState};

verus! {

/// A backend that discovers and controls one family of lights.
///
/// What a backend reports depends on the devices it talks to, so of a backend only its name
/// is specified.
pub trait Provider {
    /// The name under which the registry routes to this backend. A backend whose name is not
    /// stated has no known name.
    open spec fn spec_name(&self) -> Option<Seq<char>> {
        None
    }

    /// The name under which the registry routes to this backend.
    fn name(&self) -> (r: String)
        ensures
            self.spec_name() matches Some(n) ==> r@ == n,
    ;

    /// All lights currently reachable through this backend; none found is an empty success.
    fn discover(&self) -> Result<Vec<Light>, ProviderError>;

    /// The current state of one light of this backend.
    fn get_state(&self, id: &LightId) -> Result<LightState, ProviderError>;

    /// Pushes a brightness to one light of this backend.
    fn set_brightness(&self, id: &LightId, brightness: Brightness) -> Result<(), ProviderError>;

    /// Whether the backend is alive.
    fn health_check(&self) -> Result<(), ProviderError>;
}

/// The lights of every successful discovery, in order, each provider's lights kept together
/// and in the order that provider gave them; failed discoveries contribute nothing.
pub open spec fn merged(outcomes: Seq<Result<Vec<Light>, ProviderError>>) -> Seq<Light>
    decreases outcomes.len(),
{
    if outcomes.len() == 0 {
        Seq::empty()
    } else {
        merged(outcomes.drop_last()) + contribution(outcomes.last())
    }
}

/// What one discovery outcome adds to the aggregate.
pub open spec fn contribution(outcome: Result<Vec<Light>, ProviderError>) -> Seq<Light> {
    match outcome {
        Ok(lights) => lights@,
        Err(_) => Seq::empty(),
    }
}

/// The detail carried by the routing error for an unknown provider name.
pub open spec fn not_configured_detail(name: Seq<char>) -> Seq<char> {
    "Provider '"@ + name + "' not found"@
}

/// Aggregating two batches of outcomes gives the first batch's lights followed by the second's.
pub proof fn lemma_merged_concat(
    first: Seq<Result<Vec<Light>, ProviderError>>,
    second: Seq<Result<Vec<Light>, ProviderError>>,
)
    ensures
        merged(first + second) == merged(first) + merged(second),
    decreases second.len(),
{
    if second.len() == 0 {
        assert(first + second =~= first);
        assert(merged(first) + Seq::<Light>::empty() =~= merged(first));
    } else {
        assert((first + second).drop_last() =~= first + second.drop_last());
        assert((first + second).last() == second.last());
        lemma_merged_concat(first, second.drop_last());
        assert(merged(first) + merged(second.drop_last()) + contribution(second.last())
            =~= merged(first) + (merged(second.drop_last()) + contribution(second.last())));
    }
}

/// Two providers that both succeed contribute all their lights: the first provider's in its
/// own order, then the second's in its own order.
pub proof fn lemma_two_providers_merge(first: Vec<Light>, second: Vec<Light>)
    ensures
        merged(seq![Ok(first), Ok(second)]) == first@ + second@,
        merged(seq![Ok(first), Ok(second)]).len() == first@.len() + second@.len(),
{
    let outcomes: Seq<Result<Vec<Light>, ProviderError>> = seq![Ok(first), Ok(second)];
    let one: Seq<Result<Vec<Light>, ProviderError>> = seq![Ok(first)];
    let none = Seq::<Result<Vec<Light>, ProviderError>>::empty();
    assert(outcomes.drop_last() =~= one);
    assert(one.drop_last() =~= none);
    assert(merged(none) == Seq::<Light>::empty());
    assert(merged(one) == merged(none) + contribution(one.last()));
    assert(Seq::<Light>::empty() + first@ =~= first@);
    assert(merged(outcomes) == merged(one) + contribution(outcomes.last()));
}

/// A provider whose discovery fails takes nothing away from the others: the aggregate equals
/// the aggregate of the remaining outcomes.
pub proof fn lemma_failure_isolated(outcomes: Seq<Result<Vec<Light>, ProviderError>>, i: int)
    requires
        0 <= i < outcomes.len(),
        outcomes[i] is Err,
    ensures
        merged(outcomes) == merged(outcomes.remove(i)),
    decreases outcomes.len(),
{
    if i == outcomes.len() - 1 {
        assert(outcomes.remove(i) =~= outcomes.drop_last());
        assert(merged(outcomes.drop_last()) + Seq::<Light>::empty() =~= merged(
            outcomes.drop_last(),
        ));
    } else {
        lemma_failure_isolated(outcomes.drop_last(), i);
        assert(outcomes.remove(i).drop_last() =~= outcomes.drop_last().remove(i));
        assert(outcomes.remove(i).last() == outcomes.last());
    }
}

/// Concatenates the lights of all successful discoveries, in order; failures are skipped.
pub fn merge_discovered(outcomes: Vec<Result<Vec<Light>, ProviderError>>) -> (r: Vec<Light>)
    ensures
        r@ == merged(outcomes@),
{
    let mut all: Vec<Light> = Vec::new();
    let mut i: usize = 0;
    while i < outcomes.len()
        invariant
            i <= outcomes@.len(),
            all@ == merged(outcomes@.subrange(0, i as int)),
        decreases outcomes@.len() - i,
    {
        assert(outcomes@.subrange(0, i as int + 1).drop_last() =~= outcomes@.subrange(0, i as int));
        match &outcomes[i] {
            Ok(lights) => {
                let mut j: usize = 0;
                let ghost before = all@;
                while j < lights.len()
                    invariant
                        j <= lights@.len(),
                        all@ == before + lights@.subrange(0, j as int),
                    decreases lights@.len() - j,
                {
                    all.push(lights[j].clone_light());
                    j = j + 1;
                }
                assert(lights@.subrange(0, lights@.len() as int) =~= lights@);
            },
            Err(_) => {
                assert(all@ + Seq::<Light>::empty() =~= all@);
            },
        }
        i = i + 1;
    }
    assert(outcomes@.subrange(0, outcomes@.len() as int) =~= outcomes@);
    all
}

/// A registry entry: the routing name and the provider registered under it.
pub type Entry<P> = (Seq<char>, P);

/// Where the entry named `name` stands.
pub open spec fn index_of<P>(entries: Seq<Entry<P>>, name: Seq<char>) -> int {
    choose|i: int| 0 <= i < entries.len() && #[trigger] entries[i].0 == name
}

/// Whether some entry carries the name.
pub open spec fn has_name<P>(entries: Seq<Entry<P>>, name: Seq<char>) -> bool {
    exists|i: int| 0 <= i < entries.len() && #[trigger] entries[i].0 == name
}

/// Names are unique among the entries.
pub open spec fn unique_names<P>(entries: Seq<Entry<P>>) -> bool {
    forall|i: int, j: int|
        0 <= i < j < entries.len() ==> #[trigger] entries[i].0 != #[trigger] entries[j].0
}

/// The entries after registering `provider` under `name`: it takes the place of the entry of
/// the same name, or joins at the end.
pub open spec fn after_register<P>(entries: Seq<Entry<P>>, name: Seq<char>, provider: P) -> Seq<
    Entry<P>,
> {
    if has_name(entries, name) {
        entries.update(index_of(entries, name), (name, provider))
    } else {
        entries.push((name, provider))
    }
}

/// Registering keeps names unique, and registering under a name already present keeps the
/// count of providers.
pub proof fn lemma_register_keeps_count<P>(entries: Seq<Entry<P>>, name: Seq<char>, provider: P)
    requires
        unique_names(entries),
    ensures
        unique_names(after_register(entries, name, provider)),
        has_name(after_register(entries, name, provider), name),
        has_name(entries, name) ==> after_register(entries, name, provider).len()
            == entries.len(),
        !has_name(entries, name) ==> after_register(entries, name, provider).len()
            == entries.len() + 1,
{
    let r = after_register(entries, name, provider);
    if has_name(entries, name) {
        let k = index_of(entries, name);
        assert(r[k].0 == name);
    } else {
        assert(r[entries.len() as int].0 == name);
    }
}

/// Registering two providers under the same name into an empty registry leaves only the
/// second.
pub proof fn lemma_register_same_name_twice<P>(name: Seq<char>, first: P, second: P)
    ensures
        after_register(after_register(Seq::<Entry<P>>::empty(), name, first), name, second)
            == seq![(name, second)],
{
    let one = after_register(Seq::<Entry<P>>::empty(), name, first);
    assert(!has_name(Seq::<Entry<P>>::empty(), name));
    assert(one =~= seq![(name, first)]);
    assert(one[0].0 == name);
    assert(has_name(one, name));
    assert(index_of(one, name) == 0);
    assert(after_register(one, name, second) =~= seq![(name, second)]);
}

/// The registered providers, at most one per name.
pub struct ProviderRegistry<P: Provider> {
    providers: Vec<(String, P)>,
}

impl<P: Provider> ProviderRegistry<P> {
    /// The registered names and providers, in order of first registration.
    pub closed spec fn entries(&self) -> Seq<Entry<P>> {
        self.providers@.map_values(|e: (String, P)| (e.0@, e.1))
    }

    /// The registered names, in the same order.
    pub open spec fn names(&self) -> Seq<Seq<char>> {
        self.entries().map_values(|e: Entry<P>| e.0)
    }

    /// Names are unique.
    pub open spec fn wf(&self) -> bool {
        unique_names(self.entries())
    }

    pub fn new() -> (r: Self)
        ensures
            r.wf(),
            r.entries().len() == 0,
    {
        ProviderRegistry { providers: Vec::new() }
    }

    /// Where the provider of the given name stands, if one is registered.
    fn position(&self, name: &String) -> (r: Option<usize>)
        ensures
            match r {
                Some(i) => i < self.entries().len() && self.entries()[i as int].0 == name@,
                None => !has_name(self.entries(), name@),
            },
    {
        let mut i: usize = 0;
        while i < self.providers.len()
            invariant
                i <= self.entries().len(),
                self.entries().len() == self.providers@.len(),
                forall|k: int| 0 <= k < i ==> #[trigger] self.entries()[k].0 != name@,
            decreases self.providers@.len() - i,
        {
            if self.providers[i].0 == *name {
                return Some(i);
            }
            i = i + 1;
        }
        None
    }

    /// Adds a provider under the given name; one already registered under that name is
    /// replaced, the others keep their places.
    pub fn register_named(&mut self, name: String, provider: P)
        requires
            old(self).wf(),
        ensures
            final(self).wf(),
            final(self).entries() == after_register(old(self).entries(), name@, provider),
    {
        proof {
            lemma_register_keeps_count(self.entries(), name@, provider);
        }
        let ghost n = name@;
        match self.position(&name) {
            Some(i) => {
                proof {
                    let k = index_of(self.entries(), n);
                    assert(has_name(self.entries(), n));
                    if k != i as int {
                        assert(self.entries()[k].0 == n);
                    }
                }
                self.providers.set(i, (name, provider));
            },
            None => {
                self.providers.push((name, provider));
            },
        }
        assert(self.entries() =~= after_register(old(self).entries(), n, provider));
    }

    /// Adds a provider under the name it reports; one already registered under that name is
    /// replaced.
    pub fn register(&mut self, provider: P)
        requires
            old(self).wf(),
        ensures
            final(self).wf(),
            exists|name: String|
                call_ensures(P::name, (&provider,), name) && final(self).entries()
                    == after_register(old(self).entries(), name@, provider),
            provider.spec_name() matches Some(n) ==> final(self).entries() == after_register(
                old(self).entries(),
                n,
                provider,
            ),
    {
        let name = provider.name();
        self.register_named(name, provider);
    }

    /// The provider registered under `name`, if any.
    pub fn get(&self, name: &str) -> (r: Option<&P>)
        ensures
            r is None <==> !has_name(self.entries(), name@),
            r matches Some(p) ==> exists|i: int|
                0 <= i < self.entries().len() && self.entries()[i] == (name@, *p),
    {
        let key = String::from_str(name);
        match self.position(&key) {
            Some(i) => {
                assert(has_name(self.entries(), name@));
                Some(&self.providers[i].1)
            },
            None => None,
        }
    }

    /// The names of all registered providers.
    pub fn provider_names(&self) -> (r: Vec<String>)
        ensures
            r@.len() == self.names().len(),
            forall|k: int| 0 <= k < r@.len() ==> #[trigger] r@[k]@ == self.names()[k],
    {
        let mut out: Vec<String> = Vec::new();
        let mut i: usize = 0;
        while i < self.providers.len()
            invariant
                i <= self.entries().len(),
                self.entries().len() == self.providers@.len(),
                out@.len() == i,
                forall|k: int| 0 <= k < i ==> #[trigger] out@[k]@ == self.names()[k],
            decreases self.providers@.len() - i,
        {
            out.push(self.providers[i].0.clone());
            i = i + 1;
        }
        out
    }

    pub fn is_empty(&self) -> (r: bool)
        ensures
            r == (self.entries().len() == 0),
    {
        self.providers.len() == 0
    }

    pub fn count(&self) -> (r: usize)
        ensures
            r == self.entries().len(),
    {
        self.providers.len()
    }

    /// Asks every provider to discover, one outcome per provider in registry order.
    pub fn discover_each(&self) -> (r: Vec<Result<Vec<Light>, ProviderError>>)
        ensures
            r@.len() == self.entries().len(),
            forall|i: int|
                0 <= i < r@.len() ==> call_ensures(P::discover, (&self.entries()[i].1,), #[trigger] r@[i]),
    {
        let mut out: Vec<Result<Vec<Light>, ProviderError>> = Vec::new();
        let mut i: usize = 0;
        while i < self.providers.len()
            invariant
                i <= self.entries().len(),
                self.entries().len() == self.providers@.len(),
                out@.len() == i,
                forall|k: int|
                    0 <= k < i ==> call_ensures(P::discover, (&self.entries()[k].1,), #[trigger] out@[k]),
            decreases self.providers@.len() - i,
        {
            out.push(self.providers[i].1.discover());
            i = i + 1;
        }
        out
    }

    /// Discovers through every provider; a provider that fails contributes no lights, and
    /// discovery as a whole never fails.
    pub fn discover_all(&self) -> (r: Vec<Light>)
        ensures
            exists|outcomes: Seq<Result<Vec<Light>, ProviderError>>|
                outcomes.len() == self.entries().len() && r@ == merged(outcomes),
    {
        let outcomes = self.discover_each();
        let ghost seen = outcomes@;
        let r = merge_discovered(outcomes);
        assert(seen.len() == self.entries().len() && r@ == merged(seen));
        r
    }

    /// Reads a light's state through the named provider; an unknown name is `NotConfigured`.
    pub fn get_state(&self, provider_name: &str, id: &LightId) -> (r: Result<LightState, ProviderError>)
        ensures
            !has_name(self.entries(), provider_name@) ==> (r matches Err(
                ProviderError::NotConfigured(m),
            ) && m@ == not_configured_detail(provider_name@)),
            has_name(self.entries(), provider_name@) ==> exists|i: int|
                0 <= i < self.entries().len() && self.entries()[i].0 == provider_name@
                    && call_ensures(P::get_state, (&self.entries()[i].1, id), r),
    {
        match self.get(provider_name) {
            Some(provider) => provider.get_state(id),
            None => Err(ProviderError::NotConfigured(not_configured(provider_name))),
        }
    }

    /// Writes a light's brightness through the named provider; an unknown name is
    /// `NotConfigured`.
    pub fn set_brightness(&self, provider_name: &str, id: &LightId, brightness: Brightness) -> (r:
        Result<(), ProviderError>)
        ensures
            !has_name(self.entries(), provider_name@) ==> (r matches Err(
                ProviderError::NotConfigured(m),
            ) && m@ == not_configured_detail(provider_name@)),
            has_name(self.entries(), provider_name@) ==> exists|i: int|
                0 <= i < self.entries().len() && self.entries()[i].0 == provider_name@
                    && call_ensures(P::set_brightness, (&self.entries()[i].1, id, brightness), r),
    {
        match self.get(provider_name) {
            Some(provider) => provider.set_brightness(id, brightness),
            None => Err(ProviderError::NotConfigured(not_configured(provider_name))),
        }
    }
}

impl<P: Provider> Default for ProviderRegistry<P> {
    fn default() -> (r: Self)
        ensures
            r.wf(),
            r.entries().len() == 0,
    {
        ProviderRegistry::new()
    }
}

fn not_configured(name: &str) -> (r: String)
    ensures
        r@ == not_configured_detail(name@),
{
    String::from_str("Provider '").concat(name).concat("' not found")
}

} // verus!
