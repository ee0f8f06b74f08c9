//! The catalogue of the providers that can be used, by name.

use core::marker::PhantomData;
use vstd::prelude::*;

use crate::config::Section;
use crate::provider::{
    check_section, distinct_ids, ConfigError, Provider, ProviderInfo, ProviderInfoView,
};
use crate::text_map::{lemma_ordered_keys_exist, lists_in_order, ordered_keys, TextMap};

verus! {

/// What stands for a provider in the catalogue: it describes the provider
/// and builds it, without a provider at hand.
pub trait ProviderFactory {
    /// What `create` builds
    type Provider;

    /// Builds the provider from its section of the configuration.
    fn create(&self, config: &Section) -> Result<Self::Provider, ConfigError>;

    /// Describes the provider. No two of the entries that it asks for have
    /// the same key.
    fn info(&self) -> (r: ProviderInfo)
        ensures
            distinct_ids(r@.params),
    ;
}

/// The factory of the providers of type `T`. It holds nothing: it builds
/// what `T::new` builds, and describes the provider as `T::info` does.
#[derive(Debug)]
pub struct ProviderFactoryT<T: Provider>(pub PhantomData<T>);

impl<T: Provider> ProviderFactoryT<T> {
    /// The factory of the providers of type `T`.
    pub fn new() -> (r: Self)
        ensures
            r == ProviderFactoryT::<T>(PhantomData),
    {
        ProviderFactoryT(PhantomData)
    }
}

impl<T: Provider> ProviderFactory for ProviderFactoryT<T> {
    type Provider = T;

    fn create(&self, config: &Section) -> (r: Result<T, ConfigError>)
        ensures
            call_ensures(T::new, (config,), r),
    {
        T::new(config)
    }

    fn info(&self) -> (r: ProviderInfo)
        ensures
            call_ensures(T::info, (), r),
    {
        T::info()
    }
}

/// One provider of the catalogue.
#[derive(Debug)]
pub struct Registered<F> {
    info: ProviderInfo,
    factory: F,
}

/// What the catalogue holds of one provider: how the provider described
/// itself when it was added, and its factory.
pub struct RegisteredView<F> {
    pub info: ProviderInfoView,
    pub factory: F,
}

impl<F> View for Registered<F> {
    type V = RegisteredView<F>;

    closed spec fn view(&self) -> RegisteredView<F> {
        RegisteredView { info: self.info@, factory: self.factory }
    }
}

/// The names of a catalogue are listed in order, each once, and the listing
/// depends on nothing but the names: two catalogues that hold the same
/// names list them alike, in whatever order their providers were added.
pub proof fn lemma_listing_order<F, G>(
    one: Map<Seq<char>, RegisteredView<F>>,
    other: Map<Seq<char>, RegisteredView<G>>,
)
    requires
        one.dom().finite(),
        one.dom() == other.dom(),
    ensures
        lists_in_order(ordered_keys(one.dom()), one.dom()),
        ordered_keys(one.dom()) == ordered_keys(other.dom()),
{
    lemma_ordered_keys_exist(one.dom());
}

/// The providers that can be used, by name. Walking the catalogue by
/// position meets the names in order, whatever the order in which the
/// providers were added.
#[derive(Debug)]
pub struct ProviderRegistry<F> {
    providers: TextMap<Registered<F>>,
}

impl<F> View for ProviderRegistry<F> {
    type V = Map<Seq<char>, RegisteredView<F>>;

    closed spec fn view(&self) -> Map<Seq<char>, RegisteredView<F>> {
        self.providers@
    }
}

impl<F> ProviderRegistry<F> {
    #[verifier::type_invariant]
    closed spec fn wf(&self) -> bool {
        forall|name: Seq<char>| #[trigger]
            self.providers@.contains_key(name) ==> distinct_ids(self.providers@[name].info.params)
    }

    /// A catalogue that holds no provider.
    pub fn new() -> (r: Self)
        ensures
            r@ == Map::<Seq<char>, RegisteredView<F>>::empty(),
    {
        ProviderRegistry { providers: TextMap::new() }
    }

    /// Adds a provider under `name`, with the description `info` and the
    /// factory `factory`. No provider may be there under that name yet.
    pub fn register(&mut self, name: &str, info: ProviderInfo, factory: F)
        requires
            !old(self)@.contains_key(name@),
            distinct_ids(info@.params),
        ensures
            final(self)@ == old(self)@.insert(
                name@,
                RegisteredView { info: info@, factory: factory },
            ),
    {
        proof {
            use_type_invariant(&*self);
        }
        let mut providers: TextMap<Registered<F>> = TextMap::new();
        core::mem::swap(&mut providers, &mut self.providers);
        let key = name.to_owned();
        providers.insert(key, Registered { info, factory });
        self.providers = providers;
    }

    /// The number of providers.
    pub fn len(&self) -> (r: usize)
        ensures
            r == self@.dom().len(),
            r == ordered_keys(self@.dom()).len(),
            self@.dom().finite(),
            lists_in_order(ordered_keys(self@.dom()), self@.dom()),
    {
        self.providers.len()
    }

    /// Whether a provider is there under `name`.
    pub fn contains_key(&self, name: &str) -> (r: bool)
        ensures
            r == self@.contains_key(name@),
    {
        self.providers.contains_key(name)
    }

    /// The factory of the provider `name`, where there is one.
    pub fn get(&self, name: &str) -> (r: Option<&F>)
        ensures
            match r {
                Some(factory) => self@.contains_key(name@) && *factory == self@[name@].factory,
                None => !self@.contains_key(name@),
            },
    {
        match self.providers.get(name) {
            Some(entry) => Some(&entry.factory),
            None => None,
        }
    }

    /// How the provider `name` describes itself, where there is one. No two
    /// of the entries that it asks for have the same key.
    pub fn info(&self, name: &str) -> (r: Option<&ProviderInfo>)
        ensures
            match r {
                Some(info) => self@.contains_key(name@) && info@ == self@[name@].info
                    && distinct_ids(info@.params),
                None => !self@.contains_key(name@),
            },
    {
        proof {
            use_type_invariant(self);
        }
        match self.providers.get(name) {
            Some(entry) => Some(&entry.info),
            None => None,
        }
    }

    /// The name at place `i` of the names in order.
    pub fn name_at(&self, i: usize) -> (r: &String)
        requires
            i < self@.dom().len(),
        ensures
            r@ == ordered_keys(self@.dom())[i as int],
            self@.contains_key(r@),
    {
        self.providers.key_at(i)
    }

    /// How the provider at place `i` of the names in order describes itself.
    /// No two of the entries that it asks for have the same key.
    pub fn info_at(&self, i: usize) -> (r: &ProviderInfo)
        requires
            i < self@.dom().len(),
        ensures
            r@ == self@[ordered_keys(self@.dom())[i as int]].info,
            distinct_ids(r@.params),
    {
        proof {
            use_type_invariant(self);
        }
        &self.providers.value_at(i).info
    }

    /// The factory of the provider at place `i` of the names in order.
    pub fn factory_at(&self, i: usize) -> (r: &F)
        requires
            i < self@.dom().len(),
        ensures
            *r == self@[ordered_keys(self@.dom())[i as int]].factory,
    {
        &self.providers.value_at(i).factory
    }
}

impl<F: ProviderFactory> ProviderRegistry<F> {
    /// Adds a provider under `name`, described as its factory describes it:
    /// the description kept is one that `factory.info()` gives. No provider
    /// may be there under that name yet.
    pub fn add_provider(&mut self, name: &str, factory: F)
        requires
            !old(self)@.contains_key(name@),
        ensures
            final(self)@.contains_key(name@),
            final(self)@[name@].factory == factory,
            exists|info: ProviderInfo| #[trigger]
                call_ensures(F::info, (&factory,), info) && final(self)@[name@].info == info@,
            distinct_ids(final(self)@[name@].info.params),
            final(self)@.remove(name@) == old(self)@,
    {
        let info = factory.info();
        self.register(name, info, factory);
        assert(self@.remove(name@) =~= old(self)@);
    }

    /// Builds the provider `name` from `config`: `None` where no provider
    /// has that name. The section is first held against the entries that
    /// the provider asks for; where one is missing its factory is not
    /// called, and the first one missing, in their order, is reported.
    /// Where none is missing, the answer is what the provider's factory
    /// gives for this section.
    pub fn create(&self, name: &str, config: &Section) -> (r: Option<
        Result<F::Provider, ConfigError>,
    >)
        ensures
            r is Some <==> self@.contains_key(name@),
            self@.contains_key(name@) ==> match check_section(self@[name@].info.params, config@) {
                Err(missing) => r matches Some(Err(e)) && e@ == missing,
                Ok(()) => r matches Some(built) && call_ensures(
                    F::create,
                    (&self@[name@].factory, config),
                    built,
                ),
            },
    {
        match self.providers.get(name) {
            None => None,
            Some(entry) => match entry.info.check(config) {
                Err(e) => Some(Err(e)),
                Ok(()) => Some(entry.factory.create(config)),
            },
        }
    }
}

} // verus!
