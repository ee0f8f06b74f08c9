//! What every weather service has in common: how it describes itself, how it
//! is built from its section of the configuration, and how its requests fail.

use vstd::prelude::*;
use vstd::string::*;

use crate::config::Section;
use crate::rest::RestError;

pub mod accuweather;
pub mod openweather;
pub mod weatherapi;

verus! {

/// The kind of weather: clear sky, clouds, rain and so on.
#[derive(Clone, Copy, Debug, PartialEq, Eq, Structural)]
pub enum WeatherKind {
    Unknown,
    Clear,
    Clouds,
    Fog,
    Rain,
    Snow,
}

/// The word by which a kind of weather is shown.
pub open spec fn weather_word(kind: WeatherKind) -> Seq<char> {
    match kind {
        WeatherKind::Unknown => "unknown"@,
        WeatherKind::Clear => "clear"@,
        WeatherKind::Clouds => "clouds"@,
        WeatherKind::Fog => "fog"@,
        WeatherKind::Rain => "raining"@,
        WeatherKind::Snow => "snow"@,
    }
}

impl WeatherKind {
    /// The word by which this kind of weather is shown.
    pub fn as_str(&self) -> (r: &'static str)
        ensures
            r@ == weather_word(*self),
    {
        match self {
            WeatherKind::Unknown => "unknown",
            WeatherKind::Clear => "clear",
            WeatherKind::Clouds => "clouds",
            WeatherKind::Fog => "fog",
            WeatherKind::Rain => "raining",
            WeatherKind::Snow => "snow",
        }
    }

    /// The word by which this kind of weather is shown.
    pub fn to_string(&self) -> (r: String)
        ensures
            r@ == weather_word(*self),
    {
        String::from_str(self.as_str())
    }
}

/// One entry that a provider needs in its section of the configuration.
#[derive(Clone, Copy, Debug)]
pub struct ParamDesc {
    /// The key of the entry
    pub id: &'static str,
    /// A name to ask the user for it
    pub name: &'static str,
    /// What the entry is for, shown where providers are listed
    pub description: &'static str,
}

/// What a `ParamDesc` says.
pub struct ParamDescView {
    pub id: Seq<char>,
    pub name: Seq<char>,
    pub description: Seq<char>,
}

impl View for ParamDesc {
    type V = ParamDescView;

    open spec fn view(&self) -> ParamDescView {
        ParamDescView { id: self.id@, name: self.name@, description: self.description@ }
    }
}

/// How a provider describes itself: what it is, and the entries it needs.
#[derive(Debug)]
pub struct ProviderInfo {
    /// Shown where providers are listed
    pub description: &'static str,
    /// The entries that the provider needs, in the order in which they are
    /// asked for
    pub params: Vec<ParamDesc>,
}

/// What a `ProviderInfo` says.
pub struct ProviderInfoView {
    pub description: Seq<char>,
    pub params: Seq<ParamDescView>,
}

impl View for ProviderInfo {
    type V = ProviderInfoView;

    open spec fn view(&self) -> ProviderInfoView {
        ProviderInfoView {
            description: self.description@,
            params: Seq::new(self.params@.len(), |i: int| self.params@[i]@),
        }
    }
}

/// The keys of the entries in `params`, in their order.
pub open spec fn param_ids(params: Seq<ParamDescView>) -> Seq<Seq<char>> {
    Seq::new(params.len(), |i: int| params[i].id)
}

/// Whether no two entries of `params` have the same key.
pub open spec fn distinct_ids(params: Seq<ParamDescView>) -> bool {
    forall|i: int, j: int|
        0 <= i < j < params.len() ==> (#[trigger] params[i]).id != (#[trigger] params[j]).id
}

/// Why a section of the configuration could not be put together or used.
#[derive(Debug, PartialEq, Eq)]
pub enum ConfigError {
    /// An entry that the provider needs is not there: its key
    MissingParameter(String),
    /// An entry was given that the provider does not know: its key
    UnknownParameter(String),
    /// An argument is not of the form `<name>=<value>`: the argument
    BadSyntax(String),
}

/// What a `ConfigError` says.
pub enum ConfigErrorView {
    MissingParameter(Seq<char>),
    UnknownParameter(Seq<char>),
    BadSyntax(Seq<char>),
}

impl View for ConfigError {
    type V = ConfigErrorView;

    open spec fn view(&self) -> ConfigErrorView {
        match self {
            ConfigError::MissingParameter(id) => ConfigErrorView::MissingParameter(id@),
            ConfigError::UnknownParameter(id) => ConfigErrorView::UnknownParameter(id@),
            ConfigError::BadSyntax(argument) => ConfigErrorView::BadSyntax(argument@),
        }
    }
}

/// The place of the first key of `ids` that is not in `present`, or the
/// length of `ids` where all are.
pub open spec fn first_missing(ids: Seq<Seq<char>>, present: Set<Seq<char>>) -> int
    decreases ids.len(),
{
    if ids.len() == 0 {
        0
    } else if !present.contains(ids[0]) {
        0
    } else {
        1 + first_missing(ids.drop_first(), present)
    }
}

/// What the check of `section` against the entries `params` gives: nothing
/// to object to, or the first entry, in the order of `params`, that is missing.
pub open spec fn check_section(
    params: Seq<ParamDescView>,
    section: Map<Seq<char>, Seq<char>>,
) -> Result<(), ConfigErrorView> {
    let ids = param_ids(params);
    let at = first_missing(ids, section.dom());
    if at < ids.len() {
        Err(ConfigErrorView::MissingParameter(ids[at]))
    } else {
        Ok(())
    }
}

/// `first_missing` is the one place before which no key is missing and at
/// which one is, or the keys end.
pub proof fn lemma_first_missing(ids: Seq<Seq<char>>, present: Set<Seq<char>>, at: int)
    requires
        0 <= at <= ids.len(),
        forall|k: int| 0 <= k < at ==> present.contains(#[trigger] ids[k]),
        at < ids.len() ==> !present.contains(ids[at]),
    ensures
        first_missing(ids, present) == at,
    decreases ids.len(),
{
    if ids.len() > 0 && at > 0 {
        let rest = ids.drop_first();
        assert(present.contains(ids[0]));
        assert forall|k: int| 0 <= k < at - 1 implies present.contains(#[trigger] rest[k]) by {
            assert(rest[k] == ids[k + 1]);
        }
        lemma_first_missing(rest, present, at - 1);
    }
}

/// What `first_missing` promises of its result.
pub proof fn lemma_first_missing_bounds(ids: Seq<Seq<char>>, present: Set<Seq<char>>)
    ensures
        0 <= first_missing(ids, present) <= ids.len(),
        forall|k: int| 0 <= k < first_missing(ids, present) ==> present.contains(#[trigger] ids[k]),
        first_missing(ids, present) < ids.len() ==> !present.contains(
            ids[first_missing(ids, present)],
        ),
    decreases ids.len(),
{
    if ids.len() > 0 && present.contains(ids[0]) {
        let rest = ids.drop_first();
        lemma_first_missing_bounds(rest, present);
        assert forall|k: int| 0 <= k < first_missing(ids, present) implies present.contains(
            #[trigger] ids[k],
        ) by {
            if k > 0 {
                assert(rest[k - 1] == ids[k]);
            }
        }
    }
}

impl ProviderInfo {
    /// Checks that `section` has every entry that the provider needs.
    pub fn check(&self, section: &Section) -> (r: Result<(), ConfigError>)
        ensures
            match r {
                Ok(()) => check_section(self@.params, section@) == Ok::<(), ConfigErrorView>(()),
                Err(e) => check_section(self@.params, section@) == Err::<(), ConfigErrorView>(e@),
            },
    {
        let mut i: usize = 0;
        while i < self.params.len()
            invariant
                i <= self.params@.len(),
                forall|k: int|
                    0 <= k < i ==> section@.dom().contains(#[trigger] param_ids(self@.params)[k]),
            decreases self.params@.len() - i,
        {
            let id = self.params[i].id;
            if !section.contains_key(id) {
                proof {
                    lemma_first_missing(param_ids(self@.params), section@.dom(), i as int);
                }
                return Err(ConfigError::MissingParameter(String::from_str(id)));
            }
            i = i + 1;
        }
        proof {
            lemma_first_missing(param_ids(self@.params), section@.dom(), i as int);
        }
        Ok(())
    }
}

/// The step of a weather query at which a request was made.
#[derive(Clone, Copy, Debug, PartialEq, Eq, Structural)]
pub enum Phase {
    /// Finding the place that the user named
    LocationLookup,
    /// Getting the weather at that place
    WeatherFetch,
}

/// Why a provider has no weather to give. `F` is the payload in which the
/// service reports its own failures.
#[derive(Debug, PartialEq, Eq)]
pub enum ProviderError<F> {
    /// A date was asked for, and the service knows current conditions only
    UnsupportedDate,
    /// The service knows no place of the name given
    LocationNotFound,
    /// The service answered, and its answer holds no weather
    EmptyReply,
    /// A request failed, at the given step
    Rest(Phase, RestError<F>),
}

/// A weather service.
pub trait Provider: Sized {
    /// Builds the provider from its section of the configuration.
    fn new(config: &Section) -> Result<Self, ConfigError>;

    /// Describes the provider. No two of the entries that it asks for have
    /// the same key.
    fn info() -> (r: ProviderInfo)
        ensures
            distinct_ids(r@.params),
    ;
}

/// The first item of a reply that holds a list: the item, or why there is none.
pub fn first_of_reply<T, F>(
    phase: Phase,
    reply: Result<Vec<T>, RestError<F>>,
    none: ProviderError<F>,
) -> (r: Result<T, ProviderError<F>>)
    ensures
        r == match reply {
            Err(cause) => Err::<T, ProviderError<F>>(ProviderError::Rest(phase, cause)),
            Ok(items) => if items@.len() == 0 {
                Err(none)
            } else {
                Ok(items@[0])
            },
        },
{
    match reply {
        Err(cause) => Err(ProviderError::Rest(phase, cause)),
        Ok(items) => {
            let mut items = items;
            if items.len() == 0 {
                Err(none)
            } else {
                Ok(items.swap_remove(0))
            }
        },
    }
}

/// Hands on the payload of a reply, or says at which step the request failed.
pub fn payload_of_reply<T, F>(phase: Phase, reply: Result<T, RestError<F>>) -> (r: Result<
    T,
    ProviderError<F>,
>)
    ensures
        r == match reply {
            Err(cause) => Err::<T, ProviderError<F>>(ProviderError::Rest(phase, cause)),
            Ok(payload) => Ok(payload),
        },
{
    match reply {
        Err(cause) => Err(ProviderError::Rest(phase, cause)),
        Ok(payload) => Ok(payload),
    }
}

} // verus!
