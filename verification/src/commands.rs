//! What the commands decide: how a provider's entries are collected and
//! stored, which provider and day a forecast is for, which sections are
//! cleared, and how the providers are listed.

use vstd::prelude::*;
use vstd::string::*;

use crate::config::{Config, ConfigView, Section};
use crate::date::{parse_date, Date, DateParseError};
use crate::provider::{
    check_section, first_missing, param_ids, ConfigError, ConfigErrorView, ParamDesc,
    ParamDescView, ProviderInfo, ProviderInfoView,
};
use crate::provider_registry::{ProviderFactory, ProviderRegistry, RegisteredView};
use crate::text::{
    lemma_position_bounds, push_space_padded, space_padded, split_at_first, split_once, text_same,
};
use crate::text_map::{lists_in_order, ordered_keys, TextMap};

verus! {

/// Why a command cannot be carried out.
#[derive(Debug, PartialEq, Eq)]
pub enum CommandError {
    /// No provider has the name given
    NoSuchProvider(String),
    /// No provider was named, and none is marked as the one in use
    NoActiveProvider,
    /// The provider named has no section in the configuration
    MissingConfig(String),
    /// The provider's entries are not as it needs them
    Config(ConfigError),
    /// The day asked for is no date
    BadDate(DateParseError),
}

/// The texts of `items`, in their order.
pub open spec fn texts(items: Seq<String>) -> Seq<Seq<char>> {
    Seq::new(items.len(), |i: int| items[i]@)
}

/// The key of the global entry that names the provider in use.
pub open spec fn active_entry() -> Seq<char> {
    "current"@
}

/// The section that the arguments `tokens` add to `section`, taken one
/// after the other: each must read `<name>=<value>`, cut at its first `=`,
/// and its name must be one of `ids`. Of two arguments with one name the
/// later one stays. The first argument that is not so ends the reading.
pub open spec fn gather(
    ids: Seq<Seq<char>>,
    tokens: Seq<Seq<char>>,
    section: Map<Seq<char>, Seq<char>>,
) -> Result<Map<Seq<char>, Seq<char>>, ConfigErrorView>
    decreases tokens.len(),
{
    if tokens.len() == 0 {
        Ok(section)
    } else {
        match split_at_first(tokens[0], '=') {
            None => Err(ConfigErrorView::BadSyntax(tokens[0])),
            Some((name, value)) => if !ids.contains(name) {
                Err(ConfigErrorView::UnknownParameter(name))
            } else {
                gather(ids, tokens.drop_first(), section.insert(name, value))
            },
        }
    }
}

/// The section that the arguments `tokens` give to a provider that asks for
/// the entries `params`: what `gather` reads, provided that it leaves none
/// of the entries out.
pub open spec fn collect(params: Seq<ParamDescView>, tokens: Seq<Seq<char>>) -> Result<
    Map<Seq<char>, Seq<char>>,
    ConfigErrorView,
> {
    match gather(param_ids(params), tokens, Map::empty()) {
        Err(e) => Err(e),
        Ok(section) => match check_section(params, section) {
            Err(e) => Err(e),
            Ok(()) => Ok(section),
        },
    }
}

/// Whether the argument `token` reads `<name>=<value>` with a name of `ids`.
pub open spec fn accepted(ids: Seq<Seq<char>>, token: Seq<char>) -> bool {
    match split_at_first(token, '=') {
        Some((name, _)) => ids.contains(name),
        None => false,
    }
}

/// The name that the argument `token` gives a value to, where it reads
/// `<name>=<value>`.
pub open spec fn name_of(token: Seq<char>) -> Option<Seq<char>> {
    match split_at_first(token, '=') {
        Some((name, _)) => Some(name),
        None => None,
    }
}

/// The names that the arguments `tokens` give a value to.
pub open spec fn names_given(tokens: Seq<Seq<char>>) -> Set<Seq<char>> {
    Set::new(
        |name: Seq<char>|
            exists|k: int| 0 <= k < tokens.len() && #[trigger] name_of(tokens[k]) == Some(name),
    )
}

proof fn lemma_gather_stops(
    ids: Seq<Seq<char>>,
    tokens: Seq<Seq<char>>,
    section: Map<Seq<char>, Seq<char>>,
    at: int,
)
    requires
        0 <= at < tokens.len(),
        !accepted(ids, tokens[at]),
        forall|k: int| 0 <= k < at ==> accepted(ids, #[trigger] tokens[k]),
    ensures
        gather(ids, tokens, section) == gather(ids, seq![tokens[at]], Map::empty()),
        gather(ids, tokens, section) is Err,
    decreases tokens.len(),
{
    if at > 0 {
        assert(accepted(ids, tokens[0]));
        let rest = tokens.drop_first();
        assert forall|k: int| 0 <= k < at - 1 implies accepted(ids, #[trigger] rest[k]) by {
            assert(rest[k] == tokens[k + 1]);
        }
        let cut = split_at_first(tokens[0], '=')->Some_0;
        lemma_gather_stops(ids, rest, section.insert(cut.0, cut.1), at - 1);
    }
}

proof fn lemma_gather_all(
    ids: Seq<Seq<char>>,
    tokens: Seq<Seq<char>>,
    section: Map<Seq<char>, Seq<char>>,
)
    requires
        forall|k: int| 0 <= k < tokens.len() ==> accepted(ids, #[trigger] tokens[k]),
    ensures
        gather(ids, tokens, section) is Ok,
        gather(ids, tokens, section)->Ok_0.dom() == section.dom().union(names_given(tokens)),
    decreases tokens.len(),
{
    if tokens.len() == 0 {
        assert(section.dom().union(names_given(tokens)) =~= section.dom());
    } else {
        assert(accepted(ids, tokens[0]));
        let rest = tokens.drop_first();
        assert forall|k: int| 0 <= k < rest.len() implies accepted(ids, #[trigger] rest[k]) by {
            assert(rest[k] == tokens[k + 1]);
        }
        let cut = split_at_first(tokens[0], '=')->Some_0;
        let next = section.insert(cut.0, cut.1);
        lemma_gather_all(ids, rest, next);
        let left = next.dom().union(names_given(rest));
        let right = section.dom().union(names_given(tokens));
        assert forall|name: Seq<char>| left.contains(name) <==> right.contains(name) by {
            if names_given(rest).contains(name) {
                let k = choose|k: int|
                    0 <= k < rest.len() && #[trigger] name_of(rest[k]) == Some(name);
                assert(name_of(tokens[k + 1]) == Some(name));
            }
            if name == cut.0 {
                assert(name_of(tokens[0]) == Some(name));
            }
            if names_given(tokens).contains(name) {
                let k = choose|k: int|
                    0 <= k < tokens.len() && #[trigger] name_of(tokens[k]) == Some(name);
                if k > 0 {
                    assert(name_of(rest[k - 1]) == Some(name));
                }
            }
        }
        assert(left =~= right);
    }
}

/// An argument without `=` makes the collection fail, whatever else is
/// given. Where every argument before it reads `<name>=<value>` with a name
/// that the provider asks for, the failure is `BadSyntax` with that
/// argument; an earlier argument that is not so is reported in its place.
pub proof fn lemma_token_without_equals(
    params: Seq<ParamDescView>,
    tokens: Seq<Seq<char>>,
    at: int,
)
    requires
        0 <= at < tokens.len(),
        !tokens[at].contains('='),
    ensures
        collect(params, tokens) is Err,
        (forall|k: int| 0 <= k < at ==> accepted(param_ids(params), #[trigger] tokens[k]))
            ==> collect(params, tokens) == Err::<Map<Seq<char>, Seq<char>>, ConfigErrorView>(
            ConfigErrorView::BadSyntax(tokens[at]),
        ),
{
    let ids = param_ids(params);
    lemma_position_bounds(tokens[at], '=');
    assert(!accepted(ids, tokens[at]));
    lemma_first_refused(ids, tokens, at);
    let first = choose|first: int|
        0 <= first <= at && !accepted(ids, tokens[first]) && forall|k: int|
            0 <= k < first ==> accepted(ids, #[trigger] tokens[k]);
    lemma_gather_stops(ids, tokens, Map::empty(), first);
    if forall|k: int| 0 <= k < at ==> accepted(ids, #[trigger] tokens[k]) {
        lemma_gather_stops(ids, tokens, Map::empty(), at);
        assert(seq![tokens[at]][0] == tokens[at]);
    }
}

proof fn lemma_first_refused(ids: Seq<Seq<char>>, tokens: Seq<Seq<char>>, at: int)
    requires
        0 <= at < tokens.len(),
        !accepted(ids, tokens[at]),
    ensures
        exists|first: int|
            0 <= first <= at && !accepted(ids, tokens[first]) && forall|k: int|
                0 <= k < first ==> accepted(ids, #[trigger] tokens[k]),
    decreases at,
{
    if forall|k: int| 0 <= k < at ==> accepted(ids, #[trigger] tokens[k]) {
    } else {
        let k = choose|k: int| 0 <= k < at && !accepted(ids, #[trigger] tokens[k]);
        lemma_first_refused(ids, tokens, k);
    }
}

/// Where every argument reads `<name>=<value>` with a name that the
/// provider asks for, and the arguments leave out an entry that it asks
/// for, the collection fails with `MissingParameter` and names the first
/// entry left out, in the order in which the provider asks for them.
pub proof fn lemma_missing_parameter(params: Seq<ParamDescView>, tokens: Seq<Seq<char>>)
    requires
        forall|k: int| 0 <= k < tokens.len() ==> accepted(param_ids(params), #[trigger] tokens[k]),
        first_missing(param_ids(params), names_given(tokens)) < params.len(),
    ensures
        collect(params, tokens) == Err::<Map<Seq<char>, Seq<char>>, ConfigErrorView>(
            ConfigErrorView::MissingParameter(
                param_ids(params)[first_missing(param_ids(params), names_given(tokens))],
            ),
        ),
{
    let ids = param_ids(params);
    lemma_gather_all(ids, tokens, Map::empty());
    let section = gather(ids, tokens, Map::empty())->Ok_0;
    assert(section.dom() =~= names_given(tokens));
}

/// Whether `info` asks for an entry under the key `id`.
pub fn declares(info: &ProviderInfo, id: &str) -> (r: bool)
    ensures
        r == param_ids(info@.params).contains(id@),
{
    let ghost ids = param_ids(info@.params);
    let mut i: usize = 0;
    while i < info.params.len()
        invariant
            i <= info.params@.len(),
            ids == param_ids(info@.params),
            forall|k: int| 0 <= k < i ==> ids[k] != id@,
        decreases info.params@.len() - i,
    {
        if text_same(info.params[i].id, id) {
            assert(ids[i as int] == id@);
            return true;
        }
        i = i + 1;
    }
    false
}

/// Reads the entries of a provider from the arguments `parameters`, each of
/// the form `<name>=<value>`.
pub fn collect_parameters(info: &ProviderInfo, parameters: &Vec<String>) -> (r: Result<
    Section,
    ConfigError,
>)
    ensures
        match r {
            Ok(section) => collect(info@.params, texts(parameters@)) == Ok::<
                Map<Seq<char>, Seq<char>>,
                ConfigErrorView,
            >(section@),
            Err(e) => collect(info@.params, texts(parameters@)) == Err::<
                Map<Seq<char>, Seq<char>>,
                ConfigErrorView,
            >(e@),
        },
{
    let ghost ids = param_ids(info@.params);
    let ghost tokens = texts(parameters@);
    let mut section: Section = TextMap::new();
    let mut i: usize = 0;
    assert(tokens.skip(0) =~= tokens);
    while i < parameters.len()
        invariant
            i <= parameters@.len(),
            ids == param_ids(info@.params),
            tokens == texts(parameters@),
            gather(ids, tokens, Map::empty()) == gather(ids, tokens.skip(i as int), section@),
        decreases parameters@.len() - i,
    {
        let ghost rest = tokens.skip(i as int);
        proof {
            assert(rest[0] == tokens[i as int]);
            assert(rest.drop_first() =~= tokens.skip(i + 1));
        }
        match split_once(parameters[i].as_str(), '=') {
            None => {
                return Err(ConfigError::BadSyntax(parameters[i].clone()));
            },
            Some((name, value)) => {
                if !declares(info, name.as_str()) {
                    return Err(ConfigError::UnknownParameter(name));
                }
                section.insert(name, value);
            },
        }
        i = i + 1;
    }
    match info.check(&section) {
        Err(e) => Err(e),
        Ok(()) => Ok(section),
    }
}

/// The section that the answers `answers` give, each put under the key of
/// `ids` at its place.
pub open spec fn fill(
    section: Map<Seq<char>, Seq<char>>,
    ids: Seq<Seq<char>>,
    answers: Seq<Seq<char>>,
) -> Map<Seq<char>, Seq<char>>
    decreases ids.len(),
{
    if ids.len() == 0 || answers.len() == 0 {
        section
    } else {
        fill(section.insert(ids[0], answers[0]), ids.drop_first(), answers.drop_first())
    }
}

/// Puts the answers that the user gave, one for each entry that the
/// provider asks for and in their order, into a section. An answer is taken
/// as it is.
pub fn section_of_answers(info: &ProviderInfo, answers: &Vec<String>) -> (r: Section)
    requires
        answers@.len() == info@.params.len(),
    ensures
        r@ == fill(Map::empty(), param_ids(info@.params), texts(answers@)),
{
    let ghost ids = param_ids(info@.params);
    let ghost given = texts(answers@);
    let mut section: Section = TextMap::new();
    let mut i: usize = 0;
    assert(ids.skip(0) =~= ids);
    assert(given.skip(0) =~= given);
    while i < answers.len()
        invariant
            i <= answers@.len(),
            answers@.len() == info@.params.len(),
            ids == param_ids(info@.params),
            given == texts(answers@),
            fill(Map::empty(), ids, given) == fill(
                section@,
                ids.skip(i as int),
                given.skip(i as int),
            ),
        decreases answers@.len() - i,
    {
        proof {
            assert(ids.skip(i as int)[0] == ids[i as int]);
            assert(given.skip(i as int)[0] == given[i as int]);
            assert(ids.skip(i as int).drop_first() =~= ids.skip(i + 1));
            assert(given.skip(i as int).drop_first() =~= given.skip(i + 1));
        }
        section.insert(String::from_str(info.params[i].id), answers[i].clone());
        i = i + 1;
    }
    section
}

/// How the entries of a provider are to be had.
#[derive(Debug)]
pub enum Collection {
    /// The user is to be asked for each entry, by these names and in this
    /// order
    Ask(Vec<&'static str>),
    /// The arguments gave this section
    Ready(Section),
}

/// The names by which the user is asked for the entries `params`.
pub open spec fn param_names(params: Seq<ParamDescView>) -> Seq<Seq<char>> {
    Seq::new(params.len(), |i: int| params[i].name)
}

/// The names of `names`, in their order.
pub open spec fn name_texts(names: Seq<&'static str>) -> Seq<Seq<char>> {
    Seq::new(names.len(), |i: int| names[i]@)
}

/// Whether the user is to be asked for the entries: no argument was given,
/// and the provider asks for some entry.
pub open spec fn asks_user(params: Seq<ParamDescView>, tokens: Seq<Seq<char>>) -> bool {
    tokens.len() == 0 && params.len() > 0
}

/// Begins the configuration of `provider`: decides whether its entries come
/// from the arguments `parameters`, and reads them if so.
pub fn begin_configure<F>(
    registry: &ProviderRegistry<F>,
    provider: &str,
    parameters: &Vec<String>,
) -> (r: Result<Collection, CommandError>)
    ensures
        !registry@.contains_key(provider@) ==> (r matches Err(CommandError::NoSuchProvider(name))
            && name@ == provider@),
        registry@.contains_key(provider@) ==> {
            let params = registry@[provider@].info.params;
            if asks_user(params, texts(parameters@)) {
                r matches Ok(Collection::Ask(names)) && name_texts(names@) == param_names(params)
            } else {
                match collect(params, texts(parameters@)) {
                    Ok(section) => r matches Ok(Collection::Ready(given)) && given@ == section,
                    Err(e) => r matches Err(CommandError::Config(error)) && error@ == e,
                }
            }
        },
{
    let info = match registry.info(provider) {
        None => {
            return Err(CommandError::NoSuchProvider(String::from_str(provider)));
        },
        Some(info) => info,
    };
    if parameters.len() == 0 && info.params.len() > 0 {
        let mut names: Vec<&'static str> = Vec::new();
        let mut i: usize = 0;
        while i < info.params.len()
            invariant
                i <= info.params@.len(),
                names@.len() == i,
                forall|k: int| 0 <= k < i ==> (#[trigger] names@[k])@ == info@.params[k].name,
            decreases info.params@.len() - i,
        {
            names.push(info.params[i].name);
            i = i + 1;
        }
        assert(name_texts(names@) =~= param_names(info@.params));
        return Ok(Collection::Ask(names));
    }
    match collect_parameters(info, parameters) {
        Ok(section) => Ok(Collection::Ready(section)),
        Err(e) => Err(CommandError::Config(e)),
    }
}

/// The configuration after `section` is stored for `provider`: the section
/// takes the place of any that the provider had, and where no provider had
/// a section before, this one is marked as the one in use.
pub open spec fn stored(
    config: ConfigView,
    provider: Seq<char>,
    section: Map<Seq<char>, Seq<char>>,
) -> ConfigView {
    ConfigView {
        globals: if config.sections == Map::<Seq<char>, Map<Seq<char>, Seq<char>>>::empty() {
            config.globals.insert(active_entry(), provider)
        } else {
            config.globals
        },
        sections: config.sections.insert(provider, section),
    }
}

/// Stores `section` as the section of `provider`.
pub fn store_configuration(config: &mut Config, provider: &str, section: Section)
    ensures
        final(config)@ == stored(old(config)@, provider@, section@),
{
    if config.sections.is_empty() {
        config.globals.insert(String::from_str("current"), String::from_str(provider));
    }
    config.sections.insert(String::from_str(provider), section);
}

/// Ends the configuration of `provider`, once its entries were tried on a
/// request to the service: where the request succeeded the section is
/// stored, and where it failed the configuration stays as it is and the
/// failure is handed back.
pub fn finish_configure<E>(
    config: &mut Config,
    provider: &str,
    section: Section,
    validation: Result<(), E>,
) -> (r: Result<(), E>)
    ensures
        match validation {
            Ok(_) => r is Ok,
            Err(e) => r == Err::<(), E>(e),
        },
        final(config)@ == if validation is Ok {
            stored(old(config)@, provider@, section@)
        } else {
            old(config)@
        },
{
    match validation {
        Ok(()) => {
            store_configuration(config, provider, section);
            Ok(())
        },
        Err(e) => Err(e),
    }
}

/// The place that a provider is asked about when its entries are tried.
pub fn reference_location() -> (r: &'static str)
    ensures
        r@ == "London"@,
{
    "London"
}

/// The text of the name given, where one is given.
pub open spec fn name_text(name: Option<String>) -> Option<Seq<char>> {
    match name {
        Some(name) => Some(name@),
        None => None,
    }
}

/// The provider that a forecast is asked of: the one named, or else the
/// one marked as in use.
pub open spec fn chosen_provider(
    globals: Map<Seq<char>, Seq<char>>,
    provider: Option<Seq<char>>,
) -> Option<Seq<char>> {
    match provider {
        Some(name) => Some(name),
        None => if globals.contains_key(active_entry()) {
            Some(globals[active_entry()])
        } else {
            None
        },
    }
}

/// The day that `text` asks for: `now` asks for no day in particular, and
/// any other text is read as a date.
pub open spec fn day_of(text: Seq<char>) -> Result<Option<Date>, DateParseError> {
    if text == "now"@ {
        Ok(None)
    } else {
        match parse_date(text) {
            Ok(date) => Ok(Some(date)),
            Err(e) => Err(e),
        }
    }
}

/// Reads the day that a forecast is asked for.
pub fn forecast_date(text: &str) -> (r: Result<Option<Date>, DateParseError>)
    ensures
        r == day_of(text@),
{
    if text_same(text, "now") {
        Ok(None)
    } else {
        match Date::from_str(text) {
            Ok(date) => Ok(Some(date)),
            Err(e) => Err(e),
        }
    }
}

/// The name of the provider that a forecast is asked of.
pub fn select_provider(config: &Config, provider: Option<String>) -> (r: Result<
    String,
    CommandError,
>)
    ensures
        match chosen_provider(config@.globals, name_text(provider)) {
            Some(name) => r matches Ok(chosen) && chosen@ == name,
            None => r matches Err(CommandError::NoActiveProvider),
        },
{
    match provider {
        Some(name) => Ok(name),
        None => match config.globals.get("current") {
            Some(name) => Ok(name.clone()),
            None => Err(CommandError::NoActiveProvider),
        },
    }
}

/// What a forecast is to be asked of, and for which day.
#[derive(Debug)]
pub struct Forecast<P> {
    /// The name of the provider
    pub provider_name: String,
    /// The provider, built from its section
    pub provider: P,
    /// The day asked for, if the forecast is for a day in particular
    pub date: Option<Date>,
}

/// Whether `outcome` is what comes of a forecast by the provider `name`
/// once its factory has answered `built`: where the factory refused the
/// section, its refusal; else, where `date` is no day, that fault; else
/// the forecast for the provider built and the day asked for.
pub open spec fn forecast_planned<P>(
    name: Seq<char>,
    built: Result<P, ConfigError>,
    date: Seq<char>,
    outcome: Result<Forecast<P>, CommandError>,
) -> bool {
    match built {
        Err(refused) => outcome matches Err(CommandError::Config(e)) && e == refused,
        Ok(provider) => match day_of(date) {
            Err(bad) => outcome matches Err(CommandError::BadDate(e)) && e == bad,
            Ok(day) => outcome matches Ok(forecast) && forecast.provider == provider
                && forecast.provider_name@ == name && forecast.date == day,
        },
    }
}

/// What comes of a forecast once its provider's factory has answered: the
/// day asked for is read only where the factory built a provider.
pub fn plan_forecast<P>(provider_name: String, built: Result<P, ConfigError>, date: &str) -> (r:
    Result<Forecast<P>, CommandError>)
    ensures
        forecast_planned(provider_name@, built, date@, r),
{
    let provider = match built {
        Ok(provider) => provider,
        Err(refused) => {
            return Err(CommandError::Config(refused));
        },
    };
    match forecast_date(date) {
        Ok(day) => Ok(Forecast { provider_name, provider, date: day }),
        Err(bad) => Err(CommandError::BadDate(bad)),
    }
}

/// Begins a forecast: finds the provider to ask, builds it from its
/// section of `config`, and reads the day asked for.
///
/// What stands in the way is reported in this order: no provider is named
/// or in use; the name is not in `registry`; the provider has no section;
/// the section lacks an entry; the factory refuses the section; `date` is
/// no day. Where the section lacks no entry, the provider's factory is
/// called with that section, and the outcome is that of `plan_forecast`
/// for its answer.
pub fn begin_forecast<F: ProviderFactory>(
    registry: &ProviderRegistry<F>,
    config: &Config,
    date: &str,
    provider: Option<String>,
) -> (r: Result<Forecast<F::Provider>, CommandError>)
    ensures
        match chosen_provider(config@.globals, name_text(provider)) {
            None => r matches Err(CommandError::NoActiveProvider),
            Some(name) => if !registry@.contains_key(name) {
                r matches Err(CommandError::NoSuchProvider(unknown)) && unknown@ == name
            } else if !config@.sections.contains_key(name) {
                r matches Err(CommandError::MissingConfig(bare)) && bare@ == name
            } else {
                match check_section(registry@[name].info.params, config@.sections[name]) {
                    Err(missing) => r matches Err(CommandError::Config(e)) && e@ == missing,
                    Ok(()) => exists|section: &Section, built: Result<F::Provider, ConfigError>|
                        section@ == config@.sections[name] && #[trigger] call_ensures(
                            F::create,
                            (&registry@[name].factory, section),
                            built,
                        ) && forecast_planned(name, built, date@, r),
                }
            },
        },
{
    let provider_name = match select_provider(config, provider) {
        Ok(name) => name,
        Err(e) => {
            return Err(e);
        },
    };
    if !registry.contains_key(provider_name.as_str()) {
        return Err(CommandError::NoSuchProvider(provider_name));
    }
    let section = match config.sections.get(provider_name.as_str()) {
        Some(section) => section,
        None => {
            return Err(CommandError::MissingConfig(provider_name));
        },
    };
    match registry.create(provider_name.as_str(), section) {
        Some(built) => plan_forecast(provider_name, built, date),
        None => Err(CommandError::NoSuchProvider(provider_name)),
    }
}

/// Ends a forecast that was had: where `set_default` asks for it, the
/// provider is marked as the one in use.
pub fn finish_forecast(config: &mut Config, provider_name: String, set_default: bool)
    ensures
        final(config)@.sections == old(config)@.sections,
        final(config)@.globals == if set_default {
            old(config)@.globals.insert(active_entry(), provider_name@)
        } else {
            old(config)@.globals
        },
{
    if set_default {
        config.globals.insert(String::from_str("current"), provider_name);
    }
}

/// The word that stands for every provider where sections are cleared.
pub open spec fn everyone() -> Seq<char> {
    "all"@
}

/// Whether `name` may be given where sections are cleared: it is the word
/// for every provider, or the name of a provider.
pub open spec fn clearable(registered: Set<Seq<char>>, name: Seq<char>) -> bool {
    name == everyone() || registered.contains(name)
}

/// The place of the first of `names` that may not be given where sections
/// are cleared, or the length of `names` where all may.
pub open spec fn first_unclearable(registered: Set<Seq<char>>, names: Seq<Seq<char>>) -> int
    decreases names.len(),
{
    if names.len() == 0 {
        0
    } else if !clearable(registered, names[0]) {
        0
    } else {
        1 + first_unclearable(registered, names.drop_first())
    }
}

/// Whether `name`, given where sections are cleared, clears the section
/// `key`: the word for every provider clears the section of each provider,
/// and any other name its own.
pub open spec fn clears_one(registered: Set<Seq<char>>, name: Seq<char>, key: Seq<char>) -> bool {
    if name == everyone() {
        registered.contains(key)
    } else {
        name == key
    }
}

/// Whether one of `names` clears the section `key`.
pub open spec fn clears(registered: Set<Seq<char>>, names: Seq<Seq<char>>, key: Seq<char>) -> bool {
    exists|i: int| 0 <= i < names.len() && clears_one(registered, #[trigger] names[i], key)
}

/// The global entries without the mark of the provider in use, where that
/// provider has no section; as they are, otherwise.
pub open spec fn without_stale_mark(
    globals: Map<Seq<char>, Seq<char>>,
    sections: Map<Seq<char>, Map<Seq<char>, Seq<char>>>,
) -> Map<Seq<char>, Seq<char>> {
    if globals.contains_key(active_entry()) && !sections.contains_key(globals[active_entry()]) {
        globals.remove(active_entry())
    } else {
        globals
    }
}

/// The configuration after the sections that `names` name are cleared. The
/// names are taken one after the other, up to the first that may not be
/// given. Where all may, the mark of the provider in use goes too if that
/// provider is left without a section.
pub open spec fn cleared(
    registered: Set<Seq<char>>,
    config: ConfigView,
    names: Seq<Seq<char>>,
) -> ConfigView {
    let until = first_unclearable(registered, names);
    let taken = names.take(until);
    let sections = config.sections.remove_keys(
        Set::new(|key: Seq<char>| clears(registered, taken, key)),
    );
    ConfigView {
        globals: if until < names.len() {
            config.globals
        } else {
            without_stale_mark(config.globals, sections)
        },
        sections,
    }
}

/// `first_unclearable` is the one place before which every name may be
/// given and at which one may not, or the names end.
pub proof fn lemma_first_unclearable(registered: Set<Seq<char>>, names: Seq<Seq<char>>, at: int)
    requires
        0 <= at <= names.len(),
        forall|k: int| 0 <= k < at ==> clearable(registered, #[trigger] names[k]),
        at < names.len() ==> !clearable(registered, names[at]),
    ensures
        first_unclearable(registered, names) == at,
    decreases names.len(),
{
    if names.len() > 0 && at > 0 {
        let rest = names.drop_first();
        assert(clearable(registered, names[0]));
        assert forall|k: int| 0 <= k < at - 1 implies clearable(registered, #[trigger] rest[k]) by {
            assert(rest[k] == names[k + 1]);
        }
        lemma_first_unclearable(registered, rest, at - 1);
    }
}

/// Clearing is idempotent: where every name may be given, clearing the
/// same names once more changes nothing. Whether the names may be given
/// does not depend on the configuration, so that clearing a provider whose
/// section is gone already is no failure.
pub proof fn lemma_clear_twice(
    registered: Set<Seq<char>>,
    config: ConfigView,
    names: Seq<Seq<char>>,
)
    requires
        first_unclearable(registered, names) == names.len(),
    ensures
        cleared(registered, cleared(registered, config, names), names) == cleared(
            registered,
            config,
            names,
        ),
{
    let once = cleared(registered, config, names);
    let twice = cleared(registered, once, names);
    assert(names.take(names.len() as int) =~= names);
    assert(twice.sections =~= once.sections);
    assert(twice.globals =~= once.globals);
}

/// Clears the sections of the providers named in `providers`, where `all`
/// names every provider of `registry`. A provider without a section is
/// cleared like any other. A name that is neither `all` nor that of a
/// provider ends the command: it is handed back, and the sections cleared
/// so far stay cleared.
pub fn clear_providers<F>(
    registry: &ProviderRegistry<F>,
    config: &mut Config,
    providers: &Vec<String>,
) -> (r: Result<(), CommandError>)
    ensures
        final(config)@ == cleared(registry@.dom(), old(config)@, texts(providers@)),
        ({
            let names = texts(providers@);
            let until = first_unclearable(registry@.dom(), names);
            if until < names.len() {
                r matches Err(CommandError::NoSuchProvider(name)) && name@ == names[until]
            } else {
                r is Ok
            }
        }),
{
    let ghost registered = registry@.dom();
    let ghost names = texts(providers@);
    let ghost before = config@;
    let count = registry.len();
    let mut i: usize = 0;
    proof {
        assert(config.sections@ =~= before.sections.remove_keys(
            Set::new(|key: Seq<char>| clears(registered, names.take(0), key)),
        ));
    }
    while i < providers.len()
        invariant
            i <= providers@.len(),
            names == texts(providers@),
            before == old(config)@,
            registered == registry@.dom(),
            count == registered.len(),
            count == ordered_keys(registered).len(),
            lists_in_order(ordered_keys(registered), registered),
            forall|k: int| 0 <= k < i ==> clearable(registered, #[trigger] names[k]),
            config.globals@ == before.globals,
            config.sections@ == before.sections.remove_keys(
                Set::new(|key: Seq<char>| clears(registered, names.take(i as int), key)),
            ),
        decreases providers@.len() - i,
    {
        let name = providers[i].as_str();
        let ghost done = Set::new(|key: Seq<char>| clears(registered, names.take(i as int), key));
        let ghost next = Set::new(|key: Seq<char>| clears(registered, names.take(i + 1), key));
        let ghost start = config.sections@;
        proof {
            assert(names.take(i + 1) =~= names.take(i as int).push(names[i as int]));
            assert forall|key: Seq<char>| next.contains(key) <==> (done.contains(key) || clears_one(
                registered,
                names[i as int],
                key,
            )) by {
                let longer = names.take(i + 1);
                let shorter = names.take(i as int);
                if clears(registered, longer, key) {
                    let w = choose|w: int|
                        0 <= w < longer.len() && clears_one(registered, #[trigger] longer[w], key);
                    if w < i {
                        assert(shorter[w] == longer[w]);
                    }
                }
                if clears(registered, shorter, key) {
                    let w = choose|w: int|
                        0 <= w < shorter.len() && clears_one(registered, #[trigger] shorter[w], key);
                    assert(longer[w] == shorter[w]);
                }
                if clears_one(registered, names[i as int], key) {
                    assert(longer[i as int] == names[i as int]);
                }
            }
        }
        if text_same(name, "all") {
            let mut j: usize = 0;
            while j < count
                invariant
                    j <= count,
                    registered == registry@.dom(),
                    count == registered.len(),
                    count == ordered_keys(registered).len(),
                    config.globals@ == before.globals,
                    config.sections@ == start.remove_keys(
                        Set::new(
                            |key: Seq<char>|
                                exists|m: int| 0 <= m < j && ordered_keys(registered)[m] == key,
                        ),
                    ),
                decreases count - j,
            {
                let ghost seen = Set::new(
                    |key: Seq<char>| exists|m: int| 0 <= m < j && ordered_keys(registered)[m] == key,
                );
                let ghost more = Set::new(
                    |key: Seq<char>|
                        exists|m: int| 0 <= m < j + 1 && ordered_keys(registered)[m] == key,
                );
                let provider = registry.name_at(j);
                config.sections.remove(provider.as_str());
                proof {
                    assert forall|key: Seq<char>| more.contains(key) <==> (seen.contains(key)
                        || key == provider@) by {
                        if key == provider@ {
                            assert(ordered_keys(registered)[j as int] == key);
                        }
                    }
                    assert(config.sections@ =~= start.remove_keys(more));
                }
                j = j + 1;
            }
            proof {
                let all = Set::new(
                    |key: Seq<char>|
                        exists|m: int| 0 <= m < count && ordered_keys(registered)[m] == key,
                );
                assert forall|key: Seq<char>| all.contains(key) <==> registered.contains(key) by {
                    if registered.contains(key) {
                        assert(ordered_keys(registered).contains(key));
                    }
                    if all.contains(key) {
                        let m = choose|m: int|
                            0 <= m < count && ordered_keys(registered)[m] == key;
                        assert(ordered_keys(registered).contains(ordered_keys(registered)[m]));
                    }
                }
                assert(config.sections@ =~= before.sections.remove_keys(next));
            }
        } else if registry.contains_key(name) {
            config.sections.remove(name);
            proof {
                assert(config.sections@ =~= before.sections.remove_keys(next));
            }
        } else {
            proof {
                lemma_first_unclearable(registered, names, i as int);
                assert(config@ =~= cleared(registered, before, names));
            }
            return Err(CommandError::NoSuchProvider(providers[i].clone()));
        }
        i = i + 1;
    }
    proof {
        lemma_first_unclearable(registered, names, i as int);
        assert(names.take(i as int) =~= names);
    }
    let stale = match config.globals.get("current") {
        Some(active) => !config.sections.contains_key(active.as_str()),
        None => false,
    };
    if stale {
        config.globals.remove("current");
    }
    proof {
        assert(config@ =~= cleared(registered, before, names));
    }
    Ok(())
}

/// The line that lists one entry of a provider: its key on sixteen
/// characters at least, then its name and what it is for.
pub open spec fn param_line(param: ParamDescView) -> Seq<char> {
    "    "@ + space_padded(param.id, 16) + " - "@ + param.name + ", "@ + param.description
        + "\n"@
}

/// The lines that list the first `count` entries of `params`.
pub open spec fn param_lines(params: Seq<ParamDescView>, count: int) -> Seq<char>
    decreases count,
{
    if count <= 0 {
        Seq::empty()
    } else {
        param_lines(params, count - 1) + param_line(params[count - 1])
    }
}

/// The lines that list one provider: its name and what it is, then its
/// entries under a heading where it has any, then an empty line.
pub open spec fn provider_lines(name: Seq<char>, info: ProviderInfoView) -> Seq<char> {
    let entries = if info.params.len() > 0 {
        "  Parameters:\n"@ + param_lines(info.params, info.params.len() as int)
    } else {
        Seq::empty()
    };
    name + ": "@ + info.description + "\n"@ + entries + "\n"@
}

/// The lines that list the first `count` providers of `registry`, by name
/// in order.
pub open spec fn listing<F>(registry: Map<Seq<char>, RegisteredView<F>>, count: int) -> Seq<char>
    decreases count,
{
    if count <= 0 {
        Seq::empty()
    } else {
        let name = ordered_keys(registry.dom())[count - 1];
        listing(registry, count - 1) + provider_lines(name, registry[name].info)
    }
}

fn push_param_line(out: &mut String, param: &ParamDesc)
    ensures
        final(out)@ == old(out)@ + param_line(param@),
{
    out.append("    ");
    push_space_padded(out, param.id, 16);
    out.append(" - ");
    out.append(param.name);
    out.append(", ");
    out.append(param.description);
    out.append("\n");
    assert(out@ =~= old(out)@ + param_line(param@));
}

fn push_provider_lines(out: &mut String, name: &str, info: &ProviderInfo)
    ensures
        final(out)@ == old(out)@ + provider_lines(name@, info@),
{
    out.append(name);
    out.append(": ");
    out.append(info.description);
    out.append("\n");
    let ghost head = out@;
    if info.params.len() > 0 {
        out.append("  Parameters:\n");
        let ghost start = out@;
        let mut i: usize = 0;
        while i < info.params.len()
            invariant
                i <= info.params@.len(),
                out@ == start + param_lines(info@.params, i as int),
            decreases info.params@.len() - i,
        {
            push_param_line(out, &info.params[i]);
            i = i + 1;
            assert(out@ =~= start + param_lines(info@.params, i as int));
        }
    }
    out.append("\n");
    assert(out@ =~= old(out)@ + provider_lines(name@, info@));
}

/// Lists the providers of `registry`, by name in order, each with the
/// entries that it asks for.
pub fn list_providers<F>(registry: &ProviderRegistry<F>) -> (r: String)
    ensures
        r@ == listing(registry@, registry@.dom().len() as int),
{
    let mut out = String::new();
    let count = registry.len();
    let mut i: usize = 0;
    while i < count
        invariant
            i <= count,
            count == registry@.dom().len(),
            out@ == listing(registry@, i as int),
        decreases count - i,
    {
        push_provider_lines(&mut out, registry.name_at(i).as_str(), registry.info_at(i));
        i = i + 1;
    }
    out
}

} // verus!
