//! AccuWeather: current conditions at a place, which is first looked up by
//! name for its location key.

use vstd::prelude::*;
use vstd::string::*;

use crate::config::Section;
use crate::date::Date;
use crate::provider::{
    first_of_reply, ConfigError, ConfigErrorView, ParamDesc, Phase, Provider, ProviderError,
    ProviderInfo, WeatherKind,
};
use crate::rest::RestError;

verus! {

/// The AccuWeather service, with the key that authenticates its user.
#[derive(Clone, Debug)]
pub struct AccuWeather {
    apikey: String,
}

/// A failure as the service reports it.
#[derive(Debug, PartialEq, Eq)]
pub struct ApiError {
    pub code: String,
    pub message: String,
}

/// A place as the location search reports it.
#[derive(Debug, PartialEq, Eq)]
pub struct Location {
    /// The key under which the service knows the place
    pub key: String,
}

/// What is falling, as the service reports it.
#[derive(Clone, Copy, Debug, PartialEq, Eq, Structural)]
pub enum PrecipitationType {
    Rain,
    Snow,
    Ice,
    Mixed,
}

/// The address of the search for the places of a given name.
pub open spec fn location_url(apikey: Seq<char>, location: Seq<char>) -> Seq<char> {
    "https://dataservice.accuweather.com/locations/v1/cities/search?apikey="@ + apikey + "&q="@
        + location
}

/// The address of the current conditions at the place of a given key.
pub open spec fn conditions_url(apikey: Seq<char>, location_key: Seq<char>) -> Seq<char> {
    "http://dataservice.accuweather.com/currentconditions/v1/"@ + location_key + "?apikey="@
        + apikey + "&details=true"@
}

/// The kind of weather under the conditions reported: what is falling
/// decides, and where nothing falls, whether the sky is overcast.
pub open spec fn kind_of_conditions(
    precipitation: Option<PrecipitationType>,
    overcast: bool,
) -> WeatherKind {
    match precipitation {
        Some(PrecipitationType::Rain) => WeatherKind::Rain,
        Some(_) => WeatherKind::Snow,
        None => if overcast {
            WeatherKind::Clouds
        } else {
            WeatherKind::Clear
        },
    }
}

/// How a failure of the service is shown.
pub open spec fn api_error_text(code: Seq<char>, message: Seq<char>) -> Seq<char> {
    "API error '"@ + code + "': "@ + message
}

impl ApiError {
    /// The failure in words.
    pub fn to_string(&self) -> (r: String)
        ensures
            r@ == api_error_text(self.code@, self.message@),
    {
        let mut out = String::from_str("API error '");
        out.append(self.code.as_str());
        out.append("': ");
        out.append(self.message.as_str());
        out
    }
}

impl AccuWeather {
    /// The key that authenticates the user.
    pub closed spec fn apikey(&self) -> Seq<char> {
        self.apikey@
    }

    /// The address of the search for the places named `location`.
    pub fn location_url(&self, location: &str) -> (r: String)
        ensures
            r@ == location_url(self.apikey(), location@),
    {
        let mut url = String::from_str(
            "https://dataservice.accuweather.com/locations/v1/cities/search?apikey=",
        );
        url.append(self.apikey.as_str());
        url.append("&q=");
        url.append(location);
        url
    }

    /// The address of the current conditions at the place of the key
    /// `location_key`.
    pub fn conditions_url(&self, location_key: &str) -> (r: String)
        ensures
            r@ == conditions_url(self.apikey(), location_key@),
    {
        let mut url = String::from_str("http://dataservice.accuweather.com/currentconditions/v1/");
        url.append(location_key);
        url.append("?apikey=");
        url.append(self.apikey.as_str());
        url.append("&details=true");
        url
    }

    /// Begins a query for the weather at `location`: the address to get
    /// first, which is that of the location search. The service knows
    /// current conditions only, so a query for a date ends here.
    pub fn begin(&self, location: &str, date: Option<Date>) -> (r: Result<
        String,
        ProviderError<ApiError>,
    >)
        ensures
            match r {
                Ok(url) => date is None && url@ == location_url(self.apikey(), location@),
                Err(e) => date is Some && e == ProviderError::<ApiError>::UnsupportedDate,
            },
    {
        if date.is_some() {
            return Err(ProviderError::UnsupportedDate);
        }
        Ok(self.location_url(location))
    }

    /// Goes on after the location search: the address to get next, which is
    /// that of the conditions at the first place found.
    pub fn after_location_lookup(&self, reply: Result<Vec<Location>, RestError<ApiError>>) -> (r:
        Result<String, ProviderError<ApiError>>)
        ensures
            match reply {
                Err(cause) => r == Err::<String, ProviderError<ApiError>>(
                    ProviderError::Rest(Phase::LocationLookup, cause),
                ),
                Ok(places) => if places@.len() == 0 {
                    r == Err::<String, ProviderError<ApiError>>(ProviderError::LocationNotFound)
                } else {
                    r matches Ok(url) && url@ == conditions_url(self.apikey(), places@[0].key@)
                },
            },
    {
        match first_of_reply(Phase::LocationLookup, reply, ProviderError::LocationNotFound) {
            Err(e) => Err(e),
            Ok(place) => Ok(self.conditions_url(place.key.as_str())),
        }
    }

    /// Ends the query: the first of the conditions reported, from which the
    /// weather is read.
    pub fn after_conditions<T>(reply: Result<Vec<T>, RestError<ApiError>>) -> (r: Result<
        T,
        ProviderError<ApiError>,
    >)
        ensures
            r == match reply {
                Err(cause) => Err::<T, ProviderError<ApiError>>(
                    ProviderError::Rest(Phase::WeatherFetch, cause),
                ),
                Ok(conditions) => if conditions@.len() == 0 {
                    Err(ProviderError::EmptyReply)
                } else {
                    Ok(conditions@[0])
                },
            },
    {
        first_of_reply(Phase::WeatherFetch, reply, ProviderError::EmptyReply)
    }

    /// The kind of weather under the conditions reported.
    pub fn weather_kind(precipitation: Option<PrecipitationType>, overcast: bool) -> (r:
        WeatherKind)
        ensures
            r == kind_of_conditions(precipitation, overcast),
    {
        match precipitation {
            Some(PrecipitationType::Rain) => WeatherKind::Rain,
            Some(_) => WeatherKind::Snow,
            None => {
                if overcast {
                    WeatherKind::Clouds
                } else {
                    WeatherKind::Clear
                }
            },
        }
    }
}

impl Provider for AccuWeather {
    fn new(config: &Section) -> (r: Result<Self, ConfigError>)
        ensures
            match r {
                Ok(provider) => config@.contains_key("apikey"@) && provider.apikey()
                    == config@["apikey"@],
                Err(e) => !config@.contains_key("apikey"@) && e@
                    == ConfigErrorView::MissingParameter("apikey"@),
            },
    {
        match config.get("apikey") {
            Some(apikey) => Ok(AccuWeather { apikey: apikey.clone() }),
            None => Err(ConfigError::MissingParameter(String::from_str("apikey"))),
        }
    }

    fn info() -> (r: ProviderInfo)
        ensures
            r@.description == "AccuWeather (https://www.accuweather.com/)"@,
            r@.params.len() == 1,
            r@.params[0].id == "apikey"@,
            r@.params[0].name == "User's API key"@,
            r@.params[0].description == "used to authenticate user requests"@,
    {
        let mut params: Vec<ParamDesc> = Vec::new();
        params.push(
            ParamDesc {
                id: "apikey",
                name: "User's API key",
                description: "used to authenticate user requests",
            },
        );
        ProviderInfo { description: "AccuWeather (https://www.accuweather.com/)", params }
    }
}

} // verus!
