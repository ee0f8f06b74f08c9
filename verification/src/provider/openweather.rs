//! OpenWeather: current conditions at a place, which is first looked up by
//! name for its coordinates.

use vstd::prelude::*;
use vstd::string::*;

use crate::config::Section;
use crate::date::Date;
use crate::provider::{
    first_of_reply, payload_of_reply, ConfigError, ConfigErrorView, ParamDesc, Phase, Provider,
    ProviderError, ProviderInfo, WeatherKind,
};
use crate::rest::RestError;
use crate::text::{push_signed_decimal, signed_decimal};

verus! {

/// The OpenWeather service, with the key that authenticates its user.
#[derive(Clone, Debug)]
pub struct OpenWeather {
    apikey: String,
}

/// A failure as the service reports it.
#[derive(Debug, PartialEq, Eq)]
pub struct ApiError {
    pub cod: i32,
    pub message: String,
}

/// A place as the location search reports it. Latitude and longitude are
/// held as they go into an address: in degrees, written with four decimals.
#[derive(Debug, PartialEq, Eq)]
pub struct Coords {
    pub lat: String,
    pub lon: String,
}

/// The address of the search for the place of a given name.
pub open spec fn location_url(apikey: Seq<char>, location: Seq<char>) -> Seq<char> {
    "https://api.openweathermap.org/geo/1.0/direct?q="@ + location + "&limit=1&appid="@ + apikey
}

/// The address of the current conditions at given coordinates.
pub open spec fn weather_url(apikey: Seq<char>, lat: Seq<char>, lon: Seq<char>) -> Seq<char> {
    "https://api.openweathermap.org/data/2.5/weather?appid="@ + apikey + "&units=metric"@
        + "&lat="@ + lat + "&lon="@ + lon
}

/// The kind of weather that a condition code of the service stands for.
pub open spec fn kind_of_condition(id: u32) -> WeatherKind {
    if 200 <= id <= 399 || 500 <= id <= 599 {
        WeatherKind::Rain
    } else if 600 <= id <= 699 {
        WeatherKind::Snow
    } else if 700 <= id <= 799 {
        WeatherKind::Fog
    } else if id == 800 {
        WeatherKind::Clear
    } else if 801 <= id <= 809 {
        WeatherKind::Clouds
    } else {
        WeatherKind::Unknown
    }
}

/// The kind of weather read from the first condition reported, where there
/// is one.
pub open spec fn kind_of_first_condition(id: Option<u32>) -> WeatherKind {
    match id {
        Some(id) => kind_of_condition(id),
        None => WeatherKind::Unknown,
    }
}

/// How a failure of the service is shown.
pub open spec fn api_error_text(cod: i32, message: Seq<char>) -> Seq<char> {
    "API error "@ + signed_decimal(cod as int) + ": "@ + message
}

impl ApiError {
    /// The failure in words.
    pub fn to_string(&self) -> (r: String)
        ensures
            r@ == api_error_text(self.cod, self.message@),
    {
        let mut out = String::from_str("API error ");
        push_signed_decimal(&mut out, self.cod);
        out.append(": ");
        out.append(self.message.as_str());
        out
    }
}

impl OpenWeather {
    /// The key that authenticates the user.
    pub closed spec fn apikey(&self) -> Seq<char> {
        self.apikey@
    }

    /// The address of the search for the place named `location`.
    pub fn location_url(&self, location: &str) -> (r: String)
        ensures
            r@ == location_url(self.apikey(), location@),
    {
        let mut url = String::from_str("https://api.openweathermap.org/geo/1.0/direct?q=");
        url.append(location);
        url.append("&limit=1&appid=");
        url.append(self.apikey.as_str());
        url
    }

    /// The address of the current conditions at the coordinates `place`.
    pub fn weather_url(&self, place: &Coords) -> (r: String)
        ensures
            r@ == weather_url(self.apikey(), place.lat@, place.lon@),
    {
        let mut url = String::from_str("https://api.openweathermap.org/data/2.5/weather?appid=");
        url.append(self.apikey.as_str());
        url.append("&units=metric");
        url.append("&lat=");
        url.append(place.lat.as_str());
        url.append("&lon=");
        url.append(place.lon.as_str());
        url
    }

    /// Begins a query for the weather at `location`: the address to get
    /// first, which is that of the location search. The service knows
    /// current conditions only, so a query for a date ends here.
    pub fn begin(&self, location: &str, date: Option<Date>) -> (r: Result<
        String,
        ProviderError<ApiError>,
    >)
        ensures
            match r {
                Ok(url) => date is None && url@ == location_url(self.apikey(), location@),
                Err(e) => date is Some && e == ProviderError::<ApiError>::UnsupportedDate,
            },
    {
        if date.is_some() {
            return Err(ProviderError::UnsupportedDate);
        }
        Ok(self.location_url(location))
    }

    /// Goes on after the location search: the address to get next, which is
    /// that of the conditions at the first place found.
    pub fn after_location_lookup(&self, reply: Result<Vec<Coords>, RestError<ApiError>>) -> (r:
        Result<String, ProviderError<ApiError>>)
        ensures
            match reply {
                Err(cause) => r == Err::<String, ProviderError<ApiError>>(
                    ProviderError::Rest(Phase::LocationLookup, cause),
                ),
                Ok(places) => if places@.len() == 0 {
                    r == Err::<String, ProviderError<ApiError>>(ProviderError::LocationNotFound)
                } else {
                    r matches Ok(url) && url@ == weather_url(
                        self.apikey(),
                        places@[0].lat@,
                        places@[0].lon@,
                    )
                },
            },
    {
        match first_of_reply(Phase::LocationLookup, reply, ProviderError::LocationNotFound) {
            Err(e) => Err(e),
            Ok(place) => Ok(self.weather_url(&place)),
        }
    }

    /// Ends the query: the conditions reported, from which the weather is
    /// read.
    pub fn after_weather<T>(reply: Result<T, RestError<ApiError>>) -> (r: Result<
        T,
        ProviderError<ApiError>,
    >)
        ensures
            r == match reply {
                Err(cause) => Err::<T, ProviderError<ApiError>>(
                    ProviderError::Rest(Phase::WeatherFetch, cause),
                ),
                Ok(conditions) => Ok(conditions),
            },
    {
        payload_of_reply(Phase::WeatherFetch, reply)
    }

    /// The kind of weather read from the condition codes reported: the
    /// first one decides.
    pub fn weather_kind(ids: &Vec<u32>) -> (r: WeatherKind)
        ensures
            r == kind_of_first_condition(
                if ids@.len() > 0 {
                    Some(ids@[0])
                } else {
                    None
                },
            ),
    {
        if ids.len() == 0 {
            return WeatherKind::Unknown;
        }
        let id = ids[0];
        if (200 <= id && id <= 399) || (500 <= id && id <= 599) {
            WeatherKind::Rain
        } else if 600 <= id && id <= 699 {
            WeatherKind::Snow
        } else if 700 <= id && id <= 799 {
            WeatherKind::Fog
        } else if id == 800 {
            WeatherKind::Clear
        } else if 801 <= id && id <= 809 {
            WeatherKind::Clouds
        } else {
            WeatherKind::Unknown
        }
    }
}

impl Provider for OpenWeather {
    fn new(config: &Section) -> (r: Result<Self, ConfigError>)
        ensures
            match r {
                Ok(provider) => config@.contains_key("apikey"@) && provider.apikey()
                    == config@["apikey"@],
                Err(e) => !config@.contains_key("apikey"@) && e@
                    == ConfigErrorView::MissingParameter("apikey"@),
            },
    {
        match config.get("apikey") {
            Some(apikey) => Ok(OpenWeather { apikey: apikey.clone() }),
            None => Err(ConfigError::MissingParameter(String::from_str("apikey"))),
        }
    }

    fn info() -> (r: ProviderInfo)
        ensures
            r@.description
                == "OpenWeather (https://openweathermap.org/); doesn't support specific dates, only current conditions"@,
            r@.params.len() == 1,
            r@.params[0].id == "apikey"@,
            r@.params[0].name == "User's API key"@,
            r@.params[0].description == "used to authenticate user requests"@,
    {
        let mut params: Vec<ParamDesc> = Vec::new();
        params.push(
            ParamDesc {
                id: "apikey",
                name: "User's API key",
                description: "used to authenticate user requests",
            },
        );
        ProviderInfo {
            description: "OpenWeather (https://openweathermap.org/); doesn't support specific dates, only current conditions",
            params,
        }
    }
}

} // verus!
