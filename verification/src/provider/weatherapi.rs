//! WeatherAPI: the weather of one day at a place, asked for in one request.

use vstd::prelude::*;
use vstd::string::*;

use crate::config::Section;
use crate::date::{date_text, Date};
use crate::provider::{
    first_of_reply, ConfigError, ConfigErrorView, ParamDesc, Phase, Provider, ProviderError,
    ProviderInfo, WeatherKind,
};
use crate::rest::RestError;
use crate::text::{push_signed_decimal, signed_decimal};

verus! {

/// The WeatherAPI service, with the key that authenticates its user.
#[derive(Clone, Debug)]
pub struct WeatherApi {
    apikey: String,
}

/// A failure as the service reports it.
#[derive(Debug, PartialEq, Eq)]
pub struct ApiError {
    pub error: ApiErrorInner,
}

/// The body of a failure report.
#[derive(Debug, PartialEq, Eq)]
pub struct ApiErrorInner {
    pub code: i32,
    pub message: String,
}

/// The address of the weather at `location` on `date`. The date goes in as
/// it is written everywhere: `YYYY-MM-DD`, with zeros in front.
pub open spec fn history_url(apikey: Seq<char>, location: Seq<char>, date: Date) -> Seq<char> {
    "https://api.weatherapi.com/v1/history.json?key="@ + apikey + "&q="@ + location + "&dt="@
        + date_text(date)
}

/// The day that a query is about: the one asked for, or the current one.
pub open spec fn day_asked(date: Option<Date>, today: Date) -> Date {
    match date {
        Some(date) => date,
        None => today,
    }
}

/// The kind of weather that a condition code of the service stands for.
pub open spec fn kind_of_condition(code: u32) -> WeatherKind {
    if code == 1000 {
        WeatherKind::Clear
    } else if code == 1003 || code == 1006 || code == 1009 || code == 1087 {
        WeatherKind::Clouds
    } else if code == 1030 || code == 1135 || code == 1147 {
        WeatherKind::Fog
    } else if code == 1063 || code == 1072 || code == 1150 || code == 1153 || code == 1168 || code
        == 1171 || code == 1180 || code == 1183 || code == 1186 || code == 1189 || code == 1192
        || code == 1195 || code == 1198 || code == 1201 || code == 1240 || code == 1243 || code
        == 1246 || code == 1273 || code == 1276 {
        WeatherKind::Rain
    } else if code == 1066 || code == 1069 || code == 1114 || code == 1117 || code == 1204 || code
        == 1207 || code == 1210 || code == 1213 || code == 1216 || code == 1219 || code == 1222
        || code == 1225 || code == 1237 || code == 1249 || code == 1252 || code == 1255 || code
        == 1258 || code == 1261 || code == 1264 || code == 1279 || code == 1282 {
        WeatherKind::Snow
    } else {
        WeatherKind::Unknown
    }
}

/// How a failure of the service is shown.
pub open spec fn api_error_text(code: i32, message: Seq<char>) -> Seq<char> {
    "API error "@ + signed_decimal(code as int) + ": "@ + message
}

impl ApiError {
    /// The failure in words.
    pub fn to_string(&self) -> (r: String)
        ensures
            r@ == api_error_text(self.error.code, self.error.message@),
    {
        let mut out = String::from_str("API error ");
        push_signed_decimal(&mut out, self.error.code);
        out.append(": ");
        out.append(self.error.message.as_str());
        out
    }
}

impl WeatherApi {
    /// The key that authenticates the user.
    pub closed spec fn apikey(&self) -> Seq<char> {
        self.apikey@
    }

    /// The address of the weather at `location` on `date`.
    pub fn history_url(&self, location: &str, date: Date) -> (r: String)
        ensures
            r@ == history_url(self.apikey(), location@, date),
    {
        let mut url = String::from_str("https://api.weatherapi.com/v1/history.json?key=");
        url.append(self.apikey.as_str());
        url.append("&q=");
        url.append(location);
        url.append("&dt=");
        url.append(date.to_string().as_str());
        url
    }

    /// Begins a query for the weather at `location`: the address to get,
    /// which is that of the day asked for, or of `today` where no date is
    /// given.
    pub fn begin(&self, location: &str, date: Option<Date>, today: Date) -> (r: String)
        ensures
            r@ == history_url(self.apikey(), location@, day_asked(date, today)),
    {
        let day = match date {
            Some(date) => date,
            None => today,
        };
        self.history_url(location, day)
    }

    /// Ends the query: the first of the days reported, from which the
    /// weather is read.
    pub fn after_history<T>(reply: Result<Vec<T>, RestError<ApiError>>) -> (r: Result<
        T,
        ProviderError<ApiError>,
    >)
        ensures
            r == match reply {
                Err(cause) => Err::<T, ProviderError<ApiError>>(
                    ProviderError::Rest(Phase::WeatherFetch, cause),
                ),
                Ok(days) => if days@.len() == 0 {
                    Err(ProviderError::EmptyReply)
                } else {
                    Ok(days@[0])
                },
            },
    {
        first_of_reply(Phase::WeatherFetch, reply, ProviderError::EmptyReply)
    }

    /// The kind of weather that the condition code `code` stands for.
    pub fn weather_kind(code: u32) -> (r: WeatherKind)
        ensures
            r == kind_of_condition(code),
    {
        match code {
            1000 => WeatherKind::Clear,
            1003 | 1006 | 1009 | 1087 => WeatherKind::Clouds,
            1030 | 1135 | 1147 => WeatherKind::Fog,
            1063 | 1072 | 1150 | 1153 | 1168 | 1171 | 1180 | 1183 | 1186 | 1189 | 1192 | 1195
            | 1198 | 1201 | 1240 | 1243 | 1246 | 1273 | 1276 => WeatherKind::Rain,
            1066 | 1069 | 1114 | 1117 | 1204 | 1207 | 1210 | 1213 | 1216 | 1219 | 1222 | 1225
            | 1237 | 1249 | 1252 | 1255 | 1258 | 1261 | 1264 | 1279 | 1282 => WeatherKind::Snow,
            _ => WeatherKind::Unknown,
        }
    }
}

impl Provider for WeatherApi {
    fn new(config: &Section) -> (r: Result<Self, ConfigError>)
        ensures
            match r {
                Ok(provider) => config@.contains_key("apikey"@) && provider.apikey()
                    == config@["apikey"@],
                Err(e) => !config@.contains_key("apikey"@) && e@
                    == ConfigErrorView::MissingParameter("apikey"@),
            },
    {
        match config.get("apikey") {
            Some(apikey) => Ok(WeatherApi { apikey: apikey.clone() }),
            None => Err(ConfigError::MissingParameter(String::from_str("apikey"))),
        }
    }

    fn info() -> (r: ProviderInfo)
        ensures
            r@.description == "WeatherAPI (https://www.weatherapi.com/)"@,
            r@.params.len() == 1,
            r@.params[0].id == "apikey"@,
            r@.params[0].name == "User's API key"@,
            r@.params[0].description == "used to authenticate user requests"@,
    {
        let mut params: Vec<ParamDesc> = Vec::new();
        params.push(
            ParamDesc {
                id: "apikey",
                name: "User's API key",
                description: "used to authenticate user requests",
            },
        );
        ProviderInfo { description: "WeatherAPI (https://www.weatherapi.com/)", params }
    }
}

} // verus!
