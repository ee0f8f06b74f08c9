use weather_cli::config::Section;
use weather_cli::date::Date;
use weather_cli::provider::accuweather::{self, AccuWeather, PrecipitationType};
use weather_cli::provider::openweather::{self, OpenWeather};
use weather_cli::provider::weatherapi::{self, WeatherApi};
use weather_cli::provider::{
    first_of_reply, payload_of_reply, ConfigError, ParamDesc, Phase, Provider, ProviderError,
    ProviderInfo, WeatherKind,
};
use weather_cli::rest::RestError;

fn section(pairs: &[(&str, &str)]) -> Section {
    let mut section = Section::new();
    for (key, value) in pairs {
        section.insert(key.to_string(), value.to_string());
    }
    section
}

fn ids(info: &ProviderInfo) -> Vec<&'static str> {
    info.params.iter().map(|p| p.id).collect()
}

fn has_distinct_ids(info: &ProviderInfo) -> bool {
    let all = ids(info);
    all.iter().enumerate().all(|(i, id)| !all[..i].contains(id))
}

#[test]
fn shows_each_kind_of_weather_by_its_word() {
    let words = [
        (WeatherKind::Unknown, "unknown"),
        (WeatherKind::Clear, "clear"),
        (WeatherKind::Clouds, "clouds"),
        (WeatherKind::Fog, "fog"),
        (WeatherKind::Rain, "raining"),
        (WeatherKind::Snow, "snow"),
    ];
    for (kind, word) in words {
        assert_eq!(kind.as_str(), word);
        assert_eq!(kind.to_string(), word);
    }
}

#[test]
fn each_provider_asks_for_distinct_entries() {
    for info in [AccuWeather::info(), OpenWeather::info(), WeatherApi::info()] {
        assert!(has_distinct_ids(&info));
        assert_eq!(ids(&info), ["apikey"]);
        assert_eq!(info.params[0].name, "User's API key");
        assert_eq!(info.params[0].description, "used to authenticate user requests");
    }
}

#[test]
fn each_provider_says_what_it_is() {
    assert_eq!(AccuWeather::info().description, "AccuWeather (https://www.accuweather.com/)");
    assert_eq!(
        OpenWeather::info().description,
        "OpenWeather (https://openweathermap.org/); doesn't support specific dates, only current conditions"
    );
    assert_eq!(WeatherApi::info().description, "WeatherAPI (https://www.weatherapi.com/)");
}

#[test]
fn a_provider_is_not_built_without_its_key() {
    let missing = ConfigError::MissingParameter("apikey".to_string());
    let without = section(&[("APIKEY", "x"), ("region", "eu")]);
    assert_eq!(AccuWeather::new(&without).unwrap_err(), missing);
    assert_eq!(OpenWeather::new(&without).unwrap_err(), missing);
    assert_eq!(WeatherApi::new(&without).unwrap_err(), missing);
    assert_eq!(AccuWeather::new(&Section::new()).unwrap_err(), missing);
}

#[test]
fn checks_a_section_against_the_entries_asked_for() {
    let info = ProviderInfo {
        description: "two entries",
        params: vec![
            ParamDesc { id: "apikey", name: "Key", description: "" },
            ParamDesc { id: "region", name: "Region", description: "" },
        ],
    };
    assert_eq!(info.check(&section(&[("region", "eu"), ("apikey", "x"), ("more", "y")])), Ok(()));
    assert_eq!(
        info.check(&section(&[("apikey", "x")])),
        Err(ConfigError::MissingParameter("region".to_string()))
    );
    assert_eq!(
        info.check(&section(&[("region", "eu")])),
        Err(ConfigError::MissingParameter("apikey".to_string()))
    );
    assert_eq!(
        info.check(&Section::new()),
        Err(ConfigError::MissingParameter("apikey".to_string()))
    );
    let none = ProviderInfo { description: "no entries", params: vec![] };
    assert_eq!(none.check(&Section::new()), Ok(()));
}

#[test]
fn accuweather_builds_its_addresses() {
    let provider = AccuWeather::new(&section(&[("apikey", "KEY")])).unwrap();
    assert_eq!(
        provider.location_url("London"),
        "https://dataservice.accuweather.com/locations/v1/cities/search?apikey=KEY&q=London"
    );
    assert_eq!(
        provider.conditions_url("328328"),
        "http://dataservice.accuweather.com/currentconditions/v1/328328?apikey=KEY&details=true"
    );
}

#[test]
fn accuweather_begins_with_the_location_search() {
    let provider = AccuWeather::new(&section(&[("apikey", "KEY")])).unwrap();
    assert_eq!(
        provider.begin("New York", None),
        Ok("https://dataservice.accuweather.com/locations/v1/cities/search?apikey=KEY&q=New York"
            .to_string())
    );
}

#[test]
fn accuweather_knows_no_dates() {
    let provider = AccuWeather::new(&section(&[("apikey", "KEY")])).unwrap();
    let date = Date { year: 2024, month: 1, day: 2 };
    assert_eq!(provider.begin("London", Some(date)), Err(ProviderError::UnsupportedDate));
}

#[test]
fn accuweather_asks_for_the_conditions_at_the_first_place_found() {
    let provider = AccuWeather::new(&section(&[("apikey", "KEY")])).unwrap();
    let places = vec![
        accuweather::Location { key: "328328".to_string() },
        accuweather::Location { key: "2".to_string() },
    ];
    assert_eq!(
        provider.after_location_lookup(Ok(places)),
        Ok("http://dataservice.accuweather.com/currentconditions/v1/328328?apikey=KEY&details=true"
            .to_string())
    );
}

#[test]
fn accuweather_reports_a_place_that_is_not_found() {
    let provider = AccuWeather::new(&section(&[("apikey", "KEY")])).unwrap();
    assert_eq!(provider.after_location_lookup(Ok(vec![])), Err(ProviderError::LocationNotFound));
}

#[test]
fn accuweather_says_at_which_step_a_request_failed() {
    let provider = AccuWeather::new(&section(&[("apikey", "KEY")])).unwrap();
    let failure =
        || accuweather::ApiError { code: "Unauthorized".to_string(), message: "bad key".to_string() };
    assert_eq!(
        provider.after_location_lookup(Err(RestError::Api(failure()))),
        Err(ProviderError::Rest(Phase::LocationLookup, RestError::Api(failure())))
    );
    assert_eq!(
        AccuWeather::after_conditions::<u8>(Err(RestError::Transport("down".to_string()))),
        Err(ProviderError::Rest(Phase::WeatherFetch, RestError::Transport("down".to_string())))
    );
}

#[test]
fn accuweather_reads_the_first_conditions_reported() {
    assert_eq!(AccuWeather::after_conditions(Ok(vec![7, 8, 9])), Ok(7));
    assert_eq!(AccuWeather::after_conditions::<u8>(Ok(vec![])), Err(ProviderError::EmptyReply));
}

#[test]
fn accuweather_tells_the_kind_of_weather() {
    assert_eq!(AccuWeather::weather_kind(Some(PrecipitationType::Rain), false), WeatherKind::Rain);
    assert_eq!(AccuWeather::weather_kind(Some(PrecipitationType::Rain), true), WeatherKind::Rain);
    assert_eq!(AccuWeather::weather_kind(Some(PrecipitationType::Snow), true), WeatherKind::Snow);
    assert_eq!(AccuWeather::weather_kind(Some(PrecipitationType::Ice), false), WeatherKind::Snow);
    assert_eq!(AccuWeather::weather_kind(Some(PrecipitationType::Mixed), false), WeatherKind::Snow);
    assert_eq!(AccuWeather::weather_kind(None, true), WeatherKind::Clouds);
    assert_eq!(AccuWeather::weather_kind(None, false), WeatherKind::Clear);
}

#[test]
fn accuweather_shows_a_failure() {
    let failure =
        accuweather::ApiError { code: "Unauthorized".to_string(), message: "bad key".to_string() };
    assert_eq!(failure.to_string(), "API error 'Unauthorized': bad key");
}

#[test]
fn openweather_builds_its_addresses() {
    let provider = OpenWeather::new(&section(&[("apikey", "KEY")])).unwrap();
    assert_eq!(
        provider.location_url("London"),
        "https://api.openweathermap.org/geo/1.0/direct?q=London&limit=1&appid=KEY"
    );
    let place = openweather::Coords { lat: "51.5073".to_string(), lon: "-0.1276".to_string() };
    assert_eq!(
        provider.weather_url(&place),
        "https://api.openweathermap.org/data/2.5/weather?appid=KEY&units=metric&lat=51.5073&lon=-0.1276"
    );
}

#[test]
fn openweather_knows_no_dates() {
    let provider = OpenWeather::new(&section(&[("apikey", "KEY")])).unwrap();
    let date = Date { year: 2024, month: 1, day: 2 };
    assert_eq!(provider.begin("London", Some(date)), Err(ProviderError::UnsupportedDate));
    assert_eq!(
        provider.begin("London", None),
        Ok("https://api.openweathermap.org/geo/1.0/direct?q=London&limit=1&appid=KEY".to_string())
    );
}

#[test]
fn openweather_asks_for_the_weather_at_the_first_place_found() {
    let provider = OpenWeather::new(&section(&[("apikey", "KEY")])).unwrap();
    let places = vec![
        openweather::Coords { lat: "1.0000".to_string(), lon: "2.0000".to_string() },
        openweather::Coords { lat: "3.0000".to_string(), lon: "4.0000".to_string() },
    ];
    assert_eq!(
        provider.after_location_lookup(Ok(places)),
        Ok("https://api.openweathermap.org/data/2.5/weather?appid=KEY&units=metric&lat=1.0000&lon=2.0000"
            .to_string())
    );
    assert_eq!(provider.after_location_lookup(Ok(vec![])), Err(ProviderError::LocationNotFound));
    assert_eq!(
        provider.after_location_lookup(Err(RestError::Transport("down".to_string()))),
        Err(ProviderError::Rest(Phase::LocationLookup, RestError::Transport("down".to_string())))
    );
}

#[test]
fn openweather_hands_on_the_weather() {
    assert_eq!(OpenWeather::after_weather(Ok("payload")), Ok("payload"));
    let failure = || openweather::ApiError { cod: 401, message: "Invalid API key".to_string() };
    assert_eq!(
        OpenWeather::after_weather::<u8>(Err(RestError::Api(failure()))),
        Err(ProviderError::Rest(Phase::WeatherFetch, RestError::Api(failure())))
    );
}

#[test]
fn openweather_tells_the_kind_of_weather() {
    for id in 0..1000u32 {
        let expected = match id {
            200..=299 | 300..=399 | 500..=599 => WeatherKind::Rain,
            600..=699 => WeatherKind::Snow,
            800 => WeatherKind::Clear,
            801..=809 => WeatherKind::Clouds,
            700..=799 => WeatherKind::Fog,
            _ => WeatherKind::Unknown,
        };
        assert_eq!(OpenWeather::weather_kind(&vec![id, 800]), expected, "{id}");
    }
    assert_eq!(OpenWeather::weather_kind(&vec![]), WeatherKind::Unknown);
    assert_eq!(OpenWeather::weather_kind(&vec![u32::MAX]), WeatherKind::Unknown);
}

#[test]
fn openweather_shows_a_failure() {
    let failure = openweather::ApiError { cod: 401, message: "Invalid API key".to_string() };
    assert_eq!(failure.to_string(), "API error 401: Invalid API key");
    let failure = openweather::ApiError { cod: -1, message: String::new() };
    assert_eq!(failure.to_string(), "API error -1: ");
}

#[test]
fn weatherapi_builds_its_address() {
    let provider = WeatherApi::new(&section(&[("apikey", "KEY")])).unwrap();
    assert_eq!(
        provider.history_url("London", Date { year: 2024, month: 1, day: 2 }),
        "https://api.weatherapi.com/v1/history.json?key=KEY&q=London&dt=2024-01-02"
    );
    assert_eq!(
        provider.history_url("Paris", Date { year: 1999, month: 12, day: 31 }),
        "https://api.weatherapi.com/v1/history.json?key=KEY&q=Paris&dt=1999-12-31"
    );
}

#[test]
fn weatherapi_writes_the_day_with_zeros_in_front() {
    let provider = WeatherApi::new(&section(&[("apikey", "k")])).unwrap();
    assert_eq!(
        provider.begin("London", Some(Date { year: 2023, month: 1, day: 5 }), Date { year: 1, month: 1, day: 1 }),
        "https://api.weatherapi.com/v1/history.json?key=k&q=London&dt=2023-01-05"
    );
    assert_eq!(
        provider.history_url("Rome", Date { year: 476, month: 9, day: 4 }),
        "https://api.weatherapi.com/v1/history.json?key=k&q=Rome&dt=0476-09-04"
    );
}

#[test]
fn weatherapi_asks_for_the_day_given_or_the_current_one() {
    let provider = WeatherApi::new(&section(&[("apikey", "KEY")])).unwrap();
    let today = Date { year: 2026, month: 10, day: 28 };
    let asked = Date { year: 2024, month: 1, day: 2 };
    assert_eq!(
        provider.begin("London", Some(asked), today),
        "https://api.weatherapi.com/v1/history.json?key=KEY&q=London&dt=2024-01-02"
    );
    assert_eq!(
        provider.begin("London", None, today),
        "https://api.weatherapi.com/v1/history.json?key=KEY&q=London&dt=2026-10-28"
    );
}

#[test]
fn weatherapi_reads_the_first_day_reported() {
    assert_eq!(WeatherApi::after_history(Ok(vec!["monday", "tuesday"])), Ok("monday"));
    assert_eq!(WeatherApi::after_history::<u8>(Ok(vec![])), Err(ProviderError::EmptyReply));
    assert_eq!(
        WeatherApi::after_history::<u8>(Err(RestError::UnexpectedSuccessShape(
            "missing field".to_string(),
            "{}".to_string()
        ))),
        Err(ProviderError::Rest(
            Phase::WeatherFetch,
            RestError::UnexpectedSuccessShape("missing field".to_string(), "{}".to_string())
        ))
    );
}

#[test]
fn weatherapi_tells_the_kind_of_weather() {
    for code in 900..1400u32 {
        let expected = match code {
            1000 => WeatherKind::Clear,
            1003 | 1006 | 1009 | 1087 => WeatherKind::Clouds,
            1030 | 1135 | 1147 => WeatherKind::Fog,
            1063 | 1072 | 1150 | 1153 | 1168 | 1171 | 1180 | 1183 | 1186 | 1189 | 1192 | 1195
            | 1198 | 1201 | 1240 | 1243 | 1246 | 1273 | 1276 => WeatherKind::Rain,
            1066 | 1069 | 1114 | 1117 | 1204 | 1207 | 1210 | 1213 | 1216 | 1219 | 1222 | 1225
            | 1237 | 1249 | 1252 | 1255 | 1258 | 1261 | 1264 | 1279 | 1282 => WeatherKind::Snow,
            _ => WeatherKind::Unknown,
        };
        assert_eq!(WeatherApi::weather_kind(code), expected, "{code}");
    }
    assert_eq!(WeatherApi::weather_kind(0), WeatherKind::Unknown);
}

#[test]
fn weatherapi_shows_a_failure() {
    let failure = weatherapi::ApiError {
        error: weatherapi::ApiErrorInner { code: 2006, message: "API key is invalid.".to_string() },
    };
    assert_eq!(failure.to_string(), "API error 2006: API key is invalid.");
}

#[test]
fn takes_the_first_item_of_a_reply() {
    let none = || ProviderError::<u8>::LocationNotFound;
    assert_eq!(first_of_reply(Phase::LocationLookup, Ok(vec!['a', 'b', 'c']), none()), Ok('a'));
    assert_eq!(first_of_reply(Phase::LocationLookup, Ok(vec!['z']), none()), Ok('z'));
    assert_eq!(first_of_reply::<char, u8>(Phase::LocationLookup, Ok(vec![]), none()), Err(none()));
    assert_eq!(
        first_of_reply::<char, u8>(Phase::WeatherFetch, Err(RestError::Api(3)), none()),
        Err(ProviderError::Rest(Phase::WeatherFetch, RestError::Api(3)))
    );
    assert_eq!(payload_of_reply::<char, u8>(Phase::WeatherFetch, Ok('p')), Ok('p'));
    assert_eq!(
        payload_of_reply::<char, u8>(Phase::LocationLookup, Err(RestError::Api(3))),
        Err(ProviderError::Rest(Phase::LocationLookup, RestError::Api(3)))
    );
}
