use weather_cli::config::{Config, IniEvent, IniFault, IniVisitor, Section};

fn section(pairs: &[(&str, &str)]) -> Section {
    let mut section = Section::new();
    for (key, value) in pairs {
        section.insert(key.to_string(), value.to_string());
    }
    section
}

fn entries(section: &Section) -> Vec<(String, String)> {
    (0..section.len()).map(|i| (section.key_at(i).clone(), section.value_at(i).clone())).collect()
}

fn pairs(items: &[(&str, &str)]) -> Vec<(String, String)> {
    items.iter().map(|(k, v)| (k.to_string(), v.to_string())).collect()
}

fn names(config: &Config) -> Vec<String> {
    (0..config.sections.len()).map(|i| config.sections.key_at(i).clone()).collect()
}

#[test]
fn a_new_configuration_is_empty() {
    let config = Config::new();
    assert!(config.globals.is_empty());
    assert!(config.sections.is_empty());
    assert_eq!(config.to_string(), "");
}

#[test]
fn writes_globals_then_sections_by_name() {
    let mut config = Config::new();
    config.globals.insert("current".to_string(), "openweather".to_string());
    config.sections.insert("weatherapi".to_string(), section(&[("apikey", "W")]));
    config.sections.insert("accuweather".to_string(), section(&[("region", "eu"), ("apikey", "A")]));
    config.sections.insert("openweather".to_string(), section(&[("apikey", "O")]));
    assert_eq!(
        config.to_string(),
        "current = openweather\n\n\
         [accuweather]\napikey = A\nregion = eu\n\n\
         [openweather]\napikey = O\n\n\
         [weatherapi]\napikey = W\n\n"
    );
}

#[test]
fn does_not_write_an_empty_section() {
    let mut config = Config::new();
    config.sections.insert("empty".to_string(), Section::new());
    config.sections.insert("stub".to_string(), section(&[("apikey", "XYZ")]));
    assert_eq!(config.to_string(), "[stub]\napikey = XYZ\n\n");
}

#[test]
fn writes_sections_without_globals() {
    let mut config = Config::new();
    config.sections.insert("b".to_string(), section(&[("y", "2")]));
    config.sections.insert("a".to_string(), section(&[("x", "1")]));
    assert_eq!(config.to_string(), "[a]\nx = 1\n\n[b]\ny = 2\n\n");
}

#[test]
fn reads_an_ini_text() {
    let config = Config::from_str(
        "current = stub\n\n# providers follow\n[stub]\napikey = XYZ\n  region=eu  \n\n[other]\nkey = a = b\n",
    )
    .unwrap();
    assert_eq!(entries(&config.globals), pairs(&[("current", "stub")]));
    assert_eq!(names(&config), ["other", "stub"]);
    assert_eq!(entries(config.sections.get("stub").unwrap()), pairs(&[("apikey", "XYZ"), ("region", "eu")]));
    assert_eq!(entries(config.sections.get("other").unwrap()), pairs(&[("key", "a = b")]));
}

#[test]
fn reads_an_empty_text() {
    let config = Config::from_str("").unwrap();
    assert!(config.globals.is_empty());
    assert!(config.sections.is_empty());
}

#[test]
fn a_semicolon_begins_no_comment() {
    assert_eq!(Config::from_str("; not a comment\n").unwrap_err(), IniFault::InvalidLine(1));
    let config = Config::from_str(";key = value\n").unwrap();
    assert_eq!(entries(&config.globals), pairs(&[(";key", "value")]));
}

#[test]
fn reports_the_line_that_is_wrong() {
    assert_eq!(Config::from_str("a = 1\n\n[stub\n").unwrap_err(), IniFault::InvalidLine(3));
    assert_eq!(Config::from_str("[stub]\nno equals here\n").unwrap_err(), IniFault::InvalidLine(2));
}

#[test]
fn reads_back_the_configuration_it_writes() {
    let mut config = Config::new();
    config.globals.insert("current".to_string(), "stub".to_string());
    config.sections.insert("stub".to_string(), section(&[("apikey", "XYZ"), ("b", "2")]));
    config.sections.insert("accuweather".to_string(), section(&[("apikey", "k=v")]));
    let text = config.to_string();
    let read = Config::from_str(&text).unwrap();
    assert_eq!(read.to_string(), text);
    assert_eq!(entries(&read.globals), entries(&config.globals));
    assert_eq!(names(&read), names(&config));
    for name in names(&config) {
        assert_eq!(
            entries(read.sections.get(&name).unwrap()),
            entries(config.sections.get(&name).unwrap())
        );
    }
}

#[test]
fn makes_a_configuration_of_events() {
    let events = vec![
        IniEvent::Option("current".to_string(), "b".to_string()),
        IniEvent::Section("b".to_string()),
        IniEvent::Option("k".to_string(), "1".to_string()),
        IniEvent::Option("k".to_string(), "2".to_string()),
        IniEvent::Section("a".to_string()),
        IniEvent::Option("j".to_string(), "3".to_string()),
    ];
    let config = Config::from_events(&events);
    assert_eq!(entries(&config.globals), pairs(&[("current", "b")]));
    assert_eq!(names(&config), ["a", "b"]);
    assert_eq!(entries(config.sections.get("a").unwrap()), pairs(&[("j", "3")]));
    assert_eq!(entries(config.sections.get("b").unwrap()), pairs(&[("k", "2")]));
}

#[test]
fn no_events_make_an_empty_configuration() {
    let config = Config::from_events(&Vec::new());
    assert!(config.globals.is_empty());
    assert!(config.sections.is_empty());
}

#[test]
fn a_later_section_takes_the_place_of_an_earlier_one_of_its_name() {
    let config = Config::from_str("[s]\na = 1\nb = 2\n[t]\nc = 3\n[s]\nd = 4\n").unwrap();
    assert_eq!(names(&config), ["s", "t"]);
    assert_eq!(entries(config.sections.get("s").unwrap()), pairs(&[("d", "4")]));
}

#[test]
fn a_heading_without_entries_makes_no_section() {
    let config = Config::from_str("[empty]\n[full]\nk = v\n[last]\n").unwrap();
    assert_eq!(names(&config), ["full"]);
}

#[test]
fn entries_after_a_forgotten_heading_stay_under_the_next() {
    let mut visitor = IniVisitor::new();
    visitor.section("first");
    visitor.section("second");
    visitor.option("k", "v");
    let config = visitor.build();
    assert_eq!(names(&config), ["second"]);
    assert!(config.globals.is_empty());
}

#[test]
fn flushing_puts_entries_away_once() {
    let mut visitor = IniVisitor::new();
    visitor.option("g", "1");
    visitor.flush_current();
    visitor.flush_current();
    visitor.section("s");
    visitor.option("k", "v");
    visitor.flush_current();
    visitor.option("late", "2");
    let config = visitor.build();
    assert_eq!(entries(&config.globals), pairs(&[("late", "2")]));
    assert_eq!(names(&config), ["s"]);
    assert_eq!(entries(config.sections.get("s").unwrap()), pairs(&[("k", "v")]));
}

#[test]
fn a_visitor_given_nothing_builds_nothing() {
    let config = IniVisitor::new().build();
    assert_eq!(config.to_string(), "");
}
