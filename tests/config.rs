use clap::{App, Arg, ArgMatches};
use petra::config::{
    announcement, listen_address, load, parse_matches, ConfigError, Setting, DEFAULT_DIR,
    DEFAULT_PORT, DIR_ARG, PORT_ARG,
};
use petra::port::{parse_port, port_text, PortError};

fn matches_from(args: Vec<&str>) -> ArgMatches<'static> {
    App::new("petra")
        .arg(
            Arg::with_name(DIR_ARG)
                .short("d")
                .long("dir")
                .takes_value(true)
                .default_value(DEFAULT_DIR),
        )
        .arg(
            Arg::with_name(PORT_ARG)
                .short("p")
                .long("port")
                .takes_value(true)
                .default_value(DEFAULT_PORT),
        )
        .get_matches_from(args)
}

fn bare_matches(args: Vec<&str>) -> ArgMatches<'static> {
    App::new("petra")
        .arg(Arg::with_name(DIR_ARG).short("d").long("dir").takes_value(true))
        .arg(Arg::with_name(PORT_ARG).short("p").long("port").takes_value(true))
        .get_matches_from(args)
}

#[test]
fn parse_port_accepts_every_bound() {
    assert_eq!(parse_port("0"), Ok(0));
    assert_eq!(parse_port("65535"), Ok(65535));
    assert_eq!(parse_port("3000"), Ok(3000));
    assert_eq!(parse_port("+80"), Ok(80));
    assert_eq!(parse_port("00080"), Ok(80));
}

#[test]
fn parse_port_refuses_non_numeric() {
    assert_eq!(parse_port("abc"), Err(PortError::InvalidDigit));
    assert_eq!(parse_port("-1"), Err(PortError::InvalidDigit));
    assert_eq!(parse_port("+"), Err(PortError::InvalidDigit));
    assert_eq!(parse_port(" 80"), Err(PortError::InvalidDigit));
    assert_eq!(parse_port("80 "), Err(PortError::InvalidDigit));
    assert_eq!(parse_port("1a00000"), Err(PortError::InvalidDigit));
}

#[test]
fn parse_port_refuses_out_of_range() {
    assert_eq!(parse_port("70000"), Err(PortError::TooLarge));
    assert_eq!(parse_port("65536"), Err(PortError::TooLarge));
    assert_eq!(parse_port("70000a"), Err(PortError::TooLarge));
}

#[test]
fn parse_port_refuses_empty() {
    assert_eq!(parse_port(""), Err(PortError::Empty));
}

#[test]
fn parse_port_agrees_with_std() {
    for s in ["0", "1", "+7", "-0", "-", "", "65535", "65536", "99999", "x1", "1x", "123456"] {
        assert_eq!(parse_port(s).is_ok(), s.parse::<u16>().is_ok(), "{}", s);
        if let Ok(v) = s.parse::<u16>() {
            assert_eq!(parse_port(s), Ok(v));
        }
    }
}

#[test]
fn port_text_round_trips_every_port() {
    for p in 0..=u16::MAX {
        let t = port_text(p);
        assert_eq!(t, p.to_string());
        assert_eq!(parse_port(&t), Ok(p));
    }
}

#[test]
fn load_gives_port_and_dir() {
    let c = load(Some("8080"), Some("/srv/www")).unwrap();
    assert_eq!(c.port, 8080);
    assert_eq!(c.dir, "/srv/www");
}

#[test]
fn load_reports_invalid_port() {
    assert_eq!(
        load(Some("abc"), Some(".")).unwrap_err(),
        ConfigError::InvalidPort(PortError::InvalidDigit)
    );
    assert_eq!(
        load(Some("70000"), Some(".")).unwrap_err(),
        ConfigError::InvalidPort(PortError::TooLarge)
    );
    assert_eq!(
        load(Some("-1"), None).unwrap_err(),
        ConfigError::InvalidPort(PortError::InvalidDigit)
    );
}

#[test]
fn load_reports_missing_settings() {
    assert_eq!(
        load(None, Some(".")).unwrap_err(),
        ConfigError::MissingArgument(Setting::Port)
    );
    assert_eq!(
        load(Some("3000"), None).unwrap_err(),
        ConfigError::MissingArgument(Setting::Dir)
    );
    assert_eq!(
        load(None, None).unwrap_err(),
        ConfigError::MissingArgument(Setting::Port)
    );
}

#[test]
fn default_invocation_serves_working_directory_on_3000() {
    let c = parse_matches(&matches_from(vec!["petra"])).unwrap();
    assert_eq!(c.port, 3000);
    assert_eq!(c.dir, ".");
}

#[test]
fn matches_with_long_and_short_options() {
    let c = parse_matches(&matches_from(vec!["petra", "--port", "8000", "--dir", "/tmp"])).unwrap();
    assert_eq!(c.port, 8000);
    assert_eq!(c.dir, "/tmp");
    let c = parse_matches(&matches_from(vec!["petra", "-p", "0", "-d", "site"])).unwrap();
    assert_eq!(c.port, 0);
    assert_eq!(c.dir, "site");
}

#[test]
fn matches_with_bad_port() {
    for bad in ["abc", "70000", "-1"] {
        let opt = format!("--port={}", bad);
        let m = matches_from(vec!["petra", opt.as_str()]);
        assert!(matches!(parse_matches(&m), Err(ConfigError::InvalidPort(_))), "{}", bad);
    }
}

#[test]
fn matches_without_values() {
    let m = bare_matches(vec!["petra", "-d", "x"]);
    assert_eq!(
        parse_matches(&m).unwrap_err(),
        ConfigError::MissingArgument(Setting::Port)
    );
    let m = bare_matches(vec!["petra", "-p", "81"]);
    assert_eq!(
        parse_matches(&m).unwrap_err(),
        ConfigError::MissingArgument(Setting::Dir)
    );
}

#[test]
fn error_messages() {
    assert_eq!(
        ConfigError::MissingArgument(Setting::Port).message(),
        "arg parse error, missing arg: 'port'"
    );
    assert_eq!(
        ConfigError::MissingArgument(Setting::Dir).message(),
        "arg parse error, missing arg 'dir'"
    );
    let e = "abc".parse::<u16>().unwrap_err();
    assert_eq!(
        ConfigError::InvalidPort(PortError::InvalidDigit).message(),
        format!("arg parse error, {}", e)
    );
    let e = "70000".parse::<u16>().unwrap_err();
    assert_eq!(
        ConfigError::InvalidPort(PortError::TooLarge).message(),
        format!("arg parse error, {}", e)
    );
    let e = "".parse::<u16>().unwrap_err();
    assert_eq!(
        ConfigError::InvalidPort(PortError::Empty).message(),
        format!("arg parse error, {}", e)
    );
}

#[test]
fn address_and_announcement() {
    assert_eq!(listen_address(3000), "127.0.0.1:3000");
    assert_eq!(listen_address(0), "127.0.0.1:0");
    assert_eq!(listen_address(65535), "127.0.0.1:65535");
    assert_eq!(announcement(8080), "start petra server on http://127.0.0.1:8080");
}
