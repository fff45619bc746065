use hafox::smartfox::{base_url, endpoint_url, settings_url, Error};

#[test]
fn base_url_parses_absolute_urls() {
    let base = base_url("http://smartfox").expect("URL should parse");
    assert_eq!(base.as_str(), "http://smartfox/");
    let base = base_url("http://192.168.1.5:8080/fox/").expect("URL should parse");
    assert_eq!(base.as_str(), "http://192.168.1.5:8080/fox/");
}

#[test]
fn base_url_rejects_relative_and_malformed_text() {
    assert!(matches!(
        base_url("smartfox"),
        Err(Error::InvalidBaseUrl { source: url::ParseError::RelativeUrlWithoutBase })
    ));
    assert!(matches!(base_url("http://[::1"), Err(Error::InvalidBaseUrl { source: url::ParseError::InvalidIpv6Address })));
    assert!(matches!(base_url(""), Err(Error::InvalidBaseUrl { .. })));
}

#[test]
fn endpoint_urls_join_the_base() {
    let base = base_url("http://smartfox").unwrap();
    assert_eq!(endpoint_url(&base, "values.xml").unwrap().as_str(), "http://smartfox/values.xml");
    assert_eq!(
        endpoint_url(&base, "settings_values.xml").unwrap().as_str(),
        "http://smartfox/settings_values.xml"
    );
    assert_eq!(settings_url(&base).unwrap().as_str(), "http://smartfox/setallg.cgi");
    let nested = base_url("http://smartfox/fox/").unwrap();
    assert_eq!(endpoint_url(&nested, "values.xml").unwrap().as_str(), "http://smartfox/fox/values.xml");
    assert_eq!(settings_url(&nested).unwrap().as_str(), "http://smartfox/fox/setallg.cgi");
}

#[test]
fn endpoint_url_join_failure_is_values_url_error() {
    let base = base_url("http://smartfox").unwrap();
    assert!(matches!(
        endpoint_url(&base, "http://[::1"),
        Err(Error::ValuesUrl { source: url::ParseError::InvalidIpv6Address })
    ));
}
