use opendr::ldap_url::{
    LdapUrl, LdapUrlError, LdapUrlExtension, LdapUrlScheme, LdapUrlScope, UrlParts,
};

#[test]
fn parse_full_rfc4516_url_and_render_canonical_form() {
    let url = LdapUrl::parse(
        "ldap://directory.example.com:1389/ou=People,dc=example,dc=org?cn,sn,mail?sub?(objectClass=person)?!bindname=cn%3Dproxy%2Cdc%3Dexample%2Cdc%3Dorg,x-chain",
    )
    .unwrap();

    assert_eq!(url.scheme, LdapUrlScheme::Ldap);
    assert_eq!(url.host.as_deref(), Some("directory.example.com"));
    assert_eq!(url.port, Some(1389));
    assert_eq!(url.dn, "ou=People,dc=example,dc=org");
    assert_eq!(url.attributes, vec!["cn", "sn", "mail"]);
    assert_eq!(url.scope, Some(LdapUrlScope::Sub));
    assert_eq!(url.filter.as_deref(), Some("(objectClass=person)"));
    assert_eq!(
        url.extensions,
        vec![
            LdapUrlExtension {
                critical: true,
                name: "bindname".to_string(),
                value: Some("cn=proxy,dc=example,dc=org".to_string()),
            },
            LdapUrlExtension {
                critical: false,
                name: "x-chain".to_string(),
                value: None,
            },
        ]
    );

    let rendered = url.to_url_string();
    assert_eq!(
        rendered,
        "ldap://directory.example.com:1389/ou=People,dc=example,dc=org?cn,sn,mail?sub?%28objectClass%3Dperson%29?!bindname=cn%3Dproxy%2Cdc%3Dexample%2Cdc%3Dorg,x-chain"
    );
    assert_eq!(LdapUrl::parse(&rendered).unwrap(), url);
}

#[test]
fn parse_hostless_url_with_empty_attributes_and_scope_filter() {
    let url = LdapUrl::parse("ldaps:///dc=example,dc=org??one?%28uid%3Dalice%29").unwrap();

    assert_eq!(url.scheme, LdapUrlScheme::Ldaps);
    assert_eq!(url.host, None);
    assert_eq!(url.port, None);
    assert_eq!(url.dn, "dc=example,dc=org");
    assert!(url.attributes.is_empty());
    assert_eq!(url.scope, Some(LdapUrlScope::One));
    assert_eq!(url.filter.as_deref(), Some("(uid=alice)"));
    assert_eq!(
        url.to_url_string(),
        "ldaps:///dc=example,dc=org??one?%28uid%3Dalice%29"
    );
}

#[test]
fn parse_url_without_dn_defaults_to_empty_dn() {
    let url = LdapUrl::parse("ldap://directory.example.com").unwrap();

    assert_eq!(url.host.as_deref(), Some("directory.example.com"));
    assert_eq!(url.dn, "");
    assert_eq!(url.to_url_string(), "ldap://directory.example.com/");
}

#[test]
fn rejects_invalid_selector_components() {
    assert!(matches!(
        LdapUrl::parse("ldap://directory.example.com/dc=example,dc=org??children"),
        Err(LdapUrlError::InvalidScope { .. })
    ));
    assert!(matches!(
        LdapUrl::parse("ldap://directory.example.com/dc=example,dc=org?cn,,sn"),
        Err(LdapUrlError::EmptyAttribute)
    ));
    assert!(matches!(
        LdapUrl::parse("ldap://directory.example.com/dc=example,dc=org???objectClass=*"),
        Err(LdapUrlError::InvalidFilter { .. })
    ));
    assert!(matches!(
        LdapUrl::parse(
            "ldap://directory.example.com/dc=example,dc=org?cn?sub?(objectClass=*)?x?extra"
        ),
        Err(LdapUrlError::TooManyComponents { .. })
    ));
}

#[test]
fn rejects_bad_syntax() {
    assert!(matches!(
        LdapUrl::parse("http://directory.example.com/dc=example,dc=org"),
        Err(LdapUrlError::UnsupportedScheme { .. })
    ));
    assert!(matches!(
        LdapUrl::parse("ldap://user@directory.example.com/dc=example,dc=org"),
        Err(LdapUrlError::UnsupportedUserInfo)
    ));
    assert!(matches!(
        LdapUrl::parse("ldap://directory.example.com/dc=example%ZZ,dc=org"),
        Err(LdapUrlError::InvalidPercentEncoding { .. })
    ));
}

#[test]
fn schemes_and_scopes_have_their_names_and_ports() {
    assert_eq!(LdapUrlScheme::Ldap.as_str(), "ldap");
    assert_eq!(LdapUrlScheme::Ldap.default_port(), 389);
    assert_eq!(LdapUrlScheme::Ldaps.default_port(), 636);
    assert_eq!(LdapUrlScope::Base.as_str(), "base");
    assert_eq!(LdapUrlScope::from_str("one"), Ok(LdapUrlScope::One));
    assert!(LdapUrlScope::from_str("children").is_err());
}

fn parts(path: &str, query: Option<&str>) -> UrlParts {
    UrlParts {
        scheme: "ldap".to_string(),
        username: String::new(),
        password: None,
        host: Some("example.com".to_string()),
        port: None,
        path: path.to_string(),
        query: query.map(|q| q.to_string()),
    }
}

#[test]
fn parts_are_decoded() {
    let url = LdapUrl::from_parts(parts("/dc=a%2Cb", Some("cn??(cn=x)"))).unwrap();
    assert_eq!(url.dn, "dc=a,b");
    assert_eq!(url.attributes, vec!["cn"]);
    assert_eq!(url.scope, None);
    assert_eq!(url.filter.as_deref(), Some("(cn=x)"));
}

#[test]
fn bytes_that_are_no_text_are_refused() {
    let error = LdapUrl::from_parts(parts("/dc=%FF", None)).unwrap_err();
    assert!(matches!(error, LdapUrlError::InvalidUtf8 { .. }));
    assert!(!error.message().is_empty());
}

#[test]
fn a_text_that_is_no_address_is_refused() {
    assert!(LdapUrl::parse("not an address").is_err());
}

#[test]
fn a_rendered_address_is_read_as_it_was() {
    let url = LdapUrl {
        scheme: LdapUrlScheme::Ldap,
        host: Some("example.com".to_string()),
        port: Some(1389),
        dn: "ou=R&D,dc=example".to_string(),
        attributes: vec!["cn".to_string()],
        scope: Some(LdapUrlScope::Base),
        filter: Some("(cn=a?b)".to_string()),
        extensions: vec![LdapUrlExtension {
            critical: false,
            name: "x".to_string(),
            value: Some("1,2".to_string()),
        }],
    };
    assert_eq!(LdapUrl::parse(&url.to_url_string()).unwrap(), url);
}

#[test]
fn what_is_written_of_a_url_is_read_as_that_url() {
    for text in [
        "ldap://directory.example.com:1389/ou=People,dc=example,dc=org?cn,sn?sub?(a=b)?!x=%2C,y",
        "ldaps://[2001:DB8::0:1]:636/dc=a",
        "ldap:///",
        "ldap://host",
        "ldap://H%41st/cn=a%2fb%20c%3F%23?%2b??(cn=%C3%A9)",
        "ldap://host/...",
        "ldap:dc=a",
        "LDAP://host/dc=a????e=",
    ] {
        let url = LdapUrl::parse(text).unwrap();
        assert_eq!(LdapUrl::parse(&url.to_url_string()), Ok(url), "{}", text);
    }
}

#[test]
fn a_name_of_dots_is_not_read_as_written() {
    let url = LdapUrl {
        scheme: LdapUrlScheme::Ldap,
        host: Some("host".to_string()),
        port: None,
        dn: "..".to_string(),
        attributes: vec![],
        scope: None,
        filter: None,
        extensions: vec![],
    };
    assert_eq!(LdapUrl::parse(&url.to_url_string()).unwrap().dn, "");
}

#[test]
fn dots_in_the_path_of_a_text_with_slashes_are_taken_out() {
    for path in [".", "..", "%2e", "%2E.", ".%2e", "%2e%2E", "a/..", "../.", "a/../..", "./%2e"] {
        for start in ["ldap://host/", "ldaps:///"] {
            let url = LdapUrl::parse(&format!("{}{}", start, path)).unwrap();
            assert_eq!(url.dn, "", "{}{}", start, path);
            assert_eq!(LdapUrl::parse(&url.to_url_string()), Ok(url));
        }
    }
    let kept = LdapUrl::parse("ldap://host/../dc=a").unwrap();
    assert_eq!(kept.dn, "dc=a");
    assert_eq!(LdapUrl::parse("ldap:..").unwrap().dn, "..");
}
