use meta_feeder_sdk::licence::licence_from_url;

fn id(url: &str) -> Option<String> {
    licence_from_url(url)
}

#[test]
fn creative_commons_urls_name_variant_and_version() {
    assert_eq!(id("https://creativecommons.org/licenses/by-nc-sa/4.0/").as_deref(), Some("CC-BY-NC-SA-4.0"));
    assert_eq!(id("http://creativecommons.org/licenses/by/3.0").as_deref(), Some("CC-BY-3.0"));
}

#[test]
fn a_jurisdiction_is_dropped() {
    assert_eq!(id("http://creativecommons.org/licenses/by-sa/2.5/it/").as_deref(), Some("CC-BY-SA-2.5"));
}

#[test]
fn a_missing_version_is_four() {
    assert_eq!(id("https://creativecommons.org/licenses/by/").as_deref(), Some("CC-BY-4.0"));
}

#[test]
fn public_domain_urls_have_their_own_names() {
    assert_eq!(id("https://creativecommons.org/publicdomain/zero/1.0/").as_deref(), Some("CC0-1.0"));
    assert_eq!(id("http://creativecommons.org/publicdomain/mark/1.0/").as_deref(), Some("PublicDomain"));
}

#[test]
fn what_names_no_licence_has_no_identifier() {
    assert_eq!(id(""), None);
    assert_eq!(id("   "), None);
    assert_eq!(id("///"), None);
    assert_eq!(id("https://example.org/terms"), None);
    assert_eq!(id("https://creativecommons.org/licenses/"), None);
    assert_eq!(id("https://creativecommons.org/licenses//4.0"), None);
}

#[test]
fn scheme_slashes_case_and_white_space_do_not_matter() {
    let expected = Some("CC-BY-NC-4.0");
    for url in [
        "http://creativecommons.org/licenses/by-nc/4.0",
        "https://creativecommons.org/licenses/by-nc/4.0",
        "https://creativecommons.org/licenses/by-nc/4.0/",
        "https://creativecommons.org/licenses/by-nc/4.0///",
        "HTTPS://CreativeCommons.org/Licenses/BY-NC/4.0/",
        " \t\u{3000}https://creativecommons.org/licenses/by-nc/4.0/\u{a0}\n",
    ] {
        assert_eq!(id(url).as_deref(), expected);
    }
}

#[test]
fn white_space_before_the_slash_stays() {
    assert_eq!(id("https://creativecommons.org/licenses/by/4.0 /").as_deref(), Some("CC-BY-4.0 "));
}

#[test]
fn only_what_follows_the_first_marker_up_to_the_next_counts() {
    assert_eq!(id("x/licenses/by/licenses/nc/3.0").as_deref(), Some("CC-BY-4.0"));
    assert_eq!(id("x/licenses/by/3.0/licenses/nc/2.0").as_deref(), Some("CC-BY-3.0"));
    assert_eq!(id("x/licenses/licenses/3.0").as_deref(), Some("CC-LICENSES-3.0"));
}

#[test]
fn an_empty_version_stays_empty() {
    assert_eq!(id("x/licenses/by//y").as_deref(), Some("CC-BY-"));
}

#[test]
fn capitals_are_ascii_only() {
    assert_eq!(id("x/licenses/bÿ-ß/É").as_deref(), Some("CC-Bÿ-ß-É"));
}
