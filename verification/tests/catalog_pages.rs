use gateway::catalog::{
    catalog_request_headers, CatalogAuth, KimiDeviceProfile,
    append_catalog_chunk, catalog_status_error, key_less, CatalogPager, PageOutcome,
    MAX_CATALOG_MODELS, MAX_CATALOG_PAGES,
};
use gateway::errors::{ErrorScope, GatewayErrorCode};

fn page(ids: &[&str]) -> Vec<(String, String)> {
    ids.iter().map(|id| (id.to_string(), format!("model:{id}"))).collect()
}

#[test]
fn kiro_pages_keep_exact_identity_ids_and_cursor_until_complete() {
    let mut pager = CatalogPager::new();
    assert_eq!(pager.cursor(), None);
    assert_eq!(
        pager.accept_page(page(&["Exact/Model-1"]), Some("page+/2".to_owned())),
        PageOutcome::Continue
    );
    assert_eq!(pager.cursor().map(String::as_str), Some("page+/2"));
    assert_eq!(
        pager.accept_page(page(&["Exact/Model-1", "other-v2"]), None),
        PageOutcome::Complete
    );
    assert_eq!(
        pager.into_models(),
        vec!["model:Exact/Model-1".to_owned(), "model:other-v2".to_owned()]
    );
}

#[test]
fn kiro_partial_or_repeated_pages_never_return_a_successful_partial_catalog() {
    let mut pager = CatalogPager::new();
    assert_eq!(
        pager.accept_page(page(&["partial"]), Some("same".to_owned())),
        PageOutcome::Continue
    );
    assert_eq!(
        pager.accept_page(page(&[]), Some("same".to_owned())),
        PageOutcome::Refused
    );
}

#[test]
fn the_last_page_wins_and_models_are_listed_in_identifier_order() {
    let mut pager = CatalogPager::new();
    let first = vec![
        ("zeta".to_owned(), 1),
        ("alpha".to_owned(), 2),
        ("Beta".to_owned(), 3),
        ("alpha".to_owned(), 4),
    ];
    assert_eq!(pager.accept_page(first, Some("c1".to_owned())), PageOutcome::Continue);
    let second = vec![("beta".to_owned(), 5), ("zeta".to_owned(), 6), ("é".to_owned(), 7)];
    assert_eq!(pager.accept_page(second, None), PageOutcome::Complete);
    // Byte order: upper case before lower case, non-ASCII last.
    assert_eq!(pager.into_models(), vec![3, 4, 5, 6, 7]);
}

#[test]
fn too_many_pages_refuse_the_catalog() {
    let mut pager: CatalogPager<u8> = CatalogPager::new();
    for n in 0..MAX_CATALOG_PAGES - 1 {
        assert_eq!(
            pager.accept_page(vec![], Some(format!("cursor-{n}"))),
            PageOutcome::Continue
        );
    }
    assert_eq!(
        pager.accept_page(vec![], Some("cursor-last".to_owned())),
        PageOutcome::Refused
    );
    let mut pager: CatalogPager<u8> = CatalogPager::new();
    for n in 0..MAX_CATALOG_PAGES - 1 {
        pager.accept_page(vec![], Some(format!("cursor-{n}")));
    }
    assert_eq!(pager.accept_page(vec![], None), PageOutcome::Complete);
}

#[test]
fn too_many_models_refuse_the_catalog() {
    let mut pager = CatalogPager::new();
    let models: Vec<(String, u8)> = (0..MAX_CATALOG_MODELS).map(|n| (format!("m{n:05}"), 0)).collect();
    assert_eq!(pager.accept_page(models, Some("next".to_owned())), PageOutcome::Continue);
    assert_eq!(
        pager.accept_page(vec![("one-more".to_owned(), 0)], None),
        PageOutcome::Refused
    );
}

#[test]
fn identifiers_order_by_their_characters() {
    assert!(key_less("a", "b"));
    assert!(key_less("a", "ab"));
    assert!(!key_less("ab", "a"));
    assert!(!key_less("a", "a"));
    assert!(key_less("", "a"));
    assert!(key_less("Z", "a"));
    assert!(key_less("z", "é"));
}

#[test]
fn catalog_reply_statuses_map_to_credential_rate_limit_and_protocol_failures() {
    assert!(catalog_status_error(200).is_none());
    assert!(catalog_status_error(204).is_none());
    let unauthorized = catalog_status_error(401).map(|e| (e.code, e.scope));
    assert_eq!(
        unauthorized,
        Some((GatewayErrorCode::CredentialUnauthorized, ErrorScope::Credential))
    );
    let forbidden = catalog_status_error(403).map(|e| (e.code, e.scope));
    assert_eq!(
        forbidden,
        Some((GatewayErrorCode::CredentialForbidden, ErrorScope::Credential))
    );
    let limited = catalog_status_error(429).map(|e| (e.code, e.scope));
    assert_eq!(
        limited,
        Some((GatewayErrorCode::ProviderRateLimited, ErrorScope::Provider))
    );
    let other = catalog_status_error(500).map(|e| (e.code, e.scope));
    assert_eq!(
        other,
        Some((GatewayErrorCode::UpstreamProtocolError, ErrorScope::Provider))
    );
}

#[test]
fn catalog_page_chunks_stop_at_the_page_bound() {
    let mut page = Vec::new();
    assert!(append_catalog_chunk(&mut page, b"abc", 4));
    assert!(!append_catalog_chunk(&mut page, b"de", 4));
    assert_eq!(page, b"abc".to_vec());
    assert!(append_catalog_chunk(&mut page, b"d", 4));
    assert_eq!(page, b"abcd".to_vec());
}

fn kimi() -> KimiDeviceProfile {
    KimiDeviceProfile {
        user_agent: "kimi-agent".to_owned(),
        platform: "kimi-platform".to_owned(),
        device_name: "kimi-device".to_owned(),
        device_model: "kimi-model".to_owned(),
    }
}

fn pairs(headers: &[(String, String)]) -> Vec<(&str, &str)> {
    headers.iter().map(|(k, v)| (k.as_str(), v.as_str())).collect()
}

#[test]
fn catalog_requests_carry_exactly_their_credential_headers() {
    let anthropic = CatalogAuth::Anthropic {
        header_name: "x-api-key".to_owned(),
        header_value: "secret".to_owned(),
    };
    let headers = catalog_request_headers(&anthropic, &kimi()).unwrap();
    assert_eq!(
        pairs(&headers),
        vec![
            ("accept", "application/json"),
            ("x-api-key", "secret"),
            ("anthropic-version", "2023-06-01"),
        ]
    );
    let bearer = CatalogAuth::Bearer {
        token: "token".to_owned(),
        kimi_device_id: None,
    };
    let headers = catalog_request_headers(&bearer, &kimi()).unwrap();
    assert_eq!(
        pairs(&headers),
        vec![("accept", "application/json"), ("authorization", "Bearer token")]
    );
    let device = CatalogAuth::Bearer {
        token: "token".to_owned(),
        kimi_device_id: Some("device-7".to_owned()),
    };
    let headers = catalog_request_headers(&device, &kimi()).unwrap();
    assert_eq!(headers.len(), 7);
    assert_eq!(pairs(&headers)[2], ("user-agent", "kimi-agent"));
    assert_eq!(pairs(&headers)[6], ("x-msh-device-id", "device-7"));
    let blank = CatalogAuth::Bearer {
        token: "token".to_owned(),
        kimi_device_id: Some(" \t".to_owned()),
    };
    let error = catalog_request_headers(&blank, &kimi()).err().map(|e| (e.code, e.scope));
    assert_eq!(
        error,
        Some((GatewayErrorCode::UpstreamProtocolError, ErrorScope::Provider))
    );
}
