use scimforge::server::discovery::{resource_types, service_provider_config};

#[test]
fn resource_types_point_at_endpoints_this_server_actually_serves() {
    let types = resource_types();
    assert!(types.iter().any(|t| t.endpoint == "/Users"));
    assert!(types.iter().any(|t| t.endpoint == "/Groups"));
}

#[test]
fn service_provider_config_advertises_patch_support_since_patch_is_implemented() {
    assert!(service_provider_config().patch.supported);
}
