use spectacles_proxy::route::{make_route, RouteError};

#[test]
fn route_makes_route() {
    assert_eq!(make_route(b"/foo/bar").unwrap(), b"/foo/bar".to_vec());
    assert_eq!(make_route(b"/guilds/1234/roles").unwrap(), b"/guilds/:id/roles".to_vec());
}

#[test]
fn mod_makes_route() {
    assert_eq!(make_route(b"/foo/bar").unwrap(), b"/foo/bar".to_vec());
    assert_eq!(make_route(b"/guilds/1234/roles").unwrap(), b"/guilds/:id/roles".to_vec());
}

#[test]
fn makes_route_for_channels_and_webhooks() {
    assert_eq!(make_route(b"/channels/42/messages").unwrap(), b"/channels/:id/messages".to_vec());
    assert_eq!(make_route(b"/webhooks/99").unwrap(), b"/webhooks/:id".to_vec());
    assert_eq!(make_route(b"/webhooks/99/token").unwrap(), b"/webhooks/:id/token".to_vec());
}

#[test]
fn makes_route_identity_cases() {
    assert_eq!(make_route(b"/").unwrap(), b"/".to_vec());
    assert_eq!(make_route(b"/guilds").unwrap(), b"/guilds".to_vec());
    assert_eq!(make_route(b"/guilds/").unwrap(), b"/guilds/:id".to_vec());
    assert_eq!(make_route(b"/users/1234/roles").unwrap(), b"/users/1234/roles".to_vec());
}

#[test]
fn makes_route_rejects_relative_path() {
    assert_eq!(make_route(b"relative/path").unwrap_err(), RouteError::RelativePath);
    assert_eq!(make_route(b"").unwrap_err(), RouteError::RelativePath);
}

#[test]
fn makes_route_with_trailing_id_only() {
    assert_eq!(make_route(b"/guilds/1234").unwrap(), b"/guilds/:id".to_vec());
    assert_eq!(make_route(b"/channels/1/2/3").unwrap(), b"/channels/:id/2/3".to_vec());
}
