//! Where the proxy listens.
use pitchfork_proxy::dns::BindAddress;
use pitchfork_proxy::routing::listen::{bind_address, serve_port};
use pitchfork_proxy::settings::Settings;

#[test]
fn the_proxy_refuses_a_port_outside_the_valid_range() {
    assert_eq!(serve_port(7777), Ok(7777));
    assert_eq!(serve_port(1), Ok(1));
    assert_eq!(serve_port(65535), Ok(65535));
    assert_eq!(
        serve_port(0),
        Err("proxy.port 0 is out of valid port range (1-65535), proxy server cannot start".to_string())
    );
    assert_eq!(
        serve_port(65536),
        Err("proxy.port 65536 is out of valid port range (1-65535), proxy server cannot start".to_string())
    );
    assert_eq!(
        serve_port(-1),
        Err("proxy.port -1 is out of valid port range (1-65535), proxy server cannot start".to_string())
    );
}

#[test]
fn the_proxy_binds_its_host_when_it_is_an_address() {
    let s = Settings::default();
    let lo = BindAddress::V4([127, 0, 0, 1]);
    assert_eq!(bind_address(&s, Some(lo)), (lo, false));
    let mut s = Settings::default();
    s.proxy.host = "::1".to_string();
    let v6 = BindAddress::V6([0, 0, 0, 0, 0, 0, 0, 0, 0, 0, 0, 0, 0, 0, 0, 1]);
    assert_eq!(bind_address(&s, Some(v6)), (v6, false));
}

#[test]
fn lan_mode_widens_the_default_host_to_every_interface() {
    let any = BindAddress::V4([0, 0, 0, 0]);
    let lo = BindAddress::V4([127, 0, 0, 1]);
    let mut s = Settings::default();
    s.proxy.lan = true;
    assert_eq!(bind_address(&s, Some(lo)), (any, false));
    let mut s = Settings::default();
    s.proxy.lan_ip = "192.168.1.20".to_string();
    assert_eq!(bind_address(&s, Some(lo)), (any, false));
    // A host set by hand is kept, LAN mode or not.
    let mut s = Settings::default();
    s.proxy.lan = true;
    s.proxy.host = "10.0.0.5".to_string();
    let own = BindAddress::V4([10, 0, 0, 5]);
    assert_eq!(bind_address(&s, Some(own)), (own, false));
}

#[test]
fn a_host_that_is_not_an_address_falls_back_to_loopback_with_a_warning() {
    let mut s = Settings::default();
    s.proxy.host = "localhost".to_string();
    assert_eq!(bind_address(&s, None), (BindAddress::V4([127, 0, 0, 1]), true));
}
