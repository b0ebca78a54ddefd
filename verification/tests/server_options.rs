use praxis::server_options::{h2_server_options, h2c_server_options};

#[test]
fn h2_limits() {
    let limits = h2_server_options();
    assert_eq!(limits.max_header_list_size, 65_536);
    assert_eq!(limits.max_concurrent_streams, 128);
}

#[test]
fn h2c_is_served() {
    assert!(h2c_server_options().h2c);
}
