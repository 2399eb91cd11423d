use chat_relay::args::Args;

#[test]
fn defaults_match_the_documented_configuration() {
    let a = Args::new_default();
    assert_eq!(a.debug, false);
    assert_eq!(a.verbose, 0);
    assert_eq!(a.host, "0.0.0.0");
    assert_eq!(a.port, 6000);
}
