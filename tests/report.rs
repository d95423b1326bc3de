use rooftop_rainfall::report::notice;

#[test]
fn notice_names_the_file() {
    assert_eq!(
        notice(Some("/home/user/.config/rooftop-rainfall-parameters.toml")),
        "Using defaults from configuration file: /home/user/.config/rooftop-rainfall-parameters.toml"
    );
}

#[test]
fn notice_for_unprintable_name() {
    assert_eq!(
        notice(None),
        "Using defaults from configuration file with unprintable name"
    );
}
