use br2_utils::mason::Mason;

#[test]
fn definition_paths() {
    let mason = Mason::new("/home/me/.config/br2-utils");
    assert_eq!(mason.storage(), "/home/me/.config/br2-utils");
    assert_eq!(mason.build_definition_path("acme"), "/home/me/.config/br2-utils/acme.toml");
    assert_eq!(mason.build_definition_path("acme.v2"), "/home/me/.config/br2-utils/acme.toml");
}

#[test]
fn definitions_listed() {
    let mason = Mason::new("/s");
    let files: Vec<String> = ["/s/a.toml", "/s/b.txt", "/s/c", "/s/d.e.toml", "/s/.toml"]
        .iter()
        .map(|s| s.to_string())
        .collect();
    assert_eq!(mason.list(&files), vec!["a".to_string(), "d.e".to_string()]);
}

#[test]
fn definition_path_of_absolute_name() {
    let mason = Mason::new("/s");
    assert_eq!(mason.build_definition_path("/elsewhere/acme"), "/elsewhere/acme.toml");
    assert_eq!(mason.build_definition_path("sub/acme"), "/s/sub/acme.toml");
}
