use primport::port::{game_version_check, Cli, PrimPort, VersionError};
use primport::version::GameVersion;

#[test]
fn try_from_gives_the_versions_in_order() {
    assert_eq!(GameVersion::try_from(0), Ok(GameVersion::Hma));
    assert_eq!(GameVersion::try_from(1), Ok(GameVersion::Alpha));
    assert_eq!(GameVersion::try_from(2), Ok(GameVersion::Hm2016));
    assert_eq!(GameVersion::try_from(3), Ok(GameVersion::Woa));
}

#[test]
fn try_from_refuses_other_indices() {
    assert_eq!(GameVersion::try_from(4), Err("Error".to_string()));
    assert_eq!(GameVersion::try_from(255), Err("Error".to_string()));
}

#[test]
fn try_into_gives_the_names() {
    assert_eq!(GameVersion::Hma.try_into(), Ok("HMA".to_string()));
    assert_eq!(GameVersion::Alpha.try_into(), Ok("ALPHA".to_string()));
    assert_eq!(GameVersion::Hm2016.try_into(), Ok("HM2016".to_string()));
    assert_eq!(GameVersion::Woa.try_into(), Ok("WOA".to_string()));
}

#[test]
fn default_version_is_hma() {
    assert_eq!(GameVersion::default(), GameVersion::Hma);
}

#[test]
fn version_names_in_any_case() {
    assert!(matches!(game_version_check(&"ALPHA".to_string()), Ok(GameVersion::Alpha)));
    assert!(matches!(game_version_check(&"alpha".to_string()), Ok(GameVersion::Alpha)));
    assert!(matches!(game_version_check(&"Hm2016".to_string()), Ok(GameVersion::Hm2016)));
    assert!(matches!(game_version_check(&"hM2016".to_string()), Ok(GameVersion::Hm2016)));
    assert!(matches!(game_version_check(&"woa".to_string()), Ok(GameVersion::Woa)));
    assert!(matches!(game_version_check(&"WoA".to_string()), Ok(GameVersion::Woa)));
}

#[test]
fn hma_is_accepted_in_any_case() {
    assert!(matches!(game_version_check(&"HMA".to_string()), Ok(GameVersion::Hma)));
    assert!(matches!(game_version_check(&"hma".to_string()), Ok(GameVersion::Hma)));
    assert!(matches!(game_version_check(&"hMa".to_string()), Ok(GameVersion::Hma)));
}

#[test]
fn unknown_versions_are_refused_with_their_name() {
    match game_version_check(&"foo".to_string()) {
        Err(VersionError::Unknown(name)) => assert_eq!(name, "foo"),
        _ => panic!("expected an unknown version"),
    }
    match game_version_check(&"woa ".to_string()) {
        Err(VersionError::Unknown(name)) => assert_eq!(name, "woa "),
        _ => panic!("expected an unknown version"),
    }
    assert!(matches!(game_version_check(&"".to_string()), Err(VersionError::Unknown(_))));
    assert!(matches!(game_version_check(&"alpha2".to_string()), Err(VersionError::Unknown(_))));
}

fn cli(
    input_prim: Option<&str>,
    input_version: Option<&str>,
    output_version: Option<&str>,
    output_prim: Option<&str>,
) -> Cli {
    Cli {
        no_cloth: true,
        verbose: true,
        input_prim: input_prim.map(|s| s.to_string()),
        input_version: input_version.map(|s| s.to_string()),
        output_version: output_version.map(|s| s.to_string()),
        output_prim: output_prim.map(|s| s.to_string()),
    }
}

#[test]
fn a_complete_command_line_ports_without_the_window() {
    let port = PrimPort::from(cli(Some("in.prim"), Some("alpha"), Some("WOA"), Some("out.prim"))).ok().unwrap();
    assert_eq!(port.input_prim_path, "in.prim");
    assert_eq!(port.output_prim_path, "out.prim");
    assert_eq!(port.input_version, GameVersion::Alpha);
    assert_eq!(port.output_version, GameVersion::Woa);
    assert!(port.no_cloth);
    assert!(port.verbose);
    assert!(!port.use_gui);
}

#[test]
fn a_missing_argument_opens_the_window() {
    for args in [
        cli(None, Some("alpha"), Some("woa"), Some("out.prim")),
        cli(Some("in.prim"), None, Some("woa"), Some("out.prim")),
        cli(Some("in.prim"), Some("alpha"), None, Some("out.prim")),
        cli(Some("in.prim"), Some("alpha"), Some("woa"), None),
    ] {
        let port = PrimPort::from(args).ok().unwrap();
        assert!(port.use_gui);
        assert_eq!(port.input_prim_path, "");
        assert_eq!(port.output_prim_path, "");
        assert_eq!(port.input_version, GameVersion::Hma);
        assert_eq!(port.output_version, GameVersion::Hma);
        assert!(!port.no_cloth);
        assert!(!port.verbose);
    }
}

#[test]
fn a_bad_version_on_the_command_line_is_refused() {
    let port = PrimPort::from(cli(Some("a"), Some("hma"), Some("woa"), Some("b"))).ok().unwrap();
    assert_eq!(port.input_version, GameVersion::Hma);
    assert!(!port.use_gui);
    match PrimPort::from(cli(Some("a"), Some("woa"), Some("bad"), Some("b"))) {
        Err(VersionError::Unknown(name)) => assert_eq!(name, "bad"),
        _ => panic!("expected an unknown version"),
    }
    // The input version is checked first.
    match PrimPort::from(cli(Some("a"), Some("first"), Some("hma"), Some("b"))) {
        Err(VersionError::Unknown(name)) => assert_eq!(name, "first"),
        _ => panic!("expected an unknown version"),
    }
}

#[test]
fn shown_version_names_are_read_back() {
    for v in [GameVersion::Hma, GameVersion::Alpha, GameVersion::Hm2016, GameVersion::Woa] {
        let name: String = v.try_into().unwrap();
        assert!(matches!(game_version_check(&name), Ok(x) if x == v));
    }
}
