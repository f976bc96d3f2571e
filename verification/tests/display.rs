use x11_mcp::safety::{parse_display, validate_target_display};

#[test]
fn normalizes_local_display_forms() {
    assert_eq!(
        parse_display(":20.0").unwrap(),
        parse_display("unix:20").unwrap()
    );
}

#[test]
fn refuses_inherited_display() {
    assert!(validate_target_display(":0", Some(":0.0"), false).is_err());
    assert!(validate_target_display(":20", Some(":0"), false).is_ok());
    assert!(validate_target_display(":0", Some(":0"), true).is_ok());
}

#[test]
fn display_names_have_a_host_a_display_and_a_screen() {
    let parsed = parse_display(" Example:7.2 ").unwrap();
    assert_eq!(parsed.host, "example");
    assert_eq!(parsed.display, 7);
    assert_eq!(parsed.screen, 2);
    assert_eq!(parse_display("localhost:3").unwrap().host, "");
    assert_eq!(
        parse_display("nothing").unwrap_err(),
        "invalid X11 display \"nothing\"; expected HOST:DISPLAY[.SCREEN]"
    );
    assert_eq!(
        parse_display(":x").unwrap_err(),
        "invalid X11 display number in \":x\""
    );
    assert_eq!(
        parse_display(":1.70000").unwrap_err(),
        "invalid X11 screen number in \":1.70000\""
    );
}

#[test]
fn without_an_inherited_display_the_first_local_one_is_refused() {
    assert_eq!(
        validate_target_display("localhost:0.1", None, false).unwrap_err(),
        "refusing likely host display \"localhost:0.1\"; use --allow-host-display or an isolated Xvfb/Xephyr display"
    );
    assert!(validate_target_display("remote:0", None, false).is_ok());
    assert!(validate_target_display(":0", None, true).is_ok());
}
