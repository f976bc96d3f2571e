use x11_mcp::applications::{
    application_allowlist, application_capabilities, check_launch, current_desktops,
    desktop_file_id, examine_entry, is_executable, launch_command, launched, list_apps,
    locale_candidates, parse_exec_argv, program_search, resolve, session_locales, validate_app_id,
    AppInfo, ApplicationConfig, ApplicationRecord, Availability, DesktopFile, Discovery,
    LaunchAppRequest, ListAppsRequest, ProgramSearch,
};
use x11_mcp::error::ErrorCode;

fn entry(name: &str, extra: &str) -> String {
    format!("[Desktop Entry]\nType=Application\nName={name}\nExec=true\n{extra}")
}

fn config(allow_apps: &[&str]) -> ApplicationConfig {
    ApplicationConfig {
        display: ":72".to_owned(),
        allow_apps: allow_apps.iter().map(|glob| (*glob).to_owned()).collect(),
    }
}

fn texts(list: &[&str]) -> Vec<String> {
    list.iter().map(|text| (*text).to_owned()).collect()
}

/// Discovers entries in their order, on a machine that has the program `true`.
fn discover(
    entries: &[(&str, &str, String)],
    locales: &Vec<String>,
    desktops: &Vec<String>,
) -> Vec<ApplicationRecord> {
    let mut discovery = Discovery::new();
    for (root, path, content) in entries {
        let id = match desktop_file_id(root, path) {
            Some(id) => id,
            None => continue,
        };
        if !discovery.claim(&id) {
            continue;
        }
        if let Some(candidate) = examine_entry(path, content, locales, desktops) {
            let available = Availability {
                try_exec: candidate.try_exec.as_deref() == Some("true"),
                directory: true,
                program: candidate.argv[0] == "true",
            };
            discovery.enlist(id, candidate, available);
        }
    }
    discovery.records
}

#[test]
fn discovers_visible_localized_apps_with_xdg_precedence() {
    let high = "/high/applications";
    let low = "/low/applications";
    let entries = vec![
        (
            high,
            "/high/applications/shared.desktop",
            entry("Hidden override", "Hidden=true\n"),
        ),
        (
            high,
            "/high/applications/localized.desktop",
            "[Desktop Entry]\nType=Application\nName=English\nName[fr]=Français\nExec=true\nOnlyShowIn=XFCE;\n"
                .to_owned(),
        ),
        (
            high,
            "/high/applications/nested/tool.desktop",
            entry("Nested Tool", ""),
        ),
        (
            high,
            "/high/applications/no-display.desktop",
            entry("No Display", "NoDisplay=true\n"),
        ),
        (
            high,
            "/high/applications/terminal.desktop",
            entry("Terminal", "Terminal=true\n"),
        ),
        (
            high,
            "/high/applications/wrong-desktop.desktop",
            entry("Wrong Desktop", "OnlyShowIn=GNOME;\n"),
        ),
        (
            high,
            "/high/applications/not-here.desktop",
            entry("Not Here", "NotShowIn=XFCE;\n"),
        ),
        (
            high,
            "/high/applications/missing.desktop",
            entry("Missing", "TryExec=x11-mcp-definitely-missing\n"),
        ),
        (
            high,
            "/high/applications/available.desktop",
            entry("Available", "TryExec=true\n"),
        ),
        (
            high,
            "/high/applications/malformed.desktop",
            "not a desktop entry".to_owned(),
        ),
        (
            low,
            "/low/applications/shared.desktop",
            entry("Lower priority", ""),
        ),
    ];
    let records = discover(&entries, &texts(&["fr_CA", "fr"]), &texts(&["XFCE"]));
    let allowlist = application_allowlist(&config(&[])).unwrap();
    let apps = list_apps(&records, &allowlist, &ListAppsRequest::default()).apps;
    assert_eq!(
        apps,
        vec![
            AppInfo {
                app_id: "available".to_owned(),
                name: "Available".to_owned(),
            },
            AppInfo {
                app_id: "localized".to_owned(),
                name: "Français".to_owned(),
            },
            AppInfo {
                app_id: "nested-tool".to_owned(),
                name: "Nested Tool".to_owned(),
            },
        ]
    );
}

#[test]
fn sorts_by_case_insensitive_localized_name_then_id() {
    let root = "/r/applications";
    let entries = vec![
        (root, "/r/applications/z.desktop", entry("alpha", "")),
        (root, "/r/applications/a.desktop", entry("Alpha", "")),
    ];
    let records = discover(&entries, &Vec::new(), &Vec::new());
    let allowlist = application_allowlist(&config(&[])).unwrap();
    assert_eq!(
        list_apps(&records, &allowlist, &ListAppsRequest::default()).apps,
        vec![
            AppInfo {
                app_id: "a".to_owned(),
                name: "Alpha".to_owned(),
            },
            AppInfo {
                app_id: "z".to_owned(),
                name: "alpha".to_owned(),
            },
        ]
    );
}

#[test]
fn validates_exact_desktop_entry_ids() {
    assert!(validate_app_id("org.example.App").is_ok());
    assert!(validate_app_id(" org.example.App").is_err());
    assert!(validate_app_id("org/example/App").is_err());
}

#[test]
fn searches_and_filters_with_allowlist() {
    let root = "/r/applications";
    let entries = vec![
        (
            root,
            "/r/applications/org.example.Editor.desktop",
            entry("Text Editor", ""),
        ),
        (
            root,
            "/r/applications/org.example.Viewer.desktop",
            entry("Image Viewer", ""),
        ),
    ];
    let records = discover(&entries, &Vec::new(), &Vec::new());
    let allowlist = application_allowlist(&config(&["org.example.E*"])).unwrap();
    assert!(application_capabilities(&allowlist).allowlist_enabled);
    let listed = list_apps(
        &records,
        &allowlist,
        &ListAppsRequest {
            query: Some("editor".to_owned()),
        },
    );
    assert_eq!(listed.apps.len(), 1);
    assert_eq!(listed.apps[0].app_id, "org.example.Editor");
    let denied = resolve(&records, &allowlist, "org.example.Viewer").unwrap_err();
    assert_eq!(denied.code, ErrorCode::AccessDenied);
}

#[test]
fn expands_standard_exec_fields_without_shell_parsing() {
    let file = |name: &str, icon: Option<&str>, exec_value: &str| DesktopFile {
        type_: Some("Application".to_owned()),
        name: Some(name.to_owned()),
        exec_value: Some(exec_value.to_owned()),
        exec_problem: None,
        try_exec: None,
        path: None,
        icon: icon.map(str::to_owned),
        hidden: false,
        no_display: false,
        terminal: false,
        only_show_in: None,
        not_show_in: None,
    };
    let fields = file(
        "Localized Name",
        Some("sample-icon"),
        "/usr/bin/printf \"hello world\" %c %i %% %f %U",
    );
    assert_eq!(
        parse_exec_argv(&fields, "fields.desktop").unwrap(),
        vec![
            "/usr/bin/printf",
            "hello world",
            "Localized Name",
            "--icon",
            "sample-icon",
            "%",
        ]
    );
    let candidate = examine_entry(
        "fields.desktop",
        "[Desktop Entry]\nType=Application\nName=Localized Name\nIcon=sample-icon\nExec=/usr/bin/printf \"hello world\" %c %i %% %f %U\n",
        &texts(&["en"]),
        &Vec::new(),
    )
    .unwrap();
    assert_eq!(
        candidate.argv,
        vec![
            "/usr/bin/printf",
            "hello world",
            "Localized Name",
            "--icon",
            "sample-icon",
            "%",
        ]
    );

    let unsafe_entry = file("Unsafe", None, "true; touch /tmp/not-run");
    assert!(parse_exec_argv(&unsafe_entry, "unsafe.desktop").is_err());
    assert!(examine_entry(
        "unsafe.desktop",
        "[Desktop Entry]\nType=Application\nName=Unsafe\nExec=true; touch /tmp/not-run\n",
        &texts(&["en"]),
        &Vec::new(),
    )
    .is_none());
}

#[test]
fn rejects_invalid_allowlist_patterns() {
    let result = application_allowlist(&ApplicationConfig {
        display: ":73".to_owned(),
        allow_apps: vec!["[".to_owned()],
    });
    assert_eq!(result.unwrap_err().code, ErrorCode::InvalidInput);
}

#[test]
fn reports_spawn_failures_after_resolution() {
    let record = ApplicationRecord {
        info: AppInfo {
            app_id: "disappearing".to_owned(),
            name: "Disappearing".to_owned(),
        },
        argv: vec!["/r/disappearing-app".to_owned()],
        directory: None,
    };
    let error = launched(&record, Err("No such file or directory".to_owned())).unwrap_err();
    assert_eq!(error.code, ErrorCode::Internal);
    assert_eq!(
        error.message,
        "could not launch application disappearing: No such file or directory"
    );
    assert_eq!(
        launched(&record, Ok(None)).unwrap_err().message,
        "launched application disappearing without a process identifier"
    );
    let done = launched(&record, Ok(Some(41))).unwrap();
    assert!(done.launched);
    assert_eq!(done.pid, 41);
    assert_eq!(done.name, "Disappearing");
}

#[test]
fn launch_uses_selected_display_and_working_directory() {
    let root = "/r/applications";
    let content = "[Desktop Entry]\nType=Application\nName=Capture\nExec=true /r/display-output /r/directory-output\nPath=/r/working\nDBusActivatable=true\n";
    let entries = vec![(root, "/r/applications/capture.desktop", content.to_owned())];
    let records = discover(&entries, &Vec::new(), &Vec::new());
    let allowlist = application_allowlist(&config(&[])).unwrap();
    let at = resolve(&records, &allowlist, "capture").unwrap();
    let command = launch_command(&records[at], ":74").unwrap();
    assert_eq!(command.program, "true");
    assert_eq!(
        command.arguments,
        vec!["/r/display-output", "/r/directory-output"]
    );
    assert_eq!(command.display, ":74");
    assert_eq!(command.directory.as_deref(), Some("/r/working"));
}

#[test]
fn emergency_stop_rejects_launch_before_discovery() {
    let error = check_launch(
        true,
        &LaunchAppRequest {
            app_id: "anything".to_owned(),
        },
    )
    .unwrap_err();
    assert_eq!(error.code, ErrorCode::EmergencyStop);
}

#[test]
fn launches_name_an_exact_identifier() {
    let request = |app_id: &str| LaunchAppRequest {
        app_id: app_id.to_owned(),
    };
    assert_eq!(check_launch(false, &request("a.b")).unwrap(), "a.b");
    assert_eq!(
        check_launch(false, &request("")).unwrap_err().code,
        ErrorCode::InvalidInput
    );
    let allowlist = application_allowlist(&config(&[])).unwrap();
    let missing = resolve(&Vec::new(), &allowlist, "a.b").unwrap_err();
    assert_eq!(missing.code, ErrorCode::InvalidInput);
    assert_eq!(missing.message, "application is not available: a.b");
    let empty = ApplicationRecord {
        info: AppInfo {
            app_id: "a".to_owned(),
            name: "A".to_owned(),
        },
        argv: Vec::new(),
        directory: None,
    };
    assert_eq!(
        launch_command(&empty, ":1").unwrap_err().message,
        "application command is empty"
    );
}

#[test]
fn builds_freedesktop_locale_fallbacks() {
    assert_eq!(
        locale_candidates("sr_RS.UTF-8@latin"),
        vec!["sr_RS@latin", "sr_RS", "sr@latin", "sr"]
    );
    assert_eq!(locale_candidates("fr_CA.UTF-8"), vec!["fr_CA", "fr"]);
    assert!(locale_candidates("C").is_empty());
}

#[test]
fn the_first_locale_setting_counts() {
    assert_eq!(
        session_locales(
            Some(String::new()),
            Some("de_AT".to_owned()),
            Some("fr".to_owned())
        ),
        vec!["de_AT", "de"]
    );
    assert!(session_locales(None, None, None).is_empty());
    assert_eq!(current_desktops("XFCE::GNOME"), vec!["XFCE", "GNOME"]);
}

#[test]
fn programs_are_looked_for_by_their_form() {
    assert_eq!(program_search("/bin/true"), ProgramSearch::Itself);
    assert_eq!(program_search("true"), ProgramSearch::Directories);
    assert_eq!(program_search("bin/true"), ProgramSearch::Nowhere);
    assert_eq!(program_search(""), ProgramSearch::Nowhere);
    assert!(is_executable(true, 0o100));
    assert!(!is_executable(true, 0o644));
    assert!(!is_executable(false, 0o755));
}

#[test]
fn entries_outside_their_root_have_no_identifier() {
    assert_eq!(
        desktop_file_id("/usr/share/applications", "/usr/share/applications/kde/org.x.desktop")
            .as_deref(),
        Some("kde-org.x")
    );
    assert_eq!(
        desktop_file_id("/usr/share/applications", "/etc/org.x.desktop"),
        None
    );
    assert_eq!(
        desktop_file_id("/usr/share/applications", "/usr/share/applications/notes.txt"),
        None
    );
}
