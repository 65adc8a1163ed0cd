use baan::clipboard::{
    choose_xauthority, discover_display_session, discover_wayland_session, discover_x11_session,
    ensure_display_environment, gdm_xauthority, get_home_directory, home_xauthority,
    is_wayland_socket_name, parse_display_number, parse_x11_display, wayland_session_ordering,
    x11_socket_path, DisplayPlan, DisplaySession, RuntimeFile, X11Socket,
};
use std::cmp::Ordering;

#[test]
fn wayland_socket_name_accepts_numeric_suffixes() {
    assert!(is_wayland_socket_name("wayland-0"));
    assert!(is_wayland_socket_name("wayland-1"));
    assert!(is_wayland_socket_name("wayland-10"));
    assert!(is_wayland_socket_name("wayland-00"));
}

#[test]
fn wayland_socket_name_rejects_non_numeric() {
    assert!(!is_wayland_socket_name("wayland-"));
    assert!(!is_wayland_socket_name("wayland-abc"));
    assert!(!is_wayland_socket_name("wayland5")); // missing hyphen
    assert!(!is_wayland_socket_name("wayland-12.5"));
    assert!(!is_wayland_socket_name(""));
    assert!(!is_wayland_socket_name("x11"));
    // Overflowing the u32 range.
    assert!(!is_wayland_socket_name("wayland-99999999999999999999"));
}

#[test]
fn x11_display_parses_numeric_name() {
    for (name, expected) in [("X0", 0), ("X1", 1), ("X12", 12), ("X012", 12)] {
        assert_eq!(parse_x11_display(name), Some(expected));
    }
}

#[test]
fn x11_display_rejects_malformed() {
    for name in ["x0", "X", "0", "", "X-1", "Xabc", "Y1"] {
        assert_eq!(
            parse_x11_display(name),
            None,
            "unexpected for {name:?}"
        );
    }
}

#[test]
fn display_number_parses_common_forms() {
    for (display, expected) in [(":0", 0), (":0.0", 0), (":1.1", 1), (":42", 42)] {
        let n = parse_display_number(display);
        assert_eq!(n, Some(expected), "display {display:?}");
    }
    // Uses the text after the *last* colon, ignoring a leading label.
    assert_eq!(parse_display_number("abc:0"), Some(0));
}

#[test]
fn display_number_rejects_malformed() {
    for display in ["0", "0.0", ":", ":abc", ":0x", ""] {
        assert_eq!(parse_display_number(display), None, "display {display:?}");
    }
}

#[test]
fn display_number_uses_last_colon_segment() {
    assert_eq!(parse_display_number(":11:22"), Some(22));
}

fn wayland(runtime_dir: &str, display: &str) -> DisplaySession {
    DisplaySession::Wayland {
        runtime_dir: runtime_dir.to_string(),
        display: display.to_string(),
    }
}

#[test]
fn wayland_session_ordering_by_runtime_dir_then_display() {
    // Lower runtime dir first.
    assert_eq!(
        wayland_session_ordering(&wayland("1000", "wayland-0"), &wayland("1001", "wayland-0")),
        Ordering::Less
    );
    // Same dir: lower display wins.
    assert_eq!(
        wayland_session_ordering(&wayland("1000", "wayland-0"), &wayland("1000", "wayland-1")),
        Ordering::Less
    );
    // Reflection.
    assert_eq!(
        wayland_session_ordering(&wayland("1000", "wayland-1"), &wayland("1000", "wayland-1")),
        Ordering::Equal
    );
}

#[test]
fn the_environment_is_kept_where_it_leads_somewhere() {
    assert_eq!(ensure_display_environment(true, true), DisplayPlan::KeepWayland);
    assert_eq!(ensure_display_environment(true, false), DisplayPlan::KeepWayland);
    assert_eq!(ensure_display_environment(false, true), DisplayPlan::KeepX11);
    assert_eq!(ensure_display_environment(false, false), DisplayPlan::Discover);
}

fn file(runtime_dir: &str, name: &str, is_socket: bool) -> RuntimeFile {
    RuntimeFile {
        runtime_dir: runtime_dir.to_string(),
        name: name.to_string(),
        is_socket,
    }
}

#[test]
fn the_first_wayland_socket_is_discovered() {
    let files = [
        file("/run/user/1001", "wayland-0", true),
        file("/run/user/1000", "wayland-1", true),
        file("/run/user/1000", "wayland-0.lock", false),
        file("/run/user/1000", "wayland-0", false),
        file("/run/user/1000", "wayland-10", true),
        file("/run/user/1000", "bus", true),
    ];
    match discover_wayland_session(&files) {
        Some(DisplaySession::Wayland { runtime_dir, display }) => {
            assert_eq!((runtime_dir.as_str(), display.as_str()), ("/run/user/1000", "wayland-1"));
        }
        other => panic!("expected a Wayland session, got {other:?}"),
    }
    assert!(discover_wayland_session(&files[2..4]).is_none());
    assert!(discover_wayland_session(&[]).is_none());
}

fn socket(name: &str, xauthority: Option<&str>) -> X11Socket {
    X11Socket {
        name: name.to_string(),
        xauthority: xauthority.map(str::to_string),
    }
}

#[test]
fn the_lowest_x11_display_is_discovered() {
    let sockets = [
        socket("X10", None),
        socket("X2", Some("/a")),
        socket("X02", Some("/b")),
        socket("Y0", None),
    ];
    match discover_x11_session(&sockets) {
        Some(DisplaySession::X11 { display, xauthority }) => {
            assert_eq!(display, ":2");
            assert_eq!(xauthority.as_deref(), Some("/a"));
        }
        other => panic!("expected an X11 session, got {other:?}"),
    }
    assert!(discover_x11_session(&sockets[3..]).is_none());
}

#[test]
fn wayland_is_preferred() {
    let x11 = || DisplaySession::X11 { display: ":0".to_string(), xauthority: None };
    assert!(matches!(
        discover_display_session(Some(wayland("d", "w")), Some(x11())),
        Some(DisplaySession::Wayland { .. })
    ));
    assert!(matches!(
        discover_display_session(None, Some(x11())),
        Some(DisplaySession::X11 { .. })
    ));
    assert!(discover_display_session(None, None).is_none());
}

#[test]
fn sessions_set_their_variables() {
    assert_eq!(
        wayland("/run/user/1000", "wayland-0").configure_environment(),
        vec![
            ("XDG_RUNTIME_DIR", "/run/user/1000".to_string()),
            ("WAYLAND_DISPLAY", "wayland-0".to_string()),
        ]
    );
    let mut x11 = DisplaySession::X11 {
        display: ":1".to_string(),
        xauthority: Some("/x".to_string()),
    };
    assert_eq!(
        x11.configure_environment(),
        vec![("DISPLAY", ":1".to_string()), ("XAUTHORITY", "/x".to_string())]
    );
    x11 = DisplaySession::X11 { display: ":1".to_string(), xauthority: None };
    assert_eq!(
        x11.configure_environment(),
        vec![("DISPLAY", ":1".to_string())]
    );
}

#[test]
fn home_directories_come_from_the_user_list() {
    let passwd = "root:x:0:0:root:/root:/bin/sh\n# a comment\nshort:x:7\nbad:x:abc:1:g:/bad:sh\n\
                  me:x:1000:1000:Me,,,:/home/me:/bin/sh\nme2:x:1000:1:g:/home/other:sh\n";
    assert_eq!(get_home_directory(passwd, 0).as_deref(), Some("/root"));
    assert_eq!(get_home_directory(passwd, 1000).as_deref(), Some("/home/me"));
    assert_eq!(get_home_directory(passwd, 7), None);
    assert_eq!(get_home_directory("u:x:5:1:g:/h\r\n", 5).as_deref(), Some("/h"));
    assert_eq!(get_home_directory("", 5), None);
}

#[test]
fn authority_files_are_looked_for_in_two_places() {
    let gdm = gdm_xauthority(1000);
    assert_eq!(gdm, "/run/user/1000/gdm/Xauthority");
    let home = home_xauthority("/home/me");
    assert_eq!(home, "/home/me/.Xauthority");
    let choose = |gdm_is_file: bool, home_is_file: bool| {
        choose_xauthority(gdm.clone(), gdm_is_file, Some(home.clone()), home_is_file)
    };
    assert_eq!(choose(true, true), Some(gdm.clone()));
    assert_eq!(choose(false, true), Some(home.clone()));
    assert_eq!(choose(false, false), None);
    assert_eq!(choose_xauthority(gdm.clone(), false, None, false), None);
    assert_eq!(x11_socket_path(12), "/tmp/.X11-unix/X12");
}
