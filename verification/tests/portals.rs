use shiny_portal::capture::{CaptureTarget, DirectCapture, OutputInfo, ToplevelInfo};
use shiny_portal::cast::ScreencastThread;
use shiny_portal::config::Config;
use shiny_portal::geometry::Size;
use shiny_portal::portal::{PortalResponse, PORTAL_DBUS_NAME, PORTAL_DBUS_PATH};
use shiny_portal::screen_cast::{
    decode_restore_data, resolve_restore_payload, restore_data_from_payload,
    restore_token_default, restored_window, should_return_restore_token, ChosenSource, CursorMode,
    PersistMode, RestoreData, RestoreTokenPayload, RestoreValue, ScreenCastOptions,
    ScreenCastPortal, SelectSourcesOptions, SourceType, SourceTypes, StartStep,
};
use shiny_portal::screenshot_portal::{ScreenshotPortal, ScreenshotStep, ScreenshotTarget};
use shiny_portal::shell::{
    CustomRegion, RegionSelectorOptions, RegionSelectorResult, SelectionResult, SharePickerOptions,
    SharePickerResult, ShellCallResult, ShellError, ShinyShell, SHINY_SHELL_COMMAND,
};

fn portal() -> ScreenCastPortal {
    ScreenCastPortal::new(Config::default())
}

fn region(monitor: &str) -> CustomRegion {
    CustomRegion { monitor: monitor.to_string(), x: 1, y: 2, width: 3, height: 4 }
}

fn capture() -> DirectCapture {
    let mut capture = DirectCapture::new();
    for (number, name) in [(10, "DP-1"), (11, "DP-2")] {
        capture.outputs.push(OutputInfo {
            output: number,
            name: name.to_string(),
            description: String::new(),
            position: (0, 0),
            size: Size { width: 1, height: 1 },
        });
    }
    for (handle, app_id, title, identifier) in [
        (1, "editor", "notes", "a"),
        (2, "browser", "news", "b"),
        (3, "browser", "mail", "c"),
        (4, "browser", "mail", "d"),
        (5, "browser", "maps", "e"),
        (6, "", "nameless", "f"),
    ] {
        let mut window = ToplevelInfo::new(handle);
        window.app_id = app_id.to_string();
        window.title = title.to_string();
        window.identifier = identifier.to_string();
        capture.toplevels.push(window);
    }
    capture
}

fn both() -> SourceTypes {
    SourceTypes::monitors_and_windows()
}

fn monitor_payload(name: &str) -> RestoreTokenPayload {
    RestoreTokenPayload::Monitor { monitor: name.to_string() }
}

fn window_payload(class: &str, title: &str) -> RestoreTokenPayload {
    RestoreTokenPayload::Window { class: class.to_string(), title: title.to_string() }
}

fn restored_target(types: SourceTypes, payload: RestoreTokenPayload) -> Option<CaptureTarget> {
    resolve_restore_payload(&capture(), types, payload).map(|source| source.target)
}

fn no_request() -> SelectSourcesOptions {
    SelectSourcesOptions {
        types: None,
        multiple: None,
        cursor_mode: None,
        restore_data: None,
        persist_mode: None,
    }
}

fn token(text: &str) -> RestoreData {
    restore_data_from_payload(Some(text.to_string())).unwrap()
}

#[test]
fn responses_are_numbered() {
    assert_eq!(PortalResponse::Success(()).code(), 0);
    assert_eq!(PortalResponse::<()>::Cancelled.code(), 1);
    assert_eq!(PortalResponse::<()>::Other.code(), 2);
}

#[test]
fn service_has_its_names() {
    assert_eq!(PORTAL_DBUS_NAME, "org.freedesktop.impl.portal.desktop.shiny");
    assert_eq!(PORTAL_DBUS_PATH, "/org/freedesktop/portal/desktop");
    assert_eq!(SHINY_SHELL_COMMAND, "shiny-shell");
}

#[test]
fn cast_portal_describes_itself() {
    assert_eq!(portal().available_source_types(), 3);
    assert_eq!(portal().available_cursor_modes(), 3);
    assert_eq!(portal().version(), 6);
}

#[test]
fn source_types_are_bits() {
    let window = SourceTypes { bits: 2 };
    assert!(window.contains(SourceType::Window));
    assert!(!window.contains(SourceType::Monitor));
    assert!(!both().contains(SourceType::Virtual));
    assert_eq!(SourceType::Virtual.bits(), 4);
    assert_eq!(CursorMode::Metadata.bits(), 4);
}

#[test]
fn new_sessions_have_default_options() {
    let (response, options) = portal().create_session("/session/1".to_string());
    match response {
        PortalResponse::Success(result) => assert_eq!(result.session_id, "/session/1"),
        other => panic!("{other:?}"),
    }
    assert_eq!(options.source_types, both());
    assert_eq!(options.cursor_mode, CursorMode::Hidden);
    assert_eq!(options.persist_mode, PersistMode::default());
    assert_eq!(PersistMode::default(), PersistMode::DoNot);
    assert!(options.restore_data.is_none());
}

#[test]
fn requests_change_what_they_name() {
    let mut options = ScreenCastOptions::default();
    options.update(SelectSourcesOptions {
        types: Some(SourceTypes { bits: 1 }),
        restore_data: Some(token("x")),
        ..no_request()
    });
    options.update(SelectSourcesOptions {
        cursor_mode: Some(CursorMode::Embedded),
        persist_mode: Some(PersistMode::Explicit),
        ..no_request()
    });
    options.update(no_request());
    assert_eq!(options.source_types, SourceTypes { bits: 1 });
    assert_eq!(options.cursor_mode, CursorMode::Embedded);
    assert_eq!(options.persist_mode, PersistMode::Explicit);
    assert!(options.restore_data.is_some());
}

#[test]
fn requests_are_idempotent() {
    let request = || SelectSourcesOptions {
        types: Some(SourceTypes { bits: 2 }),
        cursor_mode: Some(CursorMode::Metadata),
        ..no_request()
    };
    let mut options = ScreenCastOptions::default();
    options.update(request());
    let once = format!("{options:?}");
    options.update(request());
    assert_eq!(format!("{options:?}"), once);
}

#[test]
fn pointer_is_never_metadata() {
    let mut options = ScreenCastOptions::default();
    options.update(SelectSourcesOptions {
        cursor_mode: Some(CursorMode::Metadata),
        ..no_request()
    });
    assert_eq!(options.cursor_mode, CursorMode::Embedded);
}

#[test]
fn sources_are_selected_in_a_session() {
    let request = SelectSourcesOptions { types: Some(SourceTypes { bits: 2 }), ..no_request() };
    let (response, options) = portal().select_sources(Some(ScreenCastOptions::default()), request);
    assert_eq!(response.code(), 0);
    assert_eq!(options.unwrap().source_types, SourceTypes { bits: 2 });
    let (response, options) = portal().select_sources(None, no_request());
    assert_eq!(response.code(), 2);
    assert!(options.is_none());
}

#[test]
fn keeping_is_offered_by_persist_mode() {
    let mut options = ScreenCastOptions::default();
    assert_eq!(restore_token_default(&options), None);
    options.persist_mode = PersistMode::Application;
    assert_eq!(restore_token_default(&options), Some(true));
    options.persist_mode = PersistMode::Explicit;
    assert_eq!(restore_token_default(&options), Some(false));
    options.restore_data = Some(token("x"));
    assert_eq!(restore_token_default(&options), Some(true));
}

#[test]
fn tokens_need_leave() {
    assert!(should_return_restore_token(PersistMode::Application, true));
    assert!(should_return_restore_token(PersistMode::Explicit, true));
    assert!(!should_return_restore_token(PersistMode::Explicit, false));
    assert!(!should_return_restore_token(PersistMode::DoNot, true));
}

#[test]
fn tokens_give_back_their_text() {
    let made = token("{\"type\":\"monitor\"}");
    assert_eq!(made.vendor, "shiny");
    assert_eq!(made.version, 1);
    assert_eq!(decode_restore_data(&made), Some("{\"type\":\"monitor\"}".to_string()));
    assert!(restore_data_from_payload(None).is_none());
}

#[test]
fn foreign_tokens_are_ignored() {
    let with = |vendor: &str, version, data| RestoreData {
        vendor: vendor.to_string(),
        version,
        data,
    };
    let text = || RestoreValue::Text("x".to_string());
    assert_eq!(decode_restore_data(&with("gnome", 1, text())), None);
    assert_eq!(decode_restore_data(&with("shiny", 2, text())), None);
    assert_eq!(decode_restore_data(&with("shiny", 1, RestoreValue::Other)), None);
}

#[test]
fn monitors_are_restored_by_name() {
    assert_eq!(
        restored_target(both(), monitor_payload("DP-2")),
        Some(CaptureTarget::Output(11))
    );
    assert_eq!(restored_target(both(), monitor_payload("DP-3")), None);
}

#[test]
fn restored_kinds_are_asked_for() {
    assert_eq!(restored_target(SourceTypes { bits: 2 }, monitor_payload("DP-1")), None);
    assert_eq!(restored_target(SourceTypes { bits: 1 }, window_payload("editor", "")), None);
}

#[test]
fn windows_are_restored_by_class() {
    assert_eq!(
        restored_target(both(), window_payload("editor", "other title")),
        Some(CaptureTarget::Toplevel(1))
    );
    assert_eq!(restored_target(both(), window_payload("terminal", "notes")), None);
    assert_eq!(restored_target(both(), window_payload("", "nameless")), None);
}

#[test]
fn windows_of_one_class_are_told_apart_by_title() {
    assert_eq!(
        restored_target(both(), window_payload("browser", "maps")),
        Some(CaptureTarget::Toplevel(5))
    );
    assert_eq!(restored_target(both(), window_payload("browser", "mail")), None);
    assert_eq!(restored_target(both(), window_payload("browser", "shop")), None);
}

#[test]
fn restored_sources_are_restored_again() {
    let source =
        resolve_restore_payload(&capture(), both(), window_payload("editor", "old")).unwrap();
    assert!(source.allow_restore_token);
    assert_eq!(source.source_type, SourceType::Window);
    match &source.restore_payload {
        RestoreTokenPayload::Window { class, title } => {
            assert_eq!((class.as_str(), title.as_str()), ("editor", "notes"));
        }
        other => panic!("{other:?}"),
    }
    assert_eq!(restored_target(both(), source.restore_payload), Some(source.target));
}

#[test]
fn windows_carry_their_leave() {
    let window = ToplevelInfo::new(9);
    assert!(!restored_window(&window, false).allow_restore_token);
    assert_eq!(restored_window(&window, true).target, CaptureTarget::Toplevel(9));
}

#[test]
fn starting_needs_a_session_and_a_connection() {
    let refused = |step| matches!(step, StartStep::Respond(PortalResponse::Other));
    assert!(refused(portal().start(None)));
    let options = ScreenCastOptions::default();
    assert!(matches!(portal().start(Some(&options)), StartStep::Connect));
    assert!(refused(portal().connected(&options, false, "")));
}

#[test]
fn users_are_asked_without_a_token() {
    let mut options = ScreenCastOptions::default();
    options.source_types = SourceTypes { bits: 2 };
    options.persist_mode = PersistMode::Application;
    match portal().connected(&options, true, "wayland:1") {
        StartStep::AskShell(request) => {
            assert_eq!(request.allow_monitor, Some(false));
            assert_eq!(request.allow_window, Some(true));
            assert_eq!(request.allow_custom_region, Some(false));
            assert_eq!(request.allow_restore_token_default, Some(true));
            assert_eq!(request.dialog_parent_window_handle, Some("wayland:1".to_string()));
        }
        other => panic!("{other:?}"),
    }
}

#[test]
fn tokens_are_read_before_asking() {
    let mut options = ScreenCastOptions::default();
    options.restore_data = Some(token("payload"));
    match portal().connected(&options, true, "") {
        StartStep::ReadToken(text) => assert_eq!(text, "payload"),
        other => panic!("{other:?}"),
    }
    options.restore_data = Some(RestoreData {
        vendor: "other".to_string(),
        version: 1,
        data: RestoreValue::Text("payload".to_string()),
    });
    assert!(matches!(
        portal().connected(&options, true, ""),
        StartStep::AskShell(_)
    ));
}

#[test]
fn tokens_lead_to_their_source() {
    let mut options = ScreenCastOptions::default();
    options.cursor_mode = CursorMode::Embedded;
    match portal().token_read(&options, &capture(), Some(monitor_payload("DP-1")), "") {
        StartStep::Cast { overlay_cursor, source } => {
            assert!(overlay_cursor);
            assert_eq!(source.target, CaptureTarget::Output(10));
            assert_eq!(source.source_type, SourceType::Monitor);
        }
        other => panic!("{other:?}"),
    }
    for payload in [None, Some(monitor_payload("gone"))] {
        assert!(matches!(
            portal().token_read(&options, &capture(), payload, ""),
            StartStep::AskShell(_)
        ));
    }
}

fn picked(result: SelectionResult) -> StartStep {
    let answer = SharePickerResult::Selected { key: "k".to_string(), result };
    portal().picked(&ScreenCastOptions::default(), &capture(), Ok(answer))
}

fn pick_monitor(name: &str) -> SelectionResult {
    SelectionResult::Monitor { allow_restore_token: true, monitor: name.to_string() }
}

fn pick_window(id: &str) -> SelectionResult {
    SelectionResult::Window {
        allow_restore_token: false,
        window_address: "0x1".to_string(),
        stable_id: id.to_string(),
        clazz: "class".to_string(),
        title: "title".to_string(),
    }
}

#[test]
fn picked_sources_are_shown() {
    match picked(pick_monitor("DP-2")) {
        StartStep::Cast { overlay_cursor, source } => {
            assert!(!overlay_cursor && source.allow_restore_token);
            assert_eq!(source.target, CaptureTarget::Output(11));
        }
        other => panic!("{other:?}"),
    }
    match picked(pick_window("c")) {
        StartStep::Cast { source, .. } => {
            assert!(!source.allow_restore_token);
            assert_eq!(source.target, CaptureTarget::Toplevel(3));
            assert!(matches!(
                source.restore_payload,
                RestoreTokenPayload::Window { class, title } if class == "class" && title == "title"
            ));
        }
        other => panic!("{other:?}"),
    }
}

#[test]
fn picked_monitor_is_restored() {
    match picked(pick_monitor("DP-2")) {
        StartStep::Cast { source, .. } => {
            assert_eq!(restored_target(both(), source.restore_payload), Some(source.target));
        }
        other => panic!("{other:?}"),
    }
}

#[test]
fn missing_sources_are_refused() {
    let custom = SelectionResult::Custom { allow_restore_token: true, region: region("DP-1") };
    for result in [pick_monitor("gone"), pick_window("gone"), custom] {
        assert!(matches!(picked(result), StartStep::Respond(PortalResponse::Other)));
    }
}

#[test]
fn refusal_and_failure_are_told_apart() {
    let options = ScreenCastOptions::default();
    let cancelled = SharePickerResult::Cancelled { key: "k".to_string() };
    assert!(matches!(
        portal().picked(&options, &capture(), Ok(cancelled)),
        StartStep::Respond(PortalResponse::Cancelled)
    ));
    assert!(matches!(
        portal().picked(&options, &capture(), Err(ShellError::Ipc("x".to_string()))),
        StartStep::Respond(PortalResponse::Other)
    ));
}

fn chosen(allow_restore_token: bool) -> ChosenSource {
    ChosenSource {
        target: CaptureTarget::Output(1),
        source_type: SourceType::Monitor,
        restore_payload: monitor_payload("DP-1"),
        allow_restore_token,
    }
}

#[test]
fn started_streams_are_described() {
    let mut options = ScreenCastOptions::default();
    options.persist_mode = PersistMode::Application;
    let cast = ScreencastThread {
        node_id: 42,
        pipewire_serial: 99,
        size: Size { width: 800, height: u32::MAX },
    };
    match portal().started(&options, &chosen(true), cast, Some("t".to_string())) {
        PortalResponse::Success(result) => {
            assert_eq!(result.streams.len(), 1);
            let stream = &result.streams[0];
            assert_eq!(stream.node_id, 42);
            assert_eq!(stream.properties.position, None);
            assert_eq!(stream.properties.size, (800, -1));
            assert_eq!(stream.properties.source_type, SourceType::Monitor);
            assert_eq!(stream.properties.mapping_id, None);
            assert_eq!(stream.properties.pipewire_serial, 99);
            assert_eq!(result.persist_mode, Some(PersistMode::Application));
            assert_eq!(
                decode_restore_data(&result.restore_data.unwrap()),
                Some("t".to_string())
            );
        }
        other => panic!("{other:?}"),
    }
}

#[test]
fn tokens_are_withheld_without_leave() {
    let cast = ScreencastThread { node_id: 1, pipewire_serial: 1, size: Size::default() };
    let mut options = ScreenCastOptions::default();
    for (mode, allowed, text) in [
        (PersistMode::DoNot, true, Some("t".to_string())),
        (PersistMode::Explicit, false, Some("t".to_string())),
        (PersistMode::Explicit, true, None),
    ] {
        options.persist_mode = mode;
        match portal().started(&options, &chosen(allowed), cast, text) {
            PortalResponse::Success(result) => {
                assert!(result.restore_data.is_none());
                assert_eq!(result.persist_mode, None);
            }
            other => panic!("{other:?}"),
        }
    }
}

#[test]
fn failed_streams_say_why() {
    assert_eq!(portal().start_failure("no bus"), "cannot start PipeWire stream: no bus");
}

#[test]
fn screenshot_portal_describes_itself() {
    let portal = ScreenshotPortal::default();
    assert_eq!(portal.available_targets(), 4);
    assert_eq!(portal.version(), 3);
    assert_eq!(
        portal.selector_options(),
        RegionSelectorOptions {
            freeze: Some(false),
            hint_windows: Some(true),
            hint_layers: Some(true),
        }
    );
    assert!(portal.honours_target(None));
    assert!(portal.honours_target(Some(ScreenshotTarget::Area)));
    assert!(!portal.honours_target(Some(ScreenshotTarget::Screen)));
    assert_eq!(ScreenshotTarget::ActiveWindow.bits(), 8);
}

#[test]
fn selected_areas_are_captured() {
    let portal = ScreenshotPortal::default();
    let selected =
        || RegionSelectorResult::Selected { key: "k".to_string(), result: region("DP-1") };
    match portal.screenshot(Ok(selected())) {
        ScreenshotStep::Capture(region) => {
            assert_eq!((region.monitor.as_str(), region.height), ("DP-1", 4));
        }
        other => panic!("{other:?}"),
    }
    assert_eq!(portal.select_area(selected()).unwrap().width, 3);
    let cancelled = || RegionSelectorResult::Cancelled { key: "k".to_string() };
    assert!(portal.select_area(cancelled()).is_none());
    assert!(matches!(
        portal.screenshot(Ok(cancelled())),
        ScreenshotStep::Respond(PortalResponse::Cancelled)
    ));
    assert!(matches!(
        portal.screenshot(Err(ShellError::Io("x".to_string()))),
        ScreenshotStep::Respond(PortalResponse::Other)
    ));
}

#[test]
fn saved_screenshots_are_answered_with_their_uri() {
    let portal = ScreenshotPortal::default();
    match portal.saved(Some("file:///x".to_string())) {
        PortalResponse::Success(result) => assert_eq!(result.uri, "file:///x"),
        other => panic!("{other:?}"),
    }
    assert_eq!(portal.saved(None).code(), 2);
}

#[test]
fn shell_commands_have_their_arguments() {
    let shell = ShinyShell::default();
    assert_eq!(
        shell.call_arguments("share-picker", "request", &vec!["{}".to_string(), "x".to_string()]),
        vec!["ipc", "call", "share-picker", "request", "{}", "x"]
    );
    assert_eq!(
        shell.listen_arguments("share-picker", "result"),
        vec!["ipc", "listen", "share-picker", "result"]
    );
}

fn shell_error(result: Result<String, ShellError>) -> String {
    result.unwrap_err().message()
}

#[test]
fn shell_output_is_trimmed() {
    let reply = ShinyShell.read_output(true, b" \n{\"a\":\xc3\xa9}\r\n", b"");
    assert_eq!(reply.unwrap(), "{\"a\":é}");
    assert_eq!(ShinyShell.read_output(true, b"\xff ", b"").unwrap(), "\u{fffd}");
}

#[test]
fn shell_failures_say_their_first_line() {
    assert_eq!(
        shell_error(ShinyShell.read_output(false, b"ok", b"\n  \nbroken\nmore\n")),
        "shiny-shell error: broken"
    );
    assert_eq!(
        shell_error(ShinyShell.read_output(true, b"ok", b"warning")),
        "shiny-shell error: warning"
    );
    assert_eq!(
        shell_error(ShinyShell.read_output(false, b"ok", b"")),
        "shiny-shell error: process failed or returned non-zero exit code"
    );
}

#[test]
fn shell_output_is_judged_as_text() {
    assert_eq!(ShinyShell.judge_output(true, 0, " x ", "").unwrap(), "x");
    assert_eq!(
        shell_error(ShinyShell.judge_output(true, 1, " x ", " ")),
        "shiny-shell error: process failed or returned non-zero exit code"
    );
}

#[test]
fn shell_replies_are_data_or_errors() {
    let read = |text: &str, parsed| ShinyShell.read_reply::<u8>(text.to_string(), parsed);
    assert_eq!(read("x", Ok(ShellCallResult::Data { data: 5 })).unwrap(), 5);
    assert_eq!(
        read("x", Ok(ShellCallResult::Error { message: "no".to_string() })).unwrap_err().message(),
        "ipc error: no"
    );
    assert_eq!(
        read("gibberish", Err("expected value".to_string())).unwrap_err().message(),
        "shiny-shell error: gibberish"
    );
    assert_eq!(
        read("", Err("expected value".to_string())).unwrap_err().message(),
        "shiny-shell error: expected value"
    );
}

#[test]
fn shell_errors_have_words() {
    assert_eq!(ShellError::Io("a".to_string()).message(), "process error: a");
    assert_eq!(ShellError::Json("b".to_string()).message(), "json error: b");
}

#[test]
fn blank_signals_are_skipped() {
    assert_eq!(ShinyShell.signal_on_line(" \t\r"), None);
    assert_eq!(ShinyShell.signal_on_line(" {} "), Some("{}".to_string()));
}

#[test]
fn only_the_own_answer_counts() {
    let selected = |key: &str| RegionSelectorResult::Selected {
        key: key.to_string(),
        result: region("DP-1"),
    };
    assert!(matches!(ShinyShell.region_selector("7", Some(selected("8"))), Ok(None)));
    assert!(matches!(
        ShinyShell.region_selector("7", Some(selected("7"))),
        Ok(Some(RegionSelectorResult::Selected { .. }))
    ));
    let cancelled = RegionSelectorResult::Cancelled { key: "7".to_string() };
    assert!(matches!(
        ShinyShell.region_selector("7", Some(cancelled)),
        Ok(Some(RegionSelectorResult::Cancelled { .. }))
    ));
    assert_eq!(
        ShinyShell.region_selector("7", None).unwrap_err().message(),
        "ipc error: stream closed without picker result"
    );
}

#[test]
fn only_the_own_pick_counts() {
    let selected = |key: &str| SharePickerResult::Selected {
        key: key.to_string(),
        result: pick_monitor("DP-1"),
    };
    assert!(matches!(ShinyShell.share_picker("7", Some(selected("8"))), Ok(None)));
    assert!(matches!(
        ShinyShell.share_picker("7", Some(selected("7"))),
        Ok(Some(SharePickerResult::Selected { .. }))
    ));
    let cancelled = SharePickerResult::Cancelled { key: "8".to_string() };
    assert!(matches!(ShinyShell.share_picker("7", Some(cancelled)), Ok(None)));
    assert_eq!(
        ShinyShell.share_picker("7", None).unwrap_err().message(),
        "ipc error: stream closed without picker result"
    );
}

#[test]
fn pickers_default_to_the_shell() {
    assert_eq!(
        RegionSelectorOptions::default(),
        RegionSelectorOptions { freeze: None, hint_windows: None, hint_layers: None }
    );
    let options = SharePickerOptions::default();
    assert_eq!(options.allow_monitor, None);
    assert_eq!(options.allow_restore_token_default, None);
    assert_eq!(options.dialog_parent_window_handle, None);
}
