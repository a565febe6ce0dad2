use mplug::commands::{
    dispatch_complaint, dispatch_with_arg, ipc_dispatch_command, ipc_get_command, layer_surface_request,
    named_scratchpad_command, parse_dispatch_command, parse_socket_command, shortcut_command,
    shortcut_names, socket_complaint, watch_refusal, DispatchAction, LayerSurfaceRequest, SocketAction,
    Verb, WindowRequest,
};

#[test]
fn socket_trigger_joins_the_rest() {
    assert_eq!(
        parse_socket_command("trigger  my   command"),
        SocketAction::Trigger("my command".to_string())
    );
    assert_eq!(parse_socket_command("trigger"), SocketAction::Usage(Verb::Trigger));
    assert_eq!(parse_socket_command("   "), SocketAction::Ignore);
}

#[test]
fn socket_requests_with_numbers() {
    assert_eq!(
        parse_socket_command("set_tags 5"),
        SocketAction::Request(WindowRequest::SetTags(5))
    );
    assert_eq!(
        parse_socket_command("set_layout 2 extra"),
        SocketAction::Request(WindowRequest::SetLayout(2))
    );
    assert_eq!(
        parse_socket_command("focus_window 7"),
        SocketAction::Request(WindowRequest::ActivateToplevel { id: 7 })
    );
    assert_eq!(
        parse_socket_command("close_window 9"),
        SocketAction::Request(WindowRequest::CloseToplevel { id: 9 })
    );
    assert_eq!(
        parse_socket_command("set_window_tag 3 4"),
        SocketAction::Request(WindowRequest::SetToplevelTags { id: 3, tagmask: 4 })
    );
    assert_eq!(
        parse_socket_command("set_client_tags 1 2"),
        SocketAction::Request(WindowRequest::SetClientTags { and_tags: 1, xor_tags: 2 })
    );
    assert_eq!(parse_socket_command("set_tags x"), SocketAction::Usage(Verb::SetTags));
    assert_eq!(parse_socket_command("set_layout"), SocketAction::Usage(Verb::SetLayout));
    assert_eq!(parse_socket_command("set_window_tag 3"), SocketAction::Usage(Verb::SetWindowTag));
    assert_eq!(parse_socket_command("close_window -1"), SocketAction::Usage(Verb::CloseWindow));
    assert_eq!(parse_socket_command("focus_window 4294967296"), SocketAction::Usage(Verb::FocusWindow));
    assert_eq!(parse_socket_command("bogus 1"), SocketAction::Unknown);
}

#[test]
fn socket_minimize_reads_true_or_one() {
    assert_eq!(
        parse_socket_command("set_window_minimized 4 true"),
        SocketAction::Request(WindowRequest::SetToplevelMinimized { id: 4, minimized: true })
    );
    assert_eq!(
        parse_socket_command("set_window_minimized 4 1"),
        SocketAction::Request(WindowRequest::SetToplevelMinimized { id: 4, minimized: true })
    );
    assert_eq!(
        parse_socket_command("set_window_minimized 4 yes"),
        SocketAction::Request(WindowRequest::SetToplevelMinimized { id: 4, minimized: false })
    );
    assert_eq!(
        parse_socket_command("set_window_minimized 4"),
        SocketAction::Usage(Verb::SetWindowMinimized)
    );
    assert_eq!(
        parse_socket_command("set_window_minimized x true"),
        SocketAction::Usage(Verb::SetWindowMinimized)
    );
}

#[test]
fn socket_complaints() {
    assert_eq!(
        socket_complaint(&SocketAction::Usage(Verb::SetTags), "set_tags"),
        Some("mplug socket: usage: set_tags <tagmask>".to_string())
    );
    assert_eq!(
        socket_complaint(&SocketAction::Unknown, "dance now"),
        Some("mplug socket: unknown command: dance now".to_string())
    );
    assert_eq!(socket_complaint(&SocketAction::Ignore, ""), None);
}

#[test]
fn lua_dispatch_commands() {
    assert_eq!(parse_dispatch_command("set_layout 1"), DispatchAction::Request(WindowRequest::SetLayout(1)));
    assert_eq!(parse_dispatch_command("set_tags 8"), DispatchAction::Request(WindowRequest::SetTags(8)));
    assert_eq!(
        parse_dispatch_command("set_window_tag 2 16"),
        DispatchAction::Request(WindowRequest::SetToplevelTags { id: 2, tagmask: 16 })
    );
    assert_eq!(
        parse_dispatch_command("set_client_tags 3 5"),
        DispatchAction::Request(WindowRequest::SetClientTags { and_tags: 3, xor_tags: 5 })
    );
    assert_eq!(parse_dispatch_command("set_layout"), DispatchAction::Malformed);
    assert_eq!(parse_dispatch_command("set_tags x"), DispatchAction::Malformed);
    assert_eq!(parse_dispatch_command("set_window_tag 2"), DispatchAction::Malformed);
    assert_eq!(parse_dispatch_command("set_client_tags -1 2"), DispatchAction::Malformed);
    assert_eq!(parse_dispatch_command(""), DispatchAction::Ignore);
    assert_eq!(parse_dispatch_command("close_window 2"), DispatchAction::Unknown);
}

#[test]
fn ipc_commands_get_their_prefix_once() {
    assert_eq!(ipc_get_command("all-clients"), Some("get all-clients".to_string()));
    assert_eq!(ipc_get_command("get all-tags"), Some("get all-tags".to_string()));
    assert_eq!(ipc_get_command("dispatch zoom"), Some("dispatch zoom".to_string()));
    assert_eq!(ipc_get_command("watch"), None);
    assert_eq!(ipc_get_command("watch all-tags"), None);
    assert_eq!(ipc_get_command("watcher"), Some("get watcher".to_string()));
    assert_eq!(ipc_dispatch_command("zoom"), "dispatch zoom");
    assert_eq!(ipc_dispatch_command("dispatch zoom"), "dispatch zoom");
    assert_eq!(dispatch_with_arg("focusdir", "left"), "dispatch focusdir,left");
    assert_eq!(
        named_scratchpad_command("term", "foot", "rule"),
        "dispatch toggle_named_scratchpad,term,foot,rule"
    );
    assert!(watch_refusal().contains("mplug.watch"));
}

#[test]
fn shortcuts_map_to_dispatches() {
    assert_eq!(shortcut_command("zoom"), Some("dispatch zoom"));
    assert_eq!(shortcut_command("center_window"), Some("dispatch centerwin"));
    assert_eq!(shortcut_command("nothing"), None);
    let names = shortcut_names();
    assert_eq!(
        names,
        vec![
            "focus_last",
            "zoom",
            "toggle_floating",
            "toggle_fullscreen",
            "center_window",
            "toggle_gaps",
            "reload_config",
            "toggle_scratchpad",
        ]
    );
    for n in names {
        assert!(shortcut_command(n).is_some());
    }
}

#[test]
fn layer_surface_defaults_and_bits() {
    assert_eq!(
        layer_surface_request(1, None, None, None, None, None),
        LayerSurfaceRequest { id: 1, width: 200, height: 30, anchor: 0, layer: 2, exclusive_zone: 0 }
    );
    let r = layer_surface_request(2, Some(800), Some(40), Some(40), Some("top left right"), Some("overlay"));
    assert_eq!(r.anchor, 1 + 4 + 8);
    assert_eq!(r.layer, 3);
    assert_eq!((r.width, r.height, r.exclusive_zone), (800, 40, 40));
    assert_eq!(layer_surface_request(3, None, None, None, Some("bottom"), Some("background")).anchor, 2);
    assert_eq!(layer_surface_request(3, None, None, None, None, Some("background")).layer, 0);
    assert_eq!(layer_surface_request(3, None, None, None, None, Some("bottom")).layer, 1);
    assert_eq!(layer_surface_request(3, None, None, None, None, Some("middle")).layer, 2);
}

#[test]
fn argb_pixel_packs_channels() {
    assert_eq!(mplug::commands::argb_pixel(0xff, 0x12, 0x34, 0x56), 0xff12_3456);
    assert_eq!(mplug::commands::argb_pixel(0, 0, 0, 0), 0);
    assert_eq!(mplug::commands::argb_pixel(255, 255, 255, 255), u32::MAX);
}

#[test]
fn ipc_get_sends_its_own_commands_unchanged() {
    for c in ["all-clients", "get all-tags", "dispatch zoom", "watcher", ""] {
        let once = ipc_get_command(c).unwrap();
        assert_eq!(ipc_get_command(&once), Some(once.clone()));
    }
    let twice = ipc_dispatch_command(&ipc_dispatch_command("zoom"));
    assert_eq!(twice, ipc_dispatch_command("zoom"));
}

#[test]
fn dispatch_complaints_are_logged() {
    assert_eq!(
        dispatch_complaint(DispatchAction::Malformed, "set_layout x"),
        Some("malformed Wayland dispatch command from Lua: set_layout x".to_string())
    );
    assert_eq!(
        dispatch_complaint(DispatchAction::Unknown, "fly"),
        Some("unknown Wayland dispatch command from Lua: fly".to_string())
    );
    assert_eq!(dispatch_complaint(DispatchAction::Ignore, ""), None);
    assert_eq!(dispatch_complaint(DispatchAction::Request(WindowRequest::SetTags(1)), "set_tags 1"), None);
}
