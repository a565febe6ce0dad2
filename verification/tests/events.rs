use mplug::events::{
    decode_states, HeadPending, OutputHead, RuntimeState, StateEvent, TagState, ToplevelInfo, ToplevelPending, WorkspaceInfo,
    WorkspacePending,
};

fn le(values: &[u32]) -> Vec<u8> {
    values.iter().flat_map(|v| v.to_le_bytes()).collect()
}

#[test]
fn states_decode_in_either_byte_order() {
    assert_eq!(decode_states(&vec![2, 0, 0, 0, 1, 0, 0, 0], true), vec![2, 1]);
    assert_eq!(decode_states(&vec![0, 0, 0, 2, 0, 0, 1, 0], false), vec![2, 256]);
    assert_eq!(decode_states(&vec![3, 0, 0, 0, 9], true), vec![3]);
    assert!(decode_states(&vec![], true).is_empty());
}

#[test]
fn toplevel_from_pending_reads_states() {
    let mut p = ToplevelPending::new();
    p.title = Some("term".to_string());
    p.states = le(&[2, 3]);
    let info = ToplevelInfo::from_pending(&p, true);
    assert_eq!(info.title, "term");
    assert_eq!(info.app_id, "");
    assert!(info.activated && info.fullscreen);
    assert!(!info.minimized && !info.maximized);
    p.states = le(&[0, 1]);
    let info = ToplevelInfo::from_pending(&p, true);
    assert!(info.maximized && info.minimized && !info.activated);
}

#[test]
fn workspace_from_pending_reads_bits() {
    let w = WorkspaceInfo::from_pending(WorkspacePending { name: Some("1".to_string()), state: 5 });
    assert_eq!(w.name, "1");
    assert!(w.active && !w.urgent && w.hidden);
    let w = WorkspaceInfo::from_pending(WorkspacePending::new());
    assert_eq!(w.name, "");
    assert!(!w.active && !w.urgent && !w.hidden);
}

fn window(title: &str, activated: bool) -> ToplevelInfo {
    ToplevelInfo {
        title: title.to_string(),
        app_id: "app".to_string(),
        activated,
        minimized: false,
        maximized: false,
        fullscreen: false,
    }
}

#[test]
fn state_follows_events() {
    let mut s = RuntimeState::new();
    assert!(s.output_power_on && !s.idle);
    s.apply(StateEvent::TagsAmount(9));
    s.apply(StateEvent::LayoutName("tile".to_string()));
    s.apply(StateEvent::OutputLayout(1));
    s.apply(StateEvent::OutputLayoutSymbol("[]=".to_string()));
    s.apply(StateEvent::OutputTag { tag: 1, state: TagState { state: 1, clients: 2, focused: 1 } });
    s.apply(StateEvent::ToplevelUpdated { id: 4, info: window("a", true) });
    s.apply(StateEvent::ToplevelUpdated { id: 5, info: window("b", false) });
    s.apply(StateEvent::WorkspaceUpdated {
        id: 1,
        info: WorkspaceInfo { name: "one".to_string(), active: true, urgent: false, hidden: false },
    });
    s.apply(StateEvent::Idled);
    s.apply(StateEvent::OutputPowerMode { on: false });
    s.apply(StateEvent::IpcKeyMode("resize".to_string()));
    s.apply(StateEvent::IpcKeyboardLayout("us".to_string()));
    s.apply(StateEvent::IpcTags("[]".to_string()));
    assert_eq!(s.tag_count, 9);
    assert_eq!(s.layout_name, "tile");
    assert_eq!(s.layout_index, 1);
    assert_eq!(s.layout_symbol, "[]=");
    assert_eq!(s.tags.get(&1), Some(&TagState { state: 1, clients: 2, focused: 1 }));
    assert_eq!(s.toplevels.get(&4).map(|t| t.title.as_str()), Some("a"));
    assert_eq!(s.workspaces.len(), 1);
    assert!(s.idle && !s.output_power_on);
    assert_eq!(s.keymode, "resize");
    assert_eq!(s.keyboard_layout, "us");
    assert_eq!(s.ipc_tags.as_deref(), Some("[]"));
    assert!(s.ipc_clients.is_none());

    s.apply(StateEvent::ToplevelClosed { id: 4 });
    s.apply(StateEvent::WorkspaceClosed { id: 1 });
    s.apply(StateEvent::IdleResumed);
    s.apply(StateEvent::Other);
    assert!(s.toplevels.get(&4).is_none());
    assert!(s.toplevels.get(&5).is_some());
    assert!(s.workspaces.is_empty());
    assert!(!s.idle);
}

#[test]
fn output_head_keeps_what_was_not_told() {
    let mut head = OutputHead::new();
    let mut p = HeadPending::new();
    p.name = Some("DP-1".to_string());
    p.x = Some(1920);
    p.enabled = Some(true);
    p.current_mode = Some((2560, 1440, 144000));
    head.update(p);
    assert_eq!(head.name, "DP-1");
    assert_eq!((head.x, head.y), (1920, 0));
    assert!(head.enabled);
    assert_eq!((head.width_px, head.height_px, head.refresh), (2560, 1440, 144000));
    let mut q = HeadPending::new();
    q.y = Some(-50);
    q.transform = Some(1);
    head.update(q);
    assert_eq!(head.name, "DP-1");
    assert_eq!((head.x, head.y, head.transform), (1920, -50, 1));
    assert_eq!(head.width_px, 2560);
}

#[test]
fn active_tags_and_focused_window() {
    let mut s = RuntimeState::new();
    assert!(s.active_tags().is_empty());
    assert_eq!(s.focused_window(), None);
    for (tag, state) in [(1, 1), (2, 0), (3, 1), (4, 2)] {
        s.apply(StateEvent::OutputTag { tag, state: TagState { state, clients: 0, focused: 0 } });
    }
    let mut active = s.active_tags();
    active.sort();
    assert_eq!(active, vec![1, 3]);
    s.apply(StateEvent::ToplevelUpdated { id: 7, info: window("x", false) });
    assert_eq!(s.focused_window(), None);
    s.apply(StateEvent::ToplevelUpdated { id: 8, info: window("y", true) });
    assert_eq!(s.focused_window(), Some(8));
    s.apply(StateEvent::ToplevelClosed { id: 8 });
    assert_eq!(s.focused_window(), None);
}
