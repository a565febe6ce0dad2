//! The text commands mplug reads: lines on its control socket, the
//! commands Lua hands `mplug.dispatch`, the compositor IPC commands Lua
//! sends, and the settings of a layer surface.

use vstd::prelude::*;
use crate::text::{
    contains_str, has_prefix, has_substring, join, join_spaced, parse_u32, parse_u32_spec,
    split_words, starts_with, str_eq, words,
};

verus! {

broadcast use vstd::string::group_string_axioms;

/// A request to the compositor about tags, layouts and windows.
#[derive(Debug, Clone, Copy, PartialEq, Eq, Structural)]
pub enum WindowRequest {
    SetLayout(u32),
    SetTags(u32),
    ActivateToplevel { id: u32 },
    CloseToplevel { id: u32 },
    SetToplevelTags { id: u32, tagmask: u32 },
    SetClientTags { and_tags: u32, xor_tags: u32 },
    SetToplevelMinimized { id: u32, minimized: bool },
}

/// A socket command, named by its first word.
#[derive(Debug, Clone, Copy, PartialEq, Eq, Structural)]
pub enum Verb {
    Trigger,
    SetTags,
    SetLayout,
    FocusWindow,
    CloseWindow,
    SetWindowTag,
    SetClientTags,
    SetWindowMinimized,
}

impl Verb {
    /// How the command is written.
    pub open spec fn usage_text(self) -> Seq<char> {
        match self {
            Verb::Trigger => "trigger <name>"@,
            Verb::SetTags => "set_tags <tagmask>"@,
            Verb::SetLayout => "set_layout <index>"@,
            Verb::FocusWindow => "focus_window <id>"@,
            Verb::CloseWindow => "close_window <id>"@,
            Verb::SetWindowTag => "set_window_tag <id> <tagmask>"@,
            Verb::SetClientTags => "set_client_tags <and_tags> <xor_tags>"@,
            Verb::SetWindowMinimized => "set_window_minimized <id> <true|false>"@,
        }
    }

    /// How the command is written.
    pub fn usage(&self) -> (r: &'static str)
        ensures
            r@ == self.usage_text(),
    {
        match self {
            Verb::Trigger => "trigger <name>",
            Verb::SetTags => "set_tags <tagmask>",
            Verb::SetLayout => "set_layout <index>",
            Verb::FocusWindow => "focus_window <id>",
            Verb::CloseWindow => "close_window <id>",
            Verb::SetWindowTag => "set_window_tag <id> <tagmask>",
            Verb::SetClientTags => "set_client_tags <and_tags> <xor_tags>",
            Verb::SetWindowMinimized => "set_window_minimized <id> <true|false>",
        }
    }
}

/// What a line on the control socket asks for.
#[derive(Debug, PartialEq, Eq)]
pub enum SocketAction {
    /// A blank line: nothing.
    Ignore,
    /// `trigger <name...>`: a user command for the Lua listeners.
    Trigger(String),
    /// A request to the compositor.
    Request(WindowRequest),
    /// A known command with arguments that do not fit; its usage is printed.
    Usage(Verb),
    /// Not a command; it is reported.
    Unknown,
}

/// A socket action, with its text as a sequence.
pub enum SocketActionView {
    Ignore,
    Trigger(Seq<char>),
    Request(WindowRequest),
    Usage(Verb),
    Unknown,
}

impl View for SocketAction {
    type V = SocketActionView;

    open spec fn view(&self) -> SocketActionView {
        match self {
            SocketAction::Ignore => SocketActionView::Ignore,
            SocketAction::Trigger(s) => SocketActionView::Trigger(s@),
            SocketAction::Request(r) => SocketActionView::Request(*r),
            SocketAction::Usage(v) => SocketActionView::Usage(*v),
            SocketAction::Unknown => SocketActionView::Unknown,
        }
    }
}

/// The `u32` that word `i` of `ws` spells, if it is there and spells one.
pub open spec fn word_u32(ws: Seq<Seq<char>>, i: int) -> Option<u32> {
    if 0 <= i < ws.len() {
        parse_u32_spec(ws[i])
    } else {
        None
    }
}

/// A request with one number argument: made when word 1 is a number.
pub open spec fn one_arg(ws: Seq<Seq<char>>, verb: Verb, make: spec_fn(u32) -> WindowRequest) -> SocketActionView {
    match word_u32(ws, 1) {
        Some(n) => SocketActionView::Request(make(n)),
        None => SocketActionView::Usage(verb),
    }
}

/// A request with two number arguments: made when words 1 and 2 are numbers.
pub open spec fn two_args(ws: Seq<Seq<char>>, verb: Verb, make: spec_fn(u32, u32) -> WindowRequest) -> SocketActionView {
    match (word_u32(ws, 1), word_u32(ws, 2)) {
        (Some(a), Some(b)) => SocketActionView::Request(make(a, b)),
        _ => SocketActionView::Usage(verb),
    }
}

/// What the whitespace-separated words of a socket line ask for.
pub open spec fn socket_action(ws: Seq<Seq<char>>) -> SocketActionView {
    if ws.len() == 0 {
        SocketActionView::Ignore
    } else if ws[0] == "trigger"@ {
        if ws.len() >= 2 {
            SocketActionView::Trigger(join(ws.skip(1), seq![' ']))
        } else {
            SocketActionView::Usage(Verb::Trigger)
        }
    } else if ws[0] == "set_tags"@ {
        one_arg(ws, Verb::SetTags, |n: u32| WindowRequest::SetTags(n))
    } else if ws[0] == "set_layout"@ {
        one_arg(ws, Verb::SetLayout, |n: u32| WindowRequest::SetLayout(n))
    } else if ws[0] == "focus_window"@ {
        one_arg(ws, Verb::FocusWindow, |n: u32| WindowRequest::ActivateToplevel { id: n })
    } else if ws[0] == "close_window"@ {
        one_arg(ws, Verb::CloseWindow, |n: u32| WindowRequest::CloseToplevel { id: n })
    } else if ws[0] == "set_window_tag"@ {
        two_args(ws, Verb::SetWindowTag, |a: u32, b: u32| WindowRequest::SetToplevelTags { id: a, tagmask: b })
    } else if ws[0] == "set_client_tags"@ {
        two_args(
            ws,
            Verb::SetClientTags,
            |a: u32, b: u32| WindowRequest::SetClientTags { and_tags: a, xor_tags: b },
        )
    } else if ws[0] == "set_window_minimized"@ {
        if ws.len() >= 3 {
            match parse_u32_spec(ws[1]) {
                Some(id) => SocketActionView::Request(
                    WindowRequest::SetToplevelMinimized { id, minimized: ws[2] == "true"@ || ws[2] == "1"@ },
                ),
                None => SocketActionView::Usage(Verb::SetWindowMinimized),
            }
        } else {
            SocketActionView::Usage(Verb::SetWindowMinimized)
        }
    } else {
        SocketActionView::Unknown
    }
}

/// The number in word `i`, if there is such a word and it is one.
fn word_number(ws: &Vec<String>, i: usize) -> (r: Option<u32>)
    ensures
        r == word_u32(ws.deep_view(), i as int),
{
    if i < ws.len() {
        assert(ws.deep_view()[i as int] == ws@[i as int]@);
        parse_u32(ws[i].as_str())
    } else {
        None
    }
}

/// What a (trimmed) line on the control socket asks for.
pub fn parse_socket_command(command: &str) -> (r: SocketAction)
    ensures
        r@ == socket_action(words(command@)),
{
    let ws = split_words(command);
    let ghost w = ws.deep_view();
    if ws.len() == 0 {
        return SocketAction::Ignore;
    }
    assert(w[0] == ws@[0]@);
    let verb = ws[0].as_str();
    if str_eq(verb, "trigger") {
        if ws.len() >= 2 {
            SocketAction::Trigger(join_spaced(&ws, 1))
        } else {
            SocketAction::Usage(Verb::Trigger)
        }
    } else if str_eq(verb, "set_tags") {
        match word_number(&ws, 1) {
            Some(n) => SocketAction::Request(WindowRequest::SetTags(n)),
            None => SocketAction::Usage(Verb::SetTags),
        }
    } else if str_eq(verb, "set_layout") {
        match word_number(&ws, 1) {
            Some(n) => SocketAction::Request(WindowRequest::SetLayout(n)),
            None => SocketAction::Usage(Verb::SetLayout),
        }
    } else if str_eq(verb, "focus_window") {
        match word_number(&ws, 1) {
            Some(n) => SocketAction::Request(WindowRequest::ActivateToplevel { id: n }),
            None => SocketAction::Usage(Verb::FocusWindow),
        }
    } else if str_eq(verb, "close_window") {
        match word_number(&ws, 1) {
            Some(n) => SocketAction::Request(WindowRequest::CloseToplevel { id: n }),
            None => SocketAction::Usage(Verb::CloseWindow),
        }
    } else if str_eq(verb, "set_window_tag") {
        match (word_number(&ws, 1), word_number(&ws, 2)) {
            (Some(a), Some(b)) => SocketAction::Request(WindowRequest::SetToplevelTags { id: a, tagmask: b }),
            _ => SocketAction::Usage(Verb::SetWindowTag),
        }
    } else if str_eq(verb, "set_client_tags") {
        match (word_number(&ws, 1), word_number(&ws, 2)) {
            (Some(a), Some(b)) => SocketAction::Request(
                WindowRequest::SetClientTags { and_tags: a, xor_tags: b },
            ),
            _ => SocketAction::Usage(Verb::SetClientTags),
        }
    } else if str_eq(verb, "set_window_minimized") {
        if ws.len() >= 3 {
            assert(w[1] == ws@[1]@);
            assert(w[2] == ws@[2]@);
            match parse_u32(ws[1].as_str()) {
                Some(id) => {
                    let minimized = str_eq(ws[2].as_str(), "true") || str_eq(ws[2].as_str(), "1");
                    SocketAction::Request(WindowRequest::SetToplevelMinimized { id, minimized })
                },
                None => SocketAction::Usage(Verb::SetWindowMinimized),
            }
        } else {
            SocketAction::Usage(Verb::SetWindowMinimized)
        }
    } else {
        SocketAction::Unknown
    }
}

/// The line printed for a socket command that cannot be carried out.
pub fn socket_complaint(action: &SocketAction, command: &str) -> (r: Option<String>)
    ensures
        match action {
            SocketAction::Usage(v) => r matches Some(m) && m@ == "mplug socket: usage: "@ + v.usage_text(),
            SocketAction::Unknown => r matches Some(m) && m@ == "mplug socket: unknown command: "@ + command@,
            _ => r is None,
        },
{
    match action {
        SocketAction::Usage(v) => {
            let mut m = String::from_str("mplug socket: usage: ");
            m.append(v.usage());
            Some(m)
        },
        SocketAction::Unknown => {
            let mut m = String::from_str("mplug socket: unknown command: ");
            m.append(command);
            Some(m)
        },
        _ => None,
    }
}

/// What `mplug.dispatch` does with a command.
#[derive(Debug, Clone, Copy, PartialEq, Eq, Structural)]
pub enum DispatchAction {
    /// Nothing: a blank command.
    Ignore,
    /// A request to the compositor.
    Request(WindowRequest),
    /// A command it knows, with arguments that do not fit; it is logged.
    Malformed,
    /// Not a command it knows; it is logged.
    Unknown,
}

/// What the words of a `mplug.dispatch` command ask for.
pub open spec fn dispatch_action(ws: Seq<Seq<char>>) -> DispatchAction {
    if ws.len() == 0 {
        DispatchAction::Ignore
    } else if ws[0] == "set_layout"@ || ws[0] == "set_tags"@ {
        match word_u32(ws, 1) {
            Some(n) => DispatchAction::Request(
                if ws[0] == "set_layout"@ {
                    WindowRequest::SetLayout(n)
                } else {
                    WindowRequest::SetTags(n)
                },
            ),
            None => DispatchAction::Malformed,
        }
    } else if ws[0] == "set_window_tag"@ || ws[0] == "set_client_tags"@ {
        match (word_u32(ws, 1), word_u32(ws, 2)) {
            (Some(a), Some(b)) => DispatchAction::Request(
                if ws[0] == "set_window_tag"@ {
                    WindowRequest::SetToplevelTags { id: a, tagmask: b }
                } else {
                    WindowRequest::SetClientTags { and_tags: a, xor_tags: b }
                },
            ),
            _ => DispatchAction::Malformed,
        }
    } else {
        DispatchAction::Unknown
    }
}

/// What `mplug.dispatch(command)` asks of the compositor.
pub fn parse_dispatch_command(command: &str) -> (r: DispatchAction)
    ensures
        r == dispatch_action(words(command@)),
{
    let ws = split_words(command);
    let ghost w = ws.deep_view();
    if ws.len() == 0 {
        return DispatchAction::Ignore;
    }
    assert(w[0] == ws@[0]@);
    let verb = ws[0].as_str();
    if str_eq(verb, "set_layout") || str_eq(verb, "set_tags") {
        match word_number(&ws, 1) {
            Some(n) => DispatchAction::Request(
                if str_eq(verb, "set_layout") {
                    WindowRequest::SetLayout(n)
                } else {
                    WindowRequest::SetTags(n)
                },
            ),
            None => DispatchAction::Malformed,
        }
    } else if str_eq(verb, "set_window_tag") || str_eq(verb, "set_client_tags") {
        match (word_number(&ws, 1), word_number(&ws, 2)) {
            (Some(a), Some(b)) => DispatchAction::Request(
                if str_eq(verb, "set_window_tag") {
                    WindowRequest::SetToplevelTags { id: a, tagmask: b }
                } else {
                    WindowRequest::SetClientTags { and_tags: a, xor_tags: b }
                },
            ),
            _ => DispatchAction::Malformed,
        }
    } else {
        DispatchAction::Unknown
    }
}


/// The line logged for a `mplug.dispatch` command that is not carried out.
pub fn dispatch_complaint(action: DispatchAction, command: &str) -> (r: Option<String>)
    ensures
        match action {
            DispatchAction::Unknown => r matches Some(m) && m@ == "unknown Wayland dispatch command from Lua: "@
                + command@,
            DispatchAction::Malformed => r matches Some(m) && m@
                == "malformed Wayland dispatch command from Lua: "@ + command@,
            _ => r is None,
        },
{
    match action {
        DispatchAction::Unknown => {
            let mut m = String::from_str("unknown Wayland dispatch command from Lua: ");
            m.append(command);
            Some(m)
        },
        DispatchAction::Malformed => {
            let mut m = String::from_str("malformed Wayland dispatch command from Lua: ");
            m.append(command);
            Some(m)
        },
        _ => None,
    }
}

/// Why `mplug.ipc_get` refuses a watch command.
pub fn watch_refusal() -> (r: &'static str)
    ensures
        r@ == "ipc_get is for one-shot get/dispatch; use mplug.watch(topic, callback) for streaming watches"@,
{
    "ipc_get is for one-shot get/dispatch; use mplug.watch(topic, callback) for streaming watches"
}

/// The compositor command `mplug.ipc_get(command)` sends: none for a watch
/// command; a `get` or `dispatch` command as it is; anything else as a
/// `get` command.
pub open spec fn ipc_get_spec(c: Seq<char>) -> Option<Seq<char>> {
    if c == "watch"@ || has_prefix(c, "watch "@) {
        None
    } else if has_prefix(c, "get "@) || has_prefix(c, "dispatch "@) {
        Some(c)
    } else {
        Some("get "@ + c)
    }
}

/// The compositor command `mplug.ipc_get(command)` sends; `None` for a watch
/// command, which it refuses.
pub fn ipc_get_command(command: &str) -> (r: Option<String>)
    ensures
        match r {
            Some(c) => ipc_get_spec(command@) == Some(c@),
            None => ipc_get_spec(command@) is None,
        },
{
    if str_eq(command, "watch") || starts_with(command, "watch ") {
        None
    } else if starts_with(command, "get ") || starts_with(command, "dispatch ") {
        Some(String::from_str(command))
    } else {
        let mut c = String::from_str("get ");
        c.append(command);
        Some(c)
    }
}

/// The compositor command `mplug.ipc_dispatch(command)` sends: the command
/// as a `dispatch` command.
pub open spec fn ipc_dispatch_spec(c: Seq<char>) -> Seq<char> {
    if has_prefix(c, "dispatch "@) {
        c
    } else {
        "dispatch "@ + c
    }
}

/// The compositor command `mplug.ipc_dispatch(command)` sends.
pub fn ipc_dispatch_command(command: &str) -> (r: String)
    ensures
        r@ == ipc_dispatch_spec(command@),
{
    if starts_with(command, "dispatch ") {
        String::from_str(command)
    } else {
        let mut c = String::from_str("dispatch ");
        c.append(command);
        c
    }
}

/// `dispatch <action>,<arg>`.
pub fn dispatch_with_arg(action: &str, arg: &str) -> (r: String)
    ensures
        r@ == "dispatch "@ + action@ + ","@ + arg@,
{
    let mut c = String::from_str("dispatch ");
    c.append(action);
    c.append(",");
    c.append(arg);
    c
}

/// `dispatch toggle_named_scratchpad,<name>,<command>,<rule>`.
pub fn named_scratchpad_command(name: &str, command: &str, rule: &str) -> (r: String)
    ensures
        r@ == "dispatch toggle_named_scratchpad,"@ + name@ + ","@ + command@ + ","@ + rule@,
{
    let mut c = String::from_str("dispatch toggle_named_scratchpad,");
    c.append(name);
    c.append(",");
    c.append(command);
    c.append(",");
    c.append(rule);
    c
}

/// The compositor commands behind the argument-less `mplug` functions.
pub open spec fn shortcut_spec(f: Seq<char>) -> Option<Seq<char>> {
    if f == "focus_last"@ {
        Some("dispatch focuslast"@)
    } else if f == "zoom"@ {
        Some("dispatch zoom"@)
    } else if f == "toggle_floating"@ {
        Some("dispatch togglefloating"@)
    } else if f == "toggle_fullscreen"@ {
        Some("dispatch togglefullscreen"@)
    } else if f == "center_window"@ {
        Some("dispatch centerwin"@)
    } else if f == "toggle_gaps"@ {
        Some("dispatch togglegaps"@)
    } else if f == "reload_config"@ {
        Some("dispatch reload_config"@)
    } else if f == "toggle_scratchpad"@ {
        Some("dispatch toggle_scratchpad"@)
    } else {
        None
    }
}

/// The names of the argument-less `mplug` functions that send a compositor
/// command.
pub fn shortcut_names() -> (r: Vec<&'static str>)
    ensures
        r@.map_values(|n: &str| n@) == seq![
            "focus_last"@,
            "zoom"@,
            "toggle_floating"@,
            "toggle_fullscreen"@,
            "center_window"@,
            "toggle_gaps"@,
            "reload_config"@,
            "toggle_scratchpad"@,
        ],
        forall|i: int| 0 <= i < r@.len() ==> shortcut_spec((#[trigger] r@[i])@) is Some,
{
    proof {
        reveal_strlit("focus_last");
        reveal_strlit("zoom");
        reveal_strlit("toggle_floating");
        reveal_strlit("toggle_fullscreen");
        reveal_strlit("center_window");
        reveal_strlit("toggle_gaps");
        reveal_strlit("reload_config");
        reveal_strlit("toggle_scratchpad");
    }
    let r = vec![
        "focus_last",
        "zoom",
        "toggle_floating",
        "toggle_fullscreen",
        "center_window",
        "toggle_gaps",
        "reload_config",
        "toggle_scratchpad",
    ];
    assert(r@.map_values(|n: &str| n@) =~= seq![
        "focus_last"@,
        "zoom"@,
        "toggle_floating"@,
        "toggle_fullscreen"@,
        "center_window"@,
        "toggle_gaps"@,
        "reload_config"@,
        "toggle_scratchpad"@,
    ]);
    r
}

/// The compositor command the argument-less `mplug` function `name` sends.
pub fn shortcut_command(name: &str) -> (r: Option<&'static str>)
    ensures
        match r {
            Some(c) => shortcut_spec(name@) == Some(c@),
            None => shortcut_spec(name@) is None,
        },
{
    if str_eq(name, "focus_last") {
        Some("dispatch focuslast")
    } else if str_eq(name, "zoom") {
        Some("dispatch zoom")
    } else if str_eq(name, "toggle_floating") {
        Some("dispatch togglefloating")
    } else if str_eq(name, "toggle_fullscreen") {
        Some("dispatch togglefullscreen")
    } else if str_eq(name, "center_window") {
        Some("dispatch centerwin")
    } else if str_eq(name, "toggle_gaps") {
        Some("dispatch togglegaps")
    } else if str_eq(name, "reload_config") {
        Some("dispatch reload_config")
    } else if str_eq(name, "toggle_scratchpad") {
        Some("dispatch toggle_scratchpad")
    } else {
        None
    }
}

/// A layer surface that Lua asked for.
#[derive(Debug, Clone, Copy, PartialEq, Eq, Structural)]
pub struct LayerSurfaceRequest {
    pub id: u32,
    pub width: u32,
    pub height: u32,
    /// Edges it sticks to: 1 top, 2 bottom, 4 left, 8 right.
    pub anchor: u32,
    /// 0 background, 1 bottom, 2 top, 3 overlay.
    pub layer: u32,
    pub exclusive_zone: i32,
}

/// The edges an anchor setting names: each of `top`, `bottom`, `left` and
/// `right` that occurs in it.
pub open spec fn anchor_bits(a: Seq<char>) -> u32 {
    ((if has_substring(a, "top"@) { 1int } else { 0int }) + (if has_substring(a, "bottom"@) { 2int } else { 0int })
        + (if has_substring(a, "left"@) { 4int } else { 0int }) + (if has_substring(a, "right"@) { 8int } else { 0int })) as u32
}

/// The layer a setting names; `top` when it names none or is missing.
pub open spec fn layer_number(l: Option<Seq<char>>) -> u32 {
    match l {
        Some(t) => if t == "background"@ {
            0
        } else if t == "bottom"@ {
            1
        } else if t == "overlay"@ {
            3
        } else {
            2
        },
        None => 2,
    }
}

/// The surface `mplug.create_layer_surface` asks for, from the settings Lua
/// gave: 200 by 30 pixels, no exclusive zone, no anchor and the top layer
/// unless set otherwise.
pub fn layer_surface_request(
    id: u32,
    width: Option<u32>,
    height: Option<u32>,
    exclusive_zone: Option<i32>,
    anchor: Option<&str>,
    layer: Option<&str>,
) -> (r: LayerSurfaceRequest)
    ensures
        r.id == id,
        r.width == match width {
            Some(w) => w,
            None => 200,
        },
        r.height == match height {
            Some(h) => h,
            None => 30,
        },
        r.exclusive_zone == match exclusive_zone {
            Some(z) => z,
            None => 0,
        },
        r.anchor == match anchor {
            Some(a) => anchor_bits(a@),
            None => 0,
        },
        r.layer == layer_number(
            match layer {
                Some(l) => Some(l@),
                None => None,
            },
        ),
{
    let mut bits: u32 = 0;
    match anchor {
        Some(a) => {
            if contains_str(a, "top") {
                bits = bits + 1;
            }
            if contains_str(a, "bottom") {
                bits = bits + 2;
            }
            if contains_str(a, "left") {
                bits = bits + 4;
            }
            if contains_str(a, "right") {
                bits = bits + 8;
            }
        },
        None => {},
    }
    let layer_no: u32 = match layer {
        Some(l) => if str_eq(l, "background") {
            0
        } else if str_eq(l, "bottom") {
            1
        } else if str_eq(l, "overlay") {
            3
        } else {
            2
        },
        None => 2,
    };
    LayerSurfaceRequest {
        id,
        width: match width {
            Some(w) => w,
            None => 200,
        },
        height: match height {
            Some(h) => h,
            None => 30,
        },
        anchor: bits,
        layer: layer_no,
        exclusive_zone: match exclusive_zone {
            Some(z) => z,
            None => 0,
        },
    }
}

/// A pixel in the ARGB8888 format: alpha in the top byte, then red, green
/// and blue.
pub fn argb_pixel(a: u8, r: u8, g: u8, b: u8) -> (p: u32)
    ensures
        p == a * 16777216 + r * 65536 + g * 256 + b,
{
    (a as u32) * 16777216 + (r as u32) * 65536 + (g as u32) * 256 + (b as u32)
}

} // verus!
