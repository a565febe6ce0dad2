//! Compositor state as the Lua listeners see it: windows and workspaces
//! built from protocol events, and the state table kept across events.

use vstd::prelude::*;
use std::collections::HashMap;
use vstd::std_specs::hash::spec_hash_map_iter;
use vstd::std_specs::iter::IteratorSpec;

verus! {

broadcast use {vstd::std_specs::hash::group_hash_axioms, vstd::string::group_string_axioms};

/// A toplevel window.
#[derive(Debug, Clone)]
pub struct ToplevelInfo {
    pub title: String,
    pub app_id: String,
    pub activated: bool,
    pub minimized: bool,
    pub maximized: bool,
    pub fullscreen: bool,
}

/// A window, with its texts as sequences.
pub struct ToplevelView {
    pub title: Seq<char>,
    pub app_id: Seq<char>,
    pub activated: bool,
    pub minimized: bool,
    pub maximized: bool,
    pub fullscreen: bool,
}

impl View for ToplevelInfo {
    type V = ToplevelView;

    open spec fn view(&self) -> ToplevelView {
        ToplevelView {
            title: self.title@,
            app_id: self.app_id@,
            activated: self.activated,
            minimized: self.minimized,
            maximized: self.maximized,
            fullscreen: self.fullscreen,
        }
    }
}

/// A workspace.
#[derive(Debug, Clone)]
pub struct WorkspaceInfo {
    pub name: String,
    pub active: bool,
    pub urgent: bool,
    pub hidden: bool,
}

/// A workspace, with its name as a sequence.
pub struct WorkspaceView {
    pub name: Seq<char>,
    pub active: bool,
    pub urgent: bool,
    pub hidden: bool,
}

impl View for WorkspaceInfo {
    type V = WorkspaceView;

    open spec fn view(&self) -> WorkspaceView {
        WorkspaceView { name: self.name@, active: self.active, urgent: self.urgent, hidden: self.hidden }
    }
}

/// The state of one tag of the output.
#[derive(Debug, Clone, Copy, PartialEq, Eq, Structural)]
pub struct TagState {
    /// 0 none, 1 active, 2 urgent.
    pub state: u32,
    pub clients: u32,
    /// Non-zero when the tag holds the focused client.
    pub focused: u32,
}

/// An event that the state table follows.
pub enum StateEvent {
    TagsAmount(u32),
    LayoutName(String),
    OutputLayout(u32),
    OutputLayoutSymbol(String),
    OutputTag { tag: u32, state: TagState },
    ToplevelUpdated { id: u32, info: ToplevelInfo },
    ToplevelClosed { id: u32 },
    WorkspaceUpdated { id: u32, info: WorkspaceInfo },
    WorkspaceClosed { id: u32 },
    Idled,
    IdleResumed,
    OutputPowerMode { on: bool },
    IpcKeyMode(String),
    IpcKeyboardLayout(String),
    /// All monitors, as JSON text.
    IpcMonitors(String),
    /// All clients, as JSON text.
    IpcClients(String),
    /// All tags, as JSON text.
    IpcTags(String),
    /// Any other event: the state stays as it is.
    Other,
}

/// A state event, with its texts as sequences.
pub enum StateEventView {
    TagsAmount(u32),
    LayoutName(Seq<char>),
    OutputLayout(u32),
    OutputLayoutSymbol(Seq<char>),
    OutputTag { tag: u32, state: TagState },
    ToplevelUpdated { id: u32, info: ToplevelView },
    ToplevelClosed { id: u32 },
    WorkspaceUpdated { id: u32, info: WorkspaceView },
    WorkspaceClosed { id: u32 },
    Idled,
    IdleResumed,
    OutputPowerMode { on: bool },
    IpcKeyMode(Seq<char>),
    IpcKeyboardLayout(Seq<char>),
    IpcMonitors(Seq<char>),
    IpcClients(Seq<char>),
    IpcTags(Seq<char>),
    Other,
}

impl View for StateEvent {
    type V = StateEventView;

    open spec fn view(&self) -> StateEventView {
        match self {
            StateEvent::TagsAmount(n) => StateEventView::TagsAmount(*n),
            StateEvent::LayoutName(s) => StateEventView::LayoutName(s@),
            StateEvent::OutputLayout(n) => StateEventView::OutputLayout(*n),
            StateEvent::OutputLayoutSymbol(s) => StateEventView::OutputLayoutSymbol(s@),
            StateEvent::OutputTag { tag, state } => StateEventView::OutputTag { tag: *tag, state: *state },
            StateEvent::ToplevelUpdated { id, info } => StateEventView::ToplevelUpdated { id: *id, info: info@ },
            StateEvent::ToplevelClosed { id } => StateEventView::ToplevelClosed { id: *id },
            StateEvent::WorkspaceUpdated { id, info } => StateEventView::WorkspaceUpdated { id: *id, info: info@ },
            StateEvent::WorkspaceClosed { id } => StateEventView::WorkspaceClosed { id: *id },
            StateEvent::Idled => StateEventView::Idled,
            StateEvent::IdleResumed => StateEventView::IdleResumed,
            StateEvent::OutputPowerMode { on } => StateEventView::OutputPowerMode { on: *on },
            StateEvent::IpcKeyMode(s) => StateEventView::IpcKeyMode(s@),
            StateEvent::IpcKeyboardLayout(s) => StateEventView::IpcKeyboardLayout(s@),
            StateEvent::IpcMonitors(s) => StateEventView::IpcMonitors(s@),
            StateEvent::IpcClients(s) => StateEventView::IpcClients(s@),
            StateEvent::IpcTags(s) => StateEventView::IpcTags(s@),
            StateEvent::Other => StateEventView::Other,
        }
    }
}

/// What the listeners are told of the compositor, kept across events.
pub struct RuntimeState {
    pub tag_count: u32,
    pub layout_name: String,
    pub layout_index: u32,
    pub layout_symbol: String,
    pub idle: bool,
    pub output_power_on: bool,
    pub keymode: String,
    pub keyboard_layout: String,
    /// The last `all-monitors` value, as JSON text.
    pub ipc_monitors: Option<String>,
    /// The last `all-clients` value, as JSON text.
    pub ipc_clients: Option<String>,
    /// The last `all-tags` value, as JSON text.
    pub ipc_tags: Option<String>,
    pub tags: HashMap<u32, TagState>,
    pub toplevels: HashMap<u32, ToplevelInfo>,
    pub workspaces: HashMap<u32, WorkspaceInfo>,
}

/// The state table, with its texts as sequences and its tables as maps.
pub struct StateView {
    pub tag_count: u32,
    pub layout_name: Seq<char>,
    pub layout_index: u32,
    pub layout_symbol: Seq<char>,
    pub idle: bool,
    pub output_power_on: bool,
    pub keymode: Seq<char>,
    pub keyboard_layout: Seq<char>,
    pub ipc_monitors: Option<Seq<char>>,
    pub ipc_clients: Option<Seq<char>>,
    pub ipc_tags: Option<Seq<char>>,
    pub tags: Map<u32, TagState>,
    pub toplevels: Map<u32, ToplevelView>,
    pub workspaces: Map<u32, WorkspaceView>,
}

/// The text of an optional string.
pub open spec fn opt_view(s: Option<String>) -> Option<Seq<char>> {
    match s {
        Some(t) => Some(t@),
        None => None,
    }
}

impl View for RuntimeState {
    type V = StateView;

    open spec fn view(&self) -> StateView {
        StateView {
            tag_count: self.tag_count,
            layout_name: self.layout_name@,
            layout_index: self.layout_index,
            layout_symbol: self.layout_symbol@,
            idle: self.idle,
            output_power_on: self.output_power_on,
            keymode: self.keymode@,
            keyboard_layout: self.keyboard_layout@,
            ipc_monitors: opt_view(self.ipc_monitors),
            ipc_clients: opt_view(self.ipc_clients),
            ipc_tags: opt_view(self.ipc_tags),
            tags: self.tags@,
            toplevels: self.toplevels@.map_values(|t: ToplevelInfo| t@),
            workspaces: self.workspaces@.map_values(|w: WorkspaceInfo| w@),
        }
    }
}

/// The state after an event: each event sets what it reports, a closed
/// window or workspace leaves its table, and any other event changes
/// nothing.
pub open spec fn step(s: StateView, e: StateEventView) -> StateView {
    match e {
        StateEventView::TagsAmount(n) => StateView { tag_count: n, ..s },
        StateEventView::LayoutName(t) => StateView { layout_name: t, ..s },
        StateEventView::OutputLayout(n) => StateView { layout_index: n, ..s },
        StateEventView::OutputLayoutSymbol(t) => StateView { layout_symbol: t, ..s },
        StateEventView::OutputTag { tag, state } => StateView { tags: s.tags.insert(tag, state), ..s },
        StateEventView::ToplevelUpdated { id, info } => StateView { toplevels: s.toplevels.insert(id, info), ..s },
        StateEventView::ToplevelClosed { id } => StateView { toplevels: s.toplevels.remove(id), ..s },
        StateEventView::WorkspaceUpdated { id, info } => StateView {
            workspaces: s.workspaces.insert(id, info),
            ..s
        },
        StateEventView::WorkspaceClosed { id } => StateView { workspaces: s.workspaces.remove(id), ..s },
        StateEventView::Idled => StateView { idle: true, ..s },
        StateEventView::IdleResumed => StateView { idle: false, ..s },
        StateEventView::OutputPowerMode { on } => StateView { output_power_on: on, ..s },
        StateEventView::IpcKeyMode(t) => StateView { keymode: t, ..s },
        StateEventView::IpcKeyboardLayout(t) => StateView { keyboard_layout: t, ..s },
        StateEventView::IpcMonitors(t) => StateView { ipc_monitors: Some(t), ..s },
        StateEventView::IpcClients(t) => StateView { ipc_clients: Some(t), ..s },
        StateEventView::IpcTags(t) => StateView { ipc_tags: Some(t), ..s },
        StateEventView::Other => s,
    }
}

impl RuntimeState {
    /// The state before any event: no tags, windows or workspaces, empty
    /// names, not idle, outputs powered on.
    pub fn new() -> (r: RuntimeState)
        ensures
            r@.tag_count == 0,
            r@.layout_name == Seq::<char>::empty(),
            r@.layout_index == 0,
            r@.layout_symbol == Seq::<char>::empty(),
            !r@.idle,
            r@.output_power_on,
            r@.keymode == Seq::<char>::empty(),
            r@.keyboard_layout == Seq::<char>::empty(),
            r@.ipc_monitors is None,
            r@.ipc_clients is None,
            r@.ipc_tags is None,
            r@.tags == Map::<u32, TagState>::empty(),
            r@.toplevels == Map::<u32, ToplevelView>::empty(),
            r@.workspaces == Map::<u32, WorkspaceView>::empty(),
    {
        let r = RuntimeState {
            tag_count: 0,
            layout_name: String::new(),
            layout_index: 0,
            layout_symbol: String::new(),
            idle: false,
            output_power_on: true,
            keymode: String::new(),
            keyboard_layout: String::new(),
            ipc_monitors: None,
            ipc_clients: None,
            ipc_tags: None,
            tags: HashMap::new(),
            toplevels: HashMap::new(),
            workspaces: HashMap::new(),
        };
        assert(r.toplevels@.map_values(|t: ToplevelInfo| t@) =~= Map::<u32, ToplevelView>::empty());
        assert(r.workspaces@.map_values(|w: WorkspaceInfo| w@) =~= Map::<u32, WorkspaceView>::empty());
        r
    }

    /// Follows one event.
    pub fn apply(&mut self, event: StateEvent)
        ensures
            final(self)@ == step(old(self)@, event@),
    {
        let ghost before = self@;
        match event {
            StateEvent::TagsAmount(n) => {
                self.tag_count = n;
            },
            StateEvent::LayoutName(t) => {
                self.layout_name = t;
            },
            StateEvent::OutputLayout(n) => {
                self.layout_index = n;
            },
            StateEvent::OutputLayoutSymbol(t) => {
                self.layout_symbol = t;
            },
            StateEvent::OutputTag { tag, state } => {
                self.tags.insert(tag, state);
            },
            StateEvent::ToplevelUpdated { id, info } => {
                let ghost v = info@;
                self.toplevels.insert(id, info);
                assert(self.toplevels@.map_values(|t: ToplevelInfo| t@) =~= before.toplevels.insert(id, v));
            },
            StateEvent::ToplevelClosed { id } => {
                self.toplevels.remove(&id);
                assert(self.toplevels@.map_values(|t: ToplevelInfo| t@) =~= before.toplevels.remove(id));
            },
            StateEvent::WorkspaceUpdated { id, info } => {
                let ghost v = info@;
                self.workspaces.insert(id, info);
                assert(self.workspaces@.map_values(|w: WorkspaceInfo| w@) =~= before.workspaces.insert(id, v));
            },
            StateEvent::WorkspaceClosed { id } => {
                self.workspaces.remove(&id);
                assert(self.workspaces@.map_values(|w: WorkspaceInfo| w@) =~= before.workspaces.remove(id));
            },
            StateEvent::Idled => {
                self.idle = true;
            },
            StateEvent::IdleResumed => {
                self.idle = false;
            },
            StateEvent::OutputPowerMode { on } => {
                self.output_power_on = on;
            },
            StateEvent::IpcKeyMode(t) => {
                self.keymode = t;
            },
            StateEvent::IpcKeyboardLayout(t) => {
                self.keyboard_layout = t;
            },
            StateEvent::IpcMonitors(t) => {
                self.ipc_monitors = Some(t);
            },
            StateEvent::IpcClients(t) => {
                self.ipc_clients = Some(t);
            },
            StateEvent::IpcTags(t) => {
                self.ipc_tags = Some(t);
            },
            StateEvent::Other => {},
        }
    }
}

/// The text of an optional string, empty when absent.
pub open spec fn text_or_empty(s: Option<String>) -> Seq<char> {
    match s {
        Some(t) => t@,
        None => Seq::empty(),
    }
}

/// A copy of an optional string, empty when absent.
fn copy_or_empty(s: &Option<String>) -> (r: String)
    ensures
        r@ == text_or_empty(*s),
{
    match s {
        Some(t) => String::from_str(t.as_str()),
        None => String::new(),
    }
}

/// What the compositor has told of a window since its last `done`.
#[derive(Debug)]
pub struct ToplevelPending {
    pub title: Option<String>,
    pub app_id: Option<String>,
    /// The raw state array: 32-bit values in the machine's byte order.
    pub states: Vec<u8>,
}

impl ToplevelPending {
    /// Nothing told yet.
    pub fn new() -> (r: ToplevelPending)
        ensures
            r.title is None,
            r.app_id is None,
            r.states@ == Seq::<u8>::empty(),
    {
        ToplevelPending { title: None, app_id: None, states: Vec::new() }
    }
}

/// The 32-bit value in bytes `b[0..4]`, least significant byte first when
/// `little_endian`, else most significant first.
pub open spec fn word_of(b: Seq<u8>, little_endian: bool) -> u32 {
    if little_endian {
        (b[0] + 256 * b[1] + 65536 * b[2] + 16777216 * b[3]) as u32
    } else {
        (b[3] + 256 * b[2] + 65536 * b[1] + 16777216 * b[0]) as u32
    }
}

/// The whole 32-bit values of a byte array, in order; a trailing part of
/// fewer than four bytes is left out.
pub open spec fn words_of(raw: Seq<u8>, little_endian: bool) -> Seq<u32>
    decreases raw.len(),
{
    if raw.len() < 4 {
        seq![]
    } else {
        seq![word_of(raw, little_endian)] + words_of(raw.skip(4), little_endian)
    }
}

/// The 32-bit values of a state array.
pub fn decode_states(raw: &Vec<u8>, little_endian: bool) -> (r: Vec<u32>)
    ensures
        r@ == words_of(raw@, little_endian),
{
    let n = raw.len();
    let mut r: Vec<u32> = Vec::new();
    let mut off: usize = 0;
    assert(raw@.skip(0) =~= raw@);
    while 4 <= n - off
        invariant
            off <= n == raw.len(),
            r@ + words_of(raw@.skip(off as int), little_endian) == words_of(raw@, little_endian),
        decreases n - off,
    {
        let b0 = raw[off] as u32;
        let b1 = raw[off + 1] as u32;
        let b2 = raw[off + 2] as u32;
        let b3 = raw[off + 3] as u32;
        let w: u32 = if little_endian {
            b0 + 256 * b1 + 65536 * b2 + 16777216 * b3
        } else {
            b3 + 256 * b2 + 65536 * b1 + 16777216 * b0
        };
        proof {
            let t = raw@.skip(off as int);
            assert(t[0] == raw@[off as int] && t[1] == raw@[off + 1] && t[2] == raw@[off + 2] && t[3]
                == raw@[off + 3]);
            assert(w == word_of(t, little_endian));
            assert(t.skip(4) =~= raw@.skip(off + 4));
            assert(r@.push(w) + words_of(raw@.skip(off + 4), little_endian) =~= r@ + words_of(t, little_endian));
        }
        r.push(w);
        off = off + 4;
    }
    proof {
        assert(words_of(raw@.skip(off as int), little_endian) =~= seq![]);
        assert(r@ + seq![] =~= r@);
    }
    r
}

/// Whether `v` is one of `words`.
fn has_word(words: &Vec<u32>, v: u32) -> (r: bool)
    ensures
        r == words@.contains(v),
{
    let mut i: usize = 0;
    while i < words.len()
        invariant
            i <= words.len(),
            forall|k: int| 0 <= k < i ==> words@[k] != v,
        decreases words.len() - i,
    {
        if words[i] == v {
            return true;
        }
        i = i + 1;
    }
    false
}

impl ToplevelInfo {
    /// The window the compositor described once it said `done`: the title
    /// and app id told (empty when not told), and its states: 2 activated,
    /// 1 minimized, 0 maximized, 3 fullscreen.
    pub fn from_pending(p: &ToplevelPending, little_endian: bool) -> (r: ToplevelInfo)
        ensures
            r@ == (ToplevelView {
                title: text_or_empty(p.title),
                app_id: text_or_empty(p.app_id),
                activated: words_of(p.states@, little_endian).contains(2),
                minimized: words_of(p.states@, little_endian).contains(1),
                maximized: words_of(p.states@, little_endian).contains(0),
                fullscreen: words_of(p.states@, little_endian).contains(3),
            }),
    {
        let words = decode_states(&p.states, little_endian);
        ToplevelInfo {
            title: copy_or_empty(&p.title),
            app_id: copy_or_empty(&p.app_id),
            activated: has_word(&words, 2),
            minimized: has_word(&words, 1),
            maximized: has_word(&words, 0),
            fullscreen: has_word(&words, 3),
        }
    }
}

/// What the compositor has told of a workspace since its last `done`.
#[derive(Debug)]
pub struct WorkspacePending {
    pub name: Option<String>,
    /// The state bits: 1 active, 2 urgent, 4 hidden.
    pub state: u32,
}

impl WorkspacePending {
    /// Nothing told yet.
    pub fn new() -> (r: WorkspacePending)
        ensures
            r.name is None,
            r.state == 0,
    {
        WorkspacePending { name: None, state: 0 }
    }
}

impl WorkspaceInfo {
    /// The workspace the compositor described once it said `done`: its
    /// name (empty when not told) and its state bits.
    pub fn from_pending(p: WorkspacePending) -> (r: WorkspaceInfo)
        ensures
            r@ == (WorkspaceView {
                name: text_or_empty(p.name),
                active: p.state & 1 != 0,
                urgent: p.state & 2 != 0,
                hidden: p.state & 4 != 0,
            }),
    {
        let name = match p.name {
            Some(n) => n,
            None => String::new(),
        };
        WorkspaceInfo { name, active: p.state & 1 != 0, urgent: p.state & 2 != 0, hidden: p.state & 4 != 0 }
    }
}

/// An output head, but for its scale.
#[derive(Debug, Clone)]
pub struct OutputHead {
    pub name: String,
    pub description: String,
    pub width_mm: i32,
    pub height_mm: i32,
    pub x: i32,
    pub y: i32,
    pub enabled: bool,
    pub width_px: i32,
    pub height_px: i32,
    pub refresh: i32,
    pub transform: u32,
}

/// What the compositor has told of an output head since its last `done`;
/// the current mode comes as its size and refresh rate, when known.
#[derive(Debug)]
pub struct HeadPending {
    pub name: Option<String>,
    pub description: Option<String>,
    pub width_mm: Option<i32>,
    pub height_mm: Option<i32>,
    pub x: Option<i32>,
    pub y: Option<i32>,
    pub enabled: Option<bool>,
    pub current_mode: Option<(i32, i32, i32)>,
    pub transform: Option<u32>,
}

/// `new` when given, else `old`.
pub open spec fn told<T>(new: Option<T>, old: T) -> T {
    match new {
        Some(v) => v,
        None => old,
    }
}

/// The text of `new` when given, else `old`.
pub open spec fn told_text(new: Option<String>, old: Seq<char>) -> Seq<char> {
    match new {
        Some(v) => v@,
        None => old,
    }
}

impl HeadPending {
    /// Nothing told yet.
    pub fn new() -> (r: HeadPending)
        ensures
            r.name is None && r.description is None && r.width_mm is None && r.height_mm is None,
            r.x is None && r.y is None && r.enabled is None && r.current_mode is None,
            r.transform is None,
    {
        HeadPending {
            name: None,
            description: None,
            width_mm: None,
            height_mm: None,
            x: None,
            y: None,
            enabled: None,
            current_mode: None,
            transform: None,
        }
    }
}

impl OutputHead {
    /// A head not described yet: empty names, zero sizes, disabled.
    pub fn new() -> (r: OutputHead)
        ensures
            r.name@ == Seq::<char>::empty() && r.description@ == Seq::<char>::empty(),
            r.width_mm == 0 && r.height_mm == 0 && r.x == 0 && r.y == 0 && !r.enabled,
            r.width_px == 0 && r.height_px == 0 && r.refresh == 0 && r.transform == 0,
    {
        OutputHead {
            name: String::new(),
            description: String::new(),
            width_mm: 0,
            height_mm: 0,
            x: 0,
            y: 0,
            enabled: false,
            width_px: 0,
            height_px: 0,
            refresh: 0,
            transform: 0,
        }
    }

    /// Takes in what was told since the last `done`; what was not told
    /// stays as it was.
    pub fn update(&mut self, p: HeadPending)
        ensures
            final(self).name@ == told_text(p.name, old(self).name@),
            final(self).description@ == told_text(p.description, old(self).description@),
            final(self).width_mm == told(p.width_mm, old(self).width_mm),
            final(self).height_mm == told(p.height_mm, old(self).height_mm),
            final(self).x == told(p.x, old(self).x),
            final(self).y == told(p.y, old(self).y),
            final(self).enabled == told(p.enabled, old(self).enabled),
            final(self).transform == told(p.transform, old(self).transform),
            (final(self).width_px, final(self).height_px, final(self).refresh) == told(
                p.current_mode,
                (old(self).width_px, old(self).height_px, old(self).refresh),
            ),
    {
        if let Some(v) = p.name {
            self.name = v;
        }
        if let Some(v) = p.description {
            self.description = v;
        }
        if let Some(v) = p.width_mm {
            self.width_mm = v;
        }
        if let Some(v) = p.height_mm {
            self.height_mm = v;
        }
        if let Some(v) = p.x {
            self.x = v;
        }
        if let Some(v) = p.y {
            self.y = v;
        }
        if let Some(v) = p.enabled {
            self.enabled = v;
        }
        if let Some(v) = p.transform {
            self.transform = v;
        }
        if let Some((w, h, r)) = p.current_mode {
            self.width_px = w;
            self.height_px = h;
            self.refresh = r;
        }
    }
}

/// The keys of the active tags (state 1) among map entries, in order.
pub open spec fn active_keys(ps: Seq<(&u32, &TagState)>) -> Seq<u32>
    decreases ps.len(),
{
    if ps.len() == 0 {
        seq![]
    } else {
        let prev = active_keys(ps.drop_last());
        if ps.last().1.state == 1 {
            prev.push(*ps.last().0)
        } else {
            prev
        }
    }
}

proof fn lemma_take_all<T>()
    ensures
        forall|s: Seq<T>| #[trigger] s.take(s.len() as int) == s,
{
    assert forall|s: Seq<T>| #[trigger] s.take(s.len() as int) == s by {
        assert(s.take(s.len() as int) =~= s);
    }
}

proof fn lemma_active_keys(ps: Seq<(&u32, &TagState)>, m: Map<u32, TagState>)
    requires
        ps.no_duplicates(),
        forall|i: int| 0 <= i < ps.len() ==> m.contains_key(*(#[trigger] ps[i]).0) && m[*ps[i].0] == *ps[i].1,
    ensures
        active_keys(ps).no_duplicates(),
        forall|t: u32| #[trigger] active_keys(ps).contains(t) <==> exists|i: int| 0 <= i < ps.len() && *(#[trigger] ps[i]).0 == t && ps[i].1.state == 1,
    decreases ps.len(),
{
    if ps.len() > 0 {
        let d = ps.drop_last();
        assert forall|i: int| 0 <= i < d.len() implies m.contains_key(*(#[trigger] d[i]).0) && m[*d[i].0] == *d[i].1 by {
            assert(d[i] == ps[i]);
        }
        assert(d.no_duplicates()) by {
            assert forall|i: int, j: int| 0 <= i < d.len() && 0 <= j < d.len() && i != j implies d[i] != d[j] by {
                assert(d[i] == ps[i] && d[j] == ps[j]);
            }
        }
        lemma_active_keys(d, m);
        let last = ps.last();
        assert forall|t: u32| #[trigger] active_keys(ps).contains(t) implies exists|i: int| 0 <= i < ps.len() && *(#[trigger] ps[i]).0 == t && ps[i].1.state == 1 by {

            {
                if active_keys(d).contains(t) {
                    let i = choose|i: int| 0 <= i < d.len() && *(#[trigger] d[i]).0 == t && d[i].1.state == 1;
                    assert(ps[i] == d[i]);
                } else {
                    let k = choose|k: int| 0 <= k < active_keys(ps).len() && active_keys(ps)[k] == t;
                    if last.1.state == 1 {
                        assert(active_keys(ps) == active_keys(d).push(*last.0));
                        if k < active_keys(d).len() {
                            assert(active_keys(d)[k] == t);
                            assert(active_keys(d).contains(t));
                        }
                        assert(*ps[ps.len() - 1].0 == t);
                        assert(ps[ps.len() - 1].1.state == 1);
                    } else {
                        assert(active_keys(ps) == active_keys(d));
                    }
                }
            }
        }
        assert forall|t: u32| (exists|i: int| 0 <= i < ps.len() && *(#[trigger] ps[i]).0 == t && ps[i].1.state == 1) implies #[trigger] active_keys(ps).contains(t) by {
            {
                let i = choose|i: int| 0 <= i < ps.len() && *(#[trigger] ps[i]).0 == t && ps[i].1.state == 1;
                if i < ps.len() - 1 {
                    assert(d[i] == ps[i]);
                    assert(active_keys(d).contains(t));
                    let k = choose|k: int| 0 <= k < active_keys(d).len() && active_keys(d)[k] == t;
                    if last.1.state == 1 {
                        assert(active_keys(ps) == active_keys(d).push(*last.0));
                        assert(active_keys(ps)[k] == t);
                    } else {
                        assert(active_keys(ps) == active_keys(d));
                    }
                } else {
                    assert(active_keys(ps) == active_keys(d).push(t));
                    assert(active_keys(ps)[active_keys(ps).len() - 1] == t);
                }
            }
                }
        if last.1.state == 1 {
            assert(!active_keys(d).contains(*last.0)) by {
                if active_keys(d).contains(*last.0) {
                    let i = choose|i: int| 0 <= i < d.len() && *(#[trigger] d[i]).0 == *last.0 && d[i].1.state == 1;
                    assert(ps[i] == d[i]);
                    assert(*ps[i].1 == m[*last.0]);
                    assert(ps[i] == ps[ps.len() - 1]);
                }
            }
            let r = active_keys(d).push(*last.0);
            assert forall|a: int, b: int| 0 <= a < r.len() && 0 <= b < r.len() && a != b implies r[a] != r[b] by {
                if a < r.len() - 1 && b < r.len() - 1 {
                    assert(r[a] == active_keys(d)[a] && r[b] == active_keys(d)[b]);
                } else if a < r.len() - 1 {
                    assert(active_keys(d).contains(r[a]));
                } else if b < r.len() - 1 {
                    assert(active_keys(d).contains(r[b]));
                }
            }
        }
    }
}


/// The last of the entries whose window is activated, by id.
pub open spec fn last_activated(ps: Seq<(&u32, &ToplevelInfo)>) -> Option<u32>
    decreases ps.len(),
{
    if ps.len() == 0 {
        None
    } else if ps.last().1.activated {
        Some(*ps.last().0)
    } else {
        last_activated(ps.drop_last())
    }
}

proof fn lemma_last_activated(ps: Seq<(&u32, &ToplevelInfo)>)
    ensures
        match last_activated(ps) {
            Some(id) => exists|i: int| 0 <= i < ps.len() && *(#[trigger] ps[i]).0 == id && ps[i].1.activated,
            None => forall|i: int| 0 <= i < ps.len() ==> !(#[trigger] ps[i]).1.activated,
        },
    decreases ps.len(),
{
    if ps.len() > 0 {
        let d = ps.drop_last();
        lemma_last_activated(d);
        if !ps.last().1.activated {
            match last_activated(d) {
                Some(id) => {
                    let i = choose|i: int| 0 <= i < d.len() && *(#[trigger] d[i]).0 == id && d[i].1.activated;
                    assert(ps[i] == d[i]);
                },
                None => {
                    assert forall|i: int| 0 <= i < ps.len() implies !(#[trigger] ps[i]).1.activated by {
                        if i < d.len() {
                            assert(ps[i] == d[i]);
                        }
                    }
                },
            }
        } else {
            assert(*ps[ps.len() - 1].0 == *ps.last().0);
        }
    }
}

impl RuntimeState {
    /// The active tags (state 1), each once, in the order the tag table is
    /// walked.
    pub fn active_tags(&self) -> (r: Vec<u32>)
        ensures
            r@.no_duplicates(),
            forall|t: u32| #[trigger] r@.contains(t) <==> self@.tags.contains_key(t) && self@.tags[t].state == 1,
    {
        let mut r: Vec<u32> = Vec::new();
        proof {
            lemma_take_all::<(&u32, &TagState)>();
        }
        for kv in it: self.tags.iter()
            invariant
                it.seq() == spec_hash_map_iter(&self.tags).remaining(),
                forall|s: Seq<(&u32, &TagState)>| #[trigger] s.take(s.len() as int) == s,
                r@ == active_keys(it.seq().take(it.index() as int)),
        {
            let (k, v) = kv;
            proof {
                assert(kv == it.seq()[it.index() as int]);
                assert(it.seq().take(it.index() + 1).drop_last() =~= it.seq().take(it.index() as int));
            }
            if v.state == 1 {
                r.push(*k);
            }
        }
        proof {
            let ps = spec_hash_map_iter(&self.tags).remaining();
            vstd::std_specs::hash::axiom_spec_hash_map_iter(&self.tags);
            lemma_active_keys(ps, self.tags@);
        }
        r
    }

    /// The focused window: an activated window, if there is one (the last
    /// met when the window table is walked).
    pub fn focused_window(&self) -> (r: Option<u32>)
        ensures
            match r {
                Some(id) => self@.toplevels.contains_key(id) && self@.toplevels[id].activated,
                None => forall|id: u32| #[trigger] self@.toplevels.contains_key(id) ==> !self@.toplevels[id].activated,
            },
    {
        let mut r: Option<u32> = None;
        proof {
            lemma_take_all::<(&u32, &ToplevelInfo)>();
        }
        for kv in it: self.toplevels.iter()
            invariant
                it.seq() == spec_hash_map_iter(&self.toplevels).remaining(),
                forall|s: Seq<(&u32, &ToplevelInfo)>| #[trigger] s.take(s.len() as int) == s,
                r == last_activated(it.seq().take(it.index() as int)),
        {
            let (k, v) = kv;
            proof {
                assert(kv == it.seq()[it.index() as int]);
                assert(it.seq().take(it.index() + 1).drop_last() =~= it.seq().take(it.index() as int));
            }
            if v.activated {
                r = Some(*k);
            }
        }
        proof {
            let ps = spec_hash_map_iter(&self.toplevels).remaining();
            vstd::std_specs::hash::axiom_spec_hash_map_iter(&self.toplevels);
            lemma_last_activated(ps);
            match r {
                Some(id) => {
                    let i = choose|i: int| 0 <= i < ps.len() && *(#[trigger] ps[i]).0 == id && ps[i].1.activated;
                    assert(self.toplevels@.contains_key(*ps[i].0));
                },
                None => {
                    assert forall|id: u32| #[trigger] self@.toplevels.contains_key(id) implies !self@.toplevels[id].activated by {
                        assert(self.toplevels@.contains_key(id));
                        assert(ps.contains((&id, &self.toplevels@[id])));
                        let i = choose|i: int| 0 <= i < ps.len() && ps[i] == (&id, &self.toplevels@[id]);
                        assert(!ps[i].1.activated);
                    }
                },
            }
        }
        r
    }
}

} // verus!
