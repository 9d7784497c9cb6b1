//! The window around the tabs: tray menu, hiding and quitting, the tab strip,
//! and the engine controls of the menu bar and the toolbar.

use vstd::prelude::*;

use crate::ipc::{self, AdminCall, Request};

verus! {

// ── Tabs ────────────────────────────────────────────────────────────────────

/// A page of the window.
#[derive(Debug, Clone, Copy, PartialEq, Eq, Structural)]
pub enum Tab {
    Status,
    Processes,
    Activity,
    Rules,
    Profiles,
}

impl Default for Tab {
    /// The landing page.
    fn default() -> (r: Self)
        ensures
            r == Tab::Status,
    {
        Tab::Status
    }
}

/// The tabs from left to right.
pub open spec fn tab_order() -> Seq<Tab> {
    seq![Tab::Processes, Tab::Status, Tab::Activity, Tab::Rules, Tab::Profiles]
}

/// Lists the tabs from left to right.
pub fn tabs() -> (r: Vec<Tab>)
    ensures
        r@ == tab_order(),
{
    let mut out: Vec<Tab> = Vec::new();
    out.push(Tab::Processes);
    out.push(Tab::Status);
    out.push(Tab::Activity);
    out.push(Tab::Rules);
    out.push(Tab::Profiles);
    assert(out@ =~= tab_order());
    out
}

/// The name of a tab.
pub open spec fn tab_text(tab: Tab) -> Seq<char> {
    match tab {
        Tab::Processes => "Processes"@,
        Tab::Status => "Status"@,
        Tab::Activity => "Activity"@,
        Tab::Rules => "Rules"@,
        Tab::Profiles => "Profiles"@,
    }
}

/// The hover text of a tab.
pub open spec fn tab_hover_text(tab: Tab) -> Seq<char> {
    match tab {
        Tab::Processes =>
            "Live process viewer — sortable table, tree view, right-click for per-PID actions."@,
        Tab::Status => "Engine state, active profile, foreground app, ProBalance state."@,
        Tab::Activity => "Full event log — filter chips + search."@,
        Tab::Rules => "Match rules: when a foreground exe matches, apply the named profile."@,
        Tab::Profiles =>
            "Per-profile editor — CPU sets, throttling, priority, Game Mode actions."@,
    }
}

impl Tab {
    /// The name of this tab.
    pub fn label(self) -> (r: &'static str)
        ensures
            r@ == tab_text(self),
    {
        match self {
            Tab::Processes => "Processes",
            Tab::Status => "Status",
            Tab::Activity => "Activity",
            Tab::Rules => "Rules",
            Tab::Profiles => "Profiles",
        }
    }

    /// The hover text of this tab.
    pub fn hover(self) -> (r: &'static str)
        ensures
            r@ == tab_hover_text(self),
    {
        match self {
            Tab::Processes =>
                "Live process viewer — sortable table, tree view, right-click for per-PID actions.",
            Tab::Status => "Engine state, active profile, foreground app, ProBalance state.",
            Tab::Activity => "Full event log — filter chips + search.",
            Tab::Rules => "Match rules: when a foreground exe matches, apply the named profile.",
            Tab::Profiles =>
                "Per-profile editor — CPU sets, throttling, priority, Game Mode actions.",
        }
    }

    /// The entry of this tab in the View menu; the open tab is marked.
    pub fn menu_entry(self, open: Tab) -> (r: String)
        ensures
            r@ == (if self == open {
                "* "@
            } else {
                "  "@
            }) + tab_text(self),
    {
        let mut out = if self == open {
            "* ".to_owned()
        } else {
            "  ".to_owned()
        };
        out.append(self.label());
        out
    }
}

// ── Engine controls ─────────────────────────────────────────────────────────

/// A control of the engine.
#[derive(Debug, Clone, Copy, PartialEq, Eq, Structural)]
pub enum EngineOrder {
    Pause,
    Resume,
    GameModeOff,
}

/// The request behind a control.
pub open spec fn order_request(order: EngineOrder) -> Request {
    match order {
        EngineOrder::Pause => Request::Pause,
        EngineOrder::Resume => Request::Resume,
        EngineOrder::GameModeOff => Request::GameModeOff,
    }
}

/// The words of the echo line for a control.
pub open spec fn order_text(order: EngineOrder) -> Seq<char> {
    match order {
        EngineOrder::Pause => "pause"@,
        EngineOrder::Resume => "resume"@,
        EngineOrder::GameModeOff => "game-mode off"@,
    }
}

/// Asks the service to obey a control.
pub fn engine_call(order: EngineOrder) -> (r: AdminCall)
    ensures
        ipc::asks(r, order_request(order), order_text(order)),
{
    match order {
        EngineOrder::Pause => AdminCall { request: Request::Pause, label: "pause" },
        EngineOrder::Resume => AdminCall { request: Request::Resume, label: "resume" },
        EngineOrder::GameModeOff => AdminCall {
            request: Request::GameModeOff,
            label: "game-mode off",
        },
    }
}

/// What the pause button does next: a paused engine is resumed.
pub fn pause_order(paused: bool) -> (r: EngineOrder)
    ensures
        r == (if paused {
            EngineOrder::Resume
        } else {
            EngineOrder::Pause
        }),
{
    if paused {
        EngineOrder::Resume
    } else {
        EngineOrder::Pause
    }
}

/// The text of the pause button.
pub fn pause_label(paused: bool) -> (r: &'static str)
    ensures
        r@ == (if paused {
            "Resume"@
        } else {
            "Pause"@
        }),
{
    if paused {
        "Resume"
    } else {
        "Pause"
    }
}

/// The hover text of the pause button.
pub fn pause_hover(paused: bool) -> (r: &'static str)
    ensures
        r@ == (if paused {
            "Resume the engine — apply profiles on foreground change"@
        } else {
            "Pause the engine — stop applying anything until resumed"@
        }),
{
    if paused {
        "Resume the engine — apply profiles on foreground change"
    } else {
        "Pause the engine — stop applying anything until resumed"
    }
}

/// The window's title.
pub fn window_title(elevated: bool) -> (r: &'static str)
    ensures
        r@ == (if elevated {
            "FrameSage (admin)"@
        } else {
            "FrameSage"@
        }),
{
    if elevated {
        "FrameSage (admin)"
    } else {
        "FrameSage"
    }
}

// ── Tray commands ───────────────────────────────────────────────────────────

/// What the tray menu has asked for and the window has not done yet.
#[derive(Debug, Clone, Copy, PartialEq, Eq, Structural)]
pub struct TrayCommands {
    pub show_window: bool,
    pub hide_window: bool,
    /// The window is being drawn; pollers slow down when it is not.
    pub window_visible: bool,
    /// The window was hidden and not shown since.
    pub hidden_to_tray: bool,
    pub window_minimized: bool,
    /// Quit was chosen; stays set.
    pub exit_requested: bool,
    pub pause_engine: bool,
    pub resume_engine: bool,
    pub game_mode_off: bool,
    pub open_config_folder: bool,
    pub edit_policy: bool,
    pub jump_to_tab: Option<Tab>,
}

/// Nothing asked for.
pub open spec fn no_commands() -> TrayCommands {
    TrayCommands {
        show_window: false,
        hide_window: false,
        window_visible: false,
        hidden_to_tray: false,
        window_minimized: false,
        exit_requested: false,
        pause_engine: false,
        resume_engine: false,
        game_mode_off: false,
        open_config_folder: false,
        edit_policy: false,
        jump_to_tab: None,
    }
}

impl Default for TrayCommands {
    fn default() -> (r: Self)
        ensures
            r == no_commands(),
    {
        TrayCommands {
            show_window: false,
            hide_window: false,
            window_visible: false,
            hidden_to_tray: false,
            window_minimized: false,
            exit_requested: false,
            pause_engine: false,
            resume_engine: false,
            game_mode_off: false,
            open_config_folder: false,
            edit_policy: false,
            jump_to_tab: None,
        }
    }
}

/// An entry of the tray menu, or the tray icon itself.
#[derive(Debug, Clone, Copy, PartialEq, Eq, Structural)]
pub enum TrayEntry {
    /// The icon: hides a window that can be seen, and shows any other.
    Icon,
    Open,
    Hide,
    Pause,
    Resume,
    GameModeOff,
    View(Tab),
    OpenConfig,
    EditPolicy,
    Exit,
}

/// Whether the window can be seen.
pub open spec fn is_in_sight(c: TrayCommands) -> bool {
    !c.hidden_to_tray && !c.window_minimized
}

/// The commands after a click in the tray menu or on the tray icon.
pub open spec fn pressed(c: TrayCommands, entry: TrayEntry) -> TrayCommands {
    match entry {
        TrayEntry::Icon => if is_in_sight(c) {
            TrayCommands { hide_window: true, ..c }
        } else {
            TrayCommands { show_window: true, ..c }
        },
        TrayEntry::Open => TrayCommands { show_window: true, ..c },
        TrayEntry::Hide => TrayCommands { hide_window: true, ..c },
        TrayEntry::Pause => TrayCommands { pause_engine: true, ..c },
        TrayEntry::Resume => TrayCommands { resume_engine: true, ..c },
        TrayEntry::GameModeOff => TrayCommands { game_mode_off: true, ..c },
        TrayEntry::View(tab) => TrayCommands {
            show_window: true,
            jump_to_tab: Some(tab),
            ..c
        },
        TrayEntry::OpenConfig => TrayCommands { open_config_folder: true, ..c },
        TrayEntry::EditPolicy => TrayCommands { edit_policy: true, ..c },
        TrayEntry::Exit => TrayCommands { exit_requested: true, ..c },
    }
}

/// A thing to do to the window, to the engine or in the shell.
#[derive(Debug, Clone, Copy, PartialEq, Eq, Structural)]
pub enum WindowStep {
    Visible(bool),
    Minimized(bool),
    Focus,
    CancelClose,
    Close,
    Order(EngineOrder),
    OpenConfigFolder,
    EditPolicy,
}

/// `steps` if they are called for.
pub open spec fn steps_if(wanted: bool, steps: Seq<WindowStep>) -> Seq<WindowStep> {
    if wanted {
        steps
    } else {
        Seq::empty()
    }
}

/// What a frame does about the tray menu, in order.
pub open spec fn menu_steps(c: TrayCommands) -> Seq<WindowStep> {
    steps_if(
        c.show_window,
        seq![WindowStep::Visible(true), WindowStep::Minimized(false), WindowStep::Focus],
    ) + steps_if(c.hide_window, seq![WindowStep::Visible(false)]) + steps_if(
        c.pause_engine,
        seq![WindowStep::Order(EngineOrder::Pause)],
    ) + steps_if(c.resume_engine, seq![WindowStep::Order(EngineOrder::Resume)]) + steps_if(
        c.game_mode_off,
        seq![WindowStep::Order(EngineOrder::GameModeOff)],
    ) + steps_if(c.open_config_folder, seq![WindowStep::OpenConfigFolder]) + steps_if(
        c.edit_policy,
        seq![WindowStep::EditPolicy],
    )
}

/// What a frame does about closing. The close button hides the window unless
/// quitting was chosen; quitting closes it.
pub open spec fn close_steps(exit_requested: bool, close_requested: bool) -> Seq<WindowStep> {
    if close_requested && !exit_requested {
        seq![WindowStep::CancelClose, WindowStep::Visible(false)]
    } else if exit_requested && !close_requested {
        seq![WindowStep::Close]
    } else {
        Seq::empty()
    }
}

/// What a frame does about the pending commands, in order.
pub open spec fn frame_steps(c: TrayCommands, close_requested: bool) -> Seq<WindowStep> {
    menu_steps(c) + close_steps(c.exit_requested, close_requested)
}

/// Whether a frame hides the window.
pub open spec fn hides(c: TrayCommands, close_requested: bool) -> bool {
    c.hide_window || close_requested && !c.exit_requested
}

/// The commands after a frame: all done, and the window visible unless the
/// frame hid it.
pub open spec fn frame_left(
    c: TrayCommands,
    close_requested: bool,
    minimized: bool,
) -> TrayCommands {
    TrayCommands {
        window_visible: !hides(c, close_requested),
        hidden_to_tray: hides(c, close_requested) || c.hidden_to_tray && !c.show_window,
        window_minimized: minimized && !c.show_window,
        exit_requested: c.exit_requested,
        ..no_commands()
    }
}

impl TrayCommands {
    /// Notes a click in the tray menu or on the tray icon.
    pub fn press(&mut self, entry: TrayEntry)
        ensures
            *final(self) == pressed(*old(self), entry),
    {
        match entry {
            TrayEntry::Icon => if !self.hidden_to_tray && !self.window_minimized {
                self.hide_window = true;
            } else {
                self.show_window = true;
            },
            TrayEntry::Open => {
                self.show_window = true;
            },
            TrayEntry::Hide => {
                self.hide_window = true;
            },
            TrayEntry::Pause => {
                self.pause_engine = true;
            },
            TrayEntry::Resume => {
                self.resume_engine = true;
            },
            TrayEntry::GameModeOff => {
                self.game_mode_off = true;
            },
            TrayEntry::View(tab) => {
                self.jump_to_tab = Some(tab);
                self.show_window = true;
            },
            TrayEntry::OpenConfig => {
                self.open_config_folder = true;
            },
            TrayEntry::EditPolicy => {
                self.edit_policy = true;
            },
            TrayEntry::Exit => {
                self.exit_requested = true;
            },
        }
    }

    /// Takes the pending commands over into what this frame does.
    pub fn frame(&mut self, tab: &mut Tab, close_requested: bool, minimized: bool) -> (r: Vec<
        WindowStep,
    >)
        ensures
            r@ == frame_steps(*old(self), close_requested),
            *final(self) == frame_left(*old(self), close_requested, minimized),
            *final(tab) == (match old(self).jump_to_tab {
                Some(t) => t,
                None => *old(tab),
            }),
    {
        let c = *self;
        let mut out = take_menu_steps(&c);
        if let Some(target) = c.jump_to_tab {
            *tab = target;
        }
        let kept_open = close_requested && !c.exit_requested;
        let ghost before = out@;
        if kept_open {
            out.push(WindowStep::CancelClose);
            out.push(WindowStep::Visible(false));
        } else if c.exit_requested && !close_requested {
            out.push(WindowStep::Close);
        }
        assert(out@ =~= before + close_steps(c.exit_requested, close_requested));
        *self = TrayCommands::default();
        self.exit_requested = c.exit_requested;
        let hidden = c.hide_window || kept_open;
        self.window_visible = !hidden;
        self.hidden_to_tray = hidden || c.hidden_to_tray && !c.show_window;
        self.window_minimized = minimized && !c.show_window;
        out
    }
}

fn push_if(out: &mut Vec<WindowStep>, wanted: bool, step: WindowStep)
    ensures
        final(out)@ == old(out)@ + steps_if(wanted, seq![step]),
{
    if wanted {
        out.push(step);
    }
    assert(out@ =~= old(out)@ + steps_if(wanted, seq![step]));
}

fn take_menu_steps(c: &TrayCommands) -> (r: Vec<WindowStep>)
    ensures
        r@ == menu_steps(*c),
{
    let mut out: Vec<WindowStep> = Vec::new();
    if c.show_window {
        out.push(WindowStep::Visible(true));
        out.push(WindowStep::Minimized(false));
        out.push(WindowStep::Focus);
    }
    assert(out@ =~= steps_if(
        c.show_window,
        seq![WindowStep::Visible(true), WindowStep::Minimized(false), WindowStep::Focus],
    ));
    push_if(&mut out, c.hide_window, WindowStep::Visible(false));
    push_if(&mut out, c.pause_engine, WindowStep::Order(EngineOrder::Pause));
    push_if(&mut out, c.resume_engine, WindowStep::Order(EngineOrder::Resume));
    push_if(&mut out, c.game_mode_off, WindowStep::Order(EngineOrder::GameModeOff));
    push_if(&mut out, c.open_config_folder, WindowStep::OpenConfigFolder);
    push_if(&mut out, c.edit_policy, WindowStep::EditPolicy);
    out
}

/// A menu entry that is clicked twice before the window gets to it counts
/// once.
pub proof fn pressing_twice_is_pressing_once(c: TrayCommands, entry: TrayEntry)
    ensures
        pressed(pressed(c, entry), entry) == pressed(c, entry),
{
}

/// The window closes for good only when quitting was chosen; otherwise the
/// close button is cancelled and hides the window.
pub proof fn only_exit_quits(c: TrayCommands, close_requested: bool)
    ensures
        frame_steps(c, close_requested).contains(WindowStep::Close) ==> c.exit_requested,
        close_requested ==> (frame_steps(c, close_requested).contains(WindowStep::CancelClose)
            <==> !c.exit_requested),
        !close_requested && c.exit_requested ==> frame_steps(c, close_requested).contains(
            WindowStep::Close,
        ),
{
    lemma_menu_never_closes(c);
    let menu = menu_steps(c);
    let close = close_steps(c.exit_requested, close_requested);
    let steps = frame_steps(c, close_requested);
    if steps.contains(WindowStep::Close) {
        let k = steps.index_of(WindowStep::Close);
        if k < menu.len() {
            assert(menu[k] == steps[k]);
        } else {
            assert(close[k - menu.len()] == steps[k]);
        }
    }
    if steps.contains(WindowStep::CancelClose) {
        let k = steps.index_of(WindowStep::CancelClose);
        if k < menu.len() {
            assert(menu[k] == steps[k]);
        } else {
            assert(close[k - menu.len()] == steps[k]);
        }
    }
    if close.len() > 0 {
        assert(steps[menu.len() as int] == close[0]);
    }
}

/// Whether a step is about closing the window.
pub open spec fn is_about_closing(step: WindowStep) -> bool {
    step == WindowStep::Close || step == WindowStep::CancelClose
}

spec fn leaves_open(steps: Seq<WindowStep>) -> bool {
    forall|k: int| 0 <= k < steps.len() ==> !is_about_closing(#[trigger] steps[k])
}

proof fn lemma_append_leaves_open(a: Seq<WindowStep>, wanted: bool, b: Seq<WindowStep>)
    requires
        leaves_open(a),
        leaves_open(b),
    ensures
        leaves_open(a + steps_if(wanted, b)),
{
}

/// No entry of the tray menu closes the window by itself.
proof fn lemma_menu_never_closes(c: TrayCommands)
    ensures
        leaves_open(menu_steps(c)),
{
    let shown = seq![WindowStep::Visible(true), WindowStep::Minimized(false), WindowStep::Focus];
    let s0 = steps_if(c.show_window, shown);
    let hidden = seq![WindowStep::Visible(false)];
    let s1 = s0 + steps_if(c.hide_window, hidden);
    lemma_append_leaves_open(s0, c.hide_window, hidden);
    let pause = seq![WindowStep::Order(EngineOrder::Pause)];
    let s2 = s1 + steps_if(c.pause_engine, pause);
    lemma_append_leaves_open(s1, c.pause_engine, pause);
    let resume = seq![WindowStep::Order(EngineOrder::Resume)];
    let s3 = s2 + steps_if(c.resume_engine, resume);
    lemma_append_leaves_open(s2, c.resume_engine, resume);
    let off = seq![WindowStep::Order(EngineOrder::GameModeOff)];
    let s4 = s3 + steps_if(c.game_mode_off, off);
    lemma_append_leaves_open(s3, c.game_mode_off, off);
    let folder = seq![WindowStep::OpenConfigFolder];
    let s5 = s4 + steps_if(c.open_config_folder, folder);
    lemma_append_leaves_open(s4, c.open_config_folder, folder);
    lemma_append_leaves_open(s5, c.edit_policy, seq![WindowStep::EditPolicy]);
}

/// What a frame has done it does not do again.
pub proof fn commands_are_carried_out_once(
    c: TrayCommands,
    close_requested: bool,
    minimized: bool,
)
    requires
        !c.exit_requested,
    ensures
        frame_steps(frame_left(c, close_requested, minimized), false) == Seq::<
            WindowStep,
        >::empty(),
{
    assert(frame_steps(frame_left(c, close_requested, minimized), false) =~= Seq::<
        WindowStep,
    >::empty());
}

/// A click on the tray icon turns the window's sight around: once the frame
/// has run, a window that could be seen is hidden and any other is shown.
pub proof fn the_icon_toggles_the_window(c: TrayCommands, minimized: bool)
    requires
        !c.show_window,
        !c.hide_window,
    ensures
        is_in_sight(frame_left(pressed(c, TrayEntry::Icon), false, minimized)) == !is_in_sight(c),
{
}

} // verus!
