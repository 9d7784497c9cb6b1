//! Laws of the window around the tabs: tray menu, hiding and quitting, engine
//! controls, the status bar, and starting up.

use vstd::prelude::*;

use crate::formatters;
use crate::hotkey::{self, HotkeyGuard, HotkeyStatus, Pump, PumpStep};
use crate::ipc::{AdminCall, Request, SystemMetrics};
use crate::ipc_client;
use crate::policy::Profile;
use crate::process_actions::TerminateQueue;
use crate::profiles_tab::ProfilesEditor;
use crate::rules_tab::RulesEditor;
use crate::shell::{
    self, EngineOrder, Tab, TrayCommands, TrayEntry, WindowStep,
};
use crate::startup::{self, SingletonStep};
use crate::text;
use crate::theme::Tone;
use crate::tray_prefs::{ProcessesColumns, StoredPrefs, TrayPrefs};
use crate::widgets::{self, ActionEcho, GameModeLines, LoadReadout, StatusBar};

verus! {

// ── Tabs ────────────────────────────────────────────────────────────────────

/// The tabs stand in a fixed order, each once; the window opens on the status.
pub proof fn tabs_stand_in_order(r: Vec<Tab>, first: Tab)
    requires
        call_ensures(shell::tabs, (), r),
        call_ensures(Tab::default, (), first),
    ensures
        r@.len() == 5,
        r@[0] is Processes,
        r@[1] is Status,
        r@[2] is Activity,
        r@[3] is Rules,
        r@[4] is Profiles,
        first is Status,
{
}

/// Each tab has its name and its hover text.
pub proof fn tabs_have_names(tab: Tab, label: &'static str, hover: &'static str)
    requires
        call_ensures(Tab::label, (tab,), label),
        call_ensures(Tab::hover, (tab,), hover),
    ensures
        tab is Processes ==> label@ == "Processes"@ && hover@
            == "Live process viewer — sortable table, tree view, right-click for per-PID actions."@,
        tab is Status ==> label@ == "Status"@ && hover@
            == "Engine state, active profile, foreground app, ProBalance state."@,
        tab is Activity ==> label@ == "Activity"@ && hover@
            == "Full event log — filter chips + search."@,
        tab is Rules ==> label@ == "Rules"@ && hover@
            == "Match rules: when a foreground exe matches, apply the named profile."@,
        tab is Profiles ==> label@ == "Profiles"@ && hover@
            == "Per-profile editor — CPU sets, throttling, priority, Game Mode actions."@,
{
}

/// The View menu marks the open tab and no other; the names stay in line.
pub proof fn the_open_tab_is_marked(
    tab: Tab,
    open: Tab,
    label: &'static str,
    r: String,
)
    requires
        call_ensures(Tab::label, (tab,), label),
        call_ensures(Tab::menu_entry, (tab, open), r),
    ensures
        tab == open ==> r@ == "* "@ + label@,
        tab != open ==> r@ == "  "@ + label@,
{
}

// ── Engine controls ─────────────────────────────────────────────────────────

/// Each control asks for what it says.
pub proof fn controls_ask_for_what_they_say(order: EngineOrder, r: AdminCall)
    requires
        call_ensures(shell::engine_call, (order,), r),
    ensures
        order is Pause ==> r.request == Request::Pause && r.label@ == "pause"@,
        order is Resume ==> r.request == Request::Resume && r.label@ == "resume"@,
        order is GameModeOff ==> r.request == Request::GameModeOff && r.label@
            == "game-mode off"@,
{
}

/// The pause button does what it says: it resumes a paused engine and pauses a
/// running one.
pub proof fn the_pause_button_switches_over(
    paused: bool,
    order: EngineOrder,
    label: &'static str,
    hover: &'static str,
)
    requires
        call_ensures(shell::pause_order, (paused,), order),
        call_ensures(shell::pause_label, (paused,), label),
        call_ensures(shell::pause_hover, (paused,), hover),
    ensures
        paused ==> order is Resume && label@ == "Resume"@ && hover@
            == "Resume the engine — apply profiles on foreground change"@,
        !paused ==> order is Pause && label@ == "Pause"@ && hover@
            == "Pause the engine — stop applying anything until resumed"@,
{
}

/// The title tells of elevation.
pub proof fn the_title_tells_of_elevation(plain: &'static str, admin: &'static str)
    requires
        call_ensures(shell::window_title, (false,), plain),
        call_ensures(shell::window_title, (true,), admin),
    ensures
        plain@ == "FrameSage"@,
        admin@ == "FrameSage (admin)"@,
{
}

// ── Tray commands ───────────────────────────────────────────────────────────

/// A click notes its own command and takes none back. The icon hides a window
/// that can be seen and shows any other.
pub proof fn clicks_note_their_command(c: &mut TrayCommands, entry: TrayEntry)
    requires
        call_ensures(TrayCommands::press, (c, entry), ()),
    ensures
        ({
            let in_sight = !old(c).hidden_to_tray && !old(c).window_minimized;
            &&& final(c).show_window == (old(c).show_window || entry is Open || entry is View || (
            entry is Icon && !in_sight))
            &&& final(c).hide_window == (old(c).hide_window || entry is Hide || (entry is Icon
                && in_sight))
        }),
        final(c).pause_engine == (old(c).pause_engine || entry is Pause),
        final(c).resume_engine == (old(c).resume_engine || entry is Resume),
        final(c).game_mode_off == (old(c).game_mode_off || entry is GameModeOff),
        final(c).open_config_folder == (old(c).open_config_folder || entry is OpenConfig),
        final(c).edit_policy == (old(c).edit_policy || entry is EditPolicy),
        final(c).exit_requested == (old(c).exit_requested || entry is Exit),
        entry is View ==> final(c).jump_to_tab == Some(entry->View_0),
        !(entry is View) ==> final(c).jump_to_tab == old(c).jump_to_tab,
        final(c).window_visible == old(c).window_visible,
        final(c).hidden_to_tray == old(c).hidden_to_tray,
        final(c).window_minimized == old(c).window_minimized,
{
}

/// These steps if they are wanted.
pub open spec fn wanted(is_wanted: bool, steps: Seq<WindowStep>) -> Seq<WindowStep> {
    if is_wanted {
        steps
    } else {
        Seq::empty()
    }
}

/// A frame carries every noted command out, in a fixed order. The close button
/// hides the window instead of closing it, unless quitting was chosen.
pub proof fn frames_carry_the_commands_out(
    c: &mut TrayCommands,
    tab: &mut Tab,
    close_requested: bool,
    minimized: bool,
    r: Vec<WindowStep>,
)
    requires
        call_ensures(TrayCommands::frame, (c, tab, close_requested, minimized), r),
    ensures
        r@ == wanted(
            old(c).show_window,
            seq![WindowStep::Visible(true), WindowStep::Minimized(false), WindowStep::Focus],
        ) + wanted(old(c).hide_window, seq![WindowStep::Visible(false)]) + wanted(
            old(c).pause_engine,
            seq![WindowStep::Order(EngineOrder::Pause)],
        ) + wanted(old(c).resume_engine, seq![WindowStep::Order(EngineOrder::Resume)]) + wanted(
            old(c).game_mode_off,
            seq![WindowStep::Order(EngineOrder::GameModeOff)],
        ) + wanted(old(c).open_config_folder, seq![WindowStep::OpenConfigFolder]) + wanted(
            old(c).edit_policy,
            seq![WindowStep::EditPolicy],
        ) + wanted(
            close_requested && !old(c).exit_requested,
            seq![WindowStep::CancelClose, WindowStep::Visible(false)],
        ) + wanted(old(c).exit_requested && !close_requested, seq![WindowStep::Close]),
        old(c).jump_to_tab is Some ==> *final(tab) == old(c).jump_to_tab->0,
        old(c).jump_to_tab is None ==> *final(tab) == *old(tab),
{
    let closing = shell::close_steps(old(c).exit_requested, close_requested);
    assert(r@ =~= shell::menu_steps(*old(c)) + wanted(
        close_requested && !old(c).exit_requested,
        seq![WindowStep::CancelClose, WindowStep::Visible(false)],
    ) + wanted(old(c).exit_requested && !close_requested, seq![WindowStep::Close])) by {
        assert(closing =~= wanted(
            close_requested && !old(c).exit_requested,
            seq![WindowStep::CancelClose, WindowStep::Visible(false)],
        ) + wanted(old(c).exit_requested && !close_requested, seq![WindowStep::Close]));
    }
}

/// After a frame nothing is left to do but to quit, and what is known of the
/// window is what the frame made of it.
pub proof fn frames_leave_nothing_to_do(
    c: &mut TrayCommands,
    tab: &mut Tab,
    close_requested: bool,
    minimized: bool,
    r: Vec<WindowStep>,
)
    requires
        call_ensures(TrayCommands::frame, (c, tab, close_requested, minimized), r),
    ensures
        !final(c).show_window,
        !final(c).hide_window,
        !final(c).pause_engine,
        !final(c).resume_engine,
        !final(c).game_mode_off,
        !final(c).open_config_folder,
        !final(c).edit_policy,
        final(c).jump_to_tab is None,
        final(c).exit_requested == old(c).exit_requested,
        ({
            let hidden = old(c).hide_window || (close_requested && !old(c).exit_requested);
            &&& final(c).window_visible == !hidden
            &&& hidden ==> final(c).hidden_to_tray
            &&& !hidden && old(c).show_window ==> !final(c).hidden_to_tray
            &&& !hidden && !old(c).show_window ==> final(c).hidden_to_tray
                == old(c).hidden_to_tray
        }),
        old(c).show_window ==> !final(c).window_minimized,
        !old(c).show_window ==> final(c).window_minimized == minimized,
{
}

/// Nothing is noted to begin with.
pub proof fn no_commands_to_begin_with(r: TrayCommands)
    requires
        call_ensures(TrayCommands::default, (), r),
    ensures
        !r.show_window && !r.hide_window && !r.exit_requested,
        !r.pause_engine && !r.resume_engine && !r.game_mode_off,
        !r.open_config_folder && !r.edit_policy,
        !r.window_visible && !r.hidden_to_tray && !r.window_minimized,
        r.jump_to_tab is None,
{
}

// ── The clock ───────────────────────────────────────────────────────────────

/// A clock shows hours, minutes and seconds, each in two digits at least.
pub proof fn clocks_show_two_digits(h: u64, m: u64, s: u64, r: String)
    requires
        call_ensures(widgets::format_clock, (h, m, s), r),
    ensures
        r@ == text::zero_padded(text::decimal(h as nat), 2) + ":"@ + text::zero_padded(
            text::decimal(m as nat),
            2,
        ) + ":"@ + text::zero_padded(text::decimal(s as nat), 2),
{
}

/// The time of day is what is left of whole days; before the epoch it is
/// midnight.
pub proof fn the_time_of_day_is_what_is_left(
    secs: i64,
    r: String,
    h: u64,
    m: u64,
    s: u64,
    shown: String,
)
    requires
        call_ensures(widgets::format_utc_hms, (secs,), r),
        call_ensures(widgets::format_clock, (h, m, s), shown),
        h < 24,
        m < 60,
        s < 60,
        secs >= 0 ==> h * 3600 + m * 60 + s == secs % 86400,
        secs < 0 ==> h == 0 && m == 0 && s == 0,
    ensures
        r@ == shown@,
{
    let t: int = if secs < 0 {
        0
    } else {
        secs as int
    };
    lemma_time_of_day(t, h as int, m as int, s as int);
}

proof fn lemma_time_of_day(t: int, h: int, m: int, s: int)
    requires
        t >= 0,
        0 <= h < 24,
        0 <= m < 60,
        0 <= s < 60,
        h * 3600 + m * 60 + s == t % 86400,
    ensures
        (t / 3600) % 24 == h,
        (t / 60) % 60 == m,
        t % 60 == s,
{
    let day = t / 86400;
    assert(t == 86400 * day + 3600 * h + 60 * m + s);
    assert(t / 3600 == 24 * day + h);
    assert(t / 60 == 1440 * day + 60 * h + m);
    assert((24 * day + h) % 24 == h);
    assert((1440 * day + 60 * h + m) % 60 == m);
}

/// A moment is counted in tenths of a microsecond from the epoch of Windows, as
/// far as 64 bits reach.
pub proof fn file_times_count_from_their_epoch(secs: u64, r: (u32, u32))
    requires
        call_ensures(widgets::file_time, (secs,), r),
    ensures
        ({
            let ticks = secs * 10_000_000 + 116_444_736_000_000_000;
            let told = r.1 * 0x1_0000_0000 + r.0;
            &&& ticks <= u64::MAX ==> told == ticks
            &&& ticks > u64::MAX ==> told == u64::MAX
        }),
{
}

// ── The load readout and the status bar ─────────────────────────────────────

/// The readout gives both loads in per cent. Memory is yellow above three
/// quarters and red above nine tenths; the cores' tooltip lists five.
pub proof fn the_readout_gives_both_loads(
    m: &SystemMetrics,
    r: LoadReadout,
    memory: u8,
    used: String,
    total: String,
    tone: Tone,
    cores: String,
    loads: &[u8],
)
    requires
        call_ensures(widgets::load_readout, (m,), r),
        call_ensures(
            ipc_client::mem_percent,
            (m.memory_used_bytes, m.memory_total_bytes),
            memory,
        ),
        call_ensures(formatters::format_bytes, (m.memory_used_bytes,), used),
        call_ensures(formatters::format_bytes, (m.memory_total_bytes,), total),
        call_ensures(formatters::cpu_percent_color, (m.cpu_percent as u16,), tone),
        loads@ == m.per_core_cpu_percent@,
        call_ensures(formatters::format_top_cores, (loads, 5usize), cores),
    ensures
        r.memory@ == text::decimal(memory as nat) + "%"@,
        r.memory_tone is Error <==> memory > 90,
        r.memory_tone is Warning <==> 75 < memory <= 90,
        r.memory_tone is Text <==> memory <= 75,
        r.memory_hover@ == used@ + " / "@ + total@ + " used"@,
        r.cpu@ == text::decimal(m.cpu_percent as nat) + "%"@,
        r.cpu_tone == tone,
        r.cpu_hover@ == cores@,
{
}

/// A message speaks of a failure when it holds one of five words, in whatever
/// case.
pub proof fn failures_are_told_by_their_words(message: &str, r: bool)
    requires
        call_ensures(widgets::is_failure, (message,), r),
    ensures
        r <==> {
            let m = text::lower(message@);
            ||| text::occurs_in("error"@, m)
            ||| text::occurs_in("failed"@, m)
            ||| text::occurs_in("rejected"@, m)
            ||| text::occurs_in("denied"@, m)
            ||| text::occurs_in("refused"@, m)
        },
{
}

/// The bar names the worst that is so of the engine: disconnected before
/// paused, paused before pinned by hand.
pub proof fn the_bar_names_the_worst(
    connected: bool,
    paused: bool,
    manual_override: Option<&String>,
    process_count: usize,
    managed_count: usize,
    last_action: Option<&String>,
    r: StatusBar,
)
    requires
        call_ensures(
            widgets::status_bar,
            (connected, paused, manual_override, process_count, managed_count, last_action),
            r,
        ),
    ensures
        !connected ==> r.state@ == "Disconnected"@ && r.state_tone is Error,
        connected && paused ==> r.state@ == "Paused"@ && r.state_tone is Warning,
        connected && !paused && manual_override is Some ==> r.state@ == "Manual"@
            && r.state_tone is Accent,
        connected && !paused && manual_override is None ==> r.state@ == "Running"@
            && r.state_tone is Success,
        manual_override is Some ==> r.pinned is Some && r.pinned->0@ == "override: "@
            + manual_override->0@,
        manual_override is None ==> r.pinned is None,
        managed_count == 0 ==> r.counts@ == text::decimal(process_count as nat)
            + " processes"@,
        managed_count > 0 ==> r.counts@ == text::decimal(process_count as nat) + " processes ("@
            + text::decimal(managed_count as nat) + " managed)"@,
{
}

/// The bar echoes the last action, cut to eighty characters, in red when it
/// failed.
pub proof fn the_bar_echoes_the_last_action(
    connected: bool,
    paused: bool,
    manual_override: Option<&String>,
    process_count: usize,
    managed_count: usize,
    last_action: Option<&String>,
    r: StatusBar,
    message: &str,
    failed: bool,
    cut: String,
)
    requires
        call_ensures(
            widgets::status_bar,
            (connected, paused, manual_override, process_count, managed_count, last_action),
            r,
        ),
        last_action is Some ==> message@ == last_action->0@,
        call_ensures(widgets::is_failure, (message,), failed),
        call_ensures(formatters::truncate_for_echo, (message, 80usize), cut),
    ensures
        last_action is None ==> r.echo is None && r.echo_tone is TextMuted,
        last_action is Some ==> {
            &&& r.echo is Some
            &&& r.echo->0@ == cut@
            &&& failed ==> r.echo_tone is Error
            &&& !failed ==> r.echo_tone is TextMuted
        },
{
}

/// A new echo starts without a clock.
pub proof fn echoes_start_anew(echo: &mut ActionEcho, words: String)
    requires
        call_ensures(ActionEcho::say, (echo, words), ()),
    ensures
        final(echo).text == Some(words),
        final(echo).since_ms is None,
{
}

/// An echo is timed from the first frame that draws it, stays for five seconds
/// and is gone then.
pub proof fn echoes_stay_for_five_seconds(echo: &mut ActionEcho, now_ms: u64)
    requires
        call_ensures(ActionEcho::tick, (echo, now_ms), ()),
    ensures
        old(echo).since_ms is None ==> final(echo).text == old(echo).text,
        old(echo).since_ms is None && old(echo).text is Some ==> final(echo).since_ms == Some(
            now_ms,
        ),
        old(echo).since_ms is None && old(echo).text is None ==> final(echo).since_ms is None,
        old(echo).since_ms is Some && now_ms < old(echo).since_ms->0 + 5000 ==> final(echo).text
            == old(echo).text && final(echo).since_ms == old(echo).since_ms,
        old(echo).since_ms is Some && now_ms >= old(echo).since_ms->0 + 5000
            ==> final(echo).text is None && final(echo).since_ms is None,
{
}

// ── The profile card ────────────────────────────────────────────────────────

/// Up to three entries are listed whole; of more, the number and the first
/// three.
pub proof fn long_lists_are_cut_short(items: &[String], r: String)
    requires
        call_ensures(widgets::format_count_summary, (items,), r),
    ensures
        items@.len() <= 3 ==> r@ == text::join(text::texts(items@), ", "@),
        items@.len() > 3 ==> r@ == text::decimal(items@.len()) + " items: "@ + text::join(
            seq![items@[0]@, items@[1]@, items@[2]@],
            ", "@,
        ) + "…"@,
{
    let all = text::texts(items@);
    assert(all.len() == items@.len());
    if items@.len() > 3 {
        assert(all.take(3) =~= seq![items@[0]@, items@[1]@, items@[2]@]);
    }
}

/// The card tells of each action of the profile; an empty list is a dash.
pub proof fn the_card_tells_of_each_action(
    p: &Profile,
    r: Option<GameModeLines>,
    services: &[String],
    stopped: String,
    processes: &[String],
    suspended: String,
    yes: &'static str,
    no: &'static str,
)
    requires
        call_ensures(widgets::game_mode_lines, (p,), r),
        call_ensures(widgets::yes_no, (true,), yes),
        call_ensures(widgets::yes_no, (false,), no),
        p.game_mode is Some ==> services@ == p.game_mode->0.stop_services@ && processes@
            == p.game_mode->0.suspend_processes@,
        call_ensures(widgets::format_count_summary, (services,), stopped),
        call_ensures(widgets::format_count_summary, (processes,), suspended),
    ensures
        yes@ == "Yes"@,
        no@ == "No"@,
        r is Some == (p.game_mode is Some),
        r is Some ==> {
            let gm = p.game_mode->0;
            &&& gm.hide_taskbar ==> r->0.hide_taskbar@ == yes@
            &&& !gm.hide_taskbar ==> r->0.hide_taskbar@ == no@
            &&& gm.pause_windows_update ==> r->0.pause_windows_update@ == yes@
            &&& !gm.pause_windows_update ==> r->0.pause_windows_update@ == no@
            &&& services@.len() == 0 ==> r->0.stop_services@ == "—"@
            &&& services@.len() > 0 ==> r->0.stop_services@ == stopped@
            &&& processes@.len() == 0 ==> r->0.suspend_processes@ == "—"@
            &&& processes@.len() > 0 ==> r->0.suspend_processes@ == suspended@
        },
{
    assert(text::texts(services@).len() == services@.len());
    assert(text::texts(processes@).len() == processes@.len());
}

// ── Starting up ─────────────────────────────────────────────────────────────

/// A free name makes the instance the only one. A taken one is tried again for
/// three seconds, every fifth of a second, before the instance gives way.
pub proof fn a_taken_name_is_waited_for(name_taken: bool, waited_ms: u64, r: SingletonStep)
    requires
        call_ensures(startup::singleton_step, (name_taken, waited_ms), r),
    ensures
        r is Primary <==> !name_taken,
        r is Retry <==> name_taken && waited_ms < 3000,
        r is AlreadyRunning <==> name_taken && waited_ms >= 3000,
        startup::HANDOFF_RETRY_MS == 200,
{
}

/// A start with elevation has failed when its code is 32 or less, and the code
/// is told.
pub proof fn failed_starts_tell_the_code(code: i64, r: Result<(), String>, echo: String, said: &str)
    requires
        call_ensures(startup::relaunch_outcome, (code,), r),
        call_ensures(startup::relaunch_echo, (said,), echo),
    ensures
        r is Ok <==> code > 32,
        r is Err && code >= 0 ==> r->Err_0@ == "ShellExecute(runas) failed: HINSTANCE="@
            + text::decimal(code as nat) + " (likely UAC declined or path resolution error)"@,
        r is Err && code < 0 ==> r->Err_0@ == "ShellExecute(runas) failed: HINSTANCE="@ + ("-"@
            + text::decimal((-code) as nat)) + " (likely UAC declined or path resolution error)"@,
        echo@ == "relaunch failed: "@ + said@,
{
}

// ── The hotkey ──────────────────────────────────────────────────────────────

/// A hotkey that another process owns is a conflict; any other error is a
/// failure.
pub proof fn owned_hotkeys_are_conflicts(error: Option<u32>, r: HotkeyStatus)
    requires
        call_ensures(hotkey::pump_status, (error,), r),
    ensures
        r is Registered <==> error is None,
        r is Conflict <==> error == Some(0x8007_0581u32),
        r is Failed <==> error is Some && error->0 != 0x8007_0581,
{
}

/// A guard is held exactly while the pump runs, for its own thread; a pump that
/// ends without a word has failed.
pub proof fn guards_are_held_while_the_pump_runs(
    pump: Pump,
    r: (HotkeyStatus, Option<HotkeyGuard>),
)
    requires
        call_ensures(hotkey::register_toggle_hotkey, (pump,), r),
    ensures
        r.1 is Some <==> r.0 is Registered,
        pump is Absent ==> r.0 is Unsupported,
        pump is Silent ==> r.0 is Failed,
        pump is Reported ==> r.0 == pump->status,
        r.1 is Some ==> pump is Reported && (r.1->0).thread_id == pump->thread_id,
{
}

/// Every press turns the flag around.
pub proof fn presses_turn_the_flag(flag: bool, once: bool, twice: bool)
    requires
        call_ensures(hotkey::after_press, (flag,), once),
        call_ensures(hotkey::after_press, (once,), twice),
    ensures
        once != flag,
        twice == flag,
{
}

/// The pump stops when there is nothing more to fetch, and takes the message of
/// its own hotkey for a press.
pub proof fn the_pump_knows_its_hotkey(fetched: i32, message: u32, id: i32, r: PumpStep)
    requires
        call_ensures(hotkey::pump_step, (fetched, message, id), r),
    ensures
        r is Stop <==> fetched <= 0,
        r is Toggle <==> fetched > 0 && message == 0x0312 && id == 0xF5A6,
        r is Dispatch <==> fetched > 0 && !(message == 0x0312 && id == 0xF5A6),
        hotkey::VK_G == 0x47,
{
}

// ── Stored choices ──────────────────────────────────────────────────────────

/// Whether a column is shown: as stored, or shown where nothing is stored.
pub open spec fn shown_by(stored: Option<bool>) -> bool {
    match stored {
        Some(b) => b,
        None => true,
    }
}

/// What a file names is taken from it. Every column that it does not name is
/// shown, and the version is the first where it names none.
pub proof fn unnamed_choices_have_defaults(stored: Option<StoredPrefs>, r: TrayPrefs)
    requires
        call_ensures(TrayPrefs::restore, (stored,), r),
    ensures
        stored is None || stored->0.schema_version is None ==> r.schema_version == 1,
        stored is Some && stored->0.schema_version is Some ==> Some(r.schema_version)
            == stored->0.schema_version,
        ({
            let c = r.processes_columns;
            if stored is Some && stored->0.processes_columns is Some {
                let s = stored->0.processes_columns->0;
                &&& c.description == shown_by(s.description)
                &&& c.company == shown_by(s.company)
                &&& c.user == shown_by(s.user)
                &&& c.threads == shown_by(s.threads)
                &&& c.priority == shown_by(s.priority)
                &&& c.affinity == shown_by(s.affinity)
            } else {
                c.description && c.company && c.user && c.threads && c.priority && c.affinity
            }
        }),
{
}

/// Choices that are stored are restored.
pub proof fn choices_come_back(p: &TrayPrefs, stored: StoredPrefs, r: TrayPrefs)
    requires
        call_ensures(TrayPrefs::stored, (p,), stored),
        call_ensures(TrayPrefs::restore, (Some(stored),), r),
    ensures
        r == *p,
        stored.schema_version == Some(p.schema_version),
        stored.processes_columns is Some,
{
}

/// Who never made a choice sees every column.
pub proof fn first_choices_show_every_column(r: TrayPrefs, columns: ProcessesColumns)
    requires
        call_ensures(TrayPrefs::default, (), r),
        call_ensures(ProcessesColumns::default, (), columns),
    ensures
        r.schema_version == 1,
        r.processes_columns == columns,
        columns.description && columns.company && columns.user,
        columns.threads && columns.priority && columns.affinity,
{
}

// ── Starting out ────────────────────────────────────────────────────────────

/// Before anything happened nothing is waiting: no dialog, no form, no echo.
pub proof fn nothing_waits_at_first(
    queue: TerminateQueue,
    profiles: ProfilesEditor,
    rules: RulesEditor,
    echo: ActionEcho,
)
    requires
        call_ensures(TerminateQueue::default, (), queue),
        call_ensures(ProfilesEditor::default, (), profiles),
        call_ensures(RulesEditor::default, (), rules),
        call_ensures(ActionEcho::default, (), echo),
    ensures
        queue.waiting@.len() == 0,
        profiles.editing_id is None,
        profiles.new_form is None,
        rules.form is None,
        echo.text is None,
        echo.since_ms is None,
{
}

} // verus!
