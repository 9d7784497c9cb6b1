//! The policy that the service runs by, as far as the tray shows and edits it:
//! profiles, match rules, affinity rules and the load balancer's settings.

use vstd::prelude::*;

use crate::sorting;
use crate::text;

verus! {

// ── Small settings ──────────────────────────────────────────────────────────

/// A kind of core on a hybrid or dual-die processor.
#[derive(Debug, Clone, Copy, PartialEq, Eq, Structural)]
pub enum CoreKind {
    Performance,
    Efficiency,
    Cache,
}

/// Which logical processors a setting is about.
#[derive(Debug, Clone, Copy, PartialEq, Eq, Structural)]
pub enum CpuSelector {
    All,
    Kind(CoreKind),
    /// One die by index.
    Ccd(u32),
    /// Everything but one die.
    CcdNot(u32),
    /// The `n` best-ranked cores.
    TopRanked(u32),
    /// An explicit set, one bit per processor.
    Mask(u64),
}

#[derive(Debug, Clone, Copy, PartialEq, Eq, Structural)]
pub enum PriorityClass {
    Idle,
    BelowNormal,
    Normal,
    AboveNormal,
    High,
}

#[derive(Debug, Clone, Copy, PartialEq, Eq, Structural)]
pub enum PowerThrottlingMode {
    Eco,
    Performance,
    SystemDefault,
}

#[derive(Debug, Clone, Copy, PartialEq, Eq, Structural)]
pub enum IoPriority {
    VeryLow,
    Low,
    Normal,
    High,
    Critical,
}

#[derive(Debug, Clone, Copy, PartialEq, Eq, Structural)]
pub enum MemoryPriority {
    VeryLow,
    Low,
    Medium,
    BelowNormal,
    Normal,
}

/// How much a profile may touch a game that runs under an anti-cheat.
#[derive(Debug, Clone, Copy, PartialEq, Eq, Structural)]
pub enum AntiCheatProfile {
    Aggressive,
    Hybrid,
    SafeMode,
    Disabled,
}

/// A Windows power plan; `Custom` carries its GUID.
#[derive(Debug, PartialEq, Eq)]
pub enum PowerPlanId {
    Balanced,
    HighPerformance,
    PowerSaver,
    UltimatePerformance,
    Custom(String),
}

/// A power plan by the text it carries.
pub enum PowerPlanView {
    Balanced,
    HighPerformance,
    PowerSaver,
    UltimatePerformance,
    Custom(Seq<char>),
}

impl View for PowerPlanId {
    type V = PowerPlanView;

    open spec fn view(&self) -> PowerPlanView {
        match self {
            PowerPlanId::Balanced => PowerPlanView::Balanced,
            PowerPlanId::HighPerformance => PowerPlanView::HighPerformance,
            PowerPlanId::PowerSaver => PowerPlanView::PowerSaver,
            PowerPlanId::UltimatePerformance => PowerPlanView::UltimatePerformance,
            PowerPlanId::Custom(guid) => PowerPlanView::Custom(guid@),
        }
    }
}

impl Clone for PowerPlanId {
    fn clone(&self) -> (r: Self)
        ensures
            r == *self,
    {
        match self {
            PowerPlanId::Balanced => PowerPlanId::Balanced,
            PowerPlanId::HighPerformance => PowerPlanId::HighPerformance,
            PowerPlanId::PowerSaver => PowerPlanId::PowerSaver,
            PowerPlanId::UltimatePerformance => PowerPlanId::UltimatePerformance,
            PowerPlanId::Custom(guid) => PowerPlanId::Custom(guid.clone()),
        }
    }
}

/// The load balancer's thresholds.
#[derive(Debug, Clone, Copy, PartialEq, Eq, Structural)]
pub struct ProBalanceConfig {
    pub enabled: bool,
    pub system_cpu_threshold_percent: u32,
    pub hog_cpu_threshold_percent: u32,
    pub min_restrain_ms: u64,
}

// ── Rules ───────────────────────────────────────────────────────────────────

/// What a match rule looks at.
#[derive(Debug, PartialEq, Eq)]
pub enum AppMatch {
    ExeName(String),
    PathContains(String),
    WindowTitleContains(String),
}

/// The kind of a match, without its text.
#[derive(Debug, Clone, Copy, PartialEq, Eq, Structural)]
pub enum MatchKind {
    ExeName,
    PathContains,
    WindowTitleContains,
}

impl AppMatch {
    pub open spec fn kind_spec(self) -> MatchKind {
        match self {
            AppMatch::ExeName(_) => MatchKind::ExeName,
            AppMatch::PathContains(_) => MatchKind::PathContains,
            AppMatch::WindowTitleContains(_) => MatchKind::WindowTitleContains,
        }
    }

    pub open spec fn value_spec(self) -> Seq<char> {
        match self {
            AppMatch::ExeName(s) => s@,
            AppMatch::PathContains(s) => s@,
            AppMatch::WindowTitleContains(s) => s@,
        }
    }

    /// The kind of match.
    pub fn kind(&self) -> (r: MatchKind)
        ensures
            r == self.kind_spec(),
    {
        match self {
            AppMatch::ExeName(_) => MatchKind::ExeName,
            AppMatch::PathContains(_) => MatchKind::PathContains,
            AppMatch::WindowTitleContains(_) => MatchKind::WindowTitleContains,
        }
    }

    /// The text that is matched against.
    pub fn value(&self) -> (r: &String)
        ensures
            r@ == self.value_spec(),
    {
        match self {
            AppMatch::ExeName(s) => s,
            AppMatch::PathContains(s) => s,
            AppMatch::WindowTitleContains(s) => s,
        }
    }

    /// A match of the given kind on the given text.
    pub fn new(kind: MatchKind, value: String) -> (r: AppMatch)
        ensures
            r.kind_spec() == kind,
            r.value_spec() == value@,
    {
        match kind {
            MatchKind::ExeName => AppMatch::ExeName(value),
            MatchKind::PathContains => AppMatch::PathContains(value),
            MatchKind::WindowTitleContains => AppMatch::WindowTitleContains(value),
        }
    }
}

impl Clone for AppMatch {
    fn clone(&self) -> (r: Self)
        ensures
            r == *self,
    {
        match self {
            AppMatch::ExeName(s) => AppMatch::ExeName(s.clone()),
            AppMatch::PathContains(s) => AppMatch::PathContains(s.clone()),
            AppMatch::WindowTitleContains(s) => AppMatch::WindowTitleContains(s.clone()),
        }
    }
}

/// "When the foreground matches, apply this profile."
#[derive(Debug, PartialEq, Eq)]
pub struct AppRule {
    pub matcher: AppMatch,
    pub profile: String,
    pub note: String,
}

/// A match rule by its texts.
pub struct RuleView {
    pub kind: MatchKind,
    pub value: Seq<char>,
    pub profile: Seq<char>,
    pub note: Seq<char>,
}

impl View for AppRule {
    type V = RuleView;

    open spec fn view(&self) -> RuleView {
        RuleView {
            kind: self.matcher.kind_spec(),
            value: self.matcher.value_spec(),
            profile: self.profile@,
            note: self.note@,
        }
    }
}

impl Clone for AppRule {
    fn clone(&self) -> (r: Self)
        ensures
            r == *self,
    {
        AppRule {
            matcher: self.matcher.clone(),
            profile: self.profile.clone(),
            note: self.note.clone(),
        }
    }
}

/// "Pin every process of this executable to these processors."
#[derive(Debug, PartialEq, Eq)]
pub struct AffinityRule {
    pub exe_name: String,
    pub selector: CpuSelector,
    pub note: String,
}

/// An affinity rule by its texts.
pub struct AffinityRuleView {
    pub exe_name: Seq<char>,
    pub selector: CpuSelector,
    pub note: Seq<char>,
}

impl View for AffinityRule {
    type V = AffinityRuleView;

    open spec fn view(&self) -> AffinityRuleView {
        AffinityRuleView {
            exe_name: self.exe_name@,
            selector: self.selector,
            note: self.note@,
        }
    }
}

impl Clone for AffinityRule {
    fn clone(&self) -> (r: Self)
        ensures
            r == *self,
    {
        AffinityRule {
            exe_name: self.exe_name.clone(),
            selector: self.selector,
            note: self.note.clone(),
        }
    }
}

// ── Profiles ────────────────────────────────────────────────────────────────

/// What a profile does to the whole system while it is applied.
#[derive(Debug, PartialEq, Eq)]
pub struct GameModeActions {
    pub hide_taskbar: bool,
    /// Kept only so that old policies load; nothing honours it.
    pub focus_assist: Option<u8>,
    pub stop_services: Vec<String>,
    pub suspend_processes: Vec<String>,
    pub power_plan: Option<PowerPlanId>,
    pub pause_windows_update: bool,
    /// The fields that the tray does not read, as one text that goes back as it
    /// came.
    pub rest: String,
}

/// Game Mode actions by their texts.
pub struct GameModeView {
    pub hide_taskbar: bool,
    pub focus_assist: Option<u8>,
    pub stop_services: Seq<Seq<char>>,
    pub suspend_processes: Seq<Seq<char>>,
    pub power_plan: Option<PowerPlanView>,
    pub pause_windows_update: bool,
    pub rest: Seq<char>,
}

pub open spec fn plan_view(p: Option<PowerPlanId>) -> Option<PowerPlanView> {
    match p {
        None => None,
        Some(plan) => Some(plan@),
    }
}

impl View for GameModeActions {
    type V = GameModeView;

    open spec fn view(&self) -> GameModeView {
        GameModeView {
            hide_taskbar: self.hide_taskbar,
            focus_assist: self.focus_assist,
            stop_services: text::texts(self.stop_services@),
            suspend_processes: text::texts(self.suspend_processes@),
            power_plan: plan_view(self.power_plan),
            pause_windows_update: self.pause_windows_update,
            rest: self.rest@,
        }
    }
}

/// A list of strings with the same texts.
pub fn clone_texts(v: &Vec<String>) -> (r: Vec<String>)
    ensures
        r@ == v@,
{
    let mut out: Vec<String> = Vec::new();
    for i in 0..v.len()
        invariant
            out@ == v@.take(i as int),
    {
        out.push(v[i].clone());
        assert(out@ =~= v@.take(i + 1));
    }
    assert(v@.take(v@.len() as int) =~= v@);
    out
}

pub fn clone_plan(p: &Option<PowerPlanId>) -> (r: Option<PowerPlanId>)
    ensures
        r == *p,
{
    match p {
        None => None,
        Some(plan) => Some(plan.clone()),
    }
}

impl Clone for GameModeActions {
    fn clone(&self) -> (r: Self)
        ensures
            r@ == self@,
    {
        GameModeActions {
            hide_taskbar: self.hide_taskbar,
            focus_assist: self.focus_assist,
            stop_services: clone_texts(&self.stop_services),
            suspend_processes: clone_texts(&self.suspend_processes),
            power_plan: clone_plan(&self.power_plan),
            pause_windows_update: self.pause_windows_update,
            rest: self.rest.clone(),
        }
    }
}

/// Game Mode actions that do nothing.
pub open spec fn no_actions() -> GameModeView {
    GameModeView {
        hide_taskbar: false,
        focus_assist: None,
        stop_services: Seq::empty(),
        suspend_processes: Seq::empty(),
        power_plan: None,
        pause_windows_update: false,
        rest: Seq::empty(),
    }
}

impl Default for GameModeActions {
    fn default() -> (r: Self)
        ensures
            r@ == no_actions(),
    {
        let r = GameModeActions {
            hide_taskbar: false,
            focus_assist: None,
            stop_services: Vec::new(),
            suspend_processes: Vec::new(),
            power_plan: None,
            pause_windows_update: false,
            rest: String::new(),
        };
        assert(r@.stop_services =~= Seq::empty());
        assert(r@.suspend_processes =~= Seq::empty());
        r
    }
}

/// A named bundle of settings.
#[derive(Debug, PartialEq, Eq)]
pub struct Profile {
    pub id: String,
    pub description: String,
    pub ac_safe_mode_target: AntiCheatProfile,
    pub power_throttling: Option<PowerThrottlingMode>,
    pub priority_class: Option<PriorityClass>,
    pub io_priority: Option<IoPriority>,
    pub memory_priority: Option<MemoryPriority>,
    pub trim_working_set: bool,
    /// The settings stick to a process for its lifetime.
    pub persistent: bool,
    pub cpu_sets: Option<CpuSelector>,
    pub affinity_mask: Option<CpuSelector>,
    pub game_mode: Option<GameModeActions>,
    /// May be applied system-wide by hand.
    pub manual_global_eligible: bool,
    /// The fields that the tray does not read, as one text that goes back as it
    /// came.
    pub rest: String,
}

/// A profile by its texts.
pub struct ProfileView {
    pub id: Seq<char>,
    pub description: Seq<char>,
    pub ac_safe_mode_target: AntiCheatProfile,
    pub power_throttling: Option<PowerThrottlingMode>,
    pub priority_class: Option<PriorityClass>,
    pub io_priority: Option<IoPriority>,
    pub memory_priority: Option<MemoryPriority>,
    pub trim_working_set: bool,
    pub persistent: bool,
    pub cpu_sets: Option<CpuSelector>,
    pub affinity_mask: Option<CpuSelector>,
    pub game_mode: Option<GameModeView>,
    pub manual_global_eligible: bool,
    pub rest: Seq<char>,
}

pub open spec fn game_mode_view(g: Option<GameModeActions>) -> Option<GameModeView> {
    match g {
        None => None,
        Some(gm) => Some(gm@),
    }
}

impl View for Profile {
    type V = ProfileView;

    open spec fn view(&self) -> ProfileView {
        ProfileView {
            id: self.id@,
            description: self.description@,
            ac_safe_mode_target: self.ac_safe_mode_target,
            power_throttling: self.power_throttling,
            priority_class: self.priority_class,
            io_priority: self.io_priority,
            memory_priority: self.memory_priority,
            trim_working_set: self.trim_working_set,
            persistent: self.persistent,
            cpu_sets: self.cpu_sets,
            affinity_mask: self.affinity_mask,
            game_mode: game_mode_view(self.game_mode),
            manual_global_eligible: self.manual_global_eligible,
            rest: self.rest@,
        }
    }
}

impl Clone for Profile {
    fn clone(&self) -> (r: Self)
        ensures
            r@ == self@,
    {
        Profile {
            id: self.id.clone(),
            description: self.description.clone(),
            ac_safe_mode_target: self.ac_safe_mode_target,
            power_throttling: self.power_throttling,
            priority_class: self.priority_class,
            io_priority: self.io_priority,
            memory_priority: self.memory_priority,
            trim_working_set: self.trim_working_set,
            persistent: self.persistent,
            cpu_sets: self.cpu_sets,
            affinity_mask: self.affinity_mask,
            game_mode: match &self.game_mode {
                None => None,
                Some(gm) => Some(gm.clone()),
            },
            manual_global_eligible: self.manual_global_eligible,
            rest: self.rest.clone(),
        }
    }
}

/// A profile that has an id and sets nothing.
pub open spec fn blank_profile(id: Seq<char>) -> ProfileView {
    ProfileView {
        id,
        description: Seq::empty(),
        ac_safe_mode_target: AntiCheatProfile::Aggressive,
        power_throttling: None,
        priority_class: None,
        io_priority: None,
        memory_priority: None,
        trim_working_set: false,
        persistent: false,
        cpu_sets: None,
        affinity_mask: None,
        game_mode: None,
        manual_global_eligible: false,
        rest: Seq::empty(),
    }
}

impl Profile {
    /// A profile that has an id and sets nothing.
    pub fn new(id: &str) -> (r: Profile)
        ensures
            r@ == blank_profile(id@),
    {
        Profile {
            id: id.to_owned(),
            description: String::new(),
            ac_safe_mode_target: AntiCheatProfile::Aggressive,
            power_throttling: None,
            priority_class: None,
            io_priority: None,
            memory_priority: None,
            trim_working_set: false,
            persistent: false,
            cpu_sets: None,
            affinity_mask: None,
            game_mode: None,
            manual_global_eligible: false,
            rest: String::new(),
        }
    }
}

// ── The policy ──────────────────────────────────────────────────────────────

/// Everything that the tray shows and edits. Profile ids are distinct.
#[derive(Debug, PartialEq, Eq)]
pub struct Policy {
    pub profiles: Vec<Profile>,
    pub rules: Vec<AppRule>,
    pub affinity_rules: Vec<AffinityRule>,
    pub default_profile: String,
    pub background_profile: Option<String>,
    pub probalance: ProBalanceConfig,
    pub closed_loop_enabled: bool,
    /// The fields that the tray does not read, as one text that goes back as it
    /// came.
    pub rest: String,
}

/// A policy by its texts.
pub struct PolicyView {
    pub profiles: Seq<ProfileView>,
    pub rules: Seq<RuleView>,
    pub affinity_rules: Seq<AffinityRuleView>,
    pub default_profile: Seq<char>,
    pub background_profile: Option<Seq<char>>,
    pub probalance: ProBalanceConfig,
    pub closed_loop_enabled: bool,
    pub rest: Seq<char>,
}

pub open spec fn text_view(t: Option<String>) -> Option<Seq<char>> {
    match t {
        None => None,
        Some(s) => Some(s@),
    }
}

pub open spec fn profile_views(v: Seq<Profile>) -> Seq<ProfileView> {
    v.map_values(|p: Profile| p@)
}

pub open spec fn rule_views(v: Seq<AppRule>) -> Seq<RuleView> {
    v.map_values(|r: AppRule| r@)
}

pub open spec fn affinity_rule_views(v: Seq<AffinityRule>) -> Seq<AffinityRuleView> {
    v.map_values(|r: AffinityRule| r@)
}

impl View for Policy {
    type V = PolicyView;

    open spec fn view(&self) -> PolicyView {
        PolicyView {
            profiles: profile_views(self.profiles@),
            rules: rule_views(self.rules@),
            affinity_rules: affinity_rule_views(self.affinity_rules@),
            default_profile: self.default_profile@,
            background_profile: text_view(self.background_profile),
            probalance: self.probalance,
            closed_loop_enabled: self.closed_loop_enabled,
            rest: self.rest@,
        }
    }
}

impl PolicyView {
    /// No two profiles share an id.
    pub open spec fn ids_distinct(self) -> bool {
        forall|i: int, j: int|
            0 <= i < j < self.profiles.len() ==> (#[trigger] self.profiles[i]).id != (
            #[trigger] self.profiles[j]).id
    }
}

pub fn clone_text(t: &Option<String>) -> (r: Option<String>)
    ensures
        r == *t,
{
    match t {
        None => None,
        Some(s) => Some(s.clone()),
    }
}

pub fn clone_profiles(v: &Vec<Profile>) -> (r: Vec<Profile>)
    ensures
        profile_views(r@) == profile_views(v@),
{
    let mut out: Vec<Profile> = Vec::new();
    for i in 0..v.len()
        invariant
            profile_views(out@) == profile_views(v@.take(i as int)),
    {
        out.push(v[i].clone());
        assert(profile_views(out@) =~= profile_views(v@.take(i as int)).push(v@[i as int]@));
        assert(profile_views(v@.take(i + 1)) =~= profile_views(v@.take(i as int)).push(
            v@[i as int]@,
        ));
    }
    assert(v@.take(v@.len() as int) =~= v@);
    out
}

pub fn clone_rules(v: &Vec<AppRule>) -> (r: Vec<AppRule>)
    ensures
        r@ == v@,
{
    let mut out: Vec<AppRule> = Vec::new();
    for i in 0..v.len()
        invariant
            out@ == v@.take(i as int),
    {
        out.push(v[i].clone());
        assert(out@ =~= v@.take(i + 1));
    }
    assert(v@.take(v@.len() as int) =~= v@);
    out
}

pub fn clone_affinity_rules(v: &Vec<AffinityRule>) -> (r: Vec<AffinityRule>)
    ensures
        r@ == v@,
{
    let mut out: Vec<AffinityRule> = Vec::new();
    for i in 0..v.len()
        invariant
            out@ == v@.take(i as int),
    {
        out.push(v[i].clone());
        assert(out@ =~= v@.take(i + 1));
    }
    assert(v@.take(v@.len() as int) =~= v@);
    out
}

impl Clone for Policy {
    fn clone(&self) -> (r: Self)
        ensures
            r@ == self@,
    {
        Policy {
            profiles: clone_profiles(&self.profiles),
            rules: clone_rules(&self.rules),
            affinity_rules: clone_affinity_rules(&self.affinity_rules),
            default_profile: self.default_profile.clone(),
            background_profile: clone_text(&self.background_profile),
            probalance: self.probalance,
            closed_loop_enabled: self.closed_loop_enabled,
            rest: self.rest.clone(),
        }
    }
}

/// A policy without profiles or rules, with closed-loop measurement off.
pub open spec fn empty_policy() -> PolicyView {
    PolicyView {
        profiles: Seq::empty(),
        rules: Seq::empty(),
        affinity_rules: Seq::empty(),
        default_profile: "default"@,
        background_profile: None,
        probalance: ProBalanceConfig {
            enabled: false,
            system_cpu_threshold_percent: 0,
            hog_cpu_threshold_percent: 0,
            min_restrain_ms: 0,
        },
        closed_loop_enabled: false,
        rest: Seq::empty(),
    }
}

impl Default for Policy {
    fn default() -> (r: Self)
        ensures
            r@ == empty_policy(),
    {
        let r = Policy {
            profiles: Vec::new(),
            rules: Vec::new(),
            affinity_rules: Vec::new(),
            default_profile: "default".to_owned(),
            background_profile: None,
            probalance: ProBalanceConfig {
                enabled: false,
                system_cpu_threshold_percent: 0,
                hog_cpu_threshold_percent: 0,
                min_restrain_ms: 0,
            },
            closed_loop_enabled: false,
            rest: String::new(),
        };
        assert(r@.profiles =~= Seq::empty());
        assert(r@.rules =~= Seq::empty());
        assert(r@.affinity_rules =~= Seq::empty());
        r
    }
}

// ── Looking things up ───────────────────────────────────────────────────────

/// The position of the first profile with this id, if there is one.
pub open spec fn profile_position(profiles: Seq<ProfileView>, id: Seq<char>) -> Option<int>
    decreases profiles.len(),
{
    if profiles.len() == 0 {
        None
    } else {
        match profile_position(profiles.drop_last(), id) {
            Some(i) => Some(i),
            None => if profiles.last().id == id {
                Some(profiles.len() - 1)
            } else {
                None
            },
        }
    }
}

/// A found position holds the id, and no earlier one does; where none is found
/// no profile has the id.
pub proof fn profile_position_is_first_match(profiles: Seq<ProfileView>, id: Seq<char>)
    ensures
        match profile_position(profiles, id) {
            Some(i) => 0 <= i < profiles.len() && profiles[i].id == id && forall|j: int|
                0 <= j < i ==> (#[trigger] profiles[j]).id != id,
            None => forall|j: int| 0 <= j < profiles.len() ==> (#[trigger] profiles[j]).id != id,
        },
    decreases profiles.len(),
{
    if profiles.len() > 0 {
        let shorter = profiles.drop_last();
        profile_position_is_first_match(shorter, id);
        match profile_position(shorter, id) {
            Some(i) => {
                assert forall|j: int| 0 <= j < i implies (#[trigger] profiles[j]).id != id by {
                    assert(shorter[j] == profiles[j]);
                }
            },
            None => {
                assert forall|j: int| 0 <= j < profiles.len() - 1 implies (#[trigger] profiles[j]).id
                    != id by {
                    assert(shorter[j] == profiles[j]);
                }
            },
        }
    }
}

/// The profiles with `p` put in: in place of the profile with its id, else at
/// the end.
pub open spec fn profiles_with(profiles: Seq<ProfileView>, p: ProfileView) -> Seq<ProfileView> {
    match profile_position(profiles, p.id) {
        Some(i) => profiles.update(i, p),
        None => profiles.push(p),
    }
}

/// The profiles without the one that has this id.
pub open spec fn profiles_without(profiles: Seq<ProfileView>, id: Seq<char>) -> Seq<ProfileView> {
    match profile_position(profiles, id) {
        Some(i) => profiles.remove(i),
        None => profiles,
    }
}

/// The profile ids in dictionary order.
pub open spec fn sorted_ids(profiles: Seq<ProfileView>) -> Seq<Seq<char>> {
    sorting::sorted_positions(profiles.len(), id_order(profiles)).map_values(
        |i: usize| profiles[i as int].id,
    )
}

/// Every profile id is listed.
pub proof fn sorted_ids_count(profiles: Seq<ProfileView>)
    ensures
        sorted_ids(profiles).len() == profiles.len(),
{
    lemma_id_order(profiles);
    sorting::lemma_stable_is_total(id_order(profiles));
    let places = sorting::positions(profiles.len());
    places.lemma_sort_by_ensures(sorting::stable(id_order(profiles)));
    vstd::seq_lib::to_multiset_len(places);
    vstd::seq_lib::to_multiset_len(sorting::sorted_positions(profiles.len(), id_order(profiles)));
}

pub open spec fn id_order(profiles: Seq<ProfileView>) -> spec_fn(usize, usize) -> bool {
    |x: usize, y: usize| text::text_leq(profiles[x as int].id, profiles[y as int].id)
}

/// Whether some profile id equals `id` up to ASCII case.
pub open spec fn id_is_taken(profiles: Seq<ProfileView>, id: Seq<char>) -> bool {
    exists|i: int|
        0 <= i < profiles.len() && text::lower((#[trigger] profiles[i]).id) == text::lower(id)
}

/// Whether some match rule applies this profile.
pub open spec fn is_used_by_rule(rules: Seq<RuleView>, id: Seq<char>) -> bool {
    exists|i: int| 0 <= i < rules.len() && (#[trigger] rules[i]).profile == id
}

/// Whether some match rule is about this executable, up to ASCII case.
pub open spec fn has_exe_rule(rules: Seq<RuleView>, exe: Seq<char>) -> bool {
    exists|i: int|
        0 <= i < rules.len() && (#[trigger] rules[i]).kind == MatchKind::ExeName && text::lower(
            rules[i].value,
        ) == text::lower(exe)
}

/// Whether an affinity rule is about this executable, up to ASCII case.
pub open spec fn is_rule_for(rule: AffinityRuleView, exe: Seq<char>) -> bool {
    text::lower(rule.exe_name) == text::lower(exe)
}

/// Whether some affinity rule is about this executable.
pub open spec fn has_affinity_rule(rules: Seq<AffinityRuleView>, exe: Seq<char>) -> bool {
    exists|i: int| 0 <= i < rules.len() && is_rule_for(#[trigger] rules[i], exe)
}

/// The selector of the first affinity rule about this executable.
pub open spec fn affinity_selector_for(
    rules: Seq<AffinityRuleView>,
    exe: Seq<char>,
) -> Option<CpuSelector>
    decreases rules.len(),
{
    if rules.len() == 0 {
        None
    } else if is_rule_for(rules[0], exe) {
        Some(rules[0].selector)
    } else {
        affinity_selector_for(rules.drop_first(), exe)
    }
}

/// An executable has an affinity rule exactly when a selector is found for it.
pub proof fn affinity_selector_found_iff_rule(rules: Seq<AffinityRuleView>, exe: Seq<char>)
    ensures
        affinity_selector_for(rules, exe) is Some <==> has_affinity_rule(rules, exe),
    decreases rules.len(),
{
    if rules.len() > 0 {
        let rest = rules.drop_first();
        affinity_selector_found_iff_rule(rest, exe);
        if has_affinity_rule(rest, exe) {
            let i = choose|i: int| 0 <= i < rest.len() && is_rule_for(#[trigger] rest[i], exe);
            assert(is_rule_for(rules[i + 1], exe));
        }
        if has_affinity_rule(rules, exe) && !is_rule_for(rules[0], exe) {
            let i = choose|i: int| 0 <= i < rules.len() && is_rule_for(#[trigger] rules[i], exe);
            assert(is_rule_for(rest[i - 1], exe));
        }
    }
}

/// Putting a profile in keeps the ids distinct.
pub proof fn profiles_with_keeps_ids_distinct(policy: PolicyView, p: ProfileView)
    requires
        policy.ids_distinct(),
    ensures
        (PolicyView { profiles: profiles_with(policy.profiles, p), ..policy }).ids_distinct(),
{
    profile_position_is_first_match(policy.profiles, p.id);
}

/// Taking a profile out keeps the ids distinct, and takes its id away.
pub proof fn profiles_without_keeps_ids_distinct(policy: PolicyView, id: Seq<char>)
    requires
        policy.ids_distinct(),
    ensures
        (PolicyView { profiles: profiles_without(policy.profiles, id), ..policy }).ids_distinct(),
        profile_position(profiles_without(policy.profiles, id), id) is None,
{
    profile_position_is_first_match(policy.profiles, id);
    let rest = profiles_without(policy.profiles, id);
    profile_position_is_first_match(rest, id);
    if let Some(i) = profile_position(policy.profiles, id) {
        assert forall|j: int| 0 <= j < rest.len() implies (#[trigger] rest[j]).id != id by {
            let k = if j < i {
                j
            } else {
                j + 1
            };
            assert(rest[j] == policy.profiles[k]);
        }
    }
}

/// What is put in is what is found.
pub proof fn profile_put_in_is_found(profiles: Seq<ProfileView>, p: ProfileView)
    ensures
        profile_position(profiles_with(profiles, p), p.id) matches Some(i) && profiles_with(
            profiles,
            p,
        )[i] == p,
{
    let after = profiles_with(profiles, p);
    profile_position_is_first_match(profiles, p.id);
    profile_position_is_first_match(after, p.id);
    match profile_position(profiles, p.id) {
        Some(i) => {
            assert(after[i].id == p.id);
            let k = profile_position(after, p.id)->0;
            if k < i {
                assert(after[k] == profiles[k]);
            }
        },
        None => {
            assert(after[profiles.len() as int].id == p.id);
            let k = profile_position(after, p.id)->0;
            if k < profiles.len() {
                assert(after[k] == profiles[k]);
            }
        },
    }
}

impl Policy {
    /// The position of the profile with this id.
    pub fn find_profile(&self, id: &str) -> (r: Option<usize>)
        ensures
            match r {
                Some(i) => i < self.profiles@.len() && profile_position(self@.profiles, id@)
                    == Some(i as int),
                None => profile_position(self@.profiles, id@) is None,
            },
    {
        let ghost views = profile_views(self.profiles@);
        for i in 0..self.profiles.len()
            invariant
                views == profile_views(self.profiles@),
                profile_position(views.take(i as int), id@) is None,
        {
            let ghost longer = views.take(i + 1);
            proof {
                assert(longer.drop_last() =~= views.take(i as int));
            }
            if text::same_text(self.profiles[i].id.as_str(), id) {
                proof {
                    assert(longer.last().id == id@);
                    lemma_position_extends(views, id@, i + 1);
                }
                return Some(i);
            }
        }
        assert(views.take(views.len() as int) =~= views);
        None
    }

    /// The profile ids in dictionary order.
    pub fn profile_ids(&self) -> (r: Vec<String>)
        ensures
            text::texts(r@) == sorted_ids(self@.profiles),
    {
        let ghost views = self@.profiles;
        let ghost leq = id_order(views);
        proof {
            lemma_id_order(views);
        }
        let profiles: &Vec<Profile> = &self.profiles;
        let not_after = |x: usize, y: usize| -> (b: bool)
            requires
                x < profiles@.len(),
                y < profiles@.len(),
            ensures
                b == text::text_leq(profiles@[x as int].id@, profiles@[y as int].id@),
            { text::text_not_after(profiles[x].id.as_str(), profiles[y].id.as_str()) };
        let order = sorting::sort_positions(profiles.len(), not_after, Ghost(leq));
        let mut out: Vec<String> = Vec::new();
        for k in 0..order.len()
            invariant
                profiles@ == self.profiles@,
                views == profile_views(profiles@),
                order@ == sorting::sorted_positions(views.len(), id_order(views)),
                forall|j: int| 0 <= j < order@.len() ==> (#[trigger] order@[j]) < profiles@.len(),
                text::texts(out@) == order@.take(k as int).map_values(
                    |i: usize| views[i as int].id,
                ),
        {
            let ghost pick = |i: usize| views[i as int].id;
            let ghost done = text::texts(out@);
            assert(order@[k as int] < profiles@.len());
            out.push(profiles[order[k]].id.clone());
            assert(text::texts(out@) =~= done.push(pick(order@[k as int])));
            assert(order@.take(k + 1).map_values(pick) =~= order@.take(k as int).map_values(
                pick,
            ).push(pick(order@[k as int])));
        }
        assert(order@.take(order@.len() as int) =~= order@);
        out
    }

    /// Puts a profile in, in place of the one with its id.
    pub fn put_profile(&mut self, p: Profile)
        ensures
            final(self)@ == (PolicyView {
                profiles: profiles_with(old(self)@.profiles, p@),
                ..old(self)@
            }),
    {
        let ghost before = self@;
        match self.find_profile(p.id.as_str()) {
            Some(i) => {
                self.profiles.set(i, p);
                assert(self@.profiles =~= before.profiles.update(i as int, p@));
            },
            None => {
                self.profiles.push(p);
                assert(self@.profiles =~= before.profiles.push(p@));
            },
        }
    }

    /// Takes the profile with this id out.
    pub fn remove_profile(&mut self, id: &str)
        ensures
            final(self)@ == (PolicyView {
                profiles: profiles_without(old(self)@.profiles, id@),
                ..old(self)@
            }),
    {
        let ghost before = self@;
        if let Some(i) = self.find_profile(id) {
            self.profiles.remove(i);
            assert(self@.profiles =~= before.profiles.remove(i as int));
        }
    }

    /// Whether some profile id equals `id` up to ASCII case.
    pub fn is_id_taken(&self, id: &str) -> (r: bool)
        ensures
            r == id_is_taken(self@.profiles, id@),
    {
        for i in 0..self.profiles.len()
            invariant
                forall|j: int|
                    0 <= j < i ==> text::lower((#[trigger] self@.profiles[j]).id) != text::lower(
                        id@,
                    ),
        {
            if text::same_ignoring_case(self.profiles[i].id.as_str(), id) {
                assert(text::lower(self@.profiles[i as int].id) == text::lower(id@));
                return true;
            }
        }
        false
    }

    /// Whether some match rule applies this profile.
    pub fn is_profile_used(&self, id: &str) -> (r: bool)
        ensures
            r == is_used_by_rule(self@.rules, id@),
    {
        for i in 0..self.rules.len()
            invariant
                forall|j: int| 0 <= j < i ==> (#[trigger] self@.rules[j]).profile != id@,
        {
            if text::same_text(self.rules[i].profile.as_str(), id) {
                assert(self@.rules[i as int].profile == id@);
                return true;
            }
        }
        false
    }

    /// Whether some match rule is about this executable.
    pub fn has_rule_for_exe(&self, exe: &str) -> (r: bool)
        ensures
            r == has_exe_rule(self@.rules, exe@),
    {
        for i in 0..self.rules.len()
            invariant
                forall|j: int|
                    0 <= j < i ==> !((#[trigger] self@.rules[j]).kind == MatchKind::ExeName
                        && text::lower(self@.rules[j].value) == text::lower(exe@)),
        {
            let rule = &self.rules[i];
            if rule.matcher.kind() == MatchKind::ExeName && text::same_ignoring_case(
                rule.matcher.value().as_str(),
                exe,
            ) {
                assert(self@.rules[i as int].kind == MatchKind::ExeName);
                return true;
            }
        }
        false
    }

    /// The selector of the persistent affinity rule for an executable.
    pub fn affinity_rule_for(&self, exe: &str) -> (r: Option<CpuSelector>)
        ensures
            r == affinity_selector_for(self@.affinity_rules, exe@),
    {
        let ghost views = self@.affinity_rules;
        assert(views.skip(0) =~= views);
        for i in 0..self.affinity_rules.len()
            invariant
                views == self@.affinity_rules,
                affinity_selector_for(views.skip(i as int), exe@) == affinity_selector_for(
                    views,
                    exe@,
                ),
        {
            assert(views.skip(i as int).drop_first() =~= views.skip(i + 1));
            if text::same_ignoring_case(self.affinity_rules[i].exe_name.as_str(), exe) {
                return Some(self.affinity_rules[i].selector);
            }
        }
        assert(views.skip(views.len() as int) =~= Seq::empty());
        None
    }
}

proof fn lemma_position_extends(profiles: Seq<ProfileView>, id: Seq<char>, n: int)
    requires
        0 <= n <= profiles.len(),
        profile_position(profiles.take(n), id) is Some,
    ensures
        profile_position(profiles, id) == profile_position(profiles.take(n), id),
    decreases profiles.len(),
{
    if n == profiles.len() {
        assert(profiles.take(n) =~= profiles);
    } else {
        assert(profiles.drop_last().take(n) =~= profiles.take(n));
        lemma_position_extends(profiles.drop_last(), id, n);
    }
}

/// Going by id is an order in which any two profiles can be told.
pub proof fn lemma_id_order(profiles: Seq<ProfileView>)
    ensures
        sorting::is_preorder(id_order(profiles)),
{
    let leq = id_order(profiles);
    assert forall|x: usize, y: usize| #[trigger] leq(x, y) || leq(y, x) by {
        text::text_order_is_total(
            profiles[x as int].id,
            profiles[y as int].id,
            profiles[x as int].id,
        );
    }
    assert forall|x: usize, y: usize, z: usize| #[trigger] leq(x, y) && #[trigger] leq(
        y,
        z,
    ) implies leq(x, z) by {
        text::text_order_is_total(
            profiles[x as int].id,
            profiles[y as int].id,
            profiles[z as int].id,
        );
    }
}

// ── Drafts ──────────────────────────────────────────────────────────────────

/// The policy that edits start from: the draft, else the service's policy.
pub open spec fn draft_or(draft: Option<Policy>, current: Policy) -> PolicyView {
    match draft {
        Some(d) => d@,
        None => current@,
    }
}

/// A draft by its texts.
pub open spec fn draft_view(draft: Option<Policy>) -> Option<PolicyView> {
    match draft {
        Some(d) => Some(d@),
        None => None,
    }
}

/// Takes the draft out for editing; without one, a copy of the service's
/// policy.
pub fn take_draft(draft: &mut Option<Policy>, current: &Policy) -> (r: Policy)
    ensures
        r@ == draft_or(*old(draft), *current),
        *final(draft) is None,
{
    match draft.take() {
        Some(d) => d,
        None => current.clone(),
    }
}

/// Makes sure that there is a draft.
pub fn start_draft(draft: &mut Option<Policy>, current: &Policy)
    ensures
        draft_view(*final(draft)) == Some(draft_or(*old(draft), *current)),
{
    if draft.is_none() {
        *draft = Some(current.clone());
    }
}

/// Appends a match rule.
pub fn add_rule(policy: &mut Policy, rule: AppRule)
    ensures
        final(policy)@ == (PolicyView {
            rules: old(policy)@.rules.push(rule@),
            ..old(policy)@
        }),
{
    policy.rules.push(rule);
    assert(policy@.rules =~= old(policy)@.rules.push(rule@));
}

} // verus!
