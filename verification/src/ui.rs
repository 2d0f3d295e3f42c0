//! The tray's model: what the menu shows, what an update from the monitor
//! changes on screen, and what a menu choice asks for. The widgets are the
//! caller's; this module says what to put in them.
use vstd::prelude::*;

use crate::app_icon::{aggregate_status, worst_status};
use crate::appdata::AppData;
use crate::config::{Config, TargetConfig};
use crate::monitor::{
    find_index, find_state, first_state_named, label_of, unique_names, MonitorUpdate, TargetState,
};
use crate::process::{find_target, first_named};
use crate::status::{status_glyph, Status};
use crate::text::{contains, has_substring, same_text, string_of};

verus! {

/// One entry of the menu.
#[derive(Debug)]
pub struct MenuEntry {
    pub text: String,
    pub enabled: bool,
    /// The target whose status this entry heads, for the entries that
    /// show one.
    pub header_of: Option<String>,
}

/// An element of the tray menu.
#[derive(Debug)]
pub enum MenuNode {
    Submenu { title: String, enabled: bool, items: Vec<MenuEntry> },
    Separator,
    Item(MenuEntry),
}

/// The text last written into the header entry of a target.
#[derive(Debug)]
pub struct HeaderText {
    pub name: String,
    pub text: String,
}

/// What the tray has to change on screen after an update.
#[derive(Debug)]
pub struct UiChanges {
    /// The status to show as the tray icon, when it differs from the one
    /// shown.
    pub icon: Option<Status>,
    /// New texts for header entries, in menu order.
    pub headers: Vec<HeaderText>,
}

/// What the tray needs to appear.
#[derive(Debug)]
pub struct TrayInit {
    pub tooltip: String,
    pub icon: Status,
    pub menu: Vec<MenuNode>,
}

/// The tray application's state.
#[derive(Debug)]
pub struct TrayApp {
    pub(crate) config: std::sync::Arc<Config>,
    pub(crate) appdata: AppData,
    /// The latest state reported for each target name, one per name.
    pub(crate) targets: Vec<TargetState>,
    /// The header entries of the menu, one per target name, with the text
    /// each shows; texts are only rewritten when they change, so an open
    /// menu is not disturbed.
    pub(crate) header_texts: Vec<HeaderText>,
    /// The status last shown as the tray icon; the icon is only set again
    /// when the aggregate changes, to avoid flicker.
    pub(crate) last_agg: Option<Status>,
}

/// What a tray holds, as values: the configuration, the application's
/// files, the reported states, the header entries and the status shown.
pub struct TrayView {
    pub config: Config,
    pub appdata: AppData,
    pub targets: Seq<TargetState>,
    pub header_texts: Seq<HeaderText>,
    pub last_agg: Option<Status>,
}

impl View for TrayApp {
    type V = TrayView;

    closed spec fn view(&self) -> TrayView {
        TrayView {
            config: *self.config,
            appdata: self.appdata,
            targets: self.targets@,
            header_texts: self.header_texts@,
            last_agg: self.last_agg,
        }
    }
}

impl TrayApp {
    /// A tray holds one state per target name and one header entry per
    /// target name.
    #[verifier::type_invariant]
    pub(crate) closed spec fn well_formed(self) -> bool {
        &&& unique_names(self.targets@)
        &&& distinct_header_names(self.header_texts@)
    }

    /// The configuration.
    pub fn config(&self) -> (r: &std::sync::Arc<Config>)
        ensures
            **r == self@.config,
    {
        &self.config
    }

    /// The application's directories and files.
    pub fn appdata(&self) -> (r: &AppData)
        ensures
            *r == self@.appdata,
    {
        &self.appdata
    }

    /// The latest state reported for each target name.
    pub fn targets(&self) -> (r: &Vec<TargetState>)
        ensures
            r@ == self@.targets,
            unique_names(r@),
    {
        proof {
            use_type_invariant(self);
        }
        &self.targets
    }

    /// The header entries of the menu and the text each shows.
    pub fn header_texts(&self) -> (r: &Vec<HeaderText>)
        ensures
            r@ == self@.header_texts,
            distinct_header_names(r@),
    {
        proof {
            use_type_invariant(self);
        }
        &self.header_texts
    }

    /// The status last shown as the tray icon.
    pub fn last_agg(&self) -> (r: Option<Status>)
        ensures
            r == self@.last_agg,
    {
        self.last_agg
    }
}

// ---------------------------------------------------------------------
// Specifications
// ---------------------------------------------------------------------

/// The text of a target's header entry: the status symbol, a space, the
/// label.
pub open spec fn header_text(s: Status, label: Seq<char>) -> Seq<char> {
    status_glyph(s) + " "@ + label
}

/// The status recorded for a name, `Okay` when none is.
pub open spec fn status_of(states: Seq<TargetState>, name: Seq<char>) -> Status {
    match find_index(states, name) {
        Some(i) => states[i].status,
        None => Status::Okay,
    }
}

/// The label for a name: the label of the first target with that name when
/// it has one, else the name itself.
pub open spec fn label_for(c: Config, name: Seq<char>) -> Seq<char> {
    match first_named(c.targets@, name) {
        Some(j) => match c.targets@[j].label {
            Some(l) => l@,
            None => name,
        },
        None => name,
    }
}

/// The states after recording `s`: it replaces the state of its name, or
/// is added after the others.
pub open spec fn upsert(states: Seq<TargetState>, s: TargetState) -> Seq<TargetState> {
    match find_index(states, s.name@) {
        Some(i) => states.update(i, s),
        None => states.push(s),
    }
}

/// The statuses of the states.
pub open spec fn statuses(states: Seq<TargetState>) -> Seq<Status> {
    states.map_values(|t: TargetState| t.status)
}

/// The header text a name should show now.
pub open spec fn current_header(c: Config, states: Seq<TargetState>, name: Seq<char>) -> Seq<char> {
    header_text(status_of(states, name), label_for(c, name))
}

/// The header texts that change, in order, as (name, new text).
pub open spec fn header_changes(c: Config, states: Seq<TargetState>, hs: Seq<HeaderText>) -> Seq<(Seq<char>, Seq<char>)>
    decreases hs.len(),
{
    if hs.len() == 0 {
        Seq::empty()
    } else {
        let h = hs.last();
        let rest = header_changes(c, states, hs.drop_last());
        if h.text@ != current_header(c, states, h.name@) {
            rest.push((h.name@, current_header(c, states, h.name@)))
        } else {
            rest
        }
    }
}

/// The (name, text) pairs of header texts.
pub open spec fn header_views(hs: Seq<HeaderText>) -> Seq<(Seq<char>, Seq<char>)> {
    hs.map_values(|h: HeaderText| (h.name@, h.text@))
}

/// The entry views of a menu entry list: (text, enabled, header target).
pub open spec fn entry_views(es: Seq<MenuEntry>) -> Seq<(Seq<char>, bool, Option<Seq<char>>)> {
    es.map_values(|e: MenuEntry| (e.text@, e.enabled, crate::text::opt_view(e.header_of)))
}

/// The five entries of a target in the menu: its header (disabled), `Show
/// tail`, `Open log in viewer` (enabled when it has a log), `Restart`
/// (enabled when it has a restart script) and `Stop`.
pub open spec fn target_entries(t: TargetConfig, s: Status) -> Seq<(Seq<char>, bool, Option<Seq<char>>)> {
    let label = label_of(t);
    seq![
        (header_text(s, label), false, Some(t.name@)),
        ("  Show tail: "@ + label, true, None),
        ("  Open log in viewer"@, t.log is Some, None),
        ("  Restart \""@ + label + "\""@, t.restart_script is Some, None),
        ("  Stop \""@ + label + "\""@, true, None),
    ]
}

/// The entries of the first `k` targets.
pub open spec fn targets_entries(ts: Seq<TargetConfig>, states: Seq<TargetState>, k: int) -> Seq<(Seq<char>, bool, Option<Seq<char>>)>
    decreases k,
{
    if k <= 0 {
        Seq::empty()
    } else {
        targets_entries(ts, states, k - 1) + target_entries(ts[k - 1], status_of(states, ts[k - 1].name@))
    }
}

/// `hs` holds, once per name among the first `k` targets, the header of the
/// last target with that name.
pub open spec fn headers_built(ts: Seq<TargetConfig>, states: Seq<TargetState>, k: int, hs: Seq<HeaderText>) -> bool {
    &&& forall|a: int, b: int| 0 <= a < hs.len() && 0 <= b < hs.len() && a != b ==> (#[trigger] hs[a]).name@ != (#[trigger] hs[b]).name@
    &&& forall|j: int| 0 <= j < k ==> exists|i: int| 0 <= i < hs.len() && (#[trigger] hs[i]).name@ == (#[trigger] ts[j]).name@
    &&& forall|i: int| 0 <= i < hs.len() ==> exists|j: int| crate::monitor::last_of_name(ts, k, j) && (#[trigger] ts[j]).name@ == (#[trigger] hs[i]).name@
        && hs[i].text@ == header_text(status_of(states, ts[j].name@), label_of(ts[j]))
}

// ---------------------------------------------------------------------
// Executable parts
// ---------------------------------------------------------------------

fn find_header(hs: &Vec<HeaderText>, name: &str) -> (r: Option<usize>)
    ensures
        match r {
            Some(i) => i < hs.len() && hs@[i as int].name@ == name@,
            None => forall|i: int| 0 <= i < hs.len() ==> (#[trigger] hs@[i]).name@ != name@,
        },
{
    let mut i: usize = 0;
    while i < hs.len()
        invariant
            i <= hs.len(),
            forall|m: int| 0 <= m < i ==> (#[trigger] hs@[m]).name@ != name@,
        decreases hs.len() - i,
    {
        if same_text(hs[i].name.as_str(), name) {
            return Some(i);
        }
        i = i + 1;
    }
    None
}

/// The label for a name: the label of the first target with that name when
/// it has one, else the name.
pub fn label_for_name(config: &Config, name: &str) -> (r: String)
    ensures
        r@ == label_for(*config, name@),
{
    match find_target(config, name) {
        Some(j) => match &config.targets[j].label {
            Some(l) => l.clone(),
            None => string_of(name),
        },
        None => string_of(name),
    }
}

/// The label shown for a target: its own label, or its name.
pub fn target_label(t: &TargetConfig) -> (r: String)
    ensures
        r@ == label_of(*t),
{
    match &t.label {
        Some(l) => l.clone(),
        None => t.name.clone(),
    }
}

/// The status recorded for a name, `Okay` when none is.
pub fn recorded_status(states: &Vec<TargetState>, name: &str) -> (r: Status)
    ensures
        r == status_of(states@, name@),
{
    match find_state(states, name) {
        Some(i) => {
            proof {
                crate::monitor::lemma_find_index_first(states@, name@, i as int);
            }
            states[i].status
        },
        None => {
            proof {
                crate::monitor::lemma_find_index_absent(states@, name@);
            }
            Status::Okay
        },
    }
}

/// The text of a header entry.
pub fn make_header_text(s: Status, label: &str) -> (r: String)
    ensures
        r@ == header_text(s, label@),
{
    let mut r = string_of(s.glyph());
    r.append(" ");
    r.append(label);
    r
}

fn entry(text: String, enabled: bool, header_of: Option<String>) -> (e: MenuEntry)
    ensures
        e.text == text,
        e.enabled == enabled,
        e.header_of == header_of,
{
    MenuEntry { text, enabled, header_of }
}

/// Records a state: it replaces the state of the same name, or is added.
pub fn upsert_state(states: &mut Vec<TargetState>, s: TargetState)
    ensures
        final(states)@ == upsert(old(states)@, s),
        unique_names(old(states)@) ==> unique_names(final(states)@),
{
    match find_state(states, s.name.as_str()) {
        Some(i) => {
            proof {
                crate::monitor::lemma_find_index_first(old(states)@, s.name@, i as int);
            }
            states.set(i, s);
            proof {
                assert forall|a: int| 0 <= a < states@.len() implies (#[trigger] states@[a]).name@ == old(states)@[a].name@ by {}
            }
        },
        None => {
            proof {
                crate::monitor::lemma_find_index_absent(old(states)@, s.name@);
            }
            states.push(s);
            proof {
                assert forall|a: int| 0 <= a < old(states)@.len() implies (#[trigger] states@[a]) == old(states)@[a] by {}
            }
        },
    }
}

fn collect_statuses(states: &Vec<TargetState>) -> (r: Vec<Status>)
    ensures
        r@ == statuses(states@),
{
    let mut r: Vec<Status> = Vec::new();
    let mut i: usize = 0;
    while i < states.len()
        invariant
            i <= states.len(),
            r@ == statuses(states@).take(i as int),
        decreases states.len() - i,
    {
        r.push(states[i].status);
        i = i + 1;
        assert(r@ =~= statuses(states@).take(i as int));
    }
    assert(statuses(states@).take(states.len() as int) =~= statuses(states@));
    r
}

impl TrayApp {
    /// A tray with no reported states, no menu and no icon shown yet.
    pub fn new(config: std::sync::Arc<Config>, appdata: AppData) -> (r: TrayApp)
        ensures
            r@.config == *config,
            r@.appdata == appdata,
            r@.targets.len() == 0,
            r@.header_texts.len() == 0,
            r@.last_agg is None,
            unique_names(r@.targets),
            distinct_header_names(r@.header_texts),
    {
        TrayApp { config, appdata, targets: Vec::new(), header_texts: Vec::new(), last_agg: None }
    }

    /// What the tray needs to appear: the tooltip `general-sys-tray-app`,
    /// the `Okay` icon, and the menu.
    pub fn init(&mut self) -> (r: TrayInit)
        ensures
            r.tooltip@ == "general-sys-tray-app"@,
            r.icon == Status::Okay,
            menu_is(r.menu@, final(self)@.config.targets@, final(self)@.targets),
            final(self)@.config == old(self)@.config,
            final(self)@.appdata == old(self)@.appdata,
            final(self)@.targets == old(self)@.targets,
            final(self)@.last_agg == old(self)@.last_agg,
            headers_built(final(self)@.config.targets@, final(self)@.targets, final(self)@.config.targets@.len() as int, final(self)@.header_texts),
            unique_names(final(self)@.targets),
            distinct_header_names(final(self)@.header_texts),
    {
        let menu = self.build_menu();
        TrayInit { tooltip: string_of("general-sys-tray-app"), icon: Status::Okay, menu }
    }

    /// Builds the menu from the configuration and the reported states, and
    /// records which header entry shows which target: a `Targets` submenu
    /// with five entries per target, a separator, then `Poll now`,
    /// `Preferences…` and `Quit`.
    pub fn build_menu(&mut self) -> (r: Vec<MenuNode>)
        ensures
            menu_is(r@, final(self)@.config.targets@, final(self)@.targets),
            final(self)@.config == old(self)@.config,
            final(self)@.appdata == old(self)@.appdata,
            final(self)@.targets == old(self)@.targets,
            final(self)@.last_agg == old(self)@.last_agg,
            headers_built(final(self)@.config.targets@, final(self)@.targets, final(self)@.config.targets@.len() as int, final(self)@.header_texts),
            unique_names(final(self)@.targets),
            distinct_header_names(final(self)@.header_texts),
    {
        proof {
            use_type_invariant(&*self);
        }
        let targets = &self.config.targets;
        let ghost ts = self.config.targets@;
        let mut hs: Vec<HeaderText> = Vec::new();
        let mut items: Vec<MenuEntry> = Vec::new();
        let mut k: usize = 0;
        while k < targets.len()
            invariant
                ts == self.config.targets@,
                targets@ == ts,
                k <= ts.len(),
                entry_views(items@) == targets_entries(ts, self.targets@, k as int),
                headers_built(ts, self.targets@, k as int, hs@),
            decreases ts.len() - k,
        {
            let t = &targets[k];
            let status = recorded_status(&self.targets, t.name.as_str());
            let label = target_label(t);
            let header = make_header_text(status, label.as_str());
            let ghost before_items = items@;
            items.push(entry(header.clone(), false, Some(t.name.clone())));
            let mut show = string_of("  Show tail: ");
            show.append(label.as_str());
            items.push(entry(show, true, None));
            items.push(entry(string_of("  Open log in viewer"), t.log.is_some(), None));
            let mut restart = string_of("  Restart \"");
            restart.append(label.as_str());
            restart.append("\"");
            items.push(entry(restart, t.restart_script.is_some(), None));
            let mut stop = string_of("  Stop \"");
            stop.append(label.as_str());
            stop.append("\"");
            items.push(entry(stop, true, None));
            proof {
                assert(entry_views(items@) =~= entry_views(before_items) + target_entries(
                    ts[k as int],
                    status_of(self.targets@, ts[k as int].name@),
                ));
            }
            let ghost before = hs@;
            let fresh = HeaderText { name: t.name.clone(), text: header };
            match find_header(&hs, t.name.as_str()) {
                Some(i) => {
                    hs.set(i, fresh);
                    proof {
                        lemma_headers_replace(ts, self.targets@, k as int, before, i as int, hs@);
                    }
                },
                None => {
                    hs.push(fresh);
                    proof {
                        lemma_headers_push(ts, self.targets@, k as int, before, hs@);
                    }
                },
            }
            k = k + 1;
        }
        self.header_texts = hs;
        let mut menu: Vec<MenuNode> = Vec::new();
        menu.push(MenuNode::Submenu { title: string_of("Targets"), enabled: true, items });
        menu.push(MenuNode::Separator);
        menu.push(MenuNode::Item(entry(string_of("Poll now"), true, None)));
        menu.push(MenuNode::Item(entry(string_of("Preferences\u{2026}"), true, None)));
        menu.push(MenuNode::Item(entry(string_of("Quit"), true, None)));
        menu
    }

    /// Takes an update from the monitor. An update with an empty name
    /// changes nothing. Otherwise the target's state is replaced (labelled
    /// as `label_for` says, checked at `now`), the icon is to change when
    /// the worst status differs from the one shown, and every header entry
    /// whose text is no longer current is to be rewritten.
    pub fn handle_update(&mut self, update: MonitorUpdate, now: std::time::SystemTime) -> (r: UiChanges)
        ensures
            final(self)@.config == old(self)@.config,
            final(self)@.appdata == old(self)@.appdata,
            unique_names(final(self)@.targets),
            distinct_header_names(final(self)@.header_texts),
            headers_current(old(self)@.config, old(self)@.targets, old(self)@.header_texts)
                ==> headers_current(final(self)@.config, final(self)@.targets, final(self)@.header_texts),
            match update {
                MonitorUpdate::TargetUpdate { name, status, tail_text, pid, last_modified } => if name@.len() == 0 {
                    &&& final(self)@.targets == old(self)@.targets
                    &&& final(self)@.header_texts == old(self)@.header_texts
                    &&& final(self)@.last_agg == old(self)@.last_agg
                    &&& r.icon is None
                    &&& r.headers@.len() == 0
                } else {
                    let new_targets = final(self)@.targets;
                    let agg = worst_status(statuses(new_targets));
                    &&& exists|label: String|
                        label@ == label_for(old(self)@.config, name@) && new_targets == upsert(
                            old(self)@.targets,
                            TargetState { name, label, status, tail_text, last_checked: now, last_modified, pid },
                        )
                    &&& final(self)@.last_agg == Some(agg)
                    &&& r.icon == (if old(self)@.last_agg == Some(agg) { None } else { Some(agg) })
                    &&& final(self)@.header_texts.len() == old(self)@.header_texts.len()
                    &&& forall|k: int| 0 <= k < final(self)@.header_texts.len() ==> {
                        &&& (#[trigger] final(self)@.header_texts[k]).name == old(self)@.header_texts[k].name
                        &&& final(self)@.header_texts[k].text@ == current_header(old(self)@.config, new_targets, old(self)@.header_texts[k].name@)
                    }
                    &&& header_views(r.headers@) == header_changes(old(self)@.config, new_targets, old(self)@.header_texts)
                    &&& headers_current(final(self)@.config, new_targets, final(self)@.header_texts)
                    &&& forall|n: Seq<char>, t: Seq<char>|
                        #[trigger] header_views(r.headers@).contains((n, t)) <==> exists|k: int|
                            0 <= k < old(self)@.header_texts.len() && (#[trigger] old(self)@.header_texts[k]).name@ == n
                                && old(self)@.header_texts[k].text@ != current_header(old(self)@.config, new_targets, n)
                                && t == current_header(old(self)@.config, new_targets, n)
                    &&& forall|a: int, b: int|
                        0 <= a < r.headers@.len() && 0 <= b < r.headers@.len() && a != b
                            ==> (#[trigger] r.headers@[a]).name@ != (#[trigger] r.headers@[b]).name@
                },
            },
    {
        proof {
            use_type_invariant(&*self);
        }
        match update {
            MonitorUpdate::TargetUpdate { name, status, tail_text, pid, last_modified } => {
                if name.as_str().is_empty() {
                    return UiChanges { icon: None, headers: Vec::new() };
                }
                let label = label_for_name(&self.config, name.as_str());
                let state = TargetState { name, label, status, tail_text, last_checked: now, last_modified, pid };
                let ghost new_state = state;
                let mut targets: Vec<TargetState> = Vec::new();
                std::mem::swap(&mut targets, &mut self.targets);
                upsert_state(&mut targets, state);
                self.targets = targets;
                let all = collect_statuses(&self.targets);
                let agg = aggregate_status(all.as_slice());
                let icon = match self.last_agg {
                    Some(shown) if shown == agg => None,
                    _ => Some(agg),
                };
                self.last_agg = Some(agg);
                let headers = self.refresh_headers();
                proof {
                    lemma_same_header_names(old(self).header_texts@, self.header_texts@);
                    lemma_header_rewrites(self@.config, self.targets@, old(self).header_texts@);
                    let ch = header_changes(self@.config, self.targets@, old(self).header_texts@);
                    let ohs = old(self)@.header_texts;
                    let c = old(self)@.config;
                    let nt = self@.targets;
                    assert(header_views(headers@) == ch);
                    assert forall|n: Seq<char>, t: Seq<char>|
                        #[trigger] header_views(headers@).contains((n, t)) <==> exists|k: int|
                            0 <= k < ohs.len() && (#[trigger] ohs[k]).name@ == n
                                && ohs[k].text@ != current_header(c, nt, n)
                                && t == current_header(c, nt, n) by {
                        assert(ch.contains((n, t)) == header_views(headers@).contains((n, t)));
                    }
                    assert forall|a: int, b: int|
                        0 <= a < headers@.len() && 0 <= b < headers@.len() && a != b
                            implies (#[trigger] headers@[a]).name@ != (#[trigger] headers@[b]).name@ by {
                        assert(header_views(headers@)[a] == ch[a]);
                        assert(header_views(headers@)[b] == ch[b]);
                    }
                }
                proof {
                    assert(self@.targets == upsert(old(self)@.targets, new_state));
                }
                UiChanges { icon, headers }
            },
        }
    }

    /// Rewrites the header texts that are no longer current and returns the
    /// changed ones, in order.
    fn refresh_headers(&mut self) -> (r: Vec<HeaderText>)
        ensures
            final(self).config == old(self).config,
            final(self).appdata == old(self).appdata,
            final(self).targets == old(self).targets,
            final(self).last_agg == old(self).last_agg,
            final(self).header_texts@.len() == old(self).header_texts@.len(),
            forall|k: int| 0 <= k < final(self).header_texts@.len() ==> {
                &&& (#[trigger] final(self).header_texts@[k]).name == old(self).header_texts@[k].name
                &&& final(self).header_texts@[k].text@ == current_header(*old(self).config, old(self).targets@, old(self).header_texts@[k].name@)
            },
            header_views(r@) == header_changes(*old(self).config, old(self).targets@, old(self).header_texts@),
    {
        proof {
            use_type_invariant(&*self);
        }
        let ghost old_hs = self.header_texts@;
        let mut hs: Vec<HeaderText> = Vec::new();
        std::mem::swap(&mut hs, &mut self.header_texts);
        let mut changes: Vec<HeaderText> = Vec::new();
        let mut k: usize = 0;
        while k < hs.len()
            invariant
                self.config == old(self).config,
                self.appdata == old(self).appdata,
                self.targets == old(self).targets,
                self.last_agg == old(self).last_agg,
                old_hs == old(self).header_texts@,
                distinct_header_names(old_hs),
                unique_names(self.targets@),
                hs@.len() == old_hs.len(),
                k <= old_hs.len(),
                forall|m: int| k <= m < old_hs.len() ==> #[trigger] hs@[m] == old_hs[m],
                forall|m: int| 0 <= m < k ==> {
                    &&& (#[trigger] hs@[m]).name == old_hs[m].name
                    &&& hs@[m].text@ == current_header(*self.config, self.targets@, old_hs[m].name@)
                },
                header_views(changes@) == header_changes(*self.config, self.targets@, old_hs.take(k as int)),
            decreases old_hs.len() - k,
        {
            let name = hs[k].name.clone();
            let status = recorded_status(&self.targets, name.as_str());
            let label = label_for_name(&self.config, name.as_str());
            let text = make_header_text(status, label.as_str());
            let ghost before_changes = changes@;
            proof {
                assert(old_hs.take(k + 1).drop_last() =~= old_hs.take(k as int));
                assert(old_hs.take(k + 1).last() == old_hs[k as int]);
            }
            if !same_text(hs[k].text.as_str(), text.as_str()) {
                changes.push(HeaderText { name: name.clone(), text: text.clone() });
                assert(header_views(changes@) =~= header_views(before_changes).push((name@, text@)));
                hs.set(k, HeaderText { name, text });
            } else {
                assert(hs@[k as int].text@ == text@);
            }
            k = k + 1;
        }
        proof {
            assert forall|m: int| 0 <= m < old_hs.len() implies (#[trigger] hs@[m]).name == old_hs[m].name by {}
            lemma_same_header_names(old_hs, hs@);
        }
        self.header_texts = hs;
        assert(old_hs.take(old_hs.len() as int) =~= old_hs);
        changes
    }
}

/// The menu is a `Targets` submenu with the entries of all targets, a
/// separator, and the `Poll now`, `Preferences…` and `Quit` entries.
pub open spec fn menu_is(menu: Seq<MenuNode>, ts: Seq<TargetConfig>, states: Seq<TargetState>) -> bool {
    &&& menu.len() == 5
    &&& menu[0] matches MenuNode::Submenu { title, enabled, items } && title@ == "Targets"@ && enabled
        && entry_views(items@) == targets_entries(ts, states, ts.len() as int)
    &&& menu[1] is Separator
    &&& menu[2] matches MenuNode::Item(e) && e.text@ == "Poll now"@ && e.enabled && e.header_of is None
    &&& menu[3] matches MenuNode::Item(e) && e.text@ == "Preferences\u{2026}"@ && e.enabled && e.header_of is None
    &&& menu[4] matches MenuNode::Item(e) && e.text@ == "Quit"@ && e.enabled && e.header_of is None
}

proof fn lemma_headers_replace(ts: Seq<TargetConfig>, states: Seq<TargetState>, k: int, before: Seq<HeaderText>, i: int, after: Seq<HeaderText>)
    requires
        0 <= k < ts.len(),
        headers_built(ts, states, k, before),
        0 <= i < before.len(),
        before[i].name@ == ts[k].name@,
        after.len() == before.len(),
        forall|m: int| 0 <= m < before.len() && m != i ==> #[trigger] after[m] == before[m],
        after[i].name@ == ts[k].name@,
        after[i].text@ == header_text(status_of(states, ts[k].name@), label_of(ts[k])),
    ensures
        headers_built(ts, states, k + 1, after),
{
    assert forall|a: int, b: int| 0 <= a < after.len() && 0 <= b < after.len() && a != b implies (#[trigger] after[a]).name@ != (#[trigger] after[b]).name@ by {
        if a != i && b != i {
            assert(before[a].name@ != before[b].name@);
        } else if a == i {
            assert(before[a].name@ != before[b].name@);
        } else {
            assert(before[a].name@ != before[b].name@);
        }
    }
    assert forall|j: int| 0 <= j < k + 1 implies exists|m: int| 0 <= m < after.len() && (#[trigger] after[m]).name@ == (#[trigger] ts[j]).name@ by {
        if j < k {
            let m = choose|m: int| 0 <= m < before.len() && (#[trigger] before[m]).name@ == ts[j].name@;
            if m == i {
                assert(after[i].name@ == ts[j].name@);
            } else {
                assert(after[m] == before[m]);
            }
        } else {
            assert(after[i].name@ == ts[j].name@);
        }
    }
    assert forall|m: int| 0 <= m < after.len() implies exists|j: int| crate::monitor::last_of_name(ts, k + 1, j) && (#[trigger] ts[j]).name@ == (#[trigger] after[m]).name@
        && after[m].text@ == header_text(status_of(states, ts[j].name@), label_of(ts[j])) by {
        if m == i {
            assert(crate::monitor::last_of_name(ts, k + 1, k));
        } else {
            assert(after[m] == before[m]);
            let j = choose|j: int| crate::monitor::last_of_name(ts, k, j) && (#[trigger] ts[j]).name@ == (#[trigger] before[m]).name@
                && before[m].text@ == header_text(status_of(states, ts[j].name@), label_of(ts[j]));
            assert(before[m].name@ != before[i].name@);
            assert(crate::monitor::last_of_name(ts, k + 1, j));
        }
    }
}

proof fn lemma_headers_push(ts: Seq<TargetConfig>, states: Seq<TargetState>, k: int, before: Seq<HeaderText>, after: Seq<HeaderText>)
    requires
        0 <= k < ts.len(),
        headers_built(ts, states, k, before),
        forall|m: int| 0 <= m < before.len() ==> (#[trigger] before[m]).name@ != ts[k].name@,
        after.len() == before.len() + 1,
        forall|m: int| 0 <= m < before.len() ==> #[trigger] after[m] == before[m],
        after[before.len() as int].name@ == ts[k].name@,
        after[before.len() as int].text@ == header_text(status_of(states, ts[k].name@), label_of(ts[k])),
    ensures
        headers_built(ts, states, k + 1, after),
{
    let n = before.len() as int;
    assert forall|a: int, b: int| 0 <= a < after.len() && 0 <= b < after.len() && a != b implies (#[trigger] after[a]).name@ != (#[trigger] after[b]).name@ by {
        if a < n && b < n {
            assert(before[a].name@ != before[b].name@);
        } else if a < n {
            assert(after[a] == before[a]);
        } else {
            assert(after[b] == before[b]);
        }
    }
    assert forall|j: int| 0 <= j < k + 1 implies exists|m: int| 0 <= m < after.len() && (#[trigger] after[m]).name@ == (#[trigger] ts[j]).name@ by {
        if j < k {
            let m = choose|m: int| 0 <= m < before.len() && (#[trigger] before[m]).name@ == ts[j].name@;
            assert(after[m] == before[m]);
        } else {
            assert(after[n].name@ == ts[j].name@);
        }
    }
    assert forall|m: int| 0 <= m < after.len() implies exists|j: int| crate::monitor::last_of_name(ts, k + 1, j) && (#[trigger] ts[j]).name@ == (#[trigger] after[m]).name@
        && after[m].text@ == header_text(status_of(states, ts[j].name@), label_of(ts[j])) by {
        if m == n {
            assert(crate::monitor::last_of_name(ts, k + 1, k));
        } else {
            assert(after[m] == before[m]);
            let j = choose|j: int| crate::monitor::last_of_name(ts, k, j) && (#[trigger] ts[j]).name@ == (#[trigger] before[m]).name@
                && before[m].text@ == header_text(status_of(states, ts[j].name@), label_of(ts[j]));
            assert(crate::monitor::last_of_name(ts, k + 1, j));
        }
    }
}


// ---------------------------------------------------------------------
// Menu choices and windows
// ---------------------------------------------------------------------

/// What a menu choice asks for; targets are given by their position in the
/// configuration.
#[derive(Debug, Clone, Copy, PartialEq, Eq, Structural)]
pub enum MenuAction {
    ShowTail(usize),
    OpenLog(usize),
    Restart(usize),
    Stop(usize),
    PollNow,
    OpenPreferences,
    Quit,
}

/// What the choice `id` asks for, as seen from target `i`: the first of
/// these that applies, in this order: its `Show tail` text is part of
/// `id`; `id` is `Open log in viewer` and it has a log; `id` is its
/// `Restart` text and it has a restart script; `id` is its `Stop` text;
/// `id` is `Poll now`, `Preferences…` or `Quit`.
pub open spec fn action_for(t: TargetConfig, i: int, id: Seq<char>) -> Option<MenuAction> {
    let label = label_of(t);
    if has_substring(id, "Show tail: "@ + label) {
        Some(MenuAction::ShowTail(i as usize))
    } else if id == "Open log in viewer"@ && t.log is Some {
        Some(MenuAction::OpenLog(i as usize))
    } else if id == "Restart \""@ + label + "\""@ && t.restart_script is Some {
        Some(MenuAction::Restart(i as usize))
    } else if id == "Stop \""@ + label + "\""@ {
        Some(MenuAction::Stop(i as usize))
    } else if id == "Poll now"@ {
        Some(MenuAction::PollNow)
    } else if id == "Preferences\u{2026}"@ {
        Some(MenuAction::OpenPreferences)
    } else if id == "Quit"@ {
        Some(MenuAction::Quit)
    } else {
        None
    }
}

/// The actions of a menu choice over the first `k` targets, in order: each
/// target contributes the action it sees, if any.
pub open spec fn actions_for(ts: Seq<TargetConfig>, k: int, id: Seq<char>) -> Seq<MenuAction>
    decreases k,
{
    if k <= 0 {
        Seq::empty()
    } else {
        let rest = actions_for(ts, k - 1, id);
        match action_for(ts[k - 1], k - 1, id) {
            Some(a) => rest.push(a),
            None => rest,
        }
    }
}

/// The actions that the menu choice `id` asks for, one per target that
/// sees one, in target order.
pub fn menu_event_actions(config: &Config, id: &str) -> (r: Vec<MenuAction>)
    ensures
        r@ == actions_for(config.targets@, config.targets@.len() as int, id@),
{
    proof {
        reveal_strlit("Open log in viewer");
        reveal_strlit("Poll now");
        reveal_strlit("Preferences\u{2026}");
        reveal_strlit("Quit");
    }
    let mut r: Vec<MenuAction> = Vec::new();
    let mut k: usize = 0;
    while k < config.targets.len()
        invariant
            k <= config.targets.len(),
            r@ == actions_for(config.targets@, k as int, id@),
        decreases config.targets.len() - k,
    {
        let t = &config.targets[k];
        let label = target_label(t);
        let mut show = string_of("Show tail: ");
        show.append(label.as_str());
        let mut restart = string_of("Restart \"");
        restart.append(label.as_str());
        restart.append("\"");
        let mut stop = string_of("Stop \"");
        stop.append(label.as_str());
        stop.append("\"");
        let action = if contains(id, show.as_str()) {
            Some(MenuAction::ShowTail(k))
        } else if same_text(id, "Open log in viewer") && t.log.is_some() {
            Some(MenuAction::OpenLog(k))
        } else if same_text(id, restart.as_str()) && t.restart_script.is_some() {
            Some(MenuAction::Restart(k))
        } else if same_text(id, stop.as_str()) {
            Some(MenuAction::Stop(k))
        } else if same_text(id, "Poll now") {
            Some(MenuAction::PollNow)
        } else if same_text(id, "Preferences\u{2026}") {
            Some(MenuAction::OpenPreferences)
        } else if same_text(id, "Quit") {
            Some(MenuAction::Quit)
        } else {
            None
        };
        assert(action == action_for(config.targets@[k as int], k as int, id@));
        if let Some(a) = action {
            r.push(a);
        }
        k = k + 1;
    }
    r
}

/// One row of the summary window: status symbol, label, tail text.
#[derive(Debug)]
pub struct SummaryRow {
    pub glyph: String,
    pub label: String,
    pub tail: String,
}

/// The summary row of a target: the symbol and tail text of its recorded
/// state (empty when none is recorded) and its label.
pub open spec fn summary_row(t: TargetConfig, states: Seq<TargetState>) -> (Seq<char>, Seq<char>, Seq<char>) {
    match find_index(states, t.name@) {
        Some(i) => (status_glyph(states[i].status), label_of(t), states[i].tail_text@),
        None => (Seq::empty(), label_of(t), Seq::empty()),
    }
}

/// The rows of the summary window, one per target, in order.
pub fn summary_rows(app: &TrayApp) -> (r: Vec<SummaryRow>)
    ensures
        r@.len() == app@.config.targets@.len(),
        forall|k: int| 0 <= k < r@.len() ==> ((#[trigger] r@[k]).glyph@, r@[k].label@, r@[k].tail@)
            == summary_row(app@.config.targets@[k], app@.targets),
{
    let targets = &app.config.targets;
    let mut r: Vec<SummaryRow> = Vec::new();
    let mut k: usize = 0;
    while k < targets.len()
        invariant
            targets@ == app.config.targets@,
            k <= targets.len(),
            r@.len() == k,
            forall|m: int| 0 <= m < k ==> ((#[trigger] r@[m]).glyph@, r@[m].label@, r@[m].tail@)
                == summary_row(app.config.targets@[m], app.targets@),
        decreases targets.len() - k,
    {
        let t = &targets[k];
        let label = target_label(t);
        let row = match find_state(&app.targets, t.name.as_str()) {
            Some(i) => {
                proof {
                    crate::monitor::lemma_find_index_first(app.targets@, t.name@, i as int);
                }
                SummaryRow {
                    glyph: string_of(app.targets[i].status.glyph()),
                    label,
                    tail: app.targets[i].tail_text.clone(),
                }
            },
            None => {
                proof {
                    crate::monitor::lemma_find_index_absent(app.targets@, t.name@);
                }
                SummaryRow { glyph: String::new(), label, tail: String::new() }
            },
        };
        r.push(row);
        k = k + 1;
    }
    r
}

/// The tail text recorded for a target name, empty when none is.
pub fn tail_text_of(app: &TrayApp, name: &str) -> (r: String)
    ensures
        r@ == (match find_index(app@.targets, name@) {
            Some(i) => app@.targets[i].tail_text@,
            None => Seq::empty(),
        }),
{
    match find_state(&app.targets, name) {
        Some(i) => {
            proof {
                crate::monitor::lemma_find_index_first(app.targets@, name@, i as int);
            }
            app.targets[i].tail_text.clone()
        },
        None => {
            proof {
                crate::monitor::lemma_find_index_absent(app.targets@, name@);
            }
            String::new()
        },
    }
}

/// The title of a target's tail window: `Tail: ` and its label.
pub fn tail_window_title(t: &TargetConfig) -> (r: String)
    ensures
        r@ == "Tail: "@ + label_of(*t),
{
    let mut r = string_of("Tail: ");
    let label = target_label(t);
    r.append(label.as_str());
    r
}

// ---------------------------------------------------------------------
// Laws of the tray
// ---------------------------------------------------------------------

/// After `upsert`, the recorded state is found under its name.
proof fn lemma_upsert_finds(states: Seq<TargetState>, s: TargetState)
    ensures
        find_index(upsert(states, s), s.name@) matches Some(i) && upsert(states, s)[i] == s,
{
    let u = upsert(states, s);
    match find_index(states, s.name@) {
        Some(i) => {
            let c = choose|c: int| first_state_named(states, s.name@, c);
            assert(first_state_named(u, s.name@, i));
            crate::monitor::lemma_find_index_first(u, s.name@, i);
        },
        None => {
            let n = states.len() as int;
            assert forall|m: int| 0 <= m < n implies (#[trigger] u[m]).name@ != s.name@ by {
                if states[m].name@ == s.name@ {
                    crate::monitor::lemma_first_of_name_exists(states, s.name@, m);
                }
            }
            assert(first_state_named(u, s.name@, n));
            crate::monitor::lemma_find_index_first(u, s.name@, n);
        },
    }
}

proof fn lemma_no_header_changes(c: Config, states: Seq<TargetState>, hs: Seq<HeaderText>)
    requires
        forall|k: int| 0 <= k < hs.len() ==> (#[trigger] hs[k]).text@ == current_header(c, states, hs[k].name@),
    ensures
        header_changes(c, states, hs).len() == 0,
    decreases hs.len(),
{
    if hs.len() > 0 {
        assert forall|k: int| 0 <= k < hs.drop_last().len() implies (#[trigger] hs.drop_last()[k]).text@ == current_header(c, states, hs.drop_last()[k].name@) by {
            assert(hs.drop_last()[k] == hs[k]);
        }
        lemma_no_header_changes(c, states, hs.drop_last());
        assert(hs.last() == hs[hs.len() - 1]);
    }
}

/// Receiving again an update with the same name and status changes
/// nothing on screen: the tray icon's status stays, and no header text
/// has to be rewritten.
pub proof fn lemma_repeated_update_changes_nothing(
    c: Config,
    states: Seq<TargetState>,
    hs: Seq<HeaderText>,
    s: TargetState,
    s2: TargetState,
)
    requires
        s2.name@ == s.name@,
        s2.status == s.status,
        forall|k: int| 0 <= k < hs.len() ==> (#[trigger] hs[k]).text@ == current_header(c, upsert(states, s), hs[k].name@),
    ensures
        worst_status(statuses(upsert(upsert(states, s), s2))) == worst_status(statuses(upsert(states, s))),
        header_changes(c, upsert(upsert(states, s), s2), hs).len() == 0,
{
    let s1 = upsert(states, s);
    lemma_upsert_finds(states, s);
    let i = find_index(s1, s.name@)->0;
    assert(find_index(s1, s2.name@) == Some(i));
    let t2 = upsert(s1, s2);
    assert(t2 == s1.update(i, s2));
    assert(statuses(t2) =~= statuses(s1));
    assert forall|n: Seq<char>| #[trigger] status_of(t2, n) == status_of(s1, n) by {
        crate::monitor::lemma_find_index_same_names(s1, t2, n);
    }
    assert forall|k: int| 0 <= k < hs.len() implies (#[trigger] hs[k]).text@ == current_header(c, t2, hs[k].name@) by {
        assert(status_of(t2, hs[k].name@) == status_of(s1, hs[k].name@));
    }
    lemma_no_header_changes(c, t2, hs);
}


/// No two header entries name the same target.
pub open spec fn distinct_header_names(hs: Seq<HeaderText>) -> bool {
    forall|a: int, b: int|
        0 <= a < hs.len() && 0 <= b < hs.len() && a != b ==> (#[trigger] hs[a]).name@ != (#[trigger] hs[b]).name@
}

/// Every header entry shows the text that is current for its name.
pub open spec fn headers_current(c: Config, states: Seq<TargetState>, hs: Seq<HeaderText>) -> bool {
    forall|k: int| 0 <= k < hs.len() ==> (#[trigger] hs[k]).text@ == current_header(c, states, hs[k].name@)
}

proof fn lemma_same_header_names(a: Seq<HeaderText>, b: Seq<HeaderText>)
    requires
        a.len() == b.len(),
        forall|k: int| 0 <= k < a.len() ==> (#[trigger] b[k]).name == a[k].name,
    ensures
        distinct_header_names(a) ==> distinct_header_names(b),
{
    if distinct_header_names(a) {
        assert forall|x: int, y: int|
            0 <= x < b.len() && 0 <= y < b.len() && x != y implies (#[trigger] b[x]).name@ != (#[trigger] b[y]).name@ by {
            assert(b[x].name == a[x].name);
            assert(b[y].name == a[y].name);
        }
    }
}

/// The header rewrites of an update, for header entries with distinct
/// names: a (name, text) pair is rewritten exactly when an entry of that
/// name shows something other than the current text, which it then
/// receives; no name is rewritten twice.
pub proof fn lemma_header_rewrites(c: Config, states: Seq<TargetState>, hs: Seq<HeaderText>)
    requires
        distinct_header_names(hs),
    ensures
        forall|n: Seq<char>, t: Seq<char>|
            #[trigger] header_changes(c, states, hs).contains((n, t)) <==> exists|k: int|
                0 <= k < hs.len() && (#[trigger] hs[k]).name@ == n && hs[k].text@ != current_header(c, states, n)
                    && t == current_header(c, states, n),
        forall|a: int, b: int|
            0 <= a < header_changes(c, states, hs).len() && 0 <= b < header_changes(c, states, hs).len() && a != b
                ==> (#[trigger] header_changes(c, states, hs)[a]).0 != (#[trigger] header_changes(c, states, hs)[b]).0,
    decreases hs.len(),
{
    let ch = header_changes(c, states, hs);
    if hs.len() == 0 {
        assert forall|n: Seq<char>, t: Seq<char>| #[trigger] ch.contains((n, t)) implies false by {}
    } else {
        let init = hs.drop_last();
        let h = hs.last();
        assert forall|x: int, y: int|
            0 <= x < init.len() && 0 <= y < init.len() && x != y implies (#[trigger] init[x]).name@ != (#[trigger] init[y]).name@ by {
            assert(init[x] == hs[x]);
            assert(init[y] == hs[y]);
        }
        lemma_header_rewrites(c, states, init);
        let rest = header_changes(c, states, init);
        let last = hs.len() - 1;
        assert(h == hs[last]);
        assert forall|n: Seq<char>, t: Seq<char>|
            #[trigger] ch.contains((n, t)) <==> exists|k: int|
                0 <= k < hs.len() && (#[trigger] hs[k]).name@ == n && hs[k].text@ != current_header(c, states, n)
                    && t == current_header(c, states, n) by {
            if ch.contains((n, t)) {
                let i = choose|i: int| 0 <= i < ch.len() && ch[i] == (n, t);
                if i < rest.len() {
                    assert(rest.contains((n, t)));
                    let k = choose|k: int|
                        0 <= k < init.len() && (#[trigger] init[k]).name@ == n && init[k].text@ != current_header(c, states, n)
                            && t == current_header(c, states, n);
                    assert(hs[k] == init[k]);
                } else {
                    assert(hs[last].name@ == n);
                }
            }
            if exists|k: int|
                0 <= k < hs.len() && (#[trigger] hs[k]).name@ == n && hs[k].text@ != current_header(c, states, n)
                    && t == current_header(c, states, n) {
                let k = choose|k: int|
                    0 <= k < hs.len() && (#[trigger] hs[k]).name@ == n && hs[k].text@ != current_header(c, states, n)
                        && t == current_header(c, states, n);
                if k < last {
                    assert(init[k] == hs[k]);
                    assert(rest.contains((n, t)));
                    let i = choose|i: int| 0 <= i < rest.len() && rest[i] == (n, t);
                    assert(ch[i] == (n, t));
                } else {
                    assert(ch[ch.len() - 1] == (n, t));
                }
            }
        }
        assert forall|a: int, b: int|
            0 <= a < ch.len() && 0 <= b < ch.len() && a != b implies (#[trigger] ch[a]).0 != (#[trigger] ch[b]).0 by {
            if a < rest.len() && b < rest.len() {
                assert(ch[a] == rest[a]);
                assert(ch[b] == rest[b]);
            } else if a < rest.len() {
                assert(ch[a] == rest[a]);
                assert(rest.contains(rest[a]));
                let k = choose|k: int|
                    0 <= k < init.len() && (#[trigger] init[k]).name@ == rest[a].0 && init[k].text@ != current_header(c, states, rest[a].0)
                        && rest[a].1 == current_header(c, states, rest[a].0);
                assert(hs[k] == init[k]);
                assert(ch[b].0 == h.name@);
            } else {
                assert(ch[b] == rest[b]);
                assert(rest.contains(rest[b]));
                let k = choose|k: int|
                    0 <= k < init.len() && (#[trigger] init[k]).name@ == rest[b].0 && init[k].text@ != current_header(c, states, rest[b].0)
                        && rest[b].1 == current_header(c, states, rest[b].0);
                assert(hs[k] == init[k]);
                assert(ch[a].0 == h.name@);
            }
        }
    }
}

/// Across successive updates: when every header entry shows the text that
/// was current before an update, and no two entries share a name, the
/// update rewrites an entry exactly when the text current for its name
/// has changed, and gives it the new text; no name is rewritten twice.
pub proof fn lemma_rewrites_follow_text_changes(
    c: Config,
    before: Seq<TargetState>,
    after: Seq<TargetState>,
    hs: Seq<HeaderText>,
)
    requires
        distinct_header_names(hs),
        headers_current(c, before, hs),
    ensures
        forall|n: Seq<char>, t: Seq<char>|
            #[trigger] header_changes(c, after, hs).contains((n, t)) <==> exists|k: int|
                0 <= k < hs.len() && (#[trigger] hs[k]).name@ == n && current_header(c, before, n) != current_header(c, after, n)
                    && t == current_header(c, after, n),
        forall|a: int, b: int|
            0 <= a < header_changes(c, after, hs).len() && 0 <= b < header_changes(c, after, hs).len() && a != b
                ==> (#[trigger] header_changes(c, after, hs)[a]).0 != (#[trigger] header_changes(c, after, hs)[b]).0,
{
    lemma_header_rewrites(c, after, hs);
    assert forall|n: Seq<char>, t: Seq<char>|
        #[trigger] header_changes(c, after, hs).contains((n, t)) <==> exists|k: int|
            0 <= k < hs.len() && (#[trigger] hs[k]).name@ == n && current_header(c, before, n) != current_header(c, after, n)
                && t == current_header(c, after, n) by {
        if header_changes(c, after, hs).contains((n, t)) {
            let k = choose|k: int|
                0 <= k < hs.len() && (#[trigger] hs[k]).name@ == n && hs[k].text@ != current_header(c, after, n)
                    && t == current_header(c, after, n);
            assert(hs[k].text@ == current_header(c, before, hs[k].name@));
        }
        if exists|k: int|
            0 <= k < hs.len() && (#[trigger] hs[k]).name@ == n && current_header(c, before, n) != current_header(c, after, n)
                && t == current_header(c, after, n) {
            let k = choose|k: int|
                0 <= k < hs.len() && (#[trigger] hs[k]).name@ == n && current_header(c, before, n) != current_header(c, after, n)
                    && t == current_header(c, after, n);
            assert(hs[k].text@ == current_header(c, before, hs[k].name@));
        }
    }
}

/// The `Show tail` entry that the menu shows for a target leads back to
/// that target: choosing `  Show tail: ` followed by its label (the text
/// `build_menu` gives the entry) asks to show that target's tail.
pub proof fn lemma_show_tail_entry_maps_back(ts: Seq<TargetConfig>, k: int, s: Status)
    requires
        0 <= k < ts.len(),
    ensures
        target_entries(ts[k], s)[1].0 == "  Show tail: "@ + label_of(ts[k]),
        actions_for(ts, ts.len() as int, "  Show tail: "@ + label_of(ts[k])).contains(MenuAction::ShowTail(k as usize)),
{
    reveal_strlit("  Show tail: ");
    reveal_strlit("Show tail: ");
    let id = "  Show tail: "@ + label_of(ts[k]);
    let needle = "Show tail: "@ + label_of(ts[k]);
    assert(id.subrange(2, 2 + needle.len() as int) =~= needle);
    assert(has_substring(id, needle));
    assert(action_for(ts[k], k, id) == Some(MenuAction::ShowTail(k as usize)));
    lemma_action_collected(ts, k, ts.len() as int, id);
}

proof fn lemma_action_collected(ts: Seq<TargetConfig>, k: int, m: int, id: Seq<char>)
    requires
        0 <= k < m <= ts.len(),
        action_for(ts[k], k, id) is Some,
    ensures
        actions_for(ts, m, id).contains(action_for(ts[k], k, id)->0),
    decreases m,
{
    let a = action_for(ts[k], k, id)->0;
    if m == k + 1 {
        let rest = actions_for(ts, k, id);
        assert(actions_for(ts, m, id) == rest.push(a));
        assert(actions_for(ts, m, id)[rest.len() as int] == a);
    } else {
        lemma_action_collected(ts, k, m - 1, id);
        let rest = actions_for(ts, m - 1, id);
        let i = choose|i: int| 0 <= i < rest.len() && rest[i] == a;
        match action_for(ts[m - 1], m - 1, id) {
            Some(b) => {
                assert(actions_for(ts, m, id)[i] == a);
            },
            None => {},
        }
    }
}

} // verus!
